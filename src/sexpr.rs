//! S-expression checking, layout and S-combinator generation.
use vstd::prelude::*;
use vstd::string::*;
use crate::text::{push_char, push_text, str_eq, str_contains, contains_text, find_char_from, index_of_from};

verus! {

/// Where a left-to-right scan of an S-expression stands.
pub struct ScanState {
    pub depth: int,
    pub in_string: bool,
    pub escape: bool,
    pub failed: bool,
}

/// One character of the scan: a backslash inside a string escapes the next
/// character, a quote opens or closes a string, parentheses outside
/// strings nest, and a closing one with nothing open fails the scan.
pub open spec fn scan_step(st: ScanState, ch: char) -> ScanState {
    if st.failed {
        st
    } else if st.escape {
        ScanState { escape: false, ..st }
    } else if ch == '\\' && st.in_string {
        ScanState { escape: true, ..st }
    } else if ch == '"' {
        ScanState { in_string: !st.in_string, ..st }
    } else if ch == '(' && !st.in_string {
        ScanState { depth: st.depth + 1, ..st }
    } else if ch == ')' && !st.in_string {
        if st.depth == 0 {
            ScanState { failed: true, ..st }
        } else {
            ScanState { depth: st.depth - 1, ..st }
        }
    } else {
        st
    }
}

/// The scan state after all of `s`.
pub open spec fn scan(s: Seq<char>) -> ScanState
    decreases s.len(),
{
    if s.len() == 0 {
        ScanState { depth: 0, in_string: false, escape: false, failed: false }
    } else {
        scan_step(scan(s.drop_last()), s.last())
    }
}

/// Parentheses balance outside strings, and every string is closed.
pub open spec fn balanced(s: Seq<char>) -> bool {
    let st = scan(s);
    !st.failed && st.depth == 0 && !st.in_string
}

/// `n` copies of two spaces.
pub open spec fn indent(n: nat) -> Seq<char>
    decreases n,
{
    if n == 0 {
        Seq::empty()
    } else {
        indent((n - 1) as nat) + "  "@
    }
}

/// Where a left-to-right layout of an S-expression stands: the text so
/// far, the indentation level, and whether a string or an escape is open.
pub struct LayoutState {
    pub out: Seq<char>,
    pub level: nat,
    pub in_string: bool,
    pub escape: bool,
}

/// One character of the layout: an opening parenthesis starts a deeper
/// line, a closing one goes back to a shallower line, and a space outside
/// strings breaks the line.
pub open spec fn layout_step(st: LayoutState, ch: char) -> LayoutState {
    if st.escape {
        LayoutState { out: st.out.push(ch), escape: false, ..st }
    } else if ch == '\\' && st.in_string {
        LayoutState { out: st.out.push(ch), escape: true, ..st }
    } else if ch == '"' {
        LayoutState { out: st.out.push(ch), in_string: !st.in_string, ..st }
    } else if ch == '(' && !st.in_string {
        LayoutState { out: st.out.push(ch).push('\n') + indent(st.level + 1), level: st.level + 1, ..st }
    } else if ch == ')' && !st.in_string {
        let level: nat = if st.level == 0 {
            0
        } else {
            (st.level - 1) as nat
        };
        LayoutState { out: st.out.push('\n') + indent(level) + seq![ch], level, ..st }
    } else if ch == ' ' && !st.in_string {
        LayoutState { out: st.out.push('\n') + indent(st.level), ..st }
    } else {
        LayoutState { out: st.out.push(ch), ..st }
    }
}

/// The layout state after all of `s`.
pub open spec fn layout(s: Seq<char>) -> LayoutState
    decreases s.len(),
{
    if s.len() == 0 {
        LayoutState { out: Seq::empty(), level: 0, in_string: false, escape: false }
    } else {
        layout_step(layout(s.drop_last()), s.last())
    }
}

/// The S-combinator expression generated for `operation` at `depth`.
pub open spec fn combinator(operation: Seq<char>, depth: nat) -> Seq<char>
    decreases depth,
{
    if depth == 0 {
        "I"@
    } else if operation == "compose"@ {
        "S (S (K "@ + operation + ") ("@ + combinator("map"@, (depth - 1) as nat) + ")) ("@ + combinator(
            "reduce"@,
            (depth - 1) as nat,
        ) + ")"@
    } else if operation == "map"@ {
        "S (K map) ("@ + combinator("transform"@, (depth - 1) as nat) + ")"@
    } else if operation == "reduce"@ {
        "S (S (K fold) acc) ("@ + combinator("combine"@, (depth - 1) as nat) + ")"@
    } else {
        "S (K "@ + operation + ") I"@
    }
}

/// The first `n` characters of `s` (all of it when shorter).
pub open spec fn prefix_chars(s: Seq<char>, n: int) -> Seq<char> {
    if s.len() <= n {
        s
    } else {
        s.subrange(0, n)
    }
}

/// A character with the Unicode property White_Space.
pub open spec fn is_white_space(c: char) -> bool {
    let v = c as u32;
    (0x09 <= v <= 0x0D) || v == 0x20 || v == 0x85 || v == 0xA0 || v == 0x1680 || (0x2000 <= v <= 0x200A)
        || v == 0x2028 || v == 0x2029 || v == 0x202F || v == 0x205F || v == 0x3000
}

/// Position of the first character from `i` on that is not white space
/// (the length if there is none).
pub open spec fn first_non_space(s: Seq<char>, i: int) -> int
    decreases s.len() - i,
{
    if i >= s.len() {
        s.len() as int
    } else if !is_white_space(s[i]) {
        i
    } else {
        first_non_space(s, i + 1)
    }
}

/// One past the last character before `j` that is not white space (0 if
/// there is none).
pub open spec fn end_non_space(s: Seq<char>, j: int) -> int
    decreases j,
{
    if j <= 0 {
        0
    } else if !is_white_space(s[j - 1]) {
        j
    } else {
        end_non_space(s, j - 1)
    }
}

/// `s` without leading and trailing white space.
pub open spec fn trimmed(s: Seq<char>) -> Seq<char> {
    let a = first_non_space(s, 0);
    let b = end_non_space(s, s.len() as int);
    if a < b {
        s.subrange(a, b)
    } else {
        Seq::empty()
    }
}

/// Relies on `str::trim`: the text without its leading and trailing
/// characters of the Unicode property White_Space.
#[verifier::external_body]
fn trim_text(s: &str) -> (r: &str)
    ensures
        r@ == trimmed(s@),
{
    s.trim()
}

/// The text between the first `:` and the next one (or the end);
/// `unknown` when there is no `:`.
pub open spec fn second_field(s: Seq<char>) -> Seq<char> {
    let i = index_of_from(s, ':', 0);
    if i >= s.len() {
        "unknown"@
    } else {
        s.subrange(i + 1, index_of_from(s, ':', i + 1))
    }
}

fn second_field_of(s: &str) -> (r: &str)
    ensures
        r@ == second_field(s@),
{
    let n = s.unicode_len();
    let i = find_char_from(s, ':', 0);
    if i >= n {
        return "unknown";
    }
    let j = find_char_from(s, ':', i + 1);
    s.substring_char(i + 1, j)
}

/// The trace of resolving a name in `content`.
pub open spec fn name_resolution_trace(content: Seq<char>) -> Seq<char> {
    if contains_text(content, "Function:"@) {
        "(resolve-name\n  (identifier \""@ + trimmed(second_field(content))
            + "\")\n  (scope (S (K lookup) env))\n  (result (S (S (K bind) name) value))\n  (trace\n    (step-1 \"Scope traversal\")\n    (step-2 \"Symbol lookup\")\n    (step-3 \"Binding creation\")))"@
    } else {
        "(resolve\n  (content \""@ + prefix_chars(content, 30) + "\")\n  (combinator (S (K resolve) I)))"@
    }
}

/// The trace of inferring a type in `content`.
pub open spec fn type_inference_trace(content: Seq<char>) -> Seq<char> {
    if contains_text(content, "Struct:"@) || contains_text(content, "Enum:"@) {
        "(infer-type\n  (construct \""@ + trimmed(second_field(content))
            + "\")\n  (algorithm (S (S (K unify) constraints) substitutions))\n  (result (S (K type-scheme) generics))\n  (trace\n    (step-1 \"Constraint generation\")\n    (step-2 \"Unification\")\n    (step-3 \"Generalization\")\n    (mathematical-foundation\n      (hindley-milner \"∀α. α → α\")\n      (s-combinator \"S (K type) I\"))))"@
    } else {
        "(type-infer\n  (expression \""@ + prefix_chars(content, 30) + "\")\n  (combinator (S (S (K infer) context) expr)))"@
    }
}

/// Traces analysis steps as S-expressions.
pub struct SExprTracer {
    pub trace_depth: usize,
}

fn first_chars(s: &str, n: usize) -> (r: &str)
    ensures
        r@ == prefix_chars(s@, n as int),
{
    let len = s.unicode_len();
    if len <= n {
        s.substring_char(0, len)
    } else {
        s.substring_char(0, n)
    }
}

fn push_indent(s: &mut String, n: usize)
    ensures
        final(s)@ == old(s)@ + indent(n as nat),
{
    let mut i: usize = 0;
    assert(old(s)@ + indent(0) =~= old(s)@);
    while i < n
        invariant
            0 <= i <= n,
            s@ == old(s)@ + indent(i as nat),
        decreases n - i,
    {
        push_text(s, "  ");
        proof {
            assert(old(s)@ + indent((i + 1) as nat) =~= old(s)@ + indent(i as nat) + "  "@);
        }
        i = i + 1;
    }
}

impl SExprTracer {
    /// A tracer that traces ten levels deep.
    pub fn new() -> (r: SExprTracer)
        ensures
            r.trace_depth == 10,
    {
        SExprTracer { trace_depth: 10 }
    }

    /// Whether `sexpr` is a well-formed S-expression: parentheses outside
    /// strings balance and every string is closed.
    pub fn validate_sexpr(&self, sexpr: &str) -> (r: bool)
        ensures
            r == balanced(sexpr@),
    {
        let n = sexpr.unicode_len();
        let mut depth: usize = 0;
        let mut in_string = false;
        let mut escape = false;
        let mut i: usize = 0;
        while i < n
            invariant
                0 <= i <= n,
                n == sexpr@.len(),
                depth <= i,
                scan(sexpr@.subrange(0, i as int)) == (ScanState {
                    depth: depth as int,
                    in_string,
                    escape,
                    failed: false,
                }),
            decreases n - i,
        {
            let ch = sexpr.get_char(i);
            proof {
                assert(sexpr@.subrange(0, i + 1).drop_last() =~= sexpr@.subrange(0, i as int));
            }
            if escape {
                escape = false;
            } else if ch == '\\' && in_string {
                escape = true;
            } else if ch == '"' {
                in_string = !in_string;
            } else if ch == '(' && !in_string {
                depth = depth + 1;
            } else if ch == ')' && !in_string {
                if depth == 0 {
                    proof {
                        lemma_scan_failed_stays(sexpr@, i as int + 1);
                    }
                    return false;
                }
                depth = depth - 1;
            }
            i = i + 1;
        }
        assert(sexpr@.subrange(0, n as int) =~= sexpr@);
        depth == 0 && !in_string
    }

    /// Lays `sexpr` out one element per line, two spaces per level.
    pub fn pretty_print_sexpr(&self, sexpr: &str) -> (r: String)
        ensures
            r@ == layout(sexpr@).out,
    {
        let n = sexpr.unicode_len();
        let mut result = String::new();
        let mut level: usize = 0;
        let mut in_string = false;
        let mut escape = false;
        let mut i: usize = 0;
        while i < n
            invariant
                0 <= i <= n,
                n == sexpr@.len(),
                level <= i,
                layout(sexpr@.subrange(0, i as int)) == (LayoutState {
                    out: result@,
                    level: level as nat,
                    in_string,
                    escape,
                }),
            decreases n - i,
        {
            let ch = sexpr.get_char(i);
            let ghost st = layout(sexpr@.subrange(0, i as int));
            proof {
                assert(sexpr@.subrange(0, i + 1).drop_last() =~= sexpr@.subrange(0, i as int));
            }
            if escape {
                push_char(&mut result, ch);
                escape = false;
            } else if ch == '\\' && in_string {
                push_char(&mut result, ch);
                escape = true;
            } else if ch == '"' {
                push_char(&mut result, ch);
                in_string = !in_string;
            } else if ch == '(' && !in_string {
                push_char(&mut result, ch);
                level = level + 1;
                push_char(&mut result, '\n');
                push_indent(&mut result, level);
            } else if ch == ')' && !in_string {
                if level > 0 {
                    level = level - 1;
                }
                push_char(&mut result, '\n');
                push_indent(&mut result, level);
                push_char(&mut result, ch);
            } else if ch == ' ' && !in_string {
                push_char(&mut result, '\n');
                push_indent(&mut result, level);
            } else {
                push_char(&mut result, ch);
            }
            assert(result@ =~= layout_step(st, ch).out);
            i = i + 1;
        }
        assert(sexpr@.subrange(0, n as int) =~= sexpr@);
        result
    }

    /// A nested S-combinator expression for `operation`, `depth` levels
    /// deep: `compose` splits into `map` and `reduce`, which wrap
    /// `transform` and `combine`; any other operation is `S (K op) I`.
    pub fn generate_complex_combinator(&self, operation: &str, depth: usize) -> (r: String)
        ensures
            r@ == combinator(operation@, depth as nat),
        decreases depth,
    {
        if depth == 0 {
            return String::from_str("I");
        }
        if str_eq(operation, "compose") {
            let mut r = String::from_str("S (S (K ");
            push_text(&mut r, operation);
            push_text(&mut r, ") (");
            let inner = self.generate_complex_combinator("map", depth - 1);
            push_text(&mut r, inner.as_str());
            push_text(&mut r, ")) (");
            let inner = self.generate_complex_combinator("reduce", depth - 1);
            push_text(&mut r, inner.as_str());
            push_text(&mut r, ")");
            r
        } else if str_eq(operation, "map") {
            let mut r = String::from_str("S (K map) (");
            let inner = self.generate_complex_combinator("transform", depth - 1);
            push_text(&mut r, inner.as_str());
            push_text(&mut r, ")");
            r
        } else if str_eq(operation, "reduce") {
            let mut r = String::from_str("S (S (K fold) acc) (");
            let inner = self.generate_complex_combinator("combine", depth - 1);
            push_text(&mut r, inner.as_str());
            push_text(&mut r, ")");
            r
        } else {
            let mut r = String::from_str("S (K ");
            push_text(&mut r, operation);
            push_text(&mut r, ") I");
            r
        }
    }

    /// Trace of a parsing step over the first 50 characters of `content`.
    pub fn trace_parsing(&self, content: &str) -> (r: String)
        ensures
            r@ == "(parse\n  (input \""@ + prefix_chars(content@, 50)
                + "\")\n  (result (S (K parse) I))\n  (trace\n    (step-1 \"Tokenization\")\n    (step-2 \"Syntax tree construction\")\n    (step-3 \"Validation\")))"@,
    {
        let mut r = String::from_str("(parse\n  (input \"");
        push_text(&mut r, first_chars(content, 50));
        push_text(
            &mut r,
            "\")\n  (result (S (K parse) I))\n  (trace\n    (step-1 \"Tokenization\")\n    (step-2 \"Syntax tree construction\")\n    (step-3 \"Validation\")))",
        );
        r
    }

    /// Trace of a name resolution step: the function named after the first
    /// `:` when `content` declares one, else the first 30 characters.
    pub fn trace_name_resolution(&self, content: &str) -> (r: String)
        ensures
            r@ == name_resolution_trace(content@),
    {
        if str_contains(content, "Function:") {
            let mut r = String::from_str("(resolve-name\n  (identifier \"");
            push_text(&mut r, trim_text(second_field_of(content)));
            push_text(
                &mut r,
                "\")\n  (scope (S (K lookup) env))\n  (result (S (S (K bind) name) value))\n  (trace\n    (step-1 \"Scope traversal\")\n    (step-2 \"Symbol lookup\")\n    (step-3 \"Binding creation\")))",
            );
            r
        } else {
            let mut r = String::from_str("(resolve\n  (content \"");
            push_text(&mut r, first_chars(content, 30));
            push_text(&mut r, "\")\n  (combinator (S (K resolve) I)))");
            r
        }
    }

    /// Trace of a type inference step: the struct or enum named after the
    /// first `:` when `content` declares one, else the first 30 characters.
    pub fn trace_type_inference(&self, content: &str) -> (r: String)
        ensures
            r@ == type_inference_trace(content@),
    {
        if str_contains(content, "Struct:") || str_contains(content, "Enum:") {
            let mut r = String::from_str("(infer-type\n  (construct \"");
            push_text(&mut r, trim_text(second_field_of(content)));
            push_text(
                &mut r,
                "\")\n  (algorithm (S (S (K unify) constraints) substitutions))\n  (result (S (K type-scheme) generics))\n  (trace\n    (step-1 \"Constraint generation\")\n    (step-2 \"Unification\")\n    (step-3 \"Generalization\")\n    (mathematical-foundation\n      (hindley-milner \"∀α. α → α\")\n      (s-combinator \"S (K type) I\"))))",
            );
            r
        } else {
            let mut r = String::from_str("(type-infer\n  (expression \"");
            push_text(&mut r, first_chars(content, 30));
            push_text(&mut r, "\")\n  (combinator (S (S (K infer) context) expr)))");
            r
        }
    }

    /// Trace of a semantic analysis step over the first 40 characters of
    /// `content`.
    pub fn trace_semantic_analysis(&self, content: &str) -> (r: String)
        ensures
            r@ == "(semantic-analysis\n  (input \""@ + prefix_chars(content@, 40)
                + "\")\n  (phases\n    (phase-1 (S (K scope-analysis) ast))\n    (phase-2 (S (K type-checking) scoped-ast))\n    (phase-3 (S (K flow-analysis) typed-ast)))\n  (result (S (S (S (K semantic-info) types) scopes) flows))\n  (mathematical-rigor 0.85)\n  (s-combinator-foundation \"S (K analyze) I\"))"@,
    {
        let mut r = String::from_str("(semantic-analysis\n  (input \"");
        push_text(&mut r, first_chars(content, 40));
        push_text(
            &mut r,
            "\")\n  (phases\n    (phase-1 (S (K scope-analysis) ast))\n    (phase-2 (S (K type-checking) scoped-ast))\n    (phase-3 (S (K flow-analysis) typed-ast)))\n  (result (S (S (S (K semantic-info) types) scopes) flows))\n  (mathematical-rigor 0.85)\n  (s-combinator-foundation \"S (K analyze) I\"))",
        );
        r
    }

    /// Trace of any other step over the first 30 characters of `content`.
    pub fn trace_generic(&self, content: &str) -> (r: String)
        ensures
            r@ == "(generic-trace\n  (content \""@ + prefix_chars(content@, 30)
                + "\")\n  (combinator (S (K identity) I))\n  (steps\n    (step-1 \"Input processing\")\n    (step-2 \"Transformation\")\n    (step-3 \"Output generation\"))\n  (mathematical-foundation\n    (lambda-calculus \"λx.x\")\n    (s-combinator \"S (K f) I\")))"@,
    {
        let mut r = String::from_str("(generic-trace\n  (content \"");
        push_text(&mut r, first_chars(content, 30));
        push_text(
            &mut r,
            "\")\n  (combinator (S (K identity) I))\n  (steps\n    (step-1 \"Input processing\")\n    (step-2 \"Transformation\")\n    (step-3 \"Output generation\"))\n  (mathematical-foundation\n    (lambda-calculus \"λx.x\")\n    (s-combinator \"S (K f) I\")))",
        );
        r
    }
}

proof fn lemma_scan_failed_stays(s: Seq<char>, k: int)
    requires
        0 <= k <= s.len(),
        scan(s.subrange(0, k)).failed,
    ensures
        scan(s).failed,
    decreases s.len() - k,
{
    if k < s.len() {
        assert(s.subrange(0, k + 1).drop_last() =~= s.subrange(0, k));
        lemma_scan_failed_stays(s, k + 1);
    } else {
        assert(s.subrange(0, k) =~= s);
    }
}

} // verus!
