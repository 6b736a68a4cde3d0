//! Code and trace text generated from emoji-encoded architectures.
use vstd::prelude::*;
use vstd::string::*;
use crate::text::{push_char, push_decimal, push_text, str_eq, decimal};

verus! {

/// The operation name of an emoji character in a lambda expression.
pub open spec fn operation_name(c: char) -> Seq<char> {
    if c == '🔥' { "matmul"@ }
    else if c == '⚡' { "relu"@ }
    else if c == '🌊' { "sigmoid"@ }
    else if c == '🌀' { "tanh"@ }
    else if c == '🎭' { "softmax"@ }
    else if c == '📏' { "linear"@ }
    else if c == '🕸' { "conv2d"@ }
    else if c == '👁' { "attention"@ }
    else { "identity"@ }
}

/// The lambda expression of an emoji sequence: each character wraps the
/// expression so far as `S (K op) (<so far>)`, starting from `I`.
pub open spec fn lambda_of_emojis(s: Seq<char>) -> Seq<char>
    decreases s.len(),
{
    if s.len() == 0 {
        "I"@
    } else {
        "S (K "@ + operation_name(s.last()) + ") ("@ + lambda_of_emojis(s.drop_last()) + ")"@
    }
}

/// The forward-pass step of one emoji character, in the Rust template.
pub open spec fn rust_step(c: char) -> Seq<char> {
    if c == '🔥' { "        // MatMul operation\n        x = x.matmul(&weights)?;"@ }
    else if c == '⚡' { "        // ReLU activation\n        x = x.relu()?;"@ }
    else if c == '🌊' { "        // Sigmoid activation\n        x = x.sigmoid()?;"@ }
    else if c == '🌀' { "        // Tanh activation\n        x = x.tanh()?;"@ }
    else if c == '🎭' { "        // Softmax activation\n        x = x.softmax(1)?;"@ }
    else if c == '📏' { "        // Linear transformation\n        x = linear_layer(x)?;"@ }
    else { "        // Identity operation"@ }
}

/// The forward-pass step of one emoji character, in the Python template.
pub open spec fn python_step(c: char) -> Seq<char> {
    if c == '🔥' { "        # MatMul operation\n        x = torch.matmul(x, self.weights)"@ }
    else if c == '⚡' { "        # ReLU activation\n        x = torch.relu(x)"@ }
    else if c == '🌊' { "        # Sigmoid activation\n        x = torch.sigmoid(x)"@ }
    else if c == '🌀' { "        # Tanh activation\n        x = torch.tanh(x)"@ }
    else if c == '🎭' { "        # Softmax activation\n        x = torch.softmax(x, dim=1)"@ }
    else if c == '📏' { "        # Linear transformation\n        x = self.linear(x)"@ }
    else { "        # Identity operation"@ }
}

/// One line per character of `s`, each the Rust step (`python` false) or
/// the Python step (`python` true).
pub open spec fn forward_lines(s: Seq<char>, python: bool) -> Seq<char>
    decreases s.len(),
{
    if s.len() == 0 {
        Seq::empty()
    } else {
        forward_lines(s.drop_last(), python) + (if python { python_step(s.last()) } else { rust_step(s.last()) }) + "\n"@
    }
}

/// `s` with each occurrence of the character `from` replaced by `to`.
pub open spec fn replaced(s: Seq<char>, from: char, to: Seq<char>) -> Seq<char>
    decreases s.len(),
{
    if s.len() == 0 {
        Seq::empty()
    } else {
        replaced(s.drop_last(), from, to) + if s.last() == from { to } else { seq![s.last()] }
    }
}

/// The Rust module generated for an architecture.
pub open spec fn rust_code(architecture: Seq<char>, context: Seq<char>) -> Seq<char> {
    "// Generated neural architecture: "@ + architecture + "\n// Context: "@ + context + "\n\nuse candle_core::{Tensor, Device};\n\npub struct NeuralNetwork {\n    device: Device,\n}\n\nimpl NeuralNetwork {\n    pub fn new() -> Self {\n        Self {\n            device: Device::Cpu,\n        }\n    }\n    \n    pub fn forward(&self, input: Tensor) -> Tensor {\n        let mut x = input;\n        \n        // Architecture: "@ + architecture + "\n"@
        + forward_lines(architecture, false) + "\n        \n        x\n    }\n}\n"@
}

/// The Python module generated for an architecture.
pub open spec fn python_code(architecture: Seq<char>, context: Seq<char>) -> Seq<char> {
    "# Generated neural architecture: "@ + architecture + "\n# Context: "@ + context + "\n\nimport torch\nimport torch.nn as nn\n\nclass NeuralNetwork(nn.Module):\n    def __init__(self):\n        super().__init__()\n        # Architecture: "@ + architecture + "\n        \n    def forward(self, x):\n        # Forward pass implementation\n"@
        + forward_lines(architecture, true) + "\n        return x\n"@
}

/// The code generated in `format` (`rust`, `python`, or a two-line comment).
pub open spec fn code_for(architecture: Seq<char>, context: Seq<char>, format: Seq<char>) -> Seq<char> {
    if format == "rust"@ {
        rust_code(architecture, context)
    } else if format == "python"@ {
        python_code(architecture, context)
    } else {
        "// Generated from architecture: "@ + architecture + "\n// Context: "@ + context
    }
}

/// The trace of reducing `expression` at `depth`.
pub open spec fn sexpr_trace(expression: Seq<char>, depth: nat) -> Seq<char> {
    "(trace\n  (expression \""@ + expression + "\")\n  (depth "@ + decimal(depth)
        + ")\n  (steps\n    (step-1 \"Parse expression\")\n    (step-2 \"Apply S-combinator rules\")\n    (step-3 \"Reduce to normal form\"))\n  (result (S (K "@
        + replaced(expression, ' ', "_"@) + ") I)))"@
}

fn operation_text(c: char) -> (r: &'static str)
    ensures
        r@ == operation_name(c),
{
    if c == '🔥' { "matmul" }
    else if c == '⚡' { "relu" }
    else if c == '🌊' { "sigmoid" }
    else if c == '🌀' { "tanh" }
    else if c == '🎭' { "softmax" }
    else if c == '📏' { "linear" }
    else if c == '🕸' { "conv2d" }
    else if c == '👁' { "attention" }
    else { "identity" }
}

fn step_text(c: char, python: bool) -> (r: &'static str)
    ensures
        r@ == if python { python_step(c) } else { rust_step(c) },
{
    if python {
        if c == '🔥' { "        # MatMul operation\n        x = torch.matmul(x, self.weights)" }
        else if c == '⚡' { "        # ReLU activation\n        x = torch.relu(x)" }
        else if c == '🌊' { "        # Sigmoid activation\n        x = torch.sigmoid(x)" }
        else if c == '🌀' { "        # Tanh activation\n        x = torch.tanh(x)" }
        else if c == '🎭' { "        # Softmax activation\n        x = torch.softmax(x, dim=1)" }
        else if c == '📏' { "        # Linear transformation\n        x = self.linear(x)" }
        else { "        # Identity operation" }
    } else {
        if c == '🔥' { "        // MatMul operation\n        x = x.matmul(&weights)?;" }
        else if c == '⚡' { "        // ReLU activation\n        x = x.relu()?;" }
        else if c == '🌊' { "        // Sigmoid activation\n        x = x.sigmoid()?;" }
        else if c == '🌀' { "        // Tanh activation\n        x = x.tanh()?;" }
        else if c == '🎭' { "        // Softmax activation\n        x = x.softmax(1)?;" }
        else if c == '📏' { "        // Linear transformation\n        x = linear_layer(x)?;" }
        else { "        // Identity operation" }
    }
}

fn forward_pass(architecture: &str, python: bool) -> (r: String)
    ensures
        r@ == forward_lines(architecture@, python),
{
    let n = architecture.unicode_len();
    let mut code = String::new();
    let mut i: usize = 0;
    assert(architecture@.take(0) =~= Seq::<char>::empty());
    while i < n
        invariant
            0 <= i <= n,
            n == architecture@.len(),
            code@ == forward_lines(architecture@.take(i as int), python),
        decreases n - i,
    {
        let c = architecture.get_char(i);
        push_text(&mut code, step_text(c, python));
        push_char(&mut code, '\n');
        proof {
            let cur = architecture@.take(i + 1);
            assert(cur.drop_last() =~= architecture@.take(i as int));
            assert(cur.last() == c);
            reveal_strlit("\n");
            assert(code@ =~= forward_lines(cur, python));
        }
        i = i + 1;
    }
    assert(architecture@.take(n as int) =~= architecture@);
    code
}

fn push_replaced(s: &mut String, t: &str, from: char, to: &str)
    ensures
        final(s)@ == old(s)@ + replaced(t@, from, to@),
{
    let n = t.unicode_len();
    let mut i: usize = 0;
    assert(t@.take(0) =~= Seq::<char>::empty());
    assert(old(s)@ + replaced(t@.take(0), from, to@) =~= old(s)@);
    while i < n
        invariant
            0 <= i <= n,
            n == t@.len(),
            s@ == old(s)@ + replaced(t@.take(i as int), from, to@),
        decreases n - i,
    {
        let c = t.get_char(i);
        if c == from {
            push_text(s, to);
        } else {
            push_char(s, c);
        }
        proof {
            let cur = t@.take(i + 1);
            assert(cur.drop_last() =~= t@.take(i as int));
            assert(cur.last() == c);
            assert(s@ =~= old(s)@ + replaced(cur, from, to@));
        }
        i = i + 1;
    }
    assert(t@.take(n as int) =~= t@);
}

/// The lambda expression of an emoji sequence.
pub fn generate_lambda_from_emojis(emojis: &str) -> (r: String)
    ensures
        r@ == lambda_of_emojis(emojis@),
{
    let n = emojis.unicode_len();
    let mut expr = String::from_str("I");
    let mut i: usize = 0;
    assert(emojis@.take(0) =~= Seq::<char>::empty());
    while i < n
        invariant
            0 <= i <= n,
            n == emojis@.len(),
            expr@ == lambda_of_emojis(emojis@.take(i as int)),
        decreases n - i,
    {
        let c = emojis.get_char(i);
        let mut next = String::from_str("S (K ");
        push_text(&mut next, operation_text(c));
        push_text(&mut next, ") (");
        push_text(&mut next, expr.as_str());
        push_text(&mut next, ")");
        proof {
            let cur = emojis@.take(i + 1);
            assert(cur.drop_last() =~= emojis@.take(i as int));
            assert(cur.last() == c);
        }
        expr = next;
        i = i + 1;
    }
    assert(emojis@.take(n as int) =~= emojis@);
    expr
}

/// Rust forward-pass lines, one per emoji character.
pub fn generate_forward_pass_code(architecture: &str) -> (r: String)
    ensures
        r@ == forward_lines(architecture@, false),
{
    forward_pass(architecture, false)
}

/// Python forward-pass lines, one per emoji character.
pub fn generate_python_forward_pass(architecture: &str) -> (r: String)
    ensures
        r@ == forward_lines(architecture@, true),
{
    forward_pass(architecture, true)
}

/// A Rust module implementing the architecture's forward pass.
pub fn generate_rust_code(architecture: &str, context: &str) -> (r: String)
    ensures
        r@ == rust_code(architecture@, context@),
{
    let mut r = String::from_str("// Generated neural architecture: ");
    push_text(&mut r, architecture);
    push_text(&mut r, "\n// Context: ");
    push_text(&mut r, context);
    push_text(&mut r, "\n\nuse candle_core::{Tensor, Device};\n\npub struct NeuralNetwork {\n    device: Device,\n}\n\nimpl NeuralNetwork {\n    pub fn new() -> Self {\n        Self {\n            device: Device::Cpu,\n        }\n    }\n    \n    pub fn forward(&self, input: Tensor) -> Tensor {\n        let mut x = input;\n        \n        // Architecture: ");
    push_text(&mut r, architecture);
    push_text(&mut r, "\n");
    let body = generate_forward_pass_code(architecture);
    push_text(&mut r, body.as_str());
    push_text(&mut r, "\n        \n        x\n    }\n}\n");
    r
}

/// A Python module implementing the architecture's forward pass.
pub fn generate_python_code(architecture: &str, context: &str) -> (r: String)
    ensures
        r@ == python_code(architecture@, context@),
{
    let mut r = String::from_str("# Generated neural architecture: ");
    push_text(&mut r, architecture);
    push_text(&mut r, "\n# Context: ");
    push_text(&mut r, context);
    push_text(&mut r, "\n\nimport torch\nimport torch.nn as nn\n\nclass NeuralNetwork(nn.Module):\n    def __init__(self):\n        super().__init__()\n        # Architecture: ");
    push_text(&mut r, architecture);
    push_text(&mut r, "\n        \n    def forward(self, x):\n        # Forward pass implementation\n");
    let body = generate_python_forward_pass(architecture);
    push_text(&mut r, body.as_str());
    push_text(&mut r, "\n        return x\n");
    r
}

/// Code for an architecture in `format`: `rust`, `python`, or else a
/// comment naming the architecture and context.
pub fn generate_code_from_architecture(architecture: &str, context: &str, format: &str) -> (r: String)
    ensures
        r@ == code_for(architecture@, context@, format@),
{
    if str_eq(format, "rust") {
        generate_rust_code(architecture, context)
    } else if str_eq(format, "python") {
        generate_python_code(architecture, context)
    } else {
        let mut r = String::from_str("// Generated from architecture: ");
        push_text(&mut r, architecture);
        push_text(&mut r, "\n// Context: ");
        push_text(&mut r, context);
        r
    }
}

/// The trace of reducing `expression` at `depth`; spaces become `_` in
/// the result.
pub fn generate_sexpr_trace(expression: &str, depth: usize) -> (r: String)
    ensures
        r@ == sexpr_trace(expression@, depth as nat),
{
    let mut r = String::from_str("(trace\n  (expression \"");
    push_text(&mut r, expression);
    push_text(&mut r, "\")\n  (depth ");
    push_decimal(&mut r, depth);
    push_text(
        &mut r,
        ")\n  (steps\n    (step-1 \"Parse expression\")\n    (step-2 \"Apply S-combinator rules\")\n    (step-3 \"Reduce to normal form\"))\n  (result (S (K ",
    );
    push_replaced(&mut r, expression, ' ', "_");
    push_text(&mut r, ") I)))");
    r
}

/// Breaks a trace after each `(` and before each `)`.
pub fn pretty_print_trace(trace: &str) -> (r: String)
    ensures
        r@ == replaced(replaced(trace@, '(', "(\n  "@), ')', "\n)"@),
{
    let mut first = String::new();
    push_replaced(&mut first, trace, '(', "(\n  ");
    assert(first@ =~= replaced(trace@, '(', "(\n  "@));
    let mut r = String::new();
    push_replaced(&mut r, first.as_str(), ')', "\n)");
    assert(r@ =~= replaced(first@, ')', "\n)"@));
    r
}

} // verus!
