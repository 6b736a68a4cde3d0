//! Emoji signatures that summarise what a piece of code declares.
use vstd::prelude::*;
use vstd::string::*;
use crate::text::{push_text, str_contains, contains_text};

verus! {

/// What can go wrong in code analysis.
#[derive(Clone, Debug, PartialEq, Eq)]
pub enum SolfunmemeError {
    Io(String),
    Parse(String),
    Analysis(String),
    Embedding(String),
    SExpression(String),
}

/// The kind of an analysis record.
#[derive(Clone, Copy, Debug, PartialEq, Eq, Structural)]
pub enum RecordType {
    Parsing,
    NameResolution,
    TypeInference,
    SemanticAnalysis,
    VectorEmbedding,
    SExpressionTrace,
    NeuralSynthesis,
}

/// Either spelling of a keyword occurs in `content`.
pub open spec fn mentions(content: Seq<char>, lower: Seq<char>, upper: Seq<char>) -> bool {
    contains_text(content, lower) || contains_text(content, upper)
}

/// The signature of `content`: fire for functions, a ruler for structs,
/// masks for enums, a web for impls, in that order; lightning when none.
pub open spec fn neural_signature(content: Seq<char>) -> Seq<char> {
    let s = (if mentions(content, "function"@, "Function"@) { "🔥"@ } else { Seq::empty() })
        + (if mentions(content, "struct"@, "Struct"@) { "📏"@ } else { Seq::empty() })
        + (if mentions(content, "enum"@, "Enum"@) { "🎭"@ } else { Seq::empty() })
        + (if mentions(content, "impl"@, "Impl"@) { "🕸️"@ } else { Seq::empty() });
    if s.len() == 0 {
        "⚡"@
    } else {
        s
    }
}

/// Builds emoji signatures of code.
#[derive(Clone, Copy, Debug)]
pub struct NeuralSynthesizer;

impl NeuralSynthesizer {
    pub fn new() -> (r: Result<NeuralSynthesizer, SolfunmemeError>)
        ensures
            r is Ok,
    {
        Ok(NeuralSynthesizer)
    }

    /// The emoji signature of `content`.
    pub fn generate_neural_signature(&self, content: &str) -> (r: String)
        ensures
            r@ == neural_signature(content@),
    {
        let mut signature = String::new();
        if str_contains(content, "function") || str_contains(content, "Function") {
            push_text(&mut signature, "🔥");
        }
        if str_contains(content, "struct") || str_contains(content, "Struct") {
            push_text(&mut signature, "📏");
        }
        if str_contains(content, "enum") || str_contains(content, "Enum") {
            push_text(&mut signature, "🎭");
        }
        if str_contains(content, "impl") || str_contains(content, "Impl") {
            push_text(&mut signature, "🕸️");
        }
        proof {
            reveal_strlit("🔥");
            reveal_strlit("📏");
            reveal_strlit("🎭");
            reveal_strlit("🕸️");
            let c = content@;
            let s = (if mentions(c, "function"@, "Function"@) { "🔥"@ } else { Seq::empty() })
                + (if mentions(c, "struct"@, "Struct"@) { "📏"@ } else { Seq::empty() })
                + (if mentions(c, "enum"@, "Enum"@) { "🎭"@ } else { Seq::empty() })
                + (if mentions(c, "impl"@, "Impl"@) { "🕸️"@ } else { Seq::empty() });
            assert(signature@ =~= s);
        }
        if signature.unicode_len() == 0 {
            push_text(&mut signature, "⚡");
        }
        signature
    }
}

} // verus!
