//! Untyped lambda-calculus terms with the S, K and I combinators, and the
//! words that a few emojis stand for.
use vstd::prelude::*;
use vstd::string::*;
use crate::text::{push_text, str_eq};

verus! {

/// A lambda-calculus term.
#[derive(Debug)]
pub enum Expr {
    Var(String),
    App(Box<Expr>, Box<Expr>),
    Lam(String, Box<Expr>),
    S,
    K,
    I,
}

/// The text of a term: applications as `(f x)`, abstractions as `(λv.body)`.
pub open spec fn expr_text(e: Expr) -> Seq<char>
    decreases e,
{
    match e {
        Expr::Var(name) => name@,
        Expr::App(f, x) => "("@ + expr_text(*f) + " "@ + expr_text(*x) + ")"@,
        Expr::Lam(v, body) => "(λ"@ + v@ + "."@ + expr_text(*body) + ")"@,
        Expr::S => "S"@,
        Expr::K => "K"@,
        Expr::I => "I"@,
    }
}

impl Expr {
    /// The text of the term.
    pub fn to_string(&self) -> (r: String)
        ensures
            r@ == expr_text(*self),
        decreases self,
    {
        match self {
            Expr::Var(name) => name.clone(),
            Expr::App(f, x) => {
                let mut r = String::from_str("(");
                let fs = f.to_string();
                push_text(&mut r, fs.as_str());
                push_text(&mut r, " ");
                let xs = x.to_string();
                push_text(&mut r, xs.as_str());
                push_text(&mut r, ")");
                r
            },
            Expr::Lam(v, body) => {
                let mut r = String::from_str("(λ");
                push_text(&mut r, v.as_str());
                push_text(&mut r, ".");
                let bs = body.to_string();
                push_text(&mut r, bs.as_str());
                push_text(&mut r, ")");
                r
            },
            Expr::S => String::from_str("S"),
            Expr::K => String::from_str("K"),
            Expr::I => String::from_str("I"),
        }
    }
}

/// The word for an emoji: fire burns, lightning strikes, a wave flows.
pub open spec fn emoji_word(emoji: Seq<char>) -> Seq<char> {
    if emoji == "🔥"@ {
        "burn"@
    } else if emoji == "⚡"@ {
        "lightning"@
    } else if emoji == "🌊"@ {
        "wave"@
    } else {
        "unknown"@
    }
}

/// The word for an emoji, `unknown` for any other text.
pub fn interpret_emoji(emoji: &str) -> (r: String)
    ensures
        r@ == emoji_word(emoji@),
{
    if str_eq(emoji, "🔥") {
        String::from_str("burn")
    } else if str_eq(emoji, "⚡") {
        String::from_str("lightning")
    } else if str_eq(emoji, "🌊") {
        String::from_str("wave")
    } else {
        String::from_str("unknown")
    }
}

} // verus!
