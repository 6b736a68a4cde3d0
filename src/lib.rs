//! Multi-repository commit log aggregation: the repositories of a root and
//! its submodules, their commits gathered into one collection, a timestamp
//! index over it, and resumable, page-based access to the index.
//!
//! Beside it stand the text tools that consume such logs: emoji-named
//! neural operations and their S-combinator forms, emoji topology analysis
//! of a corpus, S-expression checking and layout, and code generation from
//! emoji architectures.
use vstd::prelude::*;

pub mod text;
pub mod model;
pub mod index;
pub mod paginate;
pub mod collector;
pub mod git;
pub mod neural;
pub mod sexpr;
pub mod lambda;
pub mod topology;
pub mod codegen;
pub mod synth;
