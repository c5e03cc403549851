//! Semantic core of a language server for RDF syntaxes: the syntax tree of
//! the Turtle family, its span normalisation, prefix expansion, lowering to
//! quads and the per-token context tracker.

pub mod context;
pub mod lower;
pub mod model;
pub mod normalize;
pub mod resolve;
pub mod span;
