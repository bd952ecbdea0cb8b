//! A recursive-descent parser for a small subset of CSS: simple selectors,
//! flat declaration blocks, and keyword, length and color values.

pub mod canonical;
pub mod css;
pub mod errors;
pub mod grammar;
pub mod laws;
pub mod parser;
pub mod text;
