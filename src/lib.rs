//! A converter from a small line-oriented markup language to HTML.

pub mod text;
pub mod node;
pub mod html;
pub mod patterns;
pub mod inline;
pub mod block;
pub mod parser;
pub mod laws;
pub mod output;
