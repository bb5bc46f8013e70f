//! Lexical front-end of a small browser engine: an HTTP URL splitter and an
//! HTML tokenizer whose behaviour is stated and proved with Verus.

pub mod text;
pub mod url;
pub mod attribute;
pub mod token;
