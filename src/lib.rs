//! Composable parsers over borrowed token sequences, with a three-way outcome
//! that separates failure from a request for more data.

pub mod input;
pub mod result;
pub mod text;
pub mod stream;
pub mod parse;
pub mod combinators;
pub mod ascii;
pub mod float;
pub mod laws;
