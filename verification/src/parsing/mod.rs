pub mod stream;
pub mod lexer;
pub mod parser;
pub mod pattern_parser;
pub mod invariance;
pub mod words;
pub mod shapes;
