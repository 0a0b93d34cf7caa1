pub mod laws;
pub mod lexer;
