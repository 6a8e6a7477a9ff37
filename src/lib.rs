pub mod token;
pub mod syntax;
pub mod lexer;
pub mod parser;
pub mod laws;
