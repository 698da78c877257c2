pub mod chars;
pub mod lexer;
pub mod token;
