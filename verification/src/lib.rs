pub mod expressions;
pub mod lexer;
pub mod parser;
pub mod token;
pub mod utils;
