pub mod kinds;
pub mod errors;
pub mod text;
pub mod lexical;
pub mod lexer;
pub mod ast;
pub mod grammar;
pub mod parser;
pub mod shape;
