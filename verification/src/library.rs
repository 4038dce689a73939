pub mod ast;
pub mod compiler;
pub mod fmt;
pub mod heap;
pub mod lexer;
pub mod number;
pub mod parser;
pub mod vm;
