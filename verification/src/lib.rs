//! The Side scripting language: lexer, parser, values and the evaluation
//! machine, together with the project and packaging helpers of its tool chain.

pub mod project;
pub mod text;
pub mod value;
pub mod error;
pub mod token;
pub mod lexer;
pub mod ast;
pub mod parser_spec;
pub mod parser;
pub mod logger;
pub mod machine;
pub mod interpreter;
pub mod packer;
pub mod command;
