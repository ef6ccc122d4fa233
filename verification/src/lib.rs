//! A small indentation-structured, dynamically typed language:
//! an indentation-sensitive lexer, a recursive-descent parser, and a
//! tree-walking evaluator over a frame-chain environment, together with a
//! stack-code generator for the expression subset.
//!
//! Every stage carries a full functional specification: the executable
//! lexer, parser and evaluator are proved equal to specification-level
//! models of themselves, and the laws that relate the stages are proved
//! as lemmas next to the code they speak of.

pub mod ast;
pub mod codegen;
pub mod environment;
pub mod interpreter;
pub mod parser;
pub mod pretty;
pub mod scanner;
pub mod token;
pub mod tokenizer;
pub mod value;
