//! A small dynamically typed scripting language: a scanner from source text
//! to tokens, a recursive-descent parser from tokens to statements, and a
//! tree-walking evaluator, each with its behaviour stated as a contract.
//! `chunk` is the start of a bytecode form: a growable byte buffer.

pub mod ast;
pub mod chunk;
pub mod lox;
pub mod memory;
pub mod parser;
pub mod scanner;
pub mod token;
