//! A small compiler for a French-keyword toy language: lexer, parser,
//! semantic analysis, intermediate representation, a binary bytecode
//! container format with its writer and reader, and a stack machine.
#![allow(non_snake_case)]

pub mod structure;
pub mod text;
pub mod format;
pub mod bytecode;
pub mod encoding;
pub mod writer;
pub mod reader;
pub mod lexer;
pub mod ast;
pub mod semantic;
pub mod ir;
pub mod vm;
pub mod arg_handling;


