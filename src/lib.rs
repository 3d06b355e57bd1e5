//! A bytecode compiler and stack virtual machine for a small Lox-family
//! scripting language, with its scanner, compiler and runtime verified.
pub mod span;
pub mod error;
pub mod token;
pub mod scanner;
pub mod value;
pub mod chunk;
pub mod module;
pub mod mman;
pub mod compiler;
pub mod rules;
pub mod parser;
pub mod host;
pub mod display;
pub mod vm;
