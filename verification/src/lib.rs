//! A small scripting language: its scanner, its parser and the machine that
//! runs its programs, each with a contract that the verifier proves.
//!
//! Source text goes through `scanner` to tokens, through `parser` to
//! statements, and through `vm` to what the program does. What each of them
//! computes is said in `grammar`, `machine` and `meaning`; `laws` holds what
//! follows from it.

pub mod text;
pub mod token;
pub mod scanner;
pub mod ast;
pub mod grammar;
pub mod parser;
pub mod visitor;
pub mod number;
pub mod value;
pub mod environment;
pub mod machine;
pub mod vm;
pub mod meaning;
pub mod laws;
