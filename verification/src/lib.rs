//! A single-pass compiler and stack-based virtual machine for a small
//! expression language: arithmetic and comparison operators over a numeric
//! tower (integer, float, complex), parenthesized grouping, and an `assert`
//! statement.

pub mod chunk;
pub mod compiler;
pub mod float;
pub mod object;
pub mod parser;
pub mod token;
pub mod trie;
pub mod value;
pub mod vm;

