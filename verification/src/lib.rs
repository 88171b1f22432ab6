use vstd::prelude::*;

pub mod ast;
pub mod editor;
pub mod grammar;
pub mod interpreter;
pub mod lexer;
pub mod parser;
pub mod render;
pub mod resolution;
pub mod semantics;
pub mod source;
pub mod text;
pub mod typing;

verus! {
}
