//! A small Forth interpreter core: a data stack, a dictionary of words with a
//! shared code space, and a resumable inner interpreter.

pub mod stack;
pub mod word;
pub mod error;
pub mod dictionary;
pub mod text;
pub mod output;
pub mod semantics;
pub mod interpreter;
pub mod primv;
pub mod laws;
pub mod lines;
pub mod arith_laws;
