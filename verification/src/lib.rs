//! An interpreter for a language of eight commands that work on a tape of
//! byte cells.
//!
//! `parser` turns source text into a tree of instructions, and
//! `interpreter` runs such a tree on a tape, with its input in a buffer.
//! `machine` runs it one instruction at a time and leaves reading and
//! writing to its driver.
//!
//! `syntax` says which program a text is the source of, and `semantics`
//! what a program does; the contracts of the functions speak of these.
//! `reading`, `agreement` and `laws` hold what is proved of them.

pub mod instruction;
pub mod syntax;
pub mod reading;
pub mod parser;
pub mod semantics;
pub mod interpreter;
pub mod machine;
pub mod agreement;
pub mod laws;
