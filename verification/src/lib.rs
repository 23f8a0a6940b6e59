//! A small stack language: source text is compiled into one flat buffer of
//! instructions, which a stack machine then runs.

pub mod cell;
pub mod compiler;
pub mod definitions;
pub mod intern;
pub mod lex;
pub mod lexer;
pub mod machine;
pub mod parsing;
pub mod semantics;
pub mod text;

pub use cell::{BuiltIn, Cell, Code, Op, Ops};
pub use intern::Symbol;
pub use machine::{Error, Machine, Output};
pub use parsing::parse_string;
