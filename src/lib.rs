//! Symbolic arithmetic expressions: a string splitter that finds the root
//! operator of an infix expression, a tree with normalizing constructors, and
//! a printer that puts back the parentheses the tree needs.
pub mod basics;
pub mod var;

pub use basics::{check, combine, remove_braces, split, StringParseError};
pub use var::Var;
pub mod term;
pub use term::{Power, Term};
