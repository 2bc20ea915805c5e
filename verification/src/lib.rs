//! The front end of a small expression language, verified.
//!
//! Source text goes through the [`scanner`], which makes [`token`]s of it,
//! and the tokens go through the [`parser`], which makes an expression tree
//! ([`expr`]) of them; [`ast_printer`] renders the tree in prefix form. What
//! each of them computes is said by spec functions, and [`derivation`]
//! proves that the trees of the parser are the derivations of its grammar.
//!
//! Around the front end stand the drivers, [`lox`] and [`interpreter`],
//! which decide what is read and written next and leave the reading and
//! writing to their caller; the runners that they drive ([`runner`],
//! [`executer`]); the errors that all of them report ([`error`]); and
//! [`struct_info`], which reads the description of the kinds of nodes of a
//! tree.

pub mod lox;
pub mod error;
pub mod text;
pub mod token;
pub mod scanner;
pub mod expr;
pub mod parser;
pub mod derivation;
pub mod ast_printer;
pub mod runner;
pub mod executer;
pub mod interpreter;
pub mod struct_info;
