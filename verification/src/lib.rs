//! A small interpreter for a Lisp: a reader, a printer, chained environments
//! and an evaluator with tail calls, macros and quasiquotation.
//!
//! Every operation is specified over mathematical models of the data
//! ([`types::Value`], [`env::State`]) and proved to compute what its
//! specification says:
//!
//! - [`reader`] turns a text into a value, [`printer`] a value into a text;
//! - [`env`] holds the environments, [`natives`] the functions of the host;
//! - [`quasiquote`] expands templates, [`eval`] evaluates, and [`repl`] is
//!   one turn of reading, evaluating and printing;
//! - [`laws`], [`roundtrip`], [`budget`], [`growth`] and [`soundness`] prove
//!   what holds of these operations together.

pub mod budget;
pub mod env;
pub mod eval;
pub mod growth;
pub mod laws;
pub mod natives;
pub mod printer;
pub mod quasiquote;
pub mod reader;
pub mod repl;
pub mod roundtrip;
pub mod soundness;
pub mod text;
pub mod types;
