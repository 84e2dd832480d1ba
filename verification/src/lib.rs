//! A small matrix language: dense matrices over IEEE 754 doubles, a dynamically
//! typed value model, and a tree-walking evaluator over a copied-per-call
//! environment.
//!
//! Doubles are held by their 64-bit patterns and all arithmetic on them is
//! done in software, so every result is a function of the operands alone.
//!
//! - [`scalar`]: doubles as bit patterns, their order and their arithmetic.
//! - [`linalg`]: matrices and the operations of linear algebra.
//! - [`parser`]: the syntax tree.
//! - [`syntax`]: from the tree of grammar matches to the syntax tree.
//! - [`types`]: values, matrix literals and the layout of what is shown.
//! - [`env`]: the environment.
//! - [`interp`]: the evaluator and the statement driver.
//! - [`error`]: the failures.
//! - [`source`]: which files hold programs.

pub mod env;
pub mod error;
pub mod interp;
pub mod linalg;
pub mod parser;
pub mod scalar;
pub mod source;
pub mod syntax;
pub mod types;
