//! An interpreter core for a small arithmetic expression language with
//! variable binding.
//!
//! A line of text becomes a token sequence (`lexer`), the token sequence
//! becomes exactly one abstract syntax tree under an operator-precedence
//! reduction with two explicit stacks (`parser`), and the tree is evaluated
//! against a mutable variable table with dynamic numeric promotion between
//! integers and binary32 floats (`eval`). Floats are carried everywhere as
//! IEEE-754 bit patterns in a `u32`; the arithmetic on them is done by a
//! software implementation of IEEE-754 behind the trusted items of
//! `numeric`.

pub mod ast;
pub mod eval;
pub mod lexer;
pub mod numeric;
pub mod parser;
pub mod token;
