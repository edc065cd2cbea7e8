//! The execution core of a small Lisp dialect: a tokenizer, a recursive
//! descent parser, a tagged expression model with an environment chain, and a
//! tree-walking evaluator with a handful of special forms.
//!
//! Numbers of the language are double-precision floats.  The library never
//! computes on them: a number is carried as its 64-bit encoding, and every
//! operation that reads the encoded value (classifying a word as a number,
//! the arithmetic of the native builtins, rendering) is supplied by the
//! embedding driver, which hands plain values in and takes plain values out.

pub mod interpreter;
pub mod lana_err;
pub mod lana_expr;
pub mod lexer;
pub mod parser;
pub mod prelude;
mod text;
pub mod tokenize;
