//! Writ: a small language toolchain whose front end, checkers and evaluator
//! are verified with Verus.

pub mod span;
pub mod text;
pub mod id;
pub mod diagnostic;
pub mod ast;
pub mod token;
pub mod lexer;
pub mod parser;
pub mod grammar;
pub mod ty;
pub mod calls;
pub mod effects;
pub mod authority;
pub mod capabilities;
pub mod taint;
pub mod typing;
pub mod types;
pub mod value;
pub mod env;
pub mod resolve;
pub mod lower;
pub mod link;
pub mod ops;
pub mod semantics;
pub mod interp;
pub mod codegen;
pub mod smt;
pub mod verify;
pub mod driver;
