//! A tree-walking evaluator for a small dynamically-typed scripting language
//! with variables, control flow, first-class functions with lexical closures,
//! and single-inheritance classes with instance state.
//!
//! The pipeline is: `lexer` turns source text into `token::Token`s, `parser`
//! builds the `ast` statement tree, and `interp` executes it against an
//! explicit arena of scope frames and instances, collecting printed lines in
//! an output buffer. `semantics` holds the mathematical meaning of every
//! construct, and the evaluator is proved to compute it.

pub mod ast;
pub mod decimal;
pub mod interp;
pub mod laws;
pub mod lexer;
pub mod parser;
pub mod semantics;
pub mod state;
pub mod token;
pub mod value;

pub use ast::{Expr, Literal, Stmt};
pub use lexer::Lexer;
pub use parser::Parser;
pub use state::{Framelist, Interp};
pub use token::Token;
pub use value::{Ret, RuntimeError, Value};
