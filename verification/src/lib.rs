//! An interpreter for a small subset of Python: a lexer with indentation
//! tracking, a recursive-descent parser producing syntax trees, nested
//! scopes, runtime values and operators, and an evaluator of statements and
//! calls. Floating-point numbers are left to a host (see `host`); the
//! output and the source files `run_path` runs are held by the runtime.

pub mod util;
pub mod lexer;
pub mod ast_nodes;
pub mod parser;
pub mod env;
pub mod ast;
pub mod exception;
pub mod value;
pub mod host;
pub mod operator;
pub mod function;
pub mod semantics;
pub mod eval;
