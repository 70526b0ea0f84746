//! A tree-walking interpreter for a small dynamically typed scripting
//! language: `let` bindings, `if`/`else`, first-class functions with
//! closures, arrays, string-keyed maps, dot-notation property access and
//! a handful of built-in functions.
//!
//! The pipeline is the classic lexer -> Pratt parser -> evaluator triad:
//! source text becomes a token sequence, the tokens become an abstract
//! syntax tree, and the tree is evaluated against a chain of lexical
//! environments.

pub mod ast;
pub mod builtin;
pub mod env;
pub mod eval;
pub mod lexer;
pub mod object;
pub mod parser;
pub mod text;
pub mod token;

pub use lexer::Lexer;
pub use parser::Parser;
pub use token::{KeywordType, Position, PrimitiveKind, Token, TokenType};
