//! A parser for PHP source that has already been split into tokens.
//!
//! The grammar that the parser recognises is written down as spec functions
//! in [`grammar`]; the executable parser in [`parser`] is proved to compute
//! exactly what those functions describe.

pub mod token;
pub mod ast;
pub mod error;
pub mod grammar;
pub mod progress;
pub mod parser;
pub mod laws;
pub mod frame;
pub mod join;
pub mod rules;

pub use ast::{ArrayItem, Block, ClassFlag, Expression, Identifier, InfixOp, MethodFlag, Param, Program, Statement, Type, Use};
pub use error::ParseError;
pub use parser::Parser;
pub use token::{OpenTagKind, Span, Token, TokenKind};
