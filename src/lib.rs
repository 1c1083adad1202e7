//! A small text-templating engine: a parser from template text to an
//! abstract syntax tree, a renderer that evaluates the tree against a typed
//! context, and an analysis that reports which context variables a template
//! still needs.
mod ast;
mod engine;
mod error;
mod interface;
pub mod laws;
mod parser;
mod template;
mod text;

pub use ast::{AstNode, Node};
pub use engine::MinilateEngine;
pub use parser::{parse_condition, peek_tokens, tokenize};
pub use template::Template;

pub use error::{ErrorModel, KindModel, MinilateError, ParseError, ParseErrorKind};
pub use interface::{Context, MinilateInterface, Variable, VariableTy};
