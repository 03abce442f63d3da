//! Front end of a small expression-query language: grammar-driven parsing of
//! query text into a typed `Expression` abstract syntax tree.
//!
//! The crate is organised as the data flows:
//! - [`tree`]: the rule-tagged parse tree that the grammar engine produces;
//! - [`error`]: the error taxonomy (syntax, structural, encoding);
//! - [`grammar`]: the grammar itself, as specification functions over
//!   character sequences;
//! - [`engine`]: [`MistQLParser`], the executable grammar engine, proved to
//!   match [`grammar`];
//! - [`value`]: literal values and the recursive value builder;
//! - [`parse`]: the expression builder and the [`parse::parse_query`] entry
//!   point.

pub mod engine;
pub mod error;
pub mod grammar;
pub mod parse;
pub mod tree;
pub mod value;

pub use engine::MistQLParser;
pub use error::Error;
pub use error::StructureKind;
pub use parse::Expression;
pub use parse::parse_expression;
pub use parse::parse_query;
pub use tree::Node;
pub use tree::Rule;
pub use value::Value;
pub use value::parse_value;
