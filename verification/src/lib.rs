//! A small imperative expression language: a recursive-descent parser that
//! turns source text into an abstract syntax tree, and a tree-walking
//! interpreter that evaluates that tree against a table of user-defined
//! functions and lexically scoped variable frames.

pub mod ast;
pub mod interpreter;
pub mod parser;

pub use ast::Node;
pub use ast::ParseError;
pub use ast::RunError;
pub use ast::Value;
pub use interpreter::start_interpreter;
pub use interpreter::Runtime;
pub use parser::parse;
pub use parser::program;
