//! Front end of a small language for declaring data stores and the
//! operations over them: a lexer producing span-tagged tokens and a
//! recursive-descent parser producing an abstract syntax tree.
pub mod ast;
pub mod errors;
pub mod grammar;
pub mod lexer;
pub mod parser;
pub mod scan;
pub mod text;
pub mod tokens;
