//! Checks a declared mapping from the fields of an API response to the columns
//! of a relational schema: reference grammars, schema facts, and the rules
//! that a mapping document has to meet.
pub mod ast;
pub mod parser;
pub mod report;
pub mod resolver;
pub mod text;
pub mod validator;
pub mod visualizer;
