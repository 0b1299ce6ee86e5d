//! The query path language: its syntax tree, its parser and its evaluation.

pub mod parser;
pub mod executor;
