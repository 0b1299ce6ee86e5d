//! Queries over engineering-network descriptions.
//!
//! A network is a graph of typed nodes with open-ended property maps. A
//! slash-separated path selects a part of it; properties that a block does
//! not define itself cascade down from its branch, its group and the global
//! settings.

pub mod text;
pub mod value;
pub mod numeric;
pub mod parser;
pub mod query;
pub mod scope;
pub mod schema;
pub mod dim;
