//! The scope cascade: where a property that a block does not define itself
//! is looked for, and in which order.

pub mod config;
pub mod registry;
pub mod report;
pub mod resolver;
