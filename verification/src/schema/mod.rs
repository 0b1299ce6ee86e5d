//! Schemas of block types, and the check of blocks against them.

pub mod registry;
pub mod validator;
