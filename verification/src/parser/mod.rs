//! The network model and what is found wrong with it while it is built.

pub mod loader;
pub mod models;
pub mod validation;
