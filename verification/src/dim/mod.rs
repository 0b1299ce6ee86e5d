//! Quantities with units: how unit strings are recognised and in which unit
//! a property is shown.

pub mod detector;
pub mod error;
pub mod formatter;
pub mod processor;
pub mod types;
pub mod validator;
