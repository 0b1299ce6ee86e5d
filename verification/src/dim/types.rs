//! Quantities as the unit library reads them.

use crate::value::Float;
use vstd::prelude::*;

verus! {

/// A quantity that was read from a unit string.
#[derive(Debug, Clone)]
pub struct UnitParseResult {
    /// The number, in the base unit.
    pub value: Float,
    /// The base unit, such as `Pa` or `m`.
    pub base_unit: String,
    /// The text that was read.
    pub original: String,
    /// The quantity as the unit library writes it.
    pub formatted: Option<String>,
}

/// A text that may or may not be a quantity.
#[derive(Debug, Clone)]
pub enum UnitValue {
    /// The text was read as a quantity.
    Parsed(UnitParseResult),
    /// The text is kept as it is.
    Unparsed(String),
}

} // verus!
