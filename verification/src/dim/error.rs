//! What can go wrong with quantities and units.

use crate::text::join2;
use vstd::prelude::*;

verus! {

/// Why a quantity could not be read or converted.
#[derive(Debug, Clone, PartialEq)]
pub enum DimError {
    /// The unit library could not be reached.
    WasmError(String),
    /// The text is no quantity.
    ParseError(String),
    /// The quantity cannot be brought into the unit.
    ConversionError(String),
    /// There is no such unit.
    InvalidUnit(String),
}

/// The sentence that describes an error.
pub open spec fn dim_error_message(e: DimError) -> Seq<char> {
    match e {
        DimError::WasmError(msg) => "WASM error: "@ + msg@,
        DimError::ParseError(msg) => "Parse error: "@ + msg@,
        DimError::ConversionError(msg) => "Conversion error: "@ + msg@,
        DimError::InvalidUnit(msg) => "Invalid unit: "@ + msg@,
    }
}

impl DimError {
    /// The sentence that describes the error.
    pub fn message(&self) -> (s: String)
        ensures
            s@ == dim_error_message(*self),
    {
        match self {
            DimError::WasmError(msg) => join2("WASM error: ", msg.as_str()),
            DimError::ParseError(msg) => join2("Parse error: ", msg.as_str()),
            DimError::ConversionError(msg) => join2("Conversion error: ", msg.as_str()),
            DimError::InvalidUnit(msg) => join2("Invalid unit: ", msg.as_str()),
        }
    }
}

} // verus!
