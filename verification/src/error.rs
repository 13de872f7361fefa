//! The two ways in which building text can fail.
use vstd::prelude::*;

verus! {

/// Why no text was produced.
#[derive(Clone, Copy, Debug, PartialEq, Eq, Structural)]
pub enum EmitError {
    /// The text could not be built: a scope was to be opened at the
    /// deepest level that can be counted.
    Format,
    /// The structured encoder could not represent the data.
    Serialization,
}

} // verus!
