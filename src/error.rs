//! Errors reported by the value bridge.
use vstd::prelude::*;

use crate::zval::DataType;

verus! {

/// The failures that the library reports to its callers.
#[derive(Debug, Clone, Copy, PartialEq, Eq, Structural)]
pub enum Error {
    /// A value of the given dynamic type could not be converted to the
    /// requested native type.
    ValueConversion(DataType),
    /// An up-cast from a host object to a class carrier failed because the
    /// runtime class did not match.
    InvalidScope,
    /// A size or index computation went past a machine-word bounded counter.
    IntegerOverflow,
    /// A string key held an interior nul byte, which the host's
    /// nul-terminated interface cannot carry.
    InvalidKey,
}

/// The result type used throughout the library.
pub type Result<T> = core::result::Result<T, Error>;

} // verus!
