//! The error taxonomy of the state layer.

use vstd::prelude::*;
use crate::core_types::ClassHash;
use crate::core_types::ContractAddress;

verus! {

/// Typed failure of a fallible state operation.
#[derive(Clone, Copy, Debug, PartialEq, Eq, Structural)]
pub enum StateError {
    /// Attempted deployment write to the reserved zero address.
    OutOfRangeContractAddress,
    /// Attempted deployment write to an address already bound to a
    /// non-default class hash; carries the offending address.
    UnavailableContractAddress(ContractAddress),
    /// Nonce increment whose current value does not fit the fixed-width
    /// integer used for the computation.
    ArithmeticOverflow,
    /// Class-object lookup for a class hash with no backing declaration;
    /// the sole read-side error.
    UndeclaredClassHash(ClassHash),
}

/// Result of a fallible state operation.
pub type StateResult<T> = Result<T, StateError>;

} // verus!
