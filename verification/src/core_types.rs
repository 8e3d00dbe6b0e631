//! The primitive value types of the chain state model.
//!
//! Addresses, class hashes, nonces and storage keys are opaque,
//! fixed-width, equality-comparable values owned by other layers of the
//! system; this crate only stores, compares and (for nonces) increments
//! them, so each is modeled as a wrapper around a fixed-width unsigned
//! integer.

use vstd::prelude::*;

verus! {

/// A field element: the base value type for storage cells, keys and
/// hashes, modeled as a fixed-width unsigned value.
#[derive(Clone, Copy, Debug, Hash, PartialEq, Eq, Structural)]
pub struct Felt {
    pub val: u128,
}

impl Felt {
    /// The zero/default field element.
    pub open spec fn zero_spec() -> Felt {
        Felt { val: 0 }
    }

    pub fn zero() -> (r: Felt)
        ensures
            r == Felt::zero_spec(),
    {
        Felt { val: 0 }
    }
}

impl Default for Felt {
    fn default() -> (r: Felt)
        ensures
            r == Felt::zero_spec(),
    {
        Felt { val: 0 }
    }
}

/// Unique identifier of a deployed contract instance.
#[derive(Clone, Copy, Debug, Hash, PartialEq, Eq, Structural)]
pub struct ContractAddress(pub Felt);

impl ContractAddress {
    /// The reserved zero address; never deployable.
    pub open spec fn zero_spec() -> ContractAddress {
        ContractAddress(Felt::zero_spec())
    }
}

impl Default for ContractAddress {
    fn default() -> (r: ContractAddress)
        ensures
            r == ContractAddress::zero_spec(),
    {
        ContractAddress(Felt { val: 0 })
    }
}

/// Content address of a contract's code.
#[derive(Clone, Copy, Debug, Hash, PartialEq, Eq, Structural)]
pub struct ClassHash(pub Felt);

impl ClassHash {
    /// The default class hash, marking an undeployed address.
    pub open spec fn zero_spec() -> ClassHash {
        ClassHash(Felt::zero_spec())
    }
}

impl Default for ClassHash {
    fn default() -> (r: ClassHash)
        ensures
            r == ClassHash::zero_spec(),
    {
        ClassHash(Felt { val: 0 })
    }
}

/// Per-address transaction counter.
#[derive(Clone, Copy, Debug, Hash, PartialEq, Eq, Structural)]
pub struct Nonce(pub Felt);

impl Nonce {
    /// The default nonce of an address never written to.
    pub open spec fn zero_spec() -> Nonce {
        Nonce(Felt::zero_spec())
    }
}

impl Default for Nonce {
    fn default() -> (r: Nonce)
        ensures
            r == Nonce::zero_spec(),
    {
        Nonce(Felt { val: 0 })
    }
}

/// Key of one storage cell within a contract's storage space.
#[derive(Clone, Copy, Debug, Hash, PartialEq, Eq, Structural)]
pub struct StorageKey(pub Felt);

impl Default for StorageKey {
    fn default() -> (r: StorageKey)
        ensures
            r == (StorageKey(Felt { val: 0 })),
    {
        StorageKey(Felt { val: 0 })
    }
}

/// Composite key of one storage cell: (contract address, storage key).
pub type StorageEntry = (ContractAddress, StorageKey);

/// A full contract class object: immutable, content-addressed data,
/// opaque to this crate and modeled by an identifying value.
#[derive(Clone, Copy, Debug, Hash, PartialEq, Eq, Structural)]
pub struct ContractClass(pub Felt);

/// Address of an L1 account, recipient of L2-to-L1 messages; opaque here.
#[derive(Clone, Copy, Debug, Hash, PartialEq, Eq, Structural)]
pub struct EthAddress(pub Felt);

impl Default for EthAddress {
    fn default() -> (r: EthAddress)
        ensures
            r == (EthAddress(Felt { val: 0 })),
    {
        EthAddress(Felt { val: 0 })
    }
}

} // verus!
