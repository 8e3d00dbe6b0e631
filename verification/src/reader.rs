//! The abstract read-only accessor to backing chain state, and its
//! in-memory reference implementation.

use vstd::prelude::*;
use crate::core_types::ClassHash;
use crate::core_types::ContractAddress;
use crate::core_types::ContractClass;
use crate::core_types::Felt;
use crate::core_types::Nonce;
use crate::core_types::StorageKey;
use crate::errors::StateError;
use crate::errors::StateResult;
use crate::ordered_map::entries_get;
use crate::ordered_map::OrderedMap;

verus! {

/// Read-only point queries against persistent chain state.
///
/// Storage, nonce and class-hash-at-address are sparse-but-total: an
/// unset key yields its type's zero/default value, never an error.
/// Class-object lookup is partial: an undeclared class hash fails with
/// [`StateError::UndeclaredClassHash`]. The abstract state an
/// implementation answers from is fixed by its spec functions, so reads
/// never mutate the reader and are safe to issue from several caching
/// contexts over one shared reader.
pub trait StateReader: Sized {
    /// Well-formedness of the implementation's backing data.
    spec fn inv(&self) -> bool;

    /// The storage value the reader holds for a cell, default if unset.
    spec fn storage_at_spec(&self, contract_address: ContractAddress, key: StorageKey) -> Felt;

    /// The nonce the reader holds for an address, default if unset.
    spec fn nonce_at_spec(&self, contract_address: ContractAddress) -> Nonce;

    /// The class hash the reader holds for an address, default if unset.
    spec fn class_hash_at_spec(&self, contract_address: ContractAddress) -> ClassHash;

    /// The class object declared under a class hash, if any.
    spec fn declared_class_spec(&self, class_hash: ClassHash) -> Option<ContractClass>;

    fn get_storage_at(&self, contract_address: ContractAddress, key: StorageKey) -> (r:
        StateResult<Felt>)
        requires
            self.inv(),
        ensures
            r == Ok::<Felt, StateError>(self.storage_at_spec(contract_address, key)),
    ;

    fn get_nonce_at(&self, contract_address: ContractAddress) -> (r: StateResult<Nonce>)
        requires
            self.inv(),
        ensures
            r == Ok::<Nonce, StateError>(self.nonce_at_spec(contract_address)),
    ;

    fn get_class_hash_at(&self, contract_address: ContractAddress) -> (r: StateResult<ClassHash>)
        requires
            self.inv(),
        ensures
            r == Ok::<ClassHash, StateError>(self.class_hash_at_spec(contract_address)),
    ;

    fn get_contract_class(&self, class_hash: &ClassHash) -> (r: StateResult<ContractClass>)
        requires
            self.inv(),
        ensures
            (match self.declared_class_spec(*class_hash) {
                Some(c) => r == Ok::<ContractClass, StateError>(c),
                None => r == Err::<ContractClass, StateError>(
                    StateError::UndeclaredClassHash(*class_hash),
                ),
            }),
    ;
}

/// A simple implementation of [`StateReader`] answering from in-memory
/// maps: a test double, and a standalone state for small deployments.
#[derive(Debug)]
pub struct DictStateReader {
    pub storage_view: OrderedMap<(ContractAddress, StorageKey), Felt>,
    pub address_to_nonce: OrderedMap<ContractAddress, Nonce>,
    pub address_to_class_hash: OrderedMap<ContractAddress, ClassHash>,
    pub class_hash_to_class: OrderedMap<ClassHash, ContractClass>,
}

impl Default for DictStateReader {
    fn default() -> (r: DictStateReader)
        ensures
            r.inv(),
            r.storage_view@ == Seq::<((ContractAddress, StorageKey), Felt)>::empty(),
            r.address_to_nonce@ == Seq::<(ContractAddress, Nonce)>::empty(),
            r.address_to_class_hash@ == Seq::<(ContractAddress, ClassHash)>::empty(),
            r.class_hash_to_class@ == Seq::<(ClassHash, ContractClass)>::empty(),
    {
        DictStateReader {
            storage_view: OrderedMap::new(),
            address_to_nonce: OrderedMap::new(),
            address_to_class_hash: OrderedMap::new(),
            class_hash_to_class: OrderedMap::new(),
        }
    }
}

impl StateReader for DictStateReader {
    open spec fn inv(&self) -> bool {
        &&& self.storage_view.wf()
        &&& self.address_to_nonce.wf()
        &&& self.address_to_class_hash.wf()
        &&& self.class_hash_to_class.wf()
    }

    open spec fn storage_at_spec(&self, contract_address: ContractAddress, key: StorageKey) -> Felt {
        match entries_get(self.storage_view@, (contract_address, key)) {
            Some(v) => v,
            None => Felt::zero_spec(),
        }
    }

    open spec fn nonce_at_spec(&self, contract_address: ContractAddress) -> Nonce {
        match entries_get(self.address_to_nonce@, contract_address) {
            Some(n) => n,
            None => Nonce::zero_spec(),
        }
    }

    open spec fn class_hash_at_spec(&self, contract_address: ContractAddress) -> ClassHash {
        match entries_get(self.address_to_class_hash@, contract_address) {
            Some(h) => h,
            None => ClassHash::zero_spec(),
        }
    }

    open spec fn declared_class_spec(&self, class_hash: ClassHash) -> Option<ContractClass> {
        entries_get(self.class_hash_to_class@, class_hash)
    }

    fn get_storage_at(&self, contract_address: ContractAddress, key: StorageKey) -> (r:
        StateResult<Felt>) {
        let contract_storage_key = (contract_address, key);
        let value = match self.storage_view.get(&contract_storage_key) {
            Some(v) => *v,
            None => Felt::zero(),
        };
        Ok(value)
    }

    fn get_nonce_at(&self, contract_address: ContractAddress) -> (r: StateResult<Nonce>) {
        let nonce = match self.address_to_nonce.get(&contract_address) {
            Some(n) => *n,
            None => Nonce(Felt::zero()),
        };
        Ok(nonce)
    }

    fn get_class_hash_at(&self, contract_address: ContractAddress) -> (r: StateResult<ClassHash>) {
        let class_hash = match self.address_to_class_hash.get(&contract_address) {
            Some(h) => *h,
            None => ClassHash(Felt::zero()),
        };
        Ok(class_hash)
    }

    fn get_contract_class(&self, class_hash: &ClassHash) -> (r: StateResult<ContractClass>) {
        match self.class_hash_to_class.get(class_hash) {
            Some(contract_class) => Ok(*contract_class),
            None => Err(StateError::UndeclaredClassHash(*class_hash)),
        }
    }
}

} // verus!
