//! The two-phase per-key store backing a caching state view.
//!
//! Six append-biased mappings: {storage, nonce, class-hash-at-address}
//! x {initial, write}. An initial entry, once inserted for a key, is
//! never overwritten (it is the immutable snapshot of the value observed
//! at first read); a write entry may be overwritten repeatedly (last
//! write wins). No entry is ever deleted from either map.

use vstd::prelude::*;
use crate::core_types::ClassHash;
use crate::core_types::ContractAddress;
use crate::core_types::Felt;
use crate::core_types::Nonce;
use crate::core_types::StorageEntry;
use crate::core_types::StorageKey;
use crate::ordered_map::distinct_keys;
use crate::ordered_map::entries_get;
use crate::ordered_map::lemma_absent_key_has_no_index;
use crate::ordered_map::spec_insert;
use crate::ordered_map::OrderedMap;

verus! {

/// Caches read and write requests, per quantity and phase.
///
/// These are internal primitives of the caching state view, not meant
/// for its callers.
#[derive(Debug)]
pub struct StateCache {
    // Reader's cached information; initial values, read before any write
    // operation (per cell).
    pub nonce_initial_values: OrderedMap<ContractAddress, Nonce>,
    pub class_hash_initial_values: OrderedMap<ContractAddress, ClassHash>,
    pub storage_initial_values: OrderedMap<StorageEntry, Felt>,
    // Writer's cached information.
    pub nonce_writes: OrderedMap<ContractAddress, Nonce>,
    pub class_hash_writes: OrderedMap<ContractAddress, ClassHash>,
    pub storage_writes: OrderedMap<StorageEntry, Felt>,
}

impl Default for StateCache {
    fn default() -> (r: StateCache)
        ensures
            r.wf(),
            r.nonce_initial_values@ == Seq::<(ContractAddress, Nonce)>::empty(),
            r.class_hash_initial_values@ == Seq::<(ContractAddress, ClassHash)>::empty(),
            r.storage_initial_values@ == Seq::<(StorageEntry, Felt)>::empty(),
            r.nonce_writes@ == Seq::<(ContractAddress, Nonce)>::empty(),
            r.class_hash_writes@ == Seq::<(ContractAddress, ClassHash)>::empty(),
            r.storage_writes@ == Seq::<(StorageEntry, Felt)>::empty(),
    {
        StateCache {
            nonce_initial_values: OrderedMap::new(),
            class_hash_initial_values: OrderedMap::new(),
            storage_initial_values: OrderedMap::new(),
            nonce_writes: OrderedMap::new(),
            class_hash_writes: OrderedMap::new(),
            storage_writes: OrderedMap::new(),
        }
    }
}

impl StateCache {
    /// Well-formedness: every mapping has pairwise-distinct keys.
    pub open spec fn wf(self) -> bool {
        &&& distinct_keys(self.nonce_initial_values@)
        &&& distinct_keys(self.class_hash_initial_values@)
        &&& distinct_keys(self.storage_initial_values@)
        &&& distinct_keys(self.nonce_writes@)
        &&& distinct_keys(self.class_hash_writes@)
        &&& distinct_keys(self.storage_writes@)
    }

    /// The cache's resolved storage value: the write map wins, the
    /// initial map is the fallback, absence means no record at all.
    pub open spec fn storage_lookup(self, contract_address: ContractAddress, key: StorageKey)
        -> Option<Felt> {
        match entries_get(self.storage_writes@, (contract_address, key)) {
            Some(v) => Some(v),
            None => entries_get(self.storage_initial_values@, (contract_address, key)),
        }
    }

    /// The cache's resolved nonce, write map first.
    pub open spec fn nonce_lookup(self, contract_address: ContractAddress) -> Option<Nonce> {
        match entries_get(self.nonce_writes@, contract_address) {
            Some(n) => Some(n),
            None => entries_get(self.nonce_initial_values@, contract_address),
        }
    }

    /// The cache's resolved class hash, write map first.
    pub open spec fn class_hash_lookup(self, contract_address: ContractAddress) -> Option<
        ClassHash,
    > {
        match entries_get(self.class_hash_writes@, contract_address) {
            Some(h) => Some(h),
            None => entries_get(self.class_hash_initial_values@, contract_address),
        }
    }

    pub fn get_storage_at(&self, contract_address: ContractAddress, key: StorageKey) -> (r: Option<
        Felt,
    >)
        requires
            self.wf(),
        ensures
            r == self.storage_lookup(contract_address, key),
    {
        let contract_storage_key = (contract_address, key);
        match self.storage_writes.get(&contract_storage_key) {
            Some(v) => Some(*v),
            None => match self.storage_initial_values.get(&contract_storage_key) {
                Some(v) => Some(*v),
                None => None,
            },
        }
    }

    pub fn get_nonce_at(&self, contract_address: ContractAddress) -> (r: Option<Nonce>)
        requires
            self.wf(),
        ensures
            r == self.nonce_lookup(contract_address),
    {
        match self.nonce_writes.get(&contract_address) {
            Some(n) => Some(*n),
            None => match self.nonce_initial_values.get(&contract_address) {
                Some(n) => Some(*n),
                None => None,
            },
        }
    }

    pub fn get_class_hash_at(&self, contract_address: ContractAddress) -> (r: Option<ClassHash>)
        requires
            self.wf(),
        ensures
            r == self.class_hash_lookup(contract_address),
    {
        match self.class_hash_writes.get(&contract_address) {
            Some(h) => Some(*h),
            None => match self.class_hash_initial_values.get(&contract_address) {
                Some(h) => Some(*h),
                None => None,
            },
        }
    }

    /// Records the value observed at a cell's first fallthrough read.
    /// Invoked at most once per key: an initial entry is never
    /// overwritten.
    pub fn set_storage_initial_value(
        &mut self,
        contract_address: ContractAddress,
        key: StorageKey,
        value: Felt,
    )
        requires
            old(self).wf(),
            entries_get(old(self).storage_initial_values@, (contract_address, key)) is None,
        ensures
            final(self).wf(),
            final(self).storage_initial_values@ == old(self).storage_initial_values@.push(
                ((contract_address, key), value),
            ),
            final(self).class_hash_initial_values@ == old(self).class_hash_initial_values@,
            final(self).nonce_initial_values@ == old(self).nonce_initial_values@,
            final(self).storage_writes@ == old(self).storage_writes@,
            final(self).class_hash_writes@ == old(self).class_hash_writes@,
            final(self).nonce_writes@ == old(self).nonce_writes@,
    {
        proof {
            lemma_absent_key_has_no_index(old(self).storage_initial_values@, (contract_address, key), value);
        }
        self.storage_initial_values.insert((contract_address, key), value);
    }

    /// Unconditionally records a write to a storage cell.
    pub fn set_storage_value(
        &mut self,
        contract_address: ContractAddress,
        key: StorageKey,
        value: Felt,
    )
        requires
            old(self).wf(),
        ensures
            final(self).wf(),
            final(self).storage_writes@ == spec_insert(
                old(self).storage_writes@,
                (contract_address, key),
                value,
            ),
            final(self).class_hash_initial_values@ == old(self).class_hash_initial_values@,
            final(self).nonce_initial_values@ == old(self).nonce_initial_values@,
            final(self).storage_initial_values@ == old(self).storage_initial_values@,
            final(self).class_hash_writes@ == old(self).class_hash_writes@,
            final(self).nonce_writes@ == old(self).nonce_writes@,
    {
        self.storage_writes.insert((contract_address, key), value);
    }

    /// Records the nonce observed at an address's first fallthrough
    /// read. Invoked at most once per key.
    pub fn set_nonce_initial_value(&mut self, contract_address: ContractAddress, nonce: Nonce)
        requires
            old(self).wf(),
            entries_get(old(self).nonce_initial_values@, contract_address) is None,
        ensures
            final(self).wf(),
            final(self).nonce_initial_values@ == old(self).nonce_initial_values@.push(
                (contract_address, nonce),
            ),
            final(self).class_hash_initial_values@ == old(self).class_hash_initial_values@,
            final(self).storage_initial_values@ == old(self).storage_initial_values@,
            final(self).storage_writes@ == old(self).storage_writes@,
            final(self).class_hash_writes@ == old(self).class_hash_writes@,
            final(self).nonce_writes@ == old(self).nonce_writes@,
    {
        proof {
            lemma_absent_key_has_no_index(old(self).nonce_initial_values@, contract_address, nonce);
        }
        self.nonce_initial_values.insert(contract_address, nonce);
    }

    /// Unconditionally records a nonce write.
    pub fn set_nonce_value(&mut self, contract_address: ContractAddress, nonce: Nonce)
        requires
            old(self).wf(),
        ensures
            final(self).wf(),
            final(self).nonce_writes@ == spec_insert(
                old(self).nonce_writes@,
                contract_address,
                nonce,
            ),
            final(self).class_hash_initial_values@ == old(self).class_hash_initial_values@,
            final(self).nonce_initial_values@ == old(self).nonce_initial_values@,
            final(self).storage_initial_values@ == old(self).storage_initial_values@,
            final(self).storage_writes@ == old(self).storage_writes@,
            final(self).class_hash_writes@ == old(self).class_hash_writes@,
    {
        self.nonce_writes.insert(contract_address, nonce);
    }

    /// Records the class hash observed at an address's first
    /// fallthrough read. Invoked at most once per key.
    pub fn set_class_hash_initial_value(
        &mut self,
        contract_address: ContractAddress,
        class_hash: ClassHash,
    )
        requires
            old(self).wf(),
            entries_get(old(self).class_hash_initial_values@, contract_address) is None,
        ensures
            final(self).wf(),
            final(self).class_hash_initial_values@ == old(self).class_hash_initial_values@.push(
                (contract_address, class_hash),
            ),
            final(self).nonce_initial_values@ == old(self).nonce_initial_values@,
            final(self).storage_initial_values@ == old(self).storage_initial_values@,
            final(self).storage_writes@ == old(self).storage_writes@,
            final(self).class_hash_writes@ == old(self).class_hash_writes@,
            final(self).nonce_writes@ == old(self).nonce_writes@,
    {
        proof {
            lemma_absent_key_has_no_index(old(self).class_hash_initial_values@, contract_address, class_hash);
        }
        self.class_hash_initial_values.insert(contract_address, class_hash);
    }

    /// Unconditionally records a deployment write.
    pub fn set_class_hash_write(&mut self, contract_address: ContractAddress, class_hash: ClassHash)
        requires
            old(self).wf(),
        ensures
            final(self).wf(),
            final(self).class_hash_writes@ == spec_insert(
                old(self).class_hash_writes@,
                contract_address,
                class_hash,
            ),
            final(self).class_hash_initial_values@ == old(self).class_hash_initial_values@,
            final(self).nonce_initial_values@ == old(self).nonce_initial_values@,
            final(self).storage_initial_values@ == old(self).storage_initial_values@,
            final(self).storage_writes@ == old(self).storage_writes@,
            final(self).nonce_writes@ == old(self).nonce_writes@,
    {
        self.class_hash_writes.insert(contract_address, class_hash);
    }
}

} // verus!
