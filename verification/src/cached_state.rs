//! The consistent, copy-on-write view over chain state consumed by the
//! interpreter during one transaction's execution.

use vstd::prelude::*;
use crate::cache::StateCache;
use crate::core_types::ClassHash;
use crate::core_types::ContractAddress;
use crate::core_types::ContractClass;
use crate::core_types::Felt;
use crate::core_types::Nonce;
use crate::core_types::StorageKey;
use crate::errors::StateError;
use crate::errors::StateResult;
use crate::ordered_map::entries_get;
use crate::ordered_map::distinct_keys;
use crate::ordered_map::lemma_absent_key_has_no_index;
use crate::ordered_map::lemma_entries_get_push;
use crate::ordered_map::lemma_spec_insert_get;
use crate::ordered_map::spec_insert;
use crate::ordered_map::OrderedMap;
use crate::reader::StateReader;

verus! {


/// The state effect of one storage read of `(contract_address, key)`:
/// every mapping is left as it was, except that on a full cache miss
/// the cell's initial value is recorded from the wrapped reader.
pub open spec fn storage_read_step<SR: StateReader>(
    pre: CachedState<SR>,
    post: CachedState<SR>,
    contract_address: ContractAddress,
    key: StorageKey,
) -> bool {
    &&& post.state_reader == pre.state_reader
    &&& post.cache.storage_writes@ == pre.cache.storage_writes@
    &&& post.cache.nonce_initial_values@ == pre.cache.nonce_initial_values@
    &&& post.cache.nonce_writes@ == pre.cache.nonce_writes@
    &&& post.cache.class_hash_initial_values@ == pre.cache.class_hash_initial_values@
    &&& post.cache.class_hash_writes@ == pre.cache.class_hash_writes@
    &&& post.class_hash_to_class@ == pre.class_hash_to_class@
    &&& pre.cache.storage_lookup(contract_address, key) is Some
        ==> post.cache.storage_initial_values@ == pre.cache.storage_initial_values@
    &&& pre.cache.storage_lookup(contract_address, key) is None
        ==> post.cache.storage_initial_values@ == pre.cache.storage_initial_values@.push(
        ((contract_address, key), pre.state_reader.storage_at_spec(contract_address, key)),
    )
}

/// Caches read and write requests over a wrapped [`StateReader`].
///
/// Writer functionality is built-in, whereas reader functionality is
/// injected through initialization. One instance is created fresh per
/// transaction, mutated exclusively by that transaction's reads and
/// writes, and finally consumed by state-diff extraction. Abandoning an
/// instance without extracting a diff is always safe: the caches only
/// ever insert, never destructively mutate or delete.
#[derive(Debug)]
pub struct CachedState<SR: StateReader> {
    pub state_reader: SR,
    pub cache: StateCache,
    /// Read-through class-code cache: class hash to full class object,
    /// write-once per key, read-only after insertion.
    pub class_hash_to_class: OrderedMap<ClassHash, ContractClass>,
}

impl<SR: StateReader> CachedState<SR> {
    /// Well-formedness: the reader is sound, every mapping has distinct
    /// keys, and every recorded initial value (and cached class) is
    /// exactly what the wrapped reader holds for that key.
    pub open spec fn wf(self) -> bool {
        &&& self.state_reader.inv()
        &&& self.cache.wf()
        &&& distinct_keys(self.class_hash_to_class@)
        &&& forall|i: int|
            0 <= i < self.cache.storage_initial_values@.len()
                ==> (#[trigger] self.cache.storage_initial_values@[i]).1
                == self.state_reader.storage_at_spec(
                self.cache.storage_initial_values@[i].0.0,
                self.cache.storage_initial_values@[i].0.1,
            )
        &&& forall|i: int|
            0 <= i < self.cache.nonce_initial_values@.len()
                ==> (#[trigger] self.cache.nonce_initial_values@[i]).1
                == self.state_reader.nonce_at_spec(self.cache.nonce_initial_values@[i].0)
        &&& forall|i: int|
            0 <= i < self.cache.class_hash_initial_values@.len()
                ==> (#[trigger] self.cache.class_hash_initial_values@[i]).1
                == self.state_reader.class_hash_at_spec(self.cache.class_hash_initial_values@[i].0)
        &&& forall|i: int|
            0 <= i < self.class_hash_to_class@.len()
                ==> self.state_reader.declared_class_spec(
                (#[trigger] self.class_hash_to_class@[i]).0,
            ) == Some(self.class_hash_to_class@[i].1)
    }

    /// The storage value this view resolves for a cell: the latest
    /// write if any, else the recorded initial value, else the reader's.
    pub open spec fn resolved_storage(self, contract_address: ContractAddress, key: StorageKey)
        -> Felt {
        match self.cache.storage_lookup(contract_address, key) {
            Some(v) => v,
            None => self.state_reader.storage_at_spec(contract_address, key),
        }
    }

    /// The nonce this view resolves for an address.
    pub open spec fn resolved_nonce(self, contract_address: ContractAddress) -> Nonce {
        match self.cache.nonce_lookup(contract_address) {
            Some(n) => n,
            None => self.state_reader.nonce_at_spec(contract_address),
        }
    }

    /// The class hash this view resolves for an address.
    pub open spec fn resolved_class_hash(self, contract_address: ContractAddress) -> ClassHash {
        match self.cache.class_hash_lookup(contract_address) {
            Some(h) => h,
            None => self.state_reader.class_hash_at_spec(contract_address),
        }
    }

    /// The class object this view resolves for a class hash, if any.
    pub open spec fn resolved_class(self, class_hash: ClassHash) -> Option<ContractClass> {
        match entries_get(self.class_hash_to_class@, class_hash) {
            Some(c) => Some(c),
            None => self.state_reader.declared_class_spec(class_hash),
        }
    }

    /// Whether this view and `other` resolve every key alike, so that
    /// reads are observationally identical on the two.
    pub open spec fn resolves_like(self, other: Self) -> bool {
        &&& forall|a: ContractAddress, k: StorageKey| #![trigger self.resolved_storage(a, k)]
            self.resolved_storage(a, k) == other.resolved_storage(a, k)
        &&& forall|a: ContractAddress| #![trigger self.resolved_nonce(a)]
            self.resolved_nonce(a) == other.resolved_nonce(a)
        &&& forall|a: ContractAddress| #![trigger self.resolved_class_hash(a)]
            self.resolved_class_hash(a) == other.resolved_class_hash(a)
        &&& forall|h: ClassHash| #![trigger self.resolved_class(h)]
            self.resolved_class(h) == other.resolved_class(h)
    }

    pub fn new(state_reader: SR) -> (r: Self)
        requires
            state_reader.inv(),
        ensures
            r.wf(),
            r.state_reader == state_reader,
            r.cache.storage_initial_values@.len() == 0,
            r.cache.nonce_initial_values@.len() == 0,
            r.cache.class_hash_initial_values@.len() == 0,
            r.cache.storage_writes@.len() == 0,
            r.cache.nonce_writes@.len() == 0,
            r.cache.class_hash_writes@.len() == 0,
            r.class_hash_to_class@.len() == 0,
    {
        CachedState {
            state_reader,
            cache: StateCache::default(),
            class_hash_to_class: OrderedMap::new(),
        }
    }

    /// Resolves a storage cell, querying the wrapped reader once and
    /// recording its answer as the cell's initial value if the cache has
    /// no record for it. Never fails; repeated reads of a never-written
    /// key issue exactly one underlying query (once a record exists, the
    /// state is left untouched).
    pub fn get_storage_at(&mut self, contract_address: ContractAddress, key: StorageKey) -> (r:
        StateResult<Felt>)
        requires
            old(self).wf(),
        ensures
            final(self).wf(),
            r == Ok::<Felt, StateError>(old(self).resolved_storage(contract_address, key)),
            storage_read_step(*old(self), *final(self), contract_address, key),
            final(self).cache.storage_lookup(contract_address, key) is Some,
            final(self).resolves_like(*old(self)),
    {
        let ghost pre = *self;
        match self.cache.get_storage_at(contract_address, key) {
            Some(value) => {
                proof {
                    assert(self.resolves_like(pre));
                }
                Ok(value)
            },
            None => {
                let storage_value = match self.state_reader.get_storage_at(contract_address, key) {
                    Ok(v) => v,
                    Err(e) => { return Err(e) },
                };
                self.cache.set_storage_initial_value(contract_address, key, storage_value);
                proof {
                    let k = (contract_address, key);
                    lemma_entries_get_push(
                        pre.cache.storage_initial_values@,
                        k,
                        storage_value,
                        k,
                    );
                    assert forall|a: ContractAddress, kk: StorageKey| #![trigger self.resolved_storage(a, kk)]
                        self.resolved_storage(a, kk) == pre.resolved_storage(a, kk) by {
                        lemma_entries_get_push(
                            pre.cache.storage_initial_values@,
                            k,
                            storage_value,
                            (a, kk),
                        );
                    }
                }
                Ok(storage_value)
            },
        }
    }

    /// Resolves an address's nonce with the same fill-on-miss behavior
    /// as storage reads. Never fails.
    pub fn get_nonce_at(&mut self, contract_address: ContractAddress) -> (r: StateResult<Nonce>)
        requires
            old(self).wf(),
        ensures
            final(self).wf(),
            r == Ok::<Nonce, StateError>(old(self).resolved_nonce(contract_address)),
            final(self).state_reader == old(self).state_reader,
            final(self).cache.storage_initial_values@ == old(self).cache.storage_initial_values@,
            final(self).cache.storage_writes@ == old(self).cache.storage_writes@,
            final(self).cache.nonce_writes@ == old(self).cache.nonce_writes@,
            final(self).cache.class_hash_initial_values@ == old(self).cache.class_hash_initial_values@,
            final(self).cache.class_hash_writes@ == old(self).cache.class_hash_writes@,
            final(self).class_hash_to_class@ == old(self).class_hash_to_class@,
            old(self).cache.nonce_lookup(contract_address) is Some ==> final(self).cache.nonce_initial_values@ == old(self).cache.nonce_initial_values@,
            old(self).cache.nonce_lookup(contract_address) is None ==> final(self).cache.nonce_initial_values@ == old(self).cache.nonce_initial_values@.push(
                (contract_address, old(self).state_reader.nonce_at_spec(contract_address)),
            ),
            final(self).cache.nonce_lookup(contract_address) is Some,
            final(self).resolves_like(*old(self)),
    {
        let ghost pre = *self;
        match self.cache.get_nonce_at(contract_address) {
            Some(nonce) => {
                proof {
                    assert(self.resolves_like(pre));
                }
                Ok(nonce)
            },
            None => {
                let nonce = match self.state_reader.get_nonce_at(contract_address) {
                    Ok(n) => n,
                    Err(e) => { return Err(e) },
                };
                self.cache.set_nonce_initial_value(contract_address, nonce);
                proof {
                    lemma_entries_get_push(
                        pre.cache.nonce_initial_values@,
                        contract_address,
                        nonce,
                        contract_address,
                    );
                    assert forall|a: ContractAddress| #![trigger self.resolved_nonce(a)]
                        self.resolved_nonce(a) == pre.resolved_nonce(a) by {
                        lemma_entries_get_push(
                            pre.cache.nonce_initial_values@,
                            contract_address,
                            nonce,
                            a,
                        );
                    }
                }
                Ok(nonce)
            },
        }
    }

    /// Resolves the class hash an address is bound to, with the same
    /// fill-on-miss behavior as storage reads. Never fails; an
    /// undeployed address resolves to the default class hash.
    pub fn get_class_hash_at(&mut self, contract_address: ContractAddress) -> (r: StateResult<
        ClassHash,
    >)
        requires
            old(self).wf(),
        ensures
            final(self).wf(),
            r == Ok::<ClassHash, StateError>(old(self).resolved_class_hash(contract_address)),
            final(self).state_reader == old(self).state_reader,
            final(self).cache.storage_initial_values@ == old(self).cache.storage_initial_values@,
            final(self).cache.storage_writes@ == old(self).cache.storage_writes@,
            final(self).cache.nonce_initial_values@ == old(self).cache.nonce_initial_values@,
            final(self).cache.nonce_writes@ == old(self).cache.nonce_writes@,
            final(self).cache.class_hash_writes@ == old(self).cache.class_hash_writes@,
            final(self).class_hash_to_class@ == old(self).class_hash_to_class@,
            old(self).cache.class_hash_lookup(contract_address) is Some ==> final(self).cache.class_hash_initial_values@ == old(self).cache.class_hash_initial_values@,
            old(self).cache.class_hash_lookup(contract_address) is None ==> final(self).cache.class_hash_initial_values@ == old(self).cache.class_hash_initial_values@.push(
                (contract_address, old(self).state_reader.class_hash_at_spec(contract_address)),
            ),
            final(self).cache.class_hash_lookup(contract_address) is Some,
            final(self).resolves_like(*old(self)),
    {
        let ghost pre = *self;
        match self.cache.get_class_hash_at(contract_address) {
            Some(class_hash) => {
                proof {
                    assert(self.resolves_like(pre));
                }
                Ok(class_hash)
            },
            None => {
                let class_hash = match self.state_reader.get_class_hash_at(contract_address) {
                    Ok(h) => h,
                    Err(e) => { return Err(e) },
                };
                self.cache.set_class_hash_initial_value(contract_address, class_hash);
                proof {
                    lemma_entries_get_push(
                        pre.cache.class_hash_initial_values@,
                        contract_address,
                        class_hash,
                        contract_address,
                    );
                    assert forall|a: ContractAddress| #![trigger self.resolved_class_hash(a)]
                        self.resolved_class_hash(a) == pre.resolved_class_hash(a) by {
                        lemma_entries_get_push(
                            pre.cache.class_hash_initial_values@,
                            contract_address,
                            class_hash,
                            a,
                        );
                    }
                }
                Ok(class_hash)
            },
        }
    }

    /// Resolves a class hash to its full class object through the
    /// read-through class-code cache, propagating the reader's
    /// undeclared-class error on a miss of both.
    pub fn get_contract_class(&mut self, class_hash: &ClassHash) -> (r: StateResult<ContractClass>)
        requires
            old(self).wf(),
        ensures
            final(self).wf(),
            r == (match old(self).resolved_class(*class_hash) {
                Some(c) => Ok::<ContractClass, StateError>(c),
                None => Err::<ContractClass, StateError>(
                    StateError::UndeclaredClassHash(*class_hash),
                ),
            }),
            final(self).state_reader == old(self).state_reader,
            final(self).cache.storage_initial_values@ == old(self).cache.storage_initial_values@,
            final(self).cache.storage_writes@ == old(self).cache.storage_writes@,
            final(self).cache.nonce_initial_values@ == old(self).cache.nonce_initial_values@,
            final(self).cache.nonce_writes@ == old(self).cache.nonce_writes@,
            final(self).cache.class_hash_initial_values@ == old(self).cache.class_hash_initial_values@,
            final(self).cache.class_hash_writes@ == old(self).cache.class_hash_writes@,
            (entries_get(old(self).class_hash_to_class@, *class_hash) is Some || old(self).resolved_class(*class_hash) is None) ==> final(self).class_hash_to_class@ == old(self).class_hash_to_class@,
            (entries_get(old(self).class_hash_to_class@, *class_hash) is None && old(self).resolved_class(*class_hash) is Some) ==> final(self).class_hash_to_class@ == old(self).class_hash_to_class@.push(
                (*class_hash, old(self).resolved_class(*class_hash)->Some_0),
            ),
            final(self).resolves_like(*old(self)),
    {
        let ghost pre = *self;
        match self.class_hash_to_class.get(class_hash) {
            Some(contract_class) => {
                let c = *contract_class;
                proof {
                    assert(self.resolves_like(pre));
                }
                Ok(c)
            },
            None => {
                match self.state_reader.get_contract_class(class_hash) {
                    Ok(contract_class) => {
                        proof {
                            lemma_absent_key_has_no_index(
                                pre.class_hash_to_class@,
                                *class_hash,
                                contract_class,
                            );
                        }
                        self.class_hash_to_class.insert(*class_hash, contract_class);
                        proof {
                            lemma_entries_get_push(
                                pre.class_hash_to_class@,
                                *class_hash,
                                contract_class,
                                *class_hash,
                            );
                            assert forall|h: ClassHash| #![trigger self.resolved_class(h)]
                                self.resolved_class(h) == pre.resolved_class(h) by {
                                lemma_entries_get_push(
                                    pre.class_hash_to_class@,
                                    *class_hash,
                                    contract_class,
                                    h,
                                );
                            }
                        }
                        Ok(contract_class)
                    },
                    Err(e) => {
                        proof {
                            assert(self.resolves_like(pre));
                        }
                        Err(e)
                    },
                }
            },
        }
    }

    /// Unconditionally records a storage write; performs no read, so a
    /// key written without ever being read has no initial-value record.
    /// A later read of the cell observes exactly this value.
    pub fn set_storage_at(
        &mut self,
        contract_address: ContractAddress,
        key: StorageKey,
        value: Felt,
    )
        requires
            old(self).wf(),
        ensures
            final(self).wf(),
            final(self).cache.storage_writes@ == spec_insert(
                old(self).cache.storage_writes@,
                (contract_address, key),
                value,
            ),
            final(self).state_reader == old(self).state_reader,
            final(self).cache.storage_initial_values@ == old(self).cache.storage_initial_values@,
            final(self).cache.nonce_initial_values@ == old(self).cache.nonce_initial_values@,
            final(self).cache.nonce_writes@ == old(self).cache.nonce_writes@,
            final(self).cache.class_hash_initial_values@ == old(self).cache.class_hash_initial_values@,
            final(self).cache.class_hash_writes@ == old(self).cache.class_hash_writes@,
            final(self).class_hash_to_class@ == old(self).class_hash_to_class@,
            final(self).resolved_storage(contract_address, key) == value,
            forall|a: ContractAddress, k: StorageKey|
                #![trigger final(self).resolved_storage(a, k)]
                (a, k) != (contract_address, key) ==> final(self).resolved_storage(a, k)
                    == old(self).resolved_storage(a, k),
    {
        let ghost pre = *self;
        self.cache.set_storage_value(contract_address, key, value);
        proof {
            lemma_spec_insert_get(
                pre.cache.storage_writes@,
                (contract_address, key),
                value,
                (contract_address, key),
            );
            assert forall|a: ContractAddress, k: StorageKey|
                #![trigger self.resolved_storage(a, k)]
                (a, k) != (contract_address, key) implies self.resolved_storage(a, k)
                == pre.resolved_storage(a, k) by {
                lemma_spec_insert_get(
                    pre.cache.storage_writes@,
                    (contract_address, key),
                    value,
                    (a, k),
                );
            }
        }
    }

    /// Increments an address's nonce: reads the current nonce (with
    /// fill-on-miss), adds one in a fixed 64-bit width, and records the
    /// result as a write. Fails with the arithmetic error, recording no
    /// write, iff the current value does not fit that width.
    pub fn increment_nonce(&mut self, contract_address: ContractAddress) -> (r: StateResult<()>)
        requires
            old(self).wf(),
        ensures
            final(self).wf(),
            final(self).state_reader == old(self).state_reader,
            final(self).cache.storage_initial_values@ == old(self).cache.storage_initial_values@,
            final(self).cache.storage_writes@ == old(self).cache.storage_writes@,
            final(self).cache.class_hash_initial_values@ == old(self).cache.class_hash_initial_values@,
            final(self).cache.class_hash_writes@ == old(self).cache.class_hash_writes@,
            final(self).class_hash_to_class@ == old(self).class_hash_to_class@,
            old(self).cache.nonce_lookup(contract_address) is Some ==> final(self).cache.nonce_initial_values@ == old(self).cache.nonce_initial_values@,
            old(self).cache.nonce_lookup(contract_address) is None ==> final(self).cache.nonce_initial_values@ == old(self).cache.nonce_initial_values@.push(
                (contract_address, old(self).state_reader.nonce_at_spec(contract_address)),
            ),
            old(self).resolved_nonce(contract_address).0.val > u64::MAX ==> r == Err::<
                (),
                StateError,
            >(StateError::ArithmeticOverflow) && final(self).cache.nonce_writes@ == old(self).cache.nonce_writes@,
            old(self).resolved_nonce(contract_address).0.val <= u64::MAX ==> r == Ok::<
                (),
                StateError,
            >(()) && final(self).cache.nonce_writes@ == spec_insert(
                old(self).cache.nonce_writes@,
                contract_address,
                (Nonce(Felt { val: (old(self).resolved_nonce(contract_address).0.val + 1) as u128 })),
            ) && final(self).resolved_nonce(contract_address) == (Nonce(
                Felt { val: (old(self).resolved_nonce(contract_address).0.val + 1) as u128 },
            )),
    {
        let current_nonce = match self.get_nonce_at(contract_address) {
            Ok(n) => n,
            Err(e) => { return Err(e) },
        };
        if current_nonce.0.val > u64::MAX as u128 {
            return Err(StateError::ArithmeticOverflow);
        }
        let ghost mid = *self;
        let next_nonce = Nonce(Felt { val: current_nonce.0.val + 1 });
        self.cache.set_nonce_value(contract_address, next_nonce);
        proof {
            lemma_spec_insert_get(
                mid.cache.nonce_writes@,
                contract_address,
                next_nonce,
                contract_address,
            );
        }
        Ok(())
    }

    /// Records a deployment write binding `contract_address` to
    /// `class_hash`. Rejects the reserved zero address unconditionally
    /// with the out-of-range error; rejects an address whose resolved
    /// class hash is already non-default with the address-unavailable
    /// error, leaving the recorded binding untouched. Deployment is a
    /// one-way transition: an address is deployed exactly once.
    pub fn set_class_hash_at(
        &mut self,
        contract_address: ContractAddress,
        class_hash: ClassHash,
    ) -> (r: StateResult<()>)
        requires
            old(self).wf(),
        ensures
            final(self).wf(),
            final(self).state_reader == old(self).state_reader,
            final(self).cache.storage_initial_values@ == old(self).cache.storage_initial_values@,
            final(self).cache.storage_writes@ == old(self).cache.storage_writes@,
            final(self).cache.nonce_initial_values@ == old(self).cache.nonce_initial_values@,
            final(self).cache.nonce_writes@ == old(self).cache.nonce_writes@,
            final(self).class_hash_to_class@ == old(self).class_hash_to_class@,
            contract_address == ContractAddress::zero_spec() ==> r == Err::<(), StateError>(
                StateError::OutOfRangeContractAddress,
            ) && final(self).cache.class_hash_initial_values@ == old(self).cache.class_hash_initial_values@ && final(self).cache.class_hash_writes@ == old(self).cache.class_hash_writes@,
            contract_address != ContractAddress::zero_spec() ==> (old(self).cache.class_hash_lookup(contract_address) is Some ==> final(self).cache.class_hash_initial_values@ == old(self).cache.class_hash_initial_values@) && (
            old(self).cache.class_hash_lookup(contract_address) is None ==> final(self).cache.class_hash_initial_values@ == old(self).cache.class_hash_initial_values@.push(
                (contract_address, old(self).state_reader.class_hash_at_spec(contract_address)),
            )),
            (contract_address != ContractAddress::zero_spec() && old(self).resolved_class_hash(
                contract_address,
            ) != ClassHash::zero_spec()) ==> r == Err::<(), StateError>(
                StateError::UnavailableContractAddress(contract_address),
            ) && final(self).cache.class_hash_writes@ == old(self).cache.class_hash_writes@
                && final(self).resolved_class_hash(contract_address) == old(self).resolved_class_hash(contract_address),
            (contract_address != ContractAddress::zero_spec() && old(self).resolved_class_hash(
                contract_address,
            ) == ClassHash::zero_spec()) ==> r == Ok::<(), StateError>(()) && final(self).cache.class_hash_writes@ == spec_insert(
                old(self).cache.class_hash_writes@,
                contract_address,
                class_hash,
            ) && final(self).resolved_class_hash(contract_address) == class_hash,
    {
        if contract_address == ContractAddress::default() {
            return Err(StateError::OutOfRangeContractAddress);
        }
        let current_class_hash = match self.get_class_hash_at(contract_address) {
            Ok(h) => h,
            Err(e) => { return Err(e) },
        };
        if current_class_hash != ClassHash::default() {
            return Err(StateError::UnavailableContractAddress(contract_address));
        }
        let ghost mid = *self;
        self.cache.set_class_hash_write(contract_address, class_hash);
        proof {
            lemma_spec_insert_get(
                mid.cache.class_hash_writes@,
                contract_address,
                class_hash,
                contract_address,
            );
        }
        Ok(())
    }
}


/// Reading an untouched cell twice returns identical values and issues
/// exactly one underlying reader query: the first read records the
/// cell, so the second read step leaves every mapping untouched and
/// resolves the cell to the same value as the first.
pub proof fn lemma_second_read_is_identity<SR: StateReader>(
    pre: CachedState<SR>,
    mid: CachedState<SR>,
    post: CachedState<SR>,
    contract_address: ContractAddress,
    key: StorageKey,
)
    requires
        pre.wf(),
        storage_read_step(pre, mid, contract_address, key),
        storage_read_step(mid, post, contract_address, key),
    ensures
        mid.resolved_storage(contract_address, key) == pre.resolved_storage(
            contract_address,
            key,
        ),
        post.cache.storage_initial_values@ == mid.cache.storage_initial_values@,
        post.cache.storage_writes@ == mid.cache.storage_writes@,
        post.resolved_storage(contract_address, key) == pre.resolved_storage(
            contract_address,
            key,
        ),
{
    let k = (contract_address, key);
    if pre.cache.storage_lookup(contract_address, key) is None {
        lemma_entries_get_push(
            pre.cache.storage_initial_values@,
            k,
            pre.state_reader.storage_at_spec(contract_address, key),
            k,
        );
    }
    assert(mid.cache.storage_lookup(contract_address, key) is Some);
}

} // verus!
