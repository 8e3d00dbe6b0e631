//! State-diff extraction: the consuming conversion of a caching state
//! view into the transaction's minimal net-change record.
//!
//! For each quantity the write map is subtracted against the initial
//! map: a written entry reaches the diff iff no initial value was ever
//! observed for its key or the initial value differs from the written
//! one. Entries are emitted in write-map insertion order, and the flat
//! storage subtraction is regrouped per address (first-seen address
//! order, key insertion order within an address); downstream consumers
//! hash the diff in exactly this order.

use vstd::prelude::*;
use crate::cached_state::CachedState;
use crate::core_types::ClassHash;
use crate::core_types::ContractAddress;
use crate::core_types::ContractClass;
use crate::core_types::Felt;
use crate::core_types::Nonce;
use crate::core_types::StorageEntry;
use crate::core_types::StorageKey;
use crate::ordered_map::distinct_keys;
use crate::ordered_map::entries_get;
use crate::ordered_map::lemma_entries_get_absent;
use crate::ordered_map::lemma_entries_get_present;
use crate::ordered_map::lemma_entries_get_push;
use crate::ordered_map::EqValue;
use crate::ordered_map::OrderedMap;
use crate::reader::StateReader;

verus! {

/// The subtraction of the first `n` write entries against the initial
/// entries: writes kept in order, dropping those whose key's initial
/// value equals the written value.
pub open spec fn subtract_prefix<K, V>(writes: Seq<(K, V)>, initial: Seq<(K, V)>, n: int) -> Seq<
    (K, V),
>
    decreases n,
{
    if n <= 0 {
        Seq::empty()
    } else {
        let prev = subtract_prefix(writes, initial, n - 1);
        let p = writes[n - 1];
        if entries_get(initial, p.0) == Some(p.1) {
            prev
        } else {
            prev.push(p)
        }
    }
}

/// The full subtraction of a write map against an initial map.
pub open spec fn subtract_entries<K, V>(writes: Seq<(K, V)>, initial: Seq<(K, V)>) -> Seq<(K, V)> {
    subtract_prefix(writes, initial, writes.len() as int)
}

/// Every subtraction entry is one of the first `n` write entries, and
/// the subtraction of a distinct-keyed write map is distinct-keyed.
pub proof fn lemma_subtract_prefix_support<K, V>(writes: Seq<(K, V)>, initial: Seq<(K, V)>, n: int)
    requires
        0 <= n <= writes.len(),
    ensures
        forall|j: int|
            0 <= j < subtract_prefix(writes, initial, n).len() ==> exists|i: int|
                0 <= i < n && writes[i] == #[trigger] subtract_prefix(writes, initial, n)[j],
        distinct_keys(writes) ==> distinct_keys(subtract_prefix(writes, initial, n)),
    decreases n,
{
    if n > 0 {
        lemma_subtract_prefix_support(writes, initial, n - 1);
        let prev = subtract_prefix(writes, initial, n - 1);
        let cur = subtract_prefix(writes, initial, n);
        let p = writes[n - 1];
        assert forall|j: int| 0 <= j < cur.len() implies exists|i: int|
            0 <= i < n && writes[i] == #[trigger] cur[j] by {
            if j < prev.len() {
                assert(cur[j] == prev[j]);
                let i = choose|i: int| 0 <= i < n - 1 && writes[i] == prev[j];
                assert(0 <= i < n && writes[i] == cur[j]);
            } else {
                assert(cur[j] == p);
                assert(writes[n - 1] == cur[j]);
            }
        }
        if distinct_keys(writes) {
            assert forall|a: int, b: int| 0 <= a < b < cur.len() implies (#[trigger] cur[a]).0 != (
            #[trigger] cur[b]).0 by {
                if b < prev.len() {
                    assert(cur[a] == prev[a] && cur[b] == prev[b]);
                } else {
                    assert(cur[b] == p);
                    assert(cur[a] == prev[a]);
                    let i = choose|i: int| 0 <= i < n - 1 && writes[i] == prev[a];
                    assert(writes[i].0 != writes[n - 1].0);
                }
            }
        }
    }
}

/// Net-change exactness of the subtraction: a key is bound in the
/// result iff it is written and the written value is not the recorded
/// initial value, and then to exactly the written value.
pub proof fn lemma_subtract_prefix_get<K, V>(
    writes: Seq<(K, V)>,
    initial: Seq<(K, V)>,
    n: int,
    k: K,
)
    requires
        distinct_keys(writes),
        0 <= n <= writes.len(),
    ensures
        entries_get(subtract_prefix(writes, initial, n), k) == (match entries_get(
            writes.subrange(0, n),
            k,
        ) {
            None => None::<V>,
            Some(v) => if entries_get(initial, k) == Some(v) {
                None::<V>
            } else {
                Some(v)
            },
        }),
    decreases n,
{
    if n > 0 {
        lemma_subtract_prefix_get(writes, initial, n - 1, k);
        let prev = subtract_prefix(writes, initial, n - 1);
        let cur = subtract_prefix(writes, initial, n);
        let p = writes[n - 1];
        assert(writes.subrange(0, n).drop_last() =~= writes.subrange(0, n - 1));
        assert(writes.subrange(0, n).last() == p);
        if p.0 == k {
            assert(entries_get(writes.subrange(0, n), k) == Some(p.1));
            lemma_subtract_prefix_support(writes, initial, n - 1);
            assert forall|j: int| 0 <= j < prev.len() implies (#[trigger] prev[j]).0 != k by {
                let i = choose|i: int| 0 <= i < n - 1 && writes[i] == prev[j];
                assert(writes[i].0 != writes[n - 1].0);
            }
            lemma_entries_get_absent(prev, k);
            if entries_get(initial, p.0) == Some(p.1) {
            } else {
                lemma_entries_get_push(prev, p.0, p.1, k);
            }
        } else {
            assert(entries_get(writes.subrange(0, n), k) == entries_get(
                writes.subrange(0, n - 1),
                k,
            ));
            if entries_get(initial, p.0) == Some(p.1) {
            } else {
                lemma_entries_get_push(prev, p.0, p.1, k);
            }
        }
    } else {
        assert(writes.subrange(0, 0) =~= Seq::<(K, V)>::empty());
    }
}

/// [`lemma_subtract_prefix_get`] for the whole write map.
pub proof fn lemma_subtract_net_change<K, V>(writes: Seq<(K, V)>, initial: Seq<(K, V)>, k: K)
    requires
        distinct_keys(writes),
    ensures
        entries_get(subtract_entries(writes, initial), k) == (match entries_get(writes, k) {
            None => None::<V>,
            Some(v) => if entries_get(initial, k) == Some(v) {
                None::<V>
            } else {
                Some(v)
            },
        }),
{
    lemma_subtract_prefix_get(writes, initial, writes.len() as int, k);
    assert(writes.subrange(0, writes.len() as int) =~= writes);
}

/// Computes the subtraction of a write map against an initial map,
/// in write-map insertion order.
pub fn subtract_mappings<K: EqValue + Copy, V: EqValue + Copy>(
    writes: &OrderedMap<K, V>,
    initial_values: &OrderedMap<K, V>,
) -> (r: Vec<(K, V)>)
    requires
        writes.wf(),
        initial_values.wf(),
    ensures
        r@ == subtract_entries(writes@, initial_values@),
{
    let mut result: Vec<(K, V)> = Vec::new();
    let n = writes.len();
    let mut i: usize = 0;
    proof {
        assert(result@ =~= subtract_prefix(writes@, initial_values@, 0));
    }
    while i < n
        invariant
            i <= n,
            n == writes@.len(),
            writes.wf(),
            initial_values.wf(),
            result@ == subtract_prefix(writes@, initial_values@, i as int),
        decreases n - i,
    {
        let entry = writes.entry_at(i);
        let k = entry.0;
        let v = entry.1;
        let keep: bool = match initial_values.get(&k) {
            Some(w) => !v.eq_value(w),
            None => true,
        };
        if keep {
            result.push((k, v));
        }
        i += 1;
    }
    result
}

/// The flat (address, key) to value mapping of a caching state view's
/// net storage changes, before regrouping per address.
#[derive(Debug)]
pub struct StorageView(pub Vec<(StorageEntry, Felt)>);

impl StorageView {
    /// Converts the flat mapping into a state diff's per-address
    /// storage mapping.
    pub fn into_storage_diffs(self) -> (r: Vec<(ContractAddress, Vec<(StorageKey, Felt)>)>)
        ensures
            storage_diffs_view(r) == group_by_address(self.0@),
    {
        group_storage_entries(&self.0)
    }
}

/// The view of a per-address grouped storage mapping, with the inner
/// vectors abstracted to sequences.
pub open spec fn storage_diffs_view(v: Vec<(ContractAddress, Vec<(StorageKey, Felt)>)>) -> Seq<
    (ContractAddress, Seq<(StorageKey, Felt)>),
> {
    v@.map_values(|p: (ContractAddress, Vec<(StorageKey, Felt)>)| (p.0, p.1@))
}

/// One grouping step: the cell is appended to its address's inner
/// mapping if the address is already present, else the address is
/// appended with a singleton inner mapping.
pub open spec fn group_insert(
    acc: Seq<(ContractAddress, Seq<(StorageKey, Felt)>)>,
    contract_address: ContractAddress,
    key: StorageKey,
    value: Felt,
) -> Seq<(ContractAddress, Seq<(StorageKey, Felt)>)> {
    if exists|i: int| 0 <= i < acc.len() && (#[trigger] acc[i]).0 == contract_address {
        let i = choose|i: int| 0 <= i < acc.len() && (#[trigger] acc[i]).0 == contract_address;
        acc.update(i, (contract_address, acc[i].1.push((key, value))))
    } else {
        acc.push((contract_address, seq![(key, value)]))
    }
}

/// The grouping of the first `n` flat entries.
pub open spec fn group_prefix(flat: Seq<(StorageEntry, Felt)>, n: int) -> Seq<
    (ContractAddress, Seq<(StorageKey, Felt)>),
>
    decreases n,
{
    if n <= 0 {
        Seq::empty()
    } else {
        let prev = group_prefix(flat, n - 1);
        let e = flat[n - 1];
        group_insert(prev, e.0.0, e.0.1, e.1)
    }
}

/// The per-address regrouping of a flat storage mapping: first-seen
/// address order, key insertion order within an address.
pub open spec fn group_by_address(flat: Seq<(StorageEntry, Felt)>) -> Seq<
    (ContractAddress, Seq<(StorageKey, Felt)>),
> {
    group_prefix(flat, flat.len() as int)
}

/// Regroups a flat storage mapping per address.
pub fn group_storage_entries(flat: &Vec<(StorageEntry, Felt)>) -> (r: Vec<
    (ContractAddress, Vec<(StorageKey, Felt)>)>)
    ensures
        storage_diffs_view(r) == group_by_address(flat@),
{
    let mut result: Vec<(ContractAddress, Vec<(StorageKey, Felt)>)> = Vec::new();
    let n = flat.len();
    let mut i: usize = 0;
    proof {
        assert(storage_diffs_view(result) =~= group_prefix(flat@, 0));
    }
    while i < n
        invariant
            i <= n,
            n == flat@.len(),
            storage_diffs_view(result) == group_prefix(flat@, i as int),
            distinct_keys(storage_diffs_view(result)),
        decreases n - i,
    {
        let ghost pre = storage_diffs_view(result);
        let ((contract_address, key), value) = flat[i];
        let m = result.len();
        let mut j: usize = 0;
        let mut found: bool = false;
        while j < m && !found
            invariant
                j <= m,
                m == result@.len(),
                !found ==> forall|t: int|
                    0 <= t < j ==> (#[trigger] result@[t]).0 != contract_address,
                found ==> j < m && result@[j as int].0 == contract_address,
            decreases m - j + (if found { 0int } else { 1int }),
        {
            if result[j].0.eq_value(&contract_address) {
                found = true;
            } else {
                j += 1;
            }
        }
        proof {
            assert forall|t: int| 0 <= t < result@.len() implies (#[trigger] pre[t]).0
                == result@[t].0 by {
                assert(pre[t] == (result@[t].0, result@[t].1@));
            }
        }
        if found {
            let mut pair = result.remove(j);
            pair.1.push((key, value));
            result.insert(j, pair);
            proof {
                assert((#[trigger] pre[j as int]).0 == contract_address);
                assert(exists|t: int| 0 <= t < pre.len() && (#[trigger] pre[t]).0
                    == contract_address);
                let c = choose|t: int| 0 <= t < pre.len() && (#[trigger] pre[t]).0
                    == contract_address;
                assert(c == j as int);
                assert(storage_diffs_view(result) =~= group_insert(
                    pre,
                    contract_address,
                    key,
                    value,
                ));
                lemma_group_insert_distinct(pre, contract_address, key, value);
            }
        } else {
            let mut inner: Vec<(StorageKey, Felt)> = Vec::new();
            inner.push((key, value));
            result.push((contract_address, inner));
            proof {
                assert forall|t: int| 0 <= t < pre.len() implies (#[trigger] pre[t]).0
                    != contract_address by {
                    assert(pre[t].0 == result@[t].0);
                }
                assert(!exists|t: int| 0 <= t < pre.len() && (#[trigger] pre[t]).0
                    == contract_address);
                assert(inner@ =~= seq![(key, value)]);
                assert(storage_diffs_view(result) =~= group_insert(
                    pre,
                    contract_address,
                    key,
                    value,
                ));
                lemma_group_insert_distinct(pre, contract_address, key, value);
            }
        }
        i += 1;
    }
    result
}

/// A grouping step keeps the outer addresses pairwise distinct.
pub proof fn lemma_group_insert_distinct(
    acc: Seq<(ContractAddress, Seq<(StorageKey, Felt)>)>,
    contract_address: ContractAddress,
    key: StorageKey,
    value: Felt,
)
    requires
        distinct_keys(acc),
    ensures
        distinct_keys(group_insert(acc, contract_address, key, value)),
{
    let t = group_insert(acc, contract_address, key, value);
    if exists|i: int| 0 <= i < acc.len() && (#[trigger] acc[i]).0 == contract_address {
        let i = choose|i: int| 0 <= i < acc.len() && (#[trigger] acc[i]).0 == contract_address;
        assert forall|p: int, q: int| 0 <= p < q < t.len() implies (#[trigger] t[p]).0 != (
        #[trigger] t[q]).0 by {
            assert(t[p].0 == acc[p].0 && t[q].0 == acc[q].0);
        }
    } else {
        assert forall|p: int, q: int| 0 <= p < q < t.len() implies (#[trigger] t[p]).0 != (
        #[trigger] t[q]).0 by {
            if q == acc.len() as int {
                assert(t[p] == acc[p]);
                if t[p].0 == contract_address {
                    assert(0 <= p < acc.len() && acc[p].0 == contract_address);
                }
            } else {
                assert(t[p] == acc[p] && t[q] == acc[q]);
            }
        }
    }
}

/// The minimal net-change record of one transaction: four
/// insertion-ordered mappings whose exact iteration order feeds a
/// deterministic commitment hash downstream.
#[derive(Debug)]
pub struct StateDiff {
    /// Net new deployments: address to class hash, write order.
    pub deployed_contracts: Vec<(ContractAddress, ClassHash)>,
    /// Net storage changes grouped per address: first-seen address
    /// order, key insertion order within an address.
    pub storage_diffs: Vec<(ContractAddress, Vec<(StorageKey, Felt)>)>,
    /// Every class read or declared during the context's lifetime,
    /// carried over from the class-code cache as-is.
    pub declared_classes: Vec<(ClassHash, ContractClass)>,
    /// Net nonce changes, write order.
    pub nonces: Vec<(ContractAddress, Nonce)>,
}

impl StateDiff {
    /// Consumes a caching state view into its net state diff.
    pub fn from_cached_state<SR: StateReader>(cached_state: CachedState<SR>) -> (r: StateDiff)
        requires
            cached_state.wf(),
        ensures
            r.deployed_contracts@ == subtract_entries(
                cached_state.cache.class_hash_writes@,
                cached_state.cache.class_hash_initial_values@,
            ),
            storage_diffs_view(r.storage_diffs) == group_by_address(
                subtract_entries(
                    cached_state.cache.storage_writes@,
                    cached_state.cache.storage_initial_values@,
                ),
            ),
            r.declared_classes@ == cached_state.class_hash_to_class@,
            r.nonces@ == subtract_entries(
                cached_state.cache.nonce_writes@,
                cached_state.cache.nonce_initial_values@,
            ),
            distinct_keys(r.deployed_contracts@),
            distinct_keys(storage_diffs_view(r.storage_diffs)),
            distinct_keys(r.declared_classes@),
            distinct_keys(r.nonces@),
    {
        let CachedState { state_reader, cache, class_hash_to_class } = cached_state;
        let deployed_contracts = subtract_mappings(
            &cache.class_hash_writes,
            &cache.class_hash_initial_values,
        );
        let storage_flat = subtract_mappings(&cache.storage_writes, &cache.storage_initial_values);
        let nonces = subtract_mappings(&cache.nonce_writes, &cache.nonce_initial_values);
        let storage_diffs = StorageView(storage_flat).into_storage_diffs();
        let declared_classes = class_hash_to_class.into_entries();
        proof {
            lemma_subtract_prefix_support(
                cached_state.cache.class_hash_writes@,
                cached_state.cache.class_hash_initial_values@,
                cached_state.cache.class_hash_writes@.len() as int,
            );
            lemma_subtract_prefix_support(
                cached_state.cache.nonce_writes@,
                cached_state.cache.nonce_initial_values@,
                cached_state.cache.nonce_writes@.len() as int,
            );
            let flat = subtract_entries(
                cached_state.cache.storage_writes@,
                cached_state.cache.storage_initial_values@,
            );
            lemma_group_prefix_distinct(flat, flat.len() as int);
        }
        StateDiff { deployed_contracts, storage_diffs, declared_classes, nonces }
    }
}

/// Every grouping prefix keeps the outer addresses pairwise distinct.
pub proof fn lemma_group_prefix_distinct(flat: Seq<(StorageEntry, Felt)>, n: int)
    ensures
        distinct_keys(group_prefix(flat, n)),
    decreases n,
{
    if n > 0 {
        lemma_group_prefix_distinct(flat, n - 1);
        lemma_group_insert_distinct(group_prefix(flat, n - 1), flat[n - 1].0.0, flat[n - 1].0.1, flat[n - 1].1);
    } else {
        assert(group_prefix(flat, n) =~= Seq::<(ContractAddress, Seq<(StorageKey, Felt)>)>::empty());
    }
}

/// Net-change exactness of the extracted storage diff: for a
/// well-formed caching view, the flat storage subtraction binds a cell
/// iff the cell was written and either no initial value was ever
/// observed for it or its final written value differs from the true
/// pre-transaction value held by the backing reader; the bound value is
/// exactly the final written one.
pub proof fn lemma_storage_diff_net_change<SR: StateReader>(
    cached_state: CachedState<SR>,
    contract_address: ContractAddress,
    key: StorageKey,
)
    requires
        cached_state.wf(),
    ensures
        ({
            let diff = subtract_entries(
                cached_state.cache.storage_writes@,
                cached_state.cache.storage_initial_values@,
            );
            let written = entries_get(cached_state.cache.storage_writes@, (contract_address, key));
            let observed = entries_get(
                cached_state.cache.storage_initial_values@,
                (contract_address, key),
            );
            match written {
                None => entries_get(diff, (contract_address, key)) is None,
                Some(v) => entries_get(diff, (contract_address, key)) == (if observed is Some && v
                    == cached_state.state_reader.storage_at_spec(contract_address, key) {
                    None::<Felt>
                } else {
                    Some(v)
                }),
            }
        }),
{
    let writes = cached_state.cache.storage_writes@;
    let initial = cached_state.cache.storage_initial_values@;
    let k = (contract_address, key);
    lemma_subtract_net_change(writes, initial, k);
    if entries_get(initial, k) is Some {
        lemma_entries_get_present(initial, k);
        let i = choose|i: int|
            0 <= i < initial.len() && (#[trigger] initial[i]).0 == k && initial[i].1 == entries_get(
                initial,
                k,
            )->Some_0;
        assert(initial[i].1 == cached_state.state_reader.storage_at_spec(
            contract_address,
            key,
        ));
    }
}

/// Net-change exactness of the extracted nonce diff, as for storage:
/// an address is bound iff its nonce was written and either never read
/// or written to a value other than the reader's.
pub proof fn lemma_nonce_diff_net_change<SR: StateReader>(
    cached_state: CachedState<SR>,
    contract_address: ContractAddress,
)
    requires
        cached_state.wf(),
    ensures
        ({
            let diff = subtract_entries(
                cached_state.cache.nonce_writes@,
                cached_state.cache.nonce_initial_values@,
            );
            let written = entries_get(cached_state.cache.nonce_writes@, contract_address);
            let observed = entries_get(
                cached_state.cache.nonce_initial_values@,
                contract_address,
            );
            match written {
                None => entries_get(diff, contract_address) is None,
                Some(n) => entries_get(diff, contract_address) == (if observed is Some && n
                    == cached_state.state_reader.nonce_at_spec(contract_address) {
                    None::<Nonce>
                } else {
                    Some(n)
                }),
            }
        }),
{
    let writes = cached_state.cache.nonce_writes@;
    let initial = cached_state.cache.nonce_initial_values@;
    lemma_subtract_net_change(writes, initial, contract_address);
    if entries_get(initial, contract_address) is Some {
        lemma_entries_get_present(initial, contract_address);
        let i = choose|i: int|
            0 <= i < initial.len() && (#[trigger] initial[i]).0 == contract_address
                && initial[i].1 == entries_get(initial, contract_address)->Some_0;
        assert(initial[i].1 == cached_state.state_reader.nonce_at_spec(contract_address));
    }
}

/// Net-change exactness of the extracted deployment diff, as for
/// storage: an address is bound iff a deployment was recorded for it
/// and either its class hash was never read or the recorded hash
/// differs from the reader's.
pub proof fn lemma_deployed_diff_net_change<SR: StateReader>(
    cached_state: CachedState<SR>,
    contract_address: ContractAddress,
)
    requires
        cached_state.wf(),
    ensures
        ({
            let diff = subtract_entries(
                cached_state.cache.class_hash_writes@,
                cached_state.cache.class_hash_initial_values@,
            );
            let written = entries_get(cached_state.cache.class_hash_writes@, contract_address);
            let observed = entries_get(
                cached_state.cache.class_hash_initial_values@,
                contract_address,
            );
            match written {
                None => entries_get(diff, contract_address) is None,
                Some(h) => entries_get(diff, contract_address) == (if observed is Some && h
                    == cached_state.state_reader.class_hash_at_spec(contract_address) {
                    None::<ClassHash>
                } else {
                    Some(h)
                }),
            }
        }),
{
    let writes = cached_state.cache.class_hash_writes@;
    let initial = cached_state.cache.class_hash_initial_values@;
    lemma_subtract_net_change(writes, initial, contract_address);
    if entries_get(initial, contract_address) is Some {
        lemma_entries_get_present(initial, contract_address);
        let i = choose|i: int|
            0 <= i < initial.len() && (#[trigger] initial[i]).0 == contract_address
                && initial[i].1 == entries_get(initial, contract_address)->Some_0;
        assert(initial[i].1 == cached_state.state_reader.class_hash_at_spec(contract_address));
    }
}

} // verus!
