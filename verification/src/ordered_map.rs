//! An insertion-ordered association map.
//!
//! All cache and diff mappings of this crate must preserve insertion
//! order exactly: the emitted diff's iteration order feeds a
//! deterministic commitment hash downstream. The map is a vector of
//! key/value pairs with pairwise-distinct keys; a key keeps the position
//! of its first insertion, and a later insert for the same key only
//! replaces the value.

use vstd::prelude::*;
use crate::core_types::ClassHash;
use crate::core_types::ContractAddress;
use crate::core_types::Felt;
use crate::core_types::Nonce;
use crate::core_types::StorageKey;

verus! {

/// Key (and value) types usable in an [`OrderedMap`]: types whose
/// executable equality decides logical equality.
pub trait EqValue: Sized {
    fn eq_value(&self, other: &Self) -> (r: bool)
        ensures
            r <==> *self == *other,
    ;
}

impl EqValue for Felt {
    fn eq_value(&self, other: &Self) -> (r: bool)
        ensures
            r <==> *self == *other,
    {
        *self == *other
    }
}

impl EqValue for ContractAddress {
    fn eq_value(&self, other: &Self) -> (r: bool)
        ensures
            r <==> *self == *other,
    {
        *self == *other
    }
}

impl EqValue for ClassHash {
    fn eq_value(&self, other: &Self) -> (r: bool)
        ensures
            r <==> *self == *other,
    {
        *self == *other
    }
}

impl EqValue for Nonce {
    fn eq_value(&self, other: &Self) -> (r: bool)
        ensures
            r <==> *self == *other,
    {
        *self == *other
    }
}

impl EqValue for StorageKey {
    fn eq_value(&self, other: &Self) -> (r: bool)
        ensures
            r <==> *self == *other,
    {
        *self == *other
    }
}

impl EqValue for (ContractAddress, StorageKey) {
    fn eq_value(&self, other: &Self) -> (r: bool)
        ensures
            r <==> *self == *other,
    {
        self.0 == other.0 && self.1 == other.1
    }
}

/// The value bound to `k` in the entry sequence `s`, if any.
pub open spec fn entries_get<K, V>(s: Seq<(K, V)>, k: K) -> Option<V>
    decreases s.len(),
{
    if s.len() == 0 {
        None
    } else if s.last().0 == k {
        Some(s.last().1)
    } else {
        entries_get(s.drop_last(), k)
    }
}

/// Whether the entry sequence `s` holds the key `k`.
pub open spec fn entries_contain<K, V>(s: Seq<(K, V)>, k: K) -> bool {
    entries_get(s, k) is Some
}

/// Pairwise distinctness of the keys of an entry sequence.
pub open spec fn distinct_keys<K, V>(s: Seq<(K, V)>) -> bool {
    forall|i: int, j: int| #![trigger s[i], s[j]] 0 <= i < j < s.len() ==> s[i].0 != s[j].0
}

/// The entry sequence after binding `k` to `v`: the value is replaced in
/// place if `k` is present, else the pair is appended.
pub open spec fn spec_insert<K, V>(s: Seq<(K, V)>, k: K, v: V) -> Seq<(K, V)> {
    if exists|i: int| 0 <= i < s.len() && (#[trigger] s[i]).0 == k {
        let i = choose|i: int| 0 <= i < s.len() && (#[trigger] s[i]).0 == k;
        s.update(i, (k, v))
    } else {
        s.push((k, v))
    }
}

/// If `k` sits at position `i` of a distinct-keyed sequence, the lookup
/// returns the value stored there.
pub proof fn lemma_entries_get_index<K, V>(s: Seq<(K, V)>, k: K, i: int)
    requires
        distinct_keys(s),
        0 <= i < s.len(),
        s[i].0 == k,
    ensures
        entries_get(s, k) == Some(s[i].1),
    decreases s.len(),
{
    if i == s.len() - 1 {
    } else {
        assert(s.last().0 != k);
        assert(distinct_keys(s.drop_last()));
        lemma_entries_get_index(s.drop_last(), k, i);
    }
}

/// A key at no position of the sequence is absent from the lookup.
pub proof fn lemma_entries_get_absent<K, V>(s: Seq<(K, V)>, k: K)
    requires
        forall|i: int| 0 <= i < s.len() ==> (#[trigger] s[i]).0 != k,
    ensures
        entries_get(s, k) == None::<V>,
    decreases s.len(),
{
    if s.len() > 0 {
        lemma_entries_get_absent(s.drop_last(), k);
    }
}

/// A successful lookup names some position of the sequence.
pub proof fn lemma_entries_get_present<K, V>(s: Seq<(K, V)>, k: K)
    requires
        entries_contain(s, k),
    ensures
        exists|i: int| 0 <= i < s.len() && (#[trigger] s[i]).0 == k && s[i].1
            == entries_get(s, k)->Some_0,
    decreases s.len(),
{
    if s.last().0 == k {
        assert(s[s.len() - 1].0 == k);
    } else {
        lemma_entries_get_present(s.drop_last(), k);
        let i = choose|i: int|
            0 <= i < s.drop_last().len() && (#[trigger] s.drop_last()[i]).0 == k
                && s.drop_last()[i].1 == entries_get(s.drop_last(), k)->Some_0;
        assert(s[i].0 == k && s[i].1 == entries_get(s, k)->Some_0);
    }
}

/// Lookup after appending a fresh pair.
pub proof fn lemma_entries_get_push<K, V>(s: Seq<(K, V)>, k: K, v: V, q: K)
    ensures
        entries_get(s.push((k, v)), q) == (if q == k {
            Some(v)
        } else {
            entries_get(s, q)
        }),
{
    assert(s.push((k, v)).drop_last() =~= s);
}

/// Lookup after replacing the value at the (unique) position of `k`.
pub proof fn lemma_entries_get_update<K, V>(s: Seq<(K, V)>, i: int, k: K, v: V, q: K)
    requires
        distinct_keys(s),
        0 <= i < s.len(),
        s[i].0 == k,
    ensures
        entries_get(s.update(i, (k, v)), q) == (if q == k {
            Some(v)
        } else {
            entries_get(s, q)
        }),
    decreases s.len(),
{
    let t = s.update(i, (k, v));
    if i == s.len() - 1 {
        assert(t.drop_last() =~= s.drop_last());
        if q != k {
            assert(entries_get(t, q) == entries_get(s.drop_last(), q));
        }
    } else {
        assert(t.drop_last() =~= s.drop_last().update(i, (k, v)));
        assert(distinct_keys(s.drop_last()));
        lemma_entries_get_update(s.drop_last(), i, k, v, q);
        assert(t.last() == s.last());
        assert(s.last().0 != k);
    }
}

/// Lookup after a [`spec_insert`].
pub proof fn lemma_spec_insert_get<K, V>(s: Seq<(K, V)>, k: K, v: V, q: K)
    requires
        distinct_keys(s),
    ensures
        entries_get(spec_insert(s, k, v), q) == (if q == k {
            Some(v)
        } else {
            entries_get(s, q)
        }),
{
    if exists|i: int| 0 <= i < s.len() && (#[trigger] s[i]).0 == k {
        let i = choose|i: int| 0 <= i < s.len() && (#[trigger] s[i]).0 == k;
        lemma_entries_get_update(s, i, k, v, q);
    } else {
        lemma_entries_get_push(s, k, v, q);
    }
}

/// A [`spec_insert`] keeps keys pairwise distinct.
pub proof fn lemma_spec_insert_distinct<K, V>(s: Seq<(K, V)>, k: K, v: V)
    requires
        distinct_keys(s),
    ensures
        distinct_keys(spec_insert(s, k, v)),
{
    let t = spec_insert(s, k, v);
    if exists|i: int| 0 <= i < s.len() && (#[trigger] s[i]).0 == k {
        let i = choose|i: int| 0 <= i < s.len() && (#[trigger] s[i]).0 == k;
        assert forall|p: int, q: int| 0 <= p < q < t.len() implies (#[trigger] t[p]).0 != (
        #[trigger] t[q]).0 by {
            assert(t[p].0 == s[p].0 && t[q].0 == s[q].0);
        }
    } else {
        assert forall|p: int, q: int| 0 <= p < q < t.len() implies (#[trigger] t[p]).0 != (
        #[trigger] t[q]).0 by {
            if q == s.len() as int {
                assert(t[p] == s[p]);
                if t[p].0 == k {
                    assert(0 <= p < s.len() && s[p].0 == k);
                }
            } else {
                assert(t[p] == s[p] && t[q] == s[q]);
            }
        }
    }
}

/// An insertion-ordered map from `K` to `V`, the mapping type used for
/// every cache and every emitted diff of this crate.
#[derive(Debug)]
pub struct OrderedMap<K, V> {
    entries: Vec<(K, V)>,
}

impl<K, V> View for OrderedMap<K, V> {
    type V = Seq<(K, V)>;

    closed spec fn view(&self) -> Seq<(K, V)> {
        self.entries@
    }
}

impl<K: EqValue + Copy, V> OrderedMap<K, V> {
    /// Well-formedness: the keys are pairwise distinct.
    pub open spec fn wf(self) -> bool {
        distinct_keys(self@)
    }

    pub fn new() -> (r: Self)
        ensures
            r@ == Seq::<(K, V)>::empty(),
            r.wf(),
    {
        let r = OrderedMap { entries: Vec::new() };
        proof {
            assert(r@ =~= Seq::<(K, V)>::empty());
        }
        r
    }

    pub fn len(&self) -> (r: usize)
        ensures
            r == self@.len(),
    {
        self.entries.len()
    }

    /// The position of `k`, if present: the unique one under [`Self::wf`].
    fn index_of(&self, k: &K) -> (r: Option<usize>)
        ensures
            (match r {
                Some(i) => i < self@.len() && self@[i as int].0 == *k,
                None => forall|i: int| 0 <= i < self@.len() ==> (#[trigger] self@[i]).0 != *k,
            }),
    {
        let n = self.entries.len();
        let mut i: usize = 0;
        while i < n
            invariant
                i <= n,
                n == self@.len(),
                self@ == self.entries@,
                forall|j: int| 0 <= j < i ==> (#[trigger] self@[j]).0 != *k,
            decreases n - i,
        {
            if self.entries[i].0.eq_value(k) {
                return Some(i);
            }
            i += 1;
        }
        None
    }

    pub fn contains_key(&self, k: &K) -> (r: bool)
        requires
            self.wf(),
        ensures
            r <==> entries_contain(self@, *k),
    {
        match self.index_of(k) {
            Some(i) => {
                proof {
                    lemma_entries_get_index(self@, *k, i as int);
                }
                true
            },
            None => {
                proof {
                    lemma_entries_get_absent(self@, *k);
                }
                false
            },
        }
    }

    /// The value bound to `k`, if any.
    pub fn get(&self, k: &K) -> (r: Option<&V>)
        requires
            self.wf(),
        ensures
            (match r {
                Some(v) => entries_get(self@, *k) == Some(*v),
                None => entries_get(self@, *k) is None,
            }),
    {
        match self.index_of(k) {
            Some(i) => {
                proof {
                    lemma_entries_get_index(self@, *k, i as int);
                }
                Some(&self.entries[i].1)
            },
            None => {
                proof {
                    lemma_entries_get_absent(self@, *k);
                }
                None
            },
        }
    }

    /// Binds `k` to `v`: replaces the value in place if `k` is present
    /// (keeping the position of its first insertion), else appends.
    pub fn insert(&mut self, k: K, v: V)
        requires
            old(self).wf(),
        ensures
            final(self).wf(),
            final(self)@ == spec_insert(old(self)@, k, v),
    {
        proof {
            lemma_spec_insert_distinct(old(self)@, k, v);
        }
        match self.index_of(&k) {
            Some(i) => {
                let slot = &mut self.entries[i];
                *slot = (k, v);
                proof {
                    let s = old(self)@;
                    assert(exists|j: int| 0 <= j < s.len() && (#[trigger] s[j]).0 == k);
                    let j = choose|j: int| 0 <= j < s.len() && (#[trigger] s[j]).0 == k;
                    assert(j == i as int);
                    assert(self@ == s.update(i as int, (k, v)));
                }
            },
            None => {
                self.entries.push((k, v));
                proof {
                    let s = old(self)@;
                    assert(!exists|j: int| 0 <= j < s.len() && (#[trigger] s[j]).0 == k);
                }
            },
        }
    }

    /// The entry at position `i` in insertion order.
    pub fn entry_at(&self, i: usize) -> (r: &(K, V))
        requires
            i < self@.len(),
        ensures
            *r == self@[i as int],
    {
        &self.entries[i]
    }

    /// Consumes the map into its entry vector, in insertion order.
    pub fn into_entries(self) -> (r: Vec<(K, V)>)
        ensures
            r@ == self@,
    {
        self.entries
    }
}

/// A key the lookup misses sits at no position, so a [`spec_insert`]
/// for it appends.
pub proof fn lemma_absent_key_has_no_index<K, V>(s: Seq<(K, V)>, k: K, v: V)
    requires
        distinct_keys(s),
        entries_get(s, k) is None,
    ensures
        forall|i: int| 0 <= i < s.len() ==> (#[trigger] s[i]).0 != k,
        spec_insert(s, k, v) == s.push((k, v)),
{
    assert forall|i: int| 0 <= i < s.len() implies (#[trigger] s[i]).0 != k by {
        if s[i].0 == k {
            lemma_entries_get_index(s, k, i);
        }
    }
}

} // verus!
