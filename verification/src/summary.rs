//! Execution summaries: the commutative-monoid aggregate over call
//! trees used for metering, and the L1-message cost helper.

use vstd::prelude::*;
use crate::call_info::frames_payload_lengths;
use crate::call_info::tree_frames;
use crate::call_info::CallInfo;
use crate::core_types::ClassHash;
use crate::core_types::StorageEntry;

verus! {

/// Transaction-wide aggregate of a call tree (or several): the set of
/// executed class hashes, the set of visited storage entries (each
/// qualified by its frame's address), the ordered L2-to-L1 payload
/// lengths, and the total event count.
///
/// The class and entry collections are sets: their vectors may hold
/// repeats, and every contract is on their set of values (`to_set`).
#[derive(Debug, PartialEq, Eq)]
pub struct ExecutionSummary {
    pub executed_class_hashes: Vec<ClassHash>,
    pub visited_storage_entries: Vec<StorageEntry>,
    pub l2_to_l1_payload_lengths: Vec<usize>,
    pub n_events: usize,
}

impl ExecutionSummary {
    /// The set of executed class hashes.
    pub open spec fn classes(self) -> Set<ClassHash> {
        self.executed_class_hashes@.to_set()
    }

    /// The set of visited storage entries.
    pub open spec fn entries(self) -> Set<StorageEntry> {
        self.visited_storage_entries@.to_set()
    }

    /// The ordered payload-length sequence.
    pub open spec fn payloads(self) -> Seq<usize> {
        self.l2_to_l1_payload_lengths@
    }

    /// The total event count.
    pub open spec fn events(self) -> int {
        self.n_events as int
    }

    /// Whether this summary is the monoid identity: all empty.
    pub open spec fn is_identity(self) -> bool {
        &&& self.classes() == Set::<ClassHash>::empty()
        &&& self.entries() == Set::<StorageEntry>::empty()
        &&& self.payloads() == Seq::<usize>::empty()
        &&& self.events() == 0
    }

    /// Whether this summary is the merge of `a` and `b`: set union for
    /// the class and entry fields, concatenation (in merge order) for
    /// the payload lengths, integer sum for the event count.
    pub open spec fn is_merge_of(self, a: Self, b: Self) -> bool {
        &&& self.classes() == a.classes().union(b.classes())
        &&& self.entries() == a.entries().union(b.entries())
        &&& self.payloads() == a.payloads() + b.payloads()
        &&& self.events() == a.events() + b.events()
    }

    /// Merges another summary into this one.
    pub fn merge(self, other: ExecutionSummary) -> (r: ExecutionSummary)
        requires
            self.n_events + other.n_events <= usize::MAX,
        ensures
            r.is_merge_of(self, other),
    {
        let ExecutionSummary {
            mut executed_class_hashes,
            mut visited_storage_entries,
            mut l2_to_l1_payload_lengths,
            n_events,
        } = self;
        let ExecutionSummary {
            executed_class_hashes: mut other_classes,
            visited_storage_entries: mut other_entries,
            l2_to_l1_payload_lengths: mut other_lengths,
            n_events: other_n_events,
        } = other;
        executed_class_hashes.append(&mut other_classes);
        visited_storage_entries.append(&mut other_entries);
        l2_to_l1_payload_lengths.append(&mut other_lengths);
        proof {
            lemma_to_set_concat(
                self.executed_class_hashes@,
                other.executed_class_hashes@,
            );
            lemma_to_set_concat(
                self.visited_storage_entries@,
                other.visited_storage_entries@,
            );
        }
        ExecutionSummary {
            executed_class_hashes,
            visited_storage_entries,
            l2_to_l1_payload_lengths,
            n_events: n_events + other_n_events,
        }
    }

    /// Folds a batch of summaries into one, merging left to right from
    /// the empty summary.
    pub fn sum(summaries: Vec<ExecutionSummary>) -> (r: ExecutionSummary)
        requires
            summaries_events(summaries@) <= usize::MAX,
        ensures
            r.classes() == summaries_classes(summaries@),
            r.entries() == summaries_entries(summaries@),
            r.payloads() == summaries_payloads(summaries@),
            r.events() == summaries_events(summaries@),
    {
        let ghost orig = summaries@;
        let mut rest = summaries;
        let mut acc = ExecutionSummary::default();
        let ghost mut k: int = 0;
        proof {
            assert(orig.take(0) =~= Seq::<ExecutionSummary>::empty());
            assert(orig.skip(0) =~= orig);
        }
        while rest.len() > 0
            invariant
                0 <= k <= orig.len(),
                rest@ == orig.skip(k),
                summaries_events(orig) <= usize::MAX,
                acc.classes() == summaries_classes(orig.take(k)),
                acc.entries() == summaries_entries(orig.take(k)),
                acc.payloads() == summaries_payloads(orig.take(k)),
                acc.events() == summaries_events(orig.take(k)),
            decreases rest@.len(),
        {
            let s = rest.remove(0);
            proof {
                assert(s == orig[k]);
                assert(rest@ =~= orig.skip(k + 1));
                assert(orig =~= orig.take(k) + orig.skip(k));
                lemma_summaries_events_split(orig.take(k), orig.skip(k));
                assert(orig.skip(k) =~= seq![orig[k]] + orig.skip(k + 1));
                lemma_summaries_events_split(seq![orig[k]], orig.skip(k + 1));
                assert(seq![orig[k]].drop_last() =~= Seq::<ExecutionSummary>::empty());
                assert(summaries_events(seq![orig[k]].drop_last()) == 0);
                assert(summaries_events(seq![orig[k]]) == orig[k].events());
                lemma_summaries_events_nonnegative(orig.skip(k + 1));
                lemma_summaries_events_nonnegative(orig.take(k));
                assert(acc.n_events + s.n_events <= usize::MAX);
            }
            acc = acc.merge(s);
            proof {
                k = k + 1;
                assert(orig.take(k).drop_last() =~= orig.take(k - 1));
                assert(orig.take(k).last() == orig[k - 1]);
            }
        }
        proof {
            assert(orig.take(k) =~= orig);
        }
        acc
    }
}

impl Default for ExecutionSummary {
    /// The monoid identity: the all-empty summary.
    fn default() -> (r: ExecutionSummary)
        ensures
            r.is_identity(),
            r.n_events == 0,
    {
        let r = ExecutionSummary {
            executed_class_hashes: Vec::new(),
            visited_storage_entries: Vec::new(),
            l2_to_l1_payload_lengths: Vec::new(),
            n_events: 0,
        };
        proof {
            assert(r.classes() =~= Set::<ClassHash>::empty());
            assert(r.entries() =~= Set::<StorageEntry>::empty());
            assert(r.payloads() =~= Seq::<usize>::empty());
        }
        r
    }
}

/// The set of values of a concatenation is the union of the two sets.
pub proof fn lemma_to_set_concat<A>(a: Seq<A>, b: Seq<A>)
    ensures
        (a + b).to_set() == a.to_set().union(b.to_set()),
{
    let t = a + b;
    assert forall|y: A| t.to_set().contains(y) implies a.to_set().union(b.to_set()).contains(
        y,
    ) by {
        let i = choose|i: int| 0 <= i < t.len() && t[i] == y;
        if i < a.len() {
            assert(a[i] == y);
        } else {
            assert(b[i - a.len()] == y);
        }
    }
    assert forall|y: A| a.to_set().union(b.to_set()).contains(y) implies t.to_set().contains(
        y,
    ) by {
        if a.to_set().contains(y) {
            let i = choose|i: int| 0 <= i < a.len() && a[i] == y;
            assert(t[i] == y);
        } else {
            let i = choose|i: int| 0 <= i < b.len() && b[i] == y;
            assert(t[a.len() + i] == y);
        }
    }
    assert(t.to_set() =~= a.to_set().union(b.to_set()));
}

/// The folded class set of a batch of summaries.
pub open spec fn summaries_classes(s: Seq<ExecutionSummary>) -> Set<ClassHash>
    decreases s.len(),
{
    if s.len() == 0 {
        Set::empty()
    } else {
        summaries_classes(s.drop_last()).union(s.last().classes())
    }
}

/// The folded entry set of a batch of summaries.
pub open spec fn summaries_entries(s: Seq<ExecutionSummary>) -> Set<StorageEntry>
    decreases s.len(),
{
    if s.len() == 0 {
        Set::empty()
    } else {
        summaries_entries(s.drop_last()).union(s.last().entries())
    }
}

/// The concatenated payload lengths of a batch of summaries.
pub open spec fn summaries_payloads(s: Seq<ExecutionSummary>) -> Seq<usize>
    decreases s.len(),
{
    if s.len() == 0 {
        Seq::empty()
    } else {
        summaries_payloads(s.drop_last()) + s.last().payloads()
    }
}

/// The total event count of a batch of summaries.
pub open spec fn summaries_events(s: Seq<ExecutionSummary>) -> int
    decreases s.len(),
{
    if s.len() == 0 {
        0
    } else {
        summaries_events(s.drop_last()) + s.last().events()
    }
}

/// Batch event counts add over concatenation.
pub proof fn lemma_summaries_events_split(a: Seq<ExecutionSummary>, b: Seq<ExecutionSummary>)
    ensures
        summaries_events(a + b) == summaries_events(a) + summaries_events(b),
    decreases b.len(),
{
    if b.len() == 0 {
        assert(a + b =~= a);
    } else {
        assert((a + b).drop_last() =~= a + b.drop_last());
        assert((a + b).last() == b.last());
        lemma_summaries_events_split(a, b.drop_last());
    }
}

/// Batch event counts are never negative.
pub proof fn lemma_summaries_events_nonnegative(s: Seq<ExecutionSummary>)
    ensures
        summaries_events(s) >= 0,
    decreases s.len(),
{
    if s.len() > 0 {
        lemma_summaries_events_nonnegative(s.drop_last());
    }
}

/// Merging with the empty summary on the right changes nothing.
pub proof fn lemma_merge_empty_right(a: ExecutionSummary, e: ExecutionSummary, r: ExecutionSummary)
    requires
        e.is_identity(),
        r.is_merge_of(a, e),
    ensures
        r.classes() == a.classes(),
        r.entries() == a.entries(),
        r.payloads() == a.payloads(),
        r.events() == a.events(),
{
    assert(a.classes().union(e.classes()) =~= a.classes());
    assert(a.entries().union(e.entries()) =~= a.entries());
    assert(a.payloads() + e.payloads() =~= a.payloads());
}

/// Merging with the empty summary on the left changes nothing.
pub proof fn lemma_merge_empty_left(a: ExecutionSummary, e: ExecutionSummary, r: ExecutionSummary)
    requires
        e.is_identity(),
        r.is_merge_of(e, a),
    ensures
        r.classes() == a.classes(),
        r.entries() == a.entries(),
        r.payloads() == a.payloads(),
        r.events() == a.events(),
{
    assert(e.classes().union(a.classes()) =~= a.classes());
    assert(e.entries().union(a.entries()) =~= a.entries());
    assert(e.payloads() + a.payloads() =~= a.payloads());
}

/// Merging is associative: merging `a` with `b` and then `c` aggregates
/// to the same summary as merging `a` with the merge of `b` and `c`,
/// in every field including the payload-length order.
pub proof fn lemma_merge_associative(
    a: ExecutionSummary,
    b: ExecutionSummary,
    c: ExecutionSummary,
    ab: ExecutionSummary,
    ab_c: ExecutionSummary,
    bc: ExecutionSummary,
    a_bc: ExecutionSummary,
)
    requires
        ab.is_merge_of(a, b),
        ab_c.is_merge_of(ab, c),
        bc.is_merge_of(b, c),
        a_bc.is_merge_of(a, bc),
    ensures
        ab_c.classes() == a_bc.classes(),
        ab_c.entries() == a_bc.entries(),
        ab_c.payloads() == a_bc.payloads(),
        ab_c.events() == a_bc.events(),
{
    assert(ab_c.classes() =~= a_bc.classes());
    assert(ab_c.entries() =~= a_bc.entries());
    assert(ab_c.payloads() =~= a_bc.payloads());
}

/// Merging is commutative for the set and count fields (the
/// payload-length sequence instead follows merge order).
pub proof fn lemma_merge_commutative_sets(
    a: ExecutionSummary,
    b: ExecutionSummary,
    ab: ExecutionSummary,
    ba: ExecutionSummary,
)
    requires
        ab.is_merge_of(a, b),
        ba.is_merge_of(b, a),
    ensures
        ab.classes() == ba.classes(),
        ab.entries() == ba.entries(),
        ab.events() == ba.events(),
{
    assert(ab.classes() =~= ba.classes());
    assert(ab.entries() =~= ba.entries());
}

/// Fixed per-message header size of an L2-to-L1 message segment.
pub const L2_TO_L1_MSG_HEADER_SIZE: usize = 3;

/// Fixed header size of an L1-to-L2 (L1 handler) message segment.
pub const L1_TO_L2_MSG_HEADER_SIZE: usize = 5;

/// The headered sum of the first `n` payload lengths.
pub open spec fn headered_lengths_sum(lengths: Seq<usize>, n: int) -> int
    decreases n,
{
    if n <= 0 {
        0
    } else {
        headered_lengths_sum(lengths, n - 1) + lengths[n - 1] + L2_TO_L1_MSG_HEADER_SIZE
    }
}

/// The message-segment-length metric: each payload length plus its
/// per-message header, plus the L1 handler's headered payload if one
/// is given.
pub open spec fn message_segment_length_spec(
    lengths: Seq<usize>,
    l1_handler_payload_size: Option<usize>,
) -> int {
    headered_lengths_sum(lengths, lengths.len() as int) + (match l1_handler_payload_size {
        Some(size) => L1_TO_L2_MSG_HEADER_SIZE + size,
        None => 0,
    })
}

/// Headered sums grow with the prefix length.
pub proof fn lemma_headered_sum_monotonic(lengths: Seq<usize>, i: int)
    requires
        0 <= i <= lengths.len(),
    ensures
        headered_lengths_sum(lengths, i) <= headered_lengths_sum(
            lengths,
            lengths.len() as int,
        ),
    decreases lengths.len() - i,
{
    if i < lengths.len() {
        lemma_headered_sum_monotonic(lengths, i + 1);
    }
}

/// Derives the message-segment-length metric from aggregated payload
/// lengths, with an optional extra payload of a top-level L1-triggered
/// entry point.
pub fn get_message_segment_length(
    l2_to_l1_payload_lengths: &Vec<usize>,
    l1_handler_payload_size: Option<usize>,
) -> (r: usize)
    requires
        message_segment_length_spec(l2_to_l1_payload_lengths@, l1_handler_payload_size)
            <= usize::MAX,
    ensures
        r == message_segment_length_spec(l2_to_l1_payload_lengths@, l1_handler_payload_size),
{
    let n = l2_to_l1_payload_lengths.len();
    let mut total: usize = 0;
    let mut i: usize = 0;
    while i < n
        invariant
            i <= n,
            n == l2_to_l1_payload_lengths@.len(),
            total == headered_lengths_sum(l2_to_l1_payload_lengths@, i as int),
            message_segment_length_spec(l2_to_l1_payload_lengths@, l1_handler_payload_size)
                <= usize::MAX,
        decreases n - i,
    {
        proof {
            lemma_headered_sum_monotonic(l2_to_l1_payload_lengths@, i + 1);
        }
        total = total + l2_to_l1_payload_lengths[i] + L2_TO_L1_MSG_HEADER_SIZE;
        i += 1;
    }
    match l1_handler_payload_size {
        Some(size) => total + L1_TO_L2_MSG_HEADER_SIZE + size,
        None => total,
    }
}

/// The concatenated per-tree payload lengths of a batch of call trees.
pub open spec fn trees_payload_lengths(trees: Seq<CallInfo>) -> Seq<usize>
    decreases trees.len(),
{
    if trees.len() == 0 {
        Seq::empty()
    } else {
        trees_payload_lengths(trees.drop_last()) + frames_payload_lengths(
            tree_frames(trees.last()),
        )
    }
}

/// The L1-messaging cost input of a batch of call trees: the fully
/// expanded ordered payload-length sequence, and the derived
/// message-segment-length metric.
#[derive(Debug, PartialEq, Eq)]
pub struct MessageL1CostInfo {
    pub l2_to_l1_payload_lengths: Vec<usize>,
    pub message_segment_length: usize,
}

impl MessageL1CostInfo {
    /// Expands every tree's L2-to-L1 messages, in tree order and
    /// pre-order within a tree, and derives the segment-length metric.
    pub fn calculate(call_infos: &Vec<CallInfo>, l1_handler_payload_size: Option<usize>) -> (r:
        MessageL1CostInfo)
        requires
            message_segment_length_spec(
                trees_payload_lengths(call_infos@),
                l1_handler_payload_size,
            ) <= usize::MAX,
        ensures
            r.l2_to_l1_payload_lengths@ == trees_payload_lengths(call_infos@),
            r.message_segment_length == message_segment_length_spec(
                trees_payload_lengths(call_infos@),
                l1_handler_payload_size,
            ),
    {
        let mut l2_to_l1_payload_lengths: Vec<usize> = Vec::new();
        let n = call_infos.len();
        let mut i: usize = 0;
        proof {
            assert(l2_to_l1_payload_lengths@ =~= trees_payload_lengths(call_infos@.take(0)));
        }
        while i < n
            invariant
                i <= n,
                n == call_infos@.len(),
                l2_to_l1_payload_lengths@ == trees_payload_lengths(call_infos@.take(i as int)),
            decreases n - i,
        {
            let mut tree_lengths = call_infos[i].get_l2_to_l1_payload_lengths();
            l2_to_l1_payload_lengths.append(&mut tree_lengths);
            proof {
                assert(call_infos@.take(i + 1).drop_last() =~= call_infos@.take(i as int));
                assert(call_infos@.take(i + 1).last() == call_infos@[i as int]);
            }
            i += 1;
        }
        proof {
            assert(call_infos@.take(n as int) =~= call_infos@);
        }
        let message_segment_length = get_message_segment_length(
            &l2_to_l1_payload_lengths,
            l1_handler_payload_size,
        );
        MessageL1CostInfo { l2_to_l1_payload_lengths, message_segment_length }
    }
}

} // verus!
