//! The call-frame model: the tree-shaped record of one contract
//! invocation's effects, and its iterative pre-order traversal.
//!
//! A call tree's depth mirrors contract-call recursion depth, which
//! untrusted transaction input can influence, so traversal uses an
//! explicit stack rather than native recursion: the stack cannot
//! exhaust the machine stack no matter how deep the tree is.

use vstd::prelude::*;
use crate::core_types::ClassHash;
use crate::core_types::ContractAddress;
use crate::core_types::EthAddress;
use crate::core_types::Felt;
use crate::core_types::StorageEntry;
use crate::core_types::StorageKey;
use crate::summary::ExecutionSummary;

verus! {

/// Return data of one entry-point invocation.
#[derive(Debug)]
pub struct Retdata(pub Vec<Felt>);

/// Payload of one event emitted by a contract.
#[derive(Debug)]
pub struct EventContent {
    pub keys: Vec<Felt>,
    pub data: Vec<Felt>,
}

/// An event carrying its transaction-global order index, assigned by
/// the interpreter and only preserved here.
#[derive(Debug)]
pub struct OrderedEvent {
    pub order: usize,
    pub event: EventContent,
}

/// Payload of one L2-to-L1 message.
#[derive(Debug)]
pub struct L2ToL1Payload(pub Vec<Felt>);

/// An L2-to-L1 message addressed to an L1 account.
#[derive(Debug)]
pub struct MessageToL1 {
    pub to_address: EthAddress,
    pub payload: L2ToL1Payload,
}

/// An L2-to-L1 message carrying its transaction-global order index.
#[derive(Debug)]
pub struct OrderedL2ToL1Message {
    pub order: usize,
    pub message: MessageToL1,
}

/// The invocation descriptor of one call: the callee class hash (set by
/// the time execution completes) and the invoked contract address.
/// Further descriptor fields are owned by the interpreter and opaque to
/// this crate.
#[derive(Debug)]
pub struct CallEntryPoint {
    pub class_hash: Option<ClassHash>,
    pub storage_address: ContractAddress,
}

/// Resource-usage counters of one call, produced by the interpreter
/// and only carried here.
#[derive(Debug)]
pub struct ExecutionResources {
    pub n_steps: usize,
    pub n_memory_holes: usize,
}

/// The effects of executing a single entry point.
#[derive(Debug)]
pub struct CallExecution {
    pub retdata: Retdata,
    pub events: Vec<OrderedEvent>,
    pub l2_to_l1_messages: Vec<OrderedL2ToL1Message>,
    pub failed: bool,
    pub gas_consumed: u64,
}

/// The full effects of executing an entry point, including the inner
/// calls it invoked: one node of a strictly-owned call tree.
#[derive(Debug)]
pub struct CallInfo {
    pub call: CallEntryPoint,
    pub execution: CallExecution,
    pub resources: ExecutionResources,
    pub inner_calls: Vec<CallInfo>,
    // Additional information gathered during execution.
    pub storage_read_values: Vec<Felt>,
    /// Storage keys accessed by this frame only, not its descendants.
    pub accessed_storage_keys: Vec<StorageKey>,
}

impl Default for Retdata {
    fn default() -> (r: Retdata)
        ensures
            r.0@.len() == 0,
    {
        Retdata(Vec::new())
    }
}

impl Default for EventContent {
    fn default() -> (r: EventContent)
        ensures
            r.keys@.len() == 0,
            r.data@.len() == 0,
    {
        EventContent { keys: Vec::new(), data: Vec::new() }
    }
}

impl Default for OrderedEvent {
    fn default() -> (r: OrderedEvent)
        ensures
            r.order == 0,
            r.event.keys@.len() == 0,
            r.event.data@.len() == 0,
    {
        OrderedEvent { order: 0, event: EventContent::default() }
    }
}

impl Default for CallEntryPoint {
    fn default() -> (r: CallEntryPoint)
        ensures
            r.class_hash is None,
            r.storage_address == ContractAddress::zero_spec(),
    {
        CallEntryPoint { class_hash: None, storage_address: ContractAddress::default() }
    }
}

impl Default for ExecutionResources {
    fn default() -> (r: ExecutionResources)
        ensures
            r.n_steps == 0,
            r.n_memory_holes == 0,
    {
        ExecutionResources { n_steps: 0, n_memory_holes: 0 }
    }
}

impl Default for CallExecution {
    fn default() -> (r: CallExecution)
        ensures
            r.retdata.0@.len() == 0,
            r.events@.len() == 0,
            r.l2_to_l1_messages@.len() == 0,
            !r.failed,
            r.gas_consumed == 0,
    {
        CallExecution {
            retdata: Retdata::default(),
            events: Vec::new(),
            l2_to_l1_messages: Vec::new(),
            failed: false,
            gas_consumed: 0,
        }
    }
}

impl Default for CallInfo {
    fn default() -> (r: CallInfo)
        ensures
            r.call.class_hash is None,
            r.call.storage_address == ContractAddress::zero_spec(),
            r.execution.events@.len() == 0,
            r.execution.l2_to_l1_messages@.len() == 0,
            r.inner_calls@.len() == 0,
            r.storage_read_values@.len() == 0,
            r.accessed_storage_keys@.len() == 0,
    {
        CallInfo {
            call: CallEntryPoint::default(),
            execution: CallExecution::default(),
            resources: ExecutionResources::default(),
            inner_calls: Vec::new(),
            storage_read_values: Vec::new(),
            accessed_storage_keys: Vec::new(),
        }
    }
}

/// The payload length of each message, in message order.
pub open spec fn payload_lengths_of(messages: Seq<OrderedL2ToL1Message>) -> Seq<usize> {
    messages.map_values(|m: OrderedL2ToL1Message| m.message.payload.0@.len() as usize)
}

/// Collects the payload length of each message, in message order.
pub fn get_payload_lengths(l2_to_l1_messages: &Vec<OrderedL2ToL1Message>) -> (r: Vec<usize>)
    ensures
        r@ == payload_lengths_of(l2_to_l1_messages@),
{
    let mut lengths: Vec<usize> = Vec::new();
    let n = l2_to_l1_messages.len();
    let mut i: usize = 0;
    proof {
        assert(lengths@ =~= payload_lengths_of(l2_to_l1_messages@.take(0)));
    }
    while i < n
        invariant
            i <= n,
            n == l2_to_l1_messages@.len(),
            lengths@ == payload_lengths_of(l2_to_l1_messages@.take(i as int)),
        decreases n - i,
    {
        lengths.push(l2_to_l1_messages[i].message.payload.0.len());
        proof {
            assert(lengths@ =~= payload_lengths_of(l2_to_l1_messages@.take(i + 1)));
        }
        i += 1;
    }
    proof {
        assert(l2_to_l1_messages@.take(n as int) =~= l2_to_l1_messages@);
    }
    lengths
}

/// The pre-order, depth-first sequence of frames of the tree rooted at
/// `root`: the root first, then each child's whole subtree, children
/// left to right.
pub open spec fn tree_frames(root: CallInfo) -> Seq<CallInfo>
    decreases root,
{
    seq![root] + forest_frames(root.inner_calls@, 0)
}

/// The concatenated pre-order frame sequences of the trees
/// `forest[j..]`.
pub open spec fn forest_frames(forest: Seq<CallInfo>, j: int) -> Seq<CallInfo>
    decreases forest, forest.len() - j,
{
    if j < 0 || j >= forest.len() {
        Seq::empty()
    } else {
        tree_frames(forest[j]) + forest_frames(forest, j + 1)
    }
}

/// The payload lengths of one frame's own messages.
pub open spec fn frame_payload_lengths(frame: CallInfo) -> Seq<usize> {
    payload_lengths_of(frame.execution.l2_to_l1_messages@)
}

/// The payload lengths of the frames' own messages, concatenated in
/// frame order.
pub open spec fn frames_payload_lengths(frames: Seq<CallInfo>) -> Seq<usize>
    decreases frames.len(),
{
    if frames.len() == 0 {
        Seq::empty()
    } else {
        frames_payload_lengths(frames.drop_last()) + frame_payload_lengths(frames.last())
    }
}

/// The total number of events the frames emitted themselves.
pub open spec fn frames_event_count(frames: Seq<CallInfo>) -> int
    decreases frames.len(),
{
    if frames.len() == 0 {
        0
    } else {
        frames_event_count(frames.drop_last()) + frames.last().execution.events@.len()
    }
}

/// Whether every frame has its class hash assigned, a precondition of
/// summarization: the interpreter assigns it by the time execution
/// completes, and a hole here is an internal-consistency defect, not a
/// reportable error.
pub open spec fn frames_classes_assigned(frames: Seq<CallInfo>) -> bool {
    forall|i: int| 0 <= i < frames.len() ==> (#[trigger] frames[i]).call.class_hash is Some
}

/// The set of class hashes the frames executed.
pub open spec fn frames_classes(frames: Seq<CallInfo>) -> Set<ClassHash>
    decreases frames.len(),
{
    if frames.len() == 0 {
        Set::empty()
    } else {
        frames_classes(frames.drop_last()).insert(frames.last().call.class_hash->Some_0)
    }
}

/// The storage entries one frame itself visited: its own accessed keys,
/// each qualified by the frame's contract address.
pub open spec fn frame_entries_prefix(frame: CallInfo, t: int) -> Set<StorageEntry>
    decreases t,
{
    if t <= 0 {
        Set::empty()
    } else {
        frame_entries_prefix(frame, t - 1).insert(
            (frame.call.storage_address, frame.accessed_storage_keys@[t - 1]),
        )
    }
}

/// All storage entries one frame itself visited.
pub open spec fn frame_entries(frame: CallInfo) -> Set<StorageEntry> {
    frame_entries_prefix(frame, frame.accessed_storage_keys@.len() as int)
}

/// The union of the storage entries the frames themselves visited.
pub open spec fn frames_entries(frames: Seq<CallInfo>) -> Set<StorageEntry>
    decreases frames.len(),
{
    if frames.len() == 0 {
        Set::empty()
    } else {
        frames_entries(frames.drop_last()).union(frame_entries(frames.last()))
    }
}

/// The frames still to be yielded by a traversal stack: each stacked
/// subtree in pop order (topmost first).
pub open spec fn stack_frames(stack: Seq<&CallInfo>) -> Seq<CallInfo>
    decreases stack.len(),
{
    if stack.len() == 0 {
        Seq::empty()
    } else {
        tree_frames(*stack.last()) + stack_frames(stack.drop_last())
    }
}

/// An independent, restartable pre-order depth-first traversal over a
/// call tree, driven by an explicit stack.
pub struct CallInfoIter<'a> {
    call_infos: Vec<&'a CallInfo>,
}

impl<'a> CallInfoIter<'a> {
    /// The frames this traversal will still yield, in order.
    pub closed spec fn remaining(self) -> Seq<CallInfo> {
        stack_frames(self.call_infos@)
    }

    /// Yields the next frame in pre-order: pops the top frame and
    /// pushes its children right to left, so the next pops visit them
    /// left to right.
    pub fn next(&mut self) -> (r: Option<&'a CallInfo>)
        ensures
            old(self).remaining().len() == 0 ==> r is None && final(self).remaining() == old(
                self,
            ).remaining(),
            old(self).remaining().len() > 0 ==> (match r {
                Some(frame) => *frame == old(self).remaining()[0] && final(self).remaining() == old(
                    self,
                ).remaining().drop_first(),
                None => false,
            }),
    {
        if self.call_infos.len() == 0 {
            return None;
        }
        let top = match self.call_infos.pop() {
            Some(t) => t,
            None => { return None },
        };
        let ghost rest = self.call_infos@;
        let ghost children = top.inner_calls@;
        proof {
            assert(old(self).call_infos@.drop_last() =~= rest);
            assert(old(self).remaining() == tree_frames(*top) + stack_frames(rest));
        }
        let n = top.inner_calls.len();
        let mut j: usize = n;
        proof {
            assert(forest_frames(children, n as int) + stack_frames(rest) =~= stack_frames(
                self.call_infos@,
            ));
        }
        while j > 0
            invariant
                j <= n,
                n == children.len(),
                children == top.inner_calls@,
                stack_frames(self.call_infos@) == forest_frames(children, j as int) + stack_frames(
                    rest,
                ),
            decreases j,
        {
            j -= 1;
            let ghost stack_before = self.call_infos@;
            self.call_infos.push(&top.inner_calls[j]);
            proof {
                assert(self.call_infos@.drop_last() =~= stack_before);
                assert(*self.call_infos@.last() == children[j as int]);
                assert(stack_frames(self.call_infos@) == tree_frames(children[j as int])
                    + stack_frames(stack_before));
                assert(tree_frames(children[j as int]) + (forest_frames(children, j + 1)
                    + stack_frames(rest)) =~= (tree_frames(children[j as int]) + forest_frames(
                    children,
                    j + 1,
                )) + stack_frames(rest));
                assert(forest_frames(children, j as int) == tree_frames(children[j as int])
                    + forest_frames(children, j + 1));
            }
        }
        proof {
            assert(tree_frames(*top) == seq![*top] + forest_frames(children, 0));
            assert((seq![*top] + forest_frames(children, 0)) + stack_frames(rest) =~= seq![*top] + (
            forest_frames(children, 0) + stack_frames(rest)));
            assert(old(self).remaining()[0] == *top);
            assert(old(self).remaining().drop_first() =~= forest_frames(children, 0)
                + stack_frames(rest));
        }
        Some(top)
    }
}

impl CallInfo {
    /// Starts an independent pre-order depth-first traversal of the
    /// tree rooted at this frame.
    pub fn iter(&self) -> (r: CallInfoIter<'_>)
        ensures
            r.remaining() == tree_frames(*self),
    {
        let mut call_infos: Vec<&CallInfo> = Vec::new();
        call_infos.push(self);
        proof {
            assert(call_infos@.len() == 1);
            assert(call_infos@.drop_last() =~= Seq::<&CallInfo>::empty());
            assert(stack_frames(call_infos@.drop_last()) =~= Seq::<CallInfo>::empty());
            assert(*call_infos@.last() == *self);
            assert(stack_frames(call_infos@) =~= tree_frames(*self));
        }
        CallInfoIter { call_infos }
    }

    /// Collects the payload lengths of every L2-to-L1 message in the
    /// tree, in pre-order frame order, message order within a frame.
    pub fn get_l2_to_l1_payload_lengths(&self) -> (r: Vec<usize>)
        ensures
            r@ == frames_payload_lengths(tree_frames(*self)),
    {
        let mut acc: Vec<usize> = Vec::new();
        let mut it = self.iter();
        let ghost mut processed: Seq<CallInfo> = Seq::empty();
        let mut done = false;
        proof {
            assert(processed + it.remaining() =~= tree_frames(*self));
            assert(acc@ =~= frames_payload_lengths(processed));
        }
        while !done
            invariant
                processed + it.remaining() == tree_frames(*self),
                acc@ == frames_payload_lengths(processed),
                done ==> it.remaining().len() == 0,
            decreases it.remaining().len() + (if done { 0int } else { 1int }),
        {
            let ghost rem = it.remaining();
            match it.next() {
                None => {
                    done = true;
                },
                Some(frame) => {
                    let mut lengths = get_payload_lengths(&frame.execution.l2_to_l1_messages);
                    acc.append(&mut lengths);
                    proof {
                        let prev = processed;
                        processed = processed.push(*frame);
                        assert(processed.drop_last() =~= prev);
                        assert(processed.last() == *frame);
                        assert(frames_payload_lengths(processed) == frames_payload_lengths(prev)
                            + frame_payload_lengths(*frame));
                        assert(processed + it.remaining() =~= tree_frames(*self));
                        assert(acc@ =~= frames_payload_lengths(processed));
                    }
                },
            }
        }
        proof {
            assert(processed =~= tree_frames(*self));
        }
        acc
    }

    /// Aggregates the whole tree into an [`ExecutionSummary`] in one
    /// depth-first pass: every frame's class hash into the executed
    /// set, its own accessed keys (qualified by its address) into the
    /// visited set, its own event count into the total, and its message
    /// payload lengths appended in visit order.
    pub fn summarize(&self) -> (r: ExecutionSummary)
        requires
            frames_classes_assigned(tree_frames(*self)),
            frames_event_count(tree_frames(*self)) <= usize::MAX,
        ensures
            r.executed_class_hashes@.to_set() == frames_classes(tree_frames(*self)),
            r.visited_storage_entries@.to_set() == frames_entries(tree_frames(*self)),
            r.l2_to_l1_payload_lengths@ == frames_payload_lengths(tree_frames(*self)),
            r.n_events == frames_event_count(tree_frames(*self)),
    {
        let mut executed_class_hashes: Vec<ClassHash> = Vec::new();
        let mut visited_storage_entries: Vec<StorageEntry> = Vec::new();
        let mut l2_to_l1_payload_lengths: Vec<usize> = Vec::new();
        let mut n_events: usize = 0;
        let mut it = self.iter();
        let ghost mut processed: Seq<CallInfo> = Seq::empty();
        let mut done = false;
        proof {
            assert(processed + it.remaining() =~= tree_frames(*self));
            assert(executed_class_hashes@.to_set() =~= frames_classes(processed));
            assert(visited_storage_entries@.to_set() =~= frames_entries(processed));
            assert(l2_to_l1_payload_lengths@ =~= frames_payload_lengths(processed));
        }
        while !done
            invariant
                frames_classes_assigned(tree_frames(*self)),
                frames_event_count(tree_frames(*self)) <= usize::MAX,
                processed + it.remaining() == tree_frames(*self),
                executed_class_hashes@.to_set() == frames_classes(processed),
                visited_storage_entries@.to_set() == frames_entries(processed),
                l2_to_l1_payload_lengths@ == frames_payload_lengths(processed),
                n_events == frames_event_count(processed),
                done ==> it.remaining().len() == 0,
            decreases it.remaining().len() + (if done { 0int } else { 1int }),
        {
            let ghost rem = it.remaining();
            match it.next() {
                None => {
                    done = true;
                },
                Some(frame) => {
                    proof {
                        assert(tree_frames(*self)[processed.len() as int] == rem[0]);
                        lemma_event_count_split(processed, rem);
                        assert(rem =~= seq![rem[0]] + rem.drop_first());
                        lemma_event_count_split(seq![rem[0]], rem.drop_first());
                        assert(seq![rem[0]].drop_last() =~= Seq::<CallInfo>::empty());
                        assert(frames_event_count(seq![rem[0]].drop_last()) == 0);
                        assert(frames_event_count(seq![rem[0]]) == rem[0].execution.events@.len());
                        lemma_event_count_nonnegative(rem.drop_first());
                        lemma_event_count_nonnegative(processed);
                        assert(n_events + rem[0].execution.events@.len() <= usize::MAX);
                    }
                    let class_hash = match frame.call.class_hash {
                        Some(h) => h,
                        None => { return ExecutionSummary::default() },
                    };
                    let ghost prev_classes = executed_class_hashes@;
                    executed_class_hashes.push(class_hash);
                    proof {
                        lemma_to_set_push(prev_classes, class_hash);
                    }
                    let keys = &frame.accessed_storage_keys;
                    let nk = keys.len();
                    let mut t: usize = 0;
                    while t < nk
                        invariant
                            t <= nk,
                            nk == frame.accessed_storage_keys@.len(),
                            visited_storage_entries@.to_set() == frames_entries(processed).union(
                                frame_entries_prefix(*frame, t as int),
                            ),
                        decreases nk - t,
                    {
                        let entry = (frame.call.storage_address, frame.accessed_storage_keys[t]);
                        let ghost prev_visited = visited_storage_entries@;
                        visited_storage_entries.push(entry);
                        proof {
                            lemma_to_set_push(prev_visited, entry);
                            assert(prev_visited.to_set().insert(entry) =~= frames_entries(
                                processed,
                            ).union(frame_entries_prefix(*frame, t + 1)));
                        }
                        t += 1;
                    }
                    let mut lengths = get_payload_lengths(&frame.execution.l2_to_l1_messages);
                    l2_to_l1_payload_lengths.append(&mut lengths);
                    n_events = n_events + frame.execution.events.len();
                    proof {
                        let prev = processed;
                        processed = processed.push(*frame);
                        assert(processed.drop_last() =~= prev);
                        assert(processed.last() == *frame);
                        assert(frame_entries_prefix(*frame, nk as int) == frame_entries(*frame));
                        assert(frames_classes(processed) == frames_classes(prev).insert(
                            class_hash,
                        ));
                        assert(frames_entries(processed) == frames_entries(prev).union(
                            frame_entries(*frame),
                        ));
                        assert(frames_payload_lengths(processed) == frames_payload_lengths(prev)
                            + frame_payload_lengths(*frame));
                        assert(frames_event_count(processed) == frames_event_count(prev)
                            + frame.execution.events@.len());
                        assert(processed + it.remaining() =~= tree_frames(*self));
                        assert(executed_class_hashes@.to_set() =~= frames_classes(processed));
                        assert(visited_storage_entries@.to_set() =~= frames_entries(processed));
                        assert(l2_to_l1_payload_lengths@ =~= frames_payload_lengths(processed));
                    }
                },
            }
        }
        proof {
            assert(processed =~= tree_frames(*self));
        }
        ExecutionSummary {
            executed_class_hashes,
            visited_storage_entries,
            l2_to_l1_payload_lengths,
            n_events,
        }
    }
}

/// Appending an element inserts it into the sequence's set of values.
pub proof fn lemma_to_set_push<A>(s: Seq<A>, x: A)
    ensures
        s.push(x).to_set() == s.to_set().insert(x),
{
    let t = s.push(x);
    assert forall|y: A| t.to_set().contains(y) implies s.to_set().insert(x).contains(y) by {
        let i = choose|i: int| 0 <= i < t.len() && t[i] == y;
        if i < s.len() {
            assert(s[i] == y);
        }
    }
    assert forall|y: A| s.to_set().insert(x).contains(y) implies t.to_set().contains(y) by {
        if y == x {
            assert(t[s.len() as int] == y);
        } else {
            let i = choose|i: int| 0 <= i < s.len() && s[i] == y;
            assert(t[i] == y);
        }
    }
    assert(t.to_set() =~= s.to_set().insert(x));
}

/// Event counts add over concatenation.
pub proof fn lemma_event_count_split(a: Seq<CallInfo>, b: Seq<CallInfo>)
    ensures
        frames_event_count(a + b) == frames_event_count(a) + frames_event_count(b),
    decreases b.len(),
{
    if b.len() == 0 {
        assert(a + b =~= a);
    } else {
        assert((a + b).drop_last() =~= a + b.drop_last());
        assert((a + b).last() == b.last());
        lemma_event_count_split(a, b.drop_last());
    }
}

/// Event counts are never negative.
pub proof fn lemma_event_count_nonnegative(frames: Seq<CallInfo>)
    ensures
        frames_event_count(frames) >= 0,
    decreases frames.len(),
{
    if frames.len() > 0 {
        lemma_event_count_nonnegative(frames.drop_last());
    }
}

/// A deterministic builder of small single-frame call trees, for
/// exercising summarization.
#[derive(Debug)]
pub struct TestExecutionSummary {
    pub num_of_events: usize,
    pub num_of_messages: usize,
    pub class_hash: ClassHash,
    pub storage_address: ContractAddress,
    pub storage_key: StorageKey,
}

impl TestExecutionSummary {
    pub fn new(
        num_of_events: usize,
        num_of_messages: usize,
        class_hash: ClassHash,
        storage_address: ContractAddress,
        storage_key: StorageKey,
    ) -> (r: TestExecutionSummary)
        ensures
            r.num_of_events == num_of_events,
            r.num_of_messages == num_of_messages,
            r.class_hash == class_hash,
            r.storage_address == storage_address,
            r.storage_key == storage_key,
    {
        TestExecutionSummary {
            num_of_events,
            num_of_messages,
            class_hash,
            storage_address,
            storage_key,
        }
    }

    /// Builds the single-frame call tree this description stands for:
    /// `num_of_events` default events, `num_of_messages` messages of
    /// payload length one (ordered by their index), and one accessed
    /// storage key.
    pub fn to_call_info(&self) -> (r: CallInfo)
        ensures
            r.call.class_hash == Some(self.class_hash),
            r.call.storage_address == self.storage_address,
            r.execution.events@.len() == self.num_of_events,
            r.execution.l2_to_l1_messages@.len() == self.num_of_messages,
            forall|i: int|
                0 <= i < self.num_of_messages ==> (#[trigger] r.execution.l2_to_l1_messages@[i]).order
                    == i && r.execution.l2_to_l1_messages@[i].message.payload.0@.len() == 1,
            r.accessed_storage_keys@ == seq![self.storage_key],
            r.inner_calls@.len() == 0,
    {
        let mut events: Vec<OrderedEvent> = Vec::new();
        let mut i: usize = 0;
        while i < self.num_of_events
            invariant
                i <= self.num_of_events,
                events@.len() == i,
            decreases self.num_of_events - i,
        {
            events.push(OrderedEvent::default());
            i += 1;
        }
        let mut l2_to_l1_messages: Vec<OrderedL2ToL1Message> = Vec::new();
        let mut j: usize = 0;
        while j < self.num_of_messages
            invariant
                j <= self.num_of_messages,
                l2_to_l1_messages@.len() == j,
                forall|t: int|
                    0 <= t < j ==> (#[trigger] l2_to_l1_messages@[t]).order == t
                        && l2_to_l1_messages@[t].message.payload.0@.len() == 1,
            decreases self.num_of_messages - j,
        {
            let mut payload: Vec<Felt> = Vec::new();
            payload.push(Felt::default());
            l2_to_l1_messages.push(
                OrderedL2ToL1Message {
                    order: j,
                    message: MessageToL1 {
                        to_address: EthAddress::default(),
                        payload: L2ToL1Payload(payload),
                    },
                },
            );
            j += 1;
        }
        let mut accessed_storage_keys: Vec<StorageKey> = Vec::new();
        accessed_storage_keys.push(self.storage_key);
        proof {
            assert(accessed_storage_keys@ =~= seq![self.storage_key]);
        }
        CallInfo {
            call: CallEntryPoint {
                class_hash: Some(self.class_hash),
                storage_address: self.storage_address,
            },
            execution: CallExecution {
                retdata: Retdata::default(),
                events,
                l2_to_l1_messages,
                failed: false,
                gas_consumed: 0,
            },
            resources: ExecutionResources::default(),
            inner_calls: Vec::new(),
            storage_read_values: Vec::new(),
            accessed_storage_keys,
        }
    }
}

} // verus!
