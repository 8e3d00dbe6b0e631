use blockifier::call_info::get_payload_lengths;
use blockifier::call_info::CallInfo;
use blockifier::call_info::L2ToL1Payload;
use blockifier::call_info::MessageToL1;
use blockifier::call_info::OrderedEvent;
use blockifier::call_info::OrderedL2ToL1Message;
use blockifier::call_info::TestExecutionSummary;
use blockifier::core_types::ClassHash;
use blockifier::core_types::ContractAddress;
use blockifier::core_types::EthAddress;
use blockifier::core_types::Felt;
use blockifier::core_types::StorageKey;
use blockifier::summary::ExecutionSummary;
use blockifier::summary::MessageL1CostInfo;
use blockifier::summary::get_message_segment_length;

fn felt(v: u128) -> Felt {
    Felt { val: v }
}

fn addr(v: u128) -> ContractAddress {
    ContractAddress(felt(v))
}

fn key(v: u128) -> StorageKey {
    StorageKey(felt(v))
}

fn chash(v: u128) -> ClassHash {
    ClassHash(felt(v))
}

fn message(order: usize, payload_len: usize) -> OrderedL2ToL1Message {
    let mut payload = Vec::new();
    for _ in 0..payload_len {
        payload.push(felt(0));
    }
    OrderedL2ToL1Message {
        order,
        message: MessageToL1 { to_address: EthAddress(felt(0)), payload: L2ToL1Payload(payload) },
    }
}

/// A frame with a distinguishing class hash and address, `n_events`
/// default events, one accessed key, and the given message payload
/// lengths.
fn frame(id: u128, n_events: usize, payload_lens: &[usize]) -> CallInfo {
    let mut call_info = CallInfo::default();
    call_info.call.class_hash = Some(chash(id));
    call_info.call.storage_address = addr(id);
    for _ in 0..n_events {
        call_info.execution.events.push(OrderedEvent::default());
    }
    for (i, len) in payload_lens.iter().enumerate() {
        call_info.execution.l2_to_l1_messages.push(message(i, *len));
    }
    call_info.accessed_storage_keys.push(key(id));
    call_info
}

#[test]
fn traversal_is_preorder_depth_first() {
    // Root R with children [A, B], A having child [A1].
    let a1 = frame(11, 0, &[]);
    let mut a = frame(10, 0, &[]);
    a.inner_calls.push(a1);
    let b = frame(20, 0, &[]);
    let mut root = frame(1, 0, &[]);
    root.inner_calls.push(a);
    root.inner_calls.push(b);

    let mut visited = Vec::new();
    let mut it = root.iter();
    while let Some(f) = it.next() {
        visited.push(f.call.storage_address);
    }
    assert_eq!(visited, vec![addr(1), addr(10), addr(11), addr(20)]);
}

#[test]
fn traversal_is_restartable() {
    let mut root = frame(1, 0, &[]);
    root.inner_calls.push(frame(2, 0, &[]));
    let mut first = Vec::new();
    let mut it = root.iter();
    while let Some(f) = it.next() {
        first.push(f.call.storage_address);
    }
    let mut second = Vec::new();
    let mut it2 = root.iter();
    while let Some(f) = it2.next() {
        second.push(f.call.storage_address);
    }
    assert_eq!(first, second);
}

#[test]
fn summarize_aggregates_whole_tree() {
    let a1 = frame(11, 1, &[4]);
    let mut a = frame(10, 2, &[]);
    a.inner_calls.push(a1);
    let b = frame(20, 3, &[2, 5]);
    let mut root = frame(1, 4, &[7]);
    root.inner_calls.push(a);
    root.inner_calls.push(b);

    let summary = root.summarize();
    // Event count is the sum of every frame's own event count.
    assert_eq!(summary.n_events, 4 + 2 + 1 + 3);
    // Executed classes are all frames' class hashes, in visit order.
    assert_eq!(
        summary.executed_class_hashes,
        vec![chash(1), chash(10), chash(11), chash(20)]
    );
    // Visited entries pair each frame's own keys with its address.
    assert_eq!(
        summary.visited_storage_entries,
        vec![
            (addr(1), key(1)),
            (addr(10), key(10)),
            (addr(11), key(11)),
            (addr(20), key(20)),
        ]
    );
    // Payload lengths come in depth-first visit order.
    assert_eq!(summary.l2_to_l1_payload_lengths, vec![7, 4, 2, 5]);
}

#[test]
fn payload_lengths_follow_message_order() {
    let mut messages = Vec::new();
    messages.push(message(0, 1));
    messages.push(message(1, 2));
    assert_eq!(get_payload_lengths(&messages), vec![1, 2]);
}

#[test]
fn tree_payload_lengths_follow_visit_order() {
    let mut root = frame(1, 0, &[1]);
    let mut a = frame(2, 0, &[2, 3]);
    a.inner_calls.push(frame(3, 0, &[4]));
    root.inner_calls.push(a);
    root.inner_calls.push(frame(4, 0, &[5]));
    assert_eq!(root.get_l2_to_l1_payload_lengths(), vec![1, 2, 3, 4, 5]);
}

#[test]
fn message_segment_length_formula() {
    let lengths = vec![1, 2];
    // Each payload adds its length plus a 3-word header; an L1 handler
    // payload adds its size plus a 5-word header.
    assert_eq!(get_message_segment_length(&lengths, Some(4)), 1 + 3 + 2 + 3 + 5 + 4);
    assert_eq!(get_message_segment_length(&lengths, None), 1 + 3 + 2 + 3);
    assert_eq!(get_message_segment_length(&Vec::new(), None), 0);
}

#[test]
fn message_cost_info_expands_all_trees() {
    let mut t1 = frame(1, 0, &[1]);
    t1.inner_calls.push(frame(2, 0, &[2]));
    let t2 = frame(3, 0, &[3]);
    let call_infos = vec![t1, t2];
    let cost_info = MessageL1CostInfo::calculate(&call_infos, Some(4));
    assert_eq!(cost_info.l2_to_l1_payload_lengths, vec![1, 2, 3]);
    assert_eq!(cost_info.message_segment_length, (1 + 3) + (2 + 3) + (3 + 3) + 5 + 4);
}

#[test]
fn test_execution_summary_builds_single_frame_tree() {
    let description = TestExecutionSummary::new(2, 3, chash(7), addr(8), key(9));
    let call_info = description.to_call_info();
    assert_eq!(call_info.call.class_hash, Some(chash(7)));
    assert_eq!(call_info.call.storage_address, addr(8));
    assert_eq!(call_info.execution.events.len(), 2);
    assert_eq!(call_info.execution.l2_to_l1_messages.len(), 3);
    for (i, m) in call_info.execution.l2_to_l1_messages.iter().enumerate() {
        assert_eq!(m.order, i);
        assert_eq!(m.message.payload.0.len(), 1);
    }
    assert_eq!(call_info.accessed_storage_keys, vec![key(9)]);
    assert!(call_info.inner_calls.is_empty());

    let summary = call_info.summarize();
    assert_eq!(summary.n_events, 2);
    assert_eq!(summary.l2_to_l1_payload_lengths, vec![1, 1, 1]);
    assert_eq!(summary.executed_class_hashes, vec![chash(7)]);
    assert_eq!(summary.visited_storage_entries, vec![(addr(8), key(9))]);
}

fn summary_of(tree_id: u128, n_events: usize, payload_lens: &[usize]) -> ExecutionSummary {
    frame(tree_id, n_events, payload_lens).summarize()
}

#[test]
fn merging_with_empty_summary_is_noop() {
    let a = summary_of(1, 2, &[3]);
    let merged = summary_of(1, 2, &[3]).merge(ExecutionSummary::default());
    assert_eq!(merged, a);
    let merged_left = ExecutionSummary::default().merge(summary_of(1, 2, &[3]));
    assert_eq!(merged_left, a);
}

#[test]
fn merge_is_associative() {
    let ab_c = summary_of(1, 1, &[1])
        .merge(summary_of(2, 2, &[2]))
        .merge(summary_of(3, 3, &[3]));
    let a_bc = summary_of(1, 1, &[1])
        .merge(summary_of(2, 2, &[2]).merge(summary_of(3, 3, &[3])));
    assert_eq!(ab_c, a_bc);
}

#[test]
fn merge_is_commutative_for_sets_and_count() {
    let ab = summary_of(1, 1, &[1]).merge(summary_of(2, 2, &[2]));
    let ba = summary_of(2, 2, &[2]).merge(summary_of(1, 1, &[1]));
    assert_eq!(ab.n_events, ba.n_events);
    for h in &ab.executed_class_hashes {
        assert!(ba.executed_class_hashes.contains(h));
    }
    for h in &ba.executed_class_hashes {
        assert!(ab.executed_class_hashes.contains(h));
    }
    for e in &ab.visited_storage_entries {
        assert!(ba.visited_storage_entries.contains(e));
    }
    for e in &ba.visited_storage_entries {
        assert!(ab.visited_storage_entries.contains(e));
    }
    // The payload-length sequence instead follows merge order.
    assert_eq!(ab.l2_to_l1_payload_lengths, vec![1, 2]);
    assert_eq!(ba.l2_to_l1_payload_lengths, vec![2, 1]);
}

#[test]
fn sum_folds_summaries_in_order() {
    let summaries = vec![summary_of(1, 1, &[1]), summary_of(2, 2, &[2]), summary_of(3, 3, &[3])];
    let total = ExecutionSummary::sum(summaries);
    assert_eq!(total.n_events, 6);
    assert_eq!(total.l2_to_l1_payload_lengths, vec![1, 2, 3]);
    assert_eq!(total.executed_class_hashes, vec![chash(1), chash(2), chash(3)]);
    assert_eq!(ExecutionSummary::sum(Vec::new()), ExecutionSummary::default());
}
