use blockifier::cached_state::CachedState;
use blockifier::core_types::ClassHash;
use blockifier::core_types::ContractAddress;
use blockifier::core_types::ContractClass;
use blockifier::core_types::Felt;
use blockifier::core_types::Nonce;
use blockifier::core_types::StorageKey;
use blockifier::diff::subtract_mappings;
use blockifier::diff::StateDiff;
use blockifier::errors::StateError;
use blockifier::ordered_map::OrderedMap;
use blockifier::reader::DictStateReader;

fn felt(v: u128) -> Felt {
    Felt { val: v }
}

fn addr(v: u128) -> ContractAddress {
    ContractAddress(felt(v))
}

fn key(v: u128) -> StorageKey {
    StorageKey(felt(v))
}

fn chash(v: u128) -> ClassHash {
    ClassHash(felt(v))
}

#[test]
fn reading_unset_storage_returns_default() {
    let reader = DictStateReader::default();
    let mut state = CachedState::new(reader);
    let value = state.get_storage_at(addr(2), key(9)).unwrap();
    assert_eq!(value, felt(0));
}

#[test]
fn reading_unset_nonce_and_class_hash_returns_default() {
    let reader = DictStateReader::default();
    let mut state = CachedState::new(reader);
    assert_eq!(state.get_nonce_at(addr(7)).unwrap(), Nonce(felt(0)));
    assert_eq!(state.get_class_hash_at(addr(7)).unwrap(), ClassHash(felt(0)));
}

#[test]
fn storage_read_write_and_diff() {
    let mut reader = DictStateReader::default();
    reader.storage_view.insert((addr(1), key(1)), felt(5));
    let mut state = CachedState::new(reader);

    assert_eq!(state.get_storage_at(addr(1), key(1)).unwrap(), felt(5));
    state.set_storage_at(addr(1), key(1), felt(9));
    assert_eq!(state.get_storage_at(addr(1), key(1)).unwrap(), felt(9));
    // An untouched cell of the same contract reads as default and
    // leaves no trace in the diff.
    assert_eq!(state.get_storage_at(addr(1), key(2)).unwrap(), felt(0));

    let diff = StateDiff::from_cached_state(state);
    assert_eq!(diff.storage_diffs, vec![(addr(1), vec![(key(1), felt(9))])]);
    assert!(diff.deployed_contracts.is_empty());
    assert!(diff.nonces.is_empty());
    assert!(diff.declared_classes.is_empty());
}

#[test]
fn repeated_reads_return_identical_values() {
    let mut reader = DictStateReader::default();
    reader.storage_view.insert((addr(3), key(4)), felt(77));
    let mut state = CachedState::new(reader);
    let first = state.get_storage_at(addr(3), key(4)).unwrap();
    let second = state.get_storage_at(addr(3), key(4)).unwrap();
    assert_eq!(first, second);
    let n1 = state.get_nonce_at(addr(3)).unwrap();
    let n2 = state.get_nonce_at(addr(3)).unwrap();
    assert_eq!(n1, n2);
}

#[test]
fn deploying_twice_fails_and_keeps_first_binding() {
    let reader = DictStateReader::default();
    let mut state = CachedState::new(reader);
    state.set_class_hash_at(addr(5), chash(10)).unwrap();
    let result = state.set_class_hash_at(addr(5), chash(11));
    assert_eq!(result, Err(StateError::UnavailableContractAddress(addr(5))));
    assert_eq!(state.get_class_hash_at(addr(5)).unwrap(), chash(10));
}

#[test]
fn deploying_over_a_reader_binding_fails() {
    let mut reader = DictStateReader::default();
    reader.address_to_class_hash.insert(addr(6), chash(20));
    let mut state = CachedState::new(reader);
    let result = state.set_class_hash_at(addr(6), chash(21));
    assert_eq!(result, Err(StateError::UnavailableContractAddress(addr(6))));
    assert_eq!(state.get_class_hash_at(addr(6)).unwrap(), chash(20));
}

#[test]
fn deploying_zero_address_always_fails() {
    let reader = DictStateReader::default();
    let mut state = CachedState::new(reader);
    assert_eq!(
        state.set_class_hash_at(addr(0), chash(1)),
        Err(StateError::OutOfRangeContractAddress)
    );
    // Regardless of prior state.
    state.set_class_hash_at(addr(5), chash(10)).unwrap();
    state.set_storage_at(addr(0), key(1), felt(2));
    assert_eq!(
        state.set_class_hash_at(addr(0), chash(3)),
        Err(StateError::OutOfRangeContractAddress)
    );
}

#[test]
fn undeclared_class_lookup_fails() {
    let reader = DictStateReader::default();
    let mut state = CachedState::new(reader);
    let result = state.get_contract_class(&chash(42));
    assert_eq!(result, Err(StateError::UndeclaredClassHash(chash(42))));
}

#[test]
fn declared_class_lookup_and_diff_carryover() {
    let mut reader = DictStateReader::default();
    reader.class_hash_to_class.insert(chash(42), ContractClass(felt(900)));
    let mut state = CachedState::new(reader);
    assert_eq!(state.get_contract_class(&chash(42)).unwrap(), ContractClass(felt(900)));
    assert_eq!(state.get_contract_class(&chash(42)).unwrap(), ContractClass(felt(900)));
    // The whole class-code cache is carried into the diff, not only
    // newly declared classes.
    let diff = StateDiff::from_cached_state(state);
    assert_eq!(diff.declared_classes, vec![(chash(42), ContractClass(felt(900)))]);
}

#[test]
fn nonce_increments_from_default_and_reader_value() {
    let mut reader = DictStateReader::default();
    reader.address_to_nonce.insert(addr(2), Nonce(felt(7)));
    let mut state = CachedState::new(reader);
    state.increment_nonce(addr(1)).unwrap();
    assert_eq!(state.get_nonce_at(addr(1)).unwrap(), Nonce(felt(1)));
    state.increment_nonce(addr(1)).unwrap();
    assert_eq!(state.get_nonce_at(addr(1)).unwrap(), Nonce(felt(2)));
    state.increment_nonce(addr(2)).unwrap();
    assert_eq!(state.get_nonce_at(addr(2)).unwrap(), Nonce(felt(8)));

    let diff = StateDiff::from_cached_state(state);
    assert_eq!(diff.nonces, vec![(addr(1), Nonce(felt(2))), (addr(2), Nonce(felt(8)))]);
}

#[test]
fn nonce_increment_overflows_with_arithmetic_error() {
    let mut reader = DictStateReader::default();
    reader.address_to_nonce.insert(addr(1), Nonce(felt(u64::MAX as u128 + 1)));
    reader.address_to_nonce.insert(addr(2), Nonce(felt(u64::MAX as u128)));
    let mut state = CachedState::new(reader);
    assert_eq!(state.increment_nonce(addr(1)), Err(StateError::ArithmeticOverflow));
    // The failed increment records no write.
    assert_eq!(state.get_nonce_at(addr(1)).unwrap(), Nonce(felt(u64::MAX as u128 + 1)));
    // A value that still fits the 64-bit width increments normally.
    state.increment_nonce(addr(2)).unwrap();
    assert_eq!(state.get_nonce_at(addr(2)).unwrap(), Nonce(felt(u64::MAX as u128 + 1)));
}

#[test]
fn diff_keeps_write_equal_to_unobserved_initial() {
    let mut reader = DictStateReader::default();
    reader.storage_view.insert((addr(1), key(1)), felt(5));
    reader.storage_view.insert((addr(1), key(2)), felt(6));
    let mut state = CachedState::new(reader);
    // Written without ever being read: no initial value is observed,
    // so the entry stays in the diff even though it equals the
    // reader's value.
    state.set_storage_at(addr(1), key(1), felt(5));
    // Read first, then written back unchanged: the diff drops it.
    assert_eq!(state.get_storage_at(addr(1), key(2)).unwrap(), felt(6));
    state.set_storage_at(addr(1), key(2), felt(6));
    let diff = StateDiff::from_cached_state(state);
    assert_eq!(diff.storage_diffs, vec![(addr(1), vec![(key(1), felt(5))])]);
}

#[test]
fn storage_diff_groups_by_first_seen_address() {
    let reader = DictStateReader::default();
    let mut state = CachedState::new(reader);
    state.set_storage_at(addr(1), key(1), felt(10));
    state.set_storage_at(addr(2), key(1), felt(20));
    state.set_storage_at(addr(1), key(2), felt(30));
    let diff = StateDiff::from_cached_state(state);
    assert_eq!(
        diff.storage_diffs,
        vec![
            (addr(1), vec![(key(1), felt(10)), (key(2), felt(30))]),
            (addr(2), vec![(key(1), felt(20))]),
        ]
    );
}

#[test]
fn deployment_appears_in_diff_in_write_order() {
    let reader = DictStateReader::default();
    let mut state = CachedState::new(reader);
    state.set_class_hash_at(addr(9), chash(90)).unwrap();
    state.set_class_hash_at(addr(8), chash(80)).unwrap();
    let diff = StateDiff::from_cached_state(state);
    assert_eq!(diff.deployed_contracts, vec![(addr(9), chash(90)), (addr(8), chash(80))]);
}

#[test]
fn ordered_map_insert_keeps_first_position() {
    let mut map: OrderedMap<ContractAddress, Felt> = OrderedMap::new();
    map.insert(addr(1), felt(10));
    map.insert(addr(2), felt(20));
    map.insert(addr(1), felt(30));
    assert_eq!(map.len(), 2);
    assert_eq!(*map.entry_at(0), (addr(1), felt(30)));
    assert_eq!(*map.entry_at(1), (addr(2), felt(20)));
    assert_eq!(map.get(&addr(1)), Some(&felt(30)));
    assert_eq!(map.get(&addr(3)), None);
    assert!(map.contains_key(&addr(2)));
}

#[test]
fn subtract_mappings_drops_unchanged_entries() {
    let mut writes: OrderedMap<ContractAddress, Felt> = OrderedMap::new();
    writes.insert(addr(1), felt(10));
    writes.insert(addr(2), felt(20));
    writes.insert(addr(3), felt(30));
    let mut initial: OrderedMap<ContractAddress, Felt> = OrderedMap::new();
    initial.insert(addr(1), felt(10));
    initial.insert(addr(2), felt(99));
    let result = subtract_mappings(&writes, &initial);
    assert_eq!(result, vec![(addr(2), felt(20)), (addr(3), felt(30))]);
}
