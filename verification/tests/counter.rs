use pda_counter::errors::CounterError;
use pda_counter::events::CustomEvent;
use pda_counter::identity::Identity;
use pda_counter::location::derive_location;
use pda_counter::store::get_count;
use pda_counter::store::initialize_counter;
use pda_counter::store::update_counter;
use pda_counter::store::CounterStore;
use pda_counter::store::InitializeCount;
use pda_counter::store::UpdateCount;

fn owner(tag: u8) -> Identity {
    Identity::new([tag; 32])
}

#[test]
fn derivation_is_deterministic() {
    let o = owner(7);
    let (addr_a, bump_a) = derive_location(&o).unwrap();
    let (addr_b, bump_b) = derive_location(&o).unwrap();
    assert_eq!(addr_a.bytes, addr_b.bytes);
    assert_eq!(bump_a, bump_b);
}

#[test]
fn distinct_owners_get_distinct_locations() {
    let (addr_a, _) = derive_location(&owner(1)).unwrap();
    let (addr_b, _) = derive_location(&owner(2)).unwrap();
    assert_ne!(addr_a.bytes, addr_b.bytes);
}

#[test]
fn derived_location_differs_from_the_identity() {
    let o = owner(3);
    let (addr, _) = derive_location(&o).unwrap();
    assert_ne!(addr.bytes, o.bytes);
}

#[test]
fn identity_equality_is_by_bytes() {
    let a = owner(11);
    let b = owner(11);
    let c = owner(12);
    assert!(a.same_as(&b));
    assert!(!a.same_as(&c));
}

#[test]
fn initialize_creates_with_zero() {
    let mut store = CounterStore::new();
    let o = owner(4);
    let ev = initialize_counter(&mut store, InitializeCount { signer: o }).unwrap();
    assert_eq!(ev.message, "counter initialized");
    assert_eq!(get_count(&store, &o), Some(0));
}

#[test]
fn second_initialize_fails_and_changes_nothing() {
    let mut store = CounterStore::new();
    let o = owner(5);
    initialize_counter(&mut store, InitializeCount { signer: o }).unwrap();
    update_counter(&mut store, UpdateCount { signer: o }, 9).unwrap();
    let err = initialize_counter(&mut store, InitializeCount { signer: o }).unwrap_err();
    assert_eq!(err, CounterError::AlreadyInitialized);
    assert_eq!(get_count(&store, &o), Some(9));
}

#[test]
fn update_before_initialize_fails() {
    let mut store = CounterStore::new();
    let o = owner(6);
    let err = update_counter(&mut store, UpdateCount { signer: o }, 1).unwrap_err();
    assert_eq!(err, CounterError::NotInitialized);
    assert_eq!(get_count(&store, &o), None);
}

#[test]
fn initialize_then_update_stores_value() {
    let mut store = CounterStore::new();
    let o = owner(13);
    initialize_counter(&mut store, InitializeCount { signer: o }).unwrap();
    let ev = update_counter(&mut store, UpdateCount { signer: o }, 42).unwrap();
    assert_eq!(ev.message, "counter updated");
    assert_eq!(get_count(&store, &o), Some(42));
}

#[test]
fn foreign_identity_cannot_reach_anothers_record() {
    let mut store = CounterStore::new();
    let first = owner(8);
    let second = owner(9);
    initialize_counter(&mut store, InitializeCount { signer: first }).unwrap();
    // The second identity's context derives its own location, which cannot
    // name the first identity's record; its update finds no record at all.
    let err = update_counter(&mut store, UpdateCount { signer: second }, 3).unwrap_err();
    assert_eq!(err, CounterError::NotInitialized);
    assert_eq!(get_count(&store, &first), Some(0));
    assert_eq!(get_count(&store, &second), None);
}

#[test]
fn repeating_an_update_leaves_the_same_state() {
    let mut store = CounterStore::new();
    let o = owner(14);
    initialize_counter(&mut store, InitializeCount { signer: o }).unwrap();
    update_counter(&mut store, UpdateCount { signer: o }, 7).unwrap();
    update_counter(&mut store, UpdateCount { signer: o }, 7).unwrap();
    assert_eq!(get_count(&store, &o), Some(7));
}

#[test]
fn notification_messages_are_the_expected_literals() {
    assert_eq!(CustomEvent::initialized().message, "counter initialized");
    assert_eq!(CustomEvent::updated().message, "counter updated");
}

#[test]
fn full_sequence_keeps_order_of_notifications() {
    let mut store = CounterStore::new();
    let o = owner(10);
    let mut log: Vec<String> = Vec::new();
    log.push(initialize_counter(&mut store, InitializeCount { signer: o }).unwrap().message);
    log.push(update_counter(&mut store, UpdateCount { signer: o }, 1).unwrap().message);
    log.push(update_counter(&mut store, UpdateCount { signer: o }, 5).unwrap().message);
    assert_eq!(get_count(&store, &o), Some(5));
    assert_eq!(
        log,
        vec![
            "counter initialized".to_string(),
            "counter updated".to_string(),
            "counter updated".to_string(),
        ]
    );
}

#[test]
fn two_owners_keep_separate_counters() {
    let mut store = CounterStore::new();
    let first = owner(21);
    let second = owner(22);
    initialize_counter(&mut store, InitializeCount { signer: first }).unwrap();
    initialize_counter(&mut store, InitializeCount { signer: second }).unwrap();
    update_counter(&mut store, UpdateCount { signer: first }, 100).unwrap();
    update_counter(&mut store, UpdateCount { signer: second }, 200).unwrap();
    assert_eq!(get_count(&store, &first), Some(100));
    assert_eq!(get_count(&store, &second), Some(200));
}
