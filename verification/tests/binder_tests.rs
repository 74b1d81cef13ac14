use uptime_ledger::binder::{deregister, register, DeregisterOutcome, RegisterOutcome};
use uptime_ledger::store::Store;

fn snapshot(store: &Store) -> Vec<(String, Option<i64>, u64, u64, u64)> {
    let mut all: Vec<(String, Option<i64>, u64, u64, u64)> = store
        .records()
        .into_iter()
        .map(|r| (r.agent_id, r.bound_chat, r.raw_uptime_units, r.notified_units, r.claimed_units))
        .collect();
    all.sort();
    all
}

#[test]
fn register_links_chat_and_agent() {
    let mut store = Store::new();
    store.advance_raw("vm-1", 60);
    assert_eq!(register(&mut store, 10, "vm-1"), RegisterOutcome::Registered);
    assert_eq!(store.find_by_chat(10).unwrap().agent_id, "vm-1");
}

#[test]
fn register_of_an_unknown_agent_is_invalid() {
    let mut store = Store::new();
    assert_eq!(register(&mut store, 10, "ghost"), RegisterOutcome::InvalidAgent);
    assert!(store.find("ghost").is_none());
    assert!(store.find_by_chat(10).is_none());
    assert_eq!(store.len(), 0);
}

#[test]
fn register_twice_is_already_registered() {
    let mut store = Store::new();
    store.advance_raw("vm-1", 60);
    store.advance_raw("vm-2", 60);
    assert_eq!(register(&mut store, 10, "vm-1"), RegisterOutcome::Registered);
    assert_eq!(register(&mut store, 10, "vm-1"), RegisterOutcome::AlreadyRegistered);
    assert_eq!(register(&mut store, 10, "vm-2"), RegisterOutcome::AlreadyRegistered);
    assert_eq!(register(&mut store, 10, "ghost"), RegisterOutcome::AlreadyRegistered);
    assert_eq!(store.find_by_chat(10).unwrap().agent_id, "vm-1");
    assert_eq!(store.find("vm-2").unwrap().bound_chat, None);
}

#[test]
fn an_agent_stays_with_its_first_chat() {
    let mut store = Store::new();
    store.advance_raw("A", 60);
    assert_eq!(register(&mut store, 1, "A"), RegisterOutcome::Registered);
    let second = register(&mut store, 2, "A");
    assert!(second == RegisterOutcome::InvalidAgent || second == RegisterOutcome::AlreadyRegistered);
    assert_eq!(second, RegisterOutcome::InvalidAgent);
    assert_eq!(store.find("A").unwrap().bound_chat, Some(1));
    assert!(store.find_by_chat(2).is_none());
}

#[test]
fn deregister_twice_is_deregister_once() {
    let mut store = Store::new();
    store.advance_raw("vm-1", 90_000);
    store.advance_raw("vm-2", 5);
    register(&mut store, 10, "vm-1");
    register(&mut store, 20, "vm-2");
    store.advance_notified(10, 86_400).unwrap();
    assert_eq!(deregister(&mut store, 10), DeregisterOutcome::Deregistered);
    let once = snapshot(&store);
    assert_eq!(deregister(&mut store, 10), DeregisterOutcome::NotRegistered);
    let twice = snapshot(&store);
    assert_eq!(once, twice);
    assert_eq!(
        once,
        vec![
            ("vm-1".to_string(), None, 90_000, 86_400, 0),
            ("vm-2".to_string(), Some(20), 5, 0, 0),
        ]
    );
}

#[test]
fn deregister_without_registration_changes_nothing() {
    let mut store = Store::new();
    store.advance_raw("vm-1", 60);
    assert_eq!(deregister(&mut store, 10), DeregisterOutcome::NotRegistered);
    assert_eq!(store.find("vm-1").unwrap().raw_uptime_units, 60);
}

#[test]
fn a_freed_agent_can_be_registered_again() {
    let mut store = Store::new();
    store.advance_raw("vm-1", 60);
    register(&mut store, 10, "vm-1");
    deregister(&mut store, 10);
    assert_eq!(register(&mut store, 11, "vm-1"), RegisterOutcome::Registered);
    assert_eq!(store.find("vm-1").unwrap().bound_chat, Some(11));
}
