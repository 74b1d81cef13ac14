use uptime_ledger::binder::register;
use uptime_ledger::collector::{collect, collector_tick, CollectError};
use uptime_ledger::schedule::Schedule;
use uptime_ledger::store::Store;

fn ids(names: &[&str]) -> Vec<String> {
    names.iter().map(|n| n.to_string()).collect()
}

#[test]
fn a_tick_advances_every_reported_agent() {
    let mut store = Store::new();
    let schedule = Schedule::standard();
    store.advance_raw("old", 600);
    assert_eq!(collector_tick(&mut store, &schedule, &ids(&["old", "new"])), 2);
    assert_eq!(store.find("old").unwrap().raw_uptime_units, 660);
    assert_eq!(store.find("new").unwrap().raw_uptime_units, 60);
    assert_eq!(store.find("new").unwrap().bound_chat, None);
}

#[test]
fn absent_agents_do_not_advance() {
    let mut store = Store::new();
    let schedule = Schedule::standard();
    store.advance_raw("a", 600);
    store.advance_raw("b", 600);
    assert_eq!(collector_tick(&mut store, &schedule, &ids(&["a"])), 1);
    assert_eq!(store.find("a").unwrap().raw_uptime_units, 660);
    assert_eq!(store.find("b").unwrap().raw_uptime_units, 600);
}

#[test]
fn a_repeated_identifier_advances_once() {
    let mut store = Store::new();
    let schedule = Schedule::standard();
    assert_eq!(collector_tick(&mut store, &schedule, &ids(&["a", "b", "a", "a", "b"])), 2);
    assert_eq!(store.find("a").unwrap().raw_uptime_units, 60);
    assert_eq!(store.find("b").unwrap().raw_uptime_units, 60);
    assert_eq!(store.len(), 2);
}

#[test]
fn an_empty_report_changes_nothing() {
    let mut store = Store::new();
    let schedule = Schedule::standard();
    store.advance_raw("a", 600);
    assert_eq!(collector_tick(&mut store, &schedule, &ids(&[])), 0);
    assert_eq!(store.find("a").unwrap().raw_uptime_units, 600);
    assert_eq!(store.len(), 1);
}

#[test]
fn a_tick_keeps_the_chat_and_the_other_counters() {
    let mut store = Store::new();
    let schedule = Schedule::new(10, 100).unwrap();
    store.advance_raw("a", 250);
    register(&mut store, 1, "a");
    store.advance_notified(1, 200).unwrap();
    store.advance_claimed(1, 100).unwrap();
    collector_tick(&mut store, &schedule, &ids(&["a"]));
    let rec = store.find("a").unwrap();
    assert_eq!(rec.bound_chat, Some(1));
    assert_eq!(rec.raw_uptime_units, 260);
    assert_eq!(rec.notified_units, 200);
    assert_eq!(rec.claimed_units, 100);
}

#[test]
fn collect_reads_the_keys_of_the_answer() {
    let mut store = Store::new();
    let schedule = Schedule::standard();
    store.advance_raw("vm-b", 60);
    let body = "{\"vm-a\": {\"ip\": \"10.0.0.1\"}, \"vm-b\": null, \"vm-c\": [1, 2.5, \"x\"]}";
    assert_eq!(collect(&mut store, &schedule, body), Ok(3));
    assert_eq!(store.find("vm-a").unwrap().raw_uptime_units, 60);
    assert_eq!(store.find("vm-b").unwrap().raw_uptime_units, 120);
    assert_eq!(store.find("vm-c").unwrap().raw_uptime_units, 60);
    assert!(store.find(body).is_none());
    assert_eq!(store.len(), 3);
}

#[test]
fn collect_counts_a_repeated_key_once() {
    let mut store = Store::new();
    let schedule = Schedule::standard();
    assert_eq!(collect(&mut store, &schedule, "{\"vm\": 1, \"vm\": 2}"), Ok(1));
    assert_eq!(store.find("vm").unwrap().raw_uptime_units, 60);
}

#[test]
fn collect_of_an_empty_object_changes_nothing() {
    let mut store = Store::new();
    let schedule = Schedule::standard();
    store.advance_raw("a", 600);
    assert_eq!(collect(&mut store, &schedule, "  {}  "), Ok(0));
    assert_eq!(store.find("a").unwrap().raw_uptime_units, 600);
}

#[test]
fn a_malformed_answer_skips_the_tick() {
    let mut store = Store::new();
    let schedule = Schedule::standard();
    store.advance_raw("a", 600);
    for body in ["", "not json", "{\"a\": 1", "[\"a\"]", "\"a\"", "42", "null", "{\"a\": 1} x", "{1: 2}"] {
        assert_eq!(collect(&mut store, &schedule, body), Err(CollectError::MalformedPayload));
        assert_eq!(store.find("a").unwrap().raw_uptime_units, 600);
        assert_eq!(store.len(), 1);
    }
}

#[test]
fn collect_reads_escaped_keys() {
    let mut store = Store::new();
    let schedule = Schedule::standard();
    assert_eq!(collect(&mut store, &schedule, "{\"a\\u0041\\n\": 0}"), Ok(1));
    assert_eq!(store.find("aA\n").unwrap().raw_uptime_units, 60);
}
