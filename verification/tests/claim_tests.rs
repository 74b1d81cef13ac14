use uptime_ledger::binder::register;
use uptime_ledger::claim::{begin_claim, finish_claim, ClaimDecision, ClaimOutcome, RewardRequest};
use uptime_ledger::notifier::{due_notices, settle_notice, Notice, NoticeOutcome};
use uptime_ledger::schedule::Schedule;
use uptime_ledger::store::{AdvanceError, Store};

fn store_with_notified(raw: u64, notified: u64) -> Store {
    let mut store = Store::new();
    store.advance_raw("vm-1", raw);
    register(&mut store, 10, "vm-1");
    store.advance_notified(10, notified).unwrap();
    store
}

#[test]
fn a_day_of_ticks_is_notified_then_claimed_once() {
    let mut store = Store::new();
    let schedule = Schedule::standard();
    assert_eq!(schedule.unit_threshold(), 86_400);
    store.get_or_create("vm-1");
    register(&mut store, 10, "vm-1");
    for _ in 0..1440 {
        store.advance_raw("vm-1", 60);
    }
    assert_eq!(store.find("vm-1").unwrap().raw_uptime_units, 86_400);
    let due = due_notices(&store, &schedule);
    assert_eq!(due, vec![Notice { chat: 10, earned: 1 }]);
    assert_eq!(settle_notice(&mut store, &schedule, due[0], 1), NoticeOutcome::Advanced);
    assert_eq!(store.find("vm-1").unwrap().notified_units, 86_400);
    let decision = begin_claim(&store, &schedule, 10);
    assert_eq!(
        decision,
        ClaimDecision::Request(RewardRequest { quantity: 1, units_per_item: 1 })
    );
    assert_eq!(finish_claim(&mut store, &schedule, 10, 1, true), ClaimOutcome::Claimed);
    assert_eq!(store.find("vm-1").unwrap().claimed_units, 86_400);
    assert_eq!(begin_claim(&store, &schedule, 10), ClaimDecision::NothingToClaim);
}

#[test]
fn nothing_to_claim_before_any_notice() {
    let mut store = Store::new();
    let schedule = Schedule::standard();
    store.advance_raw("vm-1", 10 * 86_400);
    register(&mut store, 10, "vm-1");
    assert_eq!(begin_claim(&store, &schedule, 10), ClaimDecision::NothingToClaim);
}

#[test]
fn a_chat_without_agent_cannot_claim() {
    let mut store = Store::new();
    let schedule = Schedule::standard();
    store.advance_raw("vm-1", 10 * 86_400);
    assert_eq!(begin_claim(&store, &schedule, 10), ClaimDecision::NotRegistered);
    assert_eq!(
        finish_claim(&mut store, &schedule, 10, 1, true),
        ClaimOutcome::Refused(AdvanceError::UnknownChat)
    );
    assert_eq!(
        finish_claim(&mut store, &schedule, 10, u64::MAX, true),
        ClaimOutcome::Refused(AdvanceError::UnknownChat)
    );
}

#[test]
fn the_request_is_one_item_worth_all_unclaimed_units() {
    let schedule = Schedule::standard();
    let store = store_with_notified(5 * 86_400, 4 * 86_400 + 100);
    assert_eq!(
        begin_claim(&store, &schedule, 10),
        ClaimDecision::Request(RewardRequest { quantity: 1, units_per_item: 4 })
    );
}

#[test]
fn a_failed_issuer_costs_nothing() {
    let schedule = Schedule::standard();
    let mut store = store_with_notified(3 * 86_400, 2 * 86_400);
    let before = begin_claim(&store, &schedule, 10);
    assert_eq!(
        before,
        ClaimDecision::Request(RewardRequest { quantity: 1, units_per_item: 2 })
    );
    assert_eq!(finish_claim(&mut store, &schedule, 10, 2, false), ClaimOutcome::IssuerFailed);
    let rec = store.find("vm-1").unwrap();
    assert_eq!(rec.claimed_units, 0);
    assert_eq!(rec.notified_units, 2 * 86_400);
    assert_eq!(begin_claim(&store, &schedule, 10), before);
}

#[test]
fn claiming_more_than_was_notified_is_refused() {
    let schedule = Schedule::standard();
    let mut store = store_with_notified(3 * 86_400, 2 * 86_400);
    assert_eq!(
        finish_claim(&mut store, &schedule, 10, 3, true),
        ClaimOutcome::Refused(AdvanceError::Exceeds)
    );
    assert_eq!(
        finish_claim(&mut store, &schedule, 10, u64::MAX, true),
        ClaimOutcome::Refused(AdvanceError::Exceeds)
    );
    assert_eq!(store.find("vm-1").unwrap().claimed_units, 0);
    assert_eq!(finish_claim(&mut store, &schedule, 10, 2, true), ClaimOutcome::Claimed);
    assert_eq!(store.find("vm-1").unwrap().claimed_units, 172_800);
    assert_eq!(
        finish_claim(&mut store, &schedule, 10, 1, true),
        ClaimOutcome::Refused(AdvanceError::Exceeds)
    );
}
