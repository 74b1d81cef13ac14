use uptime_ledger::claim::RewardRequest;
use uptime_ledger::handler::{handle_reward, handle_text, Action, Reply, UNITS_PER_HOUR};
use uptime_ledger::schedule::Schedule;
use uptime_ledger::store::Store;

fn registered_store(raw: u64, notified: u64) -> Store {
    let mut store = Store::new();
    store.advance_raw("vm-1", raw);
    store.bind("vm-1", 10);
    store.advance_notified(10, notified).unwrap();
    store
}

#[test]
fn start_and_menu_show_the_menu() {
    let schedule = Schedule::standard();
    let mut store = Store::new();
    store.advance_raw("vm-1", 60);
    assert_eq!(handle_text(&mut store, &schedule, 10, "/start"), Action::Menu(false));
    assert_eq!(handle_text(&mut store, &schedule, 10, "/menu"), Action::Menu(false));
    assert_eq!(handle_text(&mut store, &schedule, 10, " /menu "), Action::Menu(false));
    store.bind("vm-1", 10);
    assert_eq!(handle_text(&mut store, &schedule, 10, "/start"), Action::Menu(true));
    assert_eq!(handle_text(&mut store, &schedule, 10, "@bot /menu"), Action::Menu(true));
}

#[test]
fn start_with_more_words_is_not_the_menu() {
    let schedule = Schedule::standard();
    let mut store = Store::new();
    assert_eq!(handle_text(&mut store, &schedule, 10, "/start now"), Action::Say(Reply::Greeting));
    assert_eq!(handle_text(&mut store, &schedule, 10, " /start"), Action::Say(Reply::Greeting));
}

#[test]
fn registering_a_known_agent_succeeds_and_shows_the_menu() {
    let schedule = Schedule::standard();
    let mut store = Store::new();
    store.advance_raw("vm-1", 60);
    assert_eq!(
        handle_text(&mut store, &schedule, 10, "/register vm-1"),
        Action::SayThenMenu(Reply::RegisterSuccess, true)
    );
    assert_eq!(store.find("vm-1").unwrap().bound_chat, Some(10));
    assert_eq!(
        handle_text(&mut store, &schedule, 10, "/register vm-1"),
        Action::Say(Reply::AlreadyRegistered)
    );
    assert_eq!(
        handle_text(&mut store, &schedule, 10, "/register other"),
        Action::Say(Reply::AlreadyRegistered)
    );
}

#[test]
fn registering_an_unknown_or_taken_agent_makes_no_link() {
    let schedule = Schedule::standard();
    let mut store = Store::new();
    store.advance_raw("vm-1", 60);
    store.bind("vm-1", 10);
    assert_eq!(
        handle_text(&mut store, &schedule, 11, "/register ghost"),
        Action::Say(Reply::InvalidAgent)
    );
    assert_eq!(
        handle_text(&mut store, &schedule, 11, "/register vm-1"),
        Action::Say(Reply::InvalidAgent)
    );
    assert!(store.find_by_chat(11).is_none());
    assert!(store.find("ghost").is_none());
    assert_eq!(store.find("vm-1").unwrap().bound_chat, Some(10));
}

#[test]
fn uptime_is_shown_in_whole_hours() {
    let schedule = Schedule::standard();
    assert_eq!(UNITS_PER_HOUR, 3600);
    let mut store = registered_store(2 * 3600 + 3599, 0);
    assert_eq!(handle_text(&mut store, &schedule, 10, "/uptime"), Action::Say(Reply::UptimeHours(2)));
    assert_eq!(handle_text(&mut store, &schedule, 11, "/uptime"), Action::Say(Reply::Greeting));
}

#[test]
fn unclaimed_counts_notified_units_that_are_not_claimed() {
    let schedule = Schedule::standard();
    let mut store = registered_store(10 * 86_400, 3 * 86_400);
    store.advance_claimed(10, 86_400).unwrap();
    assert_eq!(
        handle_text(&mut store, &schedule, 10, "/unclaimed"),
        Action::Say(Reply::UnclaimedDays(2))
    );
    assert_eq!(handle_text(&mut store, &schedule, 11, "/unclaimed"), Action::Say(Reply::Greeting));
}

#[test]
fn claim_asks_the_issuer_and_changes_nothing_yet() {
    let schedule = Schedule::standard();
    let mut store = registered_store(10 * 86_400, 3 * 86_400);
    assert_eq!(
        handle_text(&mut store, &schedule, 10, "/claim"),
        Action::AskIssuer(RewardRequest { quantity: 1, units_per_item: 3 })
    );
    assert_eq!(store.find("vm-1").unwrap().claimed_units, 0);
    assert_eq!(handle_text(&mut store, &schedule, 11, "/claim"), Action::Say(Reply::Greeting));
}

#[test]
fn claim_with_nothing_notified_says_so() {
    let schedule = Schedule::standard();
    let mut store = registered_store(10 * 86_400, 86_399);
    assert_eq!(handle_text(&mut store, &schedule, 10, "/claim"), Action::Say(Reply::NothingToClaim));
}

#[test]
fn an_issued_reward_is_spent_once() {
    let schedule = Schedule::standard();
    let mut store = registered_store(10 * 86_400, 3 * 86_400);
    let request = RewardRequest { quantity: 1, units_per_item: 3 };
    assert_eq!(handle_reward(&mut store, &schedule, 10, request, true), Reply::Reward);
    assert_eq!(store.find("vm-1").unwrap().claimed_units, 3 * 86_400);
    assert_eq!(handle_text(&mut store, &schedule, 10, "/claim"), Action::Say(Reply::NothingToClaim));
    assert_eq!(handle_reward(&mut store, &schedule, 10, request, true), Reply::RetryLater);
    assert_eq!(store.find("vm-1").unwrap().claimed_units, 3 * 86_400);
}

#[test]
fn a_failed_reward_can_be_claimed_again() {
    let schedule = Schedule::standard();
    let mut store = registered_store(10 * 86_400, 3 * 86_400);
    let request = RewardRequest { quantity: 1, units_per_item: 3 };
    assert_eq!(
        handle_text(&mut store, &schedule, 10, "/unclaimed"),
        Action::Say(Reply::UnclaimedDays(3))
    );
    assert_eq!(handle_reward(&mut store, &schedule, 10, request, false), Reply::RetryLater);
    assert_eq!(store.find("vm-1").unwrap().claimed_units, 0);
    assert_eq!(
        handle_text(&mut store, &schedule, 10, "/unclaimed"),
        Action::Say(Reply::UnclaimedDays(3))
    );
    assert_eq!(handle_text(&mut store, &schedule, 10, "/claim"), Action::AskIssuer(request));
}

#[test]
fn deregister_frees_the_chat() {
    let schedule = Schedule::standard();
    let mut store = registered_store(100, 0);
    assert_eq!(handle_text(&mut store, &schedule, 10, "/deregister"), Action::Say(Reply::Deregistered));
    assert!(store.find_by_chat(10).is_none());
    assert_eq!(store.find("vm-1").unwrap().raw_uptime_units, 100);
    assert_eq!(handle_text(&mut store, &schedule, 10, "/deregister"), Action::Say(Reply::Greeting));
    assert!(store.find_by_chat(10).is_none());
}

#[test]
fn other_text_gets_the_menu_or_the_greeting() {
    let schedule = Schedule::standard();
    let mut store = registered_store(100, 0);
    assert_eq!(handle_text(&mut store, &schedule, 10, "hello"), Action::Menu(true));
    assert_eq!(handle_text(&mut store, &schedule, 10, ""), Action::Menu(true));
    assert_eq!(handle_text(&mut store, &schedule, 10, "/register"), Action::Menu(true));
    assert_eq!(handle_text(&mut store, &schedule, 11, "hello"), Action::Say(Reply::Greeting));
    assert_eq!(handle_text(&mut store, &schedule, 11, "/register"), Action::Say(Reply::Greeting));
}
