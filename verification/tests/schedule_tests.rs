use uptime_ledger::schedule::{Schedule, DEFAULT_TICK_UNIT, DEFAULT_UNIT_THRESHOLD};

#[test]
fn standard_schedule_is_a_minute_and_a_day() {
    let schedule = Schedule::standard();
    assert_eq!(schedule.tick_unit(), 60);
    assert_eq!(schedule.unit_threshold(), 86_400);
    assert_eq!(DEFAULT_TICK_UNIT, 60);
    assert_eq!(DEFAULT_UNIT_THRESHOLD, 86_400);
}

#[test]
fn schedule_needs_a_unit_that_is_not_empty() {
    assert!(Schedule::new(60, 0).is_none());
    let schedule = Schedule::new(0, 1).unwrap();
    assert_eq!(schedule.tick_unit(), 0);
    assert_eq!(schedule.unit_threshold(), 1);
}
