use recipes_rs::pool::{Admission, PoolConfig, PoolLedger, Release, StartupError, DEFAULT_MAX_SIZE};

#[test]
fn a_connection_string_is_required() {
    assert_eq!(PoolConfig::new(None).unwrap_err(), StartupError::MissingConnectionString);
    assert_eq!(PoolConfig::new(Some("")).unwrap_err(), StartupError::EmptyConnectionString);
}

#[test]
fn the_default_size_is_finite() {
    let config = PoolConfig::new(Some("postgres://localhost/recipes")).unwrap();
    assert_eq!(config.connection_string(), "postgres://localhost/recipes");
    assert_eq!(config.max_size(), DEFAULT_MAX_SIZE);
    assert_eq!(DEFAULT_MAX_SIZE, 16);
}

#[test]
fn the_size_can_be_set() {
    let config = PoolConfig::new(Some("postgres://db")).unwrap().with_max_size(3);
    assert_eq!(config.connection_string(), "postgres://db");
    assert_eq!(config.max_size(), 3);
}

#[test]
fn a_fresh_pool_has_every_connection_free() {
    let ledger = PoolLedger::new(4);
    assert_eq!(ledger.max_size(), 4);
    assert_eq!(ledger.available(), 4);
    assert_eq!(ledger.borrowed_count(), 0);
    assert_eq!(ledger.waiting_count(), 0);
    assert!(!ledger.holds(1));
    assert!(!ledger.is_waiting(1));
}

#[test]
fn the_second_of_two_callers_gets_the_connection_when_the_first_gives_it_back() {
    let mut ledger = PoolLedger::new(1);
    let mut order = Vec::new();
    assert_eq!(ledger.acquire(10), Admission::Granted);
    order.push("first granted");
    assert_eq!(ledger.acquire(20), Admission::Suspended);
    assert!(ledger.holds(10));
    assert!(!ledger.holds(20));
    assert!(ledger.is_waiting(20));
    assert_eq!(ledger.available(), 0);
    order.push("first released");
    assert_eq!(ledger.release(10), Release::HandedTo(20));
    order.push("second granted");
    assert!(ledger.holds(20));
    assert!(!ledger.is_waiting(20));
    assert!(!ledger.holds(10));
    assert_eq!(ledger.waiting_count(), 0);
    assert_eq!(ledger.available(), 0);
    assert_eq!(ledger.release(20), Release::Idle);
    assert_eq!(ledger.available(), 1);
    assert_eq!(order, ["first granted", "first released", "second granted"]);
}

#[test]
fn callers_beyond_the_size_wait_and_are_served_first_come_first() {
    let mut ledger = PoolLedger::new(2);
    assert_eq!(ledger.acquire(1), Admission::Granted);
    assert_eq!(ledger.acquire(2), Admission::Granted);
    assert_eq!(ledger.acquire(3), Admission::Suspended);
    assert_eq!(ledger.acquire(4), Admission::Suspended);
    assert_eq!(ledger.acquire(5), Admission::Suspended);
    assert_eq!(ledger.borrowed_count(), 2);
    assert_eq!(ledger.waiting_count(), 3);
    assert_eq!(ledger.release(2), Release::HandedTo(3));
    assert!(ledger.holds(1) && ledger.holds(3));
    assert!(!ledger.holds(4) && !ledger.holds(5));
    assert!(ledger.is_waiting(4) && ledger.is_waiting(5));
    assert_eq!(ledger.borrowed_count(), 2);
    assert_eq!(ledger.release(1), Release::HandedTo(4));
    assert_eq!(ledger.release(3), Release::HandedTo(5));
    assert_eq!(ledger.release(4), Release::Idle);
    assert_eq!(ledger.release(5), Release::Idle);
    assert_eq!(ledger.available(), 2);
}

#[test]
fn a_connection_is_handed_out_once() {
    let mut ledger = PoolLedger::new(1);
    assert_eq!(ledger.acquire(1), Admission::Granted);
    assert_eq!(ledger.acquire(2), Admission::Suspended);
    assert_eq!(ledger.acquire(3), Admission::Suspended);
    assert_eq!(ledger.release(1), Release::HandedTo(2));
    assert_eq!(ledger.release(1), Release::NotHeld);
    assert_eq!(ledger.borrowed_count(), 1);
    assert!(ledger.holds(2));
    assert!(ledger.is_waiting(3));
    assert!(!ledger.holds(3));
}

#[test]
fn a_known_ticket_is_refused() {
    let mut ledger = PoolLedger::new(1);
    assert_eq!(ledger.acquire(1), Admission::Granted);
    assert_eq!(ledger.acquire(1), Admission::Refused);
    assert_eq!(ledger.acquire(2), Admission::Suspended);
    assert_eq!(ledger.acquire(2), Admission::Refused);
    assert_eq!(ledger.borrowed_count(), 1);
    assert_eq!(ledger.waiting_count(), 1);
}

#[test]
fn giving_back_what_is_not_held_changes_nothing() {
    let mut ledger = PoolLedger::new(2);
    assert_eq!(ledger.release(9), Release::NotHeld);
    assert_eq!(ledger.acquire(1), Admission::Granted);
    assert_eq!(ledger.release(9), Release::NotHeld);
    assert_eq!(ledger.available(), 1);
    assert!(ledger.holds(1));
}

#[test]
fn a_caller_that_gives_up_waiting_is_passed_over() {
    let mut ledger = PoolLedger::new(1);
    assert_eq!(ledger.acquire(1), Admission::Granted);
    assert_eq!(ledger.acquire(2), Admission::Suspended);
    assert_eq!(ledger.acquire(3), Admission::Suspended);
    assert!(ledger.withdraw(2));
    assert!(!ledger.withdraw(2));
    assert!(!ledger.withdraw(1));
    assert!(!ledger.is_waiting(2));
    assert_eq!(ledger.release(1), Release::HandedTo(3));
    assert!(ledger.holds(3));
}

#[test]
fn a_pool_without_connections_lets_everyone_wait() {
    let mut ledger = PoolLedger::new(0);
    assert_eq!(ledger.acquire(1), Admission::Suspended);
    assert_eq!(ledger.acquire(2), Admission::Suspended);
    assert_eq!(ledger.available(), 0);
    assert_eq!(ledger.release(1), Release::NotHeld);
    assert_eq!(ledger.waiting_count(), 2);
}

#[test]
fn queries_that_fail_and_succeed_in_turn_leave_the_pool_full() {
    let mut ledger = PoolLedger::new(3);
    assert_eq!(ledger.acquire(1000), Admission::Granted);
    for ticket in 0..50u64 {
        assert_eq!(ledger.acquire(ticket), Admission::Granted);
        assert_eq!(ledger.available(), 1);
        let query_failed = ticket % 2 == 0;
        let outcome = ledger.release(ticket);
        assert_eq!(outcome, Release::Idle, "failed: {}", query_failed);
        assert_eq!(ledger.available(), ledger.max_size() - ledger.borrowed_count());
        assert_eq!(ledger.available(), 2);
    }
    assert_eq!(ledger.release(1000), Release::Idle);
    assert_eq!(ledger.available(), 3);
}

#[test]
fn a_ticket_may_come_back_after_it_left() {
    let mut ledger = PoolLedger::new(1);
    assert_eq!(ledger.acquire(7), Admission::Granted);
    assert_eq!(ledger.release(7), Release::Idle);
    assert_eq!(ledger.acquire(7), Admission::Granted);
    assert!(ledger.holds(7));
}
