use visit_once::bootstrap::{ensure_ready, SchemaState, MIGRATION_COUNT};
use visit_once::identity::identity_of_address;
use visit_once::outcome::Outcome;
use visit_once::recorder::VisitLog;

const DAY: u64 = 86400;

#[test]
fn first_visit_then_repeat() {
    let mut log = VisitLog::new();
    let id = identity_of_address("198.51.100.23");
    let o1 = log.record_visit(id.clone(), 1000);
    assert!(matches!(o1, Outcome::FirstVisitToday));
    let o2 = log.record_visit(id.clone(), 2000);
    assert!(matches!(o2, Outcome::AlreadyCounted));
    let o3 = log.record_visit(id, 50000);
    assert!(matches!(o3, Outcome::AlreadyCounted));
    assert_eq!(log.len(), 1);
}

#[test]
fn racing_attempts_yield_one_first_visit_and_one_row() {
    // Two attempts on the same fresh pair, serialized by the uniqueness
    // rule: exactly one wins, the loser sees no error, and no duplicate
    // row is persisted.
    let mut log = VisitLog::new();
    let id = identity_of_address("203.0.113.50");
    let winner = log.record_visit(id.clone(), 7 * DAY);
    let loser = log.record_visit(id, 7 * DAY + 1);
    assert!(matches!(winner, Outcome::FirstVisitToday));
    assert!(matches!(loser, Outcome::AlreadyCounted));
    assert!(!matches!(loser, Outcome::Failure(_)));
    assert_eq!(log.len(), 1);
}

#[test]
fn scenario_first_repeat_and_next_day() {
    // Identity hash("203.0.113.7"), day 2024-01-01 (index 19723):
    // call 1 is the first visit, call 2 the same day is already counted,
    // call 3 on 2024-01-02 is a first visit again.
    let h = identity_of_address("203.0.113.7");
    let jan1 = 19723 * DAY;
    let jan2 = 19724 * DAY;
    let mut log = VisitLog::new();

    let c1 = log.record_visit(h.clone(), jan1);
    assert!(matches!(c1, Outcome::FirstVisitToday));
    assert_eq!(log.len(), 1);

    let c2 = log.record_visit(h.clone(), jan1 + 12 * 3600);
    assert!(matches!(c2, Outcome::AlreadyCounted));
    assert_eq!(log.len(), 1);

    let c3 = log.record_visit(h, jan2);
    assert!(matches!(c3, Outcome::FirstVisitToday));
    assert_eq!(log.len(), 2);
}

#[test]
fn day_row_count_never_exceeds_distinct_identities() {
    // Three distinct identities visit on one day, several of them twice:
    // the rows for that day number exactly the distinct identities.
    let mut log = VisitLog::new();
    let addrs = ["203.0.113.1", "203.0.113.2", "203.0.113.3"];
    for addr in addrs {
        let o = log.record_visit(identity_of_address(addr), 42 * DAY);
        assert!(matches!(o, Outcome::FirstVisitToday));
    }
    for addr in addrs {
        let o = log.record_visit(identity_of_address(addr), 42 * DAY + 300);
        assert!(matches!(o, Outcome::AlreadyCounted));
    }
    assert_eq!(log.len(), addrs.len());
}

#[test]
fn distinct_identities_are_both_counted() {
    let mut log = VisitLog::new();
    let a = identity_of_address("203.0.113.1");
    let b = identity_of_address("203.0.113.2");
    assert!(matches!(log.record_visit(a, 0), Outcome::FirstVisitToday));
    assert!(matches!(log.record_visit(b, 0), Outcome::FirstVisitToday));
    assert_eq!(log.len(), 2);
}

#[test]
fn bootstrap_is_idempotent() {
    let fresh = SchemaState { exists: false, applied: 0 };
    let (s1, r1) = ensure_ready(fresh);
    assert!(r1.created);
    assert_eq!(r1.migrations_applied, MIGRATION_COUNT);
    assert!(s1.exists);
    assert_eq!(s1.applied, MIGRATION_COUNT);

    let (s2, r2) = ensure_ready(s1);
    assert!(!r2.created);
    assert_eq!(r2.migrations_applied, 0);
    assert_eq!(s2, s1);
}

#[test]
fn bootstrap_finishes_partial_migration() {
    let bare = SchemaState { exists: true, applied: 0 };
    let (s, r) = ensure_ready(bare);
    assert!(!r.created);
    assert_eq!(r.migrations_applied, MIGRATION_COUNT);
    assert!(s.exists);
    assert_eq!(s.applied, MIGRATION_COUNT);
}
