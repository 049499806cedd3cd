//! Abuse-guard scenarios: churn-triggered blocking, block expiry at the
//! documented boundary, window resets, and churn bookkeeping.

use peer_registry::guard::{AbuseGuard, Verdict};

/// Crossing the distinct-identifier limit blocks the address: with a
/// limit of 2, the third distinct identifier inside the window trips
/// the block, and every evaluation for the next 60 time units is
/// rejected, from any identifier; at exactly 60 units after the trip
/// the address is allowed again (the boundary instant is allowed).
#[test]
fn churn_threshold_blocks_for_duration() {
    let mut g = AbuseGuard::new(2, 100);
    let addr = String::from("10.0.0.1");

    assert_eq!(g.evaluate(&addr, &String::from("id-1"), 1000), Verdict::Allow);
    assert_eq!(g.evaluate(&addr, &String::from("id-2"), 1001), Verdict::Allow);
    // third distinct identifier: over the limit, blocked at 1002
    assert_eq!(g.evaluate(&addr, &String::from("id-3"), 1002), Verdict::Reject);

    // rejected from any identifier while the block lasts
    assert_eq!(g.evaluate(&addr, &String::from("id-1"), 1002), Verdict::Reject);
    assert_eq!(g.evaluate(&addr, &String::from("id-9"), 1030), Verdict::Reject);
    assert_eq!(g.evaluate(&addr, &String::from("id-1"), 1061), Verdict::Reject);
    // exactly 60 units after the trip: allowed again
    assert_eq!(g.evaluate(&addr, &String::from("id-1"), 1062), Verdict::Allow);
}

/// Repeated registrations of the same identifier do not count as churn:
/// the distinct-identifier set does not grow, so a roaming peer
/// re-registering often stays allowed.
#[test]
fn same_identifier_is_not_churn() {
    let mut g = AbuseGuard::new(2, 100);
    let addr = String::from("10.0.0.2");
    let id = String::from("roamer");
    for t in 0..20u64 {
        assert_eq!(g.evaluate(&addr, &id, t), Verdict::Allow);
    }
}

/// Crossing the attempt limit blocks the address even for one
/// identifier.
#[test]
fn attempt_limit_blocks() {
    let mut g = AbuseGuard::new(100, 3);
    let addr = String::from("10.0.0.3");
    let id = String::from("busy");
    assert_eq!(g.evaluate(&addr, &id, 1), Verdict::Allow);
    assert_eq!(g.evaluate(&addr, &id, 2), Verdict::Allow);
    assert_eq!(g.evaluate(&addr, &id, 3), Verdict::Allow);
    // fourth attempt inside the window crosses the limit of 3
    assert_eq!(g.evaluate(&addr, &id, 4), Verdict::Reject);
    assert_eq!(g.evaluate(&addr, &id, 5), Verdict::Reject);
}

/// Once the churn window has elapsed the counts reset: identifiers
/// seen more than `IP_CHANGE_DUR` ago no longer weigh against the
/// address.
#[test]
fn window_reset_clears_counts() {
    let mut g = AbuseGuard::new(2, 100);
    let addr = String::from("10.0.0.4");
    assert_eq!(g.evaluate(&addr, &String::from("a"), 0), Verdict::Allow);
    assert_eq!(g.evaluate(&addr, &String::from("b"), 1), Verdict::Allow);
    // 181 units later the window is stale; two fresh identifiers fit again
    assert_eq!(g.evaluate(&addr, &String::from("c"), 182), Verdict::Allow);
    assert_eq!(g.evaluate(&addr, &String::from("d"), 183), Verdict::Allow);
}

/// Addresses are independent: blocking one does not touch another.
#[test]
fn addresses_are_independent() {
    let mut g = AbuseGuard::new(1, 100);
    let bad = String::from("203.0.113.9");
    let good = String::from("203.0.113.10");
    assert_eq!(g.evaluate(&bad, &String::from("x"), 1), Verdict::Allow);
    assert_eq!(g.evaluate(&bad, &String::from("y"), 2), Verdict::Reject);
    assert_eq!(g.evaluate(&good, &String::from("z"), 3), Verdict::Allow);
}

/// `record` keeps churn bookkeeping without ever rejecting, and state
/// untouched for a day reads as stale and evictable.
#[test]
fn record_and_staleness() {
    let mut g = AbuseGuard::new(2, 100);
    let addr = String::from("10.0.0.5");
    g.record(&addr, &String::from("id-1"), 50);
    g.record(&addr, &String::from("id-1"), 60);
    g.record(&addr, &String::from("id-2"), 70);
    assert!(!g.is_stale(&addr, 80));
    // a day after the last touch the whole entry is stale
    assert!(g.is_stale(&addr, 70 + 86400 + 1));
    // an address never seen is trivially stale
    assert!(g.is_stale(&String::from("10.0.0.6"), 80));
}
