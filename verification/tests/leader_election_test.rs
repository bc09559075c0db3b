//! Only one of several replicas acts as leader at a time.

use std::sync::atomic::{AtomicBool, Ordering};
use std::sync::Arc;

/// Simulates leader election behavior:
/// Only one of N replicas should be the leader at any given time.
#[test]
fn test_only_one_leader_at_a_time() {
    let replica_1_is_leader = Arc::new(AtomicBool::new(false));
    let replica_2_is_leader = Arc::new(AtomicBool::new(false));

    // Simulate replica 1 acquiring leadership
    replica_1_is_leader.store(true, Ordering::SeqCst);

    assert!(replica_1_is_leader.load(Ordering::SeqCst));
    assert!(!replica_2_is_leader.load(Ordering::SeqCst));

    // Simulate leadership transfer (replica 1 loses, replica 2 gains)
    replica_1_is_leader.store(false, Ordering::SeqCst);
    replica_2_is_leader.store(true, Ordering::SeqCst);

    assert!(!replica_1_is_leader.load(Ordering::SeqCst));
    assert!(replica_2_is_leader.load(Ordering::SeqCst));
}

/// Test that non-leader replicas do not process reconciliation.
/// The reconcile function checks `is_leader` and returns early if false.
#[test]
fn test_non_leader_skips_reconciliation() {
    let is_leader = Arc::new(AtomicBool::new(false));

    let should_reconcile = is_leader.load(Ordering::Relaxed);
    assert!(!should_reconcile, "Non-leader should not reconcile");

    is_leader.store(true, Ordering::SeqCst);
    let should_reconcile = is_leader.load(Ordering::Relaxed);
    assert!(should_reconcile, "Leader should reconcile");
}

/// Test that leader status transitions are atomic and consistent
#[test]
fn test_leader_status_transitions() {
    let is_leader = Arc::new(AtomicBool::new(false));

    assert!(!is_leader.load(Ordering::SeqCst));

    let was_leader = is_leader.swap(true, Ordering::SeqCst);
    assert!(!was_leader, "Should not have been leader before");
    assert!(is_leader.load(Ordering::SeqCst));

    // Simulate lease expiry
    let was_leader = is_leader.swap(false, Ordering::SeqCst);
    assert!(was_leader, "Should have been leader before losing it");
    assert!(!is_leader.load(Ordering::SeqCst));
}

/// The /health endpoint does NOT check leader status — it always returns healthy.
/// Non-leaders must pass liveness probes to stay ready for failover.
#[test]
fn test_non_leader_health_check_returns_200() {
    let is_leader = Arc::new(AtomicBool::new(false));

    let health_status = "healthy";
    assert_eq!(health_status, "healthy");

    assert!(!is_leader.load(Ordering::SeqCst));
}
