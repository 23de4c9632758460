use streaming_engine::inflight::{
    settle_waiter, CoalesceError, CoalesceResult, InflightGuard, InflightTracker, JoinStep,
    Published, FAILURE_TTL,
};

fn leader(step: JoinStep) -> InflightGuard {
    match step {
        JoinStep::Settled(CoalesceResult::Leader(g)) => g,
        other => panic!("expected Leader, got {other:?}"),
    }
}

fn waits(step: JoinStep) -> u64 {
    match step {
        JoinStep::Wait(t) => t,
        other => panic!("expected Wait, got {other:?}"),
    }
}

fn fails(step: JoinStep) -> String {
    match step {
        JoinStep::Settled(CoalesceResult::Failed(e)) => e.describe(),
        other => panic!("expected Failed, got {other:?}"),
    }
}

/// What a waiter for `ticket` is told.
fn told(p: &Published, ticket: u64) -> Option<Result<(), String>> {
    assert_eq!(p.ticket, ticket);
    p.outcome.as_ref().map(|r| match r {
        Ok(()) => Ok(()),
        Err(e) => Err(e.describe()),
    })
}

#[test]
fn leader_completes_and_entry_is_cleaned_up() {
    let mut tracker = InflightTracker::new();
    let guard = leader(tracker.try_join("k", 0));
    guard.complete(&mut tracker);
    let guard = leader(tracker.try_join("k", 1));
    guard.complete(&mut tracker);
}

#[test]
fn different_keys_get_independent_leaders() {
    let mut tracker = InflightTracker::default();
    let a = leader(tracker.try_join("a", 0));
    let b = leader(tracker.try_join("b", 0));
    a.complete(&mut tracker);
    waits(tracker.try_join("b", 0));
    b.complete(&mut tracker);
}

#[test]
fn failure_cache_blocks_retries_within_ttl() {
    let mut tracker = InflightTracker::new();
    let guard = leader(tracker.try_join("bad", 5));
    guard.fail(&mut tracker, "corrupt source".to_string(), 10);
    assert_eq!(fails(tracker.try_join("bad", 10)), "corrupt source");
    assert_eq!(fails(tracker.try_join("bad", 9 + FAILURE_TTL)), "corrupt source");
}

#[test]
fn failure_cache_is_scoped_to_key() {
    let mut tracker = InflightTracker::new();
    let guard = leader(tracker.try_join("bad", 0));
    guard.fail(&mut tracker, "broken".to_string(), 0);
    let good = leader(tracker.try_join("good", 0));
    good.complete(&mut tracker);
    assert_eq!(fails(tracker.try_join("bad", 0)), "broken");
}

#[test]
fn failure_cache_expires_after_ttl() {
    let mut tracker = InflightTracker::new();
    let guard = leader(tracker.try_join("exp", 0));
    guard.fail(&mut tracker, "old".to_string(), 0);
    assert_eq!(fails(tracker.try_join("exp", 0)), "old");
    let guard = leader(tracker.try_join("exp", FAILURE_TTL));
    guard.complete(&mut tracker);
    let guard = leader(tracker.try_join("exp", 0));
    guard.cancel(&mut tracker);
}

#[test]
fn a_clock_that_goes_back_still_remembers() {
    let mut tracker = InflightTracker::new();
    let guard = leader(tracker.try_join("k", 100));
    guard.fail(&mut tracker, "e".to_string(), 100);
    assert_eq!(fails(tracker.try_join("k", 50)), "e");
}

#[test]
fn waiter_receives_leader_success() {
    let mut tracker = InflightTracker::new();
    let guard = leader(tracker.try_join("s", 0));
    let ticket = waits(tracker.try_join("s", 0));
    assert_eq!(ticket, guard.ticket());
    let published = guard.complete(&mut tracker);
    assert_eq!(told(&published, ticket), Some(Ok(())));
    match settle_waiter(published.outcome) {
        Some(CoalesceResult::Waiter(Ok(()))) => {}
        _ => panic!("waiter should have received Ok"),
    }
}

#[test]
fn waiter_receives_leader_failure() {
    let mut tracker = InflightTracker::new();
    let guard = leader(tracker.try_join("f", 0));
    let ticket = waits(tracker.try_join("f", 0));
    let published = guard.fail(&mut tracker, "ffmpeg crashed".to_string(), 0);
    assert_eq!(published.ticket, ticket);
    match settle_waiter(published.outcome) {
        Some(CoalesceResult::Waiter(Err(e))) => assert_eq!(e.describe(), "ffmpeg crashed"),
        _ => panic!("waiter should have received Err"),
    }
}

#[test]
fn ten_waiters_all_notified_on_leader_complete() {
    let mut tracker = InflightTracker::new();
    let guard = leader(tracker.try_join("m", 0));
    let tickets: Vec<u64> = (0..10).map(|_| waits(tracker.try_join("m", 0))).collect();
    let published = guard.complete(&mut tracker);
    for ticket in tickets {
        assert_eq!(told(&published, ticket), Some(Ok(())));
    }
}

#[test]
fn cancelled_leader_cleans_up_without_failure_entry() {
    let mut tracker = InflightTracker::new();
    let guard = leader(tracker.try_join("c", 0));
    let published = guard.cancel(&mut tracker);
    assert!(published.outcome.is_none());
    let guard = leader(tracker.try_join("c", 0));
    guard.complete(&mut tracker);
}

#[test]
fn aborted_task_cleans_up_via_drop() {
    let mut tracker = InflightTracker::new();
    let guard = leader(tracker.try_join("abort", 0));
    guard.cancel(&mut tracker);
    let guard = leader(tracker.try_join("abort", 1));
    guard.complete(&mut tracker);
}

#[test]
fn waiter_promoted_to_leader_after_cancellation() {
    let mut tracker = InflightTracker::new();
    let guard = leader(tracker.try_join("p", 0));
    let ticket = waits(tracker.try_join("p", 0));
    let published = guard.cancel(&mut tracker);
    assert_eq!(told(&published, ticket), None);
    assert!(settle_waiter(published.outcome).is_none());
    let promoted = leader(tracker.try_join("p", 0));
    assert_ne!(promoted.ticket(), ticket);
    promoted.complete(&mut tracker);
}

#[test]
fn ten_waiters_after_cancel_all_resolve() {
    let mut tracker = InflightTracker::new();
    let guard = leader(tracker.try_join("tc", 0));
    for _ in 0..10 {
        waits(tracker.try_join("tc", 0));
    }
    guard.cancel(&mut tracker);
    let promoted = leader(tracker.try_join("tc", 0));
    let tickets: Vec<u64> = (1..10).map(|_| waits(tracker.try_join("tc", 0))).collect();
    let published = promoted.complete(&mut tracker);
    let resolved = tickets.iter().filter(|t| told(&published, **t) == Some(Ok(()))).count();
    assert_eq!(resolved + 1, 10);
}

#[test]
fn twenty_concurrent_tasks_coalesce_behind_one_leader() {
    let mut tracker = InflightTracker::new();
    let guard = leader(tracker.try_join("race", 0));
    let tickets: Vec<u64> = (0..20).map(|_| waits(tracker.try_join("race", 0))).collect();
    let published = guard.complete(&mut tracker);
    let resolved = tickets.iter().filter(|t| told(&published, **t) == Some(Ok(()))).count();
    assert_eq!(resolved, 20);
}

#[test]
fn one_of_twenty_leads() {
    let mut tracker = InflightTracker::new();
    let mut leaders = 0;
    for _ in 0..20 {
        match tracker.try_join("race", 0) {
            JoinStep::Settled(CoalesceResult::Leader(_)) => leaders += 1,
            JoinStep::Wait(_) => {}
            other => panic!("unexpected: {other:?}"),
        }
    }
    assert_eq!(leaders, 1);
}

#[test]
fn no_hang_when_leader_completes_before_waiter_arrives() {
    let mut tracker = InflightTracker::new();
    let guard = leader(tracker.try_join("late", 0));
    guard.complete(&mut tracker);
    leader(tracker.try_join("late", 0));
}

#[test]
fn stale_guard_drop_does_not_remove_successor_entry() {
    let mut tracker = InflightTracker::new();
    let mut other = InflightTracker::new();
    let stale = leader(other.try_join("seq", 0));
    let guard1 = leader(tracker.try_join("seq", 0));
    guard1.complete(&mut tracker);
    let guard2 = leader(tracker.try_join("seq", 0));
    assert_ne!(stale.ticket(), guard2.ticket());
    stale.cancel(&mut tracker);
    assert_eq!(waits(tracker.try_join("seq", 0)), guard2.ticket());
}

#[test]
fn cancel_then_fail_then_failure_cache() {
    let mut tracker = InflightTracker::new();
    let guard = leader(tracker.try_join("chain", 0));
    guard.cancel(&mut tracker);
    let guard = leader(tracker.try_join("chain", 0));
    guard.fail(&mut tracker, "corrupt mp3".to_string(), 0);
    assert_eq!(fails(tracker.try_join("chain", 0)), "corrupt mp3");
}

#[test]
fn results_are_described() {
    let mut tracker = InflightTracker::new();
    let guard = leader(tracker.try_join("d", 0));
    assert_eq!(tracker.issued(), 1);
    assert_eq!(CoalesceResult::Leader(guard).describe(), "Leader(...)");
    assert_eq!(CoalesceResult::Waiter(Ok(())).describe(), "Waiter(Ok)");
    let error = || CoalesceError { inner: "e".to_string() };
    assert_eq!(CoalesceResult::Waiter(Err(error())).describe(), "Waiter(Err(e))");
    assert_eq!(CoalesceResult::Failed(error()).describe(), "Failed(e)");
}

#[test]
fn every_waiter_settles_with_the_failure_of_its_leader() {
    let mut tracker = InflightTracker::new();
    let guard = leader(tracker.try_join("n", 0));
    let tickets: Vec<u64> = (0..5).map(|_| waits(tracker.try_join("n", 0))).collect();
    let published = guard.fail(&mut tracker, "boom".to_string(), 1);
    for ticket in tickets {
        assert_eq!(ticket, published.ticket);
        match settle_waiter(published.outcome.clone()) {
            Some(CoalesceResult::Waiter(Err(e))) => assert_eq!(e.describe(), "boom"),
            other => panic!("unexpected: {other:?}"),
        }
    }
}
