use trast::dispatch::{Action, Dispatcher, Event, Phase};

#[test]
fn first_request_starts_one_load() {
    let mut d = Dispatcher::new();
    assert_eq!(d.phase(), Phase::Absent);
    let actions = d.step(Event::Arrive { req: 1 });
    assert_eq!(actions, vec![Action::StartLoad]);
    assert_eq!(d.phase(), Phase::Loading);
    assert_eq!(d.pending_count(), 1);
}

#[test]
fn concurrent_requests_share_one_load() {
    // Three requests arrive while the resource is absent: exactly one
    // construction starts, and on success all three are submitted, in
    // arrival order, each marked as a cold start.
    let mut d = Dispatcher::new();
    let a1 = d.step(Event::Arrive { req: 10 });
    let a2 = d.step(Event::Arrive { req: 11 });
    let a3 = d.step(Event::Arrive { req: 12 });
    assert_eq!(a1, vec![Action::StartLoad]);
    assert!(a2.is_empty());
    assert!(a3.is_empty());
    assert_eq!(d.pending_count(), 3);

    let outcome = d.step(Event::LoadDone { ok: true });
    assert_eq!(
        outcome,
        vec![
            Action::Submit { req: 10, task: 0, cold: true },
            Action::Submit { req: 11, task: 1, cold: true },
            Action::Submit { req: 12, task: 2, cold: true },
        ]
    );
    assert_eq!(d.phase(), Phase::Ready);
    assert_eq!(d.pending_count(), 0);
    assert_eq!(d.active_count(), 3);
}

#[test]
fn load_failure_rejects_all_waiters_and_is_not_cached() {
    let mut d = Dispatcher::new();
    d.step(Event::Arrive { req: 7 });
    d.step(Event::Arrive { req: 8 });
    let outcome = d.step(Event::LoadDone { ok: false });
    assert_eq!(outcome, vec![Action::Reject { req: 7 }, Action::Reject { req: 8 }]);
    assert_eq!(d.phase(), Phase::Absent);
    assert_eq!(d.active_count(), 0);

    // the failure is not cached: the next request retries construction
    let retry = d.step(Event::Arrive { req: 9 });
    assert_eq!(retry, vec![Action::StartLoad]);
    assert_eq!(d.phase(), Phase::Loading);
}

#[test]
fn warm_requests_submit_without_waiting() {
    let mut d = Dispatcher::new();
    d.step(Event::Arrive { req: 1 });
    d.step(Event::LoadDone { ok: true });
    let actions = d.step(Event::Arrive { req: 2 });
    assert_eq!(actions, vec![Action::Submit { req: 2, task: 1, cold: false }]);
    assert_eq!(d.active_count(), 2);
}

#[test]
fn idle_eviction_only_when_quiet_then_cold_start() {
    // Eviction happens only once all work has drained; the next request
    // then goes through a fresh construction.
    let mut d = Dispatcher::new();
    d.step(Event::Arrive { req: 1 });
    d.step(Event::LoadDone { ok: true });

    // work outstanding: the idle timer does nothing
    let nothing = d.step(Event::IdleExpired);
    assert!(nothing.is_empty());
    assert_eq!(d.phase(), Phase::Ready);

    let none = d.step(Event::TaskDone { task: 0 });
    assert!(none.is_empty());
    assert_eq!(d.active_count(), 0);

    // quiet now: the idle timer evicts
    let evicted = d.step(Event::IdleExpired);
    assert_eq!(evicted, vec![Action::Evict]);
    assert_eq!(d.phase(), Phase::Absent);

    // the next request triggers a fresh loading cycle, cold
    let actions = d.step(Event::Arrive { req: 2 });
    assert_eq!(actions, vec![Action::StartLoad]);
    let outcome = d.step(Event::LoadDone { ok: true });
    assert_eq!(outcome, vec![Action::Submit { req: 2, task: 1, cold: true }]);
}

#[test]
fn idle_timer_noop_while_absent() {
    let mut d = Dispatcher::new();
    let actions = d.step(Event::IdleExpired);
    assert!(actions.is_empty());
    assert_eq!(d.phase(), Phase::Absent);
}

#[test]
fn active_membership_is_observable() {
    let mut d = Dispatcher::new();
    assert!(d.can_step());
    d.step(Event::Arrive { req: 1 });
    d.step(Event::LoadDone { ok: true });
    assert!(d.is_active(0));
    assert!(!d.is_active(5));
    d.step(Event::TaskDone { task: 0 });
    assert!(!d.is_active(0));
}

#[test]
fn task_completions_drain_in_any_order() {
    let mut d = Dispatcher::new();
    d.step(Event::Arrive { req: 1 });
    d.step(Event::LoadDone { ok: true });
    d.step(Event::Arrive { req: 2 });
    d.step(Event::Arrive { req: 3 });
    assert_eq!(d.active_count(), 3);
    d.step(Event::TaskDone { task: 1 });
    d.step(Event::TaskDone { task: 0 });
    d.step(Event::TaskDone { task: 2 });
    assert_eq!(d.active_count(), 0);
}
