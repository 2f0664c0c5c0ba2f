use mqagent::duration::{Duration, Instant};
use mqagent::json::Json;
use mqagent::tasks::plan::{Kind, Peer, Plan, Role, Task, REASON_EXPIRED};

fn task(id: &str, recurring: bool, interval_s: u64) -> Task {
    Task {
        task_id: id.to_string(),
        session_id: 0xCAFE,
        kind: if recurring { Kind::MqpProbe } else { Kind::PathTrace },
        role: Role::Sender,
        peer: Some(Peer {
            agent_id: "peer".into(),
            name: "probe-a".into(),
            address: "172.16.220.138".into(),
            probe_port: 5401,
        }),
        params: Json::object(),
        recurring,
        interval: Some(Duration::from_secs(interval_s)),
    }
}

fn plan() -> (Plan, Instant) {
    (Plan::new(Duration::from_secs(60)), Instant { nanos: 5_000_000_000 })
}

#[test]
fn empty_plan_has_nothing_due() {
    let (mut p, t0) = plan();
    assert!(p.is_empty());
    assert!(p.next_due(t0).is_none());
    assert!(p.time_until_due(t0).is_none());
}

#[test]
fn recurring_task_fires_immediately_then_on_its_interval() {
    let (mut p, t0) = plan();
    p.accept(task("r1", true, 10), None, t0);

    assert_eq!(p.next_due(t0).unwrap().task_id, "r1");
    assert!(p.next_due(t0).is_none(), "must not fire twice in one instant");
    assert!(p.next_due(t0.after(Duration::from_secs(9))).is_none());
    assert_eq!(p.next_due(t0.after(Duration::from_secs(10))).unwrap().task_id, "r1");
}

#[test]
fn recurring_work_keeps_firing_with_no_controller_contact() {
    // The core requirement: measurement continues through an outage.
    let (mut p, t0) = plan();
    p.accept(task("r1", true, 10), None, t0);

    let mut fired = 0;
    for i in 0..100 {
        if p.next_due(t0.after(Duration::from_secs(i * 10))).is_some() {
            fired += 1;
        }
    }
    assert_eq!(fired, 100, "cached plan must run indefinitely while offline");
}

#[test]
fn refreshing_an_assignment_does_not_reset_its_schedule() {
    // An agent polling every 10s for a task measured every 60s would never
    // fire if each poll pushed the due time back.
    let (mut p, t0) = plan();
    p.accept(task("r1", true, 60), None, t0);
    assert!(p.next_due(t0).is_some());

    for i in 1..6 {
        p.accept(task("r1", true, 60), None, t0.after(Duration::from_secs(i * 10)));
    }
    assert_eq!(p.recurring_len(), 1, "refresh must update in place, not duplicate");
    assert_eq!(
        p.next_due(t0.after(Duration::from_secs(60))).unwrap().task_id,
        "r1",
        "schedule survived repeated refreshes"
    );
}

#[test]
fn cadence_does_not_drift_after_a_slow_run() {
    let (mut p, t0) = plan();
    p.accept(task("r1", true, 10), None, t0);
    p.next_due(t0);

    // Fires 2s late; the next one should still land on the original grid
    // at t+20, not at t+22.
    assert!(p.next_due(t0.after(Duration::from_secs(12))).is_some());
    assert!(p.next_due(t0.after(Duration::from_secs(20))).is_some());
}

#[test]
fn a_long_stall_skips_ahead_instead_of_bursting() {
    // After a 10-minute stall a catch-up burst would measure our own
    // backlog rather than the network.
    let (mut p, t0) = plan();
    p.accept(task("r1", true, 10), None, t0);
    p.next_due(t0);

    let late = t0.after(Duration::from_secs(600));
    assert!(p.next_due(late).is_some(), "one run at the stall");
    assert!(p.next_due(late).is_none(), "but not a burst of the 60 missed ones");
}

#[test]
fn one_shot_runs_once_and_is_gone() {
    let (mut p, t0) = plan();
    p.accept(task("o1", false, 0), Some(Duration::from_secs(300)), t0);

    assert_eq!(p.next_due(t0).unwrap().task_id, "o1");
    assert!(p.next_due(t0).is_none());
    assert_eq!(p.oneshot_len(), 0);
}

#[test]
fn expired_one_shot_is_reported_skipped_rather_than_run() {
    // A traceroute executed hours late answers a question nobody is still
    // asking, about a moment that has passed.
    let (mut p, t0) = plan();
    p.accept(task("o1", false, 0), Some(Duration::from_secs(300)), t0);

    let later = t0.after(Duration::from_secs(301));
    let reaped = p.reap_expired(later);
    assert_eq!(reaped.len(), 1);
    assert_eq!(reaped[0].task.task_id, "o1");
    assert_eq!(reaped[0].reason, REASON_EXPIRED);

    assert!(p.next_due(later).is_none(), "must not run after being reaped");
}

#[test]
fn unexpired_one_shot_survives_reaping() {
    let (mut p, t0) = plan();
    p.accept(task("o1", false, 0), Some(Duration::from_secs(300)), t0);
    assert!(p.reap_expired(t0.after(Duration::from_secs(299))).is_empty());
    assert_eq!(p.oneshot_len(), 1);
}

#[test]
fn recurring_work_never_expires() {
    // Continuous work is cached precisely so an outage cannot stop it.
    let (mut p, t0) = plan();
    p.accept(task("r1", true, 10), Some(Duration::from_secs(1)), t0);

    let much_later = t0.after(Duration::from_secs(86_400));
    assert!(p.reap_expired(much_later).is_empty());
    assert!(p.next_due(much_later).is_some());
}

#[test]
fn one_shots_take_priority_over_recurring_work() {
    // Someone is actively waiting on a diagnostic; a probe that slips one
    // cycle is unremarkable.
    let (mut p, t0) = plan();
    p.accept(task("r1", true, 10), None, t0);
    p.accept(task("o1", false, 0), None, t0);

    assert_eq!(p.next_due(t0).unwrap().task_id, "o1");
    assert_eq!(p.next_due(t0).unwrap().task_id, "r1");
}

#[test]
fn duplicate_lease_of_a_one_shot_runs_it_only_once() {
    // Re-leasing after a lease expiry must not double-execute a diagnostic.
    let (mut p, t0) = plan();
    p.accept(task("o1", false, 0), None, t0);
    p.accept(task("o1", false, 0), None, t0);
    assert_eq!(p.oneshot_len(), 1);
}

#[test]
fn time_until_due_sizes_the_sleep() {
    let (mut p, t0) = plan();
    p.accept(task("r1", true, 30), None, t0);
    assert_eq!(p.time_until_due(t0), Some(Duration::default()));

    p.next_due(t0);
    assert_eq!(p.time_until_due(t0), Some(Duration::from_secs(30)));
    assert_eq!(p.time_until_due(t0.after(Duration::from_secs(10))), Some(Duration::from_secs(20)));
}

#[test]
fn a_pending_one_shot_makes_the_sleep_zero() {
    let (mut p, t0) = plan();
    p.accept(task("r1", true, 300), None, t0);
    p.next_due(t0);
    p.accept(task("o1", false, 0), None, t0);
    assert_eq!(p.time_until_due(t0), Some(Duration::default()));
}

#[test]
fn reconcile_drops_withdrawn_assignments_only() {
    let (mut p, t0) = plan();
    p.accept(task("r1", true, 10), None, t0);
    p.accept(task("r2", true, 10), None, t0);
    p.accept(task("r3", true, 10), None, t0);

    let removed = p.reconcile_recurring(&["r1".to_string(), "r3".to_string()]);
    assert_eq!(removed, 1);
    assert_eq!(p.recurring_len(), 2);
    assert!(p.remove("r1"));
    assert!(!p.remove("nope"));
}

#[test]
fn reconciling_against_nothing_clears_everything() {
    // Documents the hazard: this must only ever follow a *successful* poll.
    // Applying it to a failed poll's empty result would turn a controller
    // outage into a monitoring outage.
    let (mut p, t0) = plan();
    p.accept(task("r1", true, 10), None, t0);
    assert_eq!(p.reconcile_recurring(&[]), 1);
    assert_eq!(p.recurring_len(), 0);
}

#[test]
fn several_recurring_tasks_fire_oldest_due_first() {
    let (mut p, t0) = plan();
    p.accept(task("slow", true, 100), None, t0);
    p.accept(task("fast", true, 10), None, t0);

    // Both are due at t0; drain them.
    let mut first = vec![p.next_due(t0).unwrap().task_id, p.next_due(t0).unwrap().task_id];
    first.sort();
    assert_eq!(first, vec!["fast", "slow"]);

    // Only the fast one comes back inside the next 10 seconds.
    let t = t0.after(Duration::from_secs(10));
    assert_eq!(p.next_due(t).unwrap().task_id, "fast");
    assert!(p.next_due(t).is_none());
}

#[test]
fn interval_defaults_when_the_controller_omits_one() {
    let (mut p, t0) = plan(); // default 60s
    let mut t = task("r1", true, 0);
    t.interval = None;
    p.accept(t, None, t0);

    p.next_due(t0);
    assert!(p.next_due(t0.after(Duration::from_secs(59))).is_none());
    assert!(p.next_due(t0.after(Duration::from_secs(60))).is_some());
}
