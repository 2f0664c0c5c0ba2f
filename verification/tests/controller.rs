use mqagent::controller::{endpoint, Backoff, ControllerError, WHOLE};
use mqagent::duration::Duration;

#[test]
fn endpoints_are_built_without_doubled_slashes() {
    for base in ["https://c.example.net", "https://c.example.net/"] {
        assert_eq!(
            endpoint(base, "agents/register"),
            "https://c.example.net/api/v1/agents/register"
        );
        assert_eq!(
            endpoint(base, "/agents/register"),
            "https://c.example.net/api/v1/agents/register"
        );
    }
}

#[test]
fn transport_and_server_errors_are_retryable() {
    assert!(ControllerError::Transport("reset".into()).is_retryable());
    assert!(ControllerError::Http { status: 503, body: String::new() }.is_retryable());
    assert!(ControllerError::Http { status: 429, body: String::new() }.is_retryable());
}

#[test]
fn client_errors_are_not_retried() {
    // Retrying a rejected token forever just hammers the controller with
    // requests that can never succeed.
    assert!(!ControllerError::Unauthorized.is_retryable());
    assert!(!ControllerError::Http { status: 400, body: String::new() }.is_retryable());
    assert!(!ControllerError::Decode("bad json".into()).is_retryable());
}

#[test]
fn only_unauthorized_triggers_reregistration() {
    assert!(ControllerError::Unauthorized.needs_reregistration());
    assert!(!ControllerError::Transport("x".into()).needs_reregistration());
    assert!(!ControllerError::Http { status: 500, body: String::new() }.needs_reregistration());
}

#[test]
fn backoff_grows_and_is_capped() {
    let mut b = Backoff::new(Duration::from_secs(1), Duration::from_secs(60));
    // A draw of the whole gives the top of the jitter window, i.e. the ceiling.
    let delays: Vec<u128> =
        (0..10).map(|_| b.next_delay(WHOLE).as_secs()).collect();

    assert_eq!(&delays[..4], &[1, 2, 4, 8]);
    assert!(delays.iter().all(|d| *d <= 60), "must never exceed the cap: {delays:?}");
    assert_eq!(delays[9], 60, "should be pinned at the cap by then");
}

#[test]
fn backoff_does_not_overflow_after_many_failures() {
    // A multi-day outage must not shift the exponent past the type width
    // and collapse the delay back to zero.
    let mut b = Backoff::new(Duration::from_secs(1), Duration::from_secs(300));
    for _ in 0..10_000 {
        b.next_delay(WHOLE);
    }
    let d = b.next_delay(WHOLE);
    assert_eq!(d, Duration::from_secs(300), "stays pinned at the cap, got {d:?}");
}

#[test]
fn full_jitter_spreads_retries_across_the_window() {
    // The point of jitter: a recovering fleet must not arrive together.
    let mut b = Backoff::new(Duration::from_secs(1), Duration::from_secs(64));
    for _ in 0..6 {
        b.next_delay(WHOLE / 2);
    }

    let mut low = Backoff::new(Duration::from_secs(1), Duration::from_secs(64));
    for _ in 0..6 {
        low.next_delay(0);
    }
    let small = low.next_delay(0);
    let large = b.next_delay(WHOLE);
    assert!(small < large, "different draws must produce different delays");
}

#[test]
fn backoff_never_returns_zero() {
    // Otherwise a draw of 0 becomes a busy-wait against a controller
    // that is already in trouble.
    let mut b = Backoff::new(Duration::from_millis(500), Duration::from_secs(60));
    for _ in 0..20 {
        assert!(b.next_delay(0) > Duration::default());
    }
}

#[test]
fn reset_returns_to_the_base_delay() {
    let mut b = Backoff::new(Duration::from_secs(1), Duration::from_secs(60));
    for _ in 0..5 {
        b.next_delay(WHOLE);
    }
    assert!(b.attempt() > 0);
    b.reset();
    assert_eq!(b.attempt(), 0);
    assert_eq!(b.next_delay(WHOLE), Duration::from_secs(1));
}

