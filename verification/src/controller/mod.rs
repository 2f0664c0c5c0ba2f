//! The controller REST API, apart from the HTTP plumbing.
//!
//! Two behaviours here matter more than the plumbing.
//!
//! **Identity persists.** The controller-assigned `agent_id` and token are
//! written to the state directory, so a container restart re-registers as the
//! same agent rather than appearing as a new one and orphaning its history.
//!
//! **Reconnection is jittered.** When a controller comes back after an outage,
//! every agent in the fleet has been failing on the same cadence and is poised
//! to retry at the same moment. Un-jittered backoff would have them arrive
//! together and knock it over again.

use rand::Rng;

use vstd::prelude::*;
use vstd::string::StringExecFns;

use crate::duration::Duration;
use crate::text::{chars, push_decimal, trim_end_char, trim_start_char};

pub mod client;
pub mod laws;

verus! {

/// Persisted agent identity.
#[derive(Debug, Clone, PartialEq, Eq)]
pub struct Identity {
    pub agent_id: String,
    pub token: String,
    pub group: String,
}

#[derive(Debug, Clone, PartialEq, Eq)]
pub enum ControllerError {
    Transport(String),
    Unauthorized,
    Http { status: u16, body: String },
    Decode(String),
    State(String),
}

/// What an error says.
pub open spec fn error_message(e: ControllerError) -> Seq<char> {
    match e {
        ControllerError::Transport(s) => "transport error: "@ + s@,
        ControllerError::Unauthorized => "controller rejected our credentials"@,
        ControllerError::Http { status, body } => "controller returned "@ + crate::text::decimal(
            status as nat,
        ) + ": "@ + body@,
        ControllerError::Decode(s) => "could not parse controller response: "@ + s@,
        ControllerError::State(s) => "state directory error: "@ + s@,
    }
}

/// Retrying could plausibly succeed: the network may come back, and a 5xx or a
/// 429 is the controller's problem and may pass.
pub open spec fn retryable(e: ControllerError) -> bool {
    match e {
        ControllerError::Transport(_) => true,
        ControllerError::Http { status, .. } => status >= 500 || status == 429,
        _ => false,
    }
}

impl ControllerError {
    /// Whether retrying could plausibly succeed.
    ///
    /// The distinction drives the retry loop: a network blip should be retried
    /// forever, but a rejected token will never succeed and retrying it just
    /// hammers the controller with requests that cannot work.
    pub fn is_retryable(&self) -> (r: bool)
        ensures
            r == retryable(*self),
    {
        match self {
            ControllerError::Transport(_) => true,
            ControllerError::Http { status, .. } => *status >= 500 || *status == 429,
            ControllerError::Unauthorized => false,
            ControllerError::Decode(_) => false,
            ControllerError::State(_) => false,
        }
    }

    /// Whether this should make the agent re-enrol from scratch.
    pub fn needs_reregistration(&self) -> (r: bool)
        ensures
            r == (*self is Unauthorized),
    {
        match self {
            ControllerError::Unauthorized => true,
            _ => false,
        }
    }

    pub fn message(&self) -> (r: String)
        ensures
            r@ == error_message(*self),
    {
        match self {
            ControllerError::Transport(s) => {
                let mut t = "transport error: ".to_owned();
                t.append(s.as_str());
                t
            },
            ControllerError::Unauthorized => "controller rejected our credentials".to_owned(),
            ControllerError::Http { status, body } => {
                let mut t = "controller returned ".to_owned();
                push_decimal(&mut t, *status as u128);
                t.append(": ");
                t.append(body.as_str());
                t
            },
            ControllerError::Decode(s) => {
                let mut t = "could not parse controller response: ".to_owned();
                t.append(s.as_str());
                t
            },
            ControllerError::State(s) => {
                let mut t = "state directory error: ".to_owned();
                t.append(s.as_str());
                t
            },
        }
    }
}

/// One, in the billionths that a share of the backoff window is given in.
pub const WHOLE: u32 = 1_000_000_000;

/// The exponent stops here: past it the window has long met its limit.
pub const MAX_DOUBLINGS: u32 = 20;

/// Exponential backoff with full jitter, bounded.
///
/// Full jitter (a uniform draw over the window) rather than a fixed multiplier:
/// it spreads a recovering fleet across the whole window instead of merely
/// delaying the stampede.
#[derive(Debug, Clone, Copy, PartialEq, Eq, Structural)]
pub struct Backoff {
    pub base: Duration,
    pub max: Duration,
    pub attempts: u32,
}

/// Two to the power `n`.
pub open spec fn doublings(n: nat) -> nat
    decreases n,
{
    if n == 0 {
        1
    } else {
        2 * doublings((n - 1) as nat)
    }
}

/// The end of the window after so many failed attempts: the base doubled for
/// each, up to the limit.
pub open spec fn window(b: Backoff) -> nat {
    let n = if b.attempts <= MAX_DOUBLINGS {
        b.attempts
    } else {
        MAX_DOUBLINGS
    };
    let grown = b.base.nanos as nat * doublings(n as nat);
    if grown <= b.max.nanos {
        grown
    } else {
        b.max.nanos as nat
    }
}

/// The delay that a draw of `unit` billionths gives: that share of the window,
/// rounded down, but at least the base or the whole window where it is shorter.
/// "Retry immediately" would be a busy-wait against a controller that is
/// already struggling.
pub open spec fn delay(b: Backoff, unit: u32) -> nat {
    let u: int = if unit <= WHOLE {
        unit as int
    } else {
        WHOLE as int
    };
    let share = (window(b) * u / WHOLE as int) as nat;
    let least = if b.base.nanos <= window(b) {
        b.base.nanos as nat
    } else {
        window(b)
    };
    if share >= least {
        share
    } else {
        least
    }
}

/// `b` after one more failed attempt.
pub open spec fn advanced(b: Backoff) -> Backoff {
    Backoff {
        attempts: if b.attempts < u32::MAX {
            (b.attempts + 1) as u32
        } else {
            u32::MAX
        },
        ..b
    }
}

/// A draw from `rand::thread_rng` by `Rng::gen_range`: any number below `top` may
/// come.
#[verifier::external_body]
fn draw(top: u32) -> (r: u32)
    requires
        0 < top,
    ensures
        r < top,
{
    rand::thread_rng().gen_range(0..top)
}

/// A draw for [`Backoff::next_delay`]. Any share of the window below all of it
/// may come.
pub fn random_unit() -> (r: u32)
    ensures
        r < WHOLE,
{
    draw(WHOLE)
}

impl Backoff {
    pub fn new(base: Duration, max: Duration) -> (r: Backoff)
        ensures
            r == (Backoff { base, max, attempts: 0 }),
    {
        Backoff { base, max, attempts: 0 }
    }

    /// Next delay to wait, for a draw in billionths. Advances the attempt
    /// counter.
    pub fn next_delay(&mut self, unit: u32) -> (r: Duration)
        ensures
            r.nanos == delay(*old(self), unit),
            *final(self) == advanced(*old(self)),
    {
        let shift: u32 = if self.attempts <= MAX_DOUBLINGS {
            self.attempts
        } else {
            MAX_DOUBLINGS
        };
        let mut factor: u128 = 1;
        let mut i: u32 = 0;
        while i < shift
            invariant
                i <= shift <= 20,
                factor == doublings(i as nat),
            decreases shift - i,
        {
            proof {
                lemma_factor((i + 1) as nat);
            }
            factor = factor * 2;
            i = i + 1;
        }
        let base: u128 = self.base.nanos;
        let max: u128 = self.max.nanos;
        proof {
            lemma_factor(shift as nat);
            vstd::arithmetic::div_mod::lemma_fundamental_div_mod(max as int, factor as int);
            let q = max as int / factor as int;
            assert(base <= q ==> base * factor <= max) by (nonlinear_arith)
                requires
                    max == factor * q + max as int % factor as int,
                    0 <= max as int % factor as int,
                    factor > 0,
                    base >= 0,
            ;
            assert(base > q ==> base * factor > max) by (nonlinear_arith)
                requires
                    max == factor * q + max as int % factor as int,
                    (max as int % factor as int) < factor,
                    factor > 0,
                    base >= 0,
            ;
        }
        let ceiling: u128 = if base <= max / factor {
            base * factor
        } else {
            max
        };
        self.attempts = self.attempts.saturating_add(1);
        let u: u128 = if unit <= WHOLE {
            unit as u128
        } else {
            WHOLE as u128
        };
        let whole: u128 = WHOLE as u128;
        proof {
            lemma_share(ceiling as int, u as int);
        }
        let share: u128 = (ceiling / whole) * u + (ceiling % whole) * u / whole;
        let least: u128 = if base <= ceiling {
            base
        } else {
            ceiling
        };
        if share >= least {
            Duration { nanos: share }
        } else {
            Duration { nanos: least }
        }
    }

    /// Reset after a success.
    pub fn reset(&mut self)
        ensures
            *final(self) == (Backoff { attempts: 0, ..*old(self) }),
    {
        self.attempts = 0;
    }

    pub fn attempt(&self) -> (r: u32)
        ensures
            r == self.attempts,
    {
        self.attempts
    }
}

/// The doublings that a window can reach stay small.
proof fn lemma_factor(n: nat)
    requires
        n <= MAX_DOUBLINGS,
    ensures
        1 <= doublings(n) <= 1_048_576,
    decreases MAX_DOUBLINGS - n,
{
    if n < MAX_DOUBLINGS {
        lemma_factor(n + 1);
        lemma_doublings(n, 0);
    } else {
        reveal_with_fuel(doublings, 21);
    }
}

/// A share of a window can be taken of its whole billions and of the rest.
proof fn lemma_share(c: int, u: int)
    requires
        0 <= c <= u128::MAX,
        0 <= u <= WHOLE,
    ensures
        c * u / WHOLE as int == (c / WHOLE as int) * u + (c % WHOLE as int) * u / WHOLE as int,
        (c / WHOLE as int) * u + (c % WHOLE as int) * u / WHOLE as int <= c,
        0 <= (c / WHOLE as int) * u <= c,
        0 <= (c % WHOLE as int) * u <= WHOLE * WHOLE,
{
    let w = WHOLE as int;
    let a = c / w;
    let b = c % w;
    assert(c == a * w + b);
    assert(c * u == (a * u) * w + b * u) by (nonlinear_arith)
        requires
            c == a * w + b,
    ;
    vstd::arithmetic::div_mod::lemma_fundamental_div_mod(b * u, w);
    let k = b * u / w;
    vstd::arithmetic::div_mod::lemma_fundamental_div_mod_converse(
        c * u,
        w,
        a * u + k,
        (b * u) % w,
    );
    assert(c * u <= c * w) by (nonlinear_arith)
        requires
            0 <= c,
            0 <= u <= w,
    ;
    assert(a * u <= a * w) by (nonlinear_arith)
        requires
            0 <= a,
            0 <= u <= w,
    ;
    assert(a * u >= 0) by (nonlinear_arith)
        requires
            0 <= a,
            0 <= u,
    ;
    assert(0 <= b * u <= w * w) by (nonlinear_arith)
        requires
            0 <= b < w,
            0 <= u <= w,
    ;
    assert((a * u + k) * w <= c * w) by (nonlinear_arith)
        requires
            c * u == w * (a * u + k) + (b * u) % w,
            (b * u) % w >= 0,
            c * u <= c * w,
    ;
    assert(a * u + k <= c) by (nonlinear_arith)
        requires
            (a * u + k) * w <= c * w,
            w > 0,
    ;
}

impl Default for Backoff {
    fn default() -> (r: Backoff)
        ensures
            r.base.nanos == 1_000_000_000,
            r.max.nanos == 300_000_000_000,
            r.attempts == 0,
    {
        Backoff::new(Duration::from_secs(1), Duration::from_secs(300))
    }
}

/// Where the agent's identity lives on disk: `identity.json` in the state
/// directory.
pub open spec fn identity_file(state_dir: Seq<char>) -> Seq<char> {
    if state_dir.len() == 0 || state_dir.last() == '/' {
        state_dir + "identity.json"@
    } else {
        state_dir + "/"@ + "identity.json"@
    }
}

pub fn identity_path(state_dir: &str) -> (r: String)
    ensures
        r@ == identity_file(state_dir@),
{
    let cs = chars(state_dir);
    let mut t = state_dir.to_owned();
    if cs.len() > 0 && cs[cs.len() - 1] != '/' {
        t.append("/");
    }
    t.append("identity.json");
    t
}

/// The URL of an API path.
pub open spec fn api_url(base: Seq<char>, path: Seq<char>) -> Seq<char> {
    crate::text::without_back(base, |c: char| c == '/') + "/api/v1/"@ + crate::text::without_front(
        path,
        |c: char| c == '/',
    )
}

/// Build the URL for an API path, tolerating a base with or without a trailing
/// slash.
pub fn endpoint(base: &str, path: &str) -> (r: String)
    ensures
        r@ == api_url(base@, path@),
        r@ == crate::text::without_back(base@, |c: char| c == '/') + "/api/v1/"@
            + crate::text::without_front(path@, |c: char| c == '/'),
{
    let mut t = trim_end_char(base, '/').to_owned();
    t.append("/api/v1/");
    t.append(trim_start_char(path, '/'));
    t
}

/// However the draw falls, a delay stays within its window and the limit, and
/// is never shorter than the base, or than the window where that is shorter.
pub proof fn law_delays_are_bounded(b: Backoff, unit: u32)
    ensures
        delay(b, unit) <= window(b) <= b.max.nanos,
        delay(b, unit) >= b.base.nanos || delay(b, unit) == window(b),
        b.base.nanos > 0 && b.max.nanos > 0 ==> delay(b, unit) > 0,
{
    let u: int = if unit <= WHOLE {
        unit as int
    } else {
        WHOLE as int
    };
    let w = window(b) as int;
    lemma_doublings(
        if b.attempts <= MAX_DOUBLINGS {
            b.attempts as nat
        } else {
            MAX_DOUBLINGS as nat
        },
        b.base.nanos as nat,
    );
    if w <= u128::MAX {
        lemma_share(w, u);
    }
}

proof fn lemma_doublings(n: nat, x: nat)
    ensures
        doublings(n) >= 1,
        x * doublings(n) >= x,
    decreases n,
{
    if n > 0 {
        lemma_doublings((n - 1) as nat, x);
        let d = doublings((n - 1) as nat) as int;
        assert(x * (2 * d) >= x) by (nonlinear_arith)
            requires
                x * d >= x,
                x >= 0,
                d >= 1,
        ;
    } else {
        assert(x * 1 == x);
    }
}

/// The full draw gives the whole window.
pub proof fn law_the_full_draw_gives_the_window(b: Backoff)
    ensures
        delay(b, WHOLE) == window(b),
{
    let w = window(b) as int;
    assert(w * WHOLE as int / WHOLE as int == w) by (nonlinear_arith);
}

/// Once the window has met its limit it stays there, however long the outage.
pub proof fn law_the_window_never_collapses(b: Backoff)
    requires
        window(b) == b.max.nanos,
        b.attempts < u32::MAX,
    ensures
        window(advanced(b)) == b.max.nanos,
{
    if b.attempts < MAX_DOUBLINGS {
        let n = b.attempts as nat;
        let x = b.base.nanos as int;
        let d = doublings(n) as int;
        lemma_doublings(n, b.base.nanos as nat);
        assert(doublings(n + 1) == 2 * d);
        assert(x * (2 * d) >= x * d) by (nonlinear_arith)
            requires
                x >= 0,
                d >= 0,
        ;
    }
}

} // verus!
