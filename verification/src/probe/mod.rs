//! The probe data plane: sender, reflector, and what travels with a datagram.

use vstd::prelude::*;

use crate::proto::twamp::NtpTimestamp;

pub mod laws;
pub mod reflector;
pub mod sender;
pub mod socket;
pub mod twamp;

verus! {

/// `std::time::Instant`: a reading of the monotonic clock.
#[verifier::external_type_specification]
#[verifier::external_body]
pub struct ExInstant(std::time::Instant);

/// `std::time::Instant::now`. When that is, is not stated.
#[verifier::external_body]
fn instant_now() -> std::time::Instant {
    std::time::Instant::now()
}

/// `std::time::Instant::elapsed`, in nanoseconds. How long it was is not
/// stated; the standard library promises that it never runs backwards.
#[verifier::external_body]
fn elapsed_nanos(origin: &std::time::Instant) -> u128 {
    origin.elapsed().as_nanos()
}

/// A count of nanoseconds that `std::time::Duration` can hold: its whole seconds
/// are 64 bits, and what is left over is less than another second.
pub open spec fn is_span(nanos: u128) -> bool {
    nanos < 0x1_0000_0000_0000_0000 * 1_000_000_000
}

/// `std::time::SystemTime::duration_since` of the Unix epoch, in nanoseconds,
/// or nothing where the host's clock stands before it. The reading comes out of
/// a `std::time::Duration`, so it is one that such a span can hold. Which one
/// of these it is, rests on the time and is not stated.
#[verifier::external_body]
fn unix_nanos() -> (r: Option<u128>)
    ensures
        r matches Some(n) ==> is_span(n),
{
    std::time::SystemTime::now().duration_since(std::time::UNIX_EPOCH).ok().map(|d| d.as_nanos())
}

/// Monotonic nanosecond clock for probe timestamps.
///
/// The origin is arbitrary and differs per process, which is fine and in fact
/// intended: every value MQP puts on the wire is only ever used in a difference
/// against another value from *the same* clock.
#[derive(Debug, Clone, Copy)]
pub struct Clock {
    origin: std::time::Instant,
    /// Where the wall clock stood at the origin, in nanoseconds after the Unix
    /// epoch. It is read once: a step of the host's clock in the middle of a
    /// measurement must not show in it.
    anchor: u128,
}

/// Nanoseconds as 64 bits hold them. They cover 584 years of uptime; saturating
/// rather than wrapping means a pathological value can never present as a
/// negative or absurdly small latency.
pub open spec fn held(nanos: u128) -> u64 {
    if nanos <= u64::MAX {
        nanos as u64
    } else {
        u64::MAX
    }
}

pub fn hold(nanos: u128) -> (r: u64)
    ensures
        r == held(nanos),
{
    if nanos <= u64::MAX as u128 {
        nanos as u64
    } else {
        u64::MAX
    }
}

/// The wall-clock timestamp `elapsed` nanoseconds after the anchor.
pub fn ntp_after(anchor: u128, elapsed: u128) -> (r: NtpTimestamp)
    ensures
        r == crate::proto::twamp::ntp_of_unix(
            if anchor + elapsed <= u128::MAX {
                (anchor + elapsed) as nat
            } else {
                u128::MAX as nat
            },
        ),
{
    let ns: u128 = if elapsed <= u128::MAX - anchor {
        anchor + elapsed
    } else {
        u128::MAX
    };
    NtpTimestamp::from_unix_nanos(ns)
}

/// A reading of the wall clock as it can come: nothing before the Unix epoch,
/// else a span since.
pub open spec fn is_reading(reading: Option<u128>) -> bool {
    match reading {
        Some(n) => is_span(n),
        None => true,
    }
}

/// Where a clock is anchored after a reading of the wall clock: there, or at
/// the Unix epoch where the host's clock stands before it.
pub open spec fn anchor_of(reading: Option<u128>) -> u128 {
    match reading {
        Some(n) => n,
        None => 0,
    }
}

/// `c` counts from `origin`, and its wall clock from `reading`.
pub open spec fn is_anchored(c: Clock, origin: std::time::Instant, reading: Option<u128>) -> bool {
    c.since() == origin && c.started() == anchor_of(reading)
}

impl Clock {
    /// The monotonic reading that this clock counts from.
    pub closed spec fn since(&self) -> std::time::Instant {
        self.origin
    }

    /// Where the wall clock stood when this clock was made.
    pub closed spec fn started(&self) -> u128 {
        self.anchor
    }

    /// A clock that counts from now, with its wall clock read once, here.
    pub fn new() -> (r: Clock)
        ensures
            exists|origin: std::time::Instant, reading: Option<u128>|
                is_reading(reading) && #[trigger] is_anchored(r, origin, reading),
    {
        let reading = unix_nanos();
        Clock::anchored(instant_now(), reading)
    }

    /// A clock that counts from `origin`, where the wall clock was read as
    /// `reading`: nanoseconds since the Unix epoch, or nothing before it.
    pub fn anchored(origin: std::time::Instant, reading: Option<u128>) -> (r: Clock)
        ensures
            is_anchored(r, origin, reading),
    {
        let anchor: u128 = match reading {
            Some(n) => n,
            None => 0,
        };
        Clock { origin, anchor }
    }

    /// Nanoseconds since this clock's origin, whatever the host's clock does.
    pub fn now_ns(&self) -> (r: u64)
        ensures
            exists|elapsed: u128| r == #[trigger] held(elapsed),
    {
        let elapsed: u128 = elapsed_nanos(&self.origin);
        hold(elapsed)
    }

    /// The time for a TWAMP packet: the wall clock at this clock's origin, and
    /// what has passed since on the monotonic clock.
    pub fn now_ntp(&self) -> (r: NtpTimestamp)
        ensures
            exists|ns: nat|
                self.started() <= ns && r == #[trigger] crate::proto::twamp::ntp_of_unix(ns),
    {
        let elapsed: u128 = elapsed_nanos(&self.origin);
        ntp_after(self.anchor, elapsed)
    }
}

impl Default for Clock {
    fn default() -> (r: Clock)
        ensures
            exists|origin: std::time::Instant, reading: Option<u128>|
                is_reading(reading) && #[trigger] is_anchored(r, origin, reading),
    {
        Clock::new()
    }
}

} // verus!
