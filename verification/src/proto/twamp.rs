//! TWAMP-Light: RFC 5357 unauthenticated mode.
//!
//! This exists for interop. MQP is better suited to our own mesh, but a great
//! many things that are not our agents speak TWAMP: carrier and transit
//! providers run responders, and test sets expect one.
//!
//! # Unauthenticated mode only
//!
//! Light mode skips the control protocol entirely: the responder is simply
//! configured to reflect on a port. **There is no session identifier**, so the
//! only thing standing between the reflector and the internet is the
//! source-address filter and the firewall in front of it.
//!
//! # Why RTT still needs no clock synchronisation
//!
//! The four timestamps are `T1` (sender TX), `T2` (reflector RX), `T3`
//! (reflector TX) and `T4` (sender RX). RTT is
//!
//! ```text
//! (T4 - T1) - (T3 - T2)
//! ```
//!
//! Each bracket is a difference between two readings of *one* host's clock, so
//! the result holds even when the two hosts disagree completely about the time.

use vstd::prelude::*;
use vstd::string::StringExecFns;

use crate::bytes::{get_be, put_be};
use crate::duration::Duration;
use crate::round::round_div;
use crate::text::push_decimal;

verus! {

/// Seconds between the NTP epoch (1900-01-01) and the Unix epoch (1970-01-01).
/// Includes the 17 leap days in that span.
pub const NTP_UNIX_OFFSET: u64 = 2_208_988_800;

/// Minimum Session-Sender test packet: seq(4) + timestamp(8) + error(2).
pub const SENDER_MIN_LEN: usize = 14;

/// Minimum Session-Reflector test packet, per RFC 5357 section 4.2.1.
pub const REFLECTOR_MIN_LEN: usize = 41;

/// Default size for both directions.
///
/// Padded so a sender packet is the same size as the reflector packet it
/// provokes. Unequal sizes make the two directions traverse the path
/// differently, and a path that polices or fragments by size would then be
/// measured asymmetrically for reasons that have nothing to do with the
/// network.
pub const DEFAULT_PACKET_LEN: usize = REFLECTOR_MIN_LEN;

/// Largest packet accepted, matching the MQP limit so neither protocol
/// fragments on a 1500-byte path.
pub const MAX_PACKET_LEN: usize = 1400;

#[derive(Debug, Clone, Copy, PartialEq, Eq, Structural)]
pub enum TwampError {
    TooShort { got: usize, need: usize },
    TooLong { got: usize },
}

/// What an error says.
pub open spec fn error_message(e: TwampError) -> Seq<char> {
    match e {
        TwampError::TooShort { got, need } => "TWAMP packet too short: "@ + crate::text::decimal(
            got as nat,
        ) + " bytes, need at least "@ + crate::text::decimal(need as nat),
        TwampError::TooLong { got } => "TWAMP packet too long: "@ + crate::text::decimal(got as nat)
            + " bytes"@,
    }
}

impl TwampError {
    pub fn message(&self) -> (r: String)
        ensures
            r@ == error_message(*self),
    {
        match self {
            TwampError::TooShort { got, need } => {
                let mut t = "TWAMP packet too short: ".to_owned();
                push_decimal(&mut t, *got as u128);
                t.append(" bytes, need at least ");
                push_decimal(&mut t, *need as u128);
                t
            },
            TwampError::TooLong { got } => {
                let mut t = "TWAMP packet too long: ".to_owned();
                push_decimal(&mut t, *got as u128);
                t.append(" bytes");
                t
            },
        }
    }
}

/// An NTP 64-bit timestamp: seconds since 1900 plus a binary fraction.
#[derive(Debug, Clone, Copy, PartialEq, Eq, PartialOrd, Ord, Default, Structural)]
pub struct NtpTimestamp {
    pub seconds: u32,
    /// Fraction of a second in units of 1/2^32 s (about 233 picoseconds).
    pub fraction: u32,
}

/// The timestamp in the eight bytes at `at`.
pub open spec fn ts_at(b: Seq<u8>, at: int) -> NtpTimestamp {
    NtpTimestamp {
        seconds: crate::bytes::field(b, at, 4) as u32,
        fraction: crate::bytes::field(b, at + 4, 4) as u32,
    }
}

/// `b` with `t` in the eight bytes at `at`.
pub open spec fn ts_patched(b: Seq<u8>, at: int, t: NtpTimestamp) -> Seq<u8> {
    crate::bytes::patched(
        crate::bytes::patched(b, at, crate::bytes::be_bytes(t.seconds as nat, 4)),
        at + 4,
        crate::bytes::be_bytes(t.fraction as nat, 4),
    )
}

/// The timestamp of `ns` nanoseconds after the Unix epoch, in the NTP era of
/// the day: seconds wrap, and the fraction is rounded down.
pub open spec fn ntp_of_unix(ns: nat) -> NtpTimestamp {
    NtpTimestamp {
        seconds: ((ns / 1_000_000_000 + NTP_UNIX_OFFSET as nat) % 0x1_0000_0000) as u32,
        fraction: ((ns % 1_000_000_000) * 0x1_0000_0000 / 1_000_000_000) as u32,
    }
}

/// Nanoseconds from `earlier` to `later`, rounded down; nothing when they are
/// the wrong way round.
pub open spec fn nanos_between(earlier: NtpTimestamp, later: NtpTimestamp) -> Option<nat> {
    if later.units() < earlier.units() {
        None
    } else {
        Some(((later.units() - earlier.units()) as nat) * 1_000_000_000 / 0x1_0000_0000)
    }
}

/// Round trip less the reflector's turnaround, never below zero. A turnaround
/// that runs backwards counts as none; a round trip that does gives nothing.
pub open spec fn rtt_nanos(
    t1: NtpTimestamp,
    t2: NtpTimestamp,
    t3: NtpTimestamp,
    t4: NtpTimestamp,
) -> Option<nat> {
    match nanos_between(t1, t4) {
        None => None,
        Some(total) => {
            let turnaround = match nanos_between(t2, t3) {
                Some(t) => t,
                None => 0,
            };
            Some(
                if turnaround <= total {
                    (total - turnaround) as nat
                } else {
                    0
                },
            )
        },
    }
}

impl NtpTimestamp {
    /// The timestamp of a field that was not stamped yet.
    pub fn zero() -> (r: NtpTimestamp)
        ensures
            r == (NtpTimestamp { seconds: 0, fraction: 0 }),
    {
        NtpTimestamp { seconds: 0, fraction: 0 }
    }

    /// The timestamp as a count of 1/2^32 seconds.
    pub open spec fn units(self) -> nat {
        self.seconds as nat * 0x1_0000_0000 + self.fraction as nat
    }

    pub fn from_bytes(b: [u8; 8]) -> (r: NtpTimestamp)
        ensures
            r == ts_at(b@, 0),
    {
        NtpTimestamp::read(b.as_slice(), 0)
    }

    pub fn to_bytes(self) -> (r: [u8; 8])
        ensures
            r@ == crate::bytes::be_bytes(self.seconds as nat, 4) + crate::bytes::be_bytes(
                self.fraction as nat,
                4,
            ),
    {
        let s: u32 = self.seconds;
        let f: u32 = self.fraction;
        let r = [
            (s / 256 / 256 / 256 % 256) as u8,
            (s / 256 / 256 % 256) as u8,
            (s / 256 % 256) as u8,
            (s % 256) as u8,
            (f / 256 / 256 / 256 % 256) as u8,
            (f / 256 / 256 % 256) as u8,
            (f / 256 % 256) as u8,
            (f % 256) as u8,
        ];
        proof {
            crate::bytes::lemma_four_bytes(s as nat);
            crate::bytes::lemma_four_bytes(f as nat);
            assert(r@ =~= crate::bytes::be_bytes(s as nat, 4) + crate::bytes::be_bytes(
                f as nat,
                4,
            ));
        }
        r
    }

    fn read(buf: &[u8], at: usize) -> (r: NtpTimestamp)
        requires
            at + 8 <= buf@.len(),
        ensures
            r == ts_at(buf@, at as int),
    {
        proof {
            crate::bytes::lemma_be_bounds();
            crate::bytes::lemma_field_bounds(buf@);
            assert(at + 8 <= buf.len());
        }
        NtpTimestamp {
            seconds: get_be(buf, at, 4) as u32,
            fraction: get_be(buf, at + 4, 4) as u32,
        }
    }

    fn write(self, buf: &mut [u8], at: usize)
        requires
            at + 8 <= old(buf)@.len(),
        ensures
            final(buf)@ == ts_patched(old(buf)@, at as int, self),
    {
        put_be(buf, at, 4, self.seconds as u64);
        proof {
            assert(at + 8 <= buf.len());
        }
        put_be(buf, at + 4, 4, self.fraction as u64);
    }

    /// Build from nanoseconds since the Unix epoch.
    ///
    /// Wraps in 2036 when the NTP era rolls over. Era handling is out of scope:
    /// every value here is used in a difference against another reading taken
    /// seconds earlier, and a difference is unaffected unless the rollover
    /// falls between the two.
    pub fn from_unix_nanos(ns: u128) -> (r: NtpTimestamp)
        ensures
            r == ntp_of_unix(ns as nat),
    {
        let secs: u128 = ns / 1_000_000_000;
        let sub_ns: u64 = (ns % 1_000_000_000) as u64;
        NtpTimestamp {
            seconds: ((secs + NTP_UNIX_OFFSET as u128) % 0x1_0000_0000) as u32,
            fraction: (sub_ns * 0x1_0000_0000 / 1_000_000_000) as u32,
        }
    }

    /// Nanoseconds since the Unix epoch. A reading before 1970 counts as one
    /// that wrapped around 2^64 seconds.
    pub fn to_unix_nanos(self) -> (r: u128)
        ensures
            r == (if self.seconds >= NTP_UNIX_OFFSET {
                self.seconds - NTP_UNIX_OFFSET
            } else {
                self.seconds - NTP_UNIX_OFFSET + 0x1_0000_0000_0000_0000
            }) * 1_000_000_000 + self.fraction * 1_000_000_000int / 0x1_0000_0000,
    {
        let secs: u64 = (self.seconds as u64).wrapping_sub(NTP_UNIX_OFFSET);
        let sub_ns: u64 = self.fraction as u64 * 1_000_000_000 / 0x1_0000_0000;
        secs as u128 * 1_000_000_000 + sub_ns as u128
    }

    /// Difference between two timestamps from the *same* clock.
    ///
    /// Returns `None` when `self` precedes `earlier`, which for two readings of
    /// one clock means something is wrong (a stepped clock, or fields read in
    /// the wrong order) and is better surfaced than folded into a zero.
    pub fn duration_since(self, earlier: NtpTimestamp) -> (r: Option<Duration>)
        ensures
            match r {
                Some(d) => nanos_between(earlier, self) == Some(d.nanos as nat),
                None => nanos_between(earlier, self) is None,
            },
    {
        let a: u64 = self.as_units();
        let b: u64 = earlier.as_units();
        if a < b {
            return None;
        }
        let diff: u128 = (a - b) as u128;
        Some(Duration { nanos: diff * 1_000_000_000 / 0x1_0000_0000 })
    }

    fn as_units(self) -> (r: u64)
        ensures
            r == self.units(),
    {
        self.seconds as u64 * 0x1_0000_0000 + self.fraction as u64
    }
}

/// The 2-byte Error Estimate field (RFC 4656 section 4.1.2).
///
/// ```text
///  0                   1
///  0 1 2 3 4 5 6 7 8 9 0 1 2 3 4 5
/// +-+-+-+-+-+-+-+-+-+-+-+-+-+-+-+-+
/// |S|Z|   Scale   |   Multiplier  |
/// +-+-+-+-+-+-+-+-+-+-+-+-+-+-+-+-+
/// ```
///
/// The estimate is `Multiplier * 2^(Scale - 32)` seconds.
#[derive(Debug, Clone, Copy, PartialEq, Eq, Structural)]
pub struct ErrorEstimate {
    /// Set only when the clock is disciplined to an external reference.
    pub synchronized: bool,
    pub scale: u8,
    pub multiplier: u8,
}

/// The estimate that a field spells. Bit 14 is Z (must be zero) and belongs to
/// nothing: folded into the scale it would multiply the estimate by 2^32.
pub open spec fn estimate_of(word: nat) -> ErrorEstimate {
    ErrorEstimate {
        synchronized: word / 0x8000 % 2 == 1,
        scale: (word / 0x100 % 64) as u8,
        multiplier: (word % 0x100) as u8,
    }
}

impl ErrorEstimate {
    /// What this agent claims about its own timestamps.
    ///
    /// The synchronised bit is clear, deliberately. Agents run in containers on
    /// customer routers whose NTP state we neither control nor verify, and a
    /// receiver that believes the bit may compute a one-way delay from our
    /// timestamps. Claiming synchronisation we cannot demonstrate would make
    /// that number confidently wrong rather than obviously unavailable.
    ///
    /// The magnitude describes timestamp resolution (roughly a microsecond),
    /// not agreement with UTC, which is unbounded while unsynchronised.
    pub fn unsynchronized() -> (r: ErrorEstimate)
        ensures
            r == (ErrorEstimate { synchronized: false, scale: 12, multiplier: 1 }),
    {
        ErrorEstimate { synchronized: false, scale: 12, multiplier: 1 }
    }

    /// The field's value on the wire; only six bits of the scale are carried.
    pub open spec fn word(self) -> nat {
        (if self.synchronized {
            0x8000nat
        } else {
            0
        }) + (self.scale as nat % 64) * 0x100 + self.multiplier as nat
    }

    /// The estimate in nanoseconds, to the nearest, and at most an hour.
    pub open spec fn nanos(self) -> nat {
        let scaled = self.multiplier as nat * vstd::arithmetic::power2::pow2(self.scale as nat);
        if scaled >= 3600 * 0x1_0000_0000 {
            3600 * 1_000_000_000
        } else {
            crate::round::rounded_quotient(scaled * 1_000_000_000, 0x1_0000_0000)
        }
    }

    pub fn from_u16(v: u16) -> (r: ErrorEstimate)
        ensures
            r == estimate_of(v as nat),
    {
        ErrorEstimate {
            synchronized: v / 0x8000 % 2 == 1,
            scale: (v / 0x100 % 64) as u8,
            multiplier: (v % 0x100) as u8,
        }
    }

    pub fn to_u16(self) -> (r: u16)
        ensures
            r == self.word(),
    {
        let s: u16 = if self.synchronized {
            0x8000
        } else {
            0
        };
        s + (self.scale as u16 % 64) * 0x100 + self.multiplier as u16
    }

    /// The estimate as a duration.
    pub fn as_duration(self) -> (r: Duration)
        ensures
            r.nanos == self.nanos(),
    {
        let limit: u128 = 3600 * 0x1_0000_0000;
        let mut scaled: u128 = self.multiplier as u128;
        let mut n: u8 = 0;
        proof {
            vstd::arithmetic::power2::lemma2_to64();
            assert(scaled == self.multiplier as nat * vstd::arithmetic::power2::pow2(0));
        }
        while n < self.scale && scaled < limit
            invariant
                limit == 3600 * 0x1_0000_0000,
                n <= self.scale,
                scaled == self.multiplier as nat * vstd::arithmetic::power2::pow2(n as nat),
                scaled < 2 * limit,
            decreases self.scale - n,
        {
            proof {
                vstd::arithmetic::power2::lemma_pow2_unfold((n + 1) as nat);
                let m = self.multiplier as int;
                let p = vstd::arithmetic::power2::pow2(n as nat) as int;
                assert(m * (2 * p) == 2 * (m * p)) by (nonlinear_arith);
            }
            scaled = scaled * 2;
            n = n + 1;
        }
        if scaled >= limit {
            proof {
                let m = self.multiplier as int;
                let p = vstd::arithmetic::power2::pow2(n as nat) as int;
                let q = vstd::arithmetic::power2::pow2(self.scale as nat) as int;
                if n < self.scale {
                    vstd::arithmetic::power2::lemma_pow2_strictly_increases(
                        n as nat,
                        self.scale as nat,
                    );
                }
                assert(m * p <= m * q) by (nonlinear_arith)
                    requires
                        0 <= m,
                        p <= q,
                ;
            }
            return Duration::from_secs(3600);
        }
        Duration { nanos: round_div(scaled * 1_000_000_000, 0x1_0000_0000) }
    }
}

/// A Session-Sender test packet.
#[derive(Debug, Clone, Copy, PartialEq, Eq, Structural)]
pub struct SenderPacket {
    pub sequence: u32,
    pub timestamp: NtpTimestamp,
    pub error_estimate: ErrorEstimate,
}

/// `b` starts with the wire form of the sender packet `p`.
pub open spec fn sender_lays_out(b: Seq<u8>, p: SenderPacket) -> bool {
    &&& b.len() >= SENDER_MIN_LEN
    &&& crate::bytes::field(b, 0, 4) == p.sequence
    &&& ts_at(b, 4) == p.timestamp
    &&& crate::bytes::field(b, 12, 2) == p.error_estimate.word()
}

/// What a datagram decodes to as a sender packet.
pub open spec fn sender_decoded(b: Seq<u8>) -> Result<SenderPacket, TwampError> {
    if b.len() < SENDER_MIN_LEN {
        Err(TwampError::TooShort { got: b.len() as usize, need: SENDER_MIN_LEN })
    } else if b.len() > MAX_PACKET_LEN {
        Err(TwampError::TooLong { got: b.len() as usize })
    } else {
        Ok(
            SenderPacket {
                sequence: crate::bytes::field(b, 0, 4) as u32,
                timestamp: ts_at(b, 4),
                error_estimate: estimate_of(crate::bytes::field(b, 12, 2)),
            },
        )
    }
}

impl SenderPacket {
    /// Write into `buf`, which must be at least [`SENDER_MIN_LEN`]. Padding
    /// beyond the header is left as the caller set it.
    pub fn encode(&self, buf: &mut [u8]) -> (r: Result<(), TwampError>)
        ensures
            old(buf)@.len() < SENDER_MIN_LEN ==> r == Err::<(), TwampError>(
                TwampError::TooShort { got: old(buf)@.len() as usize, need: SENDER_MIN_LEN },
            ) && final(buf)@ == old(buf)@,
            old(buf)@.len() >= SENDER_MIN_LEN ==> r is Ok && sender_lays_out(final(buf)@, *self),
            final(buf)@.len() == old(buf)@.len(),
            forall|i: int|
                SENDER_MIN_LEN <= i < old(buf)@.len() ==> #[trigger] final(buf)@[i] == old(buf)@[i],
    {
        if buf.len() < SENDER_MIN_LEN {
            return Err(TwampError::TooShort { got: buf.len(), need: SENDER_MIN_LEN });
        }
        put_be(buf, 0, 4, self.sequence as u64);
        self.timestamp.write(buf, 4);
        put_be(buf, 12, 2, self.error_estimate.to_u16() as u64);
        proof {
            broadcast use {
                crate::bytes::lemma_field_own,
                crate::bytes::lemma_field_apart,
                crate::bytes::lemma_be_bytes_width,
            };
            crate::bytes::lemma_be_bounds();
        }
        Ok(())
    }

    pub fn decode(buf: &[u8]) -> (r: Result<SenderPacket, TwampError>)
        ensures
            r == sender_decoded(buf@),
    {
        if buf.len() < SENDER_MIN_LEN {
            return Err(TwampError::TooShort { got: buf.len(), need: SENDER_MIN_LEN });
        }
        if buf.len() > MAX_PACKET_LEN {
            return Err(TwampError::TooLong { got: buf.len() });
        }
        proof {
            crate::bytes::lemma_be_bounds();
            crate::bytes::lemma_field_bounds(buf@);
        }
        Ok(
            SenderPacket {
                sequence: get_be(buf, 0, 4) as u32,
                timestamp: NtpTimestamp::read(buf, 4),
                error_estimate: ErrorEstimate::from_u16(get_be(buf, 12, 2) as u16),
            },
        )
    }
}

/// A Session-Reflector test packet (RFC 5357 section 4.2.1).
#[derive(Debug, Clone, Copy, PartialEq, Eq, Structural)]
pub struct ReflectorPacket {
    /// The reflector's own counter, which advances per reply it generates.
    pub sequence: u32,
    /// T3: when the reflector sent this.
    pub timestamp: NtpTimestamp,
    pub error_estimate: ErrorEstimate,
    /// T2: when the reflector received the request.
    pub receive_timestamp: NtpTimestamp,
    /// The sequence number from the request, echoed.
    pub sender_sequence: u32,
    /// T1: the sender's own transmit timestamp, echoed.
    pub sender_timestamp: NtpTimestamp,
    pub sender_error_estimate: ErrorEstimate,
    /// TTL of the request as it arrived, so the sender can derive hop count.
    pub sender_ttl: u8,
}

/// `b` starts with the wire form of the reflector packet `p`.
pub open spec fn reflector_lays_out(b: Seq<u8>, p: ReflectorPacket) -> bool {
    &&& b.len() >= REFLECTOR_MIN_LEN
    &&& crate::bytes::field(b, 0, 4) == p.sequence
    &&& ts_at(b, 4) == p.timestamp
    &&& crate::bytes::field(b, 12, 2) == p.error_estimate.word()
    &&& crate::bytes::field(b, 14, 2) == 0
    &&& ts_at(b, 16) == p.receive_timestamp
    &&& crate::bytes::field(b, 24, 4) == p.sender_sequence
    &&& ts_at(b, 28) == p.sender_timestamp
    &&& crate::bytes::field(b, 36, 2) == p.sender_error_estimate.word()
    &&& crate::bytes::field(b, 38, 2) == 0
    &&& crate::bytes::field(b, 40, 1) == p.sender_ttl
}

/// What a datagram decodes to as a reflector packet.
pub open spec fn reflector_decoded(b: Seq<u8>) -> Result<ReflectorPacket, TwampError> {
    if b.len() < REFLECTOR_MIN_LEN {
        Err(TwampError::TooShort { got: b.len() as usize, need: REFLECTOR_MIN_LEN })
    } else if b.len() > MAX_PACKET_LEN {
        Err(TwampError::TooLong { got: b.len() as usize })
    } else {
        Ok(
            ReflectorPacket {
                sequence: crate::bytes::field(b, 0, 4) as u32,
                timestamp: ts_at(b, 4),
                error_estimate: estimate_of(crate::bytes::field(b, 12, 2)),
                receive_timestamp: ts_at(b, 16),
                sender_sequence: crate::bytes::field(b, 24, 4) as u32,
                sender_timestamp: ts_at(b, 28),
                sender_error_estimate: estimate_of(crate::bytes::field(b, 36, 2)),
                sender_ttl: crate::bytes::field(b, 40, 1) as u8,
            },
        )
    }
}

impl ReflectorPacket {
    pub fn encode(&self, buf: &mut [u8]) -> (r: Result<(), TwampError>)
        ensures
            old(buf)@.len() < REFLECTOR_MIN_LEN ==> r == Err::<(), TwampError>(
                TwampError::TooShort { got: old(buf)@.len() as usize, need: REFLECTOR_MIN_LEN },
            ) && final(buf)@ == old(buf)@,
            old(buf)@.len() >= REFLECTOR_MIN_LEN ==> r is Ok && reflector_lays_out(
                final(buf)@,
                *self,
            ),
            final(buf)@.len() == old(buf)@.len(),
            forall|i: int|
                REFLECTOR_MIN_LEN <= i < old(buf)@.len() ==> #[trigger] final(buf)@[i] == old(
                    buf,
                )@[i],
    {
        if buf.len() < REFLECTOR_MIN_LEN {
            return Err(TwampError::TooShort { got: buf.len(), need: REFLECTOR_MIN_LEN });
        }
        put_be(buf, 0, 4, self.sequence as u64);
        self.timestamp.write(buf, 4);
        put_be(buf, 12, 2, self.error_estimate.to_u16() as u64);
        put_be(buf, 14, 2, 0);
        self.receive_timestamp.write(buf, 16);
        put_be(buf, 24, 4, self.sender_sequence as u64);
        self.sender_timestamp.write(buf, 28);
        put_be(buf, 36, 2, self.sender_error_estimate.to_u16() as u64);
        put_be(buf, 38, 2, 0);
        put_be(buf, 40, 1, self.sender_ttl as u64);
        proof {
            broadcast use {
                crate::bytes::lemma_field_own,
                crate::bytes::lemma_field_apart,
                crate::bytes::lemma_be_bytes_width,
            };
            crate::bytes::lemma_be_bounds();
        }
        Ok(())
    }

    pub fn decode(buf: &[u8]) -> (r: Result<ReflectorPacket, TwampError>)
        ensures
            r == reflector_decoded(buf@),
    {
        if buf.len() < REFLECTOR_MIN_LEN {
            return Err(TwampError::TooShort { got: buf.len(), need: REFLECTOR_MIN_LEN });
        }
        if buf.len() > MAX_PACKET_LEN {
            return Err(TwampError::TooLong { got: buf.len() });
        }
        proof {
            crate::bytes::lemma_be_bounds();
            crate::bytes::lemma_field_bounds(buf@);
        }
        Ok(
            ReflectorPacket {
                sequence: get_be(buf, 0, 4) as u32,
                timestamp: NtpTimestamp::read(buf, 4),
                error_estimate: ErrorEstimate::from_u16(get_be(buf, 12, 2) as u16),
                receive_timestamp: NtpTimestamp::read(buf, 16),
                sender_sequence: get_be(buf, 24, 4) as u32,
                sender_timestamp: NtpTimestamp::read(buf, 28),
                sender_error_estimate: ErrorEstimate::from_u16(get_be(buf, 36, 2) as u16),
                sender_ttl: get_be(buf, 40, 1) as u8,
            },
        )
    }

    /// Build a reply to a received request.
    ///
    /// `t3` is filled by the caller immediately before the send, so the
    /// reflector's own processing time is measured rather than guessed.
    pub fn reply_to(
        request: &SenderPacket,
        own_sequence: u32,
        t2: NtpTimestamp,
        sender_ttl: u8,
    ) -> (r: ReflectorPacket)
        ensures
            r == (ReflectorPacket {
                sequence: own_sequence,
                timestamp: NtpTimestamp { seconds: 0, fraction: 0 },
                error_estimate: ErrorEstimate { synchronized: false, scale: 12, multiplier: 1 },
                receive_timestamp: t2,
                sender_sequence: request.sequence,
                sender_timestamp: request.timestamp,
                sender_error_estimate: request.error_estimate,
                sender_ttl,
            }),
    {
        ReflectorPacket {
            sequence: own_sequence,
            timestamp: NtpTimestamp::zero(),
            error_estimate: ErrorEstimate::unsynchronized(),
            receive_timestamp: t2,
            sender_sequence: request.sequence,
            sender_timestamp: request.timestamp,
            sender_error_estimate: request.error_estimate,
            sender_ttl,
        }
    }
}

/// Overwrite T3 in an encoded reply, immediately before transmission.
///
/// Encoding then stamping keeps the window between reading the clock and the
/// syscall as small as possible. Anything in that window is charged to the
/// network by whoever is measuring us.
pub fn stamp_reflector_tx(buf: &mut [u8], t3: NtpTimestamp) -> (r: Result<(), TwampError>)
    ensures
        old(buf)@.len() < REFLECTOR_MIN_LEN ==> r == Err::<(), TwampError>(
            TwampError::TooShort { got: old(buf)@.len() as usize, need: REFLECTOR_MIN_LEN },
        ) && final(buf)@ == old(buf)@,
        old(buf)@.len() >= REFLECTOR_MIN_LEN ==> r is Ok && final(buf)@ == ts_patched(
            old(buf)@,
            4,
            t3,
        ),
{
    if buf.len() < REFLECTOR_MIN_LEN {
        return Err(TwampError::TooShort { got: buf.len(), need: REFLECTOR_MIN_LEN });
    }
    t3.write(buf, 4);
    Ok(())
}

/// Overwrite T1 in an encoded request, immediately before transmission.
pub fn stamp_sender_tx(buf: &mut [u8], t1: NtpTimestamp) -> (r: Result<(), TwampError>)
    ensures
        old(buf)@.len() < SENDER_MIN_LEN ==> r == Err::<(), TwampError>(
            TwampError::TooShort { got: old(buf)@.len() as usize, need: SENDER_MIN_LEN },
        ) && final(buf)@ == old(buf)@,
        old(buf)@.len() >= SENDER_MIN_LEN ==> r is Ok && final(buf)@ == ts_patched(
            old(buf)@,
            4,
            t1,
        ),
{
    if buf.len() < SENDER_MIN_LEN {
        return Err(TwampError::TooShort { got: buf.len(), need: SENDER_MIN_LEN });
    }
    t1.write(buf, 4);
    Ok(())
}

/// Round-trip time from the four timestamps, with the reflector's own
/// turnaround removed.
///
/// `t1`/`t4` come from the sender's clock and `t2`/`t3` from the reflector's;
/// each pair is subtracted only within its own clock, so no synchronisation is
/// required. A reflector reporting a turnaround longer than the whole round
/// trip is not credible; the result then stays at zero rather than going
/// negative.
pub fn round_trip(t1: NtpTimestamp, t2: NtpTimestamp, t3: NtpTimestamp, t4: NtpTimestamp) -> (r:
    Option<Duration>)
    ensures
        match r {
            Some(d) => rtt_nanos(t1, t2, t3, t4) == Some(d.nanos as nat),
            None => rtt_nanos(t1, t2, t3, t4) is None,
        },
{
    let total = match t4.duration_since(t1) {
        Some(d) => d,
        None => {
            return None;
        },
    };
    let turnaround = match t3.duration_since(t2) {
        Some(d) => d,
        None => Duration { nanos: 0 },
    };
    Some(total.saturating_sub(turnaround))
}

/// A timestamp survives its eight bytes, and eight bytes survive the timestamp.
pub proof fn law_timestamp_bytes_round_trip(t: NtpTimestamp, b: Seq<u8>)
    requires
        b.len() == 8,
    ensures
        ts_at(
            crate::bytes::be_bytes(t.seconds as nat, 4) + crate::bytes::be_bytes(
                t.fraction as nat,
                4,
            ),
            0,
        ) == t,
        crate::bytes::be_bytes(ts_at(b, 0).seconds as nat, 4) + crate::bytes::be_bytes(
            ts_at(b, 0).fraction as nat,
            4,
        ) == b,
{
    crate::bytes::lemma_be_bounds();
    crate::bytes::lemma_be_round_trip(t.seconds as nat, 4);
    crate::bytes::lemma_be_round_trip(t.fraction as nat, 4);
    let s = crate::bytes::be_bytes(t.seconds as nat, 4);
    let f = crate::bytes::be_bytes(t.fraction as nat, 4);
    assert((s + f).subrange(0, 4) =~= s);
    assert((s + f).subrange(4, 8) =~= f);
    crate::bytes::lemma_be_round_trip_bytes(b.subrange(0, 4));
    crate::bytes::lemma_be_round_trip_bytes(b.subrange(4, 8));
    assert(b.subrange(0, 4) + b.subrange(4, 8) =~= b);
}

/// Within the NTP era that began in 1900, Unix time survives the NTP format to
/// the nanosecond: what comes back is at most one nanosecond early.
pub proof fn law_unix_time_round_trips(ns: nat)
    requires
        ns / 1_000_000_000 + NTP_UNIX_OFFSET < 0x1_0000_0000,
    ensures
        ({
            let t = ntp_of_unix(ns);
            let back = (t.seconds - NTP_UNIX_OFFSET) * 1_000_000_000 + t.fraction * 1_000_000_000int
                / 0x1_0000_0000;
            ns - 1 <= back <= ns
        }),
{
}

/// An error estimate survives its two bytes as long as its scale fits the six
/// bits it has on the wire.
pub proof fn law_error_estimate_round_trips(e: ErrorEstimate)
    requires
        e.scale < 64,
    ensures
        e.word() < 0x1_0000,
        estimate_of(e.word()) == e,
{
}

/// The must-be-zero bit of an error estimate changes nothing that is read.
pub proof fn law_the_zero_bit_is_ignored(word: nat)
    requires
        word < 0x1_0000,
        word / 0x4000 % 2 == 0,
    ensures
        estimate_of(word + 0x4000) == estimate_of(word),
{
    assert((word + 0x4000) / 0x8000 == word / 0x8000);
    assert((word + 0x4000) / 0x100 == word / 0x100 + 64);
    assert((word + 0x4000) % 0x100 == word % 0x100);
}

/// Decoding an encoded sender packet gives it back.
pub proof fn law_sender_packet_round_trips(b: Seq<u8>, p: SenderPacket)
    requires
        sender_lays_out(b, p),
        b.len() <= MAX_PACKET_LEN,
        p.error_estimate.scale < 64,
    ensures
        sender_decoded(b) == Ok::<SenderPacket, TwampError>(p),
{
    law_error_estimate_round_trips(p.error_estimate);
}

/// Decoding an encoded reflector packet gives it back.
pub proof fn law_reflector_packet_round_trips(b: Seq<u8>, p: ReflectorPacket)
    requires
        reflector_lays_out(b, p),
        b.len() <= MAX_PACKET_LEN,
        p.error_estimate.scale < 64,
        p.sender_error_estimate.scale < 64,
    ensures
        reflector_decoded(b) == Ok::<ReflectorPacket, TwampError>(p),
{
    law_error_estimate_round_trips(p.error_estimate);
    law_error_estimate_round_trips(p.sender_error_estimate);
}

/// Stamping T3 into a reply changes that field alone.
pub proof fn law_stamping_t3_keeps_the_rest(b: Seq<u8>, p: ReflectorPacket, t3: NtpTimestamp)
    requires
        reflector_decoded(b) == Ok::<ReflectorPacket, TwampError>(p),
    ensures
        reflector_decoded(ts_patched(b, 4, t3)) == Ok::<ReflectorPacket, TwampError>(
            ReflectorPacket { timestamp: t3, ..p },
        ),
{
    broadcast use {
        crate::bytes::lemma_field_own,
        crate::bytes::lemma_field_apart,
        crate::bytes::lemma_be_bytes_width,
    };

    crate::bytes::lemma_be_bounds();
}

/// Stamping T1 into a request changes that field alone.
pub proof fn law_stamping_t1_keeps_the_rest(b: Seq<u8>, p: SenderPacket, t1: NtpTimestamp)
    requires
        sender_decoded(b) == Ok::<SenderPacket, TwampError>(p),
    ensures
        sender_decoded(ts_patched(b, 4, t1)) == Ok::<SenderPacket, TwampError>(
            SenderPacket { timestamp: t1, ..p },
        ),
{
    broadcast use {
        crate::bytes::lemma_field_own,
        crate::bytes::lemma_field_apart,
        crate::bytes::lemma_be_bytes_width,
    };

    crate::bytes::lemma_be_bounds();
}

/// The two hosts' clocks need not agree: moving both of the reflector's
/// readings by any amount leaves the round-trip time as it was.
pub proof fn law_rtt_needs_no_synchronised_clocks(
    t1: NtpTimestamp,
    t2: NtpTimestamp,
    t3: NtpTimestamp,
    t4: NtpTimestamp,
    moved_t2: NtpTimestamp,
    moved_t3: NtpTimestamp,
    offset: int,
)
    requires
        moved_t2.units() == t2.units() + offset,
        moved_t3.units() == t3.units() + offset,
    ensures
        rtt_nanos(t1, moved_t2, moved_t3, t4) == rtt_nanos(t1, t2, t3, t4),
{
}

/// Whatever the reflector claims, a measured round trip is never longer than
/// the time the sender waited.
pub proof fn law_rtt_is_bounded_by_the_wait(
    t1: NtpTimestamp,
    t2: NtpTimestamp,
    t3: NtpTimestamp,
    t4: NtpTimestamp,
)
    ensures
        rtt_nanos(t1, t2, t3, t4) is Some <==> t1.units() <= t4.units(),
        rtt_nanos(t1, t2, t3, t4) is Some ==> rtt_nanos(t1, t2, t3, t4)->0 <= nanos_between(
            t1,
            t4,
        )->0,
{
}

} // verus!
