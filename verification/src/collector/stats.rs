//! Turns per-packet samples into the metrics the controller stores.
//!
//! All latency is microseconds. Nanoseconds would overstate the accuracy we
//! actually have through a container veth; milliseconds lose real signal on a
//! LAN path.

use std::collections::HashMap;

use vstd::prelude::*;

use crate::order::sort_ascending;

verus! {

broadcast use vstd::std_specs::hash::group_hash_axioms;

/// One probe packet's outcome, recorded by the sender.
#[derive(Debug, Clone, Copy, PartialEq, Eq, Structural)]
pub struct Sample {
    pub seq: u32,
    /// Reflector's own counter, used to separate reverse loss from forward
    /// loss.
    ///
    /// `None` when the protocol cannot attribute a direction at all. TWAMP-Light
    /// is the case: it has no session, so a responder's counter advances across
    /// every peer at once. Two customers probing one upstream would each see
    /// the other's replies consume counter values, read the gaps as their own
    /// reverse loss, and report heavy loss on a healthy path. Encoding the
    /// absence here rather than passing a flag means a protocol that cannot
    /// know simply cannot claim.
    pub reflector_seq: Option<u32>,
    /// Corrected round trip: `(t4 - t1) - (t3 - t2)`, in nanoseconds.
    pub rtt_ns: u64,
    /// DSCP we asked for.
    pub tx_dscp: u8,
    /// DSCP the reflector actually observed on arrival.
    ///
    /// `None` when the peer did not report one at all: TWAMP has no such
    /// field, and a reflector whose kernel withheld the control message cannot
    /// know either. `Some(0)` is entirely different: the packet genuinely
    /// arrived as best-effort, which means something on the path bleached the
    /// marking.
    pub rx_dscp: Option<u8>,
    /// Order of arrival at the sender, 0-based. Distinct from `seq`, which is
    /// order of departure: the difference is what reordering means.
    pub arrival_index: u32,
}

/// A percentage with two decimals, held as hundredths of a percent.
#[derive(Debug, Clone, Copy, PartialEq, Eq, PartialOrd, Ord, Structural)]
pub struct Percent {
    pub hundredths: u64,
}

/// `part` out of `whole` in hundredths of a percent, to the nearest, halves up;
/// nothing out of nothing is zero.
pub open spec fn hundredths_of(part: nat, whole: nat) -> nat {
    if whole == 0 {
        0
    } else {
        (part * 20_000 + whole) / (2 * whole)
    }
}

impl Percent {
    pub fn of(part: u32, whole: u32) -> (r: Percent)
        ensures
            r.hundredths == hundredths_of(part as nat, whole as nat),
    {
        if whole == 0 {
            Percent { hundredths: 0 }
        } else {
            Percent { hundredths: (part as u64 * 20_000 + whole as u64) / (2 * whole as u64) }
        }
    }
}

#[derive(Debug, Clone, Copy, PartialEq, Eq, Structural)]
pub struct RttStats {
    pub min_us: u64,
    pub avg_us: u64,
    pub max_us: u64,
    pub stddev_us: u64,
    pub p50_us: u64,
    pub p95_us: u64,
    pub p99_us: u64,
}

#[derive(Debug, Clone, Copy, PartialEq, Eq, Structural)]
pub struct JitterStats {
    /// Mean absolute IPDV per RFC 3393: |RTT(i) - RTT(i-1)| averaged over
    /// consecutive *sent* packets that both returned.
    pub ipdv_avg_us: u64,
    /// 95th percentile of |RTT(i) - p50|. Packet delay variation against the
    /// median rather than against the previous packet; monitoring systems
    /// disagree about which "jitter" means, so we report both.
    pub pdv_p95_us: u64,
}

#[derive(Debug, Clone, Copy, PartialEq, Eq, Structural)]
pub struct LossStats {
    pub sent: u32,
    pub received: u32,
    /// Gaps the reflector observed in our `seq`: the request never arrived.
    pub forward_lost: u32,
    /// Gaps in `reflector_seq`: the reply was generated but never arrived.
    pub reverse_lost: u32,
    /// Sent, never seen again, and no neighbouring reply let us attribute a
    /// direction. Counted separately rather than guessed at.
    pub unknown_direction: u32,
    pub loss_pct: Percent,
}

#[derive(Debug, Clone, Copy, PartialEq, Eq, Structural)]
pub struct ReorderStats {
    /// Packets that arrived after a higher `seq` had already arrived (RFC 4737).
    pub reordered: u32,
    /// Largest gap, in sequence positions, that a reordered packet travelled.
    pub max_displacement: u32,
    /// `seq` values received more than once.
    pub duplicated: u32,
}

#[derive(Debug, Clone, Copy, PartialEq, Eq, Structural)]
pub struct DscpStats {
    pub requested: u8,
    /// Most frequently observed DSCP at the reflector.
    pub observed_mode: u8,
    /// Share of packets that arrived carrying the DSCP we asked for. Below 100
    /// means something on the path is remarking or bleaching the traffic.
    pub conformant_pct: Percent,
}

#[derive(Debug, Clone, Copy, PartialEq, Eq, Structural)]
pub struct ProbeMetrics {
    pub rtt: Option<RttStats>,
    pub jitter: Option<JitterStats>,
    pub loss: LossStats,
    pub reorder: ReorderStats,
    pub dscp: Option<DscpStats>,
}

/// The round-trip times of the samples, in whole microseconds.
pub open spec fn rtts(samples: Seq<Sample>) -> Seq<u64> {
    Seq::new(samples.len(), |i: int| (samples[i].rtt_ns / 1_000) as u64)
}

pub open spec fn total(s: Seq<u64>) -> nat
    decreases s.len(),
{
    if s.len() == 0 {
        0
    } else {
        total(s.drop_last()) + s.last() as nat
    }
}

pub open spec fn distance(a: int, b: int) -> nat {
    if a >= b {
        (a - b) as nat
    } else {
        (b - a) as nat
    }
}

/// Sum of the squared distances from `centre`.
pub open spec fn spread(s: Seq<u64>, centre: int) -> nat
    decreases s.len(),
{
    if s.len() == 0 {
        0
    } else {
        spread(s.drop_last(), centre) + distance(s.last() as int, centre) * distance(
            s.last() as int,
            centre,
        )
    }
}

/// Nearest-rank percentile of an ascending sequence: the element at rank
/// `ceil(p/100 * n)`, counted from one.
pub open spec fn percentile_of(sorted: Seq<u64>, p: nat) -> u64 {
    let n = sorted.len();
    if n == 0 {
        0
    } else {
        let rank = (p * n + 99) / 100;
        if rank == 0 {
            sorted[0]
        } else if rank > n {
            sorted[n - 1]
        } else {
            sorted[rank - 1]
        }
    }
}

/// `r` is the largest integer whose square is at most `n`.
pub open spec fn is_root(r: nat, n: nat) -> bool {
    r * r <= n < (r + 1) * (r + 1)
}

/// What the RTT figures of a run are.
pub open spec fn rtt_figures(samples: Seq<Sample>, r: Option<RttStats>) -> bool {
    let us = crate::order::ascending(rtts(samples));
    match r {
        None => samples.len() == 0,
        Some(s) => {
            &&& samples.len() > 0
            &&& s.min_us == us[0]
            &&& s.max_us == us[us.len() - 1]
            &&& s.avg_us == total(us) / us.len()
            &&& is_root(s.stddev_us as nat, spread(us, s.avg_us as int) / us.len())
            &&& s.p50_us == percentile_of(us, 50)
            &&& s.p95_us == percentile_of(us, 95)
            &&& s.p99_us == percentile_of(us, 99)
        },
    }
}

/// The samples in the order they were sent.
pub open spec fn by_seq(samples: Seq<Sample>) -> Seq<Sample> {
    crate::order::arranged(samples, |s: Sample| s.seq as int)
}

/// The samples in the order they arrived.
pub open spec fn by_arrival(samples: Seq<Sample>) -> Seq<Sample> {
    crate::order::arranged(samples, |s: Sample| s.arrival_index as int)
}

/// Delay variation over neighbours in `order` whose sequence numbers are
/// consecutive: across a loss gap the difference is not IPDV.
pub open spec fn ipdv(order: Seq<Sample>) -> Seq<u64>
    decreases order.len(),
{
    if order.len() < 2 {
        Seq::empty()
    } else {
        let a = order[order.len() - 2];
        let b = order[order.len() - 1];
        let rest = ipdv(order.drop_last());
        if b.seq == a.seq + 1 {
            rest.push(distance((b.rtt_ns / 1_000) as int, (a.rtt_ns / 1_000) as int) as u64)
        } else {
            rest
        }
    }
}

/// Each value's distance from `centre`.
pub open spec fn deviations(s: Seq<u64>, centre: u64) -> Seq<u64> {
    Seq::new(s.len(), |i: int| distance(s[i] as int, centre as int) as u64)
}

/// What the jitter figures of a run are: nothing without two consecutive
/// packets that both returned.
pub open spec fn jitter_figures(samples: Seq<Sample>) -> Option<JitterStats> {
    let deltas = ipdv(by_seq(samples));
    let us = crate::order::ascending(rtts(samples));
    let devs = crate::order::ascending(deviations(us, percentile_of(us, 50)));
    if deltas.len() == 0 {
        None
    } else {
        Some(
            JitterStats {
                ipdv_avg_us: (total(deltas) / deltas.len()) as u64,
                pdv_p95_us: percentile_of(devs, 95),
            },
        )
    }
}

pub open spec fn all_counted(samples: Seq<Sample>) -> bool {
    forall|i: int| 0 <= i < samples.len() ==> (#[trigger] samples[i]).reflector_seq is Some
}

/// How many replies the reflector generated, judged by the highest counter
/// that came back: it numbers them from zero.
pub open spec fn replies_generated(samples: Seq<Sample>) -> nat
    decreases samples.len(),
{
    if samples.len() == 0 {
        0
    } else {
        let rest = replies_generated(samples.drop_last());
        match samples.last().reflector_seq {
            Some(c) if c + 1 > rest => (c + 1) as nat,
            _ => rest,
        }
    }
}

pub open spec fn less_or_zero(a: nat, b: nat) -> nat {
    if a >= b {
        (a - b) as nat
    } else {
        0
    }
}

pub open spec fn at_most(a: nat, cap: nat) -> nat {
    if a <= cap {
        a
    } else {
        cap
    }
}

/// What the loss figures of a run are. `reflector_seq` increments once per
/// reply the reflector generated: replies that it numbered and we never saw
/// died on the way back, and what else is missing never reached it. Without a
/// counter in every sample, or with no sample at all, no direction is claimed.
pub open spec fn loss_figures(sent: u32, samples: Seq<Sample>) -> LossStats {
    let missing = less_or_zero(sent as nat, samples.len());
    let pct = Percent { hundredths: hundredths_of(missing, sent as nat) as u64 };
    if samples.len() == 0 || !all_counted(samples) {
        LossStats {
            sent,
            received: samples.len() as u32,
            forward_lost: 0,
            reverse_lost: 0,
            unknown_direction: missing as u32,
            loss_pct: pct,
        }
    } else {
        let generated = at_most(replies_generated(samples), u32::MAX as nat);
        let reverse = less_or_zero(generated, samples.len());
        LossStats {
            sent,
            received: samples.len() as u32,
            forward_lost: less_or_zero(missing, reverse) as u32,
            reverse_lost: at_most(reverse, missing) as u32,
            unknown_direction: 0,
            loss_pct: pct,
        }
    }
}

/// How often `seq` was received.
pub open spec fn occurrences(samples: Seq<Sample>, seq: u32) -> nat
    decreases samples.len(),
{
    if samples.len() == 0 {
        0
    } else {
        occurrences(samples.drop_last(), seq) + (if samples.last().seq == seq {
            1nat
        } else {
            0
        })
    }
}

/// How many `seq` values were received more than once: each counts when it
/// comes for the second time.
pub open spec fn repeated(samples: Seq<Sample>) -> nat
    decreases samples.len(),
{
    if samples.len() == 0 {
        0
    } else {
        repeated(samples.drop_last()) + (if occurrences(samples.drop_last(), samples.last().seq)
            == 1 {
            1nat
        } else {
            0
        })
    }
}

/// The highest `seq` in `order`.
pub open spec fn high_water(order: Seq<Sample>) -> nat
    decreases order.len(),
{
    if order.len() == 0 {
        0
    } else {
        let rest = high_water(order.drop_last());
        if order.last().seq > rest {
            order.last().seq as nat
        } else {
            rest
        }
    }
}

/// How many packets arrived after a higher `seq` had.
pub open spec fn late(order: Seq<Sample>) -> nat
    decreases order.len(),
{
    if order.len() == 0 {
        0
    } else {
        late(order.drop_last()) + (if order.last().seq < high_water(order.drop_last()) {
            1nat
        } else {
            0
        })
    }
}

/// The furthest that a packet arrived behind the highest `seq` before it.
pub open spec fn displacement(order: Seq<Sample>) -> nat
    decreases order.len(),
{
    if order.len() == 0 {
        0
    } else {
        let rest = displacement(order.drop_last());
        let behind = less_or_zero(high_water(order.drop_last()), order.last().seq as nat);
        if behind > rest {
            behind
        } else {
            rest
        }
    }
}

pub open spec fn reorder_figures(samples: Seq<Sample>) -> ReorderStats {
    ReorderStats {
        reordered: late(by_arrival(samples)) as u32,
        max_displacement: displacement(by_arrival(samples)) as u32,
        duplicated: repeated(samples) as u32,
    }
}

/// How many samples report any class.
pub open spec fn echoed(samples: Seq<Sample>) -> nat
    decreases samples.len(),
{
    if samples.len() == 0 {
        0
    } else {
        echoed(samples.drop_last()) + (if samples.last().rx_dscp is Some {
            1nat
        } else {
            0
        })
    }
}

/// How many samples report the six-bit class `class`.
pub open spec fn observed(samples: Seq<Sample>, class: int) -> nat
    decreases samples.len(),
{
    if samples.len() == 0 {
        0
    } else {
        observed(samples.drop_last(), class) + (match samples.last().rx_dscp {
            Some(d) if d % 64 == class => 1nat,
            _ => 0nat,
        })
    }
}

/// What the DSCP figures of a run are: nothing when no sample reports a class.
/// The mode is the highest of the classes seen most often.
pub open spec fn dscp_figures(requested: u8, samples: Seq<Sample>, r: Option<DscpStats>) -> bool {
    match r {
        None => echoed(samples) == 0,
        Some(d) => {
            &&& echoed(samples) > 0
            &&& d.requested == requested
            &&& d.observed_mode < 64
            &&& forall|c: int|
                0 <= c < 64 ==> #[trigger] observed(samples, c) <= observed(
                    samples,
                    d.observed_mode as int,
                )
            &&& forall|c: int|
                d.observed_mode < c < 64 ==> #[trigger] observed(samples, c) < observed(
                    samples,
                    d.observed_mode as int,
                )
            &&& d.conformant_pct.hundredths == hundredths_of(
                observed(samples, (requested % 64) as int),
                echoed(samples),
            )
        },
    }
}

/// Compute metrics for a completed session.
///
/// `sent` is how many packets we put on the wire; `samples` are the ones that
/// came back, in arrival order.
pub fn summarise(sent: u32, samples: &[Sample], requested_dscp: Option<u8>) -> (r: ProbeMetrics)
    requires
        samples@.len() <= u32::MAX,
    ensures
        rtt_figures(samples@, r.rtt),
        r.jitter == jitter_figures(samples@),
        r.loss == loss_figures(sent, samples@),
        r.reorder == reorder_figures(samples@),
        match requested_dscp {
            None => r.dscp is None,
            Some(d) => dscp_figures(d, samples@, r.dscp),
        },
{
    ProbeMetrics {
        rtt: rtt_stats(samples),
        jitter: jitter_stats(samples),
        loss: loss_stats(sent, samples),
        reorder: reorder_stats(samples),
        dscp: match requested_dscp {
            None => None,
            Some(d) => dscp_stats(d, samples),
        },
    }
}

fn rtts_us(samples: &[Sample]) -> (r: Vec<u64>)
    ensures
        r@ == rtts(samples@),
{
    let mut us: Vec<u64> = Vec::new();
    let mut i: usize = 0;
    while i < samples.len()
        invariant
            i <= samples@.len(),
            us@ == rtts(samples@).take(i as int),
        decreases samples@.len() - i,
    {
        us.push(samples[i].rtt_ns / 1_000);
        proof {
            assert(rtts(samples@).take(i + 1) =~= rtts(samples@).take(i as int).push(
                rtts(samples@)[i as int],
            ));
        }
        i = i + 1;
    }
    proof {
        assert(rtts(samples@).take(i as int) =~= rtts(samples@));
    }
    us
}

proof fn lemma_total_bound(s: Seq<u64>)
    ensures
        total(s) <= s.len() * u64::MAX,
    decreases s.len(),
{
    if s.len() > 0 {
        lemma_total_bound(s.drop_last());
        assert(s.len() * u64::MAX == (s.len() - 1) * u64::MAX + u64::MAX) by (nonlinear_arith);
    }
}

fn mean(us: &Vec<u64>) -> (r: u64)
    requires
        us@.len() > 0,
    ensures
        r == total(us@) / us@.len(),
{
    let mut sum: u128 = 0;
    let mut i: usize = 0;
    proof {
        assert(us@.take(0) =~= Seq::empty());
    }
    while i < us.len()
        invariant
            i <= us@.len(),
            sum == total(us@.take(i as int)),
        decreases us@.len() - i,
    {
        proof {
            assert(us@.take(i + 1).drop_last() =~= us@.take(i as int));
            lemma_total_bound(us@.take(i as int));
            assert(i * u64::MAX <= usize::MAX * u64::MAX) by (nonlinear_arith)
                requires
                    0 <= i <= usize::MAX,
            ;
        }
        sum = sum + us[i] as u128;
        i = i + 1;
    }
    proof {
        assert(us@.take(us@.len() as int) =~= us@);
        lemma_total_bound(us@);
        let n = us@.len() as int;
        assert(sum as int / n <= u64::MAX) by (nonlinear_arith)
            requires
                n > 0,
                0 <= sum <= n * u64::MAX,
        ;
    }
    (sum / us.len() as u128) as u64
}

fn abs_diff(a: u64, b: u64) -> (r: u64)
    ensures
        r == distance(a as int, b as int),
{
    if a >= b {
        a - b
    } else {
        b - a
    }
}

/// Population variance, exact. Every square is divided on its own and the
/// remainders are carried, so no sum of squares is ever held: on a bad path
/// that sum outgrows any machine integer.
fn variance(us: &Vec<u64>, centre: u64) -> (r: u128)
    requires
        us@.len() > 0,
    ensures
        r == spread(us@, centre as int) / us@.len(),
{
    let n: u128 = us.len() as u128;
    let mut whole: u128 = 0;
    let mut part: u128 = 0;
    let mut i: usize = 0;
    let ghost top: int = u64::MAX * u64::MAX;
    proof {
        assert(us@.take(0) =~= Seq::empty());
    }
    while i < us.len()
        invariant
            i <= us@.len(),
            n == us@.len(),
            0 < n <= u64::MAX,
            top == u64::MAX * u64::MAX,
            whole * n + part == spread(us@.take(i as int), centre as int),
            part <= i * (n - 1),
            whole * n <= i * top,
        decreases us@.len() - i,
    {
        proof {
            assert(us@.take(i + 1).drop_last() =~= us@.take(i as int));
        }
        let d: u128 = abs_diff(us[i], centre) as u128;
        proof {
            assert(d * d <= top) by (nonlinear_arith)
                requires
                    0 <= d <= u64::MAX,
                    top == u64::MAX * u64::MAX,
            ;
        }
        let square: u128 = d * d;
        proof {
            let q = square as int / n as int;
            let m = square as int % n as int;
            vstd::arithmetic::div_mod::lemma_fundamental_div_mod(square as int, n as int);
            assert(n * q == q * n) by (nonlinear_arith);
            assert((whole + q) * n == whole * n + q * n) by (nonlinear_arith);
            assert((i + 1) * top == i * top + top) by (nonlinear_arith);
            assert((i + 1) * (n - 1) == i * (n - 1) + (n - 1)) by (nonlinear_arith);
            assert(whole + q <= top) by (nonlinear_arith)
                requires
                    (whole + q) * n <= (i + 1) * top,
                    i + 1 <= n,
                    n > 0,
                    top > 0,
            ;
            assert(i * (n - 1) + (n - 1) <= top) by (nonlinear_arith)
                requires
                    0 <= i,
                    i + 1 <= n <= u64::MAX,
                    top == u64::MAX * u64::MAX,
            ;
        }
        whole = whole + square / n;
        part = part + square % n;
        i = i + 1;
    }
    proof {
        assert(us@.take(us@.len() as int) =~= us@);
        vstd::arithmetic::div_mod::lemma_fundamental_div_mod(part as int, n as int);
        let q = part as int / n as int;
        let m = part as int % n as int;
        let all = spread(us@, centre as int) as int;
        assert(all == (whole + q) * n + m) by (nonlinear_arith)
            requires
                all == whole * n + part,
                part == n * q + m,
        ;
        vstd::arithmetic::div_mod::lemma_fundamental_div_mod_converse(
            all,
            n as int,
            whole + q,
            m,
        );
        assert(q <= n) by (nonlinear_arith)
            requires
                part == n * q + m,
                part <= n * (n - 1),
                n > 0,
                0 <= m,
        ;
        assert(whole <= top) by (nonlinear_arith)
            requires
                whole * n <= n * top,
                n > 0,
        ;
    }
    whole + part / n
}

pub fn rtt_stats(samples: &[Sample]) -> (r: Option<RttStats>)
    ensures
        rtt_figures(samples@, r),
{
    if samples.len() == 0 {
        return None;
    }
    let mut us = rtts_us(samples);
    sort_ascending(&mut us);
    proof {
        crate::order::lemma_arranged(rtts(samples@), |v: u64| v as int);
    }
    let avg: u64 = mean(&us);
    let var: u128 = variance(&us, avg);
    Some(
        RttStats {
            min_us: us[0],
            avg_us: avg,
            max_us: us[us.len() - 1],
            stddev_us: isqrt_u128(var),
            p50_us: percentile(&us, 50),
            p95_us: percentile(&us, 95),
            p99_us: percentile(&us, 99),
        },
    )
}

/// Nearest-rank percentile over a pre-sorted slice.
pub fn percentile(sorted: &Vec<u64>, p: u32) -> (r: u64)
    ensures
        r == percentile_of(sorted@, p as nat),
{
    let n: usize = sorted.len();
    if n == 0 {
        return 0;
    }
    proof {
        assert(p * n <= u32::MAX * u64::MAX) by (nonlinear_arith)
            requires
                0 <= p <= u32::MAX,
                0 <= n <= u64::MAX,
        ;
    }
    let rank: u128 = (p as u128 * n as u128 + 99) / 100;
    if rank == 0 {
        sorted[0]
    } else if rank > n as u128 {
        sorted[n - 1]
    } else {
        sorted[rank as usize - 1]
    }
}

/// Integer square root. Avoids floating point in the variance path, where large
/// values would lose precision.
pub fn isqrt_u128(n: u128) -> (r: u64)
    ensures
        is_root(r as nat, n as nat),
{
    if n == 0 {
        proof {
            assert(0nat * 0nat == 0 && (0nat + 1) * (0nat + 1) == 1) by (nonlinear_arith);
        }
        return 0;
    }
    let mut x: u128 = n;
    let mut y: u128 = x / 2 + x % 2;
    proof {
        lemma_newton_step(n as int, 1, n as int, y as int);
        assert((x + 1) * (x + 1) > n) by (nonlinear_arith)
            requires
                x == n,
                n > 0,
        ;
        if y >= x {
            assert(x == 1);
        }
    }
    while y < x
        invariant
            n > 0,
            x > 0,
            y > 0,
            x <= n,
            (x + 1) * (x + 1) > n,
            (y + 1) * (y + 1) > n,
            y >= x ==> x * x <= n,
        decreases x,
    {
        x = y;
        proof {
            let q = n as int / x as int;
            vstd::arithmetic::div_mod::lemma_fundamental_div_mod(n as int, x as int);
            assert(q <= n) by (nonlinear_arith)
                requires
                    q == n as int / x as int,
                    x > 0,
                    n > 0,
            ;
            lemma_newton_bound(n as int, x as int);
            lemma_newton_step(n as int, q, x as int, (x + q) / 2);
        }
        y = (x + n / x) / 2;
    }
    proof {
        assert(x <= u64::MAX) by (nonlinear_arith)
            requires
                x * x <= n,
                n <= u128::MAX,
                0 <= x,
        ;
    }
    x as u64
}

/// From any positive estimate, a Newton step lands on the root or above it.
/// When it does not fall, the estimate was the root.
proof fn lemma_newton_step(n: int, q: int, x: int, y: int)
    requires
        n > 0,
        x > 0,
        q == n / x,
        y == (x + q) / 2,
    ensures
        (y + 1) * (y + 1) > n,
        y >= x ==> x * x <= n,
{
    vstd::arithmetic::div_mod::lemma_fundamental_div_mod(n, x);
    assert(n < x * (q + 1)) by (nonlinear_arith)
        requires
            n == x * q + n % x,
            n % x < x,
    ;
    assert((x + (q + 1)) * (x + (q + 1)) >= 4 * (x * (q + 1))) by (nonlinear_arith);
    let z = 2 * (y + 1);
    assert(z >= x + q + 1);
    assert(q >= 0) by (nonlinear_arith)
        requires
            n > 0,
            x > 0,
            q == n / x,
    ;
    assert(z * z >= (x + q + 1) * (x + q + 1)) by (nonlinear_arith)
        requires
            z >= x + q + 1,
            x + q + 1 >= 0,
    ;
    assert(z * z == 4 * ((y + 1) * (y + 1))) by (nonlinear_arith)
        requires
            z == 2 * (y + 1),
    ;
    if y >= x {
        assert(q >= x);
        assert(x * x <= n) by (nonlinear_arith)
            requires
                q >= x,
                n == x * q + n % x,
                n % x >= 0,
                x > 0,
        ;
    }
}

/// An estimate and its quotient never sum past the largest integer.
proof fn lemma_newton_bound(n: int, x: int)
    requires
        0 < x < n <= u128::MAX,
        (x + 1) * (x + 1) > n,
    ensures
        2 <= x + n / x <= u128::MAX,
{
    let q = n / x;
    vstd::arithmetic::div_mod::lemma_fundamental_div_mod(n, x);
    assert(q >= 1) by (nonlinear_arith)
        requires
            n == x * q + n % x,
            n % x < x,
            x <= n,
            x > 0,
    ;
    if x == 1 {
        assert((x + 1) * (x + 1) == 4) by (nonlinear_arith)
            requires
                x == 1,
        ;
    } else if 2 * x <= n {
        assert(2 * q <= n) by (nonlinear_arith)
            requires
                x >= 2,
                q >= 1,
                x * q <= n,
        ;
    } else {
        assert(q < 2) by (nonlinear_arith)
            requires
                2 * x > n,
                x * q <= n,
                x > 0,
        ;
    }
}

/// `samples` arranged by `seq`, or by arrival. Arrivals are nearly in order, so
/// putting each in from the back is close to linear.
fn in_order(samples: &[Sample], arrival: bool) -> (r: Vec<Sample>)
    ensures
        r@ == if arrival {
            by_arrival(samples@)
        } else {
            by_seq(samples@)
        },
{
    let mut out: Vec<Sample> = Vec::new();
    let mut i: usize = 0;
    let ghost rank = if arrival {
        |s: Sample| s.arrival_index as int
    } else {
        |s: Sample| s.seq as int
    };
    proof {
        assert(samples@.take(0) =~= Seq::empty());
    }
    while i < samples.len()
        invariant
            i <= samples@.len(),
            rank == if arrival {
                |s: Sample| s.arrival_index as int
            } else {
                |s: Sample| s.seq as int
            },
            out@ == crate::order::arranged(samples@.take(i as int), rank),
            out@.len() == i,
        decreases samples@.len() - i,
    {
        let x: Sample = samples[i];
        let mut pos: usize = out.len();
        proof {
            crate::order::lemma_arranged(samples@.take(i as int), rank);
        }
        while pos > 0 && key(&out[pos - 1], arrival) > key(&x, arrival)
            invariant
                pos <= out@.len(),
                rank == if arrival {
                    |s: Sample| s.arrival_index as int
                } else {
                    |s: Sample| s.seq as int
                },
                forall|j: int| pos <= j < out@.len() ==> rank(#[trigger] out@[j]) > rank(x),
            decreases pos,
        {
            pos = pos - 1;
        }
        proof {
            crate::order::lemma_placed_at(out@, x, rank, pos as int);
            assert(samples@.take(i + 1).drop_last() =~= samples@.take(i as int));
        }
        out.insert(pos, x);
        i = i + 1;
    }
    proof {
        assert(samples@.take(i as int) =~= samples@);
    }
    out
}

fn key(s: &Sample, arrival: bool) -> (r: u32)
    ensures
        r == if arrival {
            s.arrival_index
        } else {
            s.seq
        },
{
    if arrival {
        s.arrival_index
    } else {
        s.seq
    }
}

/// IPDV is defined over consecutive *sent* packets, so order by seq, not by
/// arrival. Using arrival order would fold reordering into the jitter figure.
pub fn jitter_stats(samples: &[Sample]) -> (r: Option<JitterStats>)
    ensures
        r == jitter_figures(samples@),
{
    let order = in_order(samples, false);
    let mut deltas: Vec<u64> = Vec::new();
    let mut i: usize = 0;
    proof {
        assert(order@.take(0) =~= Seq::empty());
    }
    while i < order.len()
        invariant
            i <= order@.len(),
            deltas@ == ipdv(order@.take(i as int)),
        decreases order@.len() - i,
    {
        proof {
            assert(order@.take(i + 1).drop_last() =~= order@.take(i as int));
        }
        if i > 0 {
            let a: Sample = order[i - 1];
            let b: Sample = order[i];
            if b.seq > a.seq && b.seq - a.seq == 1 {
                deltas.push(abs_diff(b.rtt_ns / 1_000, a.rtt_ns / 1_000));
            }
        }
        i = i + 1;
    }
    proof {
        assert(order@.take(i as int) =~= order@);
    }
    if deltas.len() == 0 {
        return None;
    }
    let ipdv_avg: u64 = mean(&deltas);
    let mut us = rtts_us(samples);
    sort_ascending(&mut us);
    let median: u64 = percentile(&us, 50);
    let mut devs: Vec<u64> = Vec::new();
    let mut j: usize = 0;
    while j < us.len()
        invariant
            j <= us@.len(),
            devs@ == deviations(us@, median).take(j as int),
        decreases us@.len() - j,
    {
        devs.push(abs_diff(us[j], median));
        proof {
            assert(deviations(us@, median).take(j + 1) =~= deviations(us@, median).take(
                j as int,
            ).push(deviations(us@, median)[j as int]));
        }
        j = j + 1;
    }
    proof {
        assert(deviations(us@, median).take(j as int) =~= deviations(us@, median));
    }
    sort_ascending(&mut devs);
    Some(JitterStats { ipdv_avg_us: ipdv_avg, pdv_p95_us: percentile(&devs, 95) })
}

/// Every sample must carry a counter before any attribution is attempted.
/// Guessing from a protocol that cannot tell us is worse than admitting we do
/// not know: a wrong direction sends someone to the wrong end of a path.
pub fn loss_stats(sent: u32, samples: &[Sample]) -> (r: LossStats)
    requires
        samples@.len() <= u32::MAX,
    ensures
        r == loss_figures(sent, samples@),
{
    let received: u32 = samples.len() as u32;
    let missing: u32 = sent.saturating_sub(received);
    let loss_pct = Percent::of(missing, sent);
    let mut counted: bool = true;
    let mut generated: u64 = 0;
    let mut i: usize = 0;
    proof {
        assert(samples@.take(0) =~= Seq::empty());
    }
    while i < samples.len()
        invariant
            i <= samples@.len(),
            counted == all_counted(samples@.take(i as int)),
            generated == replies_generated(samples@.take(i as int)),
            generated <= 0x1_0000_0000,
        decreases samples@.len() - i,
    {
        proof {
            let now = samples@.take(i as int);
            let next = samples@.take(i + 1);
            assert(next.drop_last() =~= now);
            assert(next.last() == samples@[i as int]);
            if all_counted(next) {
                assert forall|k: int| 0 <= k < now.len() implies (
                #[trigger] now[k]).reflector_seq is Some by {
                    assert(next[k].reflector_seq is Some);
                }
                assert(next[i as int].reflector_seq is Some);
            }
            if all_counted(now) && samples@[i as int].reflector_seq is Some {
                assert forall|k: int| 0 <= k < next.len() implies (
                #[trigger] next[k]).reflector_seq is Some by {
                    if k < i {
                        assert(now[k].reflector_seq is Some);
                    }
                }
            }
        }
        match samples[i].reflector_seq {
            Some(c) => {
                if c as u64 + 1 > generated {
                    generated = c as u64 + 1;
                }
            },
            None => {
                counted = false;
            },
        }
        i = i + 1;
    }
    proof {
        assert(samples@.take(i as int) =~= samples@);
    }
    let unattributed = LossStats {
        sent,
        received,
        forward_lost: 0,
        reverse_lost: 0,
        unknown_direction: missing,
        loss_pct,
    };
    if received == 0 || !counted {
        return unattributed;
    }
    let replies: u32 = if generated > 0xFFFF_FFFF {
        0xFFFF_FFFF
    } else {
        generated as u32
    };
    let reverse: u32 = replies.saturating_sub(received);
    LossStats {
        forward_lost: missing.saturating_sub(reverse),
        reverse_lost: if reverse <= missing {
            reverse
        } else {
            missing
        },
        unknown_direction: 0,
        ..unattributed
    }
}

proof fn lemma_occurrences_bound(samples: Seq<Sample>, seq: u32)
    ensures
        occurrences(samples, seq) <= samples.len(),
        repeated(samples) <= samples.len(),
        late(samples) <= samples.len(),
        high_water(samples) <= u32::MAX,
        displacement(samples) <= u32::MAX,
    decreases samples.len(),
{
    if samples.len() > 0 {
        lemma_occurrences_bound(samples.drop_last(), seq);
    }
}

fn repeats(samples: &[Sample]) -> (r: u32)
    requires
        samples@.len() <= u32::MAX,
    ensures
        r == repeated(samples@),
{
    let mut seen: HashMap<u32, u32> = HashMap::new();
    let mut count: u32 = 0;
    let mut i: usize = 0;
    proof {
        assert(samples@.take(0) =~= Seq::empty());
    }
    while i < samples.len()
        invariant
            i <= samples@.len() <= u32::MAX,
            count == repeated(samples@.take(i as int)),
            forall|q: u32| #[trigger]
                seen@.contains_key(q) <==> occurrences(samples@.take(i as int), q) > 0,
            forall|q: u32| #[trigger]
                seen@.contains_key(q) ==> seen@[q] == occurrences(samples@.take(i as int), q),
        decreases samples@.len() - i,
    {
        let seq: u32 = samples[i].seq;
        proof {
            assert(samples@.take(i + 1).drop_last() =~= samples@.take(i as int));
            lemma_occurrences_bound(samples@.take(i as int), seq);
            assert(seen@.contains_key(seq) <==> occurrences(samples@.take(i as int), seq) > 0);
        }
        let before: u32 = match seen.get(&seq) {
            Some(n) => *n,
            None => 0,
        };
        if before == 1 {
            count = count + 1;
        }
        seen.insert(seq, before + 1);
        i = i + 1;
    }
    proof {
        assert(samples@.take(i as int) =~= samples@);
    }
    count
}

/// RFC 4737: a packet is reordered if a higher sequence number has already
/// arrived. Walks arrival order, tracking the high-water mark.
pub fn reorder_stats(samples: &[Sample]) -> (r: ReorderStats)
    requires
        samples@.len() <= u32::MAX,
    ensures
        r == reorder_figures(samples@),
{
    let order = in_order(samples, true);
    let mut high: u32 = 0;
    let mut reordered: u32 = 0;
    let mut max_displacement: u32 = 0;
    let mut i: usize = 0;
    proof {
        assert(order@.take(0) =~= Seq::empty());
        crate::order::lemma_arranged(samples@, |s: Sample| s.arrival_index as int);
    }
    while i < order.len()
        invariant
            i <= order@.len() <= u32::MAX,
            high == high_water(order@.take(i as int)),
            reordered == late(order@.take(i as int)),
            max_displacement == displacement(order@.take(i as int)),
        decreases order@.len() - i,
    {
        proof {
            assert(order@.take(i + 1).drop_last() =~= order@.take(i as int));
            lemma_occurrences_bound(order@.take(i as int), 0);
        }
        let seq: u32 = order[i].seq;
        if seq < high {
            reordered = reordered + 1;
            if high - seq > max_displacement {
                max_displacement = high - seq;
            }
        } else {
            high = seq;
        }
        i = i + 1;
    }
    proof {
        assert(order@.take(i as int) =~= order@);
    }
    ReorderStats { reordered, max_displacement, duplicated: repeats(samples) }
}

proof fn lemma_observed_bound(samples: Seq<Sample>, class: int)
    ensures
        observed(samples, class) <= echoed(samples) <= samples.len(),
    decreases samples.len(),
{
    if samples.len() > 0 {
        lemma_observed_bound(samples.drop_last(), class);
    }
}

/// Only samples where the peer actually reported a class count. An all-zero set
/// is a real answer: the path bleached the marking.
pub fn dscp_stats(requested: u8, samples: &[Sample]) -> (r: Option<DscpStats>)
    requires
        samples@.len() <= u32::MAX,
    ensures
        dscp_figures(requested, samples@, r),
{
    let mut counts: Vec<u32> = vec![0u32; 64];
    let mut reported: u32 = 0;
    let mut i: usize = 0;
    proof {
        assert(samples@.take(0) =~= Seq::empty());
    }
    while i < samples.len()
        invariant
            i <= samples@.len() <= u32::MAX,
            counts@.len() == 64,
            reported == echoed(samples@.take(i as int)),
            forall|c: int|
                0 <= c < 64 ==> #[trigger] counts@[c] == observed(samples@.take(i as int), c),
        decreases samples@.len() - i,
    {
        proof {
            assert(samples@.take(i + 1).drop_last() =~= samples@.take(i as int));
            lemma_observed_bound(samples@.take(i as int), 0);
        }
        match samples[i].rx_dscp {
            Some(d) => {
                let class: usize = (d % 64) as usize;
                proof {
                    lemma_observed_bound(samples@.take(i as int), class as int);
                }
                counts.set(class, counts[class] + 1);
                reported = reported + 1;
            },
            None => {},
        }
        i = i + 1;
    }
    proof {
        assert(samples@.take(i as int) =~= samples@);
    }
    if reported == 0 {
        return None;
    }
    let mut mode: usize = 0;
    let mut c: usize = 1;
    while c < 64
        invariant
            mode < c <= 64,
            counts@.len() == 64,
            forall|k: int| 0 <= k < c ==> #[trigger] counts@[k] <= counts@[mode as int],
            forall|k: int| mode < k < c ==> #[trigger] counts@[k] < counts@[mode as int],
        decreases 64 - c,
    {
        if counts[c] >= counts[mode] {
            mode = c;
        }
        c = c + 1;
    }
    let conformant: u32 = counts[(requested % 64) as usize];
    proof {
        assert forall|k: int| 0 <= k < 64 implies #[trigger] observed(samples@, k) <= observed(
            samples@,
            mode as int,
        ) by {
            assert(counts@[k] <= counts@[mode as int]);
        }
        assert forall|k: int| mode < k < 64 implies #[trigger] observed(samples@, k) < observed(
            samples@,
            mode as int,
        ) by {
            assert(counts@[k] < counts@[mode as int]);
        }
    }
    Some(
        DscpStats {
            requested,
            observed_mode: mode as u8,
            conformant_pct: Percent::of(conformant, reported),
        },
    )
}

/// Every missing packet is counted in exactly one direction.
pub proof fn law_loss_is_partitioned(sent: u32, samples: Seq<Sample>)
    requires
        samples.len() <= u32::MAX,
    ensures
        ({
            let l = loss_figures(sent, samples);
            l.forward_lost + l.reverse_lost + l.unknown_direction == less_or_zero(
                sent as nat,
                samples.len(),
            )
        }),
{
}

/// A protocol that cannot attribute a direction never claims one, and neither
/// does a run from which nothing came back.
pub proof fn law_no_direction_without_a_counter(sent: u32, samples: Seq<Sample>)
    requires
        samples.len() <= u32::MAX,
        !all_counted(samples) || samples.len() == 0,
    ensures
        loss_figures(sent, samples).forward_lost == 0,
        loss_figures(sent, samples).reverse_lost == 0,
        loss_figures(sent, samples).unknown_direction == less_or_zero(sent as nat, samples.len()),
{
}

/// Loss is a share: between nothing and everything, and everything exactly when
/// nothing of what was sent came back.
pub proof fn law_loss_is_a_share(sent: u32, samples: Seq<Sample>)
    requires
        samples.len() <= u32::MAX,
    ensures
        loss_figures(sent, samples).loss_pct.hundredths <= 10_000,
        samples.len() >= sent ==> loss_figures(sent, samples).loss_pct.hundredths == 0,
        sent > 0 && samples.len() == 0 ==> loss_figures(sent, samples).loss_pct.hundredths
            == 10_000,
{
    let missing = less_or_zero(sent as nat, samples.len()) as int;
    if sent > 0 {
        let w = sent as int;
        assert((missing * 20_000 + w) / (2 * w) <= 10_000) by (nonlinear_arith)
            requires
                0 <= missing <= w,
                w > 0,
        ;
        if missing == 0 {
            assert((0 * 20_000 + w) / (2 * w) == 0) by (nonlinear_arith)
                requires
                    w > 0,
            ;
        }
        if missing == w {
            assert((w * 20_000 + w) / (2 * w) == 10_000) by (nonlinear_arith)
                requires
                    w > 0,
            ;
        }
    }
}

/// The seqs that a run received more than once.
pub open spec fn repeated_seqs(samples: Seq<Sample>) -> Set<u32> {
    Set::new(|q: u32| occurrences(samples, q) >= 2)
}

/// The duplicate count is the number of distinct sequence numbers that were
/// received more than once.
pub proof fn law_duplicates_count_sequence_numbers(samples: Seq<Sample>)
    ensures
        repeated_seqs(samples).finite(),
        repeated_seqs(samples).len() == repeated(samples),
    decreases samples.len(),
{
    if samples.len() == 0 {
        assert(repeated_seqs(samples) =~= Set::empty());
    } else {
        let rest = samples.drop_last();
        let last = samples.last().seq;
        law_duplicates_count_sequence_numbers(rest);
        if occurrences(rest, last) >= 1 {
            assert(repeated_seqs(samples) =~= repeated_seqs(rest).insert(last));
        } else {
            assert(repeated_seqs(samples) =~= repeated_seqs(rest));
        }
    }
}

/// A run that arrived in the order it was sent has no reordering.
pub proof fn law_in_order_arrival_is_not_reordered(order: Seq<Sample>)
    requires
        forall|i: int, j: int|
            0 <= i <= j < order.len() ==> (#[trigger] order[i]).seq <= (#[trigger] order[j]).seq,
    ensures
        late(order) == 0,
        displacement(order) == 0,
        order.len() > 0 ==> high_water(order) == order.last().seq,
    decreases order.len(),
{
    if order.len() > 0 {
        let rest = order.drop_last();
        assert forall|i: int, j: int| 0 <= i <= j < rest.len() implies (#[trigger] rest[i]).seq <= (
        #[trigger] rest[j]).seq by {
            assert(order[i].seq <= order[j].seq);
        }
        law_in_order_arrival_is_not_reordered(rest);
        if rest.len() > 0 {
            assert(order[order.len() - 2].seq <= order[order.len() - 1].seq);
        }
    }
}

/// A sample without the order it arrived in.
pub open spec fn unnumbered(s: Sample) -> Sample {
    Sample { arrival_index: 0, ..s }
}

/// The two runs hold the same samples, but for the order they arrived in.
pub open spec fn same_but_arrival(a: Seq<Sample>, b: Seq<Sample>) -> bool {
    a.map_values(|s: Sample| unnumbered(s)).to_multiset() == b.map_values(
        |s: Sample| unnumbered(s),
    ).to_multiset()
}

/// No two samples are of the same packet.
pub open spec fn distinct_packets(samples: Seq<Sample>) -> bool {
    forall|i: int, j: int|
        0 <= i < j < samples.len() ==> (#[trigger] samples[i]).seq != (#[trigger] samples[j]).seq
}

/// Jitter depends on the order of sending alone: a run whose packets are
/// distinct has the same jitter in whatever order they arrived.
pub proof fn law_jitter_ignores_the_order_of_arrival(a: Seq<Sample>, b: Seq<Sample>)
    requires
        distinct_packets(b),
        same_but_arrival(a, b),
    ensures
        jitter_figures(a) == jitter_figures(b),
{
    let f = |s: Sample| unnumbered(s);
    let rank = |s: Sample| s.seq as int;
    let ua = a.map_values(f);
    let ub = b.map_values(f);
    lemma_jitter_unnumbered(a);
    lemma_jitter_unnumbered(b);
    crate::order::lemma_arranged(ua, rank);
    crate::order::lemma_arranged(ub, rank);
    lemma_distinct_arranged(ub);
    crate::order::lemma_same_arrangement(by_seq(ua), by_seq(ub), rank);
    let us = |s: Sample| (s.rtt_ns / 1_000) as u64;
    crate::order::lemma_described_alike(ua, ub, us);
    assert(rtts(ua) =~= ua.map_values(us));
    assert(rtts(ub) =~= ub.map_values(us));
    crate::order::lemma_ascending_alike(rtts(ua), rtts(ub));
}

proof fn lemma_jitter_unnumbered(a: Seq<Sample>)
    ensures
        jitter_figures(a.map_values(|s: Sample| unnumbered(s))) == jitter_figures(a),
{
    let f = |s: Sample| unnumbered(s);
    let rank = |s: Sample| s.seq as int;
    crate::order::lemma_arranged_map(a, f, rank, rank);
    lemma_ipdv_unnumbered(by_seq(a));
    assert(rtts(a.map_values(f)) =~= rtts(a));
}

proof fn lemma_ipdv_unnumbered(order: Seq<Sample>)
    ensures
        ipdv(order.map_values(|s: Sample| unnumbered(s))) == ipdv(order),
    decreases order.len(),
{
    let f = |s: Sample| unnumbered(s);
    if order.len() >= 2 {
        lemma_ipdv_unnumbered(order.drop_last());
        assert(order.map_values(f).drop_last() =~= order.drop_last().map_values(f));
    }
}

/// Distinct packets stay distinct when they are arranged.
proof fn lemma_distinct_arranged(s: Seq<Sample>)
    requires
        distinct_packets(s),
    ensures
        distinct_packets(by_seq(s)),
    decreases s.len(),
{
    if s.len() > 0 {
        let rest = s.drop_last();
        let x = s.last();
        assert forall|i: int, j: int| 0 <= i < j < rest.len() implies (#[trigger] rest[i]).seq != (
        #[trigger] rest[j]).seq by {
            assert(s[i].seq != s[j].seq);
        }
        lemma_distinct_arranged(rest);
        crate::order::lemma_arranged(rest, |s: Sample| s.seq as int);
        by_seq(rest).to_multiset_ensures();
        rest.to_multiset_ensures();
        assert forall|i: int| 0 <= i < by_seq(rest).len() implies (#[trigger] by_seq(rest)[i]).seq
            != x.seq by {
            assert(by_seq(rest).to_multiset().count(by_seq(rest)[i]) > 0) by {
                assert(by_seq(rest).contains(by_seq(rest)[i]));
            }
            assert(rest.to_multiset().count(by_seq(rest)[i]) > 0);
            assert(rest.contains(by_seq(rest)[i]));
            let k = choose|k: int| 0 <= k < rest.len() && rest[k] == by_seq(rest)[i];
            assert(s[k].seq != s[s.len() - 1].seq);
        }
        lemma_distinct_placed(by_seq(rest), x, |s: Sample| s.seq as int);
    }
}

proof fn lemma_distinct_placed(order: Seq<Sample>, x: Sample, rank: spec_fn(Sample) -> int)
    requires
        distinct_packets(order),
        forall|i: int| 0 <= i < order.len() ==> (#[trigger] order[i]).seq != x.seq,
    ensures
        distinct_packets(crate::order::placed(order, x, rank)),
        forall|i: int|
            0 <= i < crate::order::placed(order, x, rank).len() ==> {
                let y = #[trigger] crate::order::placed(order, x, rank)[i];
                y == x || order.contains(y)
            },
    decreases order.len(),
{
    let after = crate::order::placed(order, x, rank);
    if order.len() == 0 || rank(order.last()) <= rank(x) {
        assert(after == order.push(x));
        assert forall|i: int| 0 <= i < after.len() implies (#[trigger] after[i]) == x
            || order.contains(after[i]) by {
            if i < order.len() {
                assert(order[i] == after[i]);
            }
        }
    } else {
        let rest = order.drop_last();
        assert forall|i: int, j: int| 0 <= i < j < rest.len() implies (#[trigger] rest[i]).seq != (
        #[trigger] rest[j]).seq by {
            assert(order[i].seq != order[j].seq);
        }
        assert forall|i: int| 0 <= i < rest.len() implies (#[trigger] rest[i]).seq != x.seq by {
            assert(order[i].seq != x.seq);
        }
        lemma_distinct_placed(rest, x, rank);
        let below = crate::order::placed(rest, x, rank);
        let top = order[order.len() - 1];
        assert(after == below.push(top));
        assert forall|i: int| 0 <= i < below.len() implies (#[trigger] below[i]).seq != top.seq
            && (below[i] == x || order.contains(below[i])) by {
            if below[i] != x {
                let k = choose|k: int| 0 <= k < rest.len() && rest[k] == below[i];
                assert(order[k] == below[i]);
                assert(order[k].seq != top.seq);
            }
        }
        assert(order.contains(top));
    }
}

/// A nearest-rank percentile of any values: one of them, with at least that
/// share of the values at or below it and less than that share below it.
proof fn lemma_nearest_rank(s: Seq<u64>, p: nat)
    requires
        s.len() > 0,
        1 <= p <= 100,
    ensures
        ({
            let v = percentile_of(crate::order::ascending(s), p);
            &&& s.contains(v)
            &&& s.filter(|x: u64| x <= v).len() * 100 >= p * s.len()
            &&& s.filter(|x: u64| x < v).len() * 100 < p * s.len()
        }),
{
    let key = |v: u64| v as int;
    let u = crate::order::ascending(s);
    let n = s.len();
    let v = percentile_of(u, p);
    let rank = (p * n + 99) / 100;
    crate::order::lemma_arranged(s, key);
    assert(p * n >= n && p * n <= 100 * n) by (nonlinear_arith)
        requires
            1 <= p <= 100,
    ;
    assert(1 <= rank <= n);
    assert(v == u[rank - 1]);
    crate::order::lemma_arranged_contains(s, key, v);
    let low = |x: u64| x <= v;
    let below = |x: u64| x < v;
    assert forall|i: int| 0 <= i < rank implies low(#[trigger] u[i]) by {
        assert(key(u[i]) <= key(u[rank - 1]));
    }
    crate::order::lemma_filter_ends(u, low, rank as int);
    assert forall|i: int| rank - 1 <= i < u.len() implies !below(#[trigger] u[i]) by {
        assert(key(u[rank - 1]) <= key(u[i]));
    }
    crate::order::lemma_filter_ends(u, below, rank - 1);
    crate::order::lemma_arranged_filter(s, key, low);
    crate::order::lemma_arranged_filter(s, key, below);
}

/// The share of the samples at or below a value, and below it.
proof fn lemma_rtts_split(samples: Seq<Sample>, v: u64)
    ensures
        rtts(samples).filter(|x: u64| x <= v).len() == samples.filter(
            |s: Sample| s.rtt_ns / 1_000 <= v,
        ).len(),
        rtts(samples).filter(|x: u64| x < v).len() == samples.filter(
            |s: Sample| s.rtt_ns / 1_000 < v,
        ).len(),
        rtts(samples).contains(v) ==> exists|i: int|
            0 <= i < samples.len() && (#[trigger] samples[i]).rtt_ns / 1_000 == v,
{
    let us = |s: Sample| (s.rtt_ns / 1_000) as u64;
    crate::order::lemma_map_filter(
        samples,
        rtts(samples),
        us,
        |x: u64| x <= v,
        |s: Sample| s.rtt_ns / 1_000 <= v,
    );
    crate::order::lemma_map_filter(
        samples,
        rtts(samples),
        us,
        |x: u64| x < v,
        |s: Sample| s.rtt_ns / 1_000 < v,
    );
    if rtts(samples).contains(v) {
        let i = choose|i: int| 0 <= i < rtts(samples).len() && rtts(samples)[i] == v;
        assert(samples[i].rtt_ns / 1_000 == v);
    }
}

/// Each RTT percentile is a round trip that was measured: at least its share
/// of the samples took no longer, and less than its share took less.
pub proof fn law_percentiles_split_the_samples(samples: Seq<Sample>, r: RttStats)
    requires
        rtt_figures(samples, Some(r)),
    ensures
        exists|i: int|
            0 <= i < samples.len() && (#[trigger] samples[i]).rtt_ns / 1_000 == r.p50_us,
        samples.filter(|s: Sample| s.rtt_ns / 1_000 <= r.p50_us).len() * 100 >= 50 * samples.len(),
        samples.filter(|s: Sample| s.rtt_ns / 1_000 < r.p50_us).len() * 100 < 50 * samples.len(),
        exists|i: int|
            0 <= i < samples.len() && (#[trigger] samples[i]).rtt_ns / 1_000 == r.p95_us,
        samples.filter(|s: Sample| s.rtt_ns / 1_000 <= r.p95_us).len() * 100 >= 95 * samples.len(),
        samples.filter(|s: Sample| s.rtt_ns / 1_000 < r.p95_us).len() * 100 < 95 * samples.len(),
        exists|i: int|
            0 <= i < samples.len() && (#[trigger] samples[i]).rtt_ns / 1_000 == r.p99_us,
        samples.filter(|s: Sample| s.rtt_ns / 1_000 <= r.p99_us).len() * 100 >= 99 * samples.len(),
        samples.filter(|s: Sample| s.rtt_ns / 1_000 < r.p99_us).len() * 100 < 99 * samples.len(),
{
    lemma_nearest_rank(rtts(samples), 50);
    lemma_rtts_split(samples, r.p50_us);
    lemma_nearest_rank(rtts(samples), 95);
    lemma_rtts_split(samples, r.p95_us);
    lemma_nearest_rank(rtts(samples), 99);
    lemma_rtts_split(samples, r.p99_us);
}

/// The packet delay variation is the distance of some sample's round trip from
/// the median: at least 95 in 100 of the samples are no further from it, and
/// fewer than 95 in 100 are nearer.
pub proof fn law_delay_variation_splits_the_samples(
    samples: Seq<Sample>,
    r: RttStats,
    j: JitterStats,
)
    requires
        rtt_figures(samples, Some(r)),
        jitter_figures(samples) == Some(j),
    ensures
        exists|i: int|
            0 <= i < samples.len() && {
                ||| (#[trigger] samples[i]).rtt_ns / 1_000 == r.p50_us + j.pdv_p95_us
                ||| samples[i].rtt_ns / 1_000 == r.p50_us - j.pdv_p95_us
            },
        samples.filter(
            |s: Sample|
                r.p50_us - j.pdv_p95_us <= s.rtt_ns / 1_000 <= r.p50_us + j.pdv_p95_us,
        ).len() * 100 >= 95 * samples.len(),
        samples.filter(
            |s: Sample| r.p50_us - j.pdv_p95_us < s.rtt_ns / 1_000 < r.p50_us + j.pdv_p95_us,
        ).len() * 100 < 95 * samples.len(),
{
    let key = |v: u64| v as int;
    let raw = rtts(samples);
    let us = crate::order::ascending(raw);
    let c = r.p50_us;
    let d = j.pdv_p95_us;
    let devs = deviations(us, c);
    crate::order::lemma_arranged(raw, key);
    lemma_nearest_rank(devs, 95);
    let k = choose|k: int| 0 <= k < devs.len() && devs[k] == d;
    assert(us.contains(us[k]));
    crate::order::lemma_arranged_contains(raw, key, us[k]);
    lemma_rtts_split(samples, us[k]);
    let away = |x: u64| distance(x as int, c as int) as u64;
    let no_further = |x: u64| x <= d;
    let nearer = |x: u64| x < d;
    let us_within = |x: u64| distance(x as int, c as int) <= d;
    let us_inside = |x: u64| distance(x as int, c as int) < d;
    crate::order::lemma_map_filter(us, devs, away, no_further, us_within);
    crate::order::lemma_map_filter(us, devs, away, nearer, us_inside);
    crate::order::lemma_arranged_filter(raw, key, us_within);
    crate::order::lemma_arranged_filter(raw, key, us_inside);
    let micros = |s: Sample| (s.rtt_ns / 1_000) as u64;
    crate::order::lemma_map_filter(
        samples,
        raw,
        micros,
        us_within,
        |s: Sample| c - d <= s.rtt_ns / 1_000 <= c + d,
    );
    crate::order::lemma_map_filter(
        samples,
        raw,
        micros,
        us_inside,
        |s: Sample| c - d < s.rtt_ns / 1_000 < c + d,
    );
}

proof fn lemma_total_is_a_sum(s: Seq<u64>)
    ensures
        total(s) == s.fold_left(0, |a: int, x: u64| a + x),
    decreases s.len(),
{
    reveal(Seq::fold_left);
    if s.len() > 0 {
        lemma_total_is_a_sum(s.drop_last());
    }
}

proof fn lemma_spread_is_a_sum(s: Seq<u64>, centre: int)
    ensures
        spread(s, centre) == s.fold_left(0, |a: int, x: u64| a + (x - centre) * (x - centre)),
    decreases s.len(),
{
    reveal(Seq::fold_left);
    if s.len() > 0 {
        lemma_spread_is_a_sum(s.drop_last(), centre);
        let x = s.last() as int;
        assert((x - centre) * (x - centre) == (centre - x) * (centre - x)) by (nonlinear_arith);
    }
}

proof fn lemma_rtts_sum(samples: Seq<Sample>, w: spec_fn(int, u64) -> int, v: spec_fn(int, Sample) -> int)
    requires
        forall|a: int, s: Sample| #[trigger] v(a, s) == w(a, (s.rtt_ns / 1_000) as u64),
    ensures
        rtts(samples).fold_left(0, w) == samples.fold_left(0, v),
    decreases samples.len(),
{
    reveal(Seq::fold_left);
    if samples.len() > 0 {
        lemma_rtts_sum(samples.drop_last(), w, v);
        assert(rtts(samples).drop_last() =~= rtts(samples.drop_last()));
    }
}

/// The extremes are round trips that were measured and bound all of them; the
/// mean is the sum of the round trips over their number, and the deviation the
/// root of the mean squared distance from it, each rounded down.
pub proof fn law_extremes_mean_and_deviation(samples: Seq<Sample>, r: RttStats)
    requires
        rtt_figures(samples, Some(r)),
    ensures
        forall|i: int|
            0 <= i < samples.len() ==> r.min_us <= (#[trigger] samples[i]).rtt_ns / 1_000
                <= r.max_us,
        exists|i: int|
            0 <= i < samples.len() && (#[trigger] samples[i]).rtt_ns / 1_000 == r.min_us,
        exists|i: int|
            0 <= i < samples.len() && (#[trigger] samples[i]).rtt_ns / 1_000 == r.max_us,
        ({
            let sum = samples.fold_left(0, |a: int, s: Sample| a + s.rtt_ns / 1_000);
            r.avg_us * samples.len() <= sum < (r.avg_us + 1) * samples.len()
        }),
        ({
            let squares = samples.fold_left(
                0,
                |a: int, s: Sample|
                    a + (s.rtt_ns / 1_000 - r.avg_us) * (s.rtt_ns / 1_000 - r.avg_us),
            );
            r.stddev_us * r.stddev_us * samples.len() <= squares < (r.stddev_us + 1) * (r.stddev_us
                + 1) * samples.len()
        }),
{
    let key = |v: u64| v as int;
    let raw = rtts(samples);
    let us = crate::order::ascending(raw);
    let n = samples.len() as int;
    crate::order::lemma_arranged(raw, key);
    assert(us.contains(us[0]) && us.contains(us[us.len() - 1]));
    crate::order::lemma_arranged_contains(raw, key, r.min_us);
    crate::order::lemma_arranged_contains(raw, key, r.max_us);
    lemma_rtts_split(samples, r.min_us);
    lemma_rtts_split(samples, r.max_us);
    assert forall|i: int| 0 <= i < samples.len() implies r.min_us <= (#[trigger] samples[i]).rtt_ns
        / 1_000 <= r.max_us by {
        let v = raw[i];
        assert(raw.contains(v));
        crate::order::lemma_arranged_contains(raw, key, v);
        let k = choose|k: int| 0 <= k < us.len() && us[k] == v;
        assert(key(us[0]) <= key(us[k]) <= key(us[us.len() - 1]));
    }
    let plus = |a: int, x: u64| a + x;
    let plus_s = |a: int, s: Sample| a + s.rtt_ns / 1_000;
    lemma_total_is_a_sum(us);
    crate::order::lemma_arranged_sum(raw, key, plus, |x: u64| x as int);
    lemma_rtts_sum(samples, plus, plus_s);
    let sum = samples.fold_left(0, plus_s);
    let avg = r.avg_us as int;
    assert(avg * n <= sum < (avg + 1) * n) by (nonlinear_arith)
        requires
            avg == sum / n,
            n > 0,
    ;
    let sq = |a: int, x: u64| a + (x - avg) * (x - avg);
    let sq_s = |a: int, s: Sample| a + (s.rtt_ns / 1_000 - avg) * (s.rtt_ns / 1_000 - avg);
    lemma_spread_is_a_sum(us, avg);
    crate::order::lemma_arranged_sum(raw, key, sq, |x: u64| (x - avg) * (x - avg));
    lemma_rtts_sum(samples, sq, sq_s);
    let squares = samples.fold_left(0, sq_s);
    let sd = r.stddev_us as int;
    assert(sd * sd * n <= squares < (sd + 1) * (sd + 1) * n) by (nonlinear_arith)
        requires
            sd * sd <= squares / n < (sd + 1) * (sd + 1),
            n > 0,
    ;
}

/// A run has RTT figures exactly when something came back, and jitter exactly
/// when two packets sent one after the other both did.
pub proof fn law_when_there_are_figures(samples: Seq<Sample>, r: Option<RttStats>)
    requires
        rtt_figures(samples, r),
    ensures
        r is None <==> samples.len() == 0,
        jitter_figures(samples) is Some <==> exists|i: int, k: int|
            0 <= i < samples.len() && 0 <= k < samples.len() && (#[trigger] samples[k]).seq == (
            #[trigger] samples[i]).seq + 1,
{
    let key = |s: Sample| s.seq as int;
    let o = by_seq(samples);
    crate::order::lemma_arranged(samples, key);
    lemma_ipdv_steps(o, o.len() as int);
    crate::discovery::group::lemma_take_ends(o);
    let all = Seq::new(less_or_zero(o.len(), 1), |i: int| i);
    let steps = all.filter(|i: int| o[i + 1].seq == o[i].seq + 1);
    if jitter_figures(samples) is Some {
        let i = steps[0];
        assert(steps.contains(i));
        all.lemma_filter_contains_rev(|i: int| o[i + 1].seq == o[i].seq + 1, i);
        all.lemma_filter_pred(|i: int| o[i + 1].seq == o[i].seq + 1, 0);
        crate::order::lemma_arranged_contains(samples, key, o[i]);
        crate::order::lemma_arranged_contains(samples, key, o[i + 1]);
        assert(o.contains(o[i]) && o.contains(o[i + 1]));
        let a = choose|a: int| 0 <= a < samples.len() && samples[a] == o[i];
        let b = choose|b: int| 0 <= b < samples.len() && samples[b] == o[i + 1];
        assert(samples[b].seq == samples[a].seq + 1);
    }
    if exists|i: int, k: int|
        0 <= i < samples.len() && 0 <= k < samples.len() && (#[trigger] samples[k]).seq == (
        #[trigger] samples[i]).seq + 1 {
        let (i, k) = choose|i: int, k: int|
            0 <= i < samples.len() && 0 <= k < samples.len() && (#[trigger] samples[k]).seq == (
            #[trigger] samples[i]).seq + 1;
        assert(samples.contains(samples[i]) && samples.contains(samples[k]));
        crate::order::lemma_arranged_contains(samples, key, samples[i]);
        crate::order::lemma_arranged_contains(samples, key, samples[k]);
        let a = choose|a: int| 0 <= a < o.len() && o[a] == samples[i];
        let b = choose|b: int| 0 <= b < o.len() && o[b] == samples[k];
        assert(a < b) by {
            if b <= a {
                assert(key(o[b]) <= key(o[a]));
            }
        }
        let c = lemma_neighbours(o, a, b);
        assert(all[c] == c);
        let p = |i: int| o[i + 1].seq == o[i].seq + 1;
        assert(p(all[c]));
        all.lemma_filter_contains(p, c);
        assert(steps.contains(c));
        assert(steps.len() > 0);
    }
}

/// Between a packet and the next that was sent, two neighbours are one apart.
proof fn lemma_neighbours(o: Seq<Sample>, a: int, b: int) -> (c: int)
    requires
        0 <= a < b < o.len(),
        o[b].seq == o[a].seq + 1,
        forall|i: int, j: int|
            0 <= i <= j < o.len() ==> (#[trigger] o[i]).seq <= (#[trigger] o[j]).seq,
    ensures
        a <= c < b,
        o[c + 1].seq == o[c].seq + 1,
    decreases b - a,
{
    assert(o[b - 1].seq <= o[b].seq);
    assert(o[a].seq <= o[b - 1].seq);
    if o[b - 1].seq == o[b].seq {
        lemma_neighbours(o, a, b - 1)
    } else {
        b - 1
    }
}

/// The variation between neighbours, neighbour by neighbour.
proof fn lemma_ipdv_steps(o: Seq<Sample>, k: int)
    requires
        0 <= k <= o.len(),
    ensures
        ({
            let steps = Seq::new(less_or_zero(k as nat, 1), |i: int| i).filter(
                |i: int| o[i + 1].seq == o[i].seq + 1,
            );
            let deltas = ipdv(o.take(k));
            &&& deltas.len() == steps.len()
            &&& total(deltas) == steps.fold_left(
                0,
                |a: int, i: int|
                    a + (if o[i + 1].rtt_ns / 1_000 >= o[i].rtt_ns / 1_000 {
                        o[i + 1].rtt_ns / 1_000 - o[i].rtt_ns / 1_000
                    } else {
                        o[i].rtt_ns / 1_000 - o[i + 1].rtt_ns / 1_000
                    }),
            )
        }),
    decreases k,
{
    let next = |i: int| o[i + 1].seq == o[i].seq + 1;
    let plus = |a: int, i: int|
        a + (if o[i + 1].rtt_ns / 1_000 >= o[i].rtt_ns / 1_000 {
            o[i + 1].rtt_ns / 1_000 - o[i].rtt_ns / 1_000
        } else {
            o[i].rtt_ns / 1_000 - o[i + 1].rtt_ns / 1_000
        });
    reveal(Seq::fold_left);
    reveal(Seq::filter);
    if k >= 2 {
        lemma_ipdv_steps(o, k - 1);
        crate::discovery::group::lemma_take_step(o, k - 1);
        let all = Seq::new(less_or_zero(k as nat, 1), |i: int| i);
        let rest = Seq::new(less_or_zero((k - 1) as nat, 1), |i: int| i);
        assert(all =~= rest.push(k - 2));
        crate::order::lemma_filter_push(rest, k - 2, next);
        assert(all.filter(next) == (if next(k - 2) {
            rest.filter(next).push(k - 2)
        } else {
            rest.filter(next)
        }));
        assert(rest.filter(next).push(k - 2).drop_last() =~= rest.filter(next));
        let deltas = ipdv(o.take(k - 1));
        assert(o.take(k)[k - 2] == o[k - 2]);
        if next(k - 2) {
            assert(ipdv(o.take(k)).drop_last() =~= deltas);
        }
    } else {
        assert(Seq::new(less_or_zero(k as nat, 1), |i: int| i) =~= Seq::empty());
    }
}

/// The mean delay variation is taken over the packets in the order they were
/// sent: the difference between the round trips of each two that were sent one
/// after the other, added up, over how many such pairs there are.
pub proof fn law_jitter_is_the_mean_step(samples: Seq<Sample>, j: JitterStats)
    requires
        jitter_figures(samples) == Some(j),
    ensures
        by_seq(samples).to_multiset() == samples.to_multiset(),
        forall|i: int, k: int|
            0 <= i <= k < samples.len() ==> (#[trigger] by_seq(samples)[i]).seq <= (
            #[trigger] by_seq(samples)[k]).seq,
        ({
            let o = by_seq(samples);
            let steps = Seq::new((o.len() - 1) as nat, |i: int| i).filter(
                |i: int| o[i + 1].seq == o[i].seq + 1,
            );
            let sum = steps.fold_left(
                0,
                |a: int, i: int|
                    a + (if o[i + 1].rtt_ns / 1_000 >= o[i].rtt_ns / 1_000 {
                        o[i + 1].rtt_ns / 1_000 - o[i].rtt_ns / 1_000
                    } else {
                        o[i].rtt_ns / 1_000 - o[i + 1].rtt_ns / 1_000
                    }),
            );
            &&& steps.len() > 0
            &&& j.ipdv_avg_us * steps.len() <= sum < (j.ipdv_avg_us + 1) * steps.len()
        }),
{
    let key = |s: Sample| s.seq as int;
    let o = by_seq(samples);
    crate::order::lemma_arranged(samples, key);
    assert forall|i: int, k: int| 0 <= i <= k < samples.len() implies (#[trigger] by_seq(
        samples,
    )[i]).seq <= (#[trigger] by_seq(samples)[k]).seq by {
        assert(key(o[i]) <= key(o[k]));
    }
    lemma_ipdv_steps(o, o.len() as int);
    crate::discovery::group::lemma_take_ends(o);
    let deltas = ipdv(o);
    let n = deltas.len() as int;
    let sum = total(deltas) as int;
    lemma_total_bound(deltas);
    assert(n * u64::MAX == u64::MAX * n);
    let avg = sum / n;
    assert(avg * n <= sum < (avg + 1) * n && 0 <= avg <= u64::MAX) by (nonlinear_arith)
        requires
            avg == sum / n,
            n > 0,
            0 <= sum <= n * u64::MAX,
    ;
}

/// Replies that the reflector numbered beyond those that came back died on the
/// way back, as far as packets are missing: no other loss is put on the way
/// back, and none of these on the way out.
pub proof fn law_reverse_loss_follows_the_counter(sent: u32, samples: Seq<Sample>)
    requires
        samples.len() <= u32::MAX,
        0 < samples.len() <= sent,
        all_counted(samples),
    ensures
        ({
            let l = loss_figures(sent, samples);
            let missing = sent - samples.len();
            &&& l.unknown_direction == 0
            &&& forall|i: int|
                0 <= i < samples.len() ==> l.reverse_lost >= missing || l.reverse_lost >= (
                #[trigger] samples[i]).reflector_seq->0 + 1 - samples.len() || l.reverse_lost
                    + samples.len() == u32::MAX
            &&& l.reverse_lost > 0 ==> exists|i: int|
                0 <= i < samples.len() && (#[trigger] samples[i]).reflector_seq->0 + 1
                    >= samples.len() + l.reverse_lost
        }),
{
    let g = replies_generated(samples);
    lemma_replies_generated(samples);
}

proof fn lemma_replies_generated(samples: Seq<Sample>)
    requires
        all_counted(samples),
    ensures
        forall|i: int|
            0 <= i < samples.len() ==> replies_generated(samples) >= (
            #[trigger] samples[i]).reflector_seq->0 + 1,
        samples.len() > 0 ==> exists|i: int|
            0 <= i < samples.len() && replies_generated(samples) == (
            #[trigger] samples[i]).reflector_seq->0 + 1,
    decreases samples.len(),
{
    if samples.len() > 0 {
        let rest = samples.drop_last();
        assert forall|i: int| 0 <= i < rest.len() implies (
        #[trigger] rest[i]).reflector_seq is Some by {
            assert(samples[i].reflector_seq is Some);
        }
        lemma_replies_generated(rest);
        let last = samples.len() - 1;
        assert(samples[last].reflector_seq is Some);
        assert forall|i: int| 0 <= i < samples.len() implies replies_generated(samples) >= (
        #[trigger] samples[i]).reflector_seq->0 + 1 by {
            if i < last {
                assert(rest[i] == samples[i]);
            }
        }
        if replies_generated(samples) == samples[last].reflector_seq->0 + 1 {
        } else {
            let i = choose|i: int|
                0 <= i < rest.len() && replies_generated(rest) == (
                #[trigger] rest[i]).reflector_seq->0 + 1;
            assert(samples[i] == rest[i]);
        }
    }
}

/// A share in hundredths of a percent is off by half a hundredth at most, and
/// what is sent and received is reported as it is.
pub proof fn law_loss_counts_what_is_missing(sent: u32, samples: Seq<Sample>)
    requires
        samples.len() <= sent,
    ensures
        ({
            let l = loss_figures(sent, samples);
            let missing = sent - samples.len();
            &&& l.sent == sent
            &&& l.received == samples.len()
            &&& sent > 0 ==> -(sent as int) < 2 * (10_000 * missing - l.loss_pct.hundredths * sent)
                <= sent || 2 * (l.loss_pct.hundredths * sent - 10_000 * missing) == sent
        }),
{
    if sent > 0 {
        lemma_hundredths((sent - samples.len()) as nat, sent as nat);
    }
}

proof fn lemma_hundredths(part: nat, whole: nat)
    requires
        0 < whole <= u32::MAX,
        part <= whole,
    ensures
        hundredths_of(part, whole) <= 10_000,
        -(whole as int) <= 2 * (10_000 * part - hundredths_of(part, whole) * whole) <= whole,
{
    let h = hundredths_of(part, whole) as int;
    let w = whole as int;
    let p = part as int;
    let a = p * 20_000 + w;
    vstd::arithmetic::div_mod::lemma_fundamental_div_mod(a, 2 * w);
    vstd::arithmetic::div_mod::lemma_mod_bound(a, 2 * w);
    assert(2 * w * h == 2 * (h * w)) by (nonlinear_arith);
    assert(a == 2 * (h * w) + a % (2 * w));
    assert(h <= 10_000) by (nonlinear_arith)
        requires
            2 * (h * w) <= p * 20_000 + w,
            0 <= p <= w,
            w > 0,
    ;
}

/// What was counted as out of order: each packet that arrived after one that
/// was sent later. The displacement bounds how far any of them fell back, and
/// one of them fell back so far.
pub proof fn law_reordering_counts_overtaken_packets(samples: Seq<Sample>)
    requires
        samples.len() <= u32::MAX,
    ensures
        by_arrival(samples).to_multiset() == samples.to_multiset(),
        forall|i: int, k: int|
            0 <= i <= k < samples.len() ==> (#[trigger] by_arrival(samples)[i]).arrival_index <= (
            #[trigger] by_arrival(samples)[k]).arrival_index,
        ({
            let o = by_arrival(samples);
            let f = reorder_figures(samples);
            &&& f.reordered == Seq::new(o.len(), |k: int| k).filter(
                |k: int| exists|i: int| 0 <= i < k && (#[trigger] o[i]).seq > o[k].seq,
            ).len()
            &&& forall|i: int, k: int|
                0 <= i < k < o.len() ==> (#[trigger] o[i]).seq - (#[trigger] o[k]).seq
                    <= f.max_displacement
            &&& f.max_displacement > 0 ==> exists|i: int, k: int|
                0 <= i < k < o.len() && (#[trigger] o[i]).seq - (#[trigger] o[k]).seq
                    == f.max_displacement
        }),
{
    let key = |s: Sample| s.arrival_index as int;
    let o = by_arrival(samples);
    crate::order::lemma_arranged(samples, key);
    assert forall|i: int, k: int| 0 <= i <= k < samples.len() implies (#[trigger] by_arrival(
        samples,
    )[i]).arrival_index <= (#[trigger] by_arrival(samples)[k]).arrival_index by {
        assert(key(o[i]) <= key(o[k]));
    }
    crate::discovery::group::lemma_take_ends(o);
    lemma_overtaken(o, o.len() as int);
    crate::order::lemma_filter_ends(
        Seq::new(o.len(), |k: int| k),
        |k: int| exists|i: int| 0 <= i < k && (#[trigger] o[i]).seq > o[k].seq,
        0,
    );
}

proof fn lemma_high_water(o: Seq<Sample>)
    ensures
        forall|i: int| 0 <= i < o.len() ==> (#[trigger] o[i]).seq <= high_water(o),
        high_water(o) > 0 ==> exists|i: int|
            0 <= i < o.len() && (#[trigger] o[i]).seq == high_water(o),
    decreases o.len(),
{
    if o.len() > 0 {
        let rest = o.drop_last();
        lemma_high_water(rest);
        assert forall|i: int| 0 <= i < o.len() implies (#[trigger] o[i]).seq <= high_water(o) by {
            if i < o.len() - 1 {
                assert(rest[i] == o[i]);
            }
        }
        if high_water(o) > 0 {
            if o[o.len() - 1].seq == high_water(o) {
            } else {
                let i = choose|i: int|
                    0 <= i < rest.len() && (#[trigger] rest[i]).seq == high_water(rest);
                assert(o[i] == rest[i]);
            }
        }
    }
}

proof fn lemma_overtaken(o: Seq<Sample>, n: int)
    requires
        0 <= n <= o.len(),
    ensures
        late(o.take(n)) == Seq::new(n as nat, |k: int| k).filter(
            |k: int| exists|i: int| 0 <= i < k && (#[trigger] o[i]).seq > o[k].seq,
        ).len(),
        displacement(o.take(n)) <= u32::MAX,
        forall|i: int, k: int|
            0 <= i < k < n ==> (#[trigger] o[i]).seq - (#[trigger] o[k]).seq <= displacement(
                o.take(n),
            ),
        displacement(o.take(n)) > 0 ==> exists|i: int, k: int|
            0 <= i < k < n && (#[trigger] o[i]).seq - (#[trigger] o[k]).seq == displacement(
                o.take(n),
            ),
    decreases n,
{
    let over = |k: int| exists|i: int| 0 <= i < k && (#[trigger] o[i]).seq > o[k].seq;
    if n > 0 {
        let m = n - 1;
        lemma_overtaken(o, m);
        crate::discovery::group::lemma_take_step(o, m);
        let rest = o.take(m);
        lemma_high_water(rest);
        assert(Seq::new(n as nat, |k: int| k) =~= Seq::new(m as nat, |k: int| k).push(m));
        crate::order::lemma_filter_push(Seq::new(m as nat, |k: int| k), m, over);
        let hw = high_water(rest);
        if o[m].seq < hw {
            let i = choose|i: int| 0 <= i < rest.len() && (#[trigger] rest[i]).seq == hw;
            assert(rest[i] == o[i]);
            assert(o[i].seq > o[m].seq);
            assert(over(m));
            assert(o[i].seq - o[m].seq == hw - o[m].seq);
        } else {
            assert(!over(m)) by {
                if over(m) {
                    let i = choose|i: int| 0 <= i < m && (#[trigger] o[i]).seq > o[m].seq;
                    assert(rest[i] == o[i]);
                }
            }
        }
        assert forall|i: int, k: int| 0 <= i < k < n implies (#[trigger] o[i]).seq - (
        #[trigger] o[k]).seq <= displacement(o.take(n)) by {
            if k == m {
                assert(rest[i] == o[i]);
            }
        }
        assert(hw <= u32::MAX) by {
            if hw > 0 {
                let i = choose|i: int| 0 <= i < rest.len() && (#[trigger] rest[i]).seq == hw;
                assert(rest[i].seq <= u32::MAX);
            }
        }
        if displacement(o.take(n)) > 0 {
            if displacement(o.take(n)) == displacement(rest) {
                let (i, k) = choose|i: int, k: int|
                    0 <= i < k < m && (#[trigger] o[i]).seq - (#[trigger] o[k]).seq
                        == displacement(rest);
                assert(o[i].seq - o[k].seq == displacement(o.take(n)));
            } else {
                let i = choose|i: int| 0 <= i < rest.len() && (#[trigger] rest[i]).seq == hw;
                assert(rest[i] == o[i]);
                assert(o[i].seq - o[m].seq == displacement(o.take(n)));
            }
        }
    } else {
        assert(Seq::new(n as nat, |k: int| k) =~= Seq::empty());
        crate::order::lemma_filter_ends(Seq::new(n as nat, |k: int| k), over, 0);
    }
}

proof fn lemma_class_counts(samples: Seq<Sample>, class: int)
    ensures
        echoed(samples) == samples.filter(|s: Sample| s.rx_dscp is Some).len(),
        observed(samples, class) == samples.filter(
            |s: Sample| s.rx_dscp is Some && s.rx_dscp->0 % 64 == class,
        ).len(),
    decreases samples.len(),
{
    reveal(Seq::filter);
    if samples.len() > 0 {
        lemma_class_counts(samples.drop_last(), class);
    }
}

/// The class reported as the mode is one that no other was seen more often
/// than; the conformant share is how many of the samples that report a class
/// report the requested one, to half a hundredth of a percent.
pub proof fn law_classes_are_counted(requested: u8, samples: Seq<Sample>, d: DscpStats, class: int)
    requires
        samples.len() <= u32::MAX,
        dscp_figures(requested, samples, Some(d)),
        0 <= class < 64,
    ensures
        d.requested == requested,
        ({
            let with = samples.filter(|s: Sample| s.rx_dscp is Some).len();
            let right = samples.filter(
                |s: Sample| s.rx_dscp is Some && s.rx_dscp->0 % 64 == requested % 64,
            ).len();
            let modal = samples.filter(
                |s: Sample| s.rx_dscp is Some && s.rx_dscp->0 % 64 == d.observed_mode as int,
            ).len();
            let other = samples.filter(
                |s: Sample| s.rx_dscp is Some && s.rx_dscp->0 % 64 == class,
            ).len();
            &&& with > 0
            &&& other <= modal
            &&& class > d.observed_mode ==> other < modal
            &&& -(with as int) <= 2 * (10_000 * right - d.conformant_pct.hundredths * with) <= with
        }),
{
    let asked = (requested % 64) as int;
    lemma_class_counts(samples, class);
    lemma_class_counts(samples, d.observed_mode as int);
    lemma_class_counts(samples, asked);
    lemma_observed_bound(samples, asked);
    crate::order::lemma_filter_ends(samples, |s: Sample| s.rx_dscp is Some, 0);
    assert(observed(samples, class) <= observed(samples, d.observed_mode as int));
    lemma_hundredths(observed(samples, asked), echoed(samples));
}

/// Nothing is said of classes exactly when no sample reports one.
pub proof fn law_no_class_no_figures(requested: u8, samples: Seq<Sample>, d: Option<DscpStats>)
    requires
        dscp_figures(requested, samples, d),
    ensures
        d is None <==> forall|i: int|
            0 <= i < samples.len() ==> (#[trigger] samples[i]).rx_dscp is None,
{
    lemma_echoed(samples);
}

proof fn lemma_echoed(samples: Seq<Sample>)
    ensures
        echoed(samples) == 0 <==> forall|i: int|
            0 <= i < samples.len() ==> (#[trigger] samples[i]).rx_dscp is None,
    decreases samples.len(),
{
    if samples.len() > 0 {
        let rest = samples.drop_last();
        lemma_echoed(rest);
        assert(forall|i: int| 0 <= i < rest.len() ==> rest[i] == #[trigger] samples[i]);
        if echoed(samples) == 0 {
            assert forall|i: int| 0 <= i < samples.len() implies (
            #[trigger] samples[i]).rx_dscp is None by {
                if i < rest.len() {
                    assert(rest[i].rx_dscp is None);
                }
            }
        } else if forall|i: int|
            0 <= i < samples.len() ==> (#[trigger] samples[i]).rx_dscp is None {
            assert(samples[samples.len() - 1].rx_dscp is None);
            assert forall|i: int| 0 <= i < rest.len() implies (
            #[trigger] rest[i]).rx_dscp is None by {
                assert(samples[i].rx_dscp is None);
            }
        }
    }
}

} // verus!
