//! Bounded in-memory result spool.
//!
//! Measurement must not stop when the controller is unreachable: the link to
//! the controller is often down *because* of the fault being measured, so that
//! window is the most valuable data the agent will ever hold. Results are
//! therefore queued locally and submitted when comms return.
//!
//! # What gets dropped
//!
//! A plain ring buffer keeps the most recent results and silently discards the
//! onset of the incident, usually the part that explains it. This spool
//! instead protects the oldest [`SpoolConfig::onset_reserve`] entries and
//! evicts from immediately after them, so a long outage retains:
//!
//! ```text
//!   [ onset: how it broke ][ ...thinned middle... ][ recent: current state ]
//! ```
//!
//! Because a successful drain empties the spool, "oldest entries" is always
//! "the first results after the last successful submission": the onset needs
//! no outage tracking to identify.
//!
//! Every discard is counted. A gap that is not reported is a time series that
//! lies about its own completeness.

use std::collections::VecDeque;

use vstd::prelude::*;

verus! {

/// Default ceiling on queued results.
///
/// At roughly 800 bytes of JSON per result this is about 8 MB: affordable in a
/// 64 MB container budget, and around 13 hours of a 5-second cadence against
/// one peer.
pub const DEFAULT_MAX_ENTRIES: usize = 10_000;

/// Hard ceiling on spool memory, whichever limit is reached first.
pub const DEFAULT_MAX_BYTES: usize = 8_388_608;

/// Share of the spool reserved for the onset of an outage, in percent.
pub const DEFAULT_ONSET_PCT: u32 = 20;

/// The largest share that can be reserved, in percent.
pub const MAX_ONSET_PCT: u32 = 90;

#[derive(Debug, Clone, Copy, PartialEq, Eq, Structural)]
pub struct SpoolConfig {
    pub max_entries: usize,
    pub max_bytes: usize,
    /// Number of oldest entries that are never evicted while the spool is full.
    pub onset_reserve: usize,
}

/// The limits for `entries` and `bytes` with `pct` percent kept for the onset:
/// at least one entry and one byte, and a reserve strictly below capacity, or a
/// full spool would have nothing evictable and could never accept a new result.
pub open spec fn config_for(entries: usize, bytes: usize, pct: u32) -> SpoolConfig {
    let share: int = if pct <= MAX_ONSET_PCT {
        pct as int
    } else {
        MAX_ONSET_PCT as int
    };
    let reserve = entries * share / 100;
    SpoolConfig {
        max_entries: if entries >= 1 {
            entries
        } else {
            1
        },
        max_bytes: if bytes >= 1 {
            bytes
        } else {
            1
        },
        onset_reserve: if entries == 0 {
            0
        } else if reserve <= entries - 1 {
            reserve as usize
        } else {
            (entries - 1) as usize
        },
    }
}

impl SpoolConfig {
    pub fn new(max_entries: usize, max_bytes: usize, onset_pct: u32) -> (r: SpoolConfig)
        ensures
            r == config_for(max_entries, max_bytes, onset_pct),
            r.onset_reserve < r.max_entries,
    {
        let share: u128 = if onset_pct <= MAX_ONSET_PCT {
            onset_pct as u128
        } else {
            MAX_ONSET_PCT as u128
        };
        proof {
            assert(max_entries * share <= usize::MAX * 90) by (nonlinear_arith)
                requires
                    0 <= max_entries <= usize::MAX,
                    0 <= share <= 90,
            ;
        }
        let reserve: u128 = max_entries as u128 * share / 100;
        let last: usize = if max_entries == 0 {
            0
        } else {
            max_entries - 1
        };
        SpoolConfig {
            max_entries: if max_entries >= 1 {
                max_entries
            } else {
                1
            },
            max_bytes: if max_bytes >= 1 {
                max_bytes
            } else {
                1
            },
            onset_reserve: if reserve <= last as u128 {
                reserve as usize
            } else {
                last
            },
        }
    }
}

impl Default for SpoolConfig {
    fn default() -> (r: SpoolConfig)
        ensures
            r == config_for(DEFAULT_MAX_ENTRIES, DEFAULT_MAX_BYTES, DEFAULT_ONSET_PCT),
    {
        SpoolConfig::new(DEFAULT_MAX_ENTRIES, DEFAULT_MAX_BYTES, DEFAULT_ONSET_PCT)
    }
}

/// What happened to a pushed result.
#[derive(Debug, Clone, Copy, PartialEq, Eq, Structural)]
pub enum Accepted {
    /// Queued with room to spare.
    Queued,
    /// Queued, but older results were discarded to make room.
    QueuedEvicting(usize),
    /// Rejected: the spool is full of protected entries and this result is too
    /// large to fit. Only reachable via the byte ceiling.
    Rejected,
}

#[derive(Debug, Clone, Copy, PartialEq, Eq, Default, Structural)]
pub struct SpoolStats {
    pub entries: usize,
    pub bytes: usize,
    /// Results discarded since the last successful submission. Reported
    /// upstream so the resulting gap is visible rather than silent.
    pub dropped: u64,
    /// Discards over the agent's whole lifetime, for health reporting.
    pub dropped_total: u64,
}

/// The bytes that a queue accounts for.
pub open spec fn weight<T>(q: Seq<(T, usize)>) -> nat
    decreases q.len(),
{
    if q.len() == 0 {
        0
    } else {
        weight(q.drop_last()) + q.last().1 as nat
    }
}

/// One more result of `bytes` bytes stays within both ceilings.
pub open spec fn fits<T>(q: Seq<(T, usize)>, cfg: SpoolConfig, bytes: usize) -> bool {
    q.len() < cfg.max_entries && weight(q) + bytes <= cfg.max_bytes
}

/// `q` thinned until a result of `bytes` bytes fits or only protected entries
/// are left. What goes is always the oldest entry behind the reserve.
pub open spec fn thinned<T>(q: Seq<(T, usize)>, cfg: SpoolConfig, bytes: usize) -> Seq<(T, usize)>
    decreases q.len(),
{
    if fits(q, cfg, bytes) || q.len() <= cfg.onset_reserve {
        q
    } else {
        thinned(q.remove(cfg.onset_reserve as int), cfg, bytes)
    }
}

/// `q` cut short at the new end until a result of `bytes` bytes fits or nothing
/// is left.
pub open spec fn trimmed<T>(q: Seq<(T, usize)>, cfg: SpoolConfig, bytes: usize) -> Seq<(T, usize)>
    decreases q.len(),
{
    if fits(q, cfg, bytes) || q.len() == 0 {
        q
    } else {
        trimmed(q.drop_last(), cfg, bytes)
    }
}

/// `q` with `items` put back in front, the last of them first.
pub open spec fn readmitted<T>(
    q: Seq<(T, usize)>,
    cfg: SpoolConfig,
    items: Seq<(T, usize)>,
) -> Seq<(T, usize)>
    decreases items.len(),
{
    if items.len() == 0 {
        q
    } else {
        let x = items.last();
        readmitted(seq![x] + trimmed(q, cfg, x.1), cfg, items.drop_last())
    }
}

/// A counter `n` further on; it stays at its top once it gets there.
pub open spec fn counted(c: u64, n: int) -> u64 {
    if c + n <= u64::MAX {
        (c + n) as u64
    } else {
        u64::MAX
    }
}

/// What a spool holds and has lost.
pub struct SpoolState<T> {
    pub queue: Seq<(T, usize)>,
    pub lost: u64,
    pub lost_ever: u64,
}

/// A spool after `n` results more were discarded and `queue` is left.
pub open spec fn losing<T>(s: SpoolState<T>, queue: Seq<(T, usize)>, n: int) -> SpoolState<T> {
    SpoolState { queue, lost: counted(s.lost, n), lost_ever: counted(s.lost_ever, n) }
}

/// A spool after a result of `bytes` bytes was pushed. When everything present
/// is protected the newcomer is refused.
pub open spec fn pushed<T>(s: SpoolState<T>, cfg: SpoolConfig, item: T, bytes: usize) -> SpoolState<
    T,
> {
    let kept = thinned(s.queue, cfg, bytes);
    let evicted = s.queue.len() - kept.len();
    if fits(kept, cfg, bytes) {
        losing(s, kept.push((item, bytes)), evicted)
    } else {
        losing(s, kept, evicted + 1)
    }
}

/// What pushing a result of `bytes` bytes is answered with.
pub open spec fn answer<T>(q: Seq<(T, usize)>, cfg: SpoolConfig, bytes: usize) -> Accepted {
    let kept = thinned(q, cfg, bytes);
    let evicted = q.len() - kept.len();
    if !fits(kept, cfg, bytes) {
        Accepted::Rejected
    } else if evicted == 0 {
        Accepted::Queued
    } else {
        Accepted::QueuedEvicting(evicted as usize)
    }
}

/// A spool after each of `items` was pushed, in order.
pub open spec fn pushed_all<T>(
    s: SpoolState<T>,
    cfg: SpoolConfig,
    items: Seq<(T, usize)>,
) -> SpoolState<T>
    decreases items.len(),
{
    if items.len() == 0 {
        s
    } else {
        pushed(pushed_all(s, cfg, items.drop_last()), cfg, items.last().0, items.last().1)
    }
}

/// How many results a take of up to `max` hands out.
pub open spec fn taking<T>(s: SpoolState<T>, max: usize) -> nat {
    if max <= s.queue.len() {
        max as nat
    } else {
        s.queue.len()
    }
}

/// A spool after up to `max` of its oldest results were taken.
pub open spec fn taken<T>(s: SpoolState<T>, max: usize) -> SpoolState<T> {
    SpoolState { queue: s.queue.skip(taking(s, max) as int), ..s }
}

/// A spool after `items` were returned unsent.
pub open spec fn returned<T>(s: SpoolState<T>, cfg: SpoolConfig, items: Seq<(T, usize)>) -> SpoolState<
    T,
> {
    let queue = readmitted(s.queue, cfg, items);
    losing(s, queue, s.queue.len() + items.len() - queue.len())
}

/// A spool after its losses were reported.
pub open spec fn cleared<T>(s: SpoolState<T>) -> SpoolState<T> {
    SpoolState { lost: 0, ..s }
}

/// A call that changes a spool.
pub enum Call<T> {
    Push { item: T, bytes: usize },
    Take { max: usize },
    ReturnUnsent { items: Seq<(T, usize)> },
    ClearDropped,
}

/// A spool after a call.
pub open spec fn called<T>(s: SpoolState<T>, cfg: SpoolConfig, c: Call<T>) -> SpoolState<T> {
    match c {
        Call::Push { item, bytes } => pushed(s, cfg, item, bytes),
        Call::Take { max } => taken(s, max),
        Call::ReturnUnsent { items } => returned(s, cfg, items),
        Call::ClearDropped => cleared(s),
    }
}

/// A spool after each of `calls`, in order.
pub open spec fn called_all<T>(s: SpoolState<T>, cfg: SpoolConfig, calls: Seq<Call<T>>) -> SpoolState<
    T,
>
    decreases calls.len(),
{
    if calls.len() == 0 {
        s
    } else {
        called(called_all(s, cfg, calls.drop_last()), cfg, calls.last())
    }
}

/// How many results `calls` give to a spool: pushed or returned.
pub open spec fn given<T>(calls: Seq<Call<T>>) -> nat
    decreases calls.len(),
{
    if calls.len() == 0 {
        0
    } else {
        given(calls.drop_last()) + match calls.last() {
            Call::Push { .. } => 1,
            Call::ReturnUnsent { items } => items.len(),
            _ => 0,
        }
    }
}

/// How many results a spool hands out in the course of `calls`.
pub open spec fn handed_out<T>(s: SpoolState<T>, cfg: SpoolConfig, calls: Seq<Call<T>>) -> nat
    decreases calls.len(),
{
    if calls.len() == 0 {
        0
    } else {
        handed_out(s, cfg, calls.drop_last()) + match calls.last() {
            Call::Take { max } => taking(called_all(s, cfg, calls.drop_last()), max),
            _ => 0,
        }
    }
}

#[verifier::reject_recursive_types(T)]
pub struct Spool<T> {
    cfg: SpoolConfig,
    entries: VecDeque<(T, usize)>,
    bytes: usize,
    dropped: u64,
    dropped_total: u64,
}

impl<T> Spool<T> {
    /// What is queued, oldest first, each result with its size in bytes.
    pub closed spec fn queue(&self) -> Seq<(T, usize)> {
        self.entries@
    }

    pub closed spec fn config(&self) -> SpoolConfig {
        self.cfg
    }

    /// Results discarded since the counter was last cleared.
    pub closed spec fn lost(&self) -> u64 {
        self.dropped
    }

    /// Results discarded ever.
    pub closed spec fn lost_ever(&self) -> u64 {
        self.dropped_total
    }

    pub open spec fn state(&self) -> SpoolState<T> {
        SpoolState { queue: self.queue(), lost: self.lost(), lost_ever: self.lost_ever() }
    }

    /// The byte count is that of the queue, and nothing was lost since the
    /// last clearing that was not lost at all.
    pub closed spec fn accounts(&self) -> bool {
        &&& self.bytes == weight(self.entries@)
        &&& self.dropped <= self.dropped_total
    }

    pub fn new(cfg: SpoolConfig) -> (r: Spool<T>)
        ensures
            r.queue() == Seq::<(T, usize)>::empty(),
            r.config() == cfg,
            r.lost() == 0,
            r.lost_ever() == 0,
            r.accounts(),
    {
        let room: usize = if cfg.max_entries < 1024 {
            cfg.max_entries
        } else {
            1024
        };
        Spool {
            cfg,
            entries: VecDeque::with_capacity(room),
            bytes: 0,
            dropped: 0,
            dropped_total: 0,
        }
    }

    pub fn len(&self) -> (r: usize)
        ensures
            r == self.queue().len(),
    {
        self.entries.len()
    }

    pub fn is_empty(&self) -> (r: bool)
        ensures
            r == (self.queue().len() == 0),
    {
        self.entries.len() == 0
    }

    /// The result at position `i`, oldest first, with its size in bytes.
    pub fn get(&self, i: usize) -> (r: Option<&(T, usize)>)
        ensures
            match r {
                Some(e) => i < self.queue().len() && *e == self.queue()[i as int],
                None => i >= self.queue().len(),
            },
    {
        if i < self.entries.len() {
            Some(&self.entries[i])
        } else {
            None
        }
    }

    pub fn stats(&self) -> (r: SpoolStats)
        requires
            self.accounts(),
        ensures
            r.entries == self.queue().len(),
            r.bytes == weight(self.queue()),
            r.dropped == self.lost(),
            r.dropped_total == self.lost_ever(),
            r.dropped <= r.dropped_total,
    {
        SpoolStats {
            entries: self.entries.len(),
            bytes: self.bytes,
            dropped: self.dropped,
            dropped_total: self.dropped_total,
        }
    }

    /// Queue a result. `bytes` is its serialised size, used for the memory
    /// ceiling.
    ///
    /// When everything present is protected the newcomer is refused. Preferring
    /// the onset over one fresh sample is the right trade: the onset is
    /// irreplaceable, one more recent sample is not.
    pub fn push(&mut self, item: T, bytes: usize) -> (r: Accepted)
        requires
            old(self).accounts(),
        ensures
            final(self).accounts(),
            final(self).config() == old(self).config(),
            final(self).state() == pushed(old(self).state(), old(self).config(), item, bytes),
            r == answer(old(self).queue(), old(self).config(), bytes),
    {
        let mut evicted: usize = 0;
        let held: usize = self.entries.len();
        while self.would_exceed(bytes)
            invariant
                old(self).queue().len() == held,
                self.accounts(),
                self.config() == old(self).config(),
                self.queue().len() + evicted == old(self).queue().len(),
                thinned(self.queue(), self.config(), bytes) == thinned(
                    old(self).queue(),
                    self.config(),
                    bytes,
                ),
                self.lost() == counted(old(self).lost(), evicted as int),
                self.lost_ever() == counted(old(self).lost_ever(), evicted as int),
            decreases self.queue().len(),
        {
            if self.entries.len() <= self.cfg.onset_reserve {
                self.count_drop();
                return Accepted::Rejected;
            }
            // The oldest entry that is not protected: just past the reserve.
            proof {
                lemma_weight_remove(self.entries@, self.cfg.onset_reserve as int);
            }
            match self.entries.remove(self.cfg.onset_reserve) {
                Some(e) => {
                    self.bytes = self.bytes - e.1;
                },
                None => {},
            }
            self.count_drop();
            evicted = evicted + 1;
        }
        self.bytes = self.bytes + bytes;
        proof {
            let q = self.entries@;
            assert(q.push((item, bytes)).drop_last() =~= q);
        }
        self.entries.push_back((item, bytes));
        if evicted == 0 {
            Accepted::Queued
        } else {
            Accepted::QueuedEvicting(evicted)
        }
    }

    fn count_drop(&mut self)
        requires
            old(self).accounts(),
        ensures
            final(self).accounts(),
            final(self).config() == old(self).config(),
            final(self).queue() == old(self).queue(),
            final(self).lost() == counted(old(self).lost(), 1),
            final(self).lost_ever() == counted(old(self).lost_ever(), 1),
    {
        self.dropped = self.dropped.saturating_add(1);
        self.dropped_total = self.dropped_total.saturating_add(1);
    }

    fn would_exceed(&self, incoming: usize) -> (r: bool)
        requires
            self.accounts(),
        ensures
            r == !fits(self.queue(), self.config(), incoming),
    {
        self.entries.len() >= self.cfg.max_entries || incoming > self.cfg.max_bytes || self.bytes
            > self.cfg.max_bytes - incoming
    }

    /// Take up to `max` of the oldest results for submission.
    ///
    /// Oldest-first matters: it means a submission that only partly succeeds
    /// still makes progress through the backlog in chronological order, and the
    /// onset is delivered before anything else.
    pub fn take(&mut self, max: usize) -> (r: Vec<T>)
        requires
            old(self).accounts(),
        ensures
            final(self).accounts(),
            final(self).config() == old(self).config(),
            r@ == old(self).queue().take(taking(old(self).state(), max) as int).map_values(
                |e: (T, usize)| e.0,
            ),
            final(self).state() == taken(old(self).state(), max),
    {
        let ghost q = self.entries@;
        let n: usize = if max <= self.entries.len() {
            max
        } else {
            self.entries.len()
        };
        let mut out: Vec<T> = Vec::with_capacity(n);
        let mut i: usize = 0;
        proof {
            assert(q.skip(0) =~= q);
            assert(out@ =~= q.take(0).map_values(|e: (T, usize)| e.0));
        }
        while i < n
            invariant
                i <= n <= q.len(),
                self.accounts(),
                self.config() == old(self).config(),
                self.lost() == old(self).lost(),
                self.lost_ever() == old(self).lost_ever(),
                self.entries@ == q.skip(i as int),
                out@ == q.take(i as int).map_values(|e: (T, usize)| e.0),
            decreases n - i,
        {
            proof {
                lemma_weight_remove(self.entries@, 0);
                assert(self.entries@.remove(0) =~= self.entries@.subrange(
                    1,
                    self.entries@.len() as int,
                ));
                assert(self.entries@.remove(0) =~= q.skip(i + 1));
            }
            match self.entries.pop_front() {
                Some(e) => {
                    self.bytes = self.bytes - e.1;
                    out.push(e.0);
                },
                None => {},
            }
            proof {
                assert(out@ =~= q.take(i + 1).map_values(|e: (T, usize)| e.0));
            }
            i = i + 1;
        }
        out
    }

    /// Put results back at the front after a failed submission, preserving
    /// order.
    ///
    /// Without this a transient network error during the POST would destroy the
    /// batch it was trying to save. Re-admitting must not push the spool past
    /// its ceiling, so it evicts from the back: the returned entries are older
    /// and outrank the newest arrivals.
    pub fn return_unsent(&mut self, items: Vec<(T, usize)>)
        requires
            old(self).accounts(),
        ensures
            final(self).accounts(),
            final(self).config() == old(self).config(),
            final(self).state() == returned(old(self).state(), old(self).config(), items@),
            final(self).queue().len() <= old(self).queue().len() + items@.len(),
    {
        let mut items = items;
        let ghost all = items@;
        let ghost q = self.entries@;
        let ghost mut gone: int = 0;
        while items.len() > 0
            invariant
                self.accounts(),
                self.config() == old(self).config(),
                readmitted(self.queue(), self.config(), items@) == readmitted(
                    old(self).queue(),
                    self.config(),
                    all,
                ),
                gone >= 0,
                gone == old(self).queue().len() + all.len() - items@.len() - self.queue().len(),
                self.lost() == counted(old(self).lost(), gone),
                self.lost_ever() == counted(old(self).lost_ever(), gone),
            decreases items@.len(),
        {
            let ghost rest = items@.drop_last();
            let ghost start = self.queue();
            let x = match items.pop() {
                Some(x) => x,
                None => {
                    return;
                },
            };
            proof {
                assert(items@ =~= rest);
            }
            while self.would_exceed(x.1) && self.entries.len() > 0
                invariant
                    self.accounts(),
                    self.config() == old(self).config(),
                    gone >= 0,
                    gone + self.queue().len() == old(self).queue().len() + all.len() - items@.len()
                        - 1,
                    trimmed(self.queue(), self.config(), x.1) == trimmed(
                        start,
                        self.config(),
                        x.1,
                    ),
                    self.lost() == counted(old(self).lost(), gone),
                    self.lost_ever() == counted(old(self).lost_ever(), gone),
                decreases self.queue().len(),
            {
                proof {
                    assert(self.entries@.drop_last() =~= self.entries@.subrange(
                        0,
                        self.entries@.len() - 1,
                    ));
                }
                match self.entries.pop_back() {
                    Some(e) => {
                        self.bytes = self.bytes - e.1;
                    },
                    None => {},
                }
                self.count_drop();
                proof {
                    gone = gone + 1;
                }
            }
            proof {
                lemma_weight_add(seq![x], self.entries@);
                assert(weight(seq![x]) == x.1) by {
                    reveal_with_fuel(weight, 2);
                    assert(seq![x].drop_last() =~= Seq::<(T, usize)>::empty());
                }
                if self.entries@.len() == 0 {
                    assert(weight(self.entries@) == 0);
                }
            }
            self.bytes = self.bytes + x.1;
            self.entries.push_front(x);
        }
    }

    /// Clear the per-outage drop counter after it has been reported upstream.
    pub fn clear_dropped(&mut self)
        requires
            old(self).accounts(),
        ensures
            final(self).accounts(),
            final(self).config() == old(self).config(),
            final(self).state() == cleared(old(self).state()),
    {
        self.dropped = 0;
    }
}

proof fn lemma_weight_add<T>(a: Seq<(T, usize)>, b: Seq<(T, usize)>)
    ensures
        weight(a + b) == weight(a) + weight(b),
    decreases b.len(),
{
    if b.len() == 0 {
        assert(a + b =~= a);
    } else {
        lemma_weight_add(a, b.drop_last());
        assert((a + b).drop_last() =~= a + b.drop_last());
    }
}

proof fn lemma_weight_remove<T>(q: Seq<(T, usize)>, i: int)
    requires
        0 <= i < q.len(),
    ensures
        weight(q) == weight(q.remove(i)) + q[i].1,
{
    let a = q.take(i);
    let m = seq![q[i]];
    let b = q.skip(i + 1);
    lemma_weight_add(a, m);
    lemma_weight_add(a + m, b);
    lemma_weight_add(a, b);
    assert(weight(m) == q[i].1) by {
        reveal_with_fuel(weight, 2);
        assert(m.drop_last() =~= Seq::<(T, usize)>::empty());
    }
    assert(a + m + b =~= q);
    assert(a + b =~= q.remove(i));
}

/// Thinning keeps the protected onset and the most recent results: what is left
/// is the front of the queue up to the reserve and its tail.
pub proof fn law_thinning_takes_the_middle<T>(
    q: Seq<(T, usize)>,
    cfg: SpoolConfig,
    bytes: usize,
)
    ensures
        ({
            let kept = thinned(q, cfg, bytes);
            let onset: int = if q.len() <= cfg.onset_reserve {
                q.len() as int
            } else {
                cfg.onset_reserve as int
            };
            let gone = q.len() - kept.len();
            &&& 0 <= gone <= q.len() - onset
            &&& kept == q.take(onset) + q.skip(onset + gone)
        }),
    decreases q.len(),
{
    let onset: int = if q.len() <= cfg.onset_reserve {
        q.len() as int
    } else {
        cfg.onset_reserve as int
    };
    if fits(q, cfg, bytes) || q.len() <= cfg.onset_reserve {
        assert(q.take(onset) + q.skip(onset) =~= q);
    } else {
        let next = q.remove(cfg.onset_reserve as int);
        law_thinning_takes_the_middle(next, cfg, bytes);
        let kept = thinned(q, cfg, bytes);
        let gone = next.len() - kept.len();
        assert(next.take(onset) =~= q.take(onset));
        assert(next.skip(onset + gone) =~= q.skip(onset + gone + 1));
    }
}

/// A result is refused only for its size: with the reserve below capacity,
/// thinning always makes room for one more entry.
pub proof fn law_only_the_byte_ceiling_rejects<T>(
    q: Seq<(T, usize)>,
    cfg: SpoolConfig,
    bytes: usize,
)
    requires
        cfg.onset_reserve < cfg.max_entries,
    ensures
        ({
            let kept = thinned(q, cfg, bytes);
            fits(kept, cfg, bytes) || (kept.len() <= cfg.onset_reserve && weight(kept) + bytes
                > cfg.max_bytes)
        }),
    decreases q.len(),
{
    if fits(q, cfg, bytes) || q.len() <= cfg.onset_reserve {
    } else {
        law_only_the_byte_ceiling_rejects(q.remove(cfg.onset_reserve as int), cfg, bytes);
    }
}

/// Whatever is pushed, the spool never grows past either ceiling.
pub proof fn law_push_respects_the_ceilings<T>(
    q: Seq<(T, usize)>,
    cfg: SpoolConfig,
    item: T,
    bytes: usize,
)
    requires
        q.len() <= cfg.max_entries,
        weight(q) <= cfg.max_bytes,
    ensures
        ({
            let kept = thinned(q, cfg, bytes);
            &&& kept.len() <= cfg.max_entries
            &&& weight(kept) <= cfg.max_bytes
            &&& fits(kept, cfg, bytes) ==> {
                &&& kept.push((item, bytes)).len() <= cfg.max_entries
                &&& weight(kept.push((item, bytes))) <= cfg.max_bytes
            }
        }),
    decreases q.len(),
{
    if fits(q, cfg, bytes) || q.len() <= cfg.onset_reserve {
        assert(q.push((item, bytes)).drop_last() =~= q);
    } else {
        lemma_weight_remove(q, cfg.onset_reserve as int);
        law_push_respects_the_ceilings(q.remove(cfg.onset_reserve as int), cfg, item, bytes);
    }
}

/// Every discard is counted: what was queued, and the newcomer, is either queued
/// afterwards or among the losses.
pub proof fn law_every_discard_is_counted<T>(
    s: SpoolState<T>,
    cfg: SpoolConfig,
    item: T,
    bytes: usize,
)
    requires
        s.lost + s.queue.len() < u64::MAX,
        s.lost_ever + s.queue.len() < u64::MAX,
    ensures
        ({
            let after = pushed(s, cfg, item, bytes);
            &&& after.queue.len() + after.lost == s.queue.len() + 1 + s.lost
            &&& after.queue.len() + after.lost_ever == s.queue.len() + 1 + s.lost_ever
        }),
{
    law_thinning_takes_the_middle(s.queue, cfg, bytes);
}

/// Nothing vanishes without being counted, whatever is done with a spool: after
/// any calls, what is queued, was lost and was handed out is what was there and
/// was given to it. The losses since the last report are among those ever, so
/// that reporting them forgets nothing else. A new spool begins with nothing
/// queued and nothing lost; the byte count is always that of the queue.
pub proof fn law_every_result_is_accounted_for<T>(
    s: SpoolState<T>,
    cfg: SpoolConfig,
    calls: Seq<Call<T>>,
)
    requires
        s.lost <= s.lost_ever,
        s.queue.len() + s.lost_ever + given(calls) <= u64::MAX,
    ensures
        ({
            let after = called_all(s, cfg, calls);
            &&& after.queue.len() + after.lost_ever + handed_out(s, cfg, calls) == s.queue.len()
                + s.lost_ever + given(calls)
            &&& after.lost <= after.lost_ever
        }),
    decreases calls.len(),
{
    if calls.len() > 0 {
        let rest = calls.drop_last();
        let before = called_all(s, cfg, rest);
        law_every_result_is_accounted_for(s, cfg, rest);
        match calls.last() {
            Call::Push { item, bytes } => {
                law_thinning_takes_the_middle(before.queue, cfg, bytes);
            },
            Call::ReturnUnsent { items } => {
                lemma_readmitted_len(before.queue, cfg, items);
            },
            _ => {},
        }
    }
}

proof fn lemma_readmitted_len<T>(q: Seq<(T, usize)>, cfg: SpoolConfig, items: Seq<(T, usize)>)
    ensures
        readmitted(q, cfg, items).len() <= q.len() + items.len(),
    decreases items.len(),
{
    if items.len() > 0 {
        let x = items.last();
        lemma_trimmed_is_front(q, cfg, x.1);
        lemma_readmitted_len(seq![x] + trimmed(q, cfg, x.1), cfg, items.drop_last());
    }
}

/// The onset survives an outage of any length: once the reserve is filled, no
/// series of results that is pushed after it displaces any of it.
pub proof fn law_the_onset_survives_any_outage<T>(
    s: SpoolState<T>,
    cfg: SpoolConfig,
    items: Seq<(T, usize)>,
)
    requires
        s.queue.len() >= cfg.onset_reserve,
    ensures
        pushed_all(s, cfg, items).queue.len() >= cfg.onset_reserve,
        pushed_all(s, cfg, items).queue.take(cfg.onset_reserve as int) == s.queue.take(
            cfg.onset_reserve as int,
        ),
    decreases items.len(),
{
    if items.len() > 0 {
        let before = pushed_all(s, cfg, items.drop_last());
        let after = pushed_all(s, cfg, items);
        let n = cfg.onset_reserve as int;
        law_the_onset_survives_any_outage(s, cfg, items.drop_last());
        law_thinning_takes_the_middle(before.queue, cfg, items.last().1);
        assert(after.queue.take(n) =~= before.queue.take(n));
    }
}

/// What is happening now survives too: a result that is accepted is the newest
/// of the queue. Where one is refused, what stays is the front of the queue as
/// it was.
pub proof fn law_the_newest_result_is_kept<T>(
    s: SpoolState<T>,
    cfg: SpoolConfig,
    item: T,
    bytes: usize,
)
    ensures
        fits(thinned(s.queue, cfg, bytes), cfg, bytes) ==> pushed(s, cfg, item, bytes).queue.last()
            == (item, bytes),
        !fits(thinned(s.queue, cfg, bytes), cfg, bytes) ==> pushed(s, cfg, item, bytes).queue
            == s.queue.take(pushed(s, cfg, item, bytes).queue.len() as int),
{
    law_thinning_takes_the_middle(s.queue, cfg, bytes);
    lemma_refusal_leaves_the_onset(s.queue, cfg, bytes);
    let kept = thinned(s.queue, cfg, bytes);
    if !fits(kept, cfg, bytes) {
        assert(kept =~= s.queue.take(kept.len() as int));
    }
}

proof fn lemma_refusal_leaves_the_onset<T>(q: Seq<(T, usize)>, cfg: SpoolConfig, bytes: usize)
    ensures
        !fits(thinned(q, cfg, bytes), cfg, bytes) ==> thinned(q, cfg, bytes).len()
            <= cfg.onset_reserve,
    decreases q.len(),
{
    if !(fits(q, cfg, bytes) || q.len() <= cfg.onset_reserve) {
        lemma_refusal_leaves_the_onset(q.remove(cfg.onset_reserve as int), cfg, bytes);
    }
}

/// Whatever holds of every result queued or pushed holds of every result kept.
pub proof fn law_only_pushed_results_are_kept<T>(
    s: SpoolState<T>,
    cfg: SpoolConfig,
    item: T,
    bytes: usize,
    f: spec_fn((T, usize)) -> bool,
)
    requires
        forall|i: int| 0 <= i < s.queue.len() ==> f(#[trigger] s.queue[i]),
        f((item, bytes)),
    ensures
        forall|i: int|
            0 <= i < pushed(s, cfg, item, bytes).queue.len() ==> f(
                #[trigger] pushed(s, cfg, item, bytes).queue[i],
            ),
{
    law_thinning_takes_the_middle(s.queue, cfg, bytes);
}

/// Whatever holds of every result queued or returned holds of every result
/// kept.
pub proof fn law_only_returned_results_are_kept<T>(
    q: Seq<(T, usize)>,
    cfg: SpoolConfig,
    items: Seq<(T, usize)>,
    f: spec_fn((T, usize)) -> bool,
)
    requires
        forall|i: int| 0 <= i < q.len() ==> f(#[trigger] q[i]),
        forall|i: int| 0 <= i < items.len() ==> f(#[trigger] items[i]),
    ensures
        forall|i: int|
            0 <= i < readmitted(q, cfg, items).len() ==> f(#[trigger] readmitted(q, cfg, items)[i]),
    decreases items.len(),
{
    if items.len() > 0 {
        let x = items.last();
        assert(f(items[items.len() - 1]));
        lemma_trimmed_is_front(q, cfg, x.1);
        assert forall|i: int| 0 <= i < items.drop_last().len() implies f(
            #[trigger] items.drop_last()[i],
        ) by {
            assert(items.drop_last()[i] == items[i]);
        }
        assert forall|i: int| 0 <= i < (seq![x] + trimmed(q, cfg, x.1)).len() implies f(
            #[trigger] (seq![x] + trimmed(q, cfg, x.1))[i],
        ) by {
            if i > 0 {
                assert((seq![x] + trimmed(q, cfg, x.1))[i] == q[i - 1]);
            }
        }
        let front = seq![x] + trimmed(q, cfg, x.1);
        law_only_returned_results_are_kept(front, cfg, items.drop_last(), f);
        assert(readmitted(q, cfg, items) == readmitted(front, cfg, items.drop_last()));
    } else {
        assert(readmitted(q, cfg, items) == q);
    }
}

proof fn lemma_trimmed_is_front<T>(q: Seq<(T, usize)>, cfg: SpoolConfig, bytes: usize)
    ensures
        trimmed(q, cfg, bytes).len() <= q.len(),
        forall|i: int|
            0 <= i < trimmed(q, cfg, bytes).len() ==> #[trigger] trimmed(q, cfg, bytes)[i] == q[i],
    decreases q.len(),
{
    if !(fits(q, cfg, bytes) || q.len() == 0) {
        lemma_trimmed_is_front(q.drop_last(), cfg, bytes);
    }
}

/// A batch that was taken and goes back unsent restores the queue, in order and
/// without a loss.
pub proof fn law_returning_a_batch_restores_the_queue<T>(
    q: Seq<(T, usize)>,
    cfg: SpoolConfig,
    n: int,
)
    requires
        0 <= n <= q.len(),
        q.len() <= cfg.max_entries,
        weight(q) <= cfg.max_bytes,
    ensures
        readmitted(q.skip(n), cfg, q.take(n)) == q,
    decreases n,
{
    if n == 0 {
        assert(q.skip(0) =~= q);
    } else {
        let batch = q.take(n);
        let rest = q.skip(n);
        let x = batch.last();
        let front = q.take(n - 1);
        assert(batch.drop_last() =~= front);
        assert(seq![x] + rest =~= q.skip(n - 1));
        assert(front + (seq![x] + rest) =~= q);
        lemma_weight_add(front, seq![x] + rest);
        lemma_weight_add(seq![x], rest);
        assert(weight(seq![x]) == x.1) by {
            reveal_with_fuel(weight, 2);
            assert(seq![x].drop_last() =~= Seq::<(T, usize)>::empty());
        }
        assert(fits(rest, cfg, x.1));
        law_returning_a_batch_restores_the_queue(q, cfg, n - 1);
    }
}

/// Returned results all stay, at the front and in order, whenever they fit
/// together; only newer results make way for them.
pub proof fn law_returned_results_outrank_newer_ones<T>(
    q: Seq<(T, usize)>,
    cfg: SpoolConfig,
    items: Seq<(T, usize)>,
)
    requires
        items.len() <= cfg.max_entries,
        weight(items) <= cfg.max_bytes,
    ensures
        exists|k: int|
            0 <= k <= q.len() && readmitted(q, cfg, items) == items + #[trigger] q.take(k),
{
    lemma_readmitted_prefix(Seq::empty(), q, cfg, items);
    assert(Seq::<(T, usize)>::empty() + q =~= q);
    let k = choose|k: int|
        0 <= k <= q.len() && readmitted(Seq::<(T, usize)>::empty() + q, cfg, items) == items + Seq::<
            (T, usize),
        >::empty() + #[trigger] q.take(k);
    assert(items + Seq::<(T, usize)>::empty() =~= items);
    assert(readmitted(q, cfg, items) == items + q.take(k));
}

proof fn lemma_trimmed_prefix<T>(
    done: Seq<(T, usize)>,
    q: Seq<(T, usize)>,
    cfg: SpoolConfig,
    bytes: usize,
)
    requires
        done.len() < cfg.max_entries,
        weight(done) + bytes <= cfg.max_bytes,
    ensures
        exists|k: int|
            0 <= k <= q.len() && trimmed(done + q, cfg, bytes) == done + #[trigger] q.take(k),
    decreases q.len(),
{
    if q.len() == 0 {
        assert(done + q =~= done);
        assert(done + q.take(0) =~= done);
        assert(fits(done, cfg, bytes));
    } else if fits(done + q, cfg, bytes) {
        assert(q.take(q.len() as int) =~= q);
    } else {
        assert((done + q).drop_last() =~= done + q.drop_last());
        lemma_trimmed_prefix(done, q.drop_last(), cfg, bytes);
        let k = choose|k: int|
            0 <= k <= q.drop_last().len() && trimmed(done + q.drop_last(), cfg, bytes) == done
                + #[trigger] q.drop_last().take(k);
        assert(q.drop_last().take(k) =~= q.take(k));
    }
}

proof fn lemma_readmitted_prefix<T>(
    done: Seq<(T, usize)>,
    q: Seq<(T, usize)>,
    cfg: SpoolConfig,
    items: Seq<(T, usize)>,
)
    requires
        items.len() + done.len() <= cfg.max_entries,
        weight(items) + weight(done) <= cfg.max_bytes,
    ensures
        exists|k: int|
            0 <= k <= q.len() && readmitted(done + q, cfg, items) == items + done
                + #[trigger] q.take(k),
    decreases items.len(),
{
    if items.len() == 0 {
        assert(items + done + q.take(q.len() as int) =~= done + q);
    } else {
        let x = items.last();
        let rest = items.drop_last();
        lemma_trimmed_prefix(done, q, cfg, x.1);
        let k = choose|k: int|
            0 <= k <= q.len() && trimmed(done + q, cfg, x.1) == done + #[trigger] q.take(k);
        let next = seq![x] + done;
        assert(seq![x] + (done + q.take(k)) =~= next + q.take(k));
        lemma_weight_add(seq![x], done);
        assert(weight(seq![x]) == x.1) by {
            reveal_with_fuel(weight, 2);
            assert(seq![x].drop_last() =~= Seq::<(T, usize)>::empty());
        }
        lemma_readmitted_prefix(next, q.take(k), cfg, rest);
        let j = choose|j: int|
            0 <= j <= q.take(k).len() && readmitted(next + q.take(k), cfg, rest) == rest + next
                + #[trigger] q.take(k).take(j);
        assert(q.take(k).take(j) =~= q.take(j));
        assert(rest + next + q.take(j) =~= items + done + q.take(j));
    }
}

} // verus!
