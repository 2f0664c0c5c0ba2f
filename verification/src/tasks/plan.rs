//! The agent's local view of what it should be measuring.
//!
//! The controller assigns work, but the agent must not depend on the controller
//! to keep working. The link to the controller is frequently down *because* of
//! the fault being measured, so an agent that stops measuring when it cannot
//! poll is blind exactly when it matters.
//!
//! So the plan is authoritative locally: recurring work is cached and keeps
//! firing on its own schedule indefinitely, and a successful poll refreshes it
//! rather than being required to produce it.
//!
//! One-shot diagnostics get the opposite treatment. They carry a deadline and
//! are abandoned once past it, because a traceroute executed hours late answers
//! a question nobody is still asking about a moment that has passed. Reporting
//! `skipped` is both more honest and more useful than reporting a stale result.
//!
//! All scheduling uses a monotonic clock, never the wall clock. A container
//! whose NTP steps the system clock mid-outage must not thereby fire every
//! cached task at once, or stop firing them entirely.

use vstd::prelude::*;

use crate::duration::{Duration, Instant};
use crate::json::Json;
use crate::text::same;

verus! {

/// What kind of measurement a task asks for.
#[derive(Debug, Clone, Copy, PartialEq, Eq, Hash, Structural)]
pub enum Kind {
    MqpProbe,
    TwampProbe,
    TcpConnect,
    RouterOsBtest,
    PathTrace,
    WifiSignal,
    PacketCapture,
}

#[derive(Debug, Clone, Copy, PartialEq, Eq, Structural)]
pub enum Role {
    Sender,
    Reflector,
}

#[derive(Debug)]
pub struct Peer {
    pub agent_id: String,
    pub name: String,
    pub address: String,
    pub probe_port: u16,
}

#[derive(Debug)]
pub struct Task {
    pub task_id: String,
    pub session_id: u64,
    pub kind: Kind,
    pub role: Role,
    pub peer: Option<Peer>,
    /// Opaque measurement parameters, passed through to the runner.
    pub params: Json,
    /// Continuous-plan work: cached and kept running when offline.
    pub recurring: bool,
    /// How often recurring work repeats. Ignored for one-shots.
    pub interval: Option<Duration>,
}

/// Both peers say the same.
pub open spec fn same_peer(a: Peer, b: Peer) -> bool {
    &&& a.agent_id@ == b.agent_id@
    &&& a.name@ == b.name@
    &&& a.address@ == b.address@
    &&& a.probe_port == b.probe_port
}

/// Both tasks say the same.
pub open spec fn same_task(a: Task, b: Task) -> bool {
    &&& a.task_id@ == b.task_id@
    &&& a.session_id == b.session_id
    &&& a.kind == b.kind
    &&& a.role == b.role
    &&& match (a.peer, b.peer) {
        (Some(p), Some(q)) => same_peer(p, q),
        (None, None) => true,
        _ => false,
    }
    &&& a.params@ == b.params@
    &&& a.recurring == b.recurring
    &&& a.interval == b.interval
}

impl Peer {
    pub fn duplicate(&self) -> (r: Peer)
        ensures
            same_peer(r, *self),
    {
        Peer {
            agent_id: self.agent_id.clone(),
            name: self.name.clone(),
            address: self.address.clone(),
            probe_port: self.probe_port,
        }
    }
}

impl Task {
    pub fn duplicate(&self) -> (r: Task)
        ensures
            same_task(r, *self),
    {
        Task {
            task_id: self.task_id.clone(),
            session_id: self.session_id,
            kind: self.kind,
            role: self.role,
            peer: match &self.peer {
                Some(p) => Some(p.duplicate()),
                None => None,
            },
            params: self.params.duplicate(),
            recurring: self.recurring,
            interval: self.interval,
        }
    }
}

/// A task held by the plan, with its local scheduling state.
#[derive(Debug)]
pub struct Scheduled {
    pub task: Task,
    /// When a one-shot stops being worth running. Converted from the wall-clock
    /// `expires_at` at accept time so later clock steps cannot disturb it.
    pub deadline: Option<Instant>,
    /// When it is to fire next.
    pub due_at: Instant,
}

/// Why a task was dropped without running.
#[derive(Debug)]
pub struct Skipped {
    pub task: Task,
    pub reason: &'static str,
}

pub const REASON_EXPIRED: &'static str = "one-shot expired before it could run";

pub struct Plan {
    /// Cached continuous work, one entry per task id, so a refresh updates in
    /// place rather than accumulating duplicates.
    recurring: Vec<Scheduled>,
    /// Pending one-shots, oldest first.
    oneshot: Vec<Scheduled>,
    /// Fallback cadence for recurring work that arrives without one.
    default_interval: Duration,
}

/// No two entries are for the same task.
pub open spec fn distinct(s: Seq<Scheduled>) -> bool {
    forall|i: int, j: int|
        0 <= i < j < s.len() ==> (#[trigger] s[i]).task.task_id@ != (#[trigger] s[j]).task.task_id@
}

pub open spec fn holds(s: Seq<Scheduled>, id: Seq<char>) -> bool {
    exists|i: int| 0 <= i < s.len() && (#[trigger] s[i]).task.task_id@ == id
}

/// `s` is past its deadline.
pub open spec fn expired(s: Scheduled, now: Instant) -> bool {
    s.deadline is Some && s.deadline->0.nanos <= now.nanos
}

/// Entry `k` is the one to fire at `now`: due, and longest so; of several, the
/// one held longest.
pub open spec fn fires(s: Seq<Scheduled>, now: Instant, k: int) -> bool {
    &&& 0 <= k < s.len()
    &&& s[k].due_at.nanos <= now.nanos
    &&& forall|j: int| 0 <= j < s.len() ==> s[k].due_at.nanos <= (#[trigger] s[j]).due_at.nanos
    &&& forall|j: int| 0 <= j < k ==> s[k].due_at.nanos < (#[trigger] s[j]).due_at.nanos
}

/// When a task that fires at `now` fires next. It counts from the previous due
/// time, so a slow run does not make the cadence drift. More than a whole
/// interval behind it skips ahead: catching up with a burst would measure our
/// own backlog rather than the path.
pub open spec fn next_after(due: Instant, now: Instant, interval: Duration) -> Instant {
    if crate::duration::elapsed(due, now).nanos > interval.nanos {
        crate::duration::moved(now, interval)
    } else {
        crate::duration::moved(due, interval)
    }
}

pub open spec fn interval_of(t: Task, fallback: Duration) -> Duration {
    match t.interval {
        Some(d) => d,
        None => fallback,
    }
}

pub open spec fn listed(keep: Seq<String>, id: Seq<char>) -> bool {
    exists|i: int| 0 <= i < keep.len() && (#[trigger] keep[i])@ == id
}

/// The entries that `keep` lists.
pub open spec fn kept(s: Seq<Scheduled>, keep: Seq<String>) -> Seq<Scheduled> {
    s.filter(|e: Scheduled| listed(keep, e.task.task_id@))
}

pub open spec fn unexpired(s: Seq<Scheduled>, now: Instant) -> Seq<Scheduled> {
    s.filter(|e: Scheduled| !expired(e, now))
}

pub open spec fn expired_ones(s: Seq<Scheduled>, now: Instant) -> Seq<Scheduled> {
    s.filter(|e: Scheduled| expired(e, now))
}

/// What a plan holds.
pub struct PlanView {
    pub cached: Seq<Scheduled>,
    pub pending: Seq<Scheduled>,
}

/// Recurring work with `task` in it. An entry that is held for it already keeps
/// its schedule.
pub open spec fn refreshed(s: Seq<Scheduled>, task: Task, now: Instant) -> Seq<Scheduled> {
    if holds(s, task.task_id@) {
        Seq::new(
            s.len(),
            |i: int|
                if s[i].task.task_id@ == task.task_id@ {
                    Scheduled { task, deadline: None, due_at: s[i].due_at }
                } else {
                    s[i]
                },
        )
    } else {
        s.push(Scheduled { task, deadline: None, due_at: now })
    }
}

/// One-shots with `task` among them. A repeated lease is not a second run.
pub open spec fn queued(
    s: Seq<Scheduled>,
    task: Task,
    expires_in: Option<Duration>,
    now: Instant,
) -> Seq<Scheduled> {
    if holds(s, task.task_id@) {
        s
    } else {
        s.push(
            Scheduled {
                task,
                deadline: match expires_in {
                    Some(d) => Some(crate::duration::moved(now, d)),
                    None => None,
                },
                due_at: now,
            },
        )
    }
}

/// A plan with a freshly leased task merged in.
pub open spec fn merged(
    p: PlanView,
    task: Task,
    expires_in: Option<Duration>,
    now: Instant,
) -> PlanView {
    if task.recurring {
        PlanView { cached: refreshed(p.cached, task, now), ..p }
    } else {
        PlanView { pending: queued(p.pending, task, expires_in, now), ..p }
    }
}

/// `r` is how long it is until something is due: no time where a one-shot
/// waits, else the time to the earliest of the recurring work, if there is any.
pub open spec fn due_in(p: PlanView, now: Instant, r: Option<Duration>) -> bool {
    if p.pending.len() > 0 {
        r == Some(Duration { nanos: 0 })
    } else {
        match r {
            None => p.cached.len() == 0,
            Some(d) => {
                &&& exists|i: int|
                    0 <= i < p.cached.len() && d == crate::duration::elapsed(
                        now,
                        (#[trigger] p.cached[i]).due_at,
                    )
                &&& forall|i: int|
                    0 <= i < p.cached.len() ==> d.nanos <= crate::duration::elapsed(
                        now,
                        (#[trigger] p.cached[i]).due_at,
                    ).nanos
            },
        }
    }
}

/// `r` is the task of `before` that comes due at `now`, and `after` what is left
/// to do. The oldest one-shot comes first. Without one, of the recurring work
/// that is due the one that fires comes, and its next time is set.
pub open spec fn comes_due(
    before: PlanView,
    fallback: Duration,
    now: Instant,
    r: Option<Task>,
    after: PlanView,
) -> bool {
    if before.pending.len() > 0 {
        &&& r == Some(before.pending[0].task)
        &&& after.pending == before.pending.skip(1)
        &&& after.cached == before.cached
    } else {
        &&& after.pending == before.pending
        &&& (forall|k: int| !fires(before.cached, now, k)) ==> r is None && after.cached
            == before.cached
        &&& forall|k: int| #[trigger]
            fires(before.cached, now, k) ==> {
                let due = before.cached[k];
                &&& r is Some
                &&& same_task(r->0, due.task)
                &&& after.cached == before.cached.update(
                    k,
                    Scheduled {
                        due_at: next_after(due.due_at, now, interval_of(due.task, fallback)),
                        ..due
                    },
                )
            }
    }
}

impl Plan {
    pub open spec fn state(&self) -> PlanView {
        PlanView { cached: self.cached(), pending: self.pending() }
    }

    /// The cached recurring work.
    pub closed spec fn cached(&self) -> Seq<Scheduled> {
        self.recurring@
    }

    /// The pending one-shots, oldest first.
    pub closed spec fn pending(&self) -> Seq<Scheduled> {
        self.oneshot@
    }

    pub closed spec fn fallback(&self) -> Duration {
        self.default_interval
    }

    /// Every task is held once, where it belongs, and recurring work has no
    /// deadline.
    pub open spec fn wf(&self) -> bool {
        &&& distinct(self.cached())
        &&& distinct(self.pending())
        &&& forall|i: int|
            0 <= i < self.cached().len() ==> (#[trigger] self.cached()[i]).task.recurring
                && self.cached()[i].deadline is None
        &&& forall|i: int|
            0 <= i < self.pending().len() ==> !(#[trigger] self.pending()[i]).task.recurring
    }

    pub fn new(default_interval: Duration) -> (r: Plan)
        ensures
            r.wf(),
            r.cached().len() == 0,
            r.pending().len() == 0,
            r.fallback() == default_interval,
    {
        Plan { recurring: Vec::new(), oneshot: Vec::new(), default_interval }
    }

    pub fn recurring_len(&self) -> (r: usize)
        ensures
            r == self.cached().len(),
    {
        self.recurring.len()
    }

    pub fn oneshot_len(&self) -> (r: usize)
        ensures
            r == self.pending().len(),
    {
        self.oneshot.len()
    }

    pub fn is_empty(&self) -> (r: bool)
        ensures
            r == (self.cached().len() == 0 && self.pending().len() == 0),
    {
        self.recurring.len() == 0 && self.oneshot.len() == 0
    }

    /// Merge a freshly leased task into the plan.
    ///
    /// `expires_in` is how long a one-shot remains worth running, measured from
    /// now. Recurring tasks ignore it: continuous work never expires, which is
    /// the whole point of caching it. Refreshing an existing assignment does
    /// not reset its schedule, or an agent polling faster than its measurement
    /// interval would never actually fire. A repeated lease of a one-shot is
    /// not a second run.
    pub fn accept(&mut self, task: Task, expires_in: Option<Duration>, now: Instant)
        requires
            old(self).wf(),
        ensures
            final(self).wf(),
            final(self).fallback() == old(self).fallback(),
            final(self).state() == merged(old(self).state(), task, expires_in, now),
    {
        if task.recurring {
            match position(&self.recurring, task.task_id.as_str()) {
                Some(i) => {
                    let due_at: Instant = self.recurring[i].due_at;
                    let fresh = Scheduled { task, deadline: None, due_at };
                    self.recurring.set(i, fresh);
                    proof {
                        assert(self.cached() =~= refreshed(old(self).cached(), task, now));
                    }
                },
                None => {
                    self.recurring.push(Scheduled { task, deadline: None, due_at: now });
                },
            }
        } else {
            if position(&self.oneshot, task.task_id.as_str()).is_some() {
                return;
            }
            let deadline = match expires_in {
                Some(d) => Some(now.after(d)),
                None => None,
            };
            self.oneshot.push(Scheduled { task, deadline, due_at: now });
        }
    }

    /// Remove one-shots that are past their deadline.
    ///
    /// Returned so the caller can report them as `skipped`: silently dropping
    /// them would leave an operator waiting forever for an answer.
    pub fn reap_expired(&mut self, now: Instant) -> (r: Vec<Skipped>)
        requires
            old(self).wf(),
        ensures
            final(self).wf(),
            final(self).fallback() == old(self).fallback(),
            final(self).cached() == old(self).cached(),
            final(self).pending() == unexpired(old(self).pending(), now),
            r@.len() == expired_ones(old(self).pending(), now).len(),
            forall|i: int|
                0 <= i < r@.len() ==> (#[trigger] r@[i]).task == expired_ones(
                    old(self).pending(),
                    now,
                )[i].task && r@[i].reason@ == REASON_EXPIRED@,
    {
        let ghost all = self.oneshot@;
        let mut out: Vec<Skipped> = Vec::new();
        let mut kept: Vec<Scheduled> = Vec::new();
        let mut rest: Vec<Scheduled> = Vec::new();
        core::mem::swap(&mut rest, &mut self.oneshot);
        proof {
            assert(all.take(0) =~= Seq::empty());
        }
        let n: usize = rest.len();
        let mut i: usize = 0;
        while i < n
            invariant
                i <= n == all.len(),
                rest@ == all.skip(i as int),
                kept@ == unexpired(all.take(i as int), now),
                out@.len() == expired_ones(all.take(i as int), now).len(),
                forall|k: int|
                    0 <= k < out@.len() ==> (#[trigger] out@[k]).task == expired_ones(
                        all.take(i as int),
                        now,
                    )[k].task && out@[k].reason@ == REASON_EXPIRED@,
                self.recurring@ == old(self).cached(),
                self.default_interval == old(self).fallback(),
            decreases n - i,
        {
            proof {
                assert(all.take(i + 1).drop_last() =~= all.take(i as int));
                assert(rest@[0] == all[i as int]);
                reveal(Seq::filter);
            }
            let s = rest.remove(0);
            let past: bool = match s.deadline {
                Some(d) => d.nanos <= now.nanos,
                None => false,
            };
            if past {
                out.push(Skipped { task: s.task, reason: REASON_EXPIRED });
            } else {
                kept.push(s);
            }
            proof {
                assert(rest@ =~= all.skip(i + 1));
            }
            i = i + 1;
        }
        proof {
            assert(all.take(n as int) =~= all);
            lemma_filter_keeps(all, |e: Scheduled| !expired(e, now));
        }
        self.oneshot = kept;
        out
    }

    /// Take the next task that is due to run, if any.
    ///
    /// One-shots win over recurring work: somebody is actively waiting on a
    /// diagnostic, whereas a continuous probe that slips by one cycle is
    /// unremarkable.
    ///
    /// This consults only local state, so it keeps returning work while the
    /// controller is unreachable.
    pub fn next_due(&mut self, now: Instant) -> (r: Option<Task>)
        requires
            old(self).wf(),
        ensures
            final(self).wf(),
            final(self).fallback() == old(self).fallback(),
            comes_due(old(self).state(), old(self).fallback(), now, r, final(self).state()),
    {
        if self.oneshot.len() > 0 {
            let s = self.oneshot.remove(0);
            proof {
                assert(self.oneshot@ =~= old(self).oneshot@.skip(1));
            }
            return Some(s.task);
        }
        let ghost all = self.recurring@;
        let n: usize = self.recurring.len();
        if n == 0 {
            return None;
        }
        let mut best: usize = 0;
        let mut i: usize = 1;
        while i < n
            invariant
                best < i <= n == all.len(),
                self.recurring@ == all,
                forall|j: int|
                    0 <= j < i ==> all[best as int].due_at.nanos <= (#[trigger] all[j]).due_at.nanos,
                forall|j: int|
                    0 <= j < best ==> all[best as int].due_at.nanos < (
                    #[trigger] all[j]).due_at.nanos,
            decreases n - i,
        {
            if self.recurring[i].due_at.nanos < self.recurring[best].due_at.nanos {
                best = i;
            }
            i = i + 1;
        }
        let due_at: Instant = self.recurring[best].due_at;
        if due_at.nanos > now.nanos {
            proof {
                assert forall|k: int| !fires(all, now, k) by {
                    if fires(all, now, k) {
                        assert(all[best as int].due_at.nanos <= all[k].due_at.nanos);
                    }
                }
            }
            return None;
        }
        proof {
            assert(fires(all, now, best as int));
            assert forall|k: int| fires(all, now, k) implies k == best by {
                assert(all[best as int].due_at.nanos <= all[k].due_at.nanos);
                assert(all[k].due_at.nanos <= all[best as int].due_at.nanos);
            }
        }
        let interval: Duration = match self.recurring[best].task.interval {
            Some(d) => d,
            None => self.default_interval,
        };
        let next: Instant = if now.saturating_duration_since(due_at).nanos > interval.nanos {
            now.after(interval)
        } else {
            due_at.after(interval)
        };
        let task = self.recurring[best].task.duplicate();
        self.recurring[best].due_at = next;
        Some(task)
    }

    /// How long until the next recurring task is due, for sizing a sleep.
    pub fn time_until_due(&self, now: Instant) -> (r: Option<Duration>)
        ensures
            due_in(self.state(), now, r),
    {
        if self.oneshot.len() > 0 {
            return Some(Duration { nanos: 0 });
        }
        if self.recurring.len() == 0 {
            return None;
        }
        let mut least: Duration = self.recurring[0].due_at.saturating_duration_since(now);
        let mut i: usize = 1;
        proof {
            assert(least == crate::duration::elapsed(now, self.recurring@[0].due_at));
        }
        while i < self.recurring.len()
            invariant
                1 <= i <= self.recurring@.len(),
                exists|j: int|
                    0 <= j < i && least == crate::duration::elapsed(
                        now,
                        (#[trigger] self.recurring@[j]).due_at,
                    ),
                forall|j: int|
                    0 <= j < i ==> least.nanos <= crate::duration::elapsed(
                        now,
                        (#[trigger] self.recurring@[j]).due_at,
                    ).nanos,
            decreases self.recurring@.len() - i,
        {
            let d: Duration = self.recurring[i].due_at.saturating_duration_since(now);
            if d.nanos < least.nanos {
                least = d;
                proof {
                    assert(least == crate::duration::elapsed(
                        now,
                        self.recurring@[i as int].due_at,
                    ));
                }
            }
            i = i + 1;
        }
        Some(least)
    }

    /// Drop a recurring assignment the controller has withdrawn.
    pub fn remove(&mut self, task_id: &str) -> (r: bool)
        requires
            old(self).wf(),
        ensures
            final(self).wf(),
            final(self).fallback() == old(self).fallback(),
            final(self).pending() == old(self).pending(),
            r == holds(old(self).cached(), task_id@),
            !r ==> final(self).cached() == old(self).cached(),
            forall|i: int|
                0 <= i < old(self).cached().len() && (#[trigger] old(
                    self,
                ).cached()[i]).task.task_id@ == task_id@ ==> final(self).cached() == old(
                    self,
                ).cached().remove(i),
    {
        match position(&self.recurring, task_id) {
            Some(i) => {
                let _ = self.recurring.remove(i);
                true
            },
            None => false,
        }
    }

    /// Replace the whole recurring set with what the controller just sent.
    ///
    /// Only safe after a *successful* poll. Applying it to an empty result from
    /// a failed poll would silently cancel every measurement the agent has,
    /// turning a controller outage into a monitoring outage, which is the exact
    /// failure this module exists to prevent.
    pub fn reconcile_recurring(&mut self, keep: &[String]) -> (r: usize)
        requires
            old(self).wf(),
        ensures
            final(self).wf(),
            final(self).fallback() == old(self).fallback(),
            final(self).pending() == old(self).pending(),
            final(self).cached() == kept(old(self).cached(), keep@),
            r == old(self).cached().len() - final(self).cached().len(),
    {
        let ghost all = self.recurring@;
        let mut held: Vec<Scheduled> = Vec::new();
        let mut rest: Vec<Scheduled> = Vec::new();
        core::mem::swap(&mut rest, &mut self.recurring);
        let n: usize = rest.len();
        let mut i: usize = 0;
        proof {
            assert(all.take(0) =~= Seq::empty());
        }
        while i < n
            invariant
                i <= n == all.len(),
                rest@ == all.skip(i as int),
                held@ == kept(all.take(i as int), keep@),
                held@.len() <= i,
                self.oneshot@ == old(self).pending(),
                self.default_interval == old(self).fallback(),
            decreases n - i,
        {
            proof {
                assert(all.take(i + 1).drop_last() =~= all.take(i as int));
                assert(rest@[0] == all[i as int]);
                reveal(Seq::filter);
            }
            let s = rest.remove(0);
            if lists(keep, s.task.task_id.as_str()) {
                held.push(s);
            }
            proof {
                assert(rest@ =~= all.skip(i + 1));
            }
            i = i + 1;
        }
        proof {
            assert(all.take(n as int) =~= all);
            lemma_filter_keeps(all, |e: Scheduled| listed(keep@, e.task.task_id@));
        }
        let gone: usize = n - held.len();
        self.recurring = held;
        gone
    }
}

fn lists(keep: &[String], id: &str) -> (r: bool)
    ensures
        r == listed(keep@, id@),
{
    let mut i: usize = 0;
    while i < keep.len()
        invariant
            i <= keep@.len(),
            forall|j: int| 0 <= j < i ==> (#[trigger] keep@[j])@ != id@,
        decreases keep@.len() - i,
    {
        if same(keep[i].as_str(), id) {
            return true;
        }
        i = i + 1;
    }
    false
}

fn position(s: &Vec<Scheduled>, id: &str) -> (r: Option<usize>)
    requires
        distinct(s@),
    ensures
        match r {
            Some(i) => i < s@.len() && s@[i as int].task.task_id@ == id@ && forall|j: int|
                0 <= j < s@.len() && (#[trigger] s@[j]).task.task_id@ == id@ ==> j == i,
            None => !holds(s@, id@),
        },
{
    let mut i: usize = 0;
    while i < s.len()
        invariant
            distinct(s@),
            i <= s@.len(),
            forall|j: int| 0 <= j < i ==> (#[trigger] s@[j]).task.task_id@ != id@,
        decreases s@.len() - i,
    {
        if same(s[i].task.task_id.as_str(), id) {
            return Some(i);
        }
        i = i + 1;
    }
    None
}

/// What a filter leaves is there because it was there, and in the same order.
pub proof fn lemma_filter_keeps(s: Seq<Scheduled>, p: spec_fn(Scheduled) -> bool)
    ensures
        s.filter(p).len() <= s.len(),
        distinct(s) ==> distinct(s.filter(p)),
        forall|i: int|
            0 <= i < s.filter(p).len() ==> p(#[trigger] s.filter(p)[i]) && s.contains(
                s.filter(p)[i],
            ),
    decreases s.len(),
{
    reveal(Seq::filter);
    if s.len() > 0 {
        let rest = s.drop_last();
        let f = rest.filter(p);
        lemma_filter_keeps(rest, p);
        if distinct(s) {
            assert forall|i: int, j: int| 0 <= i < j < rest.len() implies (
            #[trigger] rest[i]).task.task_id@ != (#[trigger] rest[j]).task.task_id@ by {
                assert(s[i].task.task_id@ != s[j].task.task_id@);
            }
        }
        assert forall|i: int| 0 <= i < s.filter(p).len() implies p(#[trigger] s.filter(p)[i])
            && s.contains(s.filter(p)[i]) by {
            if i < f.len() {
                assert(s.filter(p)[i] == f[i]);
                assert(rest.contains(f[i]));
                let k = choose|k: int| 0 <= k < rest.len() && rest[k] == f[i];
                assert(s[k] == f[i]);
            } else {
                assert(s.filter(p)[i] == s[s.len() - 1]);
            }
        }
        if distinct(s) && p(s.last()) {
            assert forall|i: int, j: int| 0 <= i < j < f.push(s.last()).len() implies (
            #[trigger] f.push(s.last())[i]).task.task_id@ != (#[trigger] f.push(
                s.last(),
            )[j]).task.task_id@ by {
                if j == f.len() {
                    assert(rest.contains(f[i]));
                    let k = choose|k: int| 0 <= k < rest.len() && rest[k] == f[i];
                    assert(s[k].task.task_id@ != s[s.len() - 1].task.task_id@);
                }
            }
        }
    }
}

/// A task that fires is next due neither before now nor more than an interval
/// from now, and exactly one interval after it was due unless it had fallen
/// more than that behind: the cadence does not drift and a backlog does not
/// come out as a burst.
pub proof fn law_cadence_neither_drifts_nor_bursts(due: Instant, now: Instant, interval: Duration)
    requires
        due.nanos <= now.nanos,
        now.nanos + interval.nanos <= u128::MAX,
    ensures
        now.nanos <= next_after(due, now, interval).nanos <= now.nanos + interval.nanos,
        now.nanos - due.nanos <= interval.nanos ==> next_after(due, now, interval).nanos
            == due.nanos + interval.nanos,
{
}

/// Something fires whenever recurring work is due, and it is the only one that
/// can.
pub proof fn law_due_work_fires(s: Seq<Scheduled>, now: Instant, i: int)
    requires
        0 <= i < s.len(),
        s[i].due_at.nanos <= now.nanos,
    ensures
        exists|k: int| #[trigger] fires(s, now, k),
        forall|j: int, k: int| fires(s, now, j) && fires(s, now, k) ==> j == k,
{
    let m = lemma_least_due(s, s.len() as int);
    assert(s[m].due_at.nanos <= s[i].due_at.nanos);
    assert(fires(s, now, m));
    assert forall|j: int, k: int| fires(s, now, j) && fires(s, now, k) implies j == k by {
        if j < k {
            assert(s[k].due_at.nanos < s[j].due_at.nanos);
        }
        if k < j {
            assert(s[j].due_at.nanos < s[k].due_at.nanos);
        }
    }
}

proof fn lemma_least_due(s: Seq<Scheduled>, n: int) -> (m: int)
    requires
        0 < n <= s.len(),
    ensures
        0 <= m < n,
        forall|j: int| 0 <= j < n ==> s[m].due_at.nanos <= (#[trigger] s[j]).due_at.nanos,
        forall|j: int| 0 <= j < m ==> s[m].due_at.nanos < (#[trigger] s[j]).due_at.nanos,
    decreases n,
{
    if n == 1 {
        0
    } else {
        let m = lemma_least_due(s, n - 1);
        if s[n - 1].due_at.nanos < s[m].due_at.nanos {
            n - 1
        } else {
            m
        }
    }
}

/// Reconciling with a list keeps what the list names and nothing else.
pub proof fn law_reconciling_keeps_what_is_listed(s: Seq<Scheduled>, keep: Seq<String>, i: int)
    requires
        0 <= i < s.len(),
    ensures
        kept(s, keep).contains(s[i]) <==> listed(keep, s[i].task.task_id@),
{
    broadcast use vstd::seq_lib::group_filter_ensures;

    let p = |e: Scheduled| listed(keep, e.task.task_id@);
    if p(s[i]) {
        assert(s.filter(p).contains(s[i]));
    }
    lemma_filter_keeps(s, p);
}

/// A stale diagnostic is never run and never forgotten: of the pending
/// one-shots each is either kept, and then its time has not passed, or handed
/// back as skipped, and then it has.
pub proof fn law_stale_diagnostics_are_reported_not_run(s: Seq<Scheduled>, now: Instant, i: int)
    requires
        0 <= i < s.len(),
    ensures
        unexpired(s, now).contains(s[i]) <==> !expired(s[i], now),
        expired_ones(s, now).contains(s[i]) <==> expired(s[i], now),
        forall|k: int|
            0 <= k < unexpired(s, now).len() ==> !expired(#[trigger] unexpired(s, now)[k], now),
        unexpired(s, now).len() + expired_ones(s, now).len() == s.len(),
{
    broadcast use vstd::seq_lib::group_filter_ensures;

    let stale = |e: Scheduled| expired(e, now);
    let fresh = |e: Scheduled| !expired(e, now);
    lemma_filter_keeps(s, stale);
    lemma_filter_keeps(s, fresh);
    lemma_filter_splits(s, now);
    if stale(s[i]) {
        assert(s.filter(stale).contains(s[i]));
    } else {
        assert(s.filter(fresh).contains(s[i]));
    }
}

proof fn lemma_filter_splits(s: Seq<Scheduled>, now: Instant)
    ensures
        unexpired(s, now).len() + expired_ones(s, now).len() == s.len(),
    decreases s.len(),
{
    reveal(Seq::filter);
    if s.len() > 0 {
        lemma_filter_splits(s.drop_last(), now);
    }
}

/// Merging a task that is held already moves nothing: recurring work keeps its
/// schedule however often it is leased, and a one-shot leased twice runs once.
pub proof fn law_a_repeated_lease_changes_no_schedule(
    p: PlanView,
    task: Task,
    first: Option<Duration>,
    again: Option<Duration>,
    now: Instant,
    later: Instant,
)
    ensures
        merged(merged(p, task, first, now), task, again, later) == merged(p, task, first, now),
{
    let once = merged(p, task, first, now);
    let twice = merged(once, task, again, later);
    if task.recurring {
        if holds(p.cached, task.task_id@) {
            let k = choose|k: int|
                0 <= k < p.cached.len() && (#[trigger] p.cached[k]).task.task_id@ == task.task_id@;
            assert(once.cached[k].task.task_id@ == task.task_id@);
        } else {
            assert(once.cached[p.cached.len() as int].task.task_id@ == task.task_id@);
            assert forall|k: int| 0 <= k < p.cached.len() implies (
            #[trigger] p.cached[k]).task.task_id@ != task.task_id@ by {}
        }
        assert(twice.cached =~= once.cached);
    } else {
        if !holds(p.pending, task.task_id@) {
            assert(once.pending[p.pending.len() as int].task.task_id@ == task.task_id@);
        }
        assert(holds(once.pending, task.task_id@));
    }
}

/// Accepting recurring work leaves one entry for its id, and that entry holds
/// the accepted task itself, whether or not the id was held before. Of an entry
/// held before only the time it is due stays; a new one is due at once. Nothing
/// else in the plan moves.
pub proof fn law_accepted_work_is_what_the_plan_holds(
    p: PlanView,
    task: Task,
    expires_in: Option<Duration>,
    now: Instant,
)
    requires
        task.recurring,
        distinct(p.cached),
    ensures
        ({
            let a = merged(p, task, expires_in, now);
            &&& a.pending == p.pending
            &&& exists|k: int|
                0 <= k < a.cached.len() && (#[trigger] a.cached[k]).task == task
                    && a.cached[k].deadline is None
            &&& forall|k: int|
                0 <= k < a.cached.len() && (#[trigger] a.cached[k]).task.task_id@ == task.task_id@
                    ==> a.cached[k].task == task
            &&& forall|j: int, k: int|
                0 <= j < k < a.cached.len() ==> (#[trigger] a.cached[j]).task.task_id@ != (
                #[trigger] a.cached[k]).task.task_id@
            &&& forall|i: int, k: int|
                0 <= i < p.cached.len() && 0 <= k < a.cached.len() && (
                #[trigger] p.cached[i]).task.task_id@ == task.task_id@ && (
                #[trigger] a.cached[k]).task.task_id@ == task.task_id@ ==> a.cached[k].due_at
                    == p.cached[i].due_at
            &&& forall|k: int|
                0 <= k < a.cached.len() && (#[trigger] a.cached[k]).task.task_id@ == task.task_id@
                    && (forall|i: int|
                    0 <= i < p.cached.len() ==> (#[trigger] p.cached[i]).task.task_id@
                        != task.task_id@) ==> a.cached[k].due_at == now
            &&& forall|i: int|
                0 <= i < p.cached.len() && (#[trigger] p.cached[i]).task.task_id@ != task.task_id@
                    ==> a.cached[i] == p.cached[i]
            &&& p.cached.len() <= a.cached.len() <= p.cached.len() + 1
        }),
{
    let a = merged(p, task, expires_in, now);
    if holds(p.cached, task.task_id@) {
        let k = choose|k: int|
            0 <= k < p.cached.len() && (#[trigger] p.cached[k]).task.task_id@ == task.task_id@;
        assert(a.cached[k].task == task);
    } else {
        assert(a.cached[p.cached.len() as int].task == task);
    }
}

/// A one-shot that is not held yet goes behind those that are, due at once and
/// stale from the moment its time has run out; without a limit it never goes
/// stale. One that is held already changes nothing.
pub proof fn law_a_one_shot_waits_its_turn_until_it_is_stale(
    p: PlanView,
    task: Task,
    expires_in: Option<Duration>,
    now: Instant,
    later: Instant,
)
    requires
        !task.recurring,
        expires_in is Some ==> now.nanos + expires_in->0.nanos <= u128::MAX,
    ensures
        ({
            let a = merged(p, task, expires_in, now);
            let n = p.pending.len() as int;
            &&& a.cached == p.cached
            &&& (exists|i: int|
                0 <= i < n && (#[trigger] p.pending[i]).task.task_id@ == task.task_id@)
                ==> a.pending == p.pending
            &&& (forall|i: int|
                0 <= i < n ==> (#[trigger] p.pending[i]).task.task_id@ != task.task_id@) ==> {
                &&& a.pending.len() == n + 1
                &&& a.pending[n].task == task
                &&& a.pending[n].due_at == now
                &&& forall|i: int| 0 <= i < n ==> #[trigger] a.pending[i] == p.pending[i]
                &&& expired(a.pending[n], later) <==> expires_in is Some && later.nanos
                    >= now.nanos + expires_in->0.nanos
            }
        }),
{
}

/// What comes due: the oldest one-shot where one waits, leaving the recurring
/// work alone; else the recurring work that has been due longest, which stays
/// in the plan with a new time; else nothing, and nothing changes.
pub proof fn law_what_comes_due(
    before: PlanView,
    fallback: Duration,
    now: Instant,
    r: Option<Task>,
    after: PlanView,
)
    requires
        comes_due(before, fallback, now, r, after),
    ensures
        before.pending.len() > 0 ==> {
            &&& r == Some(before.pending[0].task)
            &&& after.cached == before.cached
            &&& before.pending == seq![before.pending[0]] + after.pending
        },
        before.pending.len() == 0 ==> after.pending.len() == 0,
        before.pending.len() == 0 && (forall|i: int|
            0 <= i < before.cached.len() ==> (#[trigger] before.cached[i]).due_at.nanos
                > now.nanos) ==> r is None && after.cached == before.cached,
        before.pending.len() == 0 && (exists|i: int|
            0 <= i < before.cached.len() && (#[trigger] before.cached[i]).due_at.nanos
                <= now.nanos) ==> {
            &&& r is Some
            &&& after.cached.len() == before.cached.len()
            &&& exists|k: int|
                0 <= k < before.cached.len() && {
                    let due = #[trigger] before.cached[k];
                    let t = match due.task.interval {
                        Some(d) => d,
                        None => fallback,
                    };
                    &&& due.due_at.nanos <= now.nanos
                    &&& same_task(r->0, due.task)
                    &&& forall|j: int|
                        0 <= j < before.cached.len() ==> due.due_at.nanos <= (
                        #[trigger] before.cached[j]).due_at.nanos
                    &&& forall|j: int|
                        0 <= j < before.cached.len() && j != k ==> #[trigger] after.cached[j]
                            == before.cached[j]
                    &&& after.cached[k].task == due.task
                    &&& after.cached[k].deadline == due.deadline
                    &&& now.nanos + t.nanos <= u128::MAX ==> after.cached[k].due_at.nanos == (
                    if now.nanos - due.due_at.nanos > t.nanos {
                        now.nanos
                    } else {
                        due.due_at.nanos
                    }) + t.nanos
                }
        },
{
    if before.pending.len() > 0 {
        assert(before.pending =~= seq![before.pending[0]] + before.pending.skip(1));
    } else if exists|i: int|
        0 <= i < before.cached.len() && (#[trigger] before.cached[i]).due_at.nanos <= now.nanos {
        let i = choose|i: int|
            0 <= i < before.cached.len() && (#[trigger] before.cached[i]).due_at.nanos <= now.nanos;
        law_due_work_fires(before.cached, now, i);
        let k = choose|k: int| #[trigger] fires(before.cached, now, k);
        assert(fires(before.cached, now, k));
        let due = before.cached[k];
        assert(same_task(r->0, due.task));
    } else {
        assert forall|k: int| !fires(before.cached, now, k) by {
            if fires(before.cached, now, k) {
                assert(before.cached[k].due_at.nanos <= now.nanos);
            }
        }
    }
}

/// The time to sleep is neither too long nor too short: once it has passed
/// something is due, and before that nothing is.
pub proof fn law_sleeping_ends_when_work_is_due(
    p: PlanView,
    now: Instant,
    r: Option<Duration>,
    t: Instant,
)
    requires
        due_in(p, now, r),
    ensures
        r is None <==> p.pending.len() == 0 && p.cached.len() == 0,
        p.pending.len() > 0 ==> r->0.nanos == 0,
        r is Some && p.pending.len() == 0 && t.nanos >= now.nanos + r->0.nanos ==> exists|i: int|
            0 <= i < p.cached.len() && (#[trigger] p.cached[i]).due_at.nanos <= t.nanos,
        r is Some && p.pending.len() == 0 && t.nanos < now.nanos + r->0.nanos && now.nanos
            <= t.nanos ==> forall|i: int|
            0 <= i < p.cached.len() ==> (#[trigger] p.cached[i]).due_at.nanos > t.nanos,
{
    if r is Some && p.pending.len() == 0 {
        let i = choose|i: int|
            0 <= i < p.cached.len() && r->0 == crate::duration::elapsed(
                now,
                (#[trigger] p.cached[i]).due_at,
            );
        assert(p.cached[i].due_at.nanos <= now.nanos + r->0.nanos);
    }
}

/// What a list keeps is decided by its ids alone: entries keep everything they
/// hold, and none that was not there comes in.
pub proof fn law_reconciling_adds_nothing(s: Seq<Scheduled>, keep: Seq<String>, k: int)
    requires
        0 <= k < kept(s, keep).len(),
    ensures
        s.contains(kept(s, keep)[k]),
        exists|i: int|
            0 <= i < keep.len() && (#[trigger] keep[i])@ == kept(s, keep)[k].task.task_id@,
{
    lemma_filter_keeps(s, |e: Scheduled| listed(keep, e.task.task_id@));
}

/// A task that is handed out says what the plan's own does, in every field: its
/// id, session, kind and role, its peer with the address to reach it at, its
/// parameters and its cadence.
pub proof fn law_what_a_task_says(a: Task, b: Task)
    ensures
        same_task(a, b) <==> {
            &&& a.task_id@ == b.task_id@
            &&& a.session_id == b.session_id
            &&& a.kind == b.kind
            &&& a.role == b.role
            &&& (a.peer is Some) == (b.peer is Some)
            &&& a.peer is Some ==> {
                &&& a.peer->0.agent_id@ == b.peer->0.agent_id@
                &&& a.peer->0.name@ == b.peer->0.name@
                &&& a.peer->0.address@ == b.peer->0.address@
                &&& a.peer->0.probe_port == b.peer->0.probe_port
            }
            &&& a.params@ == b.params@
            &&& a.recurring == b.recurring
            &&& a.interval == b.interval
        },
{
}

} // verus!
