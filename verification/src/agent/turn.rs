//! The agent's loop, one decision at a time.
//!
//! A turn abandons what is stale, talks to the controller where that is due,
//! and then measures whatever the plan says, however the talking went. Only
//! when nothing is due are results submitted, and only then does it sleep.

use vstd::prelude::*;

use crate::agent::{work_for, Agent, Work};
use crate::collector::mos::Codec;
use crate::controller::client::HeartbeatRequest;
use crate::duration::{Duration, Instant};
use crate::json::Json;
use crate::probe::sender::ProbeConfig;
use crate::tasks::plan::Task;

verus! {

/// What a turn looks at next.
#[derive(Debug, Clone, Copy, PartialEq, Eq, Structural)]
pub enum Stage {
    /// Stale one-shots, and whether to poll.
    Top,
    Heartbeat,
    /// What is due to be measured.
    Work,
    /// Results to submit.
    Submit,
    Rest,
}

/// What to do outside.
#[derive(Debug)]
pub enum Action {
    /// Nothing: look at the next stage.
    Continue,
    /// Lease tasks from the controller.
    Poll,
    Heartbeat { request: HeartbeatRequest },
    /// Measure, and queue what comes of it.
    Probe { task: Task, cfg: ProbeConfig, codec: Codec },
    /// Submit results to the controller.
    Submit { results: Vec<Json>, dropped: u64 },
    Sleep { pause: Duration },
}

/// The agent in its loop.
pub struct Loop {
    pub agent: Agent,
    pub stage: Stage,
    /// When this turn began.
    pub began: Instant,
}

/// What becomes of a task that came due: a probe is handed out, a task that
/// cannot be run is reported as skipped, and one that the reflector serves
/// needs nothing.
pub open spec fn carried_out(
    before: Agent,
    task: Task,
    unix_nanos: i128,
    r: Action,
    after: Agent,
) -> bool {
    match r {
        Action::Probe { task: t, cfg, codec } => {
            &&& t == task
            &&& crate::agent::work_of(task, Work::Probe { cfg, codec })
            &&& after.same_but_plan(before)
        },
        Action::Continue => {
            ||| (crate::agent::work_of(task, Work::Serve) && after.same_but_plan(before))
            ||| (exists|reason: &'static str| #[trigger]
                crate::agent::work_of(task, Work::Skip { reason })
                    && crate::agent::reported_skipped(before, task, reason@, unix_nanos, after))
        },
        _ => false,
    }
}

/// `r` and `after` are what the loop makes of its stage at `now`.
pub open spec fn turned(
    before: Loop,
    now: Instant,
    unix_nanos: i128,
    uptime: Duration,
    active_sessions: usize,
    r: Action,
    after: Loop,
) -> bool {
    match before.stage {
        Stage::Top => {
            &&& after.stage == Stage::Heartbeat
            &&& after.began == now
            &&& crate::agent::reaped(before.agent, now, unix_nanos, after.agent)
            &&& if before.agent.next_poll.nanos <= now.nanos {
                r is Poll
            } else {
                r is Continue
            }
        },
        Stage::Heartbeat => {
            &&& after.stage == Stage::Work
            &&& after.began == before.began
            &&& after.agent == before.agent
            &&& if before.agent.next_heartbeat.nanos <= before.began.nanos {
                r matches Action::Heartbeat { request } && crate::agent::reports_state(
                    before.agent,
                    uptime,
                    active_sessions,
                    request,
                )
            } else {
                r is Continue
            }
        },
        Stage::Work => {
            &&& after.began == before.began
            &&& after.agent.plan.fallback() == before.agent.plan.fallback()
            &&& exists|due: Option<Task>| #[trigger]
                crate::tasks::plan::comes_due(
                    before.agent.plan.state(),
                    before.agent.plan.fallback(),
                    now,
                    due,
                    after.agent.plan.state(),
                ) && match due {
                    None => {
                        &&& after.stage == Stage::Submit
                        &&& r is Continue
                        &&& after.agent.same_but_plan(before.agent)
                    },
                    Some(task) => {
                        &&& after.stage == Stage::Top
                        &&& carried_out(before.agent, task, unix_nanos, r, after.agent)
                    },
                }
        },
        Stage::Submit => {
            &&& after.began == before.began
            &&& match r {
                Action::Submit { results, dropped } => {
                    &&& after.stage == Stage::Submit
                    &&& crate::agent::batched(before.agent, Some((results, dropped)), after.agent)
                },
                Action::Continue => {
                    &&& after.stage == Stage::Rest
                    &&& crate::agent::batched(before.agent, None, after.agent)
                },
                _ => false,
            }
        },
        Stage::Rest => {
            &&& after.stage == Stage::Top
            &&& after.began == before.began
            &&& after.agent == before.agent
            &&& r matches Action::Sleep { pause } && crate::agent::is_pause(
                before.agent,
                now,
                pause,
            )
        },
    }
}

impl Loop {
    /// An agent that is about to begin its first turn.
    pub fn begin(agent: Agent, now: Instant) -> (r: Loop)
        ensures
            r == (Loop { agent, stage: Stage::Top, began: now }),
    {
        Loop { agent, stage: Stage::Top, began: now }
    }

    /// Look at one stage and say what to do. `uptime` and `active_sessions` are
    /// for a heartbeat, should one be due.
    pub fn turn(
        &mut self,
        now: Instant,
        unix_nanos: i128,
        uptime: Duration,
        active_sessions: usize,
    ) -> (r: Action)
        requires
            old(self).agent.wf(),
        ensures
            final(self).agent.wf(),
            turned(*old(self), now, unix_nanos, uptime, active_sessions, r, *final(self)),
    {
        match self.stage {
            Stage::Top => {
                let poll: bool = self.agent.poll_due(now);
                self.agent.reap(now, unix_nanos);
                self.began = now;
                self.stage = Stage::Heartbeat;
                if poll {
                    Action::Poll
                } else {
                    Action::Continue
                }
            },
            Stage::Heartbeat => {
                self.stage = Stage::Work;
                if self.agent.heartbeat_due(self.began) {
                    Action::Heartbeat {
                        request: self.agent.heartbeat_request(uptime, active_sessions),
                    }
                } else {
                    Action::Continue
                }
            },
            Stage::Work => self.work(now, unix_nanos),
            Stage::Submit => match self.agent.next_batch() {
                Some(b) => {
                    let (results, dropped) = b;
                    Action::Submit { results, dropped }
                },
                None => {
                    self.stage = Stage::Rest;
                    Action::Continue
                },
            },
            Stage::Rest => {
                self.stage = Stage::Top;
                Action::Sleep { pause: self.agent.sleep(now) }
            },
        }
    }

    fn work(&mut self, now: Instant, unix_nanos: i128) -> (r: Action)
        requires
            old(self).agent.wf(),
            old(self).stage == Stage::Work,
        ensures
            final(self).agent.wf(),
            turned(*old(self), now, unix_nanos, Duration { nanos: 0 }, 0, r, *final(self)),
    {
        let ghost before = self.agent;
        let due = self.agent.plan.next_due(now);
        proof {
            assert(crate::tasks::plan::comes_due(
                before.plan.state(),
                before.plan.fallback(),
                now,
                due,
                self.agent.plan.state(),
            ));
        }
        match due {
            None => {
                self.stage = Stage::Submit;
                Action::Continue
            },
            Some(task) => {
                self.stage = Stage::Top;
                match work_for(&task) {
                    Work::Probe { cfg, codec } => Action::Probe { task, cfg, codec },
                    Work::Skip { reason } => {
                        proof {
                            assert(crate::agent::work_of(task, Work::Skip { reason }));
                        }
                        let ghost mid = self.agent;
                        self.agent.skip(&task, reason, unix_nanos);
                        proof {
                            assert(crate::agent::reported_skipped(
                                mid,
                                task,
                                reason@,
                                unix_nanos,
                                self.agent,
                            ));
                            assert(crate::agent::reported_skipped(
                                before,
                                task,
                                reason@,
                                unix_nanos,
                                self.agent,
                            ));
                        }
                        Action::Continue
                    },
                    Work::Serve => Action::Continue,
                }
            },
        }
    }

    /// A batch of `n` results came through.
    pub fn submitted(&mut self, n: usize)
        requires
            old(self).agent.wf(),
        ensures
            final(self).agent.wf(),
            final(self).began == old(self).began,
            final(self).stage == (if n >= crate::agent::SUBMIT_BATCH
                && old(self).agent.spool.queue().len() > 0 {
                Stage::Submit
            } else {
                Stage::Rest
            }),
            final(self).agent.same_but_spool(old(self).agent),
            final(self).agent.spool.config() == old(self).agent.spool.config(),
            final(self).agent.spool.queue() == old(self).agent.spool.queue(),
            final(self).agent.spool.lost() == 0,
            final(self).agent.spool.lost_ever() == old(self).agent.spool.lost_ever(),
    {
        self.stage = if self.agent.batch_sent(n) {
            Stage::Submit
        } else {
            Stage::Rest
        };
    }

    /// A batch did not come through. It goes back to the queue, and the loop
    /// rests before it tries again.
    pub fn not_submitted(&mut self, batch: Vec<Json>)
        requires
            old(self).agent.wf(),
        ensures
            final(self).agent.wf(),
            final(self).began == old(self).began,
            final(self).stage == Stage::Rest,
            final(self).agent.same_but_spool(old(self).agent),
            final(self).agent.spool.config() == old(self).agent.spool.config(),
            final(self).agent.spool.queue() == crate::spool::readmitted(
                old(self).agent.spool.queue(),
                old(self).agent.spool.config(),
                crate::agent::weighed(batch@),
            ),
            ({
                let held = final(self).agent.spool.queue().len();
                let gone = old(self).agent.spool.queue().len() + batch@.len() - held;
                &&& gone >= 0
                &&& final(self).agent.spool.lost() == crate::spool::counted(
                    old(self).agent.spool.lost(),
                    gone,
                )
                &&& final(self).agent.spool.lost_ever() == crate::spool::counted(
                    old(self).agent.spool.lost_ever(),
                    gone,
                )
            }),
    {
        self.agent.batch_failed(batch);
        self.stage = Stage::Rest;
    }
}

/// Communication never keeps the agent from measuring: a turn comes to its work
/// whether or not the controller was polled or told anything, and with the
/// recurring work it had.
pub proof fn law_every_turn_comes_to_its_work(
    before: Loop,
    now: Instant,
    unix_nanos: i128,
    uptime: Duration,
    active_sessions: usize,
    r: Action,
    after: Loop,
)
    requires
        turned(before, now, unix_nanos, uptime, active_sessions, r, after),
    ensures
        before.stage == Stage::Top ==> after.stage == Stage::Heartbeat,
        before.stage == Stage::Heartbeat ==> after.stage == Stage::Work,
        before.stage == Stage::Top || before.stage == Stage::Heartbeat ==> after.agent.plan.cached()
            == before.agent.plan.cached(),
{
}

/// Nothing sleeps while there is work: the loop leaves its work only where
/// nothing is pending and no recurring task is due.
pub proof fn law_the_loop_rests_only_without_work(
    before: Loop,
    now: Instant,
    unix_nanos: i128,
    uptime: Duration,
    active_sessions: usize,
    r: Action,
    after: Loop,
)
    requires
        turned(before, now, unix_nanos, uptime, active_sessions, r, after),
        before.stage == Stage::Work,
        after.stage != Stage::Top,
    ensures
        before.agent.plan.pending().len() == 0,
        forall|i: int|
            0 <= i < before.agent.plan.cached().len() ==> (
            #[trigger] before.agent.plan.cached()[i]).due_at.nanos > now.nanos,
{
    let cached = before.agent.plan.cached();
    assert forall|i: int| 0 <= i < cached.len() implies (#[trigger] cached[i]).due_at.nanos
        > now.nanos by {
        if cached[i].due_at.nanos <= now.nanos {
            crate::tasks::plan::law_due_work_fires(cached, now, i);
            let k = choose|k: int| crate::tasks::plan::fires(cached, now, k);
            assert(crate::tasks::plan::fires(before.agent.plan.state().cached, now, k));
        }
    }
}

/// A diagnostic whose time has passed when a turn begins is not among what that
/// turn may run.
pub proof fn law_a_turn_runs_nothing_stale(
    before: Loop,
    now: Instant,
    unix_nanos: i128,
    uptime: Duration,
    active_sessions: usize,
    r: Action,
    after: Loop,
    i: int,
)
    requires
        turned(before, now, unix_nanos, uptime, active_sessions, r, after),
        before.stage == Stage::Top,
        0 <= i < after.agent.plan.pending().len(),
    ensures
        !crate::tasks::plan::expired(after.agent.plan.pending()[i], now),
        before.agent.plan.pending().contains(after.agent.plan.pending()[i]),
{
    crate::tasks::plan::lemma_filter_keeps(
        before.agent.plan.pending(),
        |e: crate::tasks::plan::Scheduled| !crate::tasks::plan::expired(e, now),
    );
}

} // verus!
