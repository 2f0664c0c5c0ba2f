//! What the agent makes of its tasks, of the controller's answers, and of its
//! time.

use vstd::prelude::*;

use crate::agent::{Agent, Enrolled, Lease, Verified, Work};
use crate::collector::mos::Codec;
use crate::controller::client::{HeartbeatResponse, RegisterResponse, TaskDto};
use crate::controller::{Backoff, ControllerError, Identity};
use crate::duration::{Duration, Instant};
use crate::json::Json;
use crate::json::JsonView;
use crate::net::IpAddr;
use crate::probe::reflector::Session;
use crate::tasks::plan::{Kind, Role, Scheduled, Task};

verus! {

/// Under `key` the parameters have the number `n`.
pub open spec fn asks_for(p: JsonView, key: Seq<char>, n: nat) -> bool {
    p.get(key) == Some(JsonView::Number(crate::text::decimal(n)))
}

/// Under `key` the parameters have the text `s`.
pub open spec fn names(p: JsonView, key: Seq<char>, s: Seq<char>) -> bool {
    p.get(key) == Some(JsonView::Text(s))
}

proof fn lemma_parameter(p: JsonView, key: Seq<char>, n: nat, default: nat)
    requires
        n <= u64::MAX,
    ensures
        asks_for(p, key, n) ==> crate::agent::parameter(p, key, default) == n,
        p.get(key) is None ==> crate::agent::parameter(p, key, default) == default,
{
    crate::text::law_decimal_reads_back(n);
}

/// A probe task whose peer has an address is run against that peer, in the
/// task's session, with the parameters it gives: a hundred packets of 172 bytes
/// 20 ms apart, each waited for a second, where it gives none.
pub proof fn law_a_probe_task_is_run_as_asked(t: Task, w: Work, ip: IpAddr, n: nat)
    requires
        crate::agent::work_of(t, w),
        t.kind == Kind::MqpProbe,
        t.role == Role::Sender,
        t.peer is Some,
        crate::net::address(t.peer->0.address@) == Some(ip),
        n <= u32::MAX,
    ensures
        w is Probe,
        ({
            let cfg = w->Probe_cfg;
            let p = t.params@;
            &&& cfg.session_id == t.session_id
            &&& cfg.peer.ip == ip
            &&& cfg.peer.port == t.peer->0.probe_port
            &&& p.get("count"@) is None ==> cfg.count == 100
            &&& asks_for(p, "count"@, n) ==> cfg.count == n
            &&& p.get("interval_ms"@) is None ==> cfg.interval.nanos == 20_000_000
            &&& asks_for(p, "interval_ms"@, n) ==> cfg.interval.nanos == n * 1_000_000
            &&& p.get("payload_bytes"@) is None ==> cfg.payload_bytes == 172
            &&& asks_for(p, "payload_bytes"@, n) ==> cfg.payload_bytes == n
            &&& p.get("timeout_ms"@) is None ==> cfg.timeout.nanos == 1_000_000_000
            &&& asks_for(p, "timeout_ms"@, n) ==> cfg.timeout.nanos == n * 1_000_000
            &&& p.get("dscp"@) is None ==> cfg.dscp is None
        }),
{
    let p = t.params@;
    lemma_parameter(p, "count"@, n, 100);
    lemma_parameter(p, "interval_ms"@, n, 20);
    lemma_parameter(p, "payload_bytes"@, n, 172);
    lemma_parameter(p, "timeout_ms"@, n, 1000);
}

/// The class that a probe task asks for marks its packets, and the codec that it
/// names scores them: G.711 where it names none.
pub proof fn law_a_probe_task_is_marked_and_scored_as_asked(t: Task, w: Work, n: nat)
    requires
        crate::agent::work_of(t, w),
        w is Probe,
        n < 256,
    ensures
        ({
            let p = t.params@;
            &&& asks_for(p, "dscp"@, n) ==> w->Probe_cfg.dscp == Some(n as u8)
            &&& p.get("codec"@) is None ==> w->Probe_codec == Codec::G711
            &&& names(p, "codec"@, "g711plc"@) ==> w->Probe_codec == Codec::G711Plc
            &&& names(p, "codec"@, "g729"@) ==> w->Probe_codec == Codec::G729
            &&& names(p, "codec"@, "g722"@) ==> w->Probe_codec == Codec::G722
            &&& names(p, "codec"@, "opus"@) ==> w->Probe_codec == Codec::Opus
        }),
{
    crate::text::law_decimal_reads_back(n);
    reveal_strlit("g711plc");
    reveal_strlit("g729");
    reveal_strlit("g722");
    reveal_strlit("opus");
    assert("g711plc"@.len() == 7 && "opus"@[0] == 'o' && "g729"@[0] == 'g' && "g722"@[0] == 'g');
    assert("g722"@[3] == '2' && "g729"@[3] == '9' && "g722"@.len() == 4 && "g729"@.len() == 4);
}

/// What is not run: a task of another kind is skipped; one in which the agent
/// reflects is left to the reflector; and a probe without a peer, or whose peer
/// has no address, is skipped. Nothing else is.
pub proof fn law_what_is_not_run(t: Task, w: Work)
    requires
        crate::agent::work_of(t, w),
    ensures
        t.kind != Kind::MqpProbe ==> w is Skip,
        t.kind == Kind::MqpProbe && t.role == Role::Reflector ==> w is Serve,
        t.kind == Kind::MqpProbe && t.role == Role::Sender && (t.peer is None
            || crate::net::address(t.peer->0.address@) is None) ==> w is Skip,
        t.kind == Kind::MqpProbe && t.role == Role::Sender && t.peer is Some && crate::net::address(
            t.peer->0.address@,
        ) is Some ==> w is Probe,
{
}

/// The agent sleeps at least 50 ms and at most five seconds; within that, never
/// past the moment when something is due or the next poll comes, and never
/// shorter than until the first of these.
pub proof fn law_how_long_the_agent_sleeps(
    until_due: Option<Duration>,
    poll: Duration,
    until_poll: Duration,
)
    ensures
        ({
            let p = crate::agent::pause(until_due, poll, until_poll);
            let due = match until_due {
                Some(d) => d.nanos,
                None => poll.nanos,
            };
            &&& 50_000_000 <= p <= 5_000_000_000
            &&& p > 50_000_000 ==> p <= due && p <= until_poll.nanos
            &&& p < 5_000_000_000 ==> p >= due || p >= until_poll.nanos
        }),
{
}

/// An agent is enrolled with the identity and the intervals that the controller
/// gives; a failure that may pass is retried after a wait; any other ends it.
pub proof fn law_what_enrolment_comes_to(
    reply: Result<RegisterResponse, ControllerError>,
    b: Backoff,
    unit: u32,
    r: Enrolled,
)
    requires
        crate::agent::enrolment(reply, b, unit, r),
    ensures
        r is Registered <==> reply is Ok,
        reply matches Ok(a) ==> {
            &&& r->Registered_0.agent_id == a.agent_id
            &&& r->Registered_0.token == a.token
            &&& r->Registered_0.group == a.group
            &&& (r->Registered_1.poll is Some) == (a.poll_interval_s is Some)
            &&& a.poll_interval_s is Some ==> r->Registered_1.poll->0.nanos == a.poll_interval_s->0
                * 1_000_000_000
            &&& (r->Registered_1.heartbeat is Some) == (a.heartbeat_interval_s is Some)
            &&& a.heartbeat_interval_s is Some ==> r->Registered_1.heartbeat->0.nanos
                == a.heartbeat_interval_s->0 * 1_000_000_000
        },
        reply matches Err(e) ==> (r is Retry <==> e is Transport || (e is Http && (e->Http_status
            >= 500 || e->Http_status == 429))),
        r matches Enrolled::Retry(d) ==> d.nanos <= b.max.nanos,
{
    crate::controller::law_delays_are_bounded(b, unit);
}

/// A stored identity that the network or the controller failed on is tried
/// again after a wait within the limit; one that was answered, or answered in a
/// way that says nothing of it, is used.
pub proof fn law_what_verifying_comes_to(
    reply: Result<(), ControllerError>,
    b: Backoff,
    unit: u32,
    r: Verified,
)
    requires
        crate::agent::verdict(reply, b, unit, r),
    ensures
        reply is Ok ==> r is Usable,
        reply matches Err(e) ==> {
            &&& e is Unauthorized ==> r is Revoked
            &&& e is Transport ==> r is Retry
            &&& e is Http && e->Http_status >= 500 ==> r is Retry
            &&& e is Decode ==> r is Usable
        },
        r matches Verified::Retry(d) ==> d.nanos <= b.max.nanos,
{
    crate::controller::law_delays_are_bounded(b, unit);
}

/// Leased tasks are taken one after the other, in the order they came.
pub proof fn law_tasks_are_taken_in_order(
    l: Lease,
    a: Seq<TaskDto>,
    d: TaskDto,
    now: Instant,
)
    ensures
        crate::agent::taken_all(l, Seq::empty(), now) == l,
        crate::agent::taken_all(l, a.push(d), now) == crate::agent::taken(
            crate::agent::taken_all(l, a, now),
            d,
            now,
        ),
{
    assert(a.push(d).drop_last() =~= a);
}

/// A leased task that can be planned is in the plan once it is taken, as it was
/// sent; one that cannot changes nothing. A recurring one is listed. Only where
/// the agent reflects is a session granted: to the task's peer, under the task's
/// session, for good where the task recurs and for its time where it does not.
pub proof fn law_what_taking_a_task_does(l: Lease, d: TaskDto, now: Instant)
    requires
        crate::tasks::plan::distinct(l.plan.cached),
    ensures
        !crate::controller::client::can_plan(d) ==> crate::agent::taken(l, d, now) == l,
        crate::controller::client::can_plan(d) ==> {
            let t = crate::controller::client::planned(d).0;
            let m = crate::agent::taken(l, d, now);
            &&& d.recurring ==> {
                &&& exists|k: int|
                    0 <= k < m.plan.cached.len() && (#[trigger] m.plan.cached[k]).task == t
                &&& m.plan.pending == l.plan.pending
                &&& m.recurring == l.recurring.push(d.task_id@)
            }
            &&& !d.recurring ==> {
                &&& exists|k: int|
                    0 <= k < m.plan.pending.len() && (#[trigger] m.plan.pending[k]).task.task_id@
                        == d.task_id@
                &&& m.plan.cached == l.plan.cached
                &&& m.recurring == l.recurring
            }
            &&& t.role == Role::Sender ==> m.grants == l.grants
            &&& t.role == Role::Reflector && t.peer is Some && crate::net::address(
                t.peer->0.address@,
            ) is Some ==> {
                let s = m.grants[t.session_id];
                &&& m.grants.dom().contains(t.session_id)
                &&& s.peer.ip == crate::net::address(t.peer->0.address@)->0
                &&& s.peer.port == t.peer->0.probe_port
                &&& s.standing == t.recurring
                &&& forall|k: u64|
                    k != t.session_id && l.grants.dom().contains(k) ==> m.grants.dom().contains(k)
                        && #[trigger] m.grants[k] == l.grants[k]
            }
        },
{
    if crate::controller::client::can_plan(d) {
        let p = crate::controller::client::planned(d);
        let m = crate::agent::taken(l, d, now);
        if d.recurring {
            crate::tasks::plan::law_accepted_work_is_what_the_plan_holds(l.plan, p.0, p.1, now);
        } else {
            let n = l.plan.pending.len() as int;
            if crate::tasks::plan::holds(l.plan.pending, p.0.task_id@) {
                let k = choose|k: int|
                    0 <= k < n && (#[trigger] l.plan.pending[k]).task.task_id@ == p.0.task_id@;
                assert(m.plan.pending[k].task.task_id@ == d.task_id@);
            } else {
                assert(m.plan.pending[n].task.task_id@ == d.task_id@);
            }
        }
    }
}

/// What a successful poll listed is what recurs from then on: each entry that
/// stays was listed, and each listed one that was held stays. A poll that listed
/// nothing recurring withdraws nothing.
pub proof fn law_what_a_poll_withdraws(cached: Seq<Scheduled>, ids: Seq<Seq<char>>, i: int)
    requires
        0 <= i < cached.len(),
    ensures
        ids.len() == 0 ==> crate::agent::assigned(cached, ids) == cached,
        ids.len() > 0 ==> (crate::agent::assigned(cached, ids).contains(cached[i])
            <==> ids.contains(cached[i].task.task_id@)),
{
    let p = |e: Scheduled| ids.contains(e.task.task_id@);
    if ids.len() > 0 {
        if p(cached[i]) {
            cached.lemma_filter_contains(p, i);
        }
        if cached.filter(p).contains(cached[i]) {
            let k = choose|k: int| 0 <= k < cached.filter(p).len() && cached.filter(p)[k] == cached[i];
            cached.lemma_filter_pred(p, k);
        }
    }
}

/// A poll that was answered clears the error, ends the waiting, and is followed
/// by the next one interval after it began. One that failed keeps its error, is
/// one more failed attempt, and is repeated after a wait within the limit.
pub proof fn law_what_a_poll_changes(
    before: Agent,
    grants: Map<u64, Session>,
    reply: Result<Vec<TaskDto>, ControllerError>,
    began: Instant,
    now: Instant,
    unit: u32,
    after: Agent,
    grants_after: Map<u64, Session>,
)
    requires
        crate::agent::poll_outcome(
            before,
            grants,
            reply,
            began,
            now,
            unit,
            after,
            grants_after,
        ),
        began.nanos + before.poll_interval.nanos <= u128::MAX,
        began.nanos + before.comms.max.nanos <= u128::MAX,
        before.comms.attempts < u32::MAX,
    ensures
        after.spool == before.spool,
        reply is Ok ==> {
            &&& after.last_error is None
            &&& after.comms.attempts == 0
            &&& after.next_poll.nanos == began.nanos + before.poll_interval.nanos
        },
        reply matches Err(e) ==> {
            &&& after.last_error is Some
            &&& after.last_error->0@ == crate::controller::error_message(e)
            &&& after.comms.attempts == before.comms.attempts + 1
            &&& began.nanos <= after.next_poll.nanos <= began.nanos + before.comms.max.nanos
        },
{
    crate::controller::law_delays_are_bounded(before.comms, unit);
}

/// A batch is the oldest results that are queued, in order, a hundred at most,
/// and goes with the number of those that were lost; the rest stays queued.
pub proof fn law_a_batch_is_the_oldest_results(
    before: Agent,
    r: Option<(Vec<Json>, u64)>,
    after: Agent,
)
    requires
        crate::agent::batched(before, r, after),
    ensures
        r is None <==> before.spool.queue().len() == 0,
        r matches Some(b) ==> {
            &&& 0 < b.0@.len() <= 100
            &&& b.0@.len() < 100 ==> after.spool.queue().len() == 0
            &&& b.1 == before.spool.lost()
            &&& b.0@.len() + after.spool.queue().len() == before.spool.queue().len()
            &&& forall|i: int| 0 <= i < b.0@.len() ==> #[trigger] b.0@[i] == before.spool.queue()[i].0
            &&& forall|i: int|
                0 <= i < after.spool.queue().len() ==> #[trigger] after.spool.queue()[i]
                    == before.spool.queue()[b.0@.len() + i]
        },
{
}

/// Once results are submitted those that were lost before are told, and no
/// longer counted; there is more to submit at once where the batch was full and
/// something is queued.
pub proof fn law_what_a_submission_changes(before: Agent, n: usize, r: bool, after: Agent)
    requires
        crate::agent::submitted(before, n, r, after),
    ensures
        after.spool.lost() == 0,
        after.spool.queue() == before.spool.queue(),
        after.plan == before.plan,
        r <==> n >= 100 && before.spool.queue().len() > 0,
{
}

/// A heartbeat that was answered has told of the losses, may change how often
/// to poll, and may ask to register anew; one that failed changes nothing but
/// when the next is due: one interval from now either way.
pub proof fn law_what_a_heartbeat_changes(
    before: Agent,
    reply: Result<HeartbeatResponse, ControllerError>,
    now: Instant,
    r: bool,
    after: Agent,
)
    requires
        crate::agent::beat(before, reply, now, r, after),
        now.nanos + before.heartbeat_interval.nanos <= u128::MAX,
    ensures
        after.next_heartbeat.nanos == now.nanos + before.heartbeat_interval.nanos,
        after.plan == before.plan,
        after.spool.queue() == before.spool.queue(),
        reply is Err ==> !r && after.spool.lost() == before.spool.lost() && after.poll_interval
            == before.poll_interval,
        reply matches Ok(h) ==> {
            &&& r == h.reregister
            &&& after.spool.lost() == 0
            &&& h.poll_interval_s is None ==> after.poll_interval == before.poll_interval
            &&& h.poll_interval_s is Some ==> after.poll_interval.nanos == h.poll_interval_s->0
                * 1_000_000_000
        },
{
}

/// Registering anew gives the identity that the controller answers with and the
/// intervals it sets, and leaves the plan and the results alone; failing to
/// changes nothing.
pub proof fn law_what_registering_anew_changes(
    before: Agent,
    reply: Result<RegisterResponse, ControllerError>,
    r: Option<Identity>,
    after: Agent,
)
    requires
        crate::agent::reenrolled(before, reply, r, after),
    ensures
        r is Some <==> reply is Ok,
        after.plan == before.plan,
        after.spool == before.spool,
        reply is Err ==> after == before,
        reply matches Ok(a) ==> {
            &&& r->0.agent_id == a.agent_id
            &&& r->0.token == a.token
            &&& r->0.group == a.group
            &&& a.poll_interval_s is None ==> after.poll_interval == before.poll_interval
            &&& a.poll_interval_s is Some ==> after.poll_interval.nanos == a.poll_interval_s->0
                * 1_000_000_000
            &&& a.heartbeat_interval_s is None ==> after.heartbeat_interval
                == before.heartbeat_interval
            &&& a.heartbeat_interval_s is Some ==> after.heartbeat_interval.nanos
                == a.heartbeat_interval_s->0 * 1_000_000_000
        },
{
}

/// An agent claims what it can do: it always probes and reflects, never claims
/// managed TWAMP, and tests throughput exactly where it has a router to test
/// with. The port it gives is the one it listens on.
pub proof fn law_what_an_agent_claims(cfg: crate::config::Config)
    ensures
        ({
            let c = crate::agent::abilities(cfg);
            &&& c.mqp && !c.twamp_light
            &&& c.routeros_btest <==> cfg.routeros is Some
            &&& c.probe_port == cfg.probe_bind.port
        }),
{
}

/// The session of a one-shot reflector task is granted for as long as the task
/// stays worth running, and counts as used from now; that of a recurring one has
/// no end. Without a peer, or a peer with an address, nothing is granted.
pub proof fn law_how_long_a_session_is_granted(
    m: Map<u64, Session>,
    t: Task,
    expires_in: Option<Duration>,
    now: Instant,
)
    requires
        expires_in is Some ==> now.nanos + expires_in->0.nanos <= u128::MAX,
    ensures
        ({
            let after = crate::agent::granted(m, t, expires_in, now);
            let able = t.peer is Some && crate::net::address(t.peer->0.address@) is Some;
            &&& !able ==> after == m
            &&& able && t.recurring ==> after[t.session_id].until is None
                && after[t.session_id].active_at is None
            &&& able && !t.recurring ==> {
                &&& after[t.session_id].active_at == Some(now)
                &&& expires_in is None ==> after[t.session_id].until is None
                &&& expires_in is Some ==> after[t.session_id].until is Some
                    && after[t.session_id].until->0.nanos == now.nanos + expires_in->0.nanos
            }
        }),
{
}

/// A heartbeat tells how many whole seconds the agent is up, how many sessions
/// it serves, its latest error, and what of its results waits and was lost.
pub proof fn law_what_a_heartbeat_tells(
    a: Agent,
    uptime: Duration,
    active: usize,
    r: crate::controller::client::HeartbeatRequest,
)
    requires
        crate::agent::reports_state(a, uptime, active, r),
        uptime.nanos <= u64::MAX,
    ensures
        r.uptime_s * 1_000_000_000 <= uptime.nanos < (r.uptime_s + 1) * 1_000_000_000,
        r.active_sessions == active,
        r.last_error == a.last_error,
        r.spool_dropped == a.spool.lost(),
        r.spool_depth == a.spool.queue().len(),
{
}

/// A task that was abandoned is reported: its own result says that it was
/// skipped and why, and each of several has one.
pub proof fn law_abandoned_tasks_are_reported(
    bodies: Seq<(Json, usize)>,
    gone: Seq<Scheduled>,
    unix_nanos: i128,
    i: int,
)
    requires
        crate::agent::reports_skipped(bodies, gone, unix_nanos),
        0 <= i < gone.len(),
    ensures
        bodies.len() == gone.len(),
        bodies[i].0@.get("task_id"@) == Some(JsonView::Text(gone[i].task.task_id@)),
        bodies[i].0@.get("status"@) == Some(JsonView::Text("skipped"@)),
        bodies[i].0@.get("error"@) == Some(
            JsonView::Text("one-shot expired before it could run"@),
        ),
        bodies[i].1 == crate::agent::size_of(bodies[i].0@),
{
    let t = gone[i].task;
    assert(bodies[i].0@ == crate::agent::report::error_value(
        t,
        unix_nanos,
        unix_nanos,
        "skipped"@,
        crate::tasks::plan::REASON_EXPIRED@,
    ));
    crate::agent::report_laws::law_a_failure_is_reported(
        t,
        unix_nanos,
        unix_nanos,
        "skipped"@,
        crate::tasks::plan::REASON_EXPIRED@,
    );
}

} // verus!
