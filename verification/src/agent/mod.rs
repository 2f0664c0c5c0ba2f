//! The managed agent: what it does next, and what it makes of what came back.
//!
//! Measurement and communication are two concerns that do not block each other.
//! Measurement is driven entirely by the local [`plan`](crate::tasks::plan), so
//! a controller outage slows reporting but never stops measuring. That is the
//! point, since the controller link is often down because of the fault being
//! measured.

use vstd::prelude::*;
use vstd::string::StringExecFns;

use crate::agent::report::skipped_body;
use crate::collector::mos::Codec;
use crate::config::Config;
use crate::controller::client::{
    Capabilities, HeartbeatRequest, HeartbeatResponse, HostInfo, RegisterRequest, RegisterResponse,
    TaskDto,
};
use crate::controller::{Backoff, ControllerError, Identity};
use crate::duration::{Duration, Instant};
use crate::json::Json;
use crate::json::JsonView;
use crate::net::{IpAddr, SocketAddr};
use crate::probe::reflector::{Registry, Session};
use crate::probe::sender::ProbeConfig;
use crate::spool::{Accepted, Spool};
use crate::tasks::plan::{Kind, Plan, Role, Task};
use crate::tasks::plan::{PlanView, Scheduled};
use crate::text::same;

pub mod laws;
pub mod report;
pub mod report_laws;
pub mod turn;

verus! {

/// Largest batch of results to submit at once. Bounded so a deep spool drains
/// steadily rather than in one request the controller may reject for size.
pub const SUBMIT_BATCH: usize = 100;

/// How long a single measurement may run before we give up on it. Prevents one
/// wedged task from stalling the whole loop.
pub const TASK_TIMEOUT_SECS: u64 = 120;

/// The bytes that a result takes when it is written out.
pub open spec fn size_of(v: JsonView) -> usize {
    vstd::utf8::encode_utf8(crate::json::rendered_text(v)).len() as usize
}

fn measure(body: &Json) -> (r: usize)
    ensures
        r == size_of(body@),
{
    let text = body.render();
    text.as_str().len()
}

// ---------------------------------------------------------------------------
// Enrolment
// ---------------------------------------------------------------------------

/// What to do after a stored identity was tried against the controller.
#[derive(Debug, Clone, PartialEq, Eq)]
pub enum Verified {
    /// The stored credential still works, or nothing says that it does not.
    Usable,
    /// The controller rejected it; enrol again.
    Revoked,
    /// Nothing is known yet; try again after a while.
    Retry(Duration),
}

/// A transport failure proves nothing about the credential, so it is retried
/// rather than treated as revocation: discarding a working identity because the
/// controller happened to be down would burn the agent's one enrolment token
/// for nothing. A reply that is not understood keeps the identity too.
pub open spec fn verdict(
    reply: Result<(), ControllerError>,
    b: Backoff,
    unit: u32,
    r: Verified,
) -> bool {
    match reply {
        Ok(_) => r is Usable,
        Err(e) => if e is Unauthorized {
            r is Revoked
        } else if crate::controller::retryable(e) {
            r matches Verified::Retry(d) && d.nanos == crate::controller::delay(b, unit)
        } else {
            r is Usable
        },
    }
}

/// A heartbeat with a stored identity was answered with `reply`; `unit` is a
/// draw for the delay.
pub fn verify_step(reply: Result<(), ControllerError>, backoff: &mut Backoff, unit: u32) -> (r:
    Verified)
    ensures
        verdict(reply, *old(backoff), unit, r),
        *final(backoff) == (if r is Retry {
            crate::controller::advanced(*old(backoff))
        } else {
            *old(backoff)
        }),
{
    match reply {
        Ok(_) => Verified::Usable,
        Err(e) => {
            if e.needs_reregistration() {
                Verified::Revoked
            } else if e.is_retryable() {
                Verified::Retry(backoff.next_delay(unit))
            } else {
                Verified::Usable
            }
        },
    }
}

/// [`verify_step`] with a delay drawn by chance.
pub fn verified(reply: Result<(), ControllerError>, backoff: &mut Backoff) -> (r: Verified)
    ensures
        exists|unit: u32|
            unit <= crate::controller::WHOLE && #[trigger] verdict(
                reply,
                *old(backoff),
                unit,
                r,
            ),
        *final(backoff) == (if r is Retry {
            crate::controller::advanced(*old(backoff))
        } else {
            *old(backoff)
        }),
{
    let unit: u32 = crate::controller::random_unit();
    verify_step(reply, backoff, unit)
}

/// How often the controller wants to hear of the agent, as far as it says.
#[derive(Debug, Clone, Copy, PartialEq, Eq, Structural)]
pub struct Tuning {
    pub poll: Option<Duration>,
    pub heartbeat: Option<Duration>,
}

/// What a registration's answer tunes.
pub open spec fn tuning_of(a: RegisterResponse) -> Tuning {
    Tuning {
        poll: crate::controller::client::in_seconds(a.poll_interval_s),
        heartbeat: crate::controller::client::in_seconds(a.heartbeat_interval_s),
    }
}

/// `wanted`, or `present` where nothing else is wanted.
pub open spec fn tuned(present: Duration, wanted: Option<Duration>) -> Duration {
    match wanted {
        Some(d) => d,
        None => present,
    }
}

fn seconds(s: Option<u64>) -> (r: Option<Duration>)
    ensures
        r == crate::controller::client::in_seconds(s),
{
    match s {
        Some(n) => Some(Duration::from_secs(n)),
        None => None,
    }
}

/// What to do after a registration was tried.
#[derive(Debug, Clone, PartialEq, Eq)]
pub enum Enrolled {
    Registered(Identity, Tuning),
    Retry(Duration),
    /// A bad enrolment token will never become good. Failing loudly beats
    /// retrying forever against a controller that keeps saying no.
    Rejected(String),
}

/// An agent that gives up because the controller was down at boot would need a
/// human to restart it, on a device that may be in a locked cabinet in another
/// city: whatever may pass is retried, for as long as it takes.
pub open spec fn enrolment(
    reply: Result<RegisterResponse, ControllerError>,
    b: Backoff,
    unit: u32,
    r: Enrolled,
) -> bool {
    match reply {
        Ok(a) => r matches Enrolled::Registered(id, tuning) && id == (Identity {
            agent_id: a.agent_id,
            token: a.token,
            group: a.group,
        }) && tuning == tuning_of(a),
        Err(e) => if crate::controller::retryable(e) {
            r matches Enrolled::Retry(d) && d.nanos == crate::controller::delay(b, unit)
        } else {
            r matches Enrolled::Rejected(why) && why@ == "registration rejected: "@
                + crate::controller::error_message(e)
        },
    }
}

/// A registration was answered with `reply`; `unit` is a draw for the delay.
pub fn register_step(
    reply: Result<RegisterResponse, ControllerError>,
    backoff: &mut Backoff,
    unit: u32,
) -> (r: Enrolled)
    ensures
        enrolment(reply, *old(backoff), unit, r),
        *final(backoff) == (if r is Retry {
            crate::controller::advanced(*old(backoff))
        } else {
            *old(backoff)
        }),
{
    match reply {
        Ok(a) => {
            let tuning = Tuning {
                poll: seconds(a.poll_interval_s),
                heartbeat: seconds(a.heartbeat_interval_s),
            };
            Enrolled::Registered(
                Identity { agent_id: a.agent_id, token: a.token, group: a.group },
                tuning,
            )
        },
        Err(e) => {
            if e.is_retryable() {
                Enrolled::Retry(backoff.next_delay(unit))
            } else {
                let mut t = "registration rejected: ".to_owned();
                let m = e.message();
                t.append(m.as_str());
                Enrolled::Rejected(t)
            }
        },
    }
}

/// [`register_step`] with a delay drawn by chance.
pub fn registered(reply: Result<RegisterResponse, ControllerError>, backoff: &mut Backoff) -> (r:
    Enrolled)
    ensures
        exists|unit: u32|
            unit <= crate::controller::WHOLE && #[trigger] enrolment(
                reply,
                *old(backoff),
                unit,
                r,
            ),
        *final(backoff) == (if r is Retry {
            crate::controller::advanced(*old(backoff))
        } else {
            *old(backoff)
        }),
{
    let unit: u32 = crate::controller::random_unit();
    register_step(reply, backoff, unit)
}

/// What an agent of this configuration can do.
pub open spec fn abilities(cfg: Config) -> Capabilities {
    Capabilities {
        mqp: true,
        twamp_light: false,
        routeros_btest: cfg.routeros is Some,
        probe_port: cfg.probe_bind.port,
    }
}

/// What the agent registers as. `agent_id` is the one it had before, if any,
/// and `advertise` the address peers should reach it on, where that is pinned.
pub fn registration(
    cfg: &Config,
    agent_id: Option<String>,
    version: &str,
    advertise: Option<String>,
) -> (r: RegisterRequest)
    ensures
        r.agent_id == agent_id,
        r.name@ == cfg.name@,
        r.group@ == cfg.group@,
        r.version@ == version@,
        r.capabilities == (Capabilities {
            mqp: true,
            twamp_light: false,
            routeros_btest: cfg.routeros is Some,
            probe_port: cfg.probe_bind.port,
        }),
        r.capabilities == abilities(*cfg),
        r.host.routeros_version is None,
        r.host.board is None,
        r.host.arch is None,
        r.advertise_addr == advertise,
{
    RegisterRequest {
        agent_id,
        name: cfg.name.clone(),
        group: cfg.group.clone(),
        version: version.to_owned(),
        capabilities: Capabilities {
            mqp: true,
            twamp_light: false,
            routeros_btest: cfg.can_bandwidth_test(),
            probe_port: cfg.probe_bind.port,
        },
        host: HostInfo { routeros_version: None, board: None, arch: None },
        advertise_addr: advertise,
    }
}

// ---------------------------------------------------------------------------
// Leased tasks
// ---------------------------------------------------------------------------

/// What leased tasks have brought: the plan, the grants of the reflector, and
/// the recurring tasks among them.
pub struct Lease {
    pub plan: PlanView,
    pub grants: Map<u64, Session>,
    pub recurring: Seq<Seq<char>>,
}

/// The grants with that of a reflector task. A reflector task is an
/// authorisation, not an action; without a peer whose address can be read it
/// authorises nobody. Continuous work is granted until it is revoked, so that
/// peers can measure through a controller outage; a one-shot is leased for as
/// long as it stays worth running.
pub open spec fn granted(
    m: Map<u64, Session>,
    t: Task,
    expires_in: Option<Duration>,
    now: Instant,
) -> Map<u64, Session> {
    match t.peer {
        None => m,
        Some(p) => match crate::net::address(p.address@) {
            None => m,
            Some(ip) => {
                let peer = SocketAddr { ip, port: p.probe_port, scope_id: 0 };
                m.insert(
                    t.session_id,
                    if t.recurring {
                        crate::probe::reflector::standing(peer)
                    } else {
                        crate::probe::reflector::leased(
                            peer,
                            now,
                            match expires_in {
                                Some(d) => Some(crate::duration::moved(now, d)),
                                None => None,
                            },
                        )
                    },
                )
            },
        },
    }
}

/// `l` after one more task. One that cannot be interpreted is ignored.
pub open spec fn taken(l: Lease, d: TaskDto, now: Instant) -> Lease {
    if !crate::controller::client::can_plan(d) {
        l
    } else {
        let t = crate::controller::client::planned(d).0;
        let expires_in = crate::controller::client::planned(d).1;
        Lease {
            plan: crate::tasks::plan::merged(l.plan, t, expires_in, now),
            grants: if t.role == Role::Reflector {
                granted(l.grants, t, expires_in, now)
            } else {
                l.grants
            },
            recurring: if t.recurring {
                l.recurring.push(t.task_id@)
            } else {
                l.recurring
            },
        }
    }
}

pub open spec fn taken_all(l: Lease, dtos: Seq<TaskDto>, now: Instant) -> Lease
    decreases dtos.len(),
{
    if dtos.len() == 0 {
        l
    } else {
        taken(taken_all(l, dtos.drop_last(), now), dtos.last(), now)
    }
}

/// The recurring work that is still assigned. Where a reply assigns none,
/// nothing is withdrawn.
pub open spec fn assigned(cached: Seq<Scheduled>, ids: Seq<Seq<char>>) -> Seq<Scheduled> {
    if ids.len() == 0 {
        cached
    } else {
        cached.filter(|e: Scheduled| ids.contains(e.task.task_id@))
    }
}

fn grant_reflector(
    registry: &mut Registry,
    task: &Task,
    expires_in: Option<Duration>,
    now: Instant,
)
    ensures
        final(registry)@ == granted(old(registry)@, *task, expires_in, now),
{
    if let Some(peer) = &task.peer {
        if let Some(ip) = IpAddr::parse(peer.address.as_str()) {
            let from = SocketAddr::new(ip, peer.probe_port);
            if task.recurring {
                registry.grant(task.session_id, from);
            } else {
                let until = match expires_in {
                    Some(d) => Some(now.after(d)),
                    None => None,
                };
                registry.lease(task.session_id, from, now, until);
            }
        }
    }
}

// ---------------------------------------------------------------------------
// Work
// ---------------------------------------------------------------------------

pub const NO_PEER: &'static str = "probe task has no peer";

pub const NOT_AN_IP: &'static str = "peer address is not an IP";

pub const NOT_IMPLEMENTED: &'static str = "task kind not implemented in this agent version";

/// What a due task comes to.
#[derive(Debug)]
pub enum Work {
    /// Run a probe, and score it for a codec.
    Probe { cfg: ProbeConfig, codec: Codec },
    /// Report it as skipped, with a reason.
    Skip { reason: &'static str },
    /// Nothing: the reflector serves it.
    Serve,
}

/// A parameter of a task that is a whole number, or what stands for it where
/// there is none.
pub open spec fn parameter(p: JsonView, key: Seq<char>, default: nat) -> nat {
    match p.get(key) {
        Some(v) => match v.whole() {
            Some(n) => n,
            None => default,
        },
        None => default,
    }
}

fn read_parameter(p: &Json, key: &str, default: u64) -> (r: u64)
    ensures
        r == parameter(p@, key@, default as nat),
{
    match p.get(key) {
        Some(v) => match v.as_u64() {
            Some(n) => n,
            None => default,
        },
        None => default,
    }
}

/// The DSCP that a task asks for, in eight bits.
pub open spec fn asked_dscp(p: JsonView) -> Option<u8> {
    match p.get("dscp"@) {
        Some(v) => match v.whole() {
            Some(n) => Some((n % 256) as u8),
            None => None,
        },
        None => None,
    }
}

fn read_dscp(p: &Json) -> (r: Option<u8>)
    ensures
        r == asked_dscp(p@),
{
    match p.get("dscp") {
        Some(v) => match v.as_u64() {
            Some(n) => Some((n % 256) as u8),
            None => None,
        },
        None => None,
    }
}

/// The codec that a task names; G.711 where it names none of the others.
pub open spec fn asked_codec(p: JsonView) -> Codec {
    match p.get("codec"@) {
        Some(JsonView::Text(s)) => if s == "g711plc"@ {
            Codec::G711Plc
        } else if s == "g729"@ {
            Codec::G729
        } else if s == "g722"@ {
            Codec::G722
        } else if s == "opus"@ {
            Codec::Opus
        } else {
            Codec::G711
        },
        _ => Codec::G711,
    }
}

fn read_codec(p: &Json) -> (r: Codec)
    ensures
        r == asked_codec(p@),
{
    let name = match p.get("codec") {
        Some(v) => match v.as_str() {
            Some(s) => s,
            None => return Codec::G711,
        },
        None => return Codec::G711,
    };
    if same(name, "g711plc") {
        Codec::G711Plc
    } else if same(name, "g729") {
        Codec::G729
    } else if same(name, "g722") {
        Codec::G722
    } else if same(name, "opus") {
        Codec::Opus
    } else {
        Codec::G711
    }
}

/// The run that a probe task asks for, against its peer at `ip`.
pub open spec fn asked_run(t: Task, ip: IpAddr, port: u16) -> ProbeConfig {
    let p = t.params@;
    ProbeConfig {
        session_id: t.session_id,
        peer: SocketAddr { ip, port, scope_id: 0 },
        count: (parameter(p, "count"@, 100) % 0x1_0000_0000) as u32,
        interval: Duration { nanos: (parameter(p, "interval_ms"@, 20) * 1_000_000) as u128 },
        payload_bytes: parameter(p, "payload_bytes"@, 172) as usize,
        dscp: asked_dscp(p),
        timeout: Duration { nanos: (parameter(p, "timeout_ms"@, 1000) * 1_000_000) as u128 },
        linger: Duration { nanos: 2_000_000_000 },
    }
}

/// What `t` comes to.
pub open spec fn work_of(t: Task, w: Work) -> bool {
    if t.kind != Kind::MqpProbe {
        w matches Work::Skip { reason } && reason@ == NOT_IMPLEMENTED@
    } else if t.role != Role::Sender {
        w is Serve
    } else {
        match t.peer {
            None => w matches Work::Skip { reason } && reason@ == NO_PEER@,
            Some(p) => match crate::net::address(p.address@) {
                None => w matches Work::Skip { reason } && reason@ == NOT_AN_IP@,
                Some(ip) => w matches Work::Probe { cfg, codec } && cfg == asked_run(
                    t,
                    ip,
                    p.probe_port,
                ) && codec == asked_codec(t.params@),
            },
        }
    }
}

pub fn work_for(task: &Task) -> (r: Work)
    ensures
        work_of(*task, r),
{
    if task.kind != Kind::MqpProbe {
        return Work::Skip { reason: NOT_IMPLEMENTED };
    }
    if task.role != Role::Sender {
        return Work::Serve;
    }
    let peer = match &task.peer {
        Some(p) => p,
        None => return Work::Skip { reason: NO_PEER },
    };
    let ip = match IpAddr::parse(peer.address.as_str()) {
        Some(a) => a,
        None => return Work::Skip { reason: NOT_AN_IP },
    };
    let p = &task.params;
    let count: u64 = read_parameter(p, "count", 100);
    let interval: u64 = read_parameter(p, "interval_ms", 20);
    let bytes: u64 = read_parameter(p, "payload_bytes", 172);
    let timeout: u64 = read_parameter(p, "timeout_ms", 1000);
    Work::Probe {
        cfg: ProbeConfig {
            session_id: task.session_id,
            peer: SocketAddr::new(ip, peer.probe_port),
            count: (count % 0x1_0000_0000) as u32,
            interval: Duration::from_millis(interval),
            payload_bytes: bytes as usize,
            dscp: read_dscp(p),
            timeout: Duration::from_millis(timeout),
            linger: Duration::from_secs(2),
        },
        codec: read_codec(p),
    }
}

// ---------------------------------------------------------------------------
// The loop
// ---------------------------------------------------------------------------

/// The state that the agent's loop runs on.
pub struct Agent {
    pub plan: Plan,
    pub spool: Spool<Json>,
    /// How long to wait after failed polls.
    pub comms: Backoff,
    pub poll_interval: Duration,
    pub heartbeat_interval: Duration,
    pub next_poll: Instant,
    pub next_heartbeat: Instant,
    pub last_error: Option<String>,
}

/// Each queued result is accounted for with its own size.
pub open spec fn sized(q: Seq<(Json, usize)>) -> bool {
    forall|i: int| 0 <= i < q.len() ==> (#[trigger] q[i]).1 == size_of(q[i].0@)
}

/// How long the agent sleeps: until something is due or the next poll, and five
/// seconds at most, but at least 50 ms, so it neither spins nor oversleeps.
pub open spec fn pause(until_due: Option<Duration>, poll: Duration, until_poll: Duration) -> nat {
    let a: nat = match until_due {
        Some(d) => d.nanos as nat,
        None => poll.nanos as nat,
    };
    let b = if until_poll.nanos < a {
        until_poll.nanos as nat
    } else {
        a
    };
    if b < 50_000_000 {
        50_000_000
    } else if b > 5_000_000_000 {
        5_000_000_000
    } else {
        b
    }
}

impl Agent {
    pub open spec fn wf(&self) -> bool {
        &&& self.plan.wf()
        &&& self.spool.accounts()
        &&& sized(self.spool.queue())
    }

    /// Everything but the plan and the spool is as it was in `other`.
    pub open spec fn same_otherwise(&self, other: Agent) -> bool {
        &&& self.comms == other.comms
        &&& self.poll_interval == other.poll_interval
        &&& self.heartbeat_interval == other.heartbeat_interval
        &&& self.next_poll == other.next_poll
        &&& self.next_heartbeat == other.next_heartbeat
        &&& self.last_error == other.last_error
    }

    /// Everything but the plan is as it was in `other`.
    pub open spec fn same_but_plan(&self, other: Agent) -> bool {
        self.spool == other.spool && self.same_otherwise(other)
    }

    /// Everything but the spool is as it was in `other`.
    pub open spec fn same_but_spool(&self, other: Agent) -> bool {
        self.plan == other.plan && self.same_otherwise(other)
    }

    /// An agent that was just enrolled: nothing planned, nothing queued, and
    /// both a poll and a heartbeat due at once.
    pub fn assemble(cfg: &Config, now: Instant) -> (r: Agent)
        ensures
            r.wf(),
            r.plan.cached().len() == 0,
            r.plan.pending().len() == 0,
            r.plan.fallback().nanos == 60_000_000_000,
            r.spool.queue().len() == 0,
            r.spool.lost() == 0,
            r.spool.config() == cfg.spool,
            r.comms == (Backoff {
                base: Duration { nanos: 1_000_000_000 },
                max: Duration { nanos: 300_000_000_000 },
                attempts: 0,
            }),
            r.poll_interval == cfg.poll_interval,
            r.heartbeat_interval == cfg.heartbeat_interval,
            r.next_poll == now,
            r.next_heartbeat == now,
            r.last_error is None,
    {
        Agent {
            plan: Plan::new(Duration::from_secs(60)),
            spool: Spool::new(cfg.spool),
            comms: Backoff::default(),
            poll_interval: cfg.poll_interval,
            heartbeat_interval: cfg.heartbeat_interval,
            next_poll: now,
            next_heartbeat: now,
            last_error: None,
        }
    }

    /// Queue a result.
    pub fn enqueue(&mut self, body: Json) -> (r: Accepted)
        requires
            old(self).wf(),
        ensures
            final(self).wf(),
            final(self).same_but_spool(*old(self)),
            final(self).spool.config() == old(self).spool.config(),
            final(self).spool.state() == crate::spool::pushed(
                old(self).spool.state(),
                old(self).spool.config(),
                body,
                size_of(body@),
            ),
            r == crate::spool::answer(
                old(self).spool.queue(),
                old(self).spool.config(),
                size_of(body@),
            ),
    {
        let bytes: usize = measure(&body);
        let ghost f = |e: (Json, usize)| e.1 == size_of(e.0@);
        proof {
            assert forall|i: int| 0 <= i < self.spool.state().queue.len() implies f(
                #[trigger] self.spool.state().queue[i],
            ) by {
                assert(self.spool.queue()[i].1 == size_of(self.spool.queue()[i].0@));
            }
            crate::spool::law_only_pushed_results_are_kept(
                self.spool.state(),
                self.spool.config(),
                body,
                bytes,
                f,
            );
        }
        let r = self.spool.push(body, bytes);
        proof {
            let q = self.spool.state().queue;
            assert forall|i: int| 0 <= i < q.len() implies (#[trigger] q[i]).1 == size_of(
                q[i].0@,
            ) by {
                assert(f(q[i]));
            }
        }
        r
    }

    /// Report a task as skipped.
    pub fn skip(&mut self, task: &Task, reason: &str, unix_nanos: i128)
        requires
            old(self).wf(),
        ensures
            final(self).wf(),
            final(self).same_but_spool(*old(self)),
            reported_skipped(*old(self), *task, reason@, unix_nanos, *final(self)),
    {
        let body = skipped_body(task, unix_nanos, reason);
        let _ = self.enqueue(body);
    }

    /// Abandon the one-shots that are past their deadline. Each is reported as
    /// skipped, never run late.
    pub fn reap(&mut self, now: Instant, unix_nanos: i128)
        requires
            old(self).wf(),
        ensures
            final(self).wf(),
            reaped(*old(self), now, unix_nanos, *final(self)),
    {
        let skipped = self.plan.reap_expired(now);
        let mut i: usize = 0;
        let ghost mut bodies: Seq<(Json, usize)> = Seq::empty();
        let ghost gone = crate::tasks::plan::expired_ones(old(self).plan.pending(), now);
        while i < skipped.len()
            invariant
                i <= skipped@.len(),
                self.wf(),
                self.plan.fallback() == old(self).plan.fallback(),
                self.plan.cached() == old(self).plan.cached(),
                self.plan.pending() == crate::tasks::plan::unexpired(
                    old(self).plan.pending(),
                    now,
                ),
                self.spool.config() == old(self).spool.config(),
                self.same_otherwise(*old(self)),
                gone == crate::tasks::plan::expired_ones(old(self).plan.pending(), now),
                skipped@.len() == gone.len(),
                forall|k: int|
                    0 <= k < skipped@.len() ==> (#[trigger] skipped@[k]).task == gone[k].task
                        && skipped@[k].reason@ == crate::tasks::plan::REASON_EXPIRED@,
                bodies.len() == i,
                reports_skipped(bodies, gone.take(i as int), unix_nanos),
                self.spool.state() == crate::spool::pushed_all(
                    old(self).spool.state(),
                    old(self).spool.config(),
                    bodies,
                ),
            decreases skipped@.len() - i,
        {
            let body = skipped_body(&skipped[i].task, unix_nanos, skipped[i].reason);
            proof {
                let next = bodies.push((body, size_of(body@)));
                assert(next.drop_last() =~= bodies);
                bodies = next;
            }
            let _ = self.enqueue(body);
            i = i + 1;
        }
        proof {
            assert(gone.take(i as int) =~= gone);
        }
    }

    pub fn poll_due(&self, now: Instant) -> (r: bool)
        ensures
            r == (self.next_poll.nanos <= now.nanos),
    {
        self.next_poll.nanos <= now.nanos
    }

    pub fn heartbeat_due(&self, now: Instant) -> (r: bool)
        ensures
            r == (self.next_heartbeat.nanos <= now.nanos),
    {
        self.next_heartbeat.nanos <= now.nanos
    }

    /// A poll that began at `began` was answered with `reply` at `now`; `unit`
    /// is a draw for the delay.
    ///
    /// Work is withdrawn only on a *successful* poll. Doing it after a failure
    /// would cancel every measurement the agent has and turn a controller
    /// outage into a monitoring outage.
    pub fn poll_step(
        &mut self,
        registry: &mut Registry,
        reply: Result<Vec<TaskDto>, ControllerError>,
        began: Instant,
        now: Instant,
        unit: u32,
    )
        requires
            old(self).wf(),
        ensures
            final(self).wf(),
            poll_outcome(
                *old(self),
                old(registry)@,
                reply,
                began,
                now,
                unit,
                *final(self),
                final(registry)@,
            ),
    {
        match reply {
            Ok(dtos) => {
                let ids = self.take_leases(registry, dtos, now);
                if ids.len() > 0 {
                    let _ = self.plan.reconcile_recurring(ids.as_slice());
                }
                self.last_error = None;
                self.comms.reset();
                self.next_poll = began.after(self.poll_interval);
                proof {
                    lemma_assigned(
                        taken_all(
                            Lease {
                                plan: old(self).plan.state(),
                                grants: old(registry)@,
                                recurring: Seq::empty(),
                            },
                            reply->Ok_0@,
                            now,
                        ).plan.cached,
                        ids@,
                    );
                }
            },
            Err(e) => {
                self.last_error = Some(e.message());
                let delay = self.comms.next_delay(unit);
                self.next_poll = began.after(delay);
            },
        }
    }

    /// [`Agent::poll_step`] with a delay drawn by chance.
    pub fn polled(
        &mut self,
        registry: &mut Registry,
        reply: Result<Vec<TaskDto>, ControllerError>,
        began: Instant,
        now: Instant,
    )
        requires
            old(self).wf(),
        ensures
            final(self).wf(),
            exists|unit: u32|
                unit <= crate::controller::WHOLE && #[trigger] poll_outcome(
                    *old(self),
                    old(registry)@,
                    reply,
                    began,
                    now,
                    unit,
                    *final(self),
                    final(registry)@,
                ),
    {
        let unit: u32 = crate::controller::random_unit();
        self.poll_step(registry, reply, began, now, unit)
    }

    /// Merge leased tasks into the plan, grant the reflector's, and list the
    /// recurring ones.
    fn take_leases(&mut self, registry: &mut Registry, dtos: Vec<TaskDto>, now: Instant) -> (r: Vec<
        String,
    >)
        requires
            old(self).wf(),
        ensures
            final(self).wf(),
            final(self).same_but_plan(*old(self)),
            final(self).plan.fallback() == old(self).plan.fallback(),
            ({
                let l = taken_all(
                    Lease {
                        plan: old(self).plan.state(),
                        grants: old(registry)@,
                        recurring: Seq::empty(),
                    },
                    dtos@,
                    now,
                );
                &&& final(self).plan.state() == l.plan
                &&& final(registry)@ == l.grants
                &&& crate::text::views(r@) == l.recurring
            }),
    {
        let ghost all = dtos@;
        let ghost start = Lease {
            plan: self.plan.state(),
            grants: registry@,
            recurring: Seq::empty(),
        };
        let mut rest = dtos;
        let mut ids: Vec<String> = Vec::new();
        let ghost mut i: int = 0;
        proof {
            assert(all.skip(0) =~= all);
            assert(all.take(0) =~= Seq::empty());
            assert(crate::text::views(ids@) =~= Seq::empty());
        }
        while rest.len() > 0
            invariant
                0 <= i <= all.len(),
                rest@ == all.skip(i),
                self.wf(),
                self.same_but_plan(*old(self)),
                self.plan.fallback() == old(self).plan.fallback(),
                self.plan.state() == taken_all(start, all.take(i), now).plan,
                registry@ == taken_all(start, all.take(i), now).grants,
                crate::text::views(ids@) == taken_all(start, all.take(i), now).recurring,
            decreases rest@.len(),
        {
            broadcast use crate::text::lemma_views_push;

            let dto = rest.remove(0);
            proof {
                assert(dto == all[i]);
                assert(all.take(i + 1).drop_last() =~= all.take(i));
                assert(rest@ =~= all.skip(i + 1));
                i = i + 1;
            }
            if let Ok(planned) = dto.into_plan() {
                let (task, expires_in) = planned;
                if task.recurring {
                    ids.push(task.task_id.clone());
                }
                if task.role == Role::Reflector {
                    grant_reflector(registry, &task, expires_in, now);
                }
                self.plan.accept(task, expires_in, now);
            }
        }
        proof {
            assert(all.take(i) =~= all);
        }
        ids
    }

    /// What a heartbeat reports, after `uptime`.
    pub fn heartbeat_request(&self, uptime: Duration, active_sessions: usize) -> (r:
        HeartbeatRequest)
        requires
            self.wf(),
        ensures
            reports_state(*self, uptime, active_sessions, r),
    {
        let s = self.spool.stats();
        let secs: u128 = uptime.as_secs();
        HeartbeatRequest {
            uptime_s: if secs <= u64::MAX as u128 {
                secs as u64
            } else {
                u64::MAX
            },
            active_sessions,
            last_error: match &self.last_error {
                Some(e) => Some(e.clone()),
                None => None,
            },
            spool_dropped: s.dropped,
            spool_depth: s.entries,
        }
    }

    /// Poll and report as often as the controller wants it. What it says nothing
    /// of stays as it is.
    pub fn retune(&mut self, t: Tuning)
        requires
            old(self).wf(),
        ensures
            final(self).wf(),
            *final(self) == (Agent {
                poll_interval: tuned(old(self).poll_interval, t.poll),
                heartbeat_interval: tuned(old(self).heartbeat_interval, t.heartbeat),
                ..*old(self)
            }),
    {
        if let Some(d) = t.poll {
            self.poll_interval = d;
        }
        if let Some(d) = t.heartbeat {
            self.heartbeat_interval = d;
        }
    }

    /// A heartbeat that was due at `now` came to `reply`. Only one that came
    /// through has told the controller of the results that were lost. Its answer
    /// can retune how often the agent polls. Says whether to register again.
    pub fn heartbeat_done(
        &mut self,
        reply: Result<HeartbeatResponse, ControllerError>,
        now: Instant,
    ) -> (r: bool)
        requires
            old(self).wf(),
        ensures
            final(self).wf(),
            final(self).next_heartbeat == crate::duration::moved(now, old(self).heartbeat_interval),
            final(self).spool.queue() == old(self).spool.queue(),
            final(self).spool.config() == old(self).spool.config(),
            final(self).spool.lost() == (if reply is Ok {
                0
            } else {
                old(self).spool.lost()
            }),
            final(self).spool.lost_ever() == old(self).spool.lost_ever(),
            final(self).plan == old(self).plan,
            final(self).comms == old(self).comms,
            final(self).poll_interval == (match reply {
                Ok(h) => tuned(
                    old(self).poll_interval,
                    crate::controller::client::in_seconds(h.poll_interval_s),
                ),
                Err(_) => old(self).poll_interval,
            }),
            final(self).heartbeat_interval == old(self).heartbeat_interval,
            final(self).next_poll == old(self).next_poll,
            final(self).last_error == old(self).last_error,
            r == (reply is Ok && reply->Ok_0.reregister),
            beat(*old(self), reply, now, r, *final(self)),
    {
        self.next_heartbeat = now.after(self.heartbeat_interval);
        match reply {
            Ok(h) => {
                self.spool.clear_dropped();
                if let Some(d) = seconds(h.poll_interval_s) {
                    self.poll_interval = d;
                }
                h.reregister
            },
            Err(_) => false,
        }
    }

    /// A registration that the controller had asked for came to `reply`. The
    /// identity to go on with is returned where there is a new one; an agent
    /// whose registration fails goes on as it is.
    pub fn reregistered(&mut self, reply: Result<RegisterResponse, ControllerError>) -> (r: Option<
        Identity,
    >)
        requires
            old(self).wf(),
        ensures
            final(self).wf(),
            match reply {
                Ok(a) => {
                    &&& r == Some(
                        Identity { agent_id: a.agent_id, token: a.token, group: a.group },
                    )
                    &&& *final(self) == (Agent {
                        poll_interval: tuned(old(self).poll_interval, tuning_of(a).poll),
                        heartbeat_interval: tuned(
                            old(self).heartbeat_interval,
                            tuning_of(a).heartbeat,
                        ),
                        ..*old(self)
                    })
                },
                Err(_) => r is None && *final(self) == *old(self),
            },
            reenrolled(*old(self), reply, r, *final(self)),
    {
        match reply {
            Ok(a) => {
                let t = Tuning {
                    poll: seconds(a.poll_interval_s),
                    heartbeat: seconds(a.heartbeat_interval_s),
                };
                self.retune(t);
                Some(Identity { agent_id: a.agent_id, token: a.token, group: a.group })
            },
            Err(_) => None,
        }
    }

    /// The results to submit next, oldest first, and how many were lost.
    pub fn next_batch(&mut self) -> (r: Option<(Vec<Json>, u64)>)
        requires
            old(self).wf(),
        ensures
            final(self).wf(),
            batched(*old(self), r, *final(self)),
    {
        if self.spool.is_empty() {
            proof {
                assert(self.spool.queue().skip(0) =~= self.spool.queue());
            }
            return None;
        }
        let batch = self.spool.take(SUBMIT_BATCH);
        let dropped: u64 = self.spool.stats().dropped;
        Some((batch, dropped))
    }

    /// A batch of `n` results came through. Says whether there may be more.
    pub fn batch_sent(&mut self, n: usize) -> (r: bool)
        requires
            old(self).wf(),
        ensures
            final(self).wf(),
            final(self).same_but_spool(*old(self)),
            final(self).spool.config() == old(self).spool.config(),
            final(self).spool.queue() == old(self).spool.queue(),
            final(self).spool.lost() == 0,
            final(self).spool.lost_ever() == old(self).spool.lost_ever(),
            r == (n >= SUBMIT_BATCH && old(self).spool.queue().len() > 0),
            submitted(*old(self), n, r, *final(self)),
    {
        self.spool.clear_dropped();
        n >= SUBMIT_BATCH && !self.spool.is_empty()
    }

    /// A batch did not come through: put it back rather than losing it to a
    /// transient error.
    pub fn batch_failed(&mut self, batch: Vec<Json>)
        requires
            old(self).wf(),
        ensures
            final(self).wf(),
            final(self).same_but_spool(*old(self)),
            final(self).spool.config() == old(self).spool.config(),
            final(self).spool.queue() == crate::spool::readmitted(
                old(self).spool.queue(),
                old(self).spool.config(),
                weighed(batch@),
            ),
            ({
                let gone = old(self).spool.queue().len() + batch@.len()
                    - final(self).spool.queue().len();
                &&& gone >= 0
                &&& final(self).spool.lost() == crate::spool::counted(old(self).spool.lost(), gone)
                &&& final(self).spool.lost_ever() == crate::spool::counted(
                    old(self).spool.lost_ever(),
                    gone,
                )
            }),
    {
        let ghost all = batch@;
        let mut rest = batch;
        let mut restored: Vec<(Json, usize)> = Vec::new();
        let ghost mut i: int = 0;
        proof {
            assert(all.skip(0) =~= all);
            assert(weighed(all.take(0)) =~= Seq::empty());
        }
        while rest.len() > 0
            invariant
                0 <= i <= all.len(),
                rest@ == all.skip(i),
                restored@ == weighed(all.take(i)),
            decreases rest@.len(),
        {
            let body = rest.remove(0);
            proof {
                assert(body == all[i]);
                assert(rest@ =~= all.skip(i + 1));
                assert(weighed(all.take(i + 1)) =~= weighed(all.take(i)).push(
                    (body, size_of(body@)),
                ));
                i = i + 1;
            }
            let bytes: usize = measure(&body);
            restored.push((body, bytes));
        }
        proof {
            assert(all.take(i) =~= all);
            crate::spool::law_only_returned_results_are_kept(
                self.spool.queue(),
                self.spool.config(),
                weighed(all),
                |e: (Json, usize)| e.1 == size_of(e.0@),
            );
        }
        self.spool.return_unsent(restored);
    }

    /// How long to sleep before looking again.
    pub fn sleep(&self, now: Instant) -> (r: Duration)
        ensures
            is_pause(*self, now, r),
            50_000_000 <= r.nanos <= 5_000_000_000,
    {
        let until_due = self.plan.time_until_due(now);
        let until_poll: u128 = self.next_poll.saturating_duration_since(now).nanos;
        let a: u128 = match until_due {
            Some(d) => d.nanos,
            None => self.poll_interval.nanos,
        };
        let b: u128 = if until_poll < a {
            until_poll
        } else {
            a
        };
        if b < 50_000_000 {
            Duration { nanos: 50_000_000 }
        } else if b > 5_000_000_000 {
            Duration { nanos: 5_000_000_000 }
        } else {
            Duration { nanos: b }
        }
    }
}

/// `after` is the agent once `task` was reported as skipped: a result that says
/// so was pushed.
pub open spec fn reported_skipped(
    before: Agent,
    task: Task,
    reason: Seq<char>,
    unix_nanos: i128,
    after: Agent,
) -> bool {
    &&& after.same_otherwise(before)
    &&& after.spool.config() == before.spool.config()
    &&& exists|body: Json|
        body@ == report::error_value(task, unix_nanos, unix_nanos, "skipped"@, reason)
            && after.spool.state() == #[trigger] crate::spool::pushed(
            before.spool.state(),
            before.spool.config(),
            body,
            size_of(body@),
        )
}

/// `after` is the agent once the one-shots past their deadline were abandoned:
/// each is gone from the plan and reported as skipped, in order.
pub open spec fn reaped(before: Agent, now: Instant, unix_nanos: i128, after: Agent) -> bool {
    &&& after.plan.fallback() == before.plan.fallback()
    &&& after.plan.cached() == before.plan.cached()
    &&& after.plan.pending() == crate::tasks::plan::unexpired(before.plan.pending(), now)
    &&& after.spool.config() == before.spool.config()
    &&& after.same_otherwise(before)
    &&& exists|bodies: Seq<(Json, usize)>|
        reports_skipped(
            bodies,
            crate::tasks::plan::expired_ones(before.plan.pending(), now),
            unix_nanos,
        ) && after.spool.state() == #[trigger] crate::spool::pushed_all(
            before.spool.state(),
            before.spool.config(),
            bodies,
        )
}

/// `r` is the next batch to submit with the number of results lost, and `after`
/// the agent without it; nothing where nothing is queued.
pub open spec fn batched(before: Agent, r: Option<(Vec<Json>, u64)>, after: Agent) -> bool {
    let q = before.spool.queue();
    let n: int = if q.len() <= SUBMIT_BATCH {
        q.len() as int
    } else {
        SUBMIT_BATCH as int
    };
    &&& after.same_but_spool(before)
    &&& after.spool.config() == before.spool.config()
    &&& after.spool.lost() == before.spool.lost()
    &&& after.spool.lost_ever() == before.spool.lost_ever()
    &&& after.spool.queue() == q.skip(n)
    &&& r is None == (q.len() == 0)
    &&& r matches Some(b) ==> b.0@ == q.take(n).map_values(|e: (Json, usize)| e.0) && b.1
        == before.spool.lost()
}

/// `r` is what a heartbeat says of `a`.
pub open spec fn reports_state(
    a: Agent,
    uptime: Duration,
    active_sessions: usize,
    r: HeartbeatRequest,
) -> bool {
    &&& r.uptime_s == (if uptime.nanos as nat / 1_000_000_000 <= u64::MAX {
        uptime.nanos as nat / 1_000_000_000
    } else {
        u64::MAX as nat
    })
    &&& r.active_sessions == active_sessions
    &&& r.last_error == a.last_error
    &&& r.spool_dropped == a.spool.lost()
    &&& r.spool_depth == a.spool.queue().len()
}

/// `after` and `r` are what the answer to a heartbeat makes of `before`.
pub open spec fn beat(
    before: Agent,
    reply: Result<HeartbeatResponse, ControllerError>,
    now: Instant,
    r: bool,
    after: Agent,
) -> bool {
    &&& after.next_heartbeat == crate::duration::moved(now, before.heartbeat_interval)
    &&& after.spool.queue() == before.spool.queue()
    &&& after.spool.lost_ever() == before.spool.lost_ever()
    &&& after.plan == before.plan
    &&& after.comms == before.comms
    &&& after.heartbeat_interval == before.heartbeat_interval
    &&& after.next_poll == before.next_poll
    &&& match reply {
        Ok(h) => {
            &&& r == h.reregister
            &&& after.spool.lost() == 0
            &&& after.poll_interval == tuned(
                before.poll_interval,
                crate::controller::client::in_seconds(h.poll_interval_s),
            )
        },
        Err(_) => {
            &&& !r
            &&& after.spool.lost() == before.spool.lost()
            &&& after.poll_interval == before.poll_interval
        },
    }
}

/// `after` is `before` once `n` results were submitted, and `r` whether there
/// is more to submit at once.
pub open spec fn submitted(before: Agent, n: usize, r: bool, after: Agent) -> bool {
    &&& after.same_but_spool(before)
    &&& after.spool.queue() == before.spool.queue()
    &&& after.spool.lost() == 0
    &&& after.spool.lost_ever() == before.spool.lost_ever()
    &&& r == (n >= SUBMIT_BATCH && before.spool.queue().len() > 0)
}

/// `r` is the identity that registering anew gave, and `after` what it makes of
/// `before`.
pub open spec fn reenrolled(
    before: Agent,
    reply: Result<RegisterResponse, ControllerError>,
    r: Option<Identity>,
    after: Agent,
) -> bool {
    match reply {
        Ok(a) => {
            &&& r == Some(Identity { agent_id: a.agent_id, token: a.token, group: a.group })
            &&& after == (Agent {
                poll_interval: tuned(before.poll_interval, tuning_of(a).poll),
                heartbeat_interval: tuned(before.heartbeat_interval, tuning_of(a).heartbeat),
                ..before
            })
        },
        Err(_) => r is None && after == before,
    }
}

/// `r` is how long `a` sleeps at `now`.
pub open spec fn is_pause(a: Agent, now: Instant, r: Duration) -> bool {
    exists|until_due: Option<Duration>| #[trigger]
        crate::tasks::plan::due_in(a.plan.state(), now, until_due) && r.nanos == pause(
            until_due,
            a.poll_interval,
            crate::duration::elapsed(now, a.next_poll),
        )
}

/// `bodies` report the tasks of `gone` as skipped, in order.
pub open spec fn reports_skipped(
    bodies: Seq<(Json, usize)>,
    gone: Seq<Scheduled>,
    unix_nanos: i128,
) -> bool {
    &&& bodies.len() == gone.len()
    &&& forall|i: int|
        0 <= i < bodies.len() ==> (#[trigger] bodies[i]).0@ == report::error_value(
            gone[i].task,
            unix_nanos,
            unix_nanos,
            "skipped"@,
            crate::tasks::plan::REASON_EXPIRED@,
        ) && bodies[i].1 == size_of(bodies[i].0@)
}

/// Results, each with its size.
pub open spec fn weighed(batch: Seq<Json>) -> Seq<(Json, usize)> {
    Seq::new(batch.len(), |i: int| (batch[i], size_of(batch[i]@)))
}

/// `after` and `grants_after` are what a poll makes of `before` and `grants`.
pub open spec fn poll_outcome(
    before: Agent,
    grants: Map<u64, Session>,
    reply: Result<Vec<TaskDto>, ControllerError>,
    began: Instant,
    now: Instant,
    unit: u32,
    after: Agent,
    grants_after: Map<u64, Session>,
) -> bool {
    &&& after.spool == before.spool
    &&& after.poll_interval == before.poll_interval
    &&& after.heartbeat_interval == before.heartbeat_interval
    &&& after.next_heartbeat == before.next_heartbeat
    &&& after.plan.fallback() == before.plan.fallback()
    &&& match reply {
        Ok(dtos) => {
            let l = taken_all(
                Lease { plan: before.plan.state(), grants, recurring: Seq::empty() },
                dtos@,
                now,
            );
            &&& after.plan.cached() == assigned(l.plan.cached, l.recurring)
            &&& after.plan.pending() == l.plan.pending
            &&& grants_after == l.grants
            &&& after.last_error is None
            &&& after.comms == (Backoff { attempts: 0, ..before.comms })
            &&& after.next_poll == crate::duration::moved(began, before.poll_interval)
        },
        Err(e) => {
            &&& after.plan == before.plan
            &&& grants_after == grants
            &&& after.last_error is Some
            &&& after.last_error->0@ == crate::controller::error_message(e)
            &&& after.comms == crate::controller::advanced(before.comms)
            &&& after.next_poll == crate::duration::moved(
                began,
                Duration { nanos: crate::controller::delay(before.comms, unit) as u128 },
            )
        },
    }
}

/// Keeping what a list of strings names is keeping what their texts name.
proof fn lemma_assigned(cached: Seq<Scheduled>, ids: Seq<String>)
    ensures
        ids.len() > 0 ==> crate::tasks::plan::kept(cached, ids) == assigned(
            cached,
            crate::text::views(ids),
        ),
        ids.len() == 0 ==> assigned(cached, crate::text::views(ids)) == cached,
{
    let f = |e: Scheduled| crate::tasks::plan::listed(ids, e.task.task_id@);
    let v = crate::text::views(ids);
    let g = |e: Scheduled| v.contains(e.task.task_id@);
    assert forall|e: Scheduled| #[trigger] f(e) == g(e) by {
        let id = e.task.task_id@;
        if crate::tasks::plan::listed(ids, id) {
            let k = choose|k: int| 0 <= k < ids.len() && (#[trigger] ids[k])@ == id;
            assert(v[k] == id);
        }
        if v.contains(id) {
            let k = choose|k: int| 0 <= k < v.len() && v[k] == id;
            assert(ids[k]@ == id);
        }
    }
    assert(f =~= g);
}

/// A controller outage is not a monitoring outage: a poll that failed leaves
/// the plan, the grants and the queued results as they were.
pub proof fn law_an_outage_stops_no_measurement(
    before: Agent,
    grants: Map<u64, Session>,
    e: ControllerError,
    began: Instant,
    now: Instant,
    unit: u32,
    after: Agent,
    grants_after: Map<u64, Session>,
)
    requires
        poll_outcome(
            before,
            grants,
            Err(e),
            began,
            now,
            unit,
            after,
            grants_after,
        ),
    ensures
        after.plan == before.plan,
        after.spool == before.spool,
        grants_after == grants,
{
}

/// A stored identity is given up only when the controller rejects it: an outage
/// never burns the enrolment token.
pub proof fn law_only_a_rejection_gives_up_the_identity(
    reply: Result<(), ControllerError>,
    b: Backoff,
    unit: u32,
    r: Verified,
)
    requires
        verdict(reply, b, unit, r),
    ensures
        r is Revoked <==> (reply is Err && reply->Err_0 is Unauthorized),
{
}

/// A batch that was taken and could not be submitted is back in the queue as it
/// was, and nothing is lost.
pub proof fn law_a_failed_submission_loses_nothing(
    q: Seq<(Json, usize)>,
    cfg: crate::spool::SpoolConfig,
    n: int,
)
    requires
        0 <= n <= q.len(),
        sized(q),
        q.len() <= cfg.max_entries,
        crate::spool::weight(q) <= cfg.max_bytes,
    ensures
        crate::spool::readmitted(
            q.skip(n),
            cfg,
            weighed(q.take(n).map_values(|e: (Json, usize)| e.0)),
        ) == q,
{
    crate::spool::law_returning_a_batch_restores_the_queue(q, cfg, n);
    assert(weighed(q.take(n).map_values(|e: (Json, usize)| e.0)) =~= q.take(n));
}

} // verus!
