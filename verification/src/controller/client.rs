//! Shapes of the controller API, and what its replies amount to.
//!
//! The wire shapes are kept separate from the agent's internal types so a
//! controller adding a field cannot break an older agent, and so the internal
//! model is free to differ from the contract.

use vstd::prelude::*;
use vstd::string::StrSliceExecFns;
use vstd::string::StringExecFns;

use crate::controller::ControllerError;
use crate::duration::Duration;
use crate::json::Json;
use crate::json::JsonView;
use crate::tasks::plan;
use crate::text::{chars, parse_radix, parse_u64, quote, same, strip_prefix, trim};

verus! {

/// Request body for `POST /agents/register`.
#[derive(Debug, Clone, PartialEq, Eq)]
pub struct RegisterRequest {
    pub agent_id: Option<String>,
    pub name: String,
    pub group: String,
    pub version: String,
    pub capabilities: Capabilities,
    pub host: HostInfo,
    pub advertise_addr: Option<String>,
}

#[derive(Debug, Clone, Copy, PartialEq, Eq, Structural)]
pub struct Capabilities {
    pub mqp: bool,
    pub twamp_light: bool,
    pub routeros_btest: bool,
    pub probe_port: u16,
}

#[derive(Debug, Clone, PartialEq, Eq, Default)]
pub struct HostInfo {
    pub routeros_version: Option<String>,
    pub board: Option<String>,
    pub arch: Option<String>,
}

#[derive(Debug, Clone, PartialEq, Eq)]
pub struct RegisterResponse {
    pub agent_id: String,
    pub token: String,
    pub group: String,
    pub poll_interval_s: Option<u64>,
    pub heartbeat_interval_s: Option<u64>,
}

#[derive(Debug, Clone, PartialEq, Eq)]
pub struct HeartbeatRequest {
    pub uptime_s: u64,
    pub active_sessions: usize,
    pub last_error: Option<String>,
    /// Results discarded since the last successful submission. Surfaced so a
    /// gap in the time series is visible rather than silent.
    pub spool_dropped: u64,
    pub spool_depth: usize,
}

/// What the controller answers a heartbeat with. It can retune how often the
/// agent polls, and ask it to register again.
#[derive(Debug, Clone, Copy, PartialEq, Eq, Default, Structural)]
pub struct HeartbeatResponse {
    pub poll_interval_s: Option<u64>,
    pub reregister: bool,
}

/// `r` is what an answer of `v` says. What it leaves out asks for nothing.
pub open spec fn heartbeat_says(v: JsonView, r: HeartbeatResponse) -> bool {
    &&& r.reregister == (v.get("reregister"@) == Some(JsonView::Bool(true)))
    &&& match r.poll_interval_s {
        Some(n) => v.get("poll_interval_s"@) is Some && v.get("poll_interval_s"@)->0.whole()
            == Some(n as nat),
        None => v.get("poll_interval_s"@) is None || v.get("poll_interval_s"@)->0.whole() is None,
    }
}

impl HeartbeatResponse {
    pub fn from_json(v: &Json) -> (r: HeartbeatResponse)
        ensures
            heartbeat_says(v@, r),
    {
        let poll_interval_s: Option<u64> = match v.get("poll_interval_s") {
            Some(n) => n.as_u64(),
            None => None,
        };
        let reregister: bool = match v.get("reregister") {
            Some(Json::Bool(b)) => *b,
            _ => false,
        };
        HeartbeatResponse { poll_interval_s, reregister }
    }

    /// Reads the body of an answer. One that is not JSON is an answer all the
    /// same, and asks for nothing.
    pub fn read(body: &str) -> (r: HeartbeatResponse)
        ensures
            match crate::json::parsed_text(body@) {
                Ok(v) => heartbeat_says(v, r),
                Err(_) => r == (HeartbeatResponse { poll_interval_s: None, reregister: false }),
            },
    {
        match Json::parse(body) {
            Ok(v) => HeartbeatResponse::from_json(&v),
            Err(_) => HeartbeatResponse { poll_interval_s: None, reregister: false },
        }
    }
}

/// A task as the controller sends it.
#[derive(Debug)]
pub struct TaskDto {
    pub task_id: String,
    /// Carried as a string: JSON numbers are f64 in most parsers and would lose
    /// precision above 2^53, yielding a session the reflector never granted.
    pub session_id: String,
    pub kind: String,
    pub role: String,
    pub peer: Option<PeerDto>,
    pub params: Json,
    pub recurring: bool,
    pub interval_s: Option<u64>,
    pub expires_in_s: Option<u64>,
}

#[derive(Debug, Clone, PartialEq, Eq)]
pub struct PeerDto {
    pub agent_id: String,
    pub name: String,
    pub address: String,
    pub probe_port: u16,
}

#[derive(Debug)]
pub struct ResultsRequest<'a> {
    pub results: &'a [Json],
    /// Results the agent had to discard because the spool filled.
    pub dropped: u64,
}

#[derive(Debug, Clone, Copy, PartialEq, Eq, Default, Structural)]
pub struct ResultsResponse {
    pub accepted: usize,
}

/// An object with one field more, where there is a text for it.
pub open spec fn put_some(j: JsonView, key: Seq<char>, v: Option<String>) -> JsonView {
    match v {
        Some(s) => j.put(key, JsonView::Text(s@)),
        None => j,
    }
}

fn with_some(j: Json, key: &str, v: &Option<String>) -> (r: Json)
    ensures
        r@ == put_some(j@, key@, *v),
{
    match v {
        Some(s) => j.with(key, Json::text(s.as_str())),
        None => j,
    }
}

pub open spec fn counted(n: nat) -> JsonView {
    JsonView::Number(crate::text::decimal(n))
}

pub open spec fn capabilities_value(c: Capabilities) -> JsonView {
    JsonView::Object(Seq::empty()).put("mqp"@, JsonView::Bool(c.mqp)).put(
        "twamp_light"@,
        JsonView::Bool(c.twamp_light),
    ).put("routeros_btest"@, JsonView::Bool(c.routeros_btest)).put(
        "probe_port"@,
        counted(c.probe_port as nat),
    )
}

pub open spec fn host_value(h: HostInfo) -> JsonView {
    put_some(
        put_some(
            put_some(
                JsonView::Object(Seq::empty()),
                "routeros_version"@,
                h.routeros_version,
            ),
            "board"@,
            h.board,
        ),
        "arch"@,
        h.arch,
    )
}

/// What a registration says.
pub open spec fn register_value(q: RegisterRequest) -> JsonView {
    put_some(
        put_some(JsonView::Object(Seq::empty()), "agent_id"@, q.agent_id).put(
            "name"@,
            JsonView::Text(q.name@),
        ).put("group"@, JsonView::Text(q.group@)).put("version"@, JsonView::Text(q.version@)).put(
            "capabilities"@,
            capabilities_value(q.capabilities),
        ).put("host"@, host_value(q.host)),
        "advertise_addr"@,
        q.advertise_addr,
    )
}

/// What a heartbeat says.
pub open spec fn heartbeat_value(q: HeartbeatRequest) -> JsonView {
    put_some(
        JsonView::Object(Seq::empty()).put("uptime_s"@, counted(q.uptime_s as nat)).put(
            "active_sessions"@,
            counted(q.active_sessions as nat),
        ),
        "last_error"@,
        q.last_error,
    ).put("spool_dropped"@, counted(q.spool_dropped as nat)).put(
        "spool_depth"@,
        counted(q.spool_depth as nat),
    )
}

/// What a submission says.
pub open spec fn results_value(results: Seq<Json>, dropped: u64) -> JsonView {
    JsonView::Object(Seq::empty()).put(
        "results"@,
        JsonView::List(crate::json::views(results)),
    ).put("dropped"@, counted(dropped as nat))
}

impl RegisterRequest {
    /// The body that is sent. A field without a value is left out.
    pub fn to_json(&self) -> (r: Json)
        ensures
            r@ == register_value(*self),
            r@ == put_some(
                put_some(JsonView::Object(Seq::empty()), "agent_id"@, self.agent_id).put(
                    "name"@,
                    JsonView::Text(self.name@),
                ).put("group"@, JsonView::Text(self.group@)).put(
                    "version"@,
                    JsonView::Text(self.version@),
                ).put("capabilities"@, capabilities_value(self.capabilities)).put(
                    "host"@,
                    host_value(self.host),
                ),
                "advertise_addr"@,
                self.advertise_addr,
            ),
    {
        let c = &self.capabilities;
        let capabilities = Json::object().with("mqp", Json::Bool(c.mqp)).with(
            "twamp_light",
            Json::Bool(c.twamp_light),
        ).with("routeros_btest", Json::Bool(c.routeros_btest)).with(
            "probe_port",
            Json::number(c.probe_port as u64),
        );
        let host = with_some(Json::object(), "routeros_version", &self.host.routeros_version);
        let host = with_some(host, "board", &self.host.board);
        let host = with_some(host, "arch", &self.host.arch);
        let body = with_some(Json::object(), "agent_id", &self.agent_id).with(
            "name",
            Json::text(self.name.as_str()),
        ).with("group", Json::text(self.group.as_str())).with(
            "version",
            Json::text(self.version.as_str()),
        ).with("capabilities", capabilities).with("host", host);
        with_some(body, "advertise_addr", &self.advertise_addr)
    }
}

impl HeartbeatRequest {
    /// The body that is sent. A field without a value is left out.
    pub fn to_json(&self) -> (r: Json)
        ensures
            r@ == heartbeat_value(*self),
            r@ == put_some(
                JsonView::Object(Seq::empty()).put("uptime_s"@, counted(self.uptime_s as nat)).put(
                    "active_sessions"@,
                    counted(self.active_sessions as nat),
                ),
                "last_error"@,
                self.last_error,
            ).put("spool_dropped"@, counted(self.spool_dropped as nat)).put(
                "spool_depth"@,
                counted(self.spool_depth as nat),
            ),
    {
        let body = Json::object().with("uptime_s", Json::number(self.uptime_s)).with(
            "active_sessions",
            Json::number(self.active_sessions as u64),
        );
        with_some(body, "last_error", &self.last_error).with(
            "spool_dropped",
            Json::number(self.spool_dropped),
        ).with("spool_depth", Json::number(self.spool_depth as u64))
    }
}

impl<'a> ResultsRequest<'a> {
    /// The body that is sent.
    pub fn to_json(&self) -> (r: Json)
        ensures
            r@ == results_value(self.results@, self.dropped),
            r@ == JsonView::Object(Seq::empty()).put(
                "results"@,
                JsonView::List(crate::json::views(self.results@)),
            ).put("dropped"@, counted(self.dropped as nat)),
    {
        let mut out: Vec<Json> = Vec::new();
        let mut i: usize = 0;
        while i < self.results.len()
            invariant
                i <= self.results@.len(),
                out@.len() == i,
                forall|k: int| 0 <= k < i ==> (#[trigger] out@[k])@ == self.results@[k]@,
            decreases self.results@.len() - i,
        {
            out.push(self.results[i].duplicate());
            i = i + 1;
        }
        proof {
            assert(crate::json::views(out@) =~= crate::json::views(self.results@));
        }
        Json::object().with("results", Json::list(out)).with("dropped", Json::number(self.dropped))
    }
}

/// Where an agent registers.
pub const REGISTER_PATH: &'static str = "agents/register";

/// Where an agent does `what`.
pub open spec fn route(agent_id: Seq<char>, what: Seq<char>) -> Seq<char> {
    "agents/"@ + agent_id + "/"@ + what
}

/// Where an agent reports, leases tasks or submits results: `what` of these.
pub fn agent_path(agent_id: &str, what: &str) -> (r: String)
    ensures
        r@ == route(agent_id@, what@),
        r@ == "agents/"@ + agent_id@ + "/"@ + what@,
{
    let mut t = "agents/".to_owned();
    t.append(agent_id);
    t.append("/");
    t.append(what);
    t
}

/// The kind of measurement that `s` names.
pub open spec fn kind_named(s: Seq<char>) -> Option<plan::Kind> {
    if s == "mqp_probe"@ {
        Some(plan::Kind::MqpProbe)
    } else if s == "twamp_probe"@ {
        Some(plan::Kind::TwampProbe)
    } else if s == "tcp_connect"@ {
        Some(plan::Kind::TcpConnect)
    } else if s == "routeros_btest"@ {
        Some(plan::Kind::RouterOsBtest)
    } else if s == "path_trace"@ {
        Some(plan::Kind::PathTrace)
    } else if s == "wifi_signal"@ {
        Some(plan::Kind::WifiSignal)
    } else if s == "packet_capture"@ {
        Some(plan::Kind::PacketCapture)
    } else {
        None
    }
}

pub open spec fn role_named(s: Seq<char>) -> Option<plan::Role> {
    if s == "sender"@ {
        Some(plan::Role::Sender)
    } else if s == "reflector"@ {
        Some(plan::Role::Reflector)
    } else {
        None
    }
}

/// The session that `s` names: decimal, unless an explicit prefix says hex.
/// Every decimal string is also valid hex, so guessing would silently mis-read
/// "255" and target a session the reflector never granted.
pub open spec fn session_named(s: Seq<char>) -> Option<nat> {
    let t = crate::text::trimmed(s);
    if crate::text::starts(t, "0x"@) || crate::text::starts(t, "0X"@) {
        crate::text::unsigned(t.skip(2), 16, u64::MAX as nat)
    } else {
        crate::text::unsigned(t, 10, u64::MAX as nat)
    }
}

/// The task that `d` describes, and how long it stays worth running.
pub open spec fn planned(d: TaskDto) -> (plan::Task, Option<Duration>) {
    (
        plan::Task {
            task_id: d.task_id,
            session_id: session_named(d.session_id@)->0 as u64,
            kind: kind_named(d.kind@)->0,
            role: role_named(d.role@)->0,
            peer: match d.peer {
                Some(p) => Some(
                    plan::Peer {
                        agent_id: p.agent_id,
                        name: p.name,
                        address: p.address,
                        probe_port: p.probe_port,
                    },
                ),
                None => None,
            },
            params: d.params,
            recurring: d.recurring,
            interval: in_seconds(d.interval_s),
        },
        in_seconds(d.expires_in_s),
    )
}

pub open spec fn in_seconds(s: Option<u64>) -> Option<Duration> {
    match s {
        Some(n) => Some(Duration { nanos: (n * 1_000_000_000) as u128 }),
        None => None,
    }
}

/// What is wrong with a task that cannot be planned.
pub open spec fn planning_error(d: TaskDto) -> Seq<char> {
    if kind_named(d.kind@) is None {
        "unknown task kind "@ + crate::text::quoted(d.kind@)
    } else if role_named(d.role@) is None {
        "unknown role "@ + crate::text::quoted(d.role@)
    } else {
        "bad session_id "@ + crate::text::quoted(d.session_id@)
    }
}

pub open spec fn can_plan(d: TaskDto) -> bool {
    kind_named(d.kind@) is Some && role_named(d.role@) is Some && session_named(
        d.session_id@,
    ) is Some
}

fn seconds(s: Option<u64>) -> (r: Option<Duration>)
    ensures
        r == in_seconds(s),
{
    match s {
        Some(n) => Some(Duration::from_secs(n)),
        None => None,
    }
}

fn kind_of(s: &str) -> (r: Option<plan::Kind>)
    ensures
        r == kind_named(s@),
{
    if same(s, "mqp_probe") {
        Some(plan::Kind::MqpProbe)
    } else if same(s, "twamp_probe") {
        Some(plan::Kind::TwampProbe)
    } else if same(s, "tcp_connect") {
        Some(plan::Kind::TcpConnect)
    } else if same(s, "routeros_btest") {
        Some(plan::Kind::RouterOsBtest)
    } else if same(s, "path_trace") {
        Some(plan::Kind::PathTrace)
    } else if same(s, "wifi_signal") {
        Some(plan::Kind::WifiSignal)
    } else if same(s, "packet_capture") {
        Some(plan::Kind::PacketCapture)
    } else {
        None
    }
}

fn role_of(s: &str) -> (r: Option<plan::Role>)
    ensures
        r == role_named(s@),
{
    if same(s, "sender") {
        Some(plan::Role::Sender)
    } else if same(s, "reflector") {
        Some(plan::Role::Reflector)
    } else {
        None
    }
}

fn session_of(s: &str) -> (r: Option<u64>)
    ensures
        match r {
            Some(v) => session_named(s@) == Some(v as nat),
            None => session_named(s@) is None,
        },
{
    let t = trim(s);
    proof {
        reveal_strlit("0x");
        reveal_strlit("0X");
    }
    match strip_prefix(t, "0x") {
        Some(h) => parse_radix(h, 16, u64::MAX),
        None => match strip_prefix(t, "0X") {
            Some(h) => parse_radix(h, 16, u64::MAX),
            None => parse_u64(t),
        },
    }
}

impl TaskDto {
    /// Convert to the agent's internal task, along with how long a one-shot
    /// stays worth running.
    ///
    /// An unrecognised `kind` is an error rather than a default: guessing would
    /// run the wrong measurement and report it under the controller's label.
    pub fn into_plan(self) -> (r: Result<(plan::Task, Option<Duration>), ControllerError>)
        ensures
            can_plan(self) ==> r == Ok::<(plan::Task, Option<Duration>), ControllerError>(
                planned(self),
            ),
            !can_plan(self) ==> (r matches Err(ControllerError::Decode(e)) && e@ == planning_error(
                self,
            )),
    {
        let kind = match kind_of(self.kind.as_str()) {
            Some(k) => k,
            None => {
                let mut t = "unknown task kind ".to_owned();
                let q = quote(self.kind.as_str());
                t.append(q.as_str());
                return Err(ControllerError::Decode(t));
            },
        };
        let role = match role_of(self.role.as_str()) {
            Some(k) => k,
            None => {
                let mut t = "unknown role ".to_owned();
                let q = quote(self.role.as_str());
                t.append(q.as_str());
                return Err(ControllerError::Decode(t));
            },
        };
        let session_id: u64 = match session_of(self.session_id.as_str()) {
            Some(k) => k,
            None => {
                let mut t = "bad session_id ".to_owned();
                let q = quote(self.session_id.as_str());
                t.append(q.as_str());
                return Err(ControllerError::Decode(t));
            },
        };
        let expires = seconds(self.expires_in_s);
        let task = plan::Task {
            task_id: self.task_id,
            session_id,
            kind,
            role,
            peer: match self.peer {
                Some(p) => Some(
                    plan::Peer {
                        agent_id: p.agent_id,
                        name: p.name,
                        address: p.address,
                        probe_port: p.probe_port,
                    },
                ),
                None => None,
            },
            params: self.params,
            recurring: self.recurring,
            interval: seconds(self.interval_s),
        };
        Ok((task, expires))
    }
}

/// How many bytes of an error body are kept.
pub const MAX_ERROR_BYTES: usize = 300;

/// The bytes that `c` takes in UTF-8.
pub open spec fn char_width(c: char) -> nat {
    let u = c as u32;
    if u < 0x80 {
        1
    } else if u < 0x800 {
        2
    } else if u < 0x1_0000 {
        3
    } else {
        4
    }
}

/// The bytes that `s` takes in UTF-8.
pub open spec fn width(s: Seq<char>) -> nat
    decreases s.len(),
{
    if s.len() == 0 {
        0
    } else {
        width(s.drop_last()) + char_width(s.last())
    }
}

/// How many characters from the front of `s` fit in `bytes` bytes.
pub open spec fn fitting(s: Seq<char>, bytes: nat) -> nat
    decreases s.len(),
{
    if width(s) <= bytes || s.len() == 0 {
        s.len()
    } else {
        fitting(s.drop_last(), bytes)
    }
}

/// An error body short enough for the device's small log buffer: cut behind the
/// last character that fits, with an ellipsis.
pub open spec fn shortened(s: Seq<char>) -> Seq<char> {
    if width(s) <= MAX_ERROR_BYTES {
        s
    } else {
        s.take(fitting(s, MAX_ERROR_BYTES as nat) as int) + "…"@
    }
}

proof fn lemma_width_grows(s: Seq<char>, i: int)
    requires
        0 <= i <= s.len(),
    ensures
        width(s.take(i)) <= width(s),
    decreases s.len(),
{
    if i < s.len() {
        lemma_width_grows(s.drop_last(), i);
        assert(s.drop_last().take(i) =~= s.take(i));
    } else {
        assert(s.take(i) =~= s);
    }
}

proof fn lemma_fitting(s: Seq<char>, bytes: nat, i: int)
    requires
        0 <= i < s.len(),
        width(s.take(i)) <= bytes,
        width(s.take(i + 1)) > bytes,
    ensures
        fitting(s, bytes) == i,
    decreases s.len(),
{
    lemma_width_grows(s, i + 1);
    if i + 1 == s.len() {
        reveal_with_fuel(fitting, 2);
        assert(s.drop_last() =~= s.take(i));
        assert(s =~= s.take(i + 1));
    } else {
        let r = s.drop_last();
        assert(r.take(i) =~= s.take(i));
        assert(r.take(i + 1) =~= s.take(i + 1));
        lemma_fitting(r, bytes, i);
    }
}

fn width_of(c: char) -> (r: usize)
    ensures
        r == char_width(c),
        1 <= r <= 4,
{
    let u: u32 = c as u32;
    if u < 0x80 {
        1
    } else if u < 0x800 {
        2
    } else if u < 0x1_0000 {
        3
    } else {
        4
    }
}

/// Keep error bodies out of the device's small log buffer.
pub fn truncate(s: &str) -> (r: String)
    ensures
        r@ == shortened(s@),
{
    let cs = chars(s);
    let mut used: usize = 0;
    let mut i: usize = 0;
    proof {
        assert(s@.take(0) =~= Seq::empty());
    }
    while i < cs.len()
        invariant
            cs@ == s@,
            i <= cs@.len(),
            used == width(s@.take(i as int)),
            used <= MAX_ERROR_BYTES,
        decreases cs@.len() - i,
    {
        let w: usize = width_of(cs[i]);
        proof {
            assert(s@.take(i + 1).drop_last() =~= s@.take(i as int));
        }
        if used + w > MAX_ERROR_BYTES {
            proof {
                lemma_fitting(s@, MAX_ERROR_BYTES as nat, i as int);
                lemma_width_grows(s@, i + 1);
                assert(s@.subrange(0, i as int) =~= s@.take(i as int));
            }
            let mut t = s.substring_char(0, i).to_owned();
            t.append("…");
            return t;
        }
        used = used + w;
        i = i + 1;
    }
    proof {
        assert(s@.take(i as int) =~= s@);
    }
    s.to_owned()
}

/// What a status amounts to: 401 and 403 mean our credentials, anything else
/// outside 2xx is an error with its body.
pub open spec fn is_checked(status: u16, body: Seq<char>, r: Result<(), ControllerError>) -> bool {
    if status == 401 || status == 403 {
        r matches Err(ControllerError::Unauthorized)
    } else if !(200 <= status <= 299) {
        r matches Err(ControllerError::Http { status: s, body: b }) && s == status && b@
            == shortened(body)
    } else {
        r is Ok
    }
}

/// What a reply amounts to, before its body is read.
pub fn check(status: u16, body: &str) -> (r: Result<(), ControllerError>)
    ensures
        is_checked(status, body@, r),
{
    if status == 401 || status == 403 {
        return Err(ControllerError::Unauthorized);
    }
    if status < 200 || status > 299 {
        return Err(ControllerError::Http { status, body: truncate(body) });
    }
    Ok(())
}

/// The error for a body that does not parse, with what the parser said of it.
pub fn decode_error(reason: &str, body: &str) -> (r: ControllerError)
    ensures
        r matches ControllerError::Decode(e) && e@ == reason@ + " (body: "@ + shortened(body@)
            + ")"@,
{
    let mut t = reason.to_owned();
    t.append(" (body: ");
    let b = truncate(body);
    t.append(b.as_str());
    t.append(")");
    ControllerError::Decode(t)
}

/// A body that is kept never takes more bytes than the limit and its ellipsis.
pub proof fn law_kept_bodies_are_short(s: Seq<char>)
    ensures
        width(s) > MAX_ERROR_BYTES ==> width(
            s.take(fitting(s, MAX_ERROR_BYTES as nat) as int),
        ) <= MAX_ERROR_BYTES,
        width(s) <= MAX_ERROR_BYTES ==> shortened(s) == s,
{
    lemma_fitting_fits(s, MAX_ERROR_BYTES as nat);
}

proof fn lemma_fitting_fits(s: Seq<char>, bytes: nat)
    ensures
        fitting(s, bytes) <= s.len(),
        width(s.take(fitting(s, bytes) as int)) <= bytes,
    decreases s.len(),
{
    if width(s) <= bytes || s.len() == 0 {
        assert(s.take(s.len() as int) =~= s);
    } else {
        lemma_fitting_fits(s.drop_last(), bytes);
        let k = fitting(s, bytes) as int;
        assert(s.drop_last().take(k) =~= s.take(k));
    }
}

/// A session written in decimal is read back as the same session, at full
/// 64-bit width.
pub proof fn law_decimal_sessions_read_back(n: u64)
    ensures
        session_named(crate::text::decimal(n as nat)) == Some(n as nat),
{
    let s = crate::text::decimal(n as nat);
    crate::text::law_decimal_reads_back(n as nat);
    lemma_decimal_is_plain(n as nat);
    let f = |c: char| crate::text::is_space(c);
    assert(crate::text::without_front(s, f) == s);
    assert(crate::text::without_back(s, f) == s);
    reveal_strlit("0x");
    reveal_strlit("0X");
    if s.len() >= 2 {
        assert(s.take(2)[1] == s[1]);
    }
}

proof fn lemma_decimal_is_plain(n: nat)
    ensures
        forall|i: int|
            0 <= i < crate::text::decimal(n).len() ==> '0' <= #[trigger] crate::text::decimal(n)[i]
                && crate::text::decimal(n)[i] <= '9',
    decreases n,
{
    if n >= 10 {
        lemma_decimal_is_plain(n / 10);
        let head = crate::text::decimal(n / 10);
        let all = crate::text::decimal(n);
        assert forall|i: int| 0 <= i < all.len() implies '0' <= #[trigger] all[i] && all[i] <= '9' by {
            if i < head.len() {
                assert(all[i] == head[i]);
            }
        }
    }
}

} // verus!
