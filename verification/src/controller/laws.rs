//! What the agent says to its controller and how it takes the answers.

use vstd::prelude::*;

use crate::controller::client::{
    Capabilities, HeartbeatRequest, HeartbeatResponse, HostInfo, RegisterRequest, TaskDto,
};
use crate::controller::{Backoff, ControllerError};
use crate::json::Json;
use crate::json::JsonView;
use crate::tasks::plan;

verus! {

/// Under `key` the object has the number `n`.
pub open spec fn has_number(j: JsonView, key: Seq<char>, n: nat) -> bool {
    j.get(key) == Some(JsonView::Number(crate::text::decimal(n)))
}

/// Under `key` the object has the text `s`.
pub open spec fn has_text(j: JsonView, key: Seq<char>, s: Seq<char>) -> bool {
    j.get(key) == Some(JsonView::Text(s))
}

/// Under `key` the object has the text where there is one, and nothing else.
pub open spec fn has_optional(j: JsonView, key: Seq<char>, v: Option<String>) -> bool {
    match v {
        Some(s) => has_text(j, key, s@),
        None => j.get(key) is None,
    }
}

proof fn lemma_put_some(j: JsonView, name: Seq<char>, v: Option<String>)
    requires
        j is Object,
    ensures
        crate::controller::client::put_some(j, name, v) is Object,
        forall|key: Seq<char>| #[trigger]
            crate::controller::client::put_some(j, name, v).get(key) == (if j.get(key) is Some {
                j.get(key)
            } else if key == name && v is Some {
                Some(JsonView::Text(v->0@))
            } else {
                None
            }),
{
    if v is Some {
        crate::json::lemma_put(j, name, JsonView::Text(v->0@));
    }
}

/// A registration says who the agent is: the identity it has been given before,
/// if any, its name, group and version, and the address to reach it at, if that
/// is set.
pub proof fn law_a_registration_says_who_registers(q: RegisterRequest)
    ensures
        ({
            let j = crate::controller::client::register_value(q);
            &&& has_optional(j, "agent_id"@, q.agent_id)
            &&& has_text(j, "name"@, q.name@)
            &&& has_text(j, "group"@, q.group@)
            &&& has_text(j, "version"@, q.version@)
            &&& j.get("capabilities"@) == Some(
                crate::controller::client::capabilities_value(q.capabilities),
            )
            &&& j.get("host"@) == Some(crate::controller::client::host_value(q.host))
            &&& has_optional(j, "advertise_addr"@, q.advertise_addr)
        }),
{
    reveal_strlit("agent_id");
    reveal_strlit("name");
    reveal_strlit("group");
    reveal_strlit("version");
    reveal_strlit("capabilities");
    reveal_strlit("host");
    reveal_strlit("advertise_addr");
    assert("agent_id"@.len() == 8 && "name"@.len() == 4 && "group"@.len() == 5);
    assert("version"@.len() == 7 && "capabilities"@.len() == 12 && "host"@.len() == 4);
    assert("advertise_addr"@.len() == 14 && "name"@[0] == 'n' && "host"@[0] == 'h');
    let j0 = JsonView::Object(Seq::empty());
    let j1 = crate::controller::client::put_some(j0, "agent_id"@, q.agent_id);
    let j2 = j1.put("name"@, JsonView::Text(q.name@));
    let j3 = j2.put("group"@, JsonView::Text(q.group@));
    let j4 = j3.put("version"@, JsonView::Text(q.version@));
    let caps = crate::controller::client::capabilities_value(q.capabilities);
    let host = crate::controller::client::host_value(q.host);
    let j5 = j4.put("capabilities"@, caps);
    let j6 = j5.put("host"@, host);
    lemma_put_some(j0, "agent_id"@, q.agent_id);
    crate::json::lemma_put(j1, "name"@, JsonView::Text(q.name@));
    crate::json::lemma_put(j2, "group"@, JsonView::Text(q.group@));
    crate::json::lemma_put(j3, "version"@, JsonView::Text(q.version@));
    crate::json::lemma_put(j4, "capabilities"@, caps);
    crate::json::lemma_put(j5, "host"@, host);
    lemma_put_some(j6, "advertise_addr"@, q.advertise_addr);
    let j = crate::controller::client::put_some(j6, "advertise_addr"@, q.advertise_addr);
    assert(j == crate::controller::client::register_value(q));
    assert(j0.get("agent_id"@) is None);
    assert(j1.get("name"@) is None);
    assert(j2.get("group"@) is None);
    assert(j3.get("version"@) is None);
    assert(j4.get("capabilities"@) is None);
    assert(j5.get("host"@) is None);
    assert(j6.get("advertise_addr"@) is None);
    assert(j.get("agent_id"@) == j1.get("agent_id"@));
    assert(j.get("name"@) == j2.get("name"@));
    assert(j.get("group"@) == j3.get("group"@));
    assert(j.get("version"@) == j4.get("version"@));
    assert(j.get("capabilities"@) == j5.get("capabilities"@));
    assert(j.get("host"@) == j6.get("host"@));
}

/// A registration says what the agent can do and what it runs on, each under its
/// own name.
pub proof fn law_a_registration_says_what_it_can_do(c: Capabilities, h: HostInfo)
    ensures
        ({
            let j = crate::controller::client::capabilities_value(c);
            &&& j.get("mqp"@) == Some(JsonView::Bool(c.mqp))
            &&& j.get("twamp_light"@) == Some(JsonView::Bool(c.twamp_light))
            &&& j.get("routeros_btest"@) == Some(JsonView::Bool(c.routeros_btest))
            &&& has_number(j, "probe_port"@, c.probe_port as nat)
        }),
        ({
            let j = crate::controller::client::host_value(h);
            &&& has_optional(j, "routeros_version"@, h.routeros_version)
            &&& has_optional(j, "board"@, h.board)
            &&& has_optional(j, "arch"@, h.arch)
        }),
{
    reveal_strlit("mqp");
    reveal_strlit("twamp_light");
    reveal_strlit("routeros_btest");
    reveal_strlit("probe_port");
    reveal_strlit("routeros_version");
    reveal_strlit("board");
    reveal_strlit("arch");
    assert("mqp"@.len() == 3 && "twamp_light"@.len() == 11 && "routeros_btest"@.len() == 14);
    assert("probe_port"@.len() == 10);
    assert("routeros_version"@.len() == 16 && "board"@.len() == 5 && "arch"@.len() == 4);
    let f = crate::controller::client::capabilities_value(c)->Object_0;
    crate::json::lemma_field_at(f, 0);
    crate::json::lemma_field_at(f, 1);
    crate::json::lemma_field_at(f, 2);
    crate::json::lemma_field_at(f, 3);
    let j0 = JsonView::Object(Seq::empty());
    let j1 = crate::controller::client::put_some(j0, "routeros_version"@, h.routeros_version);
    let j2 = crate::controller::client::put_some(j1, "board"@, h.board);
    lemma_put_some(j0, "routeros_version"@, h.routeros_version);
    lemma_put_some(j1, "board"@, h.board);
    lemma_put_some(j2, "arch"@, h.arch);
    let j = crate::controller::client::put_some(j2, "arch"@, h.arch);
    assert(j == crate::controller::client::host_value(h));
    assert(j0.get("routeros_version"@) is None);
    assert(j1.get("board"@) is None);
    assert(j2.get("arch"@) is None);
    assert(j.get("routeros_version"@) == j1.get("routeros_version"@));
    assert(j.get("board"@) == j2.get("board"@));
}

/// A heartbeat says how long the agent is up, how many sessions it serves, what
/// went wrong last, if anything did, and what of the spool is waiting and lost.
pub proof fn law_a_heartbeat_says_how_the_agent_is(q: HeartbeatRequest)
    ensures
        ({
            let j = crate::controller::client::heartbeat_value(q);
            &&& has_number(j, "uptime_s"@, q.uptime_s as nat)
            &&& has_number(j, "active_sessions"@, q.active_sessions as nat)
            &&& has_optional(j, "last_error"@, q.last_error)
            &&& has_number(j, "spool_dropped"@, q.spool_dropped as nat)
            &&& has_number(j, "spool_depth"@, q.spool_depth as nat)
        }),
{
    reveal_strlit("uptime_s");
    reveal_strlit("active_sessions");
    reveal_strlit("last_error");
    reveal_strlit("spool_dropped");
    reveal_strlit("spool_depth");
    assert("uptime_s"@.len() == 8 && "active_sessions"@.len() == 15);
    assert("last_error"@.len() == 10 && "spool_dropped"@.len() == 13);
    assert("spool_depth"@.len() == 11);
    let up = crate::controller::client::counted(q.uptime_s as nat);
    let busy = crate::controller::client::counted(q.active_sessions as nat);
    let lost = crate::controller::client::counted(q.spool_dropped as nat);
    let deep = crate::controller::client::counted(q.spool_depth as nat);
    let j0 = JsonView::Object(Seq::empty());
    let j1 = j0.put("uptime_s"@, up);
    let j2 = j1.put("active_sessions"@, busy);
    let j3 = crate::controller::client::put_some(j2, "last_error"@, q.last_error);
    let j4 = j3.put("spool_dropped"@, lost);
    let j = j4.put("spool_depth"@, deep);
    crate::json::lemma_put(j0, "uptime_s"@, up);
    crate::json::lemma_put(j1, "active_sessions"@, busy);
    lemma_put_some(j2, "last_error"@, q.last_error);
    crate::json::lemma_put(j3, "spool_dropped"@, lost);
    crate::json::lemma_put(j4, "spool_depth"@, deep);
    assert(j == crate::controller::client::heartbeat_value(q));
    assert(j0.get("uptime_s"@) is None);
    assert(j1.get("active_sessions"@) is None);
    assert(j2.get("last_error"@) is None);
    assert(j3.get("spool_dropped"@) is None);
    assert(j4.get("spool_depth"@) is None);
    assert(j.get("uptime_s"@) == j1.get("uptime_s"@));
    assert(j.get("active_sessions"@) == j2.get("active_sessions"@));
    assert(j.get("last_error"@) == j3.get("last_error"@));
    assert(j.get("spool_dropped"@) == j4.get("spool_dropped"@));
}

/// A submission carries every result in its place, and how many were lost.
pub proof fn law_a_submission_carries_every_result(results: Seq<Json>, dropped: u64)
    ensures
        ({
            let j = crate::controller::client::results_value(results, dropped);
            &&& has_number(j, "dropped"@, dropped as nat)
            &&& j.get("results"@) matches Some(JsonView::List(v)) && v.len() == results.len()
                && forall|i: int| 0 <= i < v.len() ==> #[trigger] v[i] == results[i]@
        }),
{
    reveal_strlit("results");
    reveal_strlit("dropped");
    assert("results"@[0] == 'r' && "dropped"@[0] == 'd');
    let f = crate::controller::client::results_value(results, dropped)->Object_0;
    crate::json::lemma_field_at(f, 0);
    crate::json::lemma_field_at(f, 1);
}

/// What a heartbeat is answered: another interval where the answer gives a whole
/// number of seconds, and to register anew where it says so.
pub proof fn law_a_heartbeat_answer_is_read(v: JsonView, r: HeartbeatResponse, n: nat)
    requires
        crate::controller::client::heartbeat_says(v, r),
        n <= u64::MAX,
    ensures
        v.get("reregister"@) == Some(JsonView::Bool(true)) <==> r.reregister,
        has_number(v, "poll_interval_s"@, n) ==> r.poll_interval_s == Some(n as u64),
        v.get("poll_interval_s"@) is None ==> r.poll_interval_s is None,
{
    crate::text::law_decimal_reads_back(n);
}

/// Each kind of measurement, and each role in it, goes by one name.
pub proof fn law_kinds_and_roles_are_named(s: Seq<char>)
    ensures
        crate::controller::client::kind_named(s) == Some(plan::Kind::MqpProbe) <==> s
            == "mqp_probe"@,
        crate::controller::client::kind_named(s) == Some(plan::Kind::TwampProbe) <==> s
            == "twamp_probe"@,
        crate::controller::client::kind_named(s) == Some(plan::Kind::TcpConnect) <==> s
            == "tcp_connect"@,
        crate::controller::client::kind_named(s) == Some(plan::Kind::RouterOsBtest) <==> s
            == "routeros_btest"@,
        crate::controller::client::kind_named(s) == Some(plan::Kind::PathTrace) <==> s
            == "path_trace"@,
        crate::controller::client::kind_named(s) == Some(plan::Kind::WifiSignal) <==> s
            == "wifi_signal"@,
        crate::controller::client::kind_named(s) == Some(plan::Kind::PacketCapture) <==> s
            == "packet_capture"@,
        crate::controller::client::role_named(s) == Some(plan::Role::Sender) <==> s == "sender"@,
        crate::controller::client::role_named(s) == Some(plan::Role::Reflector) <==> s
            == "reflector"@,
{
    reveal_strlit("mqp_probe");
    reveal_strlit("twamp_probe");
    reveal_strlit("tcp_connect");
    reveal_strlit("routeros_btest");
    reveal_strlit("path_trace");
    reveal_strlit("wifi_signal");
    reveal_strlit("packet_capture");
    reveal_strlit("sender");
    reveal_strlit("reflector");
    assert("mqp_probe"@.len() == 9 && "twamp_probe"@.len() == 11 && "tcp_connect"@.len() == 11);
    assert("routeros_btest"@.len() == 14 && "path_trace"@.len() == 10);
    assert("wifi_signal"@.len() == 11 && "packet_capture"@.len() == 14);
    assert("twamp_probe"@[1] == 'w' && "tcp_connect"@[1] == 'c' && "wifi_signal"@[1] == 'i');
    assert("routeros_btest"@[0] == 'r' && "packet_capture"@[0] == 'p');
    assert("sender"@.len() == 6 && "reflector"@.len() == 9);
}

/// A task that is leased is planned as it was sent: the same id, peer,
/// parameters and cadence, its session read in decimal, and its times in
/// seconds.
pub proof fn law_a_leased_task_is_planned_as_sent(d: TaskDto, n: u64)
    requires
        crate::controller::client::can_plan(d),
        d.session_id@ == crate::text::decimal(n as nat),
    ensures
        ({
            let p = crate::controller::client::planned(d);
            &&& p.0.task_id == d.task_id
            &&& p.0.session_id == n
            &&& p.0.params == d.params
            &&& p.0.recurring == d.recurring
            &&& d.kind@ == "mqp_probe"@ ==> p.0.kind == plan::Kind::MqpProbe
            &&& d.kind@ == "twamp_probe"@ ==> p.0.kind == plan::Kind::TwampProbe
            &&& d.role@ == "sender"@ ==> p.0.role == plan::Role::Sender
            &&& d.role@ == "reflector"@ ==> p.0.role == plan::Role::Reflector
            &&& (p.0.peer is Some) == (d.peer is Some)
            &&& d.peer is Some ==> {
                &&& p.0.peer->0.agent_id == d.peer->0.agent_id
                &&& p.0.peer->0.name == d.peer->0.name
                &&& p.0.peer->0.address == d.peer->0.address
                &&& p.0.peer->0.probe_port == d.peer->0.probe_port
            }
            &&& (p.0.interval is Some) == (d.interval_s is Some)
            &&& d.interval_s is Some ==> p.0.interval->0.nanos == d.interval_s->0 * 1_000_000_000
            &&& (p.1 is Some) == (d.expires_in_s is Some)
            &&& d.expires_in_s is Some ==> p.1->0.nanos == d.expires_in_s->0 * 1_000_000_000
        }),
{
    crate::controller::client::law_decimal_sessions_read_back(n);
    law_kinds_and_roles_are_named(d.kind@);
    law_kinds_and_roles_are_named(d.role@);
}

/// A task can be planned exactly when its kind, role and session can be read;
/// what is complained of is the first that cannot.
pub proof fn law_when_a_task_can_be_planned(d: TaskDto)
    ensures
        crate::controller::client::can_plan(d) <==> {
            &&& crate::controller::client::kind_named(d.kind@) is Some
            &&& crate::controller::client::role_named(d.role@) is Some
            &&& crate::controller::client::session_named(d.session_id@) is Some
        },
        crate::controller::client::kind_named(d.kind@) is None
            ==> crate::controller::client::planning_error(d) == "unknown task kind "@
            + crate::text::quoted(d.kind@),
        crate::controller::client::kind_named(d.kind@) is Some
            && crate::controller::client::role_named(d.role@) is None
            ==> crate::controller::client::planning_error(d) == "unknown role "@
            + crate::text::quoted(d.role@),
{
}

/// A reply is taken or refused by its status alone: from 200 to 299 it is taken,
/// 401 and 403 refuse our credentials, and any other is an error with its
/// status.
pub proof fn law_replies_are_taken_by_status(
    status: u16,
    body: Seq<char>,
    r: Result<(), ControllerError>,
)
    requires
        crate::controller::client::is_checked(status, body, r),
    ensures
        r is Ok <==> status >= 200 && status < 300,
        (r is Err && r->Err_0 is Unauthorized) <==> status == 401 || status == 403,
        r is Err && !(r->Err_0 is Unauthorized) ==> r->Err_0 is Http && r->Err_0->Http_status
            == status,
{
}

/// What may pass is tried again: a failure of the network, an error of the
/// controller's own, or being told to slow down. What is refused is not.
pub proof fn law_what_is_tried_again(e: ControllerError)
    ensures
        e is Transport ==> crate::controller::retryable(e),
        e is Http ==> (crate::controller::retryable(e) <==> e->Http_status >= 500 || e->Http_status
            == 429),
        e is Unauthorized || e is Decode || e is State ==> !crate::controller::retryable(e),
{
}

/// An error body is kept whole where it takes 300 bytes or less. A longer one is
/// cut to as many characters as fit: with the next one it would be too long.
pub proof fn law_long_bodies_are_cut_where_they_no_longer_fit(s: Seq<char>)
    ensures
        crate::controller::client::width(s) <= 300 ==> crate::controller::client::shortened(s) == s,
        crate::controller::client::width(s) > 300 ==> exists|k: int|
            0 <= k < s.len() && crate::controller::client::shortened(s) == #[trigger] s.take(k)
                + "…"@ && crate::controller::client::width(s.take(k)) <= 300
                && crate::controller::client::width(s.take(k + 1)) > 300,
{
    if crate::controller::client::width(s) > 300 {
        lemma_fits(s, 300);
        let k = crate::controller::client::fitting(s, 300) as int;
        assert(crate::controller::client::shortened(s) == s.take(k) + "…"@);
    }
}

proof fn lemma_fits(s: Seq<char>, bytes: nat)
    requires
        crate::controller::client::width(s) > bytes,
    ensures
        ({
            let k = crate::controller::client::fitting(s, bytes) as int;
            &&& 0 <= k < s.len()
            &&& crate::controller::client::width(s.take(k)) <= bytes
            &&& crate::controller::client::width(s.take(k + 1)) > bytes
        }),
    decreases s.len(),
{
    let rest = s.drop_last();
    let k = crate::controller::client::fitting(s, bytes) as int;
    if crate::controller::client::width(rest) > bytes {
        lemma_fits(rest, bytes);
        assert(rest.take(k) =~= s.take(k));
        assert(rest.take(k + 1) =~= s.take(k + 1));
    } else {
        assert(k == rest.len()) by {
            reveal_with_fuel(crate::controller::client::fitting, 2);
        }
        assert(s.take(k) =~= rest);
        assert(s.take(k + 1) =~= s);
    }
}

/// The width of a text is that of its characters: one byte for each below 0x80,
/// two below 0x800, three below 0x10000, and four for the rest.
pub proof fn law_widths_add_up(s: Seq<char>, c: char)
    ensures
        crate::controller::client::width(Seq::empty()) == 0,
        crate::controller::client::width(s.push(c)) == crate::controller::client::width(s) + (if (
        c as u32) < 0x80 {
            1int
        } else if (c as u32) < 0x800 {
            2
        } else if (c as u32) < 0x1_0000 {
            3
        } else {
            4
        }),
{
    assert(s.push(c).drop_last() =~= s);
}

/// Waiting starts at the base, or at the limit where that is shorter, and
/// doubles with every failure until it meets the limit, for twenty failures.
pub proof fn law_waiting_doubles(b: Backoff)
    ensures
        b.attempts == 0 ==> crate::controller::window(b) == if b.base.nanos <= b.max.nanos {
            b.base.nanos
        } else {
            b.max.nanos
        },
        b.attempts < 20 ==> crate::controller::window(crate::controller::advanced(b)) == if 2
            * crate::controller::window(b) <= b.max.nanos {
            2 * crate::controller::window(b)
        } else {
            b.max.nanos as nat
        },
        20 <= b.attempts ==> crate::controller::window(crate::controller::advanced(b))
            == crate::controller::window(b),
        crate::controller::advanced(b).base == b.base,
        crate::controller::advanced(b).max == b.max,
        b.attempts < u32::MAX ==> crate::controller::advanced(b).attempts == b.attempts + 1,
{
    let x = b.base.nanos as int;
    if b.attempts < 20 {
        let n = b.attempts as nat;
        let d = crate::controller::doublings(n) as int;
        assert(crate::controller::doublings(n + 1) == 2 * d);
        assert(x * (2 * d) == 2 * (x * d)) by (nonlinear_arith);
        assert(x * d >= 0) by (nonlinear_arith)
            requires
                x >= 0,
                d >= 0,
        ;
    }
    if b.attempts == 0 {
        assert(crate::controller::doublings(0) == 1);
        assert(x * 1 == x);
    }
}

/// A larger draw never waits shorter, and where the share of the window that was
/// drawn is at least the base, that share is what is waited.
pub proof fn law_the_draw_decides_the_wait(b: Backoff, u: u32, v: u32)
    requires
        u <= v,
    ensures
        crate::controller::delay(b, u) <= crate::controller::delay(b, v),
        u <= 1_000_000_000 && crate::controller::window(b) * u >= b.base.nanos * 1_000_000_000 ==> {
            let d = crate::controller::delay(b, u);
            d * 1_000_000_000 <= crate::controller::window(b) * u < (d + 1) * 1_000_000_000
        },
{
    let w = crate::controller::window(b) as int;
    let whole = 1_000_000_000int;
    let x: int = if u <= whole {
        u as int
    } else {
        whole
    };
    let y: int = if v <= whole {
        v as int
    } else {
        whole
    };
    assert(w * x <= w * y) by (nonlinear_arith)
        requires
            0 <= x <= y,
            w >= 0,
    ;
    assert(w * x >= 0) by (nonlinear_arith)
        requires
            0 <= x,
            w >= 0,
    ;
    assert((w * x) / whole <= (w * y) / whole);
}

/// A URL is the base without slashes at its end, the API's prefix, and the path
/// without slashes at its front.
pub proof fn law_urls_have_one_slash_at_each_seam(base: Seq<char>, path: Seq<char>)
    requires
        base.len() > 0 ==> base.last() != '/',
        path.len() > 0 ==> path[0] != '/',
    ensures
        crate::controller::api_url(base, path) == base + "/api/v1/"@ + path,
        crate::controller::api_url(base + seq!['/'], path) == crate::controller::api_url(
            base,
            path,
        ),
        crate::controller::api_url(base, seq!['/'] + path) == crate::controller::api_url(
            base,
            path,
        ),
{
    let f = |c: char| c == '/';
    let more = base + seq!['/'];
    let front = seq!['/'] + path;
    assert(crate::text::without_back(base, f) == base);
    assert(crate::text::without_front(path, f) == path);
    assert(more.last() == '/');
    assert(more.drop_last() =~= base);
    assert(crate::text::without_back(more, f) == base);
    assert(front[0] == '/');
    assert(front.skip(1) =~= path);
    assert(crate::text::without_front(front, f) == path);
}

/// The identity is kept in the state directory, whether or not that is given
/// with a slash at its end, and every route of an agent bears its id.
pub proof fn law_where_things_are(dir: Seq<char>, id: Seq<char>, what: Seq<char>)
    requires
        dir.len() > 0,
        dir.last() != '/',
    ensures
        crate::controller::identity_file(dir) == dir + "/"@ + "identity.json"@,
        crate::controller::identity_file(dir + seq!['/']) == crate::controller::identity_file(dir),
        crate::controller::client::route(id, what) == "agents/"@ + id + "/"@ + what,
{
    reveal_strlit("/");
    assert((dir + seq!['/']).last() == '/');
    assert("/"@ =~= seq!['/']);
    assert(dir + seq!['/'] + "identity.json"@ =~= dir + "/"@ + "identity.json"@);
}

/// A session with `0x` before it is read in hexadecimal.
pub proof fn law_hexadecimal_sessions_read_back(n: u64)
    ensures
        crate::controller::client::session_named(
            seq!['0', 'x'] + crate::text::hex(n as nat, 16, false),
        ) == Some(n as nat),
        crate::controller::client::session_named(
            seq!['0', 'X'] + crate::text::hex(n as nat, 16, false),
        ) == Some(n as nat),
{
    reveal_strlit("0x");
    reveal_strlit("0X");
    let h = crate::text::hex(n as nat, 16, false);
    let s = seq!['0', 'x'] + h;
    let t = seq!['0', 'X'] + h;
    crate::cli::laws::lemma_hex(n as nat, 16);
    reveal_with_fuel(crate::cli::laws::sixteen_to, 17);
    assert("0x"@ =~= seq!['0', 'x']);
    assert("0X"@ =~= seq!['0', 'X']);
    assert(crate::text::digit(h[15], 16) is Some && crate::text::digit(h[0], 16) is Some);
    assert(!crate::text::is_space(h[15]));
    crate::discovery::reading_laws::lemma_not_trimmed(s);
    crate::discovery::reading_laws::lemma_not_trimmed(t);
    assert(s.take(2) =~= "0x"@ && t.take(2) =~= "0X"@);
    assert(s.skip(2) =~= h && t.skip(2) =~= h);
}

} // verus!
