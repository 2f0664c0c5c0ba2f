//! What the sub-commands ask of the probes and of the router.

use vstd::prelude::*;

use crate::cli::{BtestArgs, DiscoverArgs, ProbeArgs, ReflectArgs, TwampProbeArgs};
use crate::duration::Duration;
use crate::json::Json;
use crate::json::JsonView;
use crate::net::{IpAddr, SocketAddr};
use crate::probe::sender::ProbeConfig;
use crate::probe::twamp::TwampConfig;
use crate::routeros::btest::BtestConfig;
use crate::routeros::RouterOs;
use crate::text::to_decimal;

verus! {

/// Whom a standalone reflector answers.
pub open spec fn answered_by(a: ReflectArgs) -> IpAddr {
    match a.peer {
        Some(ip) => ip,
        None => IpAddr::V4(0),
    }
}

/// Whom a standalone reflector answers. Without `--peer` that is any source:
/// requiring the sender's address up front would make the mode unusable.
pub fn reflect_peer(a: &ReflectArgs) -> (r: SocketAddr)
    ensures
        r.port == 0,
        r.scope_id == 0,
        r.ip == (match a.peer {
            Some(ip) => ip,
            None => IpAddr::V4(0),
        }),
        r.ip == answered_by(*a),
{
    match a.peer {
        Some(ip) => SocketAddr::new(ip, 0),
        None => SocketAddr::new(IpAddr::V4(0), 0),
    }
}

/// How long a standalone run waits for stragglers.
pub const LINGER_SECS: u64 = 2;

/// The run that the options of a probe ask for.
pub open spec fn probe_job(a: ProbeArgs) -> ProbeConfig {
    ProbeConfig {
        session_id: a.session,
        peer: a.peer,
        count: a.count,
        interval: Duration { nanos: (a.interval_ms * 1_000_000) as u128 },
        payload_bytes: a.size,
        dscp: a.dscp,
        timeout: Duration { nanos: (a.timeout_ms * 1_000_000) as u128 },
        linger: Duration { nanos: 2_000_000_000 },
    }
}

pub fn probe_config(a: &ProbeArgs) -> (r: ProbeConfig)
    ensures
        r == probe_job(*a),
        r == (ProbeConfig {
            session_id: a.session,
            peer: a.peer,
            count: a.count,
            interval: Duration { nanos: (a.interval_ms * 1_000_000) as u128 },
            payload_bytes: a.size,
            dscp: a.dscp,
            timeout: Duration { nanos: (a.timeout_ms * 1_000_000) as u128 },
            linger: Duration { nanos: 2_000_000_000 },
        }),
{
    ProbeConfig {
        session_id: a.session,
        peer: a.peer,
        count: a.count,
        interval: Duration::from_millis(a.interval_ms),
        payload_bytes: a.size,
        dscp: a.dscp,
        timeout: Duration::from_millis(a.timeout_ms),
        linger: Duration::from_secs(LINGER_SECS),
    }
}

/// The run that the options of a TWAMP probe ask for.
pub open spec fn twamp_job(a: TwampProbeArgs) -> TwampConfig {
    TwampConfig {
        peer: a.peer,
        count: a.count,
        interval: Duration { nanos: (a.interval_ms * 1_000_000) as u128 },
        payload_bytes: a.size,
        dscp: a.dscp,
        timeout: Duration { nanos: (a.timeout_ms * 1_000_000) as u128 },
        linger: Duration { nanos: 2_000_000_000 },
    }
}

pub fn twamp_config(a: &TwampProbeArgs) -> (r: TwampConfig)
    ensures
        r == twamp_job(*a),
        r == (TwampConfig {
            peer: a.peer,
            count: a.count,
            interval: Duration { nanos: (a.interval_ms * 1_000_000) as u128 },
            payload_bytes: a.size,
            dscp: a.dscp,
            timeout: Duration { nanos: (a.timeout_ms * 1_000_000) as u128 },
            linger: Duration { nanos: 2_000_000_000 },
        }),
{
    TwampConfig {
        peer: a.peer,
        count: a.count,
        interval: Duration::from_millis(a.interval_ms),
        payload_bytes: a.size,
        dscp: a.dscp,
        timeout: Duration::from_millis(a.timeout_ms),
        linger: Duration::from_secs(LINGER_SECS),
    }
}

/// `r` is the bandwidth test that the options ask for.
pub open spec fn is_btest_job(a: BtestArgs, r: BtestConfig) -> bool {
    &&& r.address@ == a.target@
    &&& r.direction == a.direction
    &&& r.protocol == a.protocol
    &&& r.duration.nanos == a.duration_s * 1_000_000_000
    &&& r.user@ == a.bt_user@
    &&& r.password@ == a.bt_pass@
    &&& r.connection_count == a.connections
    &&& r.local_tx_speed == a.limit_bps
    &&& r.remote_tx_speed == a.limit_bps
}

/// The bandwidth test that the options ask for. A cap on the offered rate holds
/// in both directions.
pub fn btest_config(a: &BtestArgs) -> (r: BtestConfig)
    ensures
        r.address@ == a.target@,
        r.direction == a.direction,
        r.protocol == a.protocol,
        r.duration.nanos == a.duration_s * 1_000_000_000,
        r.user@ == a.bt_user@,
        r.password@ == a.bt_pass@,
        r.connection_count == a.connections,
        r.local_tx_speed == a.limit_bps,
        r.remote_tx_speed == a.limit_bps,
        is_btest_job(*a, r),
{
    BtestConfig {
        address: a.target.clone(),
        direction: a.direction,
        protocol: a.protocol,
        duration: Duration::from_secs(a.duration_s),
        user: a.bt_user.clone(),
        password: a.bt_pass.clone(),
        connection_count: a.connections,
        local_tx_speed: a.limit_bps,
        remote_tx_speed: a.limit_bps,
    }
}

/// How long a survey waits for a reply.
pub const SURVEY_TIMEOUT_SECS: u64 = 20;

/// How long the other tools do. Generous: a traceroute across a slow path, or a
/// scan of a /24, takes a while and the router streams results for the whole
/// duration.
pub const TOOL_TIMEOUT_SECS: u64 = 180;

/// Connect to a RouterOS device using the shared options.
pub fn connect(a: &DiscoverArgs, timeout_secs: u64) -> (r: RouterOs)
    ensures
        crate::routeros::is_connection(
            r,
            a.host@,
            a.port,
            a.user@,
            a.pass@,
            a.tls,
            Duration { nanos: (timeout_secs * 1_000_000_000) as u128 },
        ),
{
    RouterOs::new(
        a.host.as_str(),
        a.port,
        a.user.as_str(),
        a.pass.as_str(),
        a.tls,
        Duration::from_secs(timeout_secs),
    )
}

/// What `/tool/traceroute` is asked.
pub open spec fn trace_body(target: Seq<char>, count: u32) -> JsonView {
    JsonView::Object(Seq::empty()).put("address"@, JsonView::Text(target)).put(
        "count"@,
        JsonView::Text(crate::text::decimal(count as nat)),
    ).put("timeout"@, JsonView::Text("1"@))
}

/// What `/tool/ip-scan` is asked.
pub open spec fn scan_body(range: Seq<char>, duration_s: u32) -> JsonView {
    JsonView::Object(Seq::empty()).put("address-range"@, JsonView::Text(range)).put(
        "duration"@,
        JsonView::Text(crate::text::decimal(duration_s as nat)),
    )
}

/// What `/tool/traceroute` is asked.
pub fn trace_request(target: &str, count: u32) -> (r: Json)
    ensures
        r@ == trace_body(target@, count),
        r@ == JsonView::Object(Seq::empty()).put("address"@, JsonView::Text(target@)).put(
            "count"@,
            JsonView::Text(crate::text::decimal(count as nat)),
        ).put("timeout"@, JsonView::Text("1"@)),
{
    let n = to_decimal(count as u128);
    Json::object().with("address", Json::text(target)).with("count", Json::text(n.as_str())).with(
        "timeout",
        Json::text("1"),
    )
}

/// What `/tool/ip-scan` is asked.
pub fn scan_request(range: &str, duration_s: u32) -> (r: Json)
    ensures
        r@ == scan_body(range@, duration_s),
        r@ == JsonView::Object(Seq::empty()).put("address-range"@, JsonView::Text(range@)).put(
            "duration"@,
            JsonView::Text(crate::text::decimal(duration_s as nat)),
        ),
{
    let n = to_decimal(duration_s as u128);
    Json::object().with("address-range", Json::text(range)).with("duration", Json::text(n.as_str()))
}

/// What to add to the message when a port could not be bound.
pub fn port_hint(port: u16) -> (r: &'static str)
    ensures
        r@ == (if port < 1024 {
            " (ports below 1024 need elevated privileges)"@
        } else {
            ""@
        }),
{
    if port < 1024 {
        " (ports below 1024 need elevated privileges)"
    } else {
        ""
    }
}

/// A run is made of the options as they are given, its times in milliseconds,
/// and waits two seconds for stragglers.
pub proof fn law_runs_are_made_of_the_options(a: ProbeArgs, t: TwampProbeArgs)
    ensures
        ({
            let c = probe_job(a);
            &&& c.session_id == a.session && c.peer == a.peer && c.count == a.count
            &&& c.payload_bytes == a.size && c.dscp == a.dscp
            &&& c.interval.nanos == a.interval_ms * 1_000_000
            &&& c.timeout.nanos == a.timeout_ms * 1_000_000
            &&& c.linger.nanos == 2_000_000_000
        }),
        ({
            let c = twamp_job(t);
            &&& c.peer == t.peer && c.count == t.count
            &&& c.payload_bytes == t.size && c.dscp == t.dscp
            &&& c.interval.nanos == t.interval_ms * 1_000_000
            &&& c.timeout.nanos == t.timeout_ms * 1_000_000
            &&& c.linger.nanos == 2_000_000_000
        }),
{
}

/// A throughput test is made of the options as they are given; a limit holds
/// both ways.
pub proof fn law_tests_are_made_of_the_options(a: BtestArgs, r: BtestConfig)
    requires
        is_btest_job(a, r),
    ensures
        r.address@ == a.target@,
        r.direction == a.direction && r.protocol == a.protocol,
        r.duration.nanos == a.duration_s * 1_000_000_000,
        r.user@ == a.bt_user@ && r.password@ == a.bt_pass@,
        r.connection_count == a.connections,
        r.local_tx_speed == a.limit_bps && r.remote_tx_speed == a.limit_bps,
{
}

/// A standalone reflector answers the peer it is given, and anyone where it is
/// given none.
pub proof fn law_whom_a_standalone_reflector_answers(a: ReflectArgs, from: IpAddr)
    ensures
        a.peer is None ==> crate::probe::reflector::accepted_from(answered_by(a), from),
        a.peer == Some(from) ==> crate::probe::reflector::accepted_from(answered_by(a), from),
        a.peer is Some && a.peer->0 != from && a.peer->0 != IpAddr::V4(0) && a.peer->0
            != IpAddr::V6(0) ==> !crate::probe::reflector::accepted_from(answered_by(a), from),
{
}

/// A trace and a scan ask for what they are told to: the target and how often,
/// the range and how long.
pub proof fn law_what_the_tools_are_asked(s: Seq<char>, n: u32)
    ensures
        trace_body(s, n).get("address"@) == Some(JsonView::Text(s)),
        trace_body(s, n).get("count"@) == Some(JsonView::Text(crate::text::decimal(n as nat))),
        trace_body(s, n).get("timeout"@) == Some(JsonView::Text("1"@)),
        scan_body(s, n).get("address-range"@) == Some(JsonView::Text(s)),
        scan_body(s, n).get("duration"@) == Some(JsonView::Text(crate::text::decimal(n as nat))),
{
    reveal_strlit("address");
    reveal_strlit("count");
    reveal_strlit("timeout");
    reveal_strlit("address-range");
    reveal_strlit("duration");
    assert("address"@.len() == 7 && "count"@.len() == 5 && "timeout"@.len() == 7);
    assert("address"@[0] == 'a' && "timeout"@[0] == 't');
    assert("address-range"@.len() == 13 && "duration"@.len() == 8);
    let f = trace_body(s, n)->Object_0;
    crate::json::lemma_field_at(f, 0);
    crate::json::lemma_field_at(f, 1);
    crate::json::lemma_field_at(f, 2);
    let g = scan_body(s, n)->Object_0;
    crate::json::lemma_field_at(g, 0);
    crate::json::lemma_field_at(g, 1);
}

} // verus!
