//! What the environment asks for: each variable in its place, and the defaults
//! of those that are not set.

use vstd::prelude::*;

use crate::cli::{CommandView, ModeVariables, ProbeArgs};
use crate::collector::mos::Codec;
use crate::net::{IpAddr, SocketAddr};

verus! {

/// The variable is not set.
pub open spec fn unset(v: Option<String>) -> bool {
    v is None
}

/// The variable is set to the text `s`.
pub open spec fn set(v: Option<String>, s: Seq<char>) -> bool {
    v is Some && v->0@ == s
}

proof fn lemma_number(v: Option<String>, max: nat, default: nat, name: Seq<char>, n: nat)
    requires
        n <= max,
    ensures
        unset(v) ==> crate::cli::options::number(crate::text::seen(v), max, default, name) == Ok::<
            nat,
            Seq<char>,
        >(default),
        set(v, crate::text::decimal(n)) ==> crate::cli::options::number(
            crate::text::seen(v),
            max,
            default,
            name,
        ) == Ok::<nat, Seq<char>>(n),
{
    crate::text::law_decimal_reads_back(n);
}

proof fn lemma_mode(m: Seq<char>)
    requires
        m == "agent"@ || m == "reflect"@ || m == "probe"@ || m == "twamp-reflect"@,
    ensures
        crate::text::lowered(crate::text::trimmed(m)) == m,
        "agent"@.len() == 5,
        "probe"@.len() == 5,
        "reflect"@.len() == 7,
        "twamp-reflect"@.len() == 13,
        "agent"@ != "probe"@,
{
    reveal_strlit("agent");
    reveal_strlit("reflect");
    reveal_strlit("probe");
    reveal_strlit("twamp-reflect");
    assert("agent"@[0] == 'a' && "probe"@[0] == 'p');
    assert(!crate::text::is_space(m[0]) && !crate::text::is_space(m[m.len() - 1]));
    crate::discovery::reading_laws::lemma_not_trimmed(m);
    assert(crate::text::lowered(m) =~= m);
}

/// A mode is named by one word; any other word is refused.
pub proof fn law_modes_are_named(mode: Seq<char>, v: ModeVariables)
    ensures
        ({
            let m = crate::text::lowered(crate::text::trimmed(mode));
            let r = crate::cli::env_command(mode, v);
            &&& m == "agent"@ ==> r == Ok::<CommandView, Seq<char>>(CommandView::Agent)
            &&& r matches Ok(c) ==> {
                &&& c is Agent <==> m == "agent"@
                &&& c is Reflect <==> m == "reflect"@
                &&& c is Probe <==> m == "probe"@
                &&& c is TwampReflect <==> m == "twamp-reflect"@
            }
            &&& m != "agent"@ && m != "reflect"@ && m != "probe"@ && m != "twamp-reflect"@
                ==> r is Err
        }),
{
    lemma_mode("agent"@);
    lemma_mode("reflect"@);
}

/// What a probe is told by the environment: each variable in its place, with the
/// defaults of the command line.
pub proof fn law_what_the_environment_tells_a_probe(
    v: ModeVariables,
    x: ProbeArgs,
    n: nat,
    a: nat,
    b: nat,
    c: nat,
    d: nat,
)
    requires
        crate::cli::env_command("probe"@, v) == Ok::<CommandView, Seq<char>>(CommandView::Probe(x)),
        n <= u16::MAX,
        a < 256,
        b < 256,
        c < 256,
        d < 256,
    ensures
        unset(v.count) ==> x.count == 100,
        set(v.count, crate::text::decimal(n)) ==> x.count == n,
        unset(v.interval_ms) ==> x.interval_ms == 20,
        set(v.interval_ms, crate::text::decimal(n)) ==> x.interval_ms == n,
        unset(v.size) ==> x.size == 172,
        set(v.size, crate::text::decimal(n)) ==> x.size == n,
        unset(v.timeout_ms) ==> x.timeout_ms == 1000,
        set(v.timeout_ms, crate::text::decimal(n)) ==> x.timeout_ms == n,
        unset(v.session) ==> x.session == 1,
        unset(v.dscp) ==> x.dscp is None,
        set(v.dscp, crate::text::decimal(n)) ==> n <= 63 && x.dscp == Some(n as u8),
        unset(v.codec) ==> x.codec == Codec::G711,
        set(v.codec, "opus"@) ==> x.codec == Codec::Opus,
        unset(v.json) ==> !x.json,
        set(v.json, "1"@) ==> x.json,
        !unset(v.peer),
        set(v.peer, crate::net_laws::quad(a, b, c, d)) && unset(v.probe_port) ==> x.peer == (
        SocketAddr {
            ip: IpAddr::V4((((a * 256 + b) * 256 + c) * 256 + d) as u32),
            port: 5301,
            scope_id: 0,
        }),
        set(v.peer, crate::net_laws::quad(a, b, c, d)) && set(
            v.probe_port,
            crate::text::decimal(n),
        ) ==> x.peer == (SocketAddr {
            ip: IpAddr::V4((((a * 256 + b) * 256 + c) * 256 + d) as u32),
            port: n as u16,
            scope_id: 0,
        }),
{
    lemma_mode("probe"@);
    lemma_mode("agent"@);
    crate::cli::laws::lemma_codecs();
    lemma_number(v.count, u32::MAX as nat, 100, "MQ_COUNT"@, n);
    lemma_number(v.interval_ms, u64::MAX as nat, 20, "MQ_INTERVAL_MS"@, n);
    lemma_number(v.size, usize::MAX as nat, 172, "MQ_SIZE"@, n);
    lemma_number(v.timeout_ms, u64::MAX as nat, 1000, "MQ_TIMEOUT_MS"@, n);
    lemma_number(v.probe_port, u16::MAX as nat, 5301, "MQ_PROBE_PORT"@, n);
    lemma_env_dscp(v.dscp, n);
    lemma_env_target(v, n, a, b, c, d);
    reveal_strlit("1");
    assert(!crate::text::is_space("1"@[0]));
    crate::discovery::reading_laws::lemma_not_trimmed("1"@);
}

proof fn lemma_env_dscp(v: Option<String>, n: nat)
    ensures
        set(v, crate::text::decimal(n)) && n <= 63 ==> crate::cli::env_dscp(v) == Ok::<
            Option<u8>,
            Seq<char>,
        >(Some(n as u8)),
        set(v, crate::text::decimal(n)) && n > 63 ==> crate::cli::env_dscp(v) is Err,
{
    crate::routeros::btest::lemma_decimal_is_trimmed(n);
    crate::text::law_decimal_reads_back(n);
}

proof fn lemma_env_target(v: ModeVariables, n: nat, a: nat, b: nat, c: nat, d: nat)
    requires
        n <= u16::MAX,
        a < 256,
        b < 256,
        c < 256,
        d < 256,
    ensures
        ({
            let ip = IpAddr::V4((((a * 256 + b) * 256 + c) * 256 + d) as u32);
            &&& set(v.peer, crate::net_laws::quad(a, b, c, d)) && unset(v.probe_port)
                ==> crate::cli::env_target(v) == Ok::<SocketAddr, Seq<char>>(
                SocketAddr { ip, port: 5301, scope_id: 0 },
            )
            &&& set(v.peer, crate::net_laws::quad(a, b, c, d)) && set(
                v.probe_port,
                crate::text::decimal(n),
            ) ==> crate::cli::env_target(v) == Ok::<SocketAddr, Seq<char>>(
                SocketAddr { ip, port: n as u16, scope_id: 0 },
            )
        }),
{
    let s = crate::net_laws::quad(a, b, c, d);
    lemma_number(v.probe_port, u16::MAX as nat, 5301, "MQ_PROBE_PORT"@, n);
    crate::discovery::reading_laws::lemma_quad(a, b, c, d);
    crate::discovery::reading_laws::lemma_not_trimmed(s);
    crate::cli::laws::lemma_bare_target(a, b, c, d, "MQ_PEER"@, 5301);
    crate::cli::laws::lemma_bare_target(a, b, c, d, "MQ_PEER"@, n as u16);
    crate::cli::laws::lemma_no_colon(a, b, c, d);
}

/// What a reflector is told by the environment: its port and session, the one
/// peer it answers, and the TWAMP responder beside it.
pub proof fn law_what_the_environment_tells_a_reflector(
    v: ModeVariables,
    c: CommandView,
    n: nat,
    a: nat,
    b: nat,
    d: nat,
    e: nat,
)
    requires
        crate::cli::env_command("reflect"@, v) == Ok::<CommandView, Seq<char>>(c),
        n <= u16::MAX,
        a < 256,
        b < 256,
        d < 256,
        e < 256,
    ensures
        c is Reflect,
        unset(v.probe_port) ==> c->Reflect_port == 5301,
        set(v.probe_port, crate::text::decimal(n)) ==> c->Reflect_port == n,
        unset(v.session) ==> c->Reflect_session == 1,
        unset(v.peer_ip) ==> c->Reflect_peer is None,
        set(v.peer_ip, crate::net_laws::quad(a, b, d, e)) ==> c->Reflect_peer == Some(
            IpAddr::V4((((a * 256 + b) * 256 + d) * 256 + e) as u32),
        ),
        unset(v.twamp_port) ==> c->Reflect_twamp is None,
        set(v.twamp_port, crate::text::decimal(n)) ==> c->Reflect_twamp == Some(n as u16),
        unset(v.twamp_peers) ==> c->Reflect_sources.len() == 0,
{
    lemma_mode("reflect"@);
    lemma_mode("agent"@);
    lemma_number(v.probe_port, u16::MAX as nat, 5301, "MQ_PROBE_PORT"@, n);
    crate::routeros::btest::lemma_decimal_is_trimmed(n);
    crate::text::law_decimal_reads_back(n);
    crate::net_laws::law_dotted_addresses_read_back(a, b, d, e);
    crate::discovery::reading_laws::lemma_quad(a, b, d, e);
    crate::discovery::reading_laws::lemma_not_trimmed(crate::net_laws::quad(a, b, d, e));
}

/// What a TWAMP responder is told by the environment: its port, 862 where none
/// is set, and whom it answers.
pub proof fn law_what_the_environment_tells_a_twamp_responder(
    v: ModeVariables,
    c: CommandView,
    n: nat,
)
    requires
        crate::cli::env_command("twamp-reflect"@, v) == Ok::<CommandView, Seq<char>>(c),
        n <= u16::MAX,
    ensures
        c is TwampReflect,
        unset(v.twamp_port) ==> c->TwampReflect_port == 862,
        set(v.twamp_port, crate::text::decimal(n)) ==> c->TwampReflect_port == n,
        unset(v.twamp_peers) ==> c->TwampReflect_peers.len() == 0,
{
    lemma_mode("twamp-reflect"@);
    lemma_mode("agent"@);
    lemma_number(v.twamp_port, u16::MAX as nat, 862, "MQ_TWAMP_PORT"@, n);
}

/// Each variable of a mode is looked up under its own name.
pub proof fn law_mode_variables_are_looked_up_by_name<F: Fn(&str) -> Option<String>>(
    get: F,
    v: ModeVariables,
)
    requires
        crate::cli::looked_up(get, v),
    ensures
        call_ensures(get, ("MQ_SESSION",), v.session),
        call_ensures(get, ("MQ_PROBE_PORT",), v.probe_port),
        call_ensures(get, ("MQ_DSCP",), v.dscp),
        call_ensures(get, ("MQ_PEER_IP",), v.peer_ip),
        call_ensures(get, ("MQ_PEER",), v.peer),
        call_ensures(get, ("MQ_TWAMP_PORT",), v.twamp_port),
        call_ensures(get, ("MQ_TWAMP_PEERS",), v.twamp_peers),
        call_ensures(get, ("MQ_COUNT",), v.count),
        call_ensures(get, ("MQ_INTERVAL_MS",), v.interval_ms),
        call_ensures(get, ("MQ_SIZE",), v.size),
        call_ensures(get, ("MQ_TIMEOUT_MS",), v.timeout_ms),
        call_ensures(get, ("MQ_CODEC",), v.codec),
        call_ensures(get, ("MQ_JSON",), v.json),
{
}

/// Each setting of the agent is looked up under its own name.
pub proof fn law_settings_are_looked_up_by_name<F: Fn(&str) -> Option<String>>(
    get: F,
    v: crate::config::Variables,
)
    requires
        crate::config::looked_up(get, v),
    ensures
        call_ensures(get, ("MQ_CONTROLLER_URL",), v.controller_url),
        call_ensures(get, ("MQ_AGENT_NAME",), v.agent_name),
        call_ensures(get, ("MQ_AGENT_GROUP",), v.agent_group),
        call_ensures(get, ("MQ_ENROLMENT_TOKEN",), v.enrolment_token),
        call_ensures(get, ("MQ_PROBE_PORT",), v.probe_port),
        call_ensures(get, ("MQ_ADVERTISE_ADDR",), v.advertise_addr),
        call_ensures(get, ("MQ_STATE_DIR",), v.state_dir),
        call_ensures(get, ("MQ_LOG",), v.log),
        call_ensures(get, ("MQ_HEARTBEAT_SECS",), v.heartbeat_secs),
        call_ensures(get, ("MQ_POLL_SECS",), v.poll_secs),
        call_ensures(get, ("MQ_TWAMP_PORT",), v.twamp_port),
        call_ensures(get, ("MQ_TWAMP_PEERS",), v.twamp_peers),
        call_ensures(get, ("MQ_SPOOL_MAX_ENTRIES",), v.spool_max_entries),
        call_ensures(get, ("MQ_SPOOL_MAX_BYTES",), v.spool_max_bytes),
        call_ensures(get, ("MQ_SPOOL_ONSET_PCT",), v.spool_onset_pct),
        call_ensures(get, ("MQ_ROUTEROS_HOST",), v.routeros_host),
        call_ensures(get, ("MQ_ROUTEROS_USER",), v.routeros_user),
        call_ensures(get, ("MQ_ROUTEROS_PASS",), v.routeros_pass),
        call_ensures(get, ("MQ_ROUTEROS_TLS",), v.routeros_tls),
        call_ensures(get, ("MQ_ROUTEROS_PORT",), v.routeros_port),
{
}

} // verus!
