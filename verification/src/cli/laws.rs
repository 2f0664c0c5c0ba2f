//! What a command line comes to: each option in its place, and the defaults of
//! those that are not given.

use vstd::prelude::*;

use crate::cli::options::OptionsView;
use crate::cli::{CommandView, ProbeArgs, RouterView, TwampProbeArgs};
use crate::collector::mos::Codec;
use crate::net::{IpAddr, SocketAddr};
use crate::routeros::btest::{Direction, Protocol};

verus! {

/// The sub-commands are told apart by their names.
proof fn lemma_names()
    ensures
        "reflect"@.len() == 7,
        "probe"@.len() == 5,
        "twamp-reflect"@.len() == 13,
        "twamp-probe"@.len() == 11,
        "btest"@.len() == 5,
        "capture"@.len() == 7,
        "trace"@.len() == 5,
        "scan"@.len() == 4,
        "discover"@.len() == 8,
        "--help"@.len() == 6,
        "-h"@.len() == 2,
        "help"@.len() == 4,
        "reflect"@ != "capture"@,
        "probe"@ != "btest"@,
        "probe"@ != "trace"@,
        "btest"@ != "trace"@,
        "scan"@ != "help"@,
{
    reveal_strlit("reflect");
    reveal_strlit("probe");
    reveal_strlit("twamp-reflect");
    reveal_strlit("twamp-probe");
    reveal_strlit("btest");
    reveal_strlit("capture");
    reveal_strlit("trace");
    reveal_strlit("scan");
    reveal_strlit("discover");
    reveal_strlit("--help");
    reveal_strlit("-h");
    reveal_strlit("help");
    assert("reflect"@[0] == 'r' && "capture"@[0] == 'c');
    assert("probe"@[0] == 'p' && "btest"@[0] == 'b' && "trace"@[0] == 't');
    assert("scan"@[0] == 's' && "help"@[0] == 'h');
}

/// The options that follow the sub-command `sub` of a command line.
pub open spec fn asks(args: Seq<Seq<char>>, sub: Seq<char>, o: OptionsView) -> bool {
    &&& args.len() >= 2
    &&& args[1] == sub
    &&& crate::cli::options::scan(args.skip(2), crate::cli::options::no_options()) == Ok::<
        OptionsView,
        Seq<char>,
    >(o)
}

/// The option is not there.
pub open spec fn without(o: OptionsView, key: Seq<char>) -> bool {
    o.get(key) is None
}

/// The option is the number `n`.
pub open spec fn with(o: OptionsView, key: Seq<char>, n: nat) -> bool {
    o.get(key) == Some(crate::text::decimal(n))
}

proof fn lemma_option(o: OptionsView, key: Seq<char>, max: nat, default: nat, n: nat)
    requires
        n <= max,
    ensures
        without(o, key) ==> crate::cli::options::number(o.get(key), max, default, key) == Ok::<
            nat,
            Seq<char>,
        >(default),
        with(o, key, n) ==> crate::cli::options::number(o.get(key), max, default, key) == Ok::<
            nat,
            Seq<char>,
        >(n),
{
    crate::text::law_decimal_reads_back(n);
}

/// Without arguments the program is the agent; asked for help it helps; a word
/// that is no sub-command is refused.
pub proof fn law_what_is_run(args: Seq<Seq<char>>)
    ensures
        args.len() < 2 ==> crate::cli::command_line(args) == Ok::<CommandView, Seq<char>>(
            CommandView::Agent,
        ),
        args.len() >= 2 && (args[1] == "--help"@ || args[1] == "-h"@ || args[1] == "help"@)
            ==> crate::cli::command_line(args) == Ok::<CommandView, Seq<char>>(CommandView::Help),
        crate::cli::command_line(args) == Ok::<CommandView, Seq<char>>(CommandView::Agent)
            ==> args.len() < 2,
        crate::cli::command_line(args) matches Ok(c) ==> {
            &&& c is Reflect ==> args[1] == "reflect"@
            &&& c is Probe ==> args[1] == "probe"@
            &&& c is TwampReflect ==> args[1] == "twamp-reflect"@
            &&& c is TwampProbe ==> args[1] == "twamp-probe"@
            &&& c is Btest ==> args[1] == "btest"@
            &&& c is Capture ==> args[1] == "capture"@
            &&& c is Trace ==> args[1] == "trace"@
            &&& c is Scan ==> args[1] == "scan"@
            &&& c is Discover ==> args[1] == "discover"@
        },
{
    lemma_names();
}

/// The text names the address that the four octets make up, and no port.
pub proof fn lemma_bare_target(a: nat, b: nat, c: nat, d: nat, label: Seq<char>, port: u16)
    requires
        a < 256,
        b < 256,
        c < 256,
        d < 256,
    ensures
        crate::cli::options::target(label, crate::net_laws::quad(a, b, c, d), port as nat) == Ok::<
            SocketAddr,
            Seq<char>,
        >(
            SocketAddr {
                ip: IpAddr::V4((((a * 256 + b) * 256 + c) * 256 + d) as u32),
                port,
                scope_id: 0,
            },
        ),
{
    reveal_strlit(":");
    crate::net_laws::law_endpoints_read_back(a, b, c, d, port);
    assert(":"@ =~= seq![':']);
    lemma_no_colon(a, b, c, d);
}

/// Four octets as they are written have no colon in them.
pub proof fn lemma_no_colon(a: nat, b: nat, c: nat, d: nat)
    ensures
        !crate::text::has(crate::net_laws::quad(a, b, c, d), ":"@),
{
    let s = crate::net_laws::quad(a, b, c, d);
    reveal_strlit(":");
    crate::net_laws::lemma_quad_has_no_colon(a, b, c, d);
    assert(":"@ =~= seq![':']);
    assert forall|at: int| !crate::text::stands_at(s, ":"@, at) by {
        if crate::text::stands_at(s, ":"@, at) {
            assert(s.subrange(at, at + 1)[0] == ':');
            assert(s[at] == ':');
        }
    }
}

proof fn lemma_full_target(a: nat, b: nat, c: nat, d: nat, p: u16, label: Seq<char>, port: u16)
    requires
        a < 256,
        b < 256,
        c < 256,
        d < 256,
    ensures
        crate::cli::options::target(
            label,
            crate::net_laws::quad(a, b, c, d) + seq![':'] + crate::text::decimal(p as nat),
            port as nat,
        ) == Ok::<SocketAddr, Seq<char>>(
            SocketAddr {
                ip: IpAddr::V4((((a * 256 + b) * 256 + c) * 256 + d) as u32),
                port: p,
                scope_id: 0,
            },
        ),
{
    let q = crate::net_laws::quad(a, b, c, d);
    let s = q + seq![':'] + crate::text::decimal(p as nat);
    reveal_strlit(":");
    crate::net_laws::law_endpoints_read_back(a, b, c, d, p);
    assert(":"@ =~= seq![':']);
    let at = q.len() as int;
    assert(s.subrange(at, at + 1) =~= ":"@);
    assert(crate::text::stands_at(s, ":"@, at));
}

/// The codec that an option names.
pub open spec fn codec_is(o: OptionsView, name: Seq<char>) -> bool {
    o.get("codec"@) == Some(name)
}

pub proof fn lemma_codecs()
    ensures
        crate::collector::mos::codec_named("g711"@) == Some(Codec::G711),
        crate::collector::mos::codec_named("g711plc"@) == Some(Codec::G711Plc),
        crate::collector::mos::codec_named("g729"@) == Some(Codec::G729),
        crate::collector::mos::codec_named("g722"@) == Some(Codec::G722),
        crate::collector::mos::codec_named("opus"@) == Some(Codec::Opus),
{
    reveal_strlit("g711");
    reveal_strlit("g711plc");
    reveal_strlit("g729");
    reveal_strlit("g722");
    reveal_strlit("opus");
    assert(crate::text::lowered("g711"@) =~= "g711"@);
    assert(crate::text::lowered("g711plc"@) =~= "g711plc"@);
    assert(crate::text::lowered("g729"@) =~= "g729"@);
    assert(crate::text::lowered("g722"@) =~= "g722"@);
    assert(crate::text::lowered("opus"@) =~= "opus"@);
    assert("g711"@.len() == 4 && "g711plc"@.len() == 7);
    assert("g711"@[2] == '1' && "g729"@[2] == '2' && "g722"@[3] == '2' && "g729"@[3] == '9');
    assert("opus"@[0] == 'o' && "g711"@[0] == 'g');
}

/// Each codec is read from its own name, in whatever case, and from no other.
pub proof fn law_codecs_are_named(s: Seq<char>)
    ensures
        ({
            let c = crate::collector::mos::codec_named(s);
            let w = crate::text::lowered(s);
            &&& c == Some(Codec::G711) <==> w == "g711"@
            &&& c == Some(Codec::G711Plc) <==> w == "g711plc"@
            &&& c == Some(Codec::G729) <==> w == "g729"@
            &&& c == Some(Codec::G722) <==> w == "g722"@
            &&& c == Some(Codec::Opus) <==> w == "opus"@
        }),
{
    reveal_strlit("g711");
    reveal_strlit("g711plc");
    reveal_strlit("g729");
    reveal_strlit("g722");
    reveal_strlit("opus");
    assert("g711"@.len() == 4 && "g711plc"@.len() == 7);
    assert("g711"@[2] == '1' && "g729"@[2] == '2' && "g722"@[3] == '2' && "g729"@[3] == '9');
    assert("opus"@[0] == 'o' && "g711"@[0] == 'g' && "g729"@[0] == 'g' && "g722"@[0] == 'g');
}

/// What a probe is told: where to, how many packets of which size at which
/// interval, how long to wait, how to mark and score them. Without an option its
/// default holds; without a peer there is no probe.
pub proof fn law_what_a_probe_is_told(
    args: Seq<Seq<char>>,
    o: OptionsView,
    x: ProbeArgs,
    n: nat,
    a: nat,
    b: nat,
    c: nat,
    d: nat,
    p: u16,
)
    requires
        asks(args, "probe"@, o),
        crate::cli::command_line(args) == Ok::<CommandView, Seq<char>>(CommandView::Probe(x)),
        n <= u32::MAX,
        a < 256,
        b < 256,
        c < 256,
        d < 256,
    ensures
        without(o, "count"@) ==> x.count == 100,
        with(o, "count"@, n) ==> x.count == n,
        without(o, "interval"@) ==> x.interval_ms == 20,
        with(o, "interval"@, n) ==> x.interval_ms == n,
        without(o, "size"@) ==> x.size == 172,
        with(o, "size"@, n) ==> x.size == n,
        without(o, "timeout"@) ==> x.timeout_ms == 1000,
        with(o, "timeout"@, n) ==> x.timeout_ms == n,
        without(o, "session"@) ==> x.session == 1,
        without(o, "dscp"@) ==> x.dscp is None,
        with(o, "dscp"@, n) ==> n <= 63 && x.dscp == Some(n as u8),
        without(o, "codec"@) || codec_is(o, "g711"@) ==> x.codec == Codec::G711,
        codec_is(o, "g711plc"@) ==> x.codec == Codec::G711Plc,
        codec_is(o, "g729"@) ==> x.codec == Codec::G729,
        codec_is(o, "g722"@) ==> x.codec == Codec::G722,
        codec_is(o, "opus"@) ==> x.codec == Codec::Opus,
        x.json == o.flags.contains("json"@),
        !without(o, "peer"@),
        o.get("peer"@) == Some(crate::net_laws::quad(a, b, c, d)) ==> x.peer == (SocketAddr {
            ip: IpAddr::V4((((a * 256 + b) * 256 + c) * 256 + d) as u32),
            port: 5301,
            scope_id: 0,
        }),
        o.get("peer"@) == Some(
            crate::net_laws::quad(a, b, c, d) + seq![':'] + crate::text::decimal(p as nat),
        ) ==> x.peer == (SocketAddr {
            ip: IpAddr::V4((((a * 256 + b) * 256 + c) * 256 + d) as u32),
            port: p,
            scope_id: 0,
        }),
{
    lemma_names();
    lemma_codecs();
    lemma_option(o, "count"@, u32::MAX as nat, 100, n);
    lemma_option(o, "interval"@, u64::MAX as nat, 20, n);
    lemma_option(o, "size"@, usize::MAX as nat, 172, n);
    lemma_option(o, "timeout"@, u64::MAX as nat, 1000, n);
    crate::text::law_decimal_reads_back(n);
    lemma_dscp(n);
    lemma_bare_target(a, b, c, d, "--peer"@, 5301);
    lemma_full_target(a, b, c, d, p, "--peer"@, 5301);
}

proof fn lemma_dscp(n: nat)
    ensures
        n <= 63 ==> crate::cli::optional_dscp(Some(crate::text::decimal(n))) == Ok::<
            Option<u8>,
            Seq<char>,
        >(Some(n as u8)),
        n > 63 ==> crate::cli::optional_dscp(Some(crate::text::decimal(n))) is Err,
{
    crate::text::law_decimal_reads_back(n);
    let s = crate::text::decimal(n);
    assert(crate::text::run_value(s, 10) == Some(n));
}

/// What a TWAMP probe is told, likewise; its port is 862 and its packets are
/// shorter where nothing else is asked for.
pub proof fn law_what_a_twamp_probe_is_told(
    args: Seq<Seq<char>>,
    o: OptionsView,
    x: TwampProbeArgs,
    n: nat,
    a: nat,
    b: nat,
    c: nat,
    d: nat,
)
    requires
        asks(args, "twamp-probe"@, o),
        crate::cli::command_line(args) == Ok::<CommandView, Seq<char>>(CommandView::TwampProbe(x)),
        n <= u32::MAX,
        a < 256,
        b < 256,
        c < 256,
        d < 256,
    ensures
        without(o, "count"@) ==> x.count == 100,
        with(o, "count"@, n) ==> x.count == n,
        without(o, "interval"@) ==> x.interval_ms == 20,
        with(o, "interval"@, n) ==> x.interval_ms == n,
        without(o, "size"@) ==> x.size == 41,
        with(o, "size"@, n) ==> x.size == n,
        without(o, "timeout"@) ==> x.timeout_ms == 1000,
        with(o, "timeout"@, n) ==> x.timeout_ms == n,
        without(o, "dscp"@) ==> x.dscp is None,
        with(o, "dscp"@, n) ==> n <= 63 && x.dscp == Some(n as u8),
        without(o, "codec"@) ==> x.codec == Codec::G711,
        codec_is(o, "opus"@) ==> x.codec == Codec::Opus,
        x.json == o.flags.contains("json"@),
        !without(o, "peer"@),
        o.get("peer"@) == Some(crate::net_laws::quad(a, b, c, d)) ==> x.peer == (SocketAddr {
            ip: IpAddr::V4((((a * 256 + b) * 256 + c) * 256 + d) as u32),
            port: 862,
            scope_id: 0,
        }),
{
    lemma_names();
    lemma_codecs();
    lemma_option(o, "count"@, u32::MAX as nat, 100, n);
    lemma_option(o, "interval"@, u64::MAX as nat, 20, n);
    lemma_option(o, "size"@, usize::MAX as nat, 41, n);
    lemma_option(o, "timeout"@, u64::MAX as nat, 1000, n);
    lemma_dscp(n);
    lemma_bare_target(a, b, c, d, "--peer"@, 862);
}

/// A session is written in hexadecimal, with or without `0x` before it.
pub proof fn law_sessions_are_hexadecimal(n: u64, width: nat)
    requires
        width == 16,
    ensures
        crate::cli::options::session(Some(crate::text::hex(n as nat, width, false))) == Ok::<
            u64,
            Seq<char>,
        >(n),
        crate::cli::options::session(
            Some(seq!['0', 'x'] + crate::text::hex(n as nat, width, false)),
        ) == Ok::<u64, Seq<char>>(n),
{
    reveal_strlit("0x");
    let h = crate::text::hex(n as nat, width, false);
    lemma_hex(n as nat, width);
    assert("0x"@ =~= seq!['0', 'x']);
    lemma_power(16);
    reveal_with_fuel(sixteen_to, 17);
    assert(!crate::text::starts(h, "0x"@)) by {
        if crate::text::starts(h, "0x"@) {
            assert(h.take(2)[1] == 'x');
            assert(crate::text::digit(h[1], 16) is Some);
        }
    }
    let s = seq!['0', 'x'] + h;
    assert(s.take(2) =~= "0x"@);
    assert(s.skip(2) =~= h);
    assert(h[0] != '+') by {
        assert(crate::text::digit(h[0], 16) is Some);
    }
}

/// Sixteen to the power of `k`.
pub open spec fn sixteen_to(k: nat) -> nat
    decreases k,
{
    if k == 0 {
        1
    } else {
        16 * sixteen_to((k - 1) as nat)
    }
}

proof fn lemma_power(k: nat)
    ensures
        sixteen_to(k) > 0,
    decreases k,
{
    if k > 0 {
        lemma_power((k - 1) as nat);
    }
}

pub proof fn lemma_hex(n: nat, width: nat)
    ensures
        crate::text::hex(n, width, false).len() == width,
        forall|i: int|
            0 <= i < width ==> crate::text::digit(
                #[trigger] crate::text::hex(n, width, false)[i],
                16,
            ) is Some,
        n < sixteen_to(width) ==> crate::text::run_value(crate::text::hex(n, width, false), 16)
            == Some(n),
    decreases width,
{
    if width > 0 {
        let w = (width - 1) as nat;
        let rest = crate::text::hex(n / 16, w, false);
        lemma_hex(n / 16, w);
        let h = crate::text::hex(n, width, false);
        let last = crate::text::hex_digit(n % 16, false);
        assert(h == rest.push(last));
        assert(h.drop_last() =~= rest);
        assert(crate::text::digit(last, 16) == Some(n % 16));
        assert forall|i: int| 0 <= i < width implies crate::text::digit(
            #[trigger] h[i],
            16,
        ) is Some by {
            if i < w {
                assert(h[i] == rest[i]);
            }
        }
    }
}

/// Which router a command talks to: the host as given; port 80, or 443 with
/// TLS, where none is given; `admin` and no password where they are not given.
pub proof fn law_which_router_is_asked(
    o: OptionsView,
    missing: Seq<char>,
    r: RouterView,
    n: nat,
    s: Seq<char>,
)
    requires
        crate::cli::router(o, missing) == Ok::<RouterView, Seq<char>>(r),
        n <= u16::MAX,
    ensures
        o.get("host"@) == Some(r.host),
        with(o, "port"@, n) ==> r.port == n,
        without(o, "port"@) && o.flags.contains("tls"@) ==> r.port == 443,
        without(o, "port"@) && !o.flags.contains("tls"@) ==> r.port == 80,
        o.get("user"@) == Some(s) ==> r.user == s,
        without(o, "user"@) ==> r.user == "admin"@,
        o.get("pass"@) == Some(s) ==> r.pass == s,
        without(o, "pass"@) ==> r.pass == Seq::<char>::empty(),
        r.tls == o.flags.contains("tls"@),
        r.json == o.flags.contains("json"@),
{
    reveal_strlit("");
    assert(""@ =~= Seq::<char>::empty());
    lemma_option(o, "port"@, u16::MAX as nat, 443, n);
    lemma_option(o, "port"@, u16::MAX as nat, 80, n);
}

/// What the commands on a router are told besides the router: where to trace to
/// and how often, what to scan and how long, what to capture, how long and how.
pub proof fn law_what_router_commands_are_told(
    args: Seq<Seq<char>>,
    o: OptionsView,
    c: CommandView,
    n: nat,
    s: Seq<char>,
)
    requires
        crate::cli::command_line(args) == Ok::<CommandView, Seq<char>>(c),
        n <= u32::MAX,
    ensures
        asks(args, "trace"@, o) ==> {
            &&& c matches CommandView::Trace { ros, target, count } && crate::cli::router(
                o,
                "--host is required"@,
            ) == Ok::<RouterView, Seq<char>>(ros) && o.get("target"@) == Some(target) && (without(
                o,
                "count"@,
            ) ==> count == 3) && (with(o, "count"@, n) ==> count == n)
        },
        asks(args, "scan"@, o) ==> {
            &&& c matches CommandView::Scan { ros, range, duration_s } && crate::cli::router(
                o,
                "--host is required"@,
            ) == Ok::<RouterView, Seq<char>>(ros) && o.get("range"@) == Some(range) && (without(
                o,
                "duration"@,
            ) ==> duration_s == 10) && (with(o, "duration"@, n) ==> duration_s == n)
        },
        asks(args, "capture"@, o) ==> {
            &&& c matches CommandView::Capture { ros, interface, duration_s, wireless, hop }
                && crate::cli::router(o, "--host is required"@) == Ok::<RouterView, Seq<char>>(ros)
                && (o.get("interface"@) == Some(s) ==> interface == s) && (without(
                o,
                "interface"@,
            ) ==> interface.len() == 0) && (without(o, "duration"@) ==> duration_s == 10) && (with(
                o,
                "duration"@,
                n,
            ) ==> duration_s == n) && wireless == o.flags.contains("wireless"@) && hop
                == o.flags.contains("hop"@)
        },
        asks(args, "discover"@, o) ==> {
            &&& c matches CommandView::Discover(ros) && crate::cli::router(
                o,
                "discover requires --host"@,
            ) == Ok::<RouterView, Seq<char>>(ros)
        },
{
    lemma_names();
    reveal_strlit("");
    lemma_option(o, "count"@, u32::MAX as nat, 3, n);
    lemma_option(o, "duration"@, u32::MAX as nat, 10, n);
    lemma_option(o, "duration"@, u64::MAX as nat, 10, n);
}

/// What a throughput test is told: the far end, the way, the protocol, the time,
/// the credentials there, and the limits; received over TCP for ten seconds
/// where nothing else is asked for.
pub proof fn law_what_a_throughput_test_is_told(
    args: Seq<Seq<char>>,
    o: OptionsView,
    c: CommandView,
    n: nat,
    s: Seq<char>,
)
    requires
        crate::cli::command_line(args) == Ok::<CommandView, Seq<char>>(c),
        asks(args, "btest"@, o),
        n <= u32::MAX,
    ensures
        c is Btest,
        o.get("target"@) == Some(c->Btest_target),
        without(o, "direction"@) ==> c->Btest_direction == Direction::Receive,
        o.get("direction"@) == Some("rx"@) ==> c->Btest_direction == Direction::Receive,
        o.get("direction"@) == Some("tx"@) ==> c->Btest_direction == Direction::Transmit,
        o.get("direction"@) == Some("both"@) ==> c->Btest_direction == Direction::Both,
        without(o, "protocol"@) ==> c->Btest_protocol == Protocol::Tcp,
        o.get("protocol"@) == Some("tcp"@) ==> c->Btest_protocol == Protocol::Tcp,
        o.get("protocol"@) == Some("udp"@) ==> c->Btest_protocol == Protocol::Udp,
        without(o, "duration"@) ==> c->Btest_duration_s == 10,
        with(o, "duration"@, n) ==> c->Btest_duration_s == n,
        o.get("bt-user"@) == Some(s) ==> c->Btest_bt_user == s,
        o.get("bt-pass"@) == Some(s) ==> c->Btest_bt_pass == s,
        without(o, "connections"@) ==> c->Btest_connections is None,
        with(o, "connections"@, n) ==> c->Btest_connections == Some(n as u32),
        without(o, "limit"@) ==> c->Btest_limit_bps is None,
        with(o, "limit"@, n) ==> c->Btest_limit_bps == Some(n as u64),
        crate::cli::router(o, "--host is required"@) == Ok::<RouterView, Seq<char>>(c->Btest_ros),
{
    lemma_names();
    lemma_option(o, "duration"@, u64::MAX as nat, 10, n);
    crate::text::law_decimal_reads_back(n);
    crate::routeros::btest::lemma_words();
}

/// What a reflector is told: its port and session, the one peer it answers, and
/// the TWAMP responder beside it.
pub proof fn law_what_a_reflector_is_told(
    args: Seq<Seq<char>>,
    o: OptionsView,
    c: CommandView,
    n: nat,
    a: nat,
    b: nat,
    d: nat,
    e: nat,
)
    requires
        crate::cli::command_line(args) == Ok::<CommandView, Seq<char>>(c),
        asks(args, "reflect"@, o),
        n <= u16::MAX,
        a < 256,
        b < 256,
        d < 256,
        e < 256,
    ensures
        c is Reflect,
        without(o, "port"@) ==> c->Reflect_port == 5301,
        with(o, "port"@, n) ==> c->Reflect_port == n,
        without(o, "session"@) ==> c->Reflect_session == 1,
        without(o, "peer"@) ==> c->Reflect_peer is None,
        o.get("peer"@) == Some(crate::net_laws::quad(a, b, d, e)) ==> c->Reflect_peer == Some(
            IpAddr::V4((((a * 256 + b) * 256 + d) * 256 + e) as u32),
        ),
        without(o, "twamp-port"@) ==> c->Reflect_twamp is None,
        with(o, "twamp-port"@, n) ==> c->Reflect_twamp == Some(n as u16),
        crate::net::addresses(o.all("twamp-peer"@)) == Ok::<Seq<IpAddr>, Seq<char>>(
            c->Reflect_sources,
        ),
{
    lemma_names();
    lemma_option(o, "port"@, u16::MAX as nat, 5301, n);
    crate::text::law_decimal_reads_back(n);
    crate::net_laws::law_dotted_addresses_read_back(a, b, d, e);
}

/// What a TWAMP responder is told: its port, 862 where none is given, and every
/// source that is permitted.
pub proof fn law_what_a_twamp_responder_is_told(
    args: Seq<Seq<char>>,
    o: OptionsView,
    c: CommandView,
    n: nat,
)
    requires
        crate::cli::command_line(args) == Ok::<CommandView, Seq<char>>(c),
        asks(args, "twamp-reflect"@, o),
        n <= u16::MAX,
    ensures
        c is TwampReflect,
        without(o, "port"@) ==> c->TwampReflect_port == 862,
        with(o, "port"@, n) ==> c->TwampReflect_port == n,
        crate::net::addresses(o.all("peer"@)) == Ok::<Seq<IpAddr>, Seq<char>>(
            c->TwampReflect_peers,
        ),
{
    lemma_names();
    lemma_option(o, "port"@, u16::MAX as nat, 862, n);
}

/// An option with a value, or a flag without one, is taken up wherever it
/// stands; an option without a value and a word that is no option are refused.
pub proof fn law_options_are_taken_up(
    key: Seq<char>,
    value: Seq<char>,
    rest: Seq<Seq<char>>,
    o: OptionsView,
)
    ensures
        ({
            let flag = key == "json"@ || key == "tls"@ || key == "wireless"@ || key == "hop"@;
            let dashed = "--"@ + key;
            &&& !flag ==> crate::cli::options::scan(seq![dashed, value] + rest, o)
                == crate::cli::options::scan(
                rest,
                OptionsView { pairs: o.pairs.push((key, value)), flags: o.flags },
            )
            &&& flag ==> crate::cli::options::scan(seq![dashed] + rest, o)
                == crate::cli::options::scan(
                rest,
                OptionsView { pairs: o.pairs, flags: o.flags.push(key) },
            )
            &&& !flag ==> crate::cli::options::scan(seq![dashed], o) is Err
            &&& !crate::text::starts(value, "--"@) ==> crate::cli::options::scan(
                seq![value] + rest,
                o,
            ) is Err
            &&& crate::cli::options::scan(Seq::empty(), o) == Ok::<OptionsView, Seq<char>>(o)
        }),
{
    reveal_strlit("--");
    let dashed = "--"@ + key;
    assert(dashed.take(2) =~= "--"@);
    assert(dashed.skip(2) =~= key);
    let two = seq![dashed, value] + rest;
    let one = seq![dashed] + rest;
    assert(two[0] == dashed && two[1] == value && one[0] == dashed);
    assert(two.skip(2) =~= rest);
    assert(one.skip(1) =~= rest);
    assert((seq![value] + rest)[0] == value);
}

/// Every value of an option that is given more than once is kept, in order; the
/// one that counts alone is the first.
pub proof fn law_repeated_options(pairs: Seq<(Seq<char>, Seq<char>)>, key: Seq<char>)
    ensures
        ({
            let all = crate::cli::options::every_value(pairs, key);
            &&& all.len() == pairs.filter(|p: (Seq<char>, Seq<char>)| p.0 =~= key).len()
            &&& all.len() > 0 ==> crate::cli::options::first_value(pairs, key) == Some(all[0])
            &&& all.len() == 0 ==> crate::cli::options::first_value(pairs, key) is None
        }),
    decreases pairs.len(),
{
    reveal(Seq::filter);
    if pairs.len() > 0 {
        law_repeated_options(pairs.drop_last(), key);
    }
}

} // verus!
