//! Standalone sub-commands for testing against real hardware.
//!
//! The agent's normal mode needs a controller to grant sessions before the
//! reflector will answer anything. That is correct for production, since an
//! unsolicited-packet responder is a liability, but it makes the data plane
//! impossible to exercise until the whole control plane exists.
//!
//! `reflect` and `probe` short-circuit that: both take an explicit session ID,
//! so a pair of them can measure a real path with no controller involved.
//!
//! Arguments are parsed by hand. The agent ships to devices with 128 MB of
//! flash, and an argument parser is not worth a few hundred kilobytes of the
//! budget.

use vstd::prelude::*;
use vstd::string::StrSliceExecFns;
use vstd::string::StringExecFns;

use crate::cli::options::{
    codec, complaint, num, parse_code_point, parse_session, parse_target, session_id, Options,
    OptionsView,
};
use crate::collector::mos::Codec;
use crate::net::{parse_address_list, parse_addresses, IpAddr, SocketAddr};
use crate::proto::mqp;
use crate::proto::twamp;
use crate::routeros::btest::{Direction, Protocol};
use crate::text::{parse_u16, quote, same, to_ascii_lowercase, trim};

pub mod env_laws;
pub mod figures;
pub mod jobs;
pub mod laws;
pub mod options;
pub mod output_laws;
pub mod show;

verus! {

broadcast use vstd::string::group_string_axioms;

pub const USAGE: &'static str = "\
mqagent — MikroTik network quality agent

USAGE:
    mqagent                        Run as a managed agent (requires MQ_* env vars)
    mqagent reflect [OPTIONS]      Standalone reflector, no controller needed
    mqagent probe   [OPTIONS]      Standalone sender, no controller needed
    mqagent discover [OPTIONS]     Survey the local network via a RouterOS device
    mqagent trace    [OPTIONS]     Traceroute from a RouterOS device, with analysis
    mqagent scan     [OPTIONS]     IP-scan a range from a RouterOS device
    mqagent twamp-reflect [OPTIONS]  TWAMP-Light responder (RouterOS has none)
    mqagent twamp-probe   [OPTIONS]  Measure against any TWAMP-Light responder
    mqagent btest    [OPTIONS]     Throughput test via the router's own hardware
    mqagent capture  [OPTIONS]     Packet or 802.11 capture, to name a talker
    mqagent --help

REFLECT OPTIONS:
    --port <PORT>        MQP listen port                    [default: 5301]
    --session <HEX>      Session ID to accept               [default: 1]
    --peer <IP>          Only accept from this address      [default: any]
    --twamp-port <PORT>  Also answer TWAMP-Light here (separate socket)
    --twamp-peer <IP>    Source permitted to TWAMP; repeatable

PROBE OPTIONS:
    --peer <IP[:PORT]>   Target reflector                   [required]
    --session <HEX>      Session ID, must match the peer    [default: 1]
    --count <N>          Packets to send                    [default: 100]
    --interval <MS>      Gap between packets                [default: 20]
    --size <BYTES>       Total packet size, 56..1400        [default: 172]
    --dscp <0-63>        DSCP to mark, e.g. 46 for EF       [default: none]
    --timeout <MS>       Per-packet reply timeout           [default: 1000]
    --codec <NAME>       g711|g711plc|g729|g722|opus for MOS [default: g711]
    --json               Emit JSON instead of a text report

DISCOVER OPTIONS:
    --host <IP>          RouterOS device to survey             [required]
    --port <PORT>        REST port                  [default: 80, or 443 with --tls]
    --user <NAME>        RouterOS username                     [default: admin]
    --pass <SECRET>      RouterOS password                     [default: empty]
    --tls                Use HTTPS (accepts self-signed certs)
    --json               Emit JSON instead of a report

EXAMPLE — measure the path to a router running `mqagent reflect`:
    mqagent probe --peer 172.16.220.138 --session cafe --count 300 --dscp 46

TRACE OPTIONS:   (plus the RouterOS options above)
    --target <IP>        Where to trace to                     [required]
    --count <N>          Probes per hop                        [default: 3]

SCAN OPTIONS:    (plus the RouterOS options above)
    --range <CIDR|RANGE> What to scan, e.g. 192.168.88.0/24    [required]
    --duration <S>       How long to scan                      [default: 10]

EXAMPLE — find out why a site is slow:
    mqagent discover --host 172.16.220.1 --user admin

TWAMP-REFLECT OPTIONS:
    --port <PORT>        Listen port (862 is the registered one)  [default: 862]
    --peer <IP>          Permit this source; repeatable. Omit to answer anyone,
                         which is safe only behind a restrictive firewall.

TWAMP-PROBE OPTIONS:
    --peer <IP[:PORT]>   Responder to measure                     [required]
    --count <N>          Packets to send                          [default: 100]
    --interval <MS>      Gap between packets                      [default: 20]
    --size <BYTES>       Total packet size, 14..1400              [default: 41]
    --dscp <0-63>        DSCP to mark
    --timeout <MS>       Per-packet reply timeout                 [default: 1000]
    --codec <NAME>       Codec for MOS scoring                    [default: g711]
    --json               Emit JSON instead of a report

EXAMPLE — find where the latency is introduced:
    mqagent trace --host 172.16.220.1 --user admin --target 1.1.1.1

BTEST OPTIONS:   (plus the RouterOS options above)
    --target <IP>        Far end, running /tool/bandwidth-server   [required]
    --direction <DIR>    rx | tx | both                            [default: rx]
    --protocol <PROTO>   tcp | udp                                 [default: tcp]
    --duration <S>       Seconds, capped at 45 by the REST limit   [default: 10]
    --bt-user <NAME>     User on the FAR router, needs `test` policy
    --bt-pass <SECRET>   Its password
    --connections <N>    TCP streams
    --limit <BPS>        Cap the offered rate, to spare a live link

CAPTURE OPTIONS: (plus the RouterOS options above)
    --interface <NAME>   Capture here; omit for all interfaces
    --duration <S>       Seconds, capped at 60                     [default: 10]
    --wireless           Capture 802.11 frames (legacy wireless stack only)
    --hop                Hop channels during a wireless capture — disruptive

EXAMPLE — let a MikroTik answer TWAMP, which RouterOS cannot do itself:
    mqagent twamp-reflect --port 862 --peer 203.0.113.7

EXAMPLE — find which host is flooding a LAN:
    mqagent capture --host 172.16.220.1 --user admin --duration 15
";

#[derive(Debug, PartialEq)]
pub enum Command {
    Agent,
    Help,
    Reflect(ReflectArgs),
    Probe(Box<ProbeArgs>),
    Discover(Box<DiscoverArgs>),
    Trace(Box<TraceArgs>),
    Scan(Box<ScanArgs>),
    TwampReflect(TwampReflectArgs),
    TwampProbe(Box<TwampProbeArgs>),
    Btest(Box<BtestArgs>),
    Capture(Box<CaptureArgs>),
}

#[derive(Debug, PartialEq)]
pub struct BtestArgs {
    pub ros: DiscoverArgs,
    pub target: String,
    pub direction: Direction,
    pub protocol: Protocol,
    pub duration_s: u64,
    pub bt_user: String,
    pub bt_pass: String,
    pub connections: Option<u32>,
    pub limit_bps: Option<u64>,
}

#[derive(Debug, PartialEq)]
pub struct CaptureArgs {
    pub ros: DiscoverArgs,
    pub interface: String,
    pub duration_s: u64,
    /// Capture 802.11 frames instead of IP traffic. Legacy wireless stack only.
    pub wireless: bool,
    /// Hop channels during a wireless capture. Sees neighbours, but leaves our
    /// own channel repeatedly and so interrupts associated clients.
    pub hop: bool,
}

#[derive(Debug, PartialEq)]
pub struct TwampReflectArgs {
    pub port: u16,
    /// Sources permitted to be answered. Empty means answer anyone, which is
    /// only appropriate behind a firewall that already restricts the port.
    pub peers: Vec<IpAddr>,
}

#[derive(Debug, PartialEq)]
pub struct TwampProbeArgs {
    pub peer: SocketAddr,
    pub count: u32,
    pub interval_ms: u64,
    pub size: usize,
    pub dscp: Option<u8>,
    pub timeout_ms: u64,
    pub codec: Codec,
    pub json: bool,
}

#[derive(Debug, PartialEq)]
pub struct TraceArgs {
    pub ros: DiscoverArgs,
    pub target: String,
    pub count: u32,
}

#[derive(Debug, PartialEq)]
pub struct ScanArgs {
    pub ros: DiscoverArgs,
    /// Address range or CIDR, e.g. `192.168.88.0/24`.
    pub range: String,
    pub duration_s: u32,
}

#[derive(Debug, PartialEq)]
pub struct DiscoverArgs {
    pub host: String,
    pub port: u16,
    pub user: String,
    pub pass: String,
    pub tls: bool,
    pub json: bool,
}

#[derive(Debug, PartialEq)]
pub struct ReflectArgs {
    pub port: u16,
    pub session: u64,
    pub peer: Option<IpAddr>,
    /// When set, a TWAMP-Light responder runs alongside the MQP reflector on
    /// this port.
    ///
    /// One container then answers both our own mesh and third parties. They
    /// cannot share a socket: MQP's magic and a TWAMP sequence number can
    /// collide, and a packet matching both would be parsed as whichever was
    /// tried first.
    pub twamp_port: Option<u16>,
    pub twamp_peers: Vec<IpAddr>,
}

#[derive(Debug, PartialEq)]
pub struct ProbeArgs {
    pub peer: SocketAddr,
    pub session: u64,
    pub count: u32,
    pub interval_ms: u64,
    pub size: usize,
    pub dscp: Option<u8>,
    pub timeout_ms: u64,
    pub codec: Codec,
    pub json: bool,
}

/// What a command asks for, with its text and lists as values.
pub enum CommandView {
    Agent,
    Help,
    Reflect { port: u16, session: u64, peer: Option<IpAddr>, twamp: Option<u16>, sources: Seq<IpAddr> },
    Probe(ProbeArgs),
    Discover(RouterView),
    Trace { ros: RouterView, target: Seq<char>, count: u32 },
    Scan { ros: RouterView, range: Seq<char>, duration_s: u32 },
    TwampReflect { port: u16, peers: Seq<IpAddr> },
    TwampProbe(TwampProbeArgs),
    Btest {
        ros: RouterView,
        target: Seq<char>,
        direction: Direction,
        protocol: Protocol,
        duration_s: u64,
        bt_user: Seq<char>,
        bt_pass: Seq<char>,
        connections: Option<u32>,
        limit_bps: Option<u64>,
    },
    Capture { ros: RouterView, interface: Seq<char>, duration_s: u64, wireless: bool, hop: bool },
}

/// The router that a command is to talk to.
pub struct RouterView {
    pub host: Seq<char>,
    pub port: u16,
    pub user: Seq<char>,
    pub pass: Seq<char>,
    pub tls: bool,
    pub json: bool,
}

impl View for DiscoverArgs {
    type V = RouterView;

    open spec fn view(&self) -> RouterView {
        RouterView {
            host: self.host@,
            port: self.port,
            user: self.user@,
            pass: self.pass@,
            tls: self.tls,
            json: self.json,
        }
    }
}

impl View for Command {
    type V = CommandView;

    open spec fn view(&self) -> CommandView {
        match *self {
            Command::Agent => CommandView::Agent,
            Command::Help => CommandView::Help,
            Command::Reflect(a) => CommandView::Reflect {
                port: a.port,
                session: a.session,
                peer: a.peer,
                twamp: a.twamp_port,
                sources: a.twamp_peers@,
            },
            Command::Probe(a) => CommandView::Probe(*a),
            Command::Discover(a) => CommandView::Discover((*a)@),
            Command::Trace(a) => CommandView::Trace {
                ros: a.ros@,
                target: a.target@,
                count: a.count,
            },
            Command::Scan(a) => CommandView::Scan {
                ros: a.ros@,
                range: a.range@,
                duration_s: a.duration_s,
            },
            Command::TwampReflect(a) => CommandView::TwampReflect { port: a.port, peers: a.peers@ },
            Command::TwampProbe(a) => CommandView::TwampProbe(*a),
            Command::Btest(a) => CommandView::Btest {
                ros: a.ros@,
                target: a.target@,
                direction: a.direction,
                protocol: a.protocol,
                duration_s: a.duration_s,
                bt_user: a.bt_user@,
                bt_pass: a.bt_pass@,
                connections: a.connections,
                limit_bps: a.limit_bps,
            },
            Command::Capture(a) => CommandView::Capture {
                ros: a.ros@,
                interface: a.interface@,
                duration_s: a.duration_s,
                wireless: a.wireless,
                hop: a.hop,
            },
        }
    }
}

/// `r` is what `m` says: the same command, or the same complaint.
pub open spec fn comes_to(r: Result<Command, String>, m: Result<CommandView, Seq<char>>) -> bool {
    match (r, m) {
        (Ok(c), Ok(v)) => c@ == v,
        (Err(e), Err(s)) => e@ == s,
        _ => false,
    }
}

// ---------------------------------------------------------------------------
// The command line
// ---------------------------------------------------------------------------

/// The address that an option must give, where it is there.
pub open spec fn optional_address(o: OptionsView, key: Seq<char>, what: Seq<char>) -> Result<
    Option<IpAddr>,
    Seq<char>,
> {
    match o.get(key) {
        None => Ok(None),
        Some(s) => match crate::net::address(s) {
            Some(a) => Ok(Some(a)),
            None => Err("--"@ + key + " "@ + crate::text::quoted(s) + what),
        },
    }
}

/// `--port`, `--session`, `--peer` and the TWAMP responder of a reflector.
pub open spec fn reflect_command(o: OptionsView) -> Result<CommandView, Seq<char>> {
    match options::number(o.get("port"@), u16::MAX as nat, 5301, "port"@) {
        Err(e) => Err(e),
        Ok(port) => match options::session(o.get("session"@)) {
            Err(e) => Err(e),
            Ok(session) => match optional_address(o, "peer"@, " is not an IP"@) {
                Err(e) => Err(e),
                Ok(peer) => match responder_port(o.get("twamp-port"@)) {
                    Err(e) => Err(e),
                    Ok(twamp) => match crate::net::addresses(o.all("twamp-peer"@)) {
                        Err(bad) => Err(
                            "--twamp-peer"@ + " "@ + crate::text::quoted(bad) + " is not an IP"@,
                        ),
                        Ok(sources) => Ok(
                            CommandView::Reflect { port: port as u16, session, peer, twamp, sources },
                        ),
                    },
                },
            },
        },
    }
}

pub open spec fn responder_port(v: Option<Seq<char>>) -> Result<Option<u16>, Seq<char>> {
    match v {
        None => Ok(None),
        Some(s) => match crate::text::unsigned(s, 10, u16::MAX as nat) {
            Some(n) => Ok(Some(n as u16)),
            None => Err("--twamp-port"@ + " "@ + crate::text::quoted(s) + " is not a port"@),
        },
    }
}

/// The DSCP that `--dscp` gives, where it is there.
pub open spec fn optional_dscp(v: Option<Seq<char>>) -> Result<Option<u8>, Seq<char>> {
    match v {
        None => Ok(None),
        Some(s) => match options::code_point("--dscp"@, s, s) {
            Ok(d) => Ok(Some(d)),
            Err(e) => Err(e),
        },
    }
}

/// How the packets of a run are sent and scored: count, interval, size, timeout
/// and codec.
pub open spec fn pace(o: OptionsView, size: nat) -> Result<(u32, u64, usize, u64, Codec), Seq<char>> {
    match options::number(o.get("count"@), u32::MAX as nat, 100, "count"@) {
        Err(e) => Err(e),
        Ok(count) => match options::number(o.get("interval"@), u64::MAX as nat, 20, "interval"@) {
            Err(e) => Err(e),
            Ok(interval) => match options::number(
                o.get("size"@),
                usize::MAX as nat,
                size,
                "size"@,
            ) {
                Err(e) => Err(e),
                Ok(bytes) => match options::number(
                    o.get("timeout"@),
                    u64::MAX as nat,
                    1000,
                    "timeout"@,
                ) {
                    Err(e) => Err(e),
                    Ok(timeout) => match options::chosen_codec(o.get("codec"@)) {
                        Err(e) => Err(e),
                        Ok(codec) => Ok(
                            (count as u32, interval as u64, bytes as usize, timeout as u64, codec),
                        ),
                    },
                },
            },
        },
    }
}

pub open spec fn probe_command(o: OptionsView) -> Result<CommandView, Seq<char>> {
    match o.get("peer"@) {
        None => Err("probe requires --peer"@),
        Some(text) => match options::target("--peer"@, text, 5301) {
            Err(e) => Err(e),
            Ok(peer) => match optional_dscp(o.get("dscp"@)) {
                Err(e) => Err(e),
                Ok(dscp) => match options::session(o.get("session"@)) {
                    Err(e) => Err(e),
                    Ok(session) => match pace(o, mqp::DEFAULT_PACKET_LEN as nat) {
                        Err(e) => Err(e),
                        Ok(p) => Ok(
                            CommandView::Probe(
                                ProbeArgs {
                                    peer,
                                    session,
                                    count: p.0,
                                    interval_ms: p.1,
                                    size: p.2,
                                    dscp,
                                    timeout_ms: p.3,
                                    codec: p.4,
                                    json: o.has("json"@),
                                },
                            ),
                        ),
                    },
                },
            },
        },
    }
}

pub open spec fn twamp_reflect_command(o: OptionsView) -> Result<CommandView, Seq<char>> {
    match options::number(o.get("port"@), u16::MAX as nat, 862, "port"@) {
        Err(e) => Err(e),
        Ok(port) => match crate::net::addresses(o.all("peer"@)) {
            Err(bad) => Err("--peer"@ + " "@ + crate::text::quoted(bad) + " is not an IP address"@),
            Ok(peers) => Ok(CommandView::TwampReflect { port: port as u16, peers }),
        },
    }
}

/// 862 is the registered TWAMP port; a bare address means that.
pub open spec fn twamp_probe_command(o: OptionsView) -> Result<CommandView, Seq<char>> {
    match o.get("peer"@) {
        None => Err("twamp-probe requires --peer"@),
        Some(text) => match options::target("--peer"@, text, 862) {
            Err(e) => Err(e),
            Ok(peer) => match optional_dscp(o.get("dscp"@)) {
                Err(e) => Err(e),
                Ok(dscp) => match pace(o, twamp::DEFAULT_PACKET_LEN as nat) {
                    Err(e) => Err(e),
                    Ok(p) => Ok(
                        CommandView::TwampProbe(
                            TwampProbeArgs {
                                peer,
                                count: p.0,
                                interval_ms: p.1,
                                size: p.2,
                                dscp,
                                timeout_ms: p.3,
                                codec: p.4,
                                json: o.has("json"@),
                            },
                        ),
                    ),
                },
            },
        },
    }
}

/// The router that the options name. `missing` is the complaint where they name
/// no host. A blank password is normal on lab and factory-default routers, so
/// an absent `--pass` means empty, not an error.
pub open spec fn router(o: OptionsView, missing: Seq<char>) -> Result<RouterView, Seq<char>> {
    match o.get("host"@) {
        None => Err(missing),
        Some(host) => match options::number(
            o.get("port"@),
            u16::MAX as nat,
            if o.has("tls"@) {
                443
            } else {
                80
            },
            "port"@,
        ) {
            Err(e) => Err(e),
            Ok(port) => Ok(
                RouterView {
                    host,
                    port: port as u16,
                    user: o.get_or("user"@, "admin"@),
                    pass: o.get_or("pass"@, ""@),
                    tls: o.has("tls"@),
                    json: o.has("json"@),
                },
            ),
        },
    }
}

pub open spec fn discover_command(o: OptionsView) -> Result<CommandView, Seq<char>> {
    match router(o, "discover requires --host"@) {
        Err(e) => Err(e),
        Ok(r) => Ok(CommandView::Discover(r)),
    }
}

pub open spec fn trace_command(o: OptionsView) -> Result<CommandView, Seq<char>> {
    match router(o, "--host is required"@) {
        Err(e) => Err(e),
        Ok(ros) => match o.get("target"@) {
            None => Err("trace requires --target"@),
            Some(target) => match options::number(o.get("count"@), u32::MAX as nat, 3, "count"@) {
                Err(e) => Err(e),
                Ok(count) => Ok(CommandView::Trace { ros, target, count: count as u32 }),
            },
        },
    }
}

pub open spec fn scan_command(o: OptionsView) -> Result<CommandView, Seq<char>> {
    match router(o, "--host is required"@) {
        Err(e) => Err(e),
        Ok(ros) => match o.get("range"@) {
            None => Err("scan requires --range"@),
            Some(range) => match options::number(
                o.get("duration"@),
                u32::MAX as nat,
                10,
                "duration"@,
            ) {
                Err(e) => Err(e),
                Ok(d) => Ok(CommandView::Scan { ros, range, duration_s: d as u32 }),
            },
        },
    }
}

pub open spec fn capture_command(o: OptionsView) -> Result<CommandView, Seq<char>> {
    match router(o, "--host is required"@) {
        Err(e) => Err(e),
        Ok(ros) => match options::number(o.get("duration"@), u64::MAX as nat, 10, "duration"@) {
            Err(e) => Err(e),
            Ok(d) => Ok(
                CommandView::Capture {
                    ros,
                    interface: o.get_or("interface"@, ""@),
                    duration_s: d as u64,
                    wireless: o.has("wireless"@),
                    hop: o.has("hop"@),
                },
            ),
        },
    }
}

/// An optional number; `complaint` where it is none.
pub open spec fn optional_number(v: Option<Seq<char>>, max: nat, complaint: Seq<char>) -> Result<
    Option<nat>,
    Seq<char>,
> {
    match v {
        None => Ok(None),
        Some(s) => match crate::text::unsigned(s, 10, max) {
            Some(n) => Ok(Some(n)),
            None => Err(complaint),
        },
    }
}

pub open spec fn btest_command(o: OptionsView) -> Result<CommandView, Seq<char>> {
    match router(o, "--host is required"@) {
        Err(e) => Err(e),
        Ok(ros) => match o.get("target"@) {
            None => Err("btest requires --target"@),
            Some(target) => match crate::routeros::btest::direction_named(
                o.get_or("direction"@, "rx"@),
            ) {
                None => Err("--direction must be rx, tx or both"@),
                Some(direction) => match crate::routeros::btest::protocol_named(
                    o.get_or("protocol"@, "tcp"@),
                ) {
                    None => Err("--protocol must be tcp or udp"@),
                    Some(protocol) => match options::number(
                        o.get("duration"@),
                        u64::MAX as nat,
                        10,
                        "duration"@,
                    ) {
                        Err(e) => Err(e),
                        Ok(d) => match optional_number(
                            o.get("connections"@),
                            u32::MAX as nat,
                            "--connections is not a number"@,
                        ) {
                            Err(e) => Err(e),
                            Ok(streams) => match optional_number(
                                o.get("limit"@),
                                u64::MAX as nat,
                                "--limit is not a number"@,
                            ) {
                                Err(e) => Err(e),
                                Ok(cap) => Ok(
                                    CommandView::Btest {
                                        ros,
                                        target,
                                        direction,
                                        protocol,
                                        duration_s: d as u64,
                                        bt_user: o.get_or("bt-user"@, ""@),
                                        bt_pass: o.get_or("bt-pass"@, ""@),
                                        connections: match streams {
                                            Some(n) => Some(n as u32),
                                            None => None,
                                        },
                                        limit_bps: match cap {
                                            Some(n) => Some(n as u64),
                                            None => None,
                                        },
                                    },
                                ),
                            },
                        },
                    },
                },
            },
        },
    }
}

/// The command that the options belong to.
pub open spec fn dispatch(sub: Seq<char>, o: OptionsView) -> Result<CommandView, Seq<char>> {
    if sub == "reflect"@ {
        reflect_command(o)
    } else if sub == "probe"@ {
        probe_command(o)
    } else if sub == "twamp-reflect"@ {
        twamp_reflect_command(o)
    } else if sub == "twamp-probe"@ {
        twamp_probe_command(o)
    } else if sub == "btest"@ {
        btest_command(o)
    } else if sub == "capture"@ {
        capture_command(o)
    } else if sub == "trace"@ {
        trace_command(o)
    } else if sub == "scan"@ {
        scan_command(o)
    } else if sub == "discover"@ {
        discover_command(o)
    } else {
        Err("unknown command "@ + crate::text::quoted(sub) + " — try --help"@)
    }
}

/// What a command line asks for. The first argument is the program's own name.
pub open spec fn command_line(args: Seq<Seq<char>>) -> Result<CommandView, Seq<char>> {
    if args.len() < 2 {
        Ok(CommandView::Agent)
    } else if args[1] == "--help"@ || args[1] == "-h"@ || args[1] == "help"@ {
        Ok(CommandView::Help)
    } else {
        match options::scan(args.skip(2), options::no_options()) {
            Err(e) => Err(e),
            Ok(o) => dispatch(args[1], o),
        }
    }
}

pub fn parse(args: Vec<String>) -> (r: Result<Command, String>)
    ensures
        comes_to(r, command_line(crate::text::views(args@))),
{
    if args.len() < 2 {
        return Ok(Command::Agent);
    }
    proof {
        assert(crate::text::views(args@)[1] == args@[1]@);
    }
    let sub = args[1].as_str();
    if same(sub, "--help") || same(sub, "-h") || same(sub, "help") {
        return Ok(Command::Help);
    }
    let o = match Options::collect(&args, 2) {
        Ok(o) => o,
        Err(e) => return Err(e),
    };
    if same(sub, "reflect") {
        parse_reflect(&o)
    } else if same(sub, "probe") {
        parse_probe(&o)
    } else if same(sub, "twamp-reflect") {
        parse_twamp_reflect(&o)
    } else if same(sub, "twamp-probe") {
        parse_twamp_probe(&o)
    } else if same(sub, "btest") {
        parse_btest(&o)
    } else if same(sub, "capture") {
        parse_capture(&o)
    } else if same(sub, "trace") {
        parse_trace(&o)
    } else if same(sub, "scan") {
        parse_scan(&o)
    } else if same(sub, "discover") {
        match ros_args(&o, "discover requires --host") {
            Ok(a) => Ok(Command::Discover(Box::new(a))),
            Err(e) => Err(e),
        }
    } else {
        let mut t = "unknown command ".to_owned();
        let q = quote(sub);
        t.append(q.as_str());
        t.append(" — try --help");
        Err(t)
    }
}

fn parse_reflect(o: &Options) -> (r: Result<Command, String>)
    ensures
        comes_to(r, reflect_command(o@)),
{
    let port: u64 = match num(o.get("port"), 65535, 5301, "port") {
        Ok(n) => n,
        Err(e) => return Err(e),
    };
    let session: u64 = match session_id(o.get("session")) {
        Ok(n) => n,
        Err(e) => return Err(e),
    };
    let peer = match o.get("peer") {
        Some(p) => match IpAddr::parse(p) {
            Some(a) => Some(a),
            None => {
                proof {
                    reveal_strlit("--");
                    reveal_strlit("peer");
                    reveal_strlit("--peer");
                    assert("--peer"@ =~= "--"@ + "peer"@);
                }
                return Err(complaint("--peer", p, " is not an IP"));
            },
        },
        None => None,
    };
    let twamp_port = match o.get("twamp-port") {
        Some(v) => match parse_u16(v) {
            Some(n) => Some(n),
            None => return Err(complaint("--twamp-port", v, " is not a port")),
        },
        None => None,
    };
    match parse_addresses(&o.all("twamp-peer")) {
        Ok(twamp_peers) => Ok(
            Command::Reflect(
                ReflectArgs { port: port as u16, session, peer, twamp_port, twamp_peers },
            ),
        ),
        Err(bad) => Err(complaint("--twamp-peer", bad.as_str(), " is not an IP")),
    }
}

fn read_dscp(v: Option<&str>) -> (r: Result<Option<u8>, String>)
    ensures
        match optional_dscp(options::told(v)) {
            Ok(d) => r matches Ok(x) && x == d,
            Err(e) => options::says(r, e),
        },
{
    match v {
        None => Ok(None),
        Some(s) => match parse_code_point("--dscp", s, s) {
            Ok(d) => Ok(Some(d)),
            Err(e) => Err(e),
        },
    }
}

fn read_pace(o: &Options, size: usize) -> (r: Result<(u32, u64, usize, u64, Codec), String>)
    ensures
        match pace(o@, size as nat) {
            Ok(p) => r matches Ok(x) && x == p,
            Err(e) => options::says(r, e),
        },
{
    let count: u64 = match num(o.get("count"), u32::MAX as u64, 100, "count") {
        Ok(n) => n,
        Err(e) => return Err(e),
    };
    let interval: u64 = match num(o.get("interval"), u64::MAX, 20, "interval") {
        Ok(n) => n,
        Err(e) => return Err(e),
    };
    let bytes: u64 = match num(o.get("size"), usize::MAX as u64, size as u64, "size") {
        Ok(n) => n,
        Err(e) => return Err(e),
    };
    let timeout: u64 = match num(o.get("timeout"), u64::MAX, 1000, "timeout") {
        Ok(n) => n,
        Err(e) => return Err(e),
    };
    match codec(o.get("codec")) {
        Ok(c) => Ok((count as u32, interval, bytes as usize, timeout, c)),
        Err(e) => Err(e),
    }
}

fn parse_probe(o: &Options) -> (r: Result<Command, String>)
    ensures
        comes_to(r, probe_command(o@)),
{
    let text = match o.get("peer") {
        Some(p) => p,
        None => return Err("probe requires --peer".to_owned()),
    };
    let peer = match parse_target("--peer", text, 5301) {
        Ok(a) => a,
        Err(e) => return Err(e),
    };
    let dscp = match read_dscp(o.get("dscp")) {
        Ok(d) => d,
        Err(e) => return Err(e),
    };
    let session: u64 = match session_id(o.get("session")) {
        Ok(n) => n,
        Err(e) => return Err(e),
    };
    match read_pace(o, mqp::DEFAULT_PACKET_LEN) {
        Ok(p) => Ok(
            Command::Probe(
                Box::new(
                    ProbeArgs {
                        peer,
                        session,
                        count: p.0,
                        interval_ms: p.1,
                        size: p.2,
                        dscp,
                        timeout_ms: p.3,
                        codec: p.4,
                        json: o.has("json"),
                    },
                ),
            ),
        ),
        Err(e) => Err(e),
    }
}

fn parse_twamp_reflect(o: &Options) -> (r: Result<Command, String>)
    ensures
        comes_to(r, twamp_reflect_command(o@)),
{
    let port: u64 = match num(o.get("port"), 65535, 862, "port") {
        Ok(n) => n,
        Err(e) => return Err(e),
    };
    match parse_addresses(&o.all("peer")) {
        Ok(peers) => Ok(Command::TwampReflect(TwampReflectArgs { port: port as u16, peers })),
        Err(bad) => Err(complaint("--peer", bad.as_str(), " is not an IP address")),
    }
}

fn parse_twamp_probe(o: &Options) -> (r: Result<Command, String>)
    ensures
        comes_to(r, twamp_probe_command(o@)),
{
    let text = match o.get("peer") {
        Some(p) => p,
        None => return Err("twamp-probe requires --peer".to_owned()),
    };
    let peer = match parse_target("--peer", text, 862) {
        Ok(a) => a,
        Err(e) => return Err(e),
    };
    let dscp = match read_dscp(o.get("dscp")) {
        Ok(d) => d,
        Err(e) => return Err(e),
    };
    match read_pace(o, twamp::DEFAULT_PACKET_LEN) {
        Ok(p) => Ok(
            Command::TwampProbe(
                Box::new(
                    TwampProbeArgs {
                        peer,
                        count: p.0,
                        interval_ms: p.1,
                        size: p.2,
                        dscp,
                        timeout_ms: p.3,
                        codec: p.4,
                        json: o.has("json"),
                    },
                ),
            ),
        ),
        Err(e) => Err(e),
    }
}

/// Shared RouterOS connection options.
fn ros_args(o: &Options, missing: &str) -> (r: Result<DiscoverArgs, String>)
    ensures
        match router(o@, missing@) {
            Ok(v) => r matches Ok(x) && x@ == v,
            Err(e) => options::says(r, e),
        },
{
    let host = match o.get("host") {
        Some(h) => h.to_owned(),
        None => return Err(missing.to_owned()),
    };
    let tls = o.has("tls");
    let default: u64 = if tls {
        443
    } else {
        80
    };
    match num(o.get("port"), 65535, default, "port") {
        Ok(port) => Ok(
            DiscoverArgs {
                host,
                port: port as u16,
                user: o.get_or("user", "admin"),
                pass: o.get_or("pass", ""),
                tls,
                json: o.has("json"),
            },
        ),
        Err(e) => Err(e),
    }
}

fn parse_trace(o: &Options) -> (r: Result<Command, String>)
    ensures
        comes_to(r, trace_command(o@)),
{
    let ros = match ros_args(o, "--host is required") {
        Ok(a) => a,
        Err(e) => return Err(e),
    };
    let target = match o.get("target") {
        Some(t) => t.to_owned(),
        None => return Err("trace requires --target".to_owned()),
    };
    match num(o.get("count"), u32::MAX as u64, 3, "count") {
        Ok(count) => Ok(Command::Trace(Box::new(TraceArgs { ros, target, count: count as u32 }))),
        Err(e) => Err(e),
    }
}

fn parse_scan(o: &Options) -> (r: Result<Command, String>)
    ensures
        comes_to(r, scan_command(o@)),
{
    let ros = match ros_args(o, "--host is required") {
        Ok(a) => a,
        Err(e) => return Err(e),
    };
    let range = match o.get("range") {
        Some(t) => t.to_owned(),
        None => return Err("scan requires --range".to_owned()),
    };
    match num(o.get("duration"), u32::MAX as u64, 10, "duration") {
        Ok(d) => Ok(Command::Scan(Box::new(ScanArgs { ros, range, duration_s: d as u32 }))),
        Err(e) => Err(e),
    }
}

fn parse_capture(o: &Options) -> (r: Result<Command, String>)
    ensures
        comes_to(r, capture_command(o@)),
{
    let ros = match ros_args(o, "--host is required") {
        Ok(a) => a,
        Err(e) => return Err(e),
    };
    match num(o.get("duration"), u64::MAX, 10, "duration") {
        Ok(d) => Ok(
            Command::Capture(
                Box::new(
                    CaptureArgs {
                        ros,
                        interface: o.get_or("interface", ""),
                        duration_s: d,
                        wireless: o.has("wireless"),
                        hop: o.has("hop"),
                    },
                ),
            ),
        ),
        Err(e) => Err(e),
    }
}

fn read_number(v: Option<&str>, max: u64, complaint: &str) -> (r: Result<Option<u64>, String>)
    ensures
        match optional_number(options::told(v), max as nat, complaint@) {
            Ok(None) => r matches Ok(None),
            Ok(Some(n)) => r matches Ok(Some(x)) && x == n && x <= max,
            Err(e) => options::says(r, e),
        },
{
    match v {
        None => Ok(None),
        Some(s) => match crate::text::parse_radix(s, 10, max) {
            Some(n) => Ok(Some(n)),
            None => Err(complaint.to_owned()),
        },
    }
}

fn parse_btest(o: &Options) -> (r: Result<Command, String>)
    ensures
        comes_to(r, btest_command(o@)),
{
    let ros = match ros_args(o, "--host is required") {
        Ok(a) => a,
        Err(e) => return Err(e),
    };
    let target = match o.get("target") {
        Some(t) => t.to_owned(),
        None => return Err("btest requires --target".to_owned()),
    };
    let direction = match Direction::parse(o.get_or("direction", "rx").as_str()) {
        Some(d) => d,
        None => return Err("--direction must be rx, tx or both".to_owned()),
    };
    let protocol = match Protocol::parse(o.get_or("protocol", "tcp").as_str()) {
        Some(p) => p,
        None => return Err("--protocol must be tcp or udp".to_owned()),
    };
    let duration_s: u64 = match num(o.get("duration"), u64::MAX, 10, "duration") {
        Ok(n) => n,
        Err(e) => return Err(e),
    };
    let connections = match read_number(
        o.get("connections"),
        u32::MAX as u64,
        "--connections is not a number",
    ) {
        Ok(Some(n)) => Some(n as u32),
        Ok(None) => None,
        Err(e) => return Err(e),
    };
    let limit_bps = match read_number(o.get("limit"), u64::MAX, "--limit is not a number") {
        Ok(n) => n,
        Err(e) => return Err(e),
    };
    Ok(
        Command::Btest(
            Box::new(
                BtestArgs {
                    ros,
                    target,
                    direction,
                    protocol,
                    duration_s,
                    bt_user: o.get_or("bt-user", ""),
                    bt_pass: o.get_or("bt-pass", ""),
                    connections,
                    limit_bps,
                },
            ),
        ),
    )
}

// ---------------------------------------------------------------------------
// The environment
// ---------------------------------------------------------------------------

/// The environment variables that pick and tune a standalone mode, as they
/// stand.
#[derive(Debug, Clone, PartialEq, Eq)]
pub struct ModeVariables {
    /// `MQ_SESSION`
    pub session: Option<String>,
    /// `MQ_PROBE_PORT`
    pub probe_port: Option<String>,
    /// `MQ_DSCP`
    pub dscp: Option<String>,
    /// `MQ_PEER_IP`
    pub peer_ip: Option<String>,
    /// `MQ_TWAMP_PORT`
    pub twamp_port: Option<String>,
    /// `MQ_TWAMP_PEERS`
    pub twamp_peers: Option<String>,
    /// `MQ_PEER`
    pub peer: Option<String>,
    /// `MQ_COUNT`
    pub count: Option<String>,
    /// `MQ_INTERVAL_MS`
    pub interval_ms: Option<String>,
    /// `MQ_SIZE`
    pub size: Option<String>,
    /// `MQ_TIMEOUT_MS`
    pub timeout_ms: Option<String>,
    /// `MQ_CODEC`
    pub codec: Option<String>,
    /// `MQ_JSON`
    pub json: Option<String>,
}

/// Each of `v` is what `get` gave for its name.
pub open spec fn looked_up<F: Fn(&str) -> Option<String>>(get: F, v: ModeVariables) -> bool {
    &&& call_ensures(get, ("MQ_SESSION",), v.session)
    &&& call_ensures(get, ("MQ_PROBE_PORT",), v.probe_port)
    &&& call_ensures(get, ("MQ_DSCP",), v.dscp)
    &&& call_ensures(get, ("MQ_PEER_IP",), v.peer_ip)
    &&& call_ensures(get, ("MQ_TWAMP_PORT",), v.twamp_port)
    &&& call_ensures(get, ("MQ_TWAMP_PEERS",), v.twamp_peers)
    &&& call_ensures(get, ("MQ_PEER",), v.peer)
    &&& call_ensures(get, ("MQ_COUNT",), v.count)
    &&& call_ensures(get, ("MQ_INTERVAL_MS",), v.interval_ms)
    &&& call_ensures(get, ("MQ_SIZE",), v.size)
    &&& call_ensures(get, ("MQ_TIMEOUT_MS",), v.timeout_ms)
    &&& call_ensures(get, ("MQ_CODEC",), v.codec)
    &&& call_ensures(get, ("MQ_JSON",), v.json)
}

/// The session of a variable, white space around it aside.
pub open spec fn env_session(v: Option<String>) -> Result<u64, Seq<char>> {
    match v {
        None => Ok(1),
        Some(s) => match options::hex_session(crate::text::trimmed(s@)) {
            Some(n) => Ok(n as u64),
            None => Err("MQ_SESSION"@ + " "@ + crate::text::quoted(s@) + " is not hexadecimal"@),
        },
    }
}

pub open spec fn env_dscp(v: Option<String>) -> Result<Option<u8>, Seq<char>> {
    match crate::config::given(v) {
        None => Ok(None),
        Some(s) => match options::code_point("MQ_DSCP"@, s, crate::text::trimmed(s)) {
            Ok(d) => Ok(Some(d)),
            Err(e) => Err(e),
        },
    }
}

pub open spec fn env_peer(v: Option<String>) -> Result<Option<IpAddr>, Seq<char>> {
    match crate::config::given(v) {
        None => Ok(None),
        Some(s) => match crate::net::address(crate::text::trimmed(s)) {
            Some(a) => Ok(Some(a)),
            None => Err("MQ_PEER_IP"@ + " "@ + crate::text::quoted(s) + " is not an IP"@),
        },
    }
}

pub open spec fn env_responder(v: Option<String>) -> Result<Option<u16>, Seq<char>> {
    match crate::config::given(v) {
        None => Ok(None),
        Some(s) => match crate::text::unsigned(crate::text::trimmed(s), 10, u16::MAX as nat) {
            Some(n) => Ok(Some(n as u16)),
            None => Err("MQ_TWAMP_PORT"@ + " "@ + crate::text::quoted(s) + " is not a port"@),
        },
    }
}

/// The comma-separated TWAMP allow-list.
pub open spec fn env_sources(v: Option<String>) -> Result<Seq<IpAddr>, Seq<char>> {
    match crate::net::address_list(crate::text::seen(v)) {
        Ok(a) => Ok(a),
        Err(bad) => Err("MQ_TWAMP_PEERS entry"@ + " "@ + crate::text::quoted(bad) + " is not an IP"@),
    }
}

pub open spec fn env_port(v: Option<String>) -> Result<nat, Seq<char>> {
    options::number(crate::text::seen(v), u16::MAX as nat, 5301, "MQ_PROBE_PORT"@)
}

/// Setting `MQ_TWAMP_PORT` alongside reflect mode is how one container comes to
/// answer both protocols on a router.
pub open spec fn env_reflect(v: ModeVariables) -> Result<CommandView, Seq<char>> {
    match env_port(v.probe_port) {
        Err(e) => Err(e),
        Ok(port) => match env_session(v.session) {
            Err(e) => Err(e),
            Ok(session) => match env_peer(v.peer_ip) {
                Err(e) => Err(e),
                Ok(peer) => match env_responder(v.twamp_port) {
                    Err(e) => Err(e),
                    Ok(twamp) => match env_sources(v.twamp_peers) {
                        Err(e) => Err(e),
                        Ok(sources) => Ok(
                            CommandView::Reflect { port: port as u16, session, peer, twamp, sources },
                        ),
                    },
                },
            },
        },
    }
}

/// The target of a probe. A bare address gets the probe port.
pub open spec fn env_target(v: ModeVariables) -> Result<SocketAddr, Seq<char>> {
    match v.peer {
        None => Err("MQ_MODE=probe requires MQ_PEER"@),
        Some(p) => {
            let text = crate::text::trimmed(p@);
            if crate::text::has(text, ":"@) {
                options::target("MQ_PEER"@, text, 0)
            } else {
                match env_port(v.probe_port) {
                    Err(e) => Err(e),
                    Ok(port) => options::target("MQ_PEER"@, text, port),
                }
            }
        },
    }
}

/// A word for yes, as it stands but for white space around it.
pub open spec fn is_yes(v: Option<String>) -> bool {
    match v {
        Some(s) => {
            let w = crate::text::trimmed(s@);
            w == "1"@ || w == "true"@ || w == "yes"@ || w == "on"@
        },
        None => false,
    }
}

pub open spec fn env_probe(v: ModeVariables) -> Result<CommandView, Seq<char>> {
    match env_target(v) {
        Err(e) => Err(e),
        Ok(peer) => match env_session(v.session) {
            Err(e) => Err(e),
            Ok(session) => match options::number(
                crate::text::seen(v.count),
                u32::MAX as nat,
                100,
                "MQ_COUNT"@,
            ) {
                Err(e) => Err(e),
                Ok(count) => match options::number(
                    crate::text::seen(v.interval_ms),
                    u64::MAX as nat,
                    20,
                    "MQ_INTERVAL_MS"@,
                ) {
                    Err(e) => Err(e),
                    Ok(interval) => match options::number(
                        crate::text::seen(v.size),
                        usize::MAX as nat,
                        mqp::DEFAULT_PACKET_LEN as nat,
                        "MQ_SIZE"@,
                    ) {
                        Err(e) => Err(e),
                        Ok(size) => match env_dscp(v.dscp) {
                            Err(e) => Err(e),
                            Ok(dscp) => match options::number(
                                crate::text::seen(v.timeout_ms),
                                u64::MAX as nat,
                                1000,
                                "MQ_TIMEOUT_MS"@,
                            ) {
                                Err(e) => Err(e),
                                Ok(timeout) => match options::chosen_codec(
                                    crate::text::seen(v.codec),
                                ) {
                                    Err(e) => Err(e),
                                    Ok(codec) => Ok(
                                        CommandView::Probe(
                                            ProbeArgs {
                                                peer,
                                                session,
                                                count: count as u32,
                                                interval_ms: interval as u64,
                                                size: size as usize,
                                                dscp,
                                                timeout_ms: timeout as u64,
                                                codec,
                                                json: is_yes(v.json),
                                            },
                                        ),
                                    ),
                                },
                            },
                        },
                    },
                },
            },
        },
    }
}

pub open spec fn env_twamp_reflect(v: ModeVariables) -> Result<CommandView, Seq<char>> {
    match options::number(crate::text::seen(v.twamp_port), u16::MAX as nat, 862, "MQ_TWAMP_PORT"@) {
        Err(e) => Err(e),
        Ok(port) => match env_sources(v.twamp_peers) {
            Err(e) => Err(e),
            Ok(peers) => Ok(CommandView::TwampReflect { port: port as u16, peers }),
        },
    }
}

/// What a mode asks for, white space and case aside. RouterOS does not forward
/// a container's command into its arguments, so every mode that might run on a
/// router has to be reachable from the environment.
pub open spec fn env_command(mode: Seq<char>, v: ModeVariables) -> Result<CommandView, Seq<char>> {
    let m = crate::text::lowered(crate::text::trimmed(mode));
    if m == "agent"@ {
        Ok(CommandView::Agent)
    } else if m == "reflect"@ {
        env_reflect(v)
    } else if m == "probe"@ {
        env_probe(v)
    } else if m == "twamp-reflect"@ {
        env_twamp_reflect(v)
    } else {
        Err(
            "MQ_MODE "@ + crate::text::quoted(m)
                + " is not one of: agent, reflect, probe, twamp-reflect"@,
        )
    }
}

/// Build a standalone command from environment variables.
///
/// RouterOS parameterises containers through `/container/envs` envlists and
/// does not reliably forward the `cmd` property into the container's arguments:
/// a container created with `cmd="reflect --session cafe"` starts with none and
/// silently falls through to managed mode. Environment variables are the native
/// and dependable mechanism on that platform, so the standalone modes accept
/// them too.
///
/// Returns `None` when `MQ_MODE` is not set.
pub fn from_env<F>(get: F) -> (r: Option<Result<Command, String>>) where
    F: Fn(&str) -> Option<String>,

    requires
        forall|name: &str| call_requires(get, (name,)),
    ensures
        match r {
            None => call_ensures(get, ("MQ_MODE",), None),
            Some(c) => exists|mode: String, v: ModeVariables|
                call_ensures(get, ("MQ_MODE",), Some(mode)) && #[trigger] looked_up(get, v)
                    && comes_to(c, #[trigger] env_command(mode@, v)),
        },
{
    let mode = match get("MQ_MODE") {
        Some(m) => m,
        None => return None,
    };
    let v = ModeVariables {
        session: get("MQ_SESSION"),
        probe_port: get("MQ_PROBE_PORT"),
        dscp: get("MQ_DSCP"),
        peer_ip: get("MQ_PEER_IP"),
        twamp_port: get("MQ_TWAMP_PORT"),
        twamp_peers: get("MQ_TWAMP_PEERS"),
        peer: get("MQ_PEER"),
        count: get("MQ_COUNT"),
        interval_ms: get("MQ_INTERVAL_MS"),
        size: get("MQ_SIZE"),
        timeout_ms: get("MQ_TIMEOUT_MS"),
        codec: get("MQ_CODEC"),
        json: get("MQ_JSON"),
    };
    proof {
        assert(looked_up(get, v));
    }
    Some(from_variables(mode.as_str(), &v))
}

/// Build a command for a mode from the variables as they stand.
pub fn from_variables(mode: &str, v: &ModeVariables) -> (r: Result<Command, String>)
    ensures
        comes_to(r, env_command(mode@, *v)),
{
    let m = to_ascii_lowercase(trim(mode));
    let m = m.as_str();
    if same(m, "agent") {
        Ok(Command::Agent)
    } else if same(m, "reflect") {
        reflect_from(v)
    } else if same(m, "probe") {
        probe_from(v)
    } else if same(m, "twamp-reflect") {
        let port: u64 = match num(shown(&v.twamp_port), 65535, 862, "MQ_TWAMP_PORT") {
            Ok(n) => n,
            Err(e) => return Err(e),
        };
        match twamp_peers(&v.twamp_peers) {
            Ok(peers) => Ok(Command::TwampReflect(TwampReflectArgs { port: port as u16, peers })),
            Err(e) => Err(e),
        }
    } else {
        let mut t = "MQ_MODE ".to_owned();
        let q = quote(m);
        t.append(q.as_str());
        t.append(" is not one of: agent, reflect, probe, twamp-reflect");
        Err(t)
    }
}

fn shown(v: &Option<String>) -> (r: Option<&str>)
    ensures
        options::told(r) == crate::text::seen(*v),
{
    match v {
        Some(s) => Some(s.as_str()),
        None => None,
    }
}

/// Parse the comma-separated TWAMP allow-list from the environment.
fn twamp_peers(v: &Option<String>) -> (r: Result<Vec<IpAddr>, String>)
    ensures
        match env_sources(*v) {
            Ok(a) => r matches Ok(x) && x@ == a,
            Err(e) => options::says(r, e),
        },
{
    match parse_address_list(v) {
        Ok(a) => Ok(a),
        Err(bad) => Err(complaint("MQ_TWAMP_PEERS entry", bad.as_str(), " is not an IP")),
    }
}

fn session_from(v: &Option<String>) -> (r: Result<u64, String>)
    ensures
        match env_session(*v) {
            Ok(n) => r matches Ok(x) && x == n,
            Err(e) => options::says(r, e),
        },
{
    match v {
        None => Ok(1),
        Some(s) => match parse_session(trim(s.as_str())) {
            Some(n) => Ok(n),
            None => Err(complaint("MQ_SESSION", s.as_str(), " is not hexadecimal")),
        },
    }
}

fn reflect_from(v: &ModeVariables) -> (r: Result<Command, String>)
    ensures
        comes_to(r, env_reflect(*v)),
{
    let port: u64 = match num(shown(&v.probe_port), 65535, 5301, "MQ_PROBE_PORT") {
        Ok(n) => n,
        Err(e) => return Err(e),
    };
    let session: u64 = match session_from(&v.session) {
        Ok(n) => n,
        Err(e) => return Err(e),
    };
    let mut peer: Option<IpAddr> = None;
    if let Some(p) = &v.peer_ip {
        let t = trim(p.as_str());
        if t.unicode_len() > 0 {
            match IpAddr::parse(t) {
                Some(a) => {
                    peer = Some(a);
                },
                None => return Err(complaint("MQ_PEER_IP", p.as_str(), " is not an IP")),
            }
        }
    }
    let mut twamp_port: Option<u16> = None;
    if let Some(p) = &v.twamp_port {
        let t = trim(p.as_str());
        if t.unicode_len() > 0 {
            match parse_u16(t) {
                Some(n) => {
                    twamp_port = Some(n);
                },
                None => return Err(complaint("MQ_TWAMP_PORT", p.as_str(), " is not a port")),
            }
        }
    }
    match twamp_peers(&v.twamp_peers) {
        Ok(sources) => Ok(
            Command::Reflect(
                ReflectArgs { port: port as u16, session, peer, twamp_port, twamp_peers: sources },
            ),
        ),
        Err(e) => Err(e),
    }
}

fn target_from(v: &ModeVariables) -> (r: Result<SocketAddr, String>)
    ensures
        match env_target(*v) {
            Ok(a) => r matches Ok(x) && x == a,
            Err(e) => options::says(r, e),
        },
{
    let p = match &v.peer {
        Some(p) => p,
        None => return Err("MQ_MODE=probe requires MQ_PEER".to_owned()),
    };
    let text = trim(p.as_str());
    if crate::text::contains(text, ":") {
        parse_target("MQ_PEER", text, 0)
    } else {
        match num(shown(&v.probe_port), 65535, 5301, "MQ_PROBE_PORT") {
            Ok(port) => parse_target("MQ_PEER", text, port as u16),
            Err(e) => Err(e),
        }
    }
}

fn probe_from(v: &ModeVariables) -> (r: Result<Command, String>)
    ensures
        comes_to(r, env_probe(*v)),
{
    let peer = match target_from(v) {
        Ok(a) => a,
        Err(e) => return Err(e),
    };
    let session: u64 = match session_from(&v.session) {
        Ok(n) => n,
        Err(e) => return Err(e),
    };
    let count: u64 = match num(shown(&v.count), u32::MAX as u64, 100, "MQ_COUNT") {
        Ok(n) => n,
        Err(e) => return Err(e),
    };
    let interval_ms: u64 = match num(shown(&v.interval_ms), u64::MAX, 20, "MQ_INTERVAL_MS") {
        Ok(n) => n,
        Err(e) => return Err(e),
    };
    let size: u64 = match num(
        shown(&v.size),
        usize::MAX as u64,
        mqp::DEFAULT_PACKET_LEN as u64,
        "MQ_SIZE",
    ) {
        Ok(n) => n,
        Err(e) => return Err(e),
    };
    let mut dscp: Option<u8> = None;
    if let Some(d) = &v.dscp {
        let t = trim(d.as_str());
        if t.unicode_len() > 0 {
            match parse_code_point("MQ_DSCP", d.as_str(), t) {
                Ok(x) => {
                    dscp = Some(x);
                },
                Err(e) => return Err(e),
            }
        }
    }
    let timeout_ms: u64 = match num(shown(&v.timeout_ms), u64::MAX, 1000, "MQ_TIMEOUT_MS") {
        Ok(n) => n,
        Err(e) => return Err(e),
    };
    let chosen = match codec(shown(&v.codec)) {
        Ok(c) => c,
        Err(e) => return Err(e),
    };
    let json = match &v.json {
        Some(s) => {
            let w = trim(s.as_str());
            same(w, "1") || same(w, "true") || same(w, "yes") || same(w, "on")
        },
        None => false,
    };
    Ok(
        Command::Probe(
            Box::new(
                ProbeArgs {
                    peer,
                    session,
                    count: count as u32,
                    interval_ms,
                    size: size as usize,
                    dscp,
                    timeout_ms,
                    codec: chosen,
                    json,
                },
            ),
        ),
    )
}

/// A DSCP that is taken always fits its six bits.
pub proof fn law_code_points_fit(o: OptionsView)
    ensures
        probe_command(o) matches Ok(CommandView::Probe(a)) ==> (a.dscp matches Some(d) ==> d <= 63),
        twamp_probe_command(o) matches Ok(CommandView::TwampProbe(a)) ==> (a.dscp matches Some(d)
            ==> d <= 63),
{
}

} // verus!
