use mqagent::cli::{from_env, parse, Command};
use mqagent::collector::mos::Codec;
use mqagent::net::{IpAddr, SocketAddr};
use mqagent::proto::mqp::DEFAULT_PACKET_LEN;

fn argv(s: &[&str]) -> Vec<String> {
    std::iter::once("mqagent".to_string()).chain(s.iter().map(|x| x.to_string())).collect()
}

#[test]
fn no_arguments_runs_the_managed_agent() {
    assert_eq!(parse(argv(&[])).unwrap(), Command::Agent);
}

fn env<'a>(pairs: &'a [(&'a str, &'a str)]) -> impl Fn(&str) -> Option<String> + 'a {
    move |k| pairs.iter().find(|(n, _)| *n == k).map(|(_, v)| v.to_string())
}

#[test]
fn unset_mq_mode_leaves_the_agent_in_managed_mode() {
    assert!(from_env(env(&[])).is_none());
}

#[test]
fn env_can_select_reflect_mode() {
    // The case that matters on RouterOS: `cmd` is not forwarded into argv,
    // so without this the container silently falls through to managed mode
    // and dies asking for MQ_CONTROLLER_URL.
    let c = from_env(env(&[("MQ_MODE", "reflect"), ("MQ_SESSION", "cafe"), ("MQ_PROBE_PORT", "5301")]))
        .unwrap()
        .unwrap();
    let Command::Reflect(r) = c else { panic!("expected reflect") };
    assert_eq!(r.session, 0xcafe);
    assert_eq!(r.port, 5301);
    assert!(r.peer.is_none());
}

#[test]
fn env_can_select_probe_mode_with_a_bare_peer_ip() {
    let c = from_env(env(&[
        ("MQ_MODE", "probe"),
        ("MQ_PEER", "172.16.220.138"),
        ("MQ_SESSION", "cafe"),
        ("MQ_COUNT", "300"),
        ("MQ_DSCP", "46"),
    ]))
    .unwrap()
    .unwrap();
    let Command::Probe(p) = c else { panic!("expected probe") };
    assert_eq!(p.peer, SocketAddr::parse("172.16.220.138:5301").unwrap());
    assert_eq!(p.count, 300);
    assert_eq!(p.dscp, Some(46));
    assert_eq!(p.session, 0xcafe);
}

#[test]
fn env_probe_without_a_peer_is_rejected() {
    let err = from_env(env(&[("MQ_MODE", "probe")])).unwrap().unwrap_err();
    assert!(err.contains("MQ_PEER"), "got {err}");
}

#[test]
fn env_rejects_an_unknown_mode_rather_than_defaulting() {
    // Defaulting a typo'd MQ_MODE to managed mode would be a silent
    // misconfiguration that only shows up as "no measurements".
    let err = from_env(env(&[("MQ_MODE", "reflct")])).unwrap().unwrap_err();
    assert!(err.contains("not one of"), "got {err}");
}

#[test]
fn reflect_mode_can_run_both_protocols_from_the_environment() {
    // One container answering our own mesh and third parties at once, which
    // is what restores DSCP conformance toward a shared upstream.
    let c = from_env(env(&[
        ("MQ_MODE", "reflect"),
        ("MQ_PROBE_PORT", "5401"),
        ("MQ_SESSION", "cafe"),
        ("MQ_TWAMP_PORT", "862"),
        ("MQ_TWAMP_PEERS", "162.216.190.1"),
    ]))
    .unwrap()
    .unwrap();
    let Command::Reflect(r) = c else { panic!("expected reflect") };
    assert_eq!(r.port, 5401);
    assert_eq!(r.twamp_port, Some(862), "TWAMP should run alongside MQP");
    assert_eq!(r.twamp_peers.len(), 1);
    assert_ne!(r.port, r.twamp_port.unwrap(), "they cannot share a socket");
}

#[test]
fn reflect_without_a_twamp_port_stays_mqp_only() {
    let c = from_env(env(&[("MQ_MODE", "reflect")])).unwrap().unwrap();
    let Command::Reflect(r) = c else { panic!("expected reflect") };
    assert!(r.twamp_port.is_none());
}

#[test]
fn reflect_accepts_both_protocols_on_the_command_line() {
    let Command::Reflect(r) = parse(argv(&[
        "reflect", "--port", "5401", "--twamp-port", "862",
        "--twamp-peer", "10.0.0.1", "--twamp-peer", "10.0.0.2",
    ]))
    .unwrap() else {
        panic!("expected reflect")
    };
    assert_eq!(r.twamp_port, Some(862));
    assert_eq!(r.twamp_peers.len(), 2, "--twamp-peer must be repeatable");
}

#[test]
fn env_can_select_the_twamp_responder() {
    // The mode most likely to run on a router, since RouterOS has no TWAMP
    // of its own — and argv is not delivered there.
    let c = from_env(env(&[
        ("MQ_MODE", "twamp-reflect"),
        ("MQ_TWAMP_PORT", "862"),
        ("MQ_TWAMP_PEERS", "203.0.113.7, 198.51.100.9"),
    ]))
    .unwrap()
    .unwrap();
    let Command::TwampReflect(r) = c else { panic!("expected twamp-reflect") };
    assert_eq!(r.port, 862);
    assert_eq!(r.peers.len(), 2);
    assert_eq!(r.peers[0], IpAddr::parse("203.0.113.7").unwrap());
}

#[test]
fn env_twamp_peers_may_be_omitted_for_an_open_responder() {
    let c = from_env(env(&[("MQ_MODE", "twamp-reflect")])).unwrap().unwrap();
    let Command::TwampReflect(r) = c else { panic!("expected twamp-reflect") };
    assert!(r.peers.is_empty());
    assert_eq!(r.port, 862, "the registered TWAMP port is the default");
}

#[test]
fn env_twamp_peers_rejects_a_bad_entry_rather_than_skipping_it() {
    // Silently dropping a malformed peer would leave the responder
    // answering fewer sources than configured, with no indication why.
    let err = from_env(env(&[("MQ_MODE", "twamp-reflect"), ("MQ_TWAMP_PEERS", "10.0.0.1,nope")]))
        .unwrap()
        .unwrap_err();
    assert!(err.contains("nope"), "got {err}");
}

#[test]
fn env_mode_agent_is_explicit_and_valid() {
    assert_eq!(from_env(env(&[("MQ_MODE", "agent")])).unwrap().unwrap(), Command::Agent);
}

#[test]
fn env_validates_dscp_range() {
    let err = from_env(env(&[("MQ_MODE", "probe"), ("MQ_PEER", "10.0.0.1"), ("MQ_DSCP", "99")]))
        .unwrap()
        .unwrap_err();
    assert!(err.contains("out of range"), "got {err}");
}

#[test]
fn help_is_recognised() {
    for f in ["--help", "-h", "help"] {
        assert_eq!(parse(argv(&[f])).unwrap(), Command::Help);
    }
}

#[test]
fn probe_accepts_a_bare_ip_and_supplies_the_default_port() {
    let Command::Probe(p) = parse(argv(&["probe", "--peer", "172.16.220.138"])).unwrap()
    else {
        panic!("expected probe");
    };
    assert_eq!(p.peer, SocketAddr::parse("172.16.220.138:5301").unwrap());
}

#[test]
fn probe_accepts_an_explicit_port() {
    let Command::Probe(p) = parse(argv(&["probe", "--peer", "10.0.0.1:9999"])).unwrap()
    else {
        panic!("expected probe");
    };
    assert_eq!(p.peer.port, 9999);
}

#[test]
fn session_ids_are_parsed_as_hex() {
    // They are printed as hex everywhere else; parsing them as decimal
    // would silently target a different session than the one granted.
    let Command::Reflect(r) = parse(argv(&["reflect", "--session", "cafe"])).unwrap()
    else {
        panic!("expected reflect");
    };
    assert_eq!(r.session, 0xcafe);

    let Command::Reflect(r) = parse(argv(&["reflect", "--session", "0xdeadbeef"])).unwrap()
    else {
        panic!("expected reflect");
    };
    assert_eq!(r.session, 0xdeadbeef);
}

#[test]
fn probe_defaults_match_the_documented_values() {
    let Command::Probe(p) = parse(argv(&["probe", "--peer", "10.0.0.1"])).unwrap() else {
        panic!("expected probe");
    };
    assert_eq!(p.count, 100);
    assert_eq!(p.interval_ms, 20);
    assert_eq!(p.size, DEFAULT_PACKET_LEN);
    assert_eq!(p.session, 1);
    assert_eq!(p.codec, Codec::G711);
    assert!(p.dscp.is_none());
    assert!(!p.json);
}

#[test]
fn json_is_a_bare_flag_not_a_key_value() {
    let Command::Probe(p) =
        parse(argv(&["probe", "--peer", "10.0.0.1", "--json"])).unwrap()
    else {
        panic!("expected probe");
    };
    assert!(p.json);
}

#[test]
fn dscp_out_of_range_is_rejected() {
    // 6-bit field: 64 would silently truncate to 0 (best effort) and the
    // run would report a QoS class it never actually requested.
    let err = parse(argv(&["probe", "--peer", "10.0.0.1", "--dscp", "64"])).unwrap_err();
    assert!(err.contains("out of range"), "got {err}");
}

#[test]
fn missing_peer_is_rejected() {
    assert!(parse(argv(&["probe"])).unwrap_err().contains("--peer"));
}

#[test]
fn a_flag_without_its_value_is_rejected() {
    assert!(parse(argv(&["probe", "--peer"])).unwrap_err().contains("needs a value"));
}

#[test]
fn unknown_command_and_codec_are_rejected() {
    assert!(parse(argv(&["frobnicate"])).unwrap_err().contains("unknown command"));
    assert!(parse(argv(&["probe", "--peer", "10.0.0.1", "--codec", "mp3"]))
        .unwrap_err()
        .contains("unknown codec"));
}

#[test]
fn every_codec_name_resolves() {
    for (name, want) in [
        ("g711", Codec::G711),
        ("g711plc", Codec::G711Plc),
        ("g729", Codec::G729),
        ("g722", Codec::G722),
        ("OPUS", Codec::Opus),
    ] {
        let Command::Probe(p) =
            parse(argv(&["probe", "--peer", "10.0.0.1", "--codec", name])).unwrap()
        else {
            panic!("expected probe");
        };
        assert_eq!(p.codec, want, "codec {name}");
    }
}
