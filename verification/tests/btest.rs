use mqagent::duration::Duration;
use mqagent::json::Json;
use mqagent::routeros::btest::{
    parse, parse_secs, BtestConfig, CpuVerdict, Direction, Protocol, MAX_REST_SECS,
};

/// The value that a JSON text spells.
fn value(text: &str) -> Json {
    Json::parse(text).unwrap()
}

/// The text under a key of an object.
fn text_of(body: &Json, key: &str) -> String {
    body.get(key).unwrap().as_str().unwrap().to_string()
}

fn cfg(dir: Direction, proto: Protocol) -> BtestConfig {
    BtestConfig::new("10.0.0.1", dir, proto)
}

#[test]
fn direction_and_protocol_accept_the_obvious_spellings() {
    for s in ["rx", "receive", "RX", "download"] {
        assert_eq!(Direction::parse(s), Some(Direction::Receive), "{s}");
    }
    for s in ["tx", "transmit", "upload"] {
        assert_eq!(Direction::parse(s), Some(Direction::Transmit), "{s}");
    }
    assert_eq!(Direction::parse("both"), Some(Direction::Both));
    assert_eq!(Direction::parse("sideways"), None);
    assert_eq!(Protocol::parse("TCP"), Some(Protocol::Tcp));
    assert_eq!(Protocol::parse("udp"), Some(Protocol::Udp));
    assert_eq!(Protocol::parse("sctp"), None);
}

#[test]
fn the_request_carries_what_routeros_expects() {
    let mut c = cfg(Direction::Receive, Protocol::Tcp);
    c.user = "bt".into();
    c.password = "secret".into();
    c.duration = Duration::from_secs(10);
    let (body, note) = c.to_request();

    assert_eq!(text_of(&body, "direction"), "receive");
    assert_eq!(text_of(&body, "protocol"), "tcp");
    assert_eq!(text_of(&body, "duration"), "10s");
    assert_eq!(text_of(&body, "user"), "bt");
    assert!(note.is_none());
}

#[test]
fn a_duration_past_the_rest_ceiling_is_clamped_and_explained() {
    // RouterOS kills any REST command at 60s. Sending 120 would produce a
    // confusing timeout rather than a short test.
    let mut c = cfg(Direction::Receive, Protocol::Tcp);
    c.duration = Duration::from_secs(120);
    let (body, note) = c.to_request();

    assert_eq!(text_of(&body, "duration"), format!("{}s", MAX_REST_SECS));
    assert!(note.unwrap().contains("60s"));
}

#[test]
fn connection_count_is_tcp_only() {
    // RouterOS rejects it for UDP, which would fail the whole test.
    let mut c = cfg(Direction::Receive, Protocol::Udp);
    c.connection_count = Some(8);
    assert!(c.to_request().0.get("connection-count").is_none());

    let mut t = cfg(Direction::Receive, Protocol::Tcp);
    t.connection_count = Some(8);
    assert_eq!(text_of(&t.to_request().0, "connection-count"), "8");
}

#[test]
fn speed_ceilings_are_passed_through_when_set() {
    let mut c = cfg(Direction::Both, Protocol::Tcp);
    c.local_tx_speed = Some(50_000_000);
    c.remote_tx_speed = Some(25_000_000);
    let (body, _) = c.to_request();
    assert_eq!(text_of(&body, "local-tx-speed"), "50000000");
    assert_eq!(text_of(&body, "remote-tx-speed"), "25000000");
}

/// Captured verbatim from a hAP ac³, RouterOS 7.24.2, TCP receive.
fn real_receive_response() -> Json {
    value(r#"[{".section": "0", "status": "connecting", "direction": "receive"}, {".section": "6", "connection-count": "20", "direction": "receive", "duration": "6s", "local-cpu-load": "64", "random-data": "false", "rx-10-second-average": "621022992", "rx-current": "628332032", "rx-total-average": "621022992", "status": "done testing"}]"#)
}

#[test]
fn parses_a_real_receive_response() {
    let r = parse(&real_receive_response(), &cfg(Direction::Receive, Protocol::Tcp)).unwrap();
    assert_eq!(r.rx_bps, Some(621_022_992));
    assert_eq!(r.tx_bps, None, "a receive test measures only one direction");
    assert_eq!(r.local_cpu_load, Some(64));
    assert_eq!(r.duration_s, 6);
    assert_eq!(r.connection_count, Some(20));
    assert_eq!(r.status, "done testing");
    assert_eq!(r.source, "routeros_host");
}

#[test]
fn parses_a_real_transmit_response_including_the_far_end_cpu() {
    // Captured from the same pair, UDP transmit.
    let raw = value(r#"[{".section": "0", "status": "connecting"}, {".section": "4", "direction": "transmit", "duration": "4s", "local-cpu-load": "64", "remote-cpu-load": "36", "tx-total-average": "954335872", "tx-current": "960000000", "lost-packets": "1423", "status": "done testing"}]"#);
    let r = parse(&raw, &cfg(Direction::Transmit, Protocol::Udp)).unwrap();
    assert_eq!(r.tx_bps, Some(954_335_872));
    assert_eq!(r.remote_cpu_load, Some(36), "transmit reports the far end too");
    assert_eq!(r.lost_packets, Some(1423));
}

#[test]
fn only_the_last_section_counts() {
    // Earlier sections are progress, not results. Reading the first would
    // report the speed during connection setup.
    let raw = value(r#"[{".section": "0", "status": "running", "rx-total-average": "1000"}, {".section": "1", "status": "running", "rx-total-average": "50000"}, {".section": "2", "status": "done testing", "rx-total-average": "621022992"}]"#);
    let r = parse(&raw, &cfg(Direction::Receive, Protocol::Tcp)).unwrap();
    assert_eq!(r.rx_bps, Some(621_022_992));
}

#[test]
fn a_saturated_cpu_says_the_number_measures_the_router() {
    let raw = value(r#"[{".section": "0", "status": "done testing", "rx-total-average": "300000000", "local-cpu-load": "99"}]"#);
    let r = parse(&raw, &cfg(Direction::Receive, Protocol::Tcp)).unwrap();
    assert_eq!(r.cpu_verdict, CpuVerdict::RouterLimited);
    assert!(r.notes.iter().any(|n| n.contains("measures the router")), "{:?}", r.notes);
}

#[test]
fn a_busy_cpu_says_treat_the_figure_as_a_floor() {
    let raw = value(r#"[{".section": "0", "status": "done testing", "rx-total-average": "621022992", "local-cpu-load": "75"}]"#);
    let r = parse(&raw, &cfg(Direction::Receive, Protocol::Tcp)).unwrap();
    assert_eq!(r.cpu_verdict, CpuVerdict::RouterContributing);
    assert!(r.notes.iter().any(|n| n.contains("floor")), "{:?}", r.notes);
}

#[test]
fn an_idle_cpu_gets_no_caveat() {
    let raw = value(r#"[{".section": "0", "status": "done testing", "rx-total-average": "100000000", "local-cpu-load": "12"}]"#);
    let r = parse(&raw, &cfg(Direction::Receive, Protocol::Tcp)).unwrap();
    assert_eq!(r.cpu_verdict, CpuVerdict::LinkLimited);
    assert!(r.notes.is_empty(), "{:?}", r.notes);
}

#[test]
fn the_worse_of_the_two_cpus_decides_the_verdict() {
    // A far end at 95% limits the test just as surely as a local one.
    let raw = value(r#"[{".section": "0", "status": "done testing", "tx-total-average": "1000", "local-cpu-load": "20", "remote-cpu-load": "95"}]"#);
    let r = parse(&raw, &cfg(Direction::Transmit, Protocol::Tcp)).unwrap();
    assert_eq!(r.cpu_verdict, CpuVerdict::RouterLimited);
}

#[test]
fn bidirectional_results_warn_that_the_streams_contend() {
    let raw = value(r#"[{".section": "0", "status": "done testing", "tx-total-average": "400000000", "rx-total-average": "380000000", "local-cpu-load": "30"}]"#);
    let r = parse(&raw, &cfg(Direction::Both, Protocol::Tcp)).unwrap();
    assert!(r.tx_bps.is_some() && r.rx_bps.is_some());
    assert!(r.notes.iter().any(|n| n.contains("contend")), "{:?}", r.notes);
}

#[test]
fn udp_loss_is_reported_and_explained_but_tcp_loss_is_not() {
    let raw = value(r#"[{".section": "0", "status": "done testing", "tx-total-average": "1000", "lost-packets": "500", "local-cpu-load": "10"}]"#);

    let udp = parse(&raw, &cfg(Direction::Transmit, Protocol::Udp)).unwrap();
    assert_eq!(udp.lost_packets, Some(500));
    assert!(udp.notes.iter().any(|n| n.contains("expected")), "{:?}", udp.notes);

    // TCP never offers more than the path accepts, so a loss figure there
    // would be meaningless even if RouterOS emitted one.
    let tcp = parse(&raw, &cfg(Direction::Transmit, Protocol::Tcp)).unwrap();
    assert_eq!(tcp.lost_packets, None);
}

#[test]
fn a_refusal_becomes_an_error_naming_the_likely_cause() {
    // RouterOS reports "cannot connect" in the same shape as a result, so
    // without this the caller would record 0 bps as a measurement.
    let raw = value(r#"[{".section": "0", "status": "connecting"}]"#);
    let err = parse(&raw, &cfg(Direction::Receive, Protocol::Tcp)).unwrap_err();
    let msg = err.message();
    assert!(msg.contains("bandwidth-server"), "{msg}");
    assert!(msg.contains("test"), "should name the policy needed: {msg}");
}

#[test]
fn malformed_responses_are_rejected() {
    let c = cfg(Direction::Receive, Protocol::Tcp);
    assert!(parse(&value(r#"{}"#), &c).is_err());
    assert!(parse(&value(r#"[]"#), &c).is_err());
}

#[test]
fn duration_parses_every_unit_routeros_uses() {
    assert_eq!(parse_secs("6s"), 6);
    assert_eq!(parse_secs("1m30s"), 90);
    assert_eq!(parse_secs("1h"), 3600);
    assert_eq!(parse_secs(""), 0);
}
