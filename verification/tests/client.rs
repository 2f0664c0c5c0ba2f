use mqagent::controller::client::{
    agent_path, truncate, Capabilities, HeartbeatRequest, HostInfo, RegisterRequest, ResultsRequest,
    TaskDto, REGISTER_PATH,
};
use mqagent::controller::ControllerError;
use mqagent::duration::Duration;
use mqagent::json::Json;
use mqagent::tasks::plan;

fn dto(kind: &str, role: &str, session: &str) -> TaskDto {
    TaskDto {
        task_id: "t1".into(),
        session_id: session.into(),
        kind: kind.into(),
        role: role.into(),
        peer: None,
        params: Json::object().with("count", Json::number(100)),
        recurring: true,
        interval_s: Some(30),
        expires_in_s: None,
    }
}

#[test]
fn converts_every_documented_task_kind() {
    for (k, want) in [
        ("mqp_probe", plan::Kind::MqpProbe),
        ("twamp_probe", plan::Kind::TwampProbe),
        ("tcp_connect", plan::Kind::TcpConnect),
        ("routeros_btest", plan::Kind::RouterOsBtest),
        ("path_trace", plan::Kind::PathTrace),
        ("wifi_signal", plan::Kind::WifiSignal),
        ("packet_capture", plan::Kind::PacketCapture),
    ] {
        let (t, _) = dto(k, "sender", "51966").into_plan().ok().unwrap();
        assert_eq!(t.kind, want, "kind {k}");
    }
}

#[test]
fn an_unknown_kind_is_an_error_not_a_default() {
    // Guessing would run the wrong measurement and file it under the
    // controller's label for something else.
    let err = dto("quantum_ping", "sender", "1").into_plan().err().unwrap();
    assert!(matches!(err, ControllerError::Decode(_)));
    assert!(!err.is_retryable(), "a malformed task will not become valid on retry");
}

#[test]
fn an_unknown_role_is_rejected() {
    assert!(dto("mqp_probe", "bystander", "1").into_plan().is_err());
}

#[test]
fn session_ids_survive_at_full_64_bit_width() {
    // The reason session_id crosses the wire as a string at all: as a JSON
    // number this would be rounded by any f64-based parser.
    let (t, _) = dto("mqp_probe", "sender", "18446744073709551615").into_plan().ok().unwrap();
    assert_eq!(t.session_id, u64::MAX);
}

#[test]
fn bare_digits_are_decimal_not_hex() {
    // The controller sends Go's `json:",string"`, which is decimal. Every
    // decimal string is also valid hex, so guessing hex first would read
    // "255" as 597 and target a session the reflector never granted --
    // silently, as 100% packet loss on a healthy path.
    let (t, _) = dto("mqp_probe", "sender", "255").into_plan().ok().unwrap();
    assert_eq!(t.session_id, 255);
}

#[test]
fn an_explicit_prefix_still_selects_hex() {
    let (t, _) = dto("mqp_probe", "sender", "0xcafe").into_plan().ok().unwrap();
    assert_eq!(t.session_id, 0xcafe);
}

#[test]
fn a_malformed_session_id_is_rejected() {
    assert!(dto("mqp_probe", "sender", "not-a-session").into_plan().is_err());
}

#[test]
fn expiry_and_interval_are_carried_through() {
    let mut d = dto("path_trace", "sender", "1");
    d.recurring = false;
    d.expires_in_s = Some(300);
    d.interval_s = None;

    let (t, expires) = d.into_plan().ok().unwrap();
    assert!(!t.recurring);
    assert_eq!(expires, Some(Duration::from_secs(300)));
    assert_eq!(t.interval, None);
}

#[test]
fn long_error_bodies_are_truncated() {
    // A controller returning an HTML error page must not evict the
    // device's whole log buffer.
    let long = "x".repeat(5_000);
    let t = truncate(&long);
    assert!(t.len() < 400, "got {} chars", t.len());
    assert!(t.ends_with('…'));
}

#[test]
fn a_registration_leaves_out_what_is_not_known() {
    let req = RegisterRequest {
        agent_id: None,
        name: "yvr-branch-01".into(),
        group: "west-wan".into(),
        version: "0.1.0".into(),
        capabilities: Capabilities {
            mqp: true,
            twamp_light: true,
            routeros_btest: false,
            probe_port: 5301,
        },
        host: HostInfo { board: Some("RB4011iGS+".into()), ..Default::default() },
        advertise_addr: None,
    };
    assert_eq!(
        req.to_json().render(),
        "{\"capabilities\":{\"mqp\":true,\"probe_port\":5301,\"routeros_btest\":false,\
         \"twamp_light\":true},\"group\":\"west-wan\",\"host\":{\"board\":\"RB4011iGS+\"},\
         \"name\":\"yvr-branch-01\",\"version\":\"0.1.0\"}"
    );

    let known = RegisterRequest { agent_id: Some("b2c3".into()), ..req };
    assert_eq!(known.to_json().get("agent_id").unwrap().as_str(), Some("b2c3"));
}

#[test]
fn a_heartbeat_carries_the_state_of_the_spool() {
    let req = HeartbeatRequest {
        uptime_s: 8412,
        active_sessions: 2,
        last_error: None,
        spool_dropped: 7,
        spool_depth: 41,
    };
    assert_eq!(
        req.to_json().render(),
        "{\"active_sessions\":2,\"spool_depth\":41,\"spool_dropped\":7,\"uptime_s\":8412}"
    );
    let failing = HeartbeatRequest { last_error: Some("refused".into()), ..req };
    assert_eq!(failing.to_json().get("last_error").unwrap().as_str(), Some("refused"));
}

#[test]
fn results_are_submitted_in_order() {
    let batch = vec![Json::text("first"), Json::text("second")];
    let body = ResultsRequest { results: &batch, dropped: 3 }.to_json();
    assert_eq!(body.render(), "{\"dropped\":3,\"results\":[\"first\",\"second\"]}");
}

#[test]
fn the_endpoints_of_an_agent_carry_its_id() {
    assert_eq!(REGISTER_PATH, "agents/register");
    assert_eq!(agent_path("b2c3", "tasks"), "agents/b2c3/tasks");
}
