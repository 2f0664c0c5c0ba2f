use mqagent::discovery::capture::NO_RADIO;
use mqagent::discovery::session::{CaptureStage, Capturing, Step, Survey, SurveyStage};
use mqagent::duration::Duration;
use mqagent::json::Json;
use mqagent::routeros::RouterOsError;

/// What a step is, in a line.
fn shown(s: &Step) -> String {
    match s {
        Step::Get { path } => format!("GET {path}"),
        Step::Post { path, body } => format!("POST {path} {}", body.render()),
        Step::Wait { secs } => format!("WAIT {secs}"),
        Step::Finish => "FINISH".into(),
    }
}

fn json(text: &str) -> Json {
    Json::parse(text).unwrap()
}

fn refused() -> RouterOsError {
    RouterOsError::Unauthorized
}

/// Run a survey on a router that answers the paths listed.
fn survey(answers: &[(&str, &str)]) -> (Vec<String>, Survey) {
    let mut s = Survey::begin();
    let mut log = vec![];
    loop {
        let step = s.step();
        log.push(shown(&step));
        match step {
            Step::Finish => return (log, s),
            Step::Wait { .. } => s.waited(),
            Step::Get { path } => s.answered(match answers.iter().find(|(p, _)| *p == path) {
                Some((_, text)) => Ok(json(text)),
                None => Err(refused()),
            }),
            Step::Post { .. } => panic!("a survey only reads"),
        }
        assert!(log.len() < 20, "a survey must end");
    }
}

#[test]
fn a_survey_reads_the_modern_stack_where_it_answers() {
    let (log, s) = survey(&[
        ("/ip/arp", "[]"),
        ("/ip/dhcp-server/lease", "[]"),
        ("/interface/wifi/registration-table", r#"[{"mac-address":"AA","signal":"-50"}]"#),
        ("/interface/wifi", r#"[{"name":"wifi1","channel.band":"5ghz-ax"}]"#),
        ("/interface", r#"[{"name":"ether1","rx-packet":"100","running":"true"}]"#),
        ("/ip/pool", r#"[{"ranges":"192.168.5.10-192.168.5.19"}]"#),
    ]);
    assert_eq!(
        log,
        [
            "GET /ip/arp",
            "GET /ip/dhcp-server/lease",
            "GET /interface/wifi/registration-table",
            "GET /interface/wifi",
            "GET /interface",
            "WAIT 2",
            "GET /interface",
            "GET /ip/pool",
            "FINISH",
        ]
    );
    let snap = s.finish();
    assert_eq!(snap.clients.len(), 1);
    assert_eq!(snap.radios.len(), 1);
    assert_eq!(snap.interfaces.len(), 1);
    assert_eq!(snap.dhcp_pool_size, Some(10));
}

#[test]
fn a_survey_falls_back_to_the_legacy_stack() {
    let (log, s) = survey(&[
        (
            "/interface/wireless/registration-table",
            r#"[{"mac-address":"BB","signal-strength":"-64@6Mbps"}]"#,
        ),
        ("/interface/wireless", r#"[{"name":"wlan1","band":"2ghz-b/g/n"}]"#),
    ]);
    assert_eq!(
        log,
        [
            "GET /ip/arp",
            "GET /ip/dhcp-server/lease",
            "GET /interface/wifi/registration-table",
            "GET /interface/wireless/registration-table",
            "GET /interface/wireless",
            "GET /interface",
            "GET /ip/pool",
            "FINISH",
        ]
    );
    let snap = s.finish();
    assert_eq!(snap.clients[0].signal_dbm, -64);
    assert_eq!(snap.radios[0].name, "wlan1");
}

#[test]
fn a_survey_of_a_silent_router_ends_with_nothing() {
    let (log, s) = survey(&[]);
    assert_eq!(log.len(), 7, "{log:?}");
    assert_eq!(s.stage, SurveyStage::Over);
    let snap = s.finish();
    assert!(snap.arp.is_empty() && snap.clients.is_empty() && snap.interfaces.is_empty());
    assert_eq!(snap.dhcp_pool_size, None);
}

/// Run a capture on a router that answers the paths listed.
fn capture(mut c: Capturing, answers: &[(&str, &str)]) -> (Vec<String>, Capturing) {
    let mut log = vec![];
    loop {
        let step = c.step();
        log.push(shown(&step));
        match step {
            Step::Finish => return (log, c),
            Step::Wait { .. } => c.waited(),
            Step::Get { path } | Step::Post { path, .. } => {
                c.answered(match answers.iter().find(|(p, _)| *p == path) {
                    Some((_, text)) => Ok(json(text)),
                    None => Err(refused()),
                })
            }
        }
        assert!(log.len() < 20, "a capture must end");
    }
}

#[test]
fn a_packet_capture_sets_starts_waits_stops_and_reads() {
    let (log, c) = capture(
        Capturing::begin("ether1", Duration::from_secs(5), false, false),
        &[
            ("/tool/sniffer/set", "[]"),
            ("/tool/sniffer/start", "[]"),
            ("/tool/sniffer/stop", "[]"),
            ("/tool/sniffer/host", r#"[{"address":"10.0.0.9","rate":"1200/300"}]"#),
            ("/tool/sniffer/protocol", "[]"),
        ],
    );
    assert_eq!(
        log,
        [
            "POST /tool/sniffer/set \
             {\"file-name\":\"\",\"filter-interface\":\"ether1\",\"memory-limit\":\"10\"}",
            "POST /tool/sniffer/start {}",
            "WAIT 5",
            "POST /tool/sniffer/stop {}",
            "GET /tool/sniffer/host",
            "GET /tool/sniffer/protocol",
            "FINISH",
        ]
    );
    let cap = c.finish().unwrap();
    assert!(!cap.used_wireless_sniffer);
    assert_eq!(cap.hosts.len(), 1);
    assert!(cap.notes.is_empty());
}

#[test]
fn a_sniffer_that_was_started_is_stopped_before_it_is_read() {
    // Nothing but the start succeeds, and the stop is still attempted.
    let (log, c) = capture(
        Capturing::begin("", Duration::from_secs(1), false, false),
        &[("/tool/sniffer/start", "[]")],
    );
    let stop = log.iter().position(|l| l.starts_with("POST /tool/sniffer/stop")).unwrap();
    let read = log.iter().position(|l| l.starts_with("GET /tool/sniffer/host")).unwrap();
    assert!(stop < read);
    let cap = c.finish().unwrap();
    assert_eq!(cap.notes.len(), 2, "both failures are told: {:?}", cap.notes);
}

#[test]
fn a_sniffer_that_does_not_start_fails_the_capture() {
    let (log, c) =
        capture(Capturing::begin("", Duration::from_secs(1), false, false), &[]);
    assert_eq!(log.len(), 3, "{log:?}");
    assert_eq!(c.stage, CaptureStage::Failed);
    assert_eq!(c.finish().err(), Some(RouterOsError::Unauthorized));
}

#[test]
fn a_wireless_capture_picks_a_radio_that_is_up() {
    let (log, c) = capture(
        Capturing::begin("", Duration::from_secs(3), true, true),
        &[
            ("/interface/wireless/sniffer", "{}"),
            (
                "/interface/wireless",
                r#"[{"name":"wlan1","running":"false"},{"name":"wlan2","running":"true"}]"#,
            ),
            ("/interface/wireless/sniffer/set", "[]"),
            ("/interface/wireless/sniffer/sniff", "[]"),
            ("/interface/wireless/sniffer/packet", "[]"),
        ],
    );
    assert_eq!(log[1], "GET /interface/wireless");
    assert_eq!(
        log[3],
        "POST /interface/wireless/sniffer/sniff {\"duration\":\"3\",\"interface\":\"wlan2\"}"
    );
    let cap = c.finish().unwrap();
    assert!(cap.used_wireless_sniffer);
    assert_eq!(cap.interface, "wlan2");
    assert_eq!(cap.notes.len(), 2, "monitor mode and channel hopping: {:?}", cap.notes);
}

#[test]
fn a_device_without_a_wireless_sniffer_captures_packets_and_says_so() {
    let (log, c) = capture(
        Capturing::begin("wlan1", Duration::from_secs(2), true, false),
        &[("/tool/sniffer/set", "[]"), ("/tool/sniffer/start", "[]"), ("/tool/sniffer/stop", "[]")],
    );
    assert_eq!(log[0], "GET /interface/wireless/sniffer");
    assert!(log[1].starts_with("POST /tool/sniffer/set"));
    let cap = c.finish().unwrap();
    assert!(!cap.used_wireless_sniffer);
    assert!(cap.notes[0].contains("no wireless sniffer"));
}

#[test]
fn a_wireless_sniffer_without_a_radio_is_an_error() {
    let (_, c) = capture(
        Capturing::begin("", Duration::from_secs(2), true, false),
        &[("/interface/wireless/sniffer", "{}"), ("/interface/wireless", "[]")],
    );
    assert_eq!(c.finish().err(), Some(RouterOsError::Decode(NO_RADIO.into())));
}
