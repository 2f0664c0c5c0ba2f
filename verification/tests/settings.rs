use mqagent::cli::{from_env, Command};
use mqagent::config::{Config, ConfigError};
use mqagent::spool::{Accepted, Spool, SpoolConfig};

fn env<'a>(pairs: &'a [(&'a str, &'a str)]) -> impl Fn(&str) -> Option<String> + 'a {
    move |k| pairs.iter().find(|(n, _)| *n == k).map(|(_, v)| v.to_string())
}

fn load(extra: &[(&str, &str)]) -> Result<Config, ConfigError> {
    let mut all = extra.to_vec();
    all.extend([
        ("MQ_CONTROLLER_URL", "http://c.example.net//"),
        ("MQ_AGENT_NAME", " yvr "),
        ("MQ_AGENT_GROUP", "west"),
        ("MQ_ENROLMENT_TOKEN", "secret"),
    ]);
    Config::from_source(env(&all))
}

#[test]
fn settings_errors_say_what_to_mend() {
    let said = |extra: &[(&str, &str)]| load(extra).unwrap_err().message();
    assert_eq!(said(&[("MQ_AGENT_NAME", "")]), "MQ_AGENT_NAME is required but not set");
    assert_eq!(
        said(&[("MQ_POLL_SECS", " soon ")]),
        "MQ_POLL_SECS is not valid: \" soon \" (expected a number of seconds)"
    );
    assert_eq!(
        said(&[("MQ_TWAMP_PEERS", "10.0.0.1, x")]),
        "MQ_TWAMP_PEERS is not valid: \"x\" (expected a comma-separated list of IP addresses)"
    );
    assert_eq!(
        said(&[("MQ_ROUTEROS_HOST", "10.0.0.1"), ("MQ_ROUTEROS_USER", " ")]),
        "MQ_ROUTEROS_HOST is set but MQ_ROUTEROS_USER is not — a partial RouterOS \
         configuration would fail silently at the first bandwidth test"
    );
    for (var, value) in [
        ("MQ_HEARTBEAT_SECS", "-1"),
        ("MQ_TWAMP_PORT", "65536"),
        ("MQ_SPOOL_MAX_ENTRIES", "many"),
        ("MQ_SPOOL_MAX_BYTES", "1e6"),
        ("MQ_SPOOL_ONSET_PCT", "20%"),
    ] {
        match load(&[(var, value)]) {
            Err(ConfigError::Invalid { var: named, .. }) => assert_eq!(named, var),
            other => panic!("{other:?}"),
        }
    }
    let ros = [
        ("MQ_ROUTEROS_HOST", "10.0.0.1"),
        ("MQ_ROUTEROS_USER", "u"),
        ("MQ_ROUTEROS_PASS", ""),
        ("MQ_ROUTEROS_PORT", "x"),
    ];
    assert!(matches!(load(&ros), Err(ConfigError::Invalid { var: "MQ_ROUTEROS_PORT", .. })));
}

#[test]
fn settings_are_taken_as_they_stand() {
    let c = load(&[
        ("MQ_STATE_DIR", ""),
        ("MQ_LOG", "debug"),
        ("MQ_HEARTBEAT_SECS", " 45 "),
        ("MQ_ROUTEROS_HOST", " ::1 "),
        ("MQ_ROUTEROS_USER", "u"),
        ("MQ_ROUTEROS_PASS", "p"),
        ("MQ_ROUTEROS_TLS", "On"),
        ("MQ_ROUTEROS_PORT", "1234"),
    ])
    .unwrap();
    assert_eq!(c.controller_url, "http://c.example.net");
    assert_eq!(c.name, " yvr ");
    assert_eq!((c.state_dir.as_str(), c.log_filter.as_str()), ("", "debug"));
    assert_eq!(c.heartbeat_interval.as_secs(), 45);
    assert_eq!(c.poll_interval.as_secs(), 10);
    assert!(c.can_bandwidth_test());
    let ros = c.routeros.unwrap();
    assert_eq!((ros.port, ros.port_rest()), (1234, 443));
}

#[test]
fn modes_complain_by_variable() {
    let said = |pairs: &[(&str, &str)]| from_env(env(pairs)).unwrap().unwrap_err();
    assert_eq!(
        said(&[("MQ_MODE", "reflect"), ("MQ_SESSION", "zz")]),
        "MQ_SESSION \"zz\" is not hexadecimal"
    );
    assert_eq!(
        said(&[("MQ_MODE", "reflect"), ("MQ_PROBE_PORT", " 1")]),
        "--MQ_PROBE_PORT \" 1\" is not a number"
    );
    assert_eq!(
        said(&[("MQ_MODE", "reflect"), ("MQ_PEER_IP", "x")]),
        "MQ_PEER_IP \"x\" is not an IP"
    );
    assert_eq!(
        said(&[("MQ_MODE", "reflect"), ("MQ_TWAMP_PORT", "x")]),
        "MQ_TWAMP_PORT \"x\" is not a port"
    );
    assert_eq!(
        said(&[("MQ_MODE", "twamp-reflect"), ("MQ_TWAMP_PEERS", "x")]),
        "MQ_TWAMP_PEERS entry \"x\" is not an IP"
    );
    assert_eq!(
        said(&[("MQ_MODE", "probe"), ("MQ_PEER", " 1:2 ")]),
        "MQ_PEER \"1:2\" is not addr:port"
    );
    assert_eq!(
        said(&[("MQ_MODE", "probe"), ("MQ_PEER", "10.0.0.1"), ("MQ_DSCP", "x ")]),
        "MQ_DSCP \"x \" is not a number"
    );
    assert_eq!(
        said(&[("MQ_MODE", " Agents ")]),
        "MQ_MODE \"agents\" is not one of: agent, reflect, probe, twamp-reflect"
    );
    let c = from_env(env(&[
        ("MQ_MODE", " PROBE "),
        ("MQ_PEER", "10.0.0.1"),
        ("MQ_PROBE_PORT", "5401"),
        ("MQ_SESSION", " 0x0xff "),
        ("MQ_JSON", " yes "),
    ]))
    .unwrap()
    .unwrap();
    let Command::Probe(p) = c else { panic!("expected probe") };
    assert_eq!((p.peer.port, p.session, p.json), (5401, 0xff, true));
}

#[test]
fn the_spool_never_jams_however_it_is_tuned() {
    for (entries, bytes, pct) in [(0, 0, 0), (1, 1, 100), (7, 10, 90), (100, 1, u32::MAX)] {
        let cfg = SpoolConfig::new(entries, bytes, pct);
        assert!(cfg.onset_reserve < cfg.max_entries);
        let mut s = Spool::new(cfg);
        for i in 0..50u32 {
            s.push(i, 0);
        }
        assert_ne!(s.push(50, 0), Accepted::Rejected);
    }
    assert_eq!(SpoolConfig::new(10, 10, 33).onset_reserve, 3);
}
