use mqagent::agent::turn::{Action, Loop, Stage};
use mqagent::agent::{Agent, SUBMIT_BATCH};
use mqagent::config::Config;
use mqagent::controller::client::{HeartbeatResponse, PeerDto, TaskDto};
use mqagent::controller::{ControllerError, WHOLE};
use mqagent::duration::{Duration, Instant};
use mqagent::json::Json;
use mqagent::probe::reflector::Registry;

fn at(n: u64) -> Instant {
    Instant { nanos: n as u128 * 1_000_000_000 }
}

fn begin() -> Loop {
    let cfg = Config::from_source(|k| {
        let v = match k {
            "MQ_CONTROLLER_URL" => "https://c.example.net",
            "MQ_AGENT_NAME" => "yvr-branch-01",
            "MQ_AGENT_GROUP" => "west-wan",
            "MQ_ENROLMENT_TOKEN" => "enrol-secret",
            _ => return None,
        };
        Some(v.to_string())
    })
    .unwrap();
    Loop::begin(Agent::assemble(&cfg, at(100)), at(100))
}

fn dto(id: &str, kind: &str, role: &str, recurring: bool) -> TaskDto {
    TaskDto {
        task_id: id.into(),
        session_id: "51966".into(),
        kind: kind.into(),
        role: role.into(),
        peer: Some(PeerDto {
            agent_id: "b".into(),
            name: "probe-b".into(),
            address: "10.0.0.7".into(),
            probe_port: 5301,
        }),
        params: Json::object(),
        recurring,
        interval_s: Some(30),
        expires_in_s: Some(5),
    }
}

fn turn(l: &mut Loop, now: u64) -> Action {
    l.turn(at(now), 0, Duration::from_secs(now - 100), 2)
}

#[test]
fn an_idle_turn_talks_looks_and_sleeps() {
    let mut l = begin();
    assert!(matches!(turn(&mut l, 100), Action::Poll));
    let mut reg = Registry::new();
    l.agent.poll_step(&mut reg, Ok(vec![]), l.began, at(101), 0);
    match turn(&mut l, 101) {
        Action::Heartbeat { request } => {
            assert_eq!((request.uptime_s, request.active_sessions), (1, 2))
        }
        other => panic!("{other:?}"),
    }
    l.agent.heartbeat_done(Ok(HeartbeatResponse::default()), l.began);
    assert_eq!(l.stage, Stage::Work);
    assert!(matches!(turn(&mut l, 101), Action::Continue));
    assert!(matches!(turn(&mut l, 101), Action::Continue), "nothing to submit");
    assert_eq!(l.stage, Stage::Rest);
    match turn(&mut l, 101) {
        Action::Sleep { pause } => assert_eq!(pause, Duration::from_secs(5)),
        other => panic!("{other:?}"),
    }
    // Neither a poll nor a heartbeat is due yet.
    assert!(matches!(turn(&mut l, 106), Action::Continue));
    assert!(matches!(turn(&mut l, 106), Action::Continue));
    assert_eq!(l.stage, Stage::Work);
}

#[test]
fn an_outage_delays_no_measurement() {
    let mut l = begin();
    let mut reg = Registry::new();
    assert!(matches!(turn(&mut l, 100), Action::Poll));
    let leased = vec![dto("t1", "mqp_probe", "sender", true)];
    l.agent.poll_step(&mut reg, Ok(leased), l.began, at(100), 0);

    // The controller goes away; the probe is handed out at its cadence.
    let mut probes = vec![];
    let mut now = 100;
    while now < 200 {
        match turn(&mut l, now) {
            Action::Poll => {
                let down = ControllerError::Transport("unreachable".into());
                l.agent.poll_step(&mut reg, Err(down), l.began, at(now), WHOLE);
            }
            Action::Heartbeat { .. } => {
                l.agent.heartbeat_done(Err(ControllerError::Unauthorized), l.began);
            }
            Action::Probe { task, cfg, .. } => {
                assert_eq!((task.task_id.as_str(), cfg.session_id), ("t1", 51966));
                probes.push(now);
            }
            Action::Sleep { .. } => now += 1,
            Action::Submit { .. } => panic!("nothing was queued"),
            Action::Continue => {}
        }
    }
    assert_eq!(probes, [100, 130, 160, 190]);
}

#[test]
fn stale_and_unknown_work_is_reported_not_run() {
    let mut l = begin();
    let mut reg = Registry::new();
    assert!(matches!(turn(&mut l, 100), Action::Poll));
    let leased = vec![
        dto("late", "mqp_probe", "sender", false),
        dto("trace", "path_trace", "sender", true),
        dto("serve", "mqp_probe", "reflector", true),
    ];
    l.agent.poll_step(&mut reg, Ok(leased), l.began, at(100), 0);
    l.stage = Stage::Top;

    // The one-shot expired before this turn; a trace is not implemented; and a
    // reflector task needs nothing.
    let mut probes = 0;
    loop {
        match turn(&mut l, 106) {
            Action::Probe { .. } => probes += 1,
            Action::Heartbeat { .. } => {
                l.agent.heartbeat_done(Err(ControllerError::Unauthorized), l.began);
            }
            Action::Submit { results, dropped } => {
                assert_eq!((results.len(), dropped), (2, 0));
                let said = |i: usize| results[i].get("error").unwrap().as_str().unwrap();
                assert_eq!(said(0), "one-shot expired before it could run");
                assert_eq!(said(1), "task kind not implemented in this agent version");
                break;
            }
            Action::Sleep { .. } => panic!("results wait to be submitted"),
            _ => {}
        }
    }
    assert_eq!(probes, 0);
}

#[test]
fn full_batches_are_followed_by_more() {
    let mut l = begin();
    for i in 0..(SUBMIT_BATCH as u64 + 5) {
        l.agent.enqueue(Json::object().with("n", Json::number(i)));
    }
    l.stage = Stage::Submit;
    let Action::Submit { results, .. } = turn(&mut l, 100) else { panic!() };
    assert_eq!(results.len(), SUBMIT_BATCH);
    l.submitted(results.len());
    assert_eq!(l.stage, Stage::Submit);

    let Action::Submit { results, .. } = turn(&mut l, 100) else { panic!() };
    assert_eq!(results.len(), 5);
    l.not_submitted(results);
    assert_eq!((l.stage, l.agent.spool.len()), (Stage::Rest, 5));

    l.stage = Stage::Submit;
    let Action::Submit { results, .. } = turn(&mut l, 100) else { panic!() };
    l.submitted(results.len());
    assert_eq!((l.stage, l.agent.spool.len()), (Stage::Rest, 0));
}
