use mqagent::agent::report::{
    failure_body, metrics_json, rfc3339, skipped_body, success_body,
};
use mqagent::agent::{
    register_step, registered, registration, verified, verify_step, work_for, Agent, Enrolled,
    Tuning, Verified, Work, NOT_AN_IP, NOT_IMPLEMENTED, NO_PEER, SUBMIT_BATCH,
};
use mqagent::collector::mos::Codec;
use mqagent::collector::stats::{summarise, Sample};
use mqagent::config::Config;
use mqagent::controller::client::{
    check, decode_error, HeartbeatResponse, PeerDto, RegisterResponse, TaskDto,
};
use mqagent::controller::{identity_path, random_unit, Backoff, ControllerError, Identity, WHOLE};
use mqagent::duration::{Duration, Instant};
use mqagent::json::Json;
use mqagent::net::SocketAddr;
use mqagent::probe::reflector::Registry;
use mqagent::spool::Accepted;
use mqagent::tasks::plan::{Kind, Peer, Role, Task};

fn config() -> Config {
    Config::from_source(|k| {
        let v = match k {
            "MQ_CONTROLLER_URL" => "https://c.example.net",
            "MQ_AGENT_NAME" => "yvr-branch-01",
            "MQ_AGENT_GROUP" => "west-wan",
            "MQ_ENROLMENT_TOKEN" => "enrol-secret",
            "MQ_PROBE_PORT" => "5401",
            "MQ_SPOOL_MAX_ENTRIES" => "250",
            _ => return None,
        };
        Some(v.to_string())
    })
    .unwrap()
}

fn secs(n: u64) -> Duration {
    Duration::from_secs(n)
}

fn at(n: u64) -> Instant {
    Instant { nanos: n as u128 * 1_000_000_000 }
}

fn agent() -> Agent {
    Agent::assemble(&config(), at(100))
}

fn dto(id: &str, role: &str, recurring: bool) -> TaskDto {
    TaskDto {
        task_id: id.into(),
        session_id: "51966".into(),
        kind: "mqp_probe".into(),
        role: role.into(),
        peer: Some(PeerDto {
            agent_id: "b".into(),
            name: "probe-b".into(),
            address: "10.0.0.7".into(),
            probe_port: 5301,
        }),
        params: Json::object(),
        recurring,
        interval_s: Some(30),
        expires_in_s: Some(5),
    }
}

fn task(params: &str) -> Task {
    Task {
        task_id: "t1".into(),
        session_id: u64::MAX,
        kind: Kind::MqpProbe,
        role: Role::Sender,
        peer: Some(Peer {
            agent_id: "b".into(),
            name: "probe-b".into(),
            address: "10.0.0.7".into(),
            probe_port: 5301,
        }),
        params: Json::parse(params).unwrap(),
        recurring: true,
        interval: None,
    }
}

fn text_of(body: &Json, key: &str) -> String {
    body.get(key).unwrap().as_str().unwrap().to_string()
}

#[test]
fn a_stored_identity_is_given_up_only_when_it_is_rejected() {
    let mut b = Backoff::new(secs(1), secs(60));
    assert_eq!(verify_step(Ok(()), &mut b, WHOLE), Verified::Usable);
    assert_eq!(verify_step(Err(ControllerError::Unauthorized), &mut b, WHOLE), Verified::Revoked);
    let odd = ControllerError::Http { status: 404, body: String::new() };
    assert_eq!(verify_step(Err(odd), &mut b, WHOLE), Verified::Usable);
    assert_eq!(b.attempt(), 0);

    let down = || ControllerError::Transport("unreachable".into());
    assert_eq!(verify_step(Err(down()), &mut b, WHOLE), Verified::Retry(secs(1)));
    assert_eq!(verify_step(Err(down()), &mut b, WHOLE), Verified::Retry(secs(2)));
    match verified(Err(down()), &mut b) {
        Verified::Retry(d) => assert!(d >= secs(1) && d <= secs(4), "{d:?}"),
        other => panic!("{other:?}"),
    }
    assert_eq!(b.attempt(), 3);
}

#[test]
fn registration_is_retried_until_it_is_answered() {
    let mut b = Backoff::new(secs(1), secs(60));
    let busy = || ControllerError::Http { status: 503, body: "busy".into() };
    assert_eq!(register_step(Err(busy()), &mut b, WHOLE), Enrolled::Retry(secs(1)));
    assert!(matches!(registered(Err(busy()), &mut b), Enrolled::Retry(_)));

    let no = register_step(Err(ControllerError::Unauthorized), &mut b, WHOLE);
    assert_eq!(
        no,
        Enrolled::Rejected("registration rejected: controller rejected our credentials".into())
    );

    let reply = RegisterResponse {
        agent_id: "b2c3".into(),
        token: "secret-token".into(),
        group: "west-wan".into(),
        poll_interval_s: None,
        heartbeat_interval_s: Some(30),
    };
    let id = Identity {
        agent_id: "b2c3".into(),
        token: "secret-token".into(),
        group: "west-wan".into(),
    };
    let tuning = Tuning { poll: None, heartbeat: Some(secs(30)) };
    assert_eq!(register_step(Ok(reply), &mut b, 0), Enrolled::Registered(id, tuning));
}

#[test]
fn the_controller_retunes_the_agent() {
    let mut a = agent();
    assert_eq!((a.poll_interval, a.heartbeat_interval), (secs(10), secs(30)));
    a.retune(Tuning { poll: None, heartbeat: Some(secs(45)) });
    assert_eq!((a.poll_interval, a.heartbeat_interval), (secs(10), secs(45)));

    let h = HeartbeatResponse::read(r#"{"poll_interval_s": 20, "reregister": true, "new": 1}"#);
    assert_eq!(h, HeartbeatResponse { poll_interval_s: Some(20), reregister: true });
    assert!(a.heartbeat_done(Ok(h), at(100)), "it asks for a registration");
    assert_eq!((a.poll_interval, a.next_heartbeat), (secs(20), at(145)));
    let mut reg = Registry::new();
    a.poll_step(&mut reg, Ok(vec![]), at(100), at(100), 0);
    assert_eq!(a.next_poll, at(120));

    // A registration that fails changes nothing; one that succeeds retunes too.
    assert_eq!(a.reregistered(Err(ControllerError::Unauthorized)), None);
    assert_eq!((a.poll_interval, a.heartbeat_interval), (secs(20), secs(45)));
    let reply = RegisterResponse {
        agent_id: "b2c3".into(),
        token: "t2".into(),
        group: "west-wan".into(),
        poll_interval_s: Some(5),
        heartbeat_interval_s: None,
    };
    assert_eq!(a.reregistered(Ok(reply)).unwrap().token, "t2");
    assert_eq!((a.poll_interval, a.heartbeat_interval), (secs(5), secs(45)));
}

#[test]
fn a_heartbeat_answer_may_say_nothing() {
    for body in ["", "not json", "{}", r#"{"reregister": "yes", "poll_interval_s": -1}"#] {
        assert_eq!(HeartbeatResponse::read(body), HeartbeatResponse::default(), "{body}");
    }
}

#[test]
fn a_draw_stays_within_the_whole() {
    for _ in 0..1_000 {
        assert!(random_unit() < WHOLE);
    }
    let first = random_unit();
    assert!((0..100).any(|_| random_unit() != first), "draws must differ");
}

#[test]
fn the_agent_registers_as_configured() {
    let r = registration(&config(), Some("b2c3".into()), "1.2.3", Some("203.0.113.24".into()));
    assert_eq!(r.agent_id.as_deref(), Some("b2c3"));
    assert_eq!((r.name.as_str(), r.group.as_str()), ("yvr-branch-01", "west-wan"));
    assert_eq!(r.version, "1.2.3");
    assert!(r.capabilities.mqp && !r.capabilities.twamp_light && !r.capabilities.routeros_btest);
    assert_eq!(r.capabilities.probe_port, 5401);
    assert_eq!(r.advertise_addr.as_deref(), Some("203.0.113.24"));
    assert_eq!(r.host.board, None);
}

#[test]
fn leased_tasks_reach_the_plan_and_the_reflector() {
    let (mut a, mut reg) = (agent(), Registry::new());
    assert!(a.poll_due(at(100)) && a.heartbeat_due(at(100)));
    let mut odd = dto("t9", "sender", true);
    odd.kind = "quantum_ping".into();
    let mut nobody = dto("t8", "reflector", true);
    nobody.peer = None;
    let leased = vec![
        dto("t1", "sender", true),
        odd,
        dto("t2", "reflector", true),
        nobody,
        dto("t3", "sender", false),
    ];
    a.poll_step(&mut reg, Ok(leased), at(100), at(101), 0);

    assert_eq!(a.plan.recurring_len(), 3, "the task that cannot be interpreted is ignored");
    assert_eq!(a.plan.oneshot_len(), 1);
    assert_eq!(reg.active_count(), 1, "a grant without a peer grants nobody");
    assert_eq!(reg.session(51966).unwrap().peer, SocketAddr::parse("10.0.0.7:5301").unwrap());
    let standing = reg.session(51966).unwrap();
    assert!(standing.standing && standing.until.is_none(), "continuous work is not leased");
    assert_eq!(a.next_poll, at(110));
    assert_eq!(a.last_error, None);

    // The next poll withdraws what it no longer lists, but not the one-shot.
    a.polled(&mut reg, Ok(vec![dto("t2", "sender", true)]), at(110), at(111));
    assert_eq!((a.plan.recurring_len(), a.plan.oneshot_len()), (1, 1));
    // One that lists no recurring work withdraws none.
    a.polled(&mut reg, Ok(vec![]), at(120), at(121));
    assert_eq!(a.plan.recurring_len(), 1);
}

#[test]
fn a_one_shot_grant_ends_with_its_lease() {
    let (mut a, mut reg) = (agent(), Registry::new());
    a.poll_step(&mut reg, Ok(vec![dto("t1", "reflector", false)]), at(100), at(101), 0);
    let s = reg.session(51966).unwrap();
    assert_eq!((s.standing, s.active_at, s.until), (false, Some(at(101)), Some(at(106))));
    reg.retire(at(105), secs(2), secs(300));
    assert_eq!(reg.active_count(), 1);
    reg.retire(at(106), secs(2), secs(300));
    assert_eq!(reg.active_count(), 0);
}

#[test]
fn a_failed_poll_cancels_nothing() {
    let (mut a, mut reg) = (agent(), Registry::new());
    a.poll_step(&mut reg, Ok(vec![dto("t1", "sender", true)]), at(100), at(100), 0);
    let down = || ControllerError::Transport("unreachable".into());
    a.poll_step(&mut reg, Err(down()), at(110), at(111), WHOLE);
    assert_eq!(a.plan.recurring_len(), 1);
    assert_eq!(a.last_error.as_deref(), Some("transport error: unreachable"));
    assert_eq!(a.next_poll, at(111), "the base delay after the first failure");
    a.poll_step(&mut reg, Err(down()), at(111), at(112), WHOLE);
    assert_eq!(a.next_poll, at(113));
    a.polled(&mut reg, Err(down()), at(113), at(114));
    assert!(a.next_poll >= at(114) && a.next_poll <= at(117));
    a.poll_step(&mut reg, Ok(vec![]), at(120), at(120), WHOLE);
    assert_eq!((a.comms.attempt(), a.next_poll, a.last_error.clone()), (0, at(130), None));
}

#[test]
fn abandoned_one_shots_are_reported() {
    let (mut a, mut reg) = (agent(), Registry::new());
    a.poll_step(&mut reg, Ok(vec![dto("o1", "sender", false)]), at(100), at(100), 0);
    a.reap(at(104), 0);
    assert_eq!(a.spool.len(), 0);
    a.reap(at(105), 1_790_035_200_000_000_000);
    assert_eq!((a.plan.oneshot_len(), a.spool.len()), (0, 1));
    let body = &a.spool.get(0).unwrap().0;
    assert_eq!(text_of(body, "status"), "skipped");
    assert_eq!(text_of(body, "error"), "one-shot expired before it could run");
    assert_eq!(text_of(body, "started_at"), "2026-09-22T00:00:00Z");
}

#[test]
fn a_heartbeat_tells_of_losses_once() {
    let mut a = agent();
    for i in 0..260u64 {
        a.enqueue(Json::object().with("n", Json::number(i)));
    }
    let h = a.heartbeat_request(Duration::from_millis(90_500), 3);
    assert_eq!((h.uptime_s, h.active_sessions), (90, 3));
    assert_eq!((h.spool_dropped, h.spool_depth), (10, 250));
    assert_eq!(h.last_error, None);

    let quiet = HeartbeatResponse::default();
    assert!(!a.heartbeat_done(Err(ControllerError::Unauthorized), at(100)));
    assert_eq!(a.spool.stats().dropped, 10, "nobody was told");
    assert!(!a.heartbeat_done(Ok(quiet), at(130)));
    assert_eq!(a.spool.stats().dropped, 0);
    assert_eq!(a.next_heartbeat, at(160));
    assert!(!a.heartbeat_due(at(159)) && a.heartbeat_due(at(160)));
}

#[test]
fn results_are_accounted_for_with_their_written_size() {
    let mut a = agent();
    let body = Json::object().with("name", Json::text("é"));
    assert_eq!(body.render(), "{\"name\":\"é\"}");
    assert_eq!(a.enqueue(body), Accepted::Queued);
    assert_eq!(a.spool.stats().bytes, 13, "bytes, not characters");
}

#[test]
fn a_failed_submission_puts_the_batch_back() {
    let mut a = agent();
    for i in 0..230u64 {
        a.enqueue(Json::object().with("n", Json::number(i)));
    }
    let bytes = a.spool.stats().bytes;
    let (batch, dropped) = a.next_batch().unwrap();
    assert_eq!((batch.len(), dropped), (SUBMIT_BATCH, 0));
    a.batch_failed(batch);
    assert_eq!((a.spool.len(), a.spool.stats().bytes, a.spool.stats().dropped), (230, bytes, 0));
    assert_eq!(a.spool.get(0).unwrap().0.get("n").unwrap().as_u64(), Some(0));

    let (batch, _) = a.next_batch().unwrap();
    assert!(a.batch_sent(batch.len()), "there is more");
    let (batch, _) = a.next_batch().unwrap();
    assert!(a.batch_sent(batch.len()));
    let (batch, _) = a.next_batch().unwrap();
    assert_eq!(batch.len(), 30);
    assert!(!a.batch_sent(batch.len()));
    assert!(a.next_batch().is_none());
}

#[test]
fn the_agent_neither_spins_nor_oversleeps() {
    let (mut a, mut reg) = (agent(), Registry::new());
    assert_eq!(a.sleep(at(100)), Duration::from_millis(50), "a poll is due");
    a.poll_step(&mut reg, Ok(vec![dto("t1", "sender", true)]), at(100), at(100), 0);
    assert!(a.plan.next_due(at(100)).is_some());
    assert_eq!(a.sleep(at(100)), secs(5), "five seconds at most");
    assert_eq!(a.sleep(at(107)), secs(3), "until the next poll");
    a.next_poll = at(1_000);
    assert_eq!(a.sleep(at(128)), secs(2), "until the task is due");
    assert_eq!(a.sleep(at(130)), Duration::from_millis(50));
}

#[test]
fn a_probe_task_becomes_a_run() {
    let t = task(r#"{"count": 300, "interval_ms": 5, "payload_bytes": 512, "timeout_ms": 250, "dscp": 46, "codec": "g729"}"#);
    let Work::Probe { cfg, codec } = work_for(&t) else { panic!("expected a probe") };
    assert_eq!(cfg.session_id, u64::MAX);
    assert_eq!(cfg.peer, SocketAddr::parse("10.0.0.7:5301").unwrap());
    assert_eq!((cfg.count, cfg.payload_bytes, cfg.dscp), (300, 512, Some(46)));
    assert_eq!(cfg.interval, Duration::from_millis(5));
    assert_eq!(cfg.timeout, Duration::from_millis(250));
    assert_eq!(cfg.linger, secs(2));
    assert_eq!(codec, Codec::G729);

    let Work::Probe { cfg, codec } = work_for(&task(r#"{"count": "many", "codec": "mp3"}"#)) else {
        panic!("expected a probe")
    };
    assert_eq!((cfg.count, cfg.payload_bytes, cfg.dscp), (100, 172, None));
    assert_eq!(cfg.interval, Duration::from_millis(20));
    assert_eq!(cfg.timeout, secs(1));
    assert_eq!(codec, Codec::G711);
}

#[test]
fn a_task_that_cannot_run_is_skipped_with_a_reason() {
    let skip = |t: &Task| match work_for(t) {
        Work::Skip { reason } => reason,
        other => panic!("{other:?}"),
    };
    let mut t = task("{}");
    t.role = Role::Reflector;
    assert!(matches!(work_for(&t), Work::Serve));
    t.role = Role::Sender;
    t.peer.as_mut().unwrap().address = "probe-b.example.net".into();
    assert_eq!(skip(&t), NOT_AN_IP);
    t.peer = None;
    assert_eq!(skip(&t), NO_PEER);
    t.kind = Kind::TwampProbe;
    assert_eq!(skip(&t), NOT_IMPLEMENTED);

    let mut a = agent();
    a.skip(&t, NOT_IMPLEMENTED, 0);
    assert_eq!(text_of(&a.spool.get(0).unwrap().0, "error"), NOT_IMPLEMENTED);
}

#[test]
fn results_carry_the_session_in_decimal() {
    let t = task("{}");
    let s = skipped_body(&t, 0, "why");
    assert_eq!(text_of(&s, "session_id"), "18446744073709551615");
    assert_eq!(text_of(&s, "task_id"), "t1");
    assert_eq!(text_of(&s, "ended_at"), "1970-01-01T00:00:00Z");
    let f = failure_body(&t, 0, 1_500_000_000, "boom");
    assert_eq!(text_of(&f, "status"), "failed");
    assert_eq!(text_of(&f, "error"), "boom");
    assert_eq!(text_of(&f, "ended_at"), "1970-01-01T00:00:01.5Z");
}

#[test]
fn a_moment_outside_the_format_has_no_text() {
    assert_eq!(rfc3339(1_790_035_200_123_000_000), "2026-09-22T00:00:00.123Z");
    assert_eq!(rfc3339(i128::MAX), "");
    assert_eq!(rfc3339(-1_000_000_000), "1969-12-31T23:59:59Z");
}

#[test]
fn a_run_without_replies_is_partial() {
    let t = task("{}");
    let m = summarise(4, &[], Some(46));
    let b = success_body(&t, 0, 0, &m, Json::Null);
    assert_eq!(text_of(&b, "status"), "partial");
    assert_eq!(
        b.get("loss").unwrap().render(),
        r#"{"forward_lost":0,"loss_pct":100.0,"received":0,"reverse_lost":0,"sent":4,"unknown_direction":4}"#
    );
    assert!(matches!(b.get("rtt").unwrap(), Json::Null));
    assert!(matches!(b.get("mos").unwrap(), Json::Null));

    let s = |seq: u32| Sample {
        seq,
        reflector_seq: Some(seq),
        rtt_ns: 10_000_000,
        tx_dscp: 46,
        rx_dscp: Some(46),
        arrival_index: seq,
    };
    let m = summarise(3, &[s(0), s(1)], Some(46));
    let b = success_body(&t, 0, 0, &m, Json::number(4));
    assert_eq!(text_of(&b, "status"), "ok");
    assert_eq!(b.get("rtt").unwrap().get("avg_us").unwrap().as_u64(), Some(10_000));
    assert_eq!(b.get("jitter").unwrap().render(), r#"{"ipdv_avg_us":0,"pdv_p95_us":0}"#);
    assert_eq!(
        b.get("reorder").unwrap().render(),
        r#"{"duplicated":0,"max_displacement":0,"reordered":0}"#
    );
    assert_eq!(
        b.get("dscp").unwrap().render(),
        r#"{"conformant_pct":100.0,"observed_mode":46,"requested":46}"#
    );
    let pct = metrics_json(&m).get("loss").unwrap().get("loss_pct").unwrap().render();
    assert_eq!(pct, "33.33");
    let one = metrics_json(&summarise(8, &[s(0)], None));
    assert_eq!(one.get("loss").unwrap().get("loss_pct").unwrap().render(), "87.5");
}

#[test]
fn replies_of_the_controller_are_judged_by_their_status() {
    assert!(check(200, "").is_ok() && check(299, "").is_ok());
    assert_eq!(check(401, "x"), Err(ControllerError::Unauthorized));
    assert_eq!(check(403, "x"), Err(ControllerError::Unauthorized));
    for status in [199, 300, 404, 500] {
        assert_eq!(check(status, "x"), Err(ControllerError::Http { status, body: "x".into() }));
    }
    assert_eq!(
        decode_error("expected value", "<html>").message(),
        "could not parse controller response: expected value (body: <html>)"
    );
    let long = "é".repeat(151);
    let Err(ControllerError::Http { body, .. }) = check(500, &long) else { panic!() };
    assert_eq!(body, format!("{}…", "é".repeat(150)), "cut between characters");
    assert_eq!(
        ControllerError::Http { status: 500, body: "x".into() }.message(),
        "controller returned 500: x"
    );
    assert_eq!(ControllerError::State("full".into()).message(), "state directory error: full");
}

#[test]
fn tasks_that_cannot_be_read_are_named() {
    let said = |d: TaskDto| d.into_plan().err().unwrap().message();
    let mut d = dto("t1", "sender", true);
    d.session_id = " 0XCAFE ".into();
    assert_eq!(d.into_plan().ok().unwrap().0.session_id, 0xCAFE);
    let mut d = dto("t1", "by\"stander", true);
    d.session_id = "x".into();
    assert_eq!(said(d), "could not parse controller response: unknown role \"by\\\"stander\"");
    let mut d = dto("t1", "sender", true);
    d.session_id = "18446744073709551616".into();
    assert_eq!(
        said(d),
        "could not parse controller response: bad session_id \"18446744073709551616\""
    );
    let mut d = dto("t1", "sender", true);
    d.kind = "quantum_ping".into();
    assert_eq!(said(d), "could not parse controller response: unknown task kind \"quantum_ping\"");
}

#[test]
fn the_identity_lives_in_the_state_directory() {
    assert_eq!(identity_path("/var/lib/mqagent"), "/var/lib/mqagent/identity.json");
    assert_eq!(identity_path("/state/"), "/state/identity.json");
    assert_eq!(identity_path(""), "identity.json");
}

#[test]
fn a_delay_is_a_share_of_the_window() {
    let mut b = Backoff::new(secs(1), secs(300));
    b.next_delay(0);
    b.next_delay(0);
    b.next_delay(0);
    assert_eq!(b.next_delay(WHOLE / 2), secs(4), "half of eight seconds");
    assert_eq!(b.next_delay(u32::MAX), secs(16), "a draw above the whole is the whole");
    let mut cramped = Backoff::new(secs(10), secs(3));
    assert_eq!(cramped.next_delay(0), secs(3), "the limit holds even below the base");
}
