use mqagent::collector::stats::{summarise, Percent, Sample};

fn sample(seq: u32, rtt_us: u64, arrival: u32) -> Sample {
    Sample {
        seq,
        reflector_seq: Some(seq),
        rtt_ns: rtt_us * 1_000,
        tx_dscp: 46,
        rx_dscp: Some(46),
        arrival_index: arrival,
    }
}

fn clean_run(n: u32, rtt_us: u64) -> Vec<Sample> {
    (0..n).map(|i| sample(i, rtt_us, i)).collect()
}

#[test]
fn perfect_run_has_no_loss_or_jitter() {
    let s = clean_run(100, 10_000);
    let m = summarise(100, &s, Some(46));

    assert_eq!(m.loss.loss_pct, Percent { hundredths: 0 });
    assert_eq!(m.loss.received, 100);
    assert_eq!(m.jitter.unwrap().ipdv_avg_us, 0, "constant RTT means zero jitter");
    assert_eq!(m.reorder.reordered, 0);
    assert_eq!(m.rtt.unwrap().avg_us, 10_000);
    assert_eq!(m.dscp.unwrap().conformant_pct, Percent { hundredths: 10000 });
}

#[test]
fn rtt_percentiles_track_the_tail() {
    let mut s = clean_run(99, 10_000);
    s.push(sample(99, 500_000, 99)); // one 500 ms outlier
    let r = summarise(100, &s, None).rtt.unwrap();

    assert_eq!(r.min_us, 10_000);
    assert_eq!(r.max_us, 500_000);
    assert_eq!(r.p50_us, 10_000, "median must ignore a single outlier");
    assert_eq!(r.p99_us, 10_000);
    assert!(r.avg_us > 10_000, "mean is dragged up where the median is not");
}

#[test]
fn jitter_uses_send_order_not_arrival_order() {
    // Alternating 10 ms / 20 ms RTT gives a 10 ms IPDV, but the packets
    // arrive scrambled. Sorting by arrival instead of seq would report a
    // different, wrong figure.
    let samples = vec![
        sample(0, 10_000, 0),
        sample(2, 10_000, 1),
        sample(1, 20_000, 2),
        sample(3, 20_000, 3),
    ];
    let j = summarise(4, &samples, None).jitter.unwrap();
    // |20-10| + |10-20| + |20-10| over the three consecutive pairs.
    assert_eq!(j.ipdv_avg_us, 10_000);
}

#[test]
fn jitter_skips_across_loss_gaps() {
    // seq 1 is missing; 0→2 is not a consecutive pair and must not
    // contribute an IPDV delta.
    let samples = vec![sample(0, 10_000, 0), sample(2, 50_000, 1), sample(3, 50_000, 2)];
    let j = summarise(4, &samples, None).jitter.unwrap();
    assert_eq!(j.ipdv_avg_us, 0, "only the 2→3 pair qualifies, and it is flat");
}

#[test]
fn total_loss_is_reported_as_unattributable() {
    let m = summarise(100, &[], None);
    assert_eq!(m.loss.loss_pct, Percent { hundredths: 10000 });
    assert_eq!(m.loss.unknown_direction, 100);
    assert_eq!(m.loss.forward_lost, 0, "must not invent a direction");
    assert_eq!(m.loss.reverse_lost, 0);
    assert!(m.rtt.is_none());
}

#[test]
fn reverse_loss_is_distinguished_from_forward_loss() {
    // The reflector generated 10 replies (reflector_seq 0..9) but only 8
    // reached us — so 2 died on the return path, not the forward path.
    let samples: Vec<Sample> = (0..8)
        .map(|i| Sample { reflector_seq: Some(i), ..sample(i, 10_000, i) })
        .chain(std::iter::once(Sample {
            seq: 9,
            reflector_seq: Some(9),
            ..sample(9, 10_000, 8)
        }))
        .collect();

    let l = summarise(10, &samples, None).loss;
    assert_eq!(l.received, 9);
    assert_eq!(l.reverse_lost, 1);
    assert_eq!(l.forward_lost, 0);
}

#[test]
fn a_protocol_that_cannot_attribute_direction_reports_undetermined() {
    // TWAMP-Light: the responder's counter spans every peer, so gaps mean
    // nothing about this sender's return path. Attributing them would have
    // reported heavy reverse loss on a perfectly healthy path.
    let samples: Vec<Sample> = (0..8)
        .map(|i| Sample { reflector_seq: None, ..sample(i, 10_000, i) })
        .collect();
    let l = summarise(10, &samples, None).loss;

    assert_eq!(l.unknown_direction, 2);
    assert_eq!(l.forward_lost, 0);
    assert_eq!(l.reverse_lost, 0);
    assert_eq!(l.loss_pct, Percent { hundredths: 2000 }, "the loss figure itself is still correct");
}

#[test]
fn interleaved_counters_would_have_faked_reverse_loss() {
    // The concrete failure: a shared upstream answering two customers. This
    // sender got every packet back, but the counter jumped because someone
    // else's replies consumed values in between.
    let samples: Vec<Sample> = (0..5)
        .map(|i| Sample { reflector_seq: None, ..sample(i, 10_000, i) })
        .collect();
    let l = summarise(5, &samples, None).loss;
    assert_eq!(l.loss_pct, Percent { hundredths: 0 });
    assert_eq!(l.reverse_lost, 0, "a healthy path must not report reverse loss");
}

#[test]
fn reordering_is_detected_with_displacement() {
    // Sent 0,1,2,3,4 — arrived 0,1,4,2,3.
    let samples = vec![
        sample(0, 10_000, 0),
        sample(1, 10_000, 1),
        sample(4, 10_000, 2),
        sample(2, 10_000, 3),
        sample(3, 10_000, 4),
    ];
    let r = summarise(5, &samples, None).reorder;
    assert_eq!(r.reordered, 2, "seq 2 and 3 both arrived after seq 4");
    assert_eq!(r.max_displacement, 2, "seq 2 arrived while high-water was 4");
}

#[test]
fn duplicates_are_counted() {
    let samples =
        vec![sample(0, 10_000, 0), sample(1, 10_000, 1), sample(1, 10_000, 2)];
    assert_eq!(summarise(2, &samples, None).reorder.duplicated, 1);
}

#[test]
fn dscp_remarking_shows_up_as_non_conformance() {
    // Asked for EF (46); half the path bleached it to best-effort.
    let samples: Vec<Sample> = (0..10)
        .map(|i| Sample { rx_dscp: Some(if i < 5 { 46 } else { 0 }), ..sample(i, 10_000, i) })
        .collect();
    let d = summarise(10, &samples, Some(46)).dscp.unwrap();
    assert_eq!(d.conformant_pct, Percent { hundredths: 5000 });
    assert_eq!(d.requested, 46);
}

#[test]
fn a_peer_that_cannot_report_dscp_yields_no_figure() {
    // TWAMP, or a kernel that withheld the control message. Calling that
    // "0% conformant" would read as a total QoS failure.
    let samples: Vec<Sample> =
        (0..10).map(|i| Sample { rx_dscp: None, ..sample(i, 10_000, i) }).collect();
    assert!(summarise(10, &samples, Some(46)).dscp.is_none());
}

#[test]
fn a_path_that_bleaches_the_marking_is_reported_as_zero_percent() {
    // The real case, measured toward an upstream POP: the reflector saw
    // every packet arrive as best-effort. That is the single most useful
    // thing this metric can tell an operator, and a heuristic could hide it
    // behind "not echoed by peer".
    let samples: Vec<Sample> =
        (0..10).map(|i| Sample { rx_dscp: Some(0), ..sample(i, 10_000, i) }).collect();
    let d = summarise(10, &samples, Some(46)).dscp.expect("bleaching must be reported");
    assert_eq!(d.conformant_pct, Percent { hundredths: 0 });
    assert_eq!(d.observed_mode, 0, "everything arrived best-effort");
    assert_eq!(d.requested, 46);
}

#[test]
fn best_effort_request_still_reports_when_echo_is_zero() {
    // The converse: if we asked for DSCP 0, an all-zero echo is a real
    // 100% conformant result, not missing data.
    let samples: Vec<Sample> = (0..10)
        .map(|i| Sample { tx_dscp: 0, rx_dscp: Some(0), ..sample(i, 10_000, i) })
        .collect();
    let d = summarise(10, &samples, Some(0)).dscp.unwrap();
    assert_eq!(d.conformant_pct, Percent { hundredths: 10000 });
}

#[test]
fn stddev_survives_large_latencies() {
    // A 2 s RTT in microseconds squared overflows u64; the variance path
    // must stay in u128.
    let samples =
        vec![sample(0, 2_000_000, 0), sample(1, 2_000_000, 1), sample(2, 2_000_000, 2)];
    let r = summarise(3, &samples, None).rtt.unwrap();
    assert_eq!(r.stddev_us, 0);
    assert_eq!(r.avg_us, 2_000_000);
}

#[test]
fn single_sample_yields_rtt_but_not_jitter() {
    let m = summarise(1, &[sample(0, 10_000, 0)], None);
    assert!(m.rtt.is_some());
    assert!(m.jitter.is_none(), "jitter is undefined for one packet");
}

#[test]
fn jitter_is_the_same_in_any_order_of_arrival() {
    let sent = vec![
        sample(0, 10_000, 0),
        sample(1, 25_000, 1),
        sample(2, 11_000, 2),
        sample(4, 40_000, 3),
        sample(5, 12_000, 4),
    ];
    let want = summarise(6, &sent, None).jitter;
    for order in [[4, 3, 2, 1, 0], [2, 0, 4, 1, 3], [1, 0, 3, 2, 4]] {
        let arrived: Vec<Sample> = order
            .iter()
            .enumerate()
            .map(|(i, k)| Sample { arrival_index: i as u32, ..sent[*k] })
            .collect();
        assert_eq!(summarise(6, &arrived, None).jitter, want);
    }
    assert_eq!(want.unwrap().ipdv_avg_us, (15_000 + 14_000 + 28_000) / 3);
}
