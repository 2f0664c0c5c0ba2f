use mqagent::spool::{
    Accepted, Spool, SpoolConfig, SpoolStats, DEFAULT_MAX_ENTRIES,
};

/// A spool of 10 with a reserve of 2, so boundaries are easy to reason
/// about. Each entry counts as 1 byte unless stated otherwise.
fn small() -> Spool<u32> {
    Spool::new(SpoolConfig { max_entries: 10, max_bytes: 1_000, onset_reserve: 2 })
}

fn contents(s: &Spool<u32>) -> Vec<u32> {
    (0..s.len()).map(|i| s.get(i).unwrap().0).collect()
}

#[test]
fn empty_spool_reports_nothing() {
    let s = small();
    assert!(s.is_empty());
    assert_eq!(s.stats(), SpoolStats::default());
}

#[test]
fn queues_and_takes_in_order() {
    let mut s = small();
    for i in 0..5 {
        assert_eq!(s.push(i, 1), Accepted::Queued);
    }
    assert_eq!(s.take(10), vec![0, 1, 2, 3, 4], "oldest first");
    assert!(s.is_empty());
    assert_eq!(s.stats().bytes, 0);
}

#[test]
fn take_respects_the_batch_limit() {
    let mut s = small();
    for i in 0..6 {
        s.push(i, 1);
    }
    assert_eq!(s.take(3), vec![0, 1, 2]);
    assert_eq!(contents(&s), vec![3, 4, 5], "remainder stays queued, in order");
}

#[test]
fn overflow_preserves_the_onset_and_the_recent() {
    // The headline behaviour: after a long outage we still hold how it
    // started and what is happening now, with the middle thinned.
    let mut s = small(); // cap 10, reserve 2
    for i in 0..30 {
        s.push(i, 1);
    }

    let held = contents(&s);
    assert_eq!(held.len(), 10);
    assert_eq!(&held[..2], &[0, 1], "onset must survive");
    assert_eq!(
        &held[held.len() - 3..],
        &[27, 28, 29],
        "most recent must survive"
    );
    assert_eq!(s.stats().dropped, 20);
}

#[test]
fn a_plain_ring_buffer_would_have_lost_the_onset() {
    // Guards the design decision itself: if eviction ever reverts to
    // dropping the true front, this fails.
    let mut s = small();
    for i in 0..100 {
        s.push(i, 1);
    }
    assert!(contents(&s).contains(&0), "entry 0 is the onset and is protected");
    assert!(!contents(&s).contains(&50), "middle is what gets thinned");
}

#[test]
fn eviction_is_reported_on_the_push_that_caused_it() {
    let mut s = small();
    for i in 0..10 {
        assert_eq!(s.push(i, 1), Accepted::Queued);
    }
    assert_eq!(s.push(10, 1), Accepted::QueuedEvicting(1));
}

#[test]
fn byte_ceiling_is_enforced_independently_of_count() {
    // 100 bytes total, 10 entries max: the byte cap must bite first.
    let mut s = Spool::new(SpoolConfig { max_entries: 10, max_bytes: 100, onset_reserve: 2 });
    for i in 0..4 {
        s.push(i, 30);
    }
    assert!(s.stats().bytes <= 100, "bytes {} exceeded cap", s.stats().bytes);
    assert!(s.len() < 4, "byte cap should have evicted before the count cap");
}

#[test]
fn an_oversized_result_is_rejected_rather_than_evicting_the_onset() {
    // Degenerate case reachable only through the byte ceiling. Losing one
    // fresh sample beats losing irreplaceable onset data.
    let mut s = Spool::new(SpoolConfig { max_entries: 10, max_bytes: 100, onset_reserve: 2 });
    s.push(1, 40);
    s.push(2, 40);
    assert_eq!(s.push(3, 90), Accepted::Rejected);
    assert_eq!(contents(&s), vec![1, 2], "protected entries untouched");
    assert_eq!(s.stats().dropped, 1);
}

#[test]
fn config_keeps_the_reserve_below_capacity() {
    // A reserve equal to capacity would make a full spool unable to accept
    // anything ever again.
    let cfg = SpoolConfig::new(10, 1000, 100);
    assert!(cfg.onset_reserve < cfg.max_entries);

    let mut s: Spool<u32> = Spool::new(cfg);
    for i in 0..40 {
        s.push(i, 1);
    }
    assert_eq!(s.len(), 10);
    assert!(contents(&s).contains(&39), "newest must still be accepted");
}

#[test]
fn draining_resets_what_counts_as_the_onset() {
    // After a successful submission the spool is empty, so the next
    // outage's first results become the new protected onset. No explicit
    // outage tracking required.
    let mut s = small();
    for i in 0..30 {
        s.push(i, 1);
    }
    let _ = s.take(100);
    assert!(s.is_empty());

    for i in 100..130 {
        s.push(i, 1);
    }
    assert_eq!(&contents(&s)[..2], &[100, 101], "new onset, not the old one");
}

#[test]
fn failed_submission_returns_the_batch_in_order() {
    // A transient error during the POST must not destroy the batch it was
    // trying to save.
    let mut s = small();
    for i in 0..5 {
        s.push(i, 1);
    }
    let batch = s.take(3);
    assert_eq!(batch, vec![0, 1, 2]);

    s.return_unsent(batch.into_iter().map(|i| (i, 1)).collect());
    assert_eq!(contents(&s), vec![0, 1, 2, 3, 4], "order fully restored");
}

#[test]
fn returned_batch_respects_capacity_by_dropping_the_newest() {
    // Returned entries are older than what arrived while the POST was in
    // flight, and the onset outranks recent samples.
    let mut s = small(); // cap 10
    for i in 0..3 {
        s.push(i, 1);
    }
    let batch = s.take(3);
    for i in 50..60 {
        s.push(i, 1);
    }
    assert_eq!(s.len(), 10);

    s.return_unsent(batch.into_iter().map(|i| (i, 1)).collect());
    let held = contents(&s);
    assert_eq!(s.len(), 10, "never exceeds capacity");
    assert_eq!(&held[..3], &[0, 1, 2], "returned entries are at the front");
    assert!(!held.contains(&59), "newest were sacrificed instead");
}

#[test]
fn dropped_counter_separates_this_outage_from_lifetime() {
    let mut s = small();
    for i in 0..20 {
        s.push(i, 1);
    }
    assert_eq!(s.stats().dropped, 10);
    assert_eq!(s.stats().dropped_total, 10);

    // Reported upstream, so the per-outage counter resets; the lifetime
    // figure must not.
    s.clear_dropped();
    assert_eq!(s.stats().dropped, 0);
    assert_eq!(s.stats().dropped_total, 10);
}

#[test]
fn byte_accounting_stays_exact_across_churn() {
    // A leak here silently shrinks effective capacity until the spool
    // refuses everything.
    let mut s = Spool::new(SpoolConfig { max_entries: 50, max_bytes: 10_000, onset_reserve: 5 });
    for round in 0..10 {
        for i in 0..20 {
            s.push(round * 100 + i, 7);
        }
        let _ = s.take(8);
    }
    let expected = (0..s.len()).map(|i| s.get(i).unwrap().1).sum::<usize>();
    assert_eq!(s.stats().bytes, expected);

    let _ = s.take(usize::MAX);
    assert_eq!(s.stats().bytes, 0, "fully drained spool must report zero bytes");
}

#[test]
fn default_config_is_sane_for_the_target_device() {
    let c = SpoolConfig::default();
    assert_eq!(c.max_entries, DEFAULT_MAX_ENTRIES);
    assert!(c.onset_reserve > 0, "onset protection must actually be on");
    assert!(c.onset_reserve < c.max_entries);
    // 8 MB must stay comfortably inside a 64 MB container budget.
    assert!(c.max_bytes <= 16 * 1024 * 1024);
}

#[test]
fn every_result_is_accounted_for() {
    let mut s = small();
    let (mut given, mut handed) = (0usize, 0usize);
    let mut out: Vec<u32> = vec![];
    for i in 0..200u32 {
        s.push(i, 1 + (i as usize * 7) % 200);
        given += 1;
        if i % 13 == 0 {
            out = s.take(4);
            handed += out.len();
        }
        if i % 26 == 0 {
            let back: Vec<(u32, usize)> = out.drain(..).map(|v| (v, 90)).collect();
            given += back.len();
            s.return_unsent(back);
        }
        if i % 31 == 0 {
            s.clear_dropped();
        }
        let t = s.stats();
        assert_eq!(t.entries + t.dropped_total as usize + handed, given);
        assert!(t.dropped <= t.dropped_total);
        let held: usize = (0..s.len()).map(|k| s.get(k).unwrap().1).sum();
        assert_eq!(t.bytes, held);
    }
    assert!(s.stats().dropped_total > 0, "something must have been lost for this to say anything");
}
