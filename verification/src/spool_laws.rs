//! What a spool keeps and what it gives up: never more than it has to.

use vstd::prelude::*;

use crate::spool::{Accepted, SpoolConfig, SpoolState};

verus! {

/// The weight of a queue is the sizes of its results, added up.
pub proof fn law_weights_add_up<T>(q: Seq<(T, usize)>)
    ensures
        crate::spool::weight(q) == q.fold_left(0, |a: int, e: (T, usize)| a + e.1),
    decreases q.len(),
{
    reveal(Seq::fold_left);
    if q.len() > 0 {
        law_weights_add_up(q.drop_last());
    }
}

proof fn lemma_weight_add<T>(a: Seq<(T, usize)>, b: Seq<(T, usize)>)
    ensures
        crate::spool::weight(a + b) == crate::spool::weight(a) + crate::spool::weight(b),
    decreases b.len(),
{
    if b.len() == 0 {
        assert(a + b =~= a);
    } else {
        lemma_weight_add(a, b.drop_last());
        assert((a + b).drop_last() =~= a + b.drop_last());
    }
}

proof fn lemma_weight_remove<T>(q: Seq<(T, usize)>, r: int)
    requires
        0 <= r < q.len(),
    ensures
        crate::spool::weight(q.remove(r)) + q[r].1 == crate::spool::weight(q),
{
    lemma_weight_add(q.take(r), q.skip(r + 1));
    lemma_weight_add(q.take(r).push(q[r]), q.skip(r + 1));
    assert(q.take(r).push(q[r]).drop_last() =~= q.take(r));
    assert(q =~= q.take(r).push(q[r]) + q.skip(r + 1));
    assert(q.remove(r) =~= q.take(r) + q.skip(r + 1));
}

proof fn lemma_rejoined<T>(q: Seq<(T, usize)>, kept: Seq<(T, usize)>, r: int)
    requires
        kept.len() == q.len(),
        ({
            let onset: int = if q.len() <= r {
                q.len() as int
            } else {
                r
            };
            0 <= onset && kept == q.take(onset) + q.skip(onset)
        }),
    ensures
        kept == q,
{
    assert(kept =~= q);
}

/// A result for which there is room is queued behind the others, nothing is
/// given up for it, and the answer says so.
pub proof fn law_nothing_is_given_up_while_there_is_room<T>(
    s: SpoolState<T>,
    cfg: SpoolConfig,
    item: T,
    bytes: usize,
)
    requires
        s.queue.len() + 1 <= cfg.max_entries,
        crate::spool::weight(s.queue) + bytes <= cfg.max_bytes,
    ensures
        crate::spool::pushed(s, cfg, item, bytes).queue == s.queue.push((item, bytes)),
        crate::spool::pushed(s, cfg, item, bytes).lost == s.lost,
        crate::spool::pushed(s, cfg, item, bytes).lost_ever == s.lost_ever,
        crate::spool::answer(s.queue, cfg, bytes) == Accepted::Queued,
{
}

/// No more is given up than has to be: had the last result that went been kept,
/// the newcomer would not have had room.
pub proof fn law_no_more_is_given_up_than_has_to_be<T>(
    q: Seq<(T, usize)>,
    cfg: SpoolConfig,
    bytes: usize,
)
    ensures
        ({
            let kept = crate::spool::thinned(q, cfg, bytes);
            let gone = q.len() - kept.len();
            gone > 0 ==> {
                let last = q[cfg.onset_reserve + gone - 1];
                kept.len() + 1 >= cfg.max_entries || crate::spool::weight(kept) + last.1 + bytes
                    > cfg.max_bytes
            }
        }),
    decreases q.len(),
{
    let r = cfg.onset_reserve as int;
    if !(crate::spool::fits(q, cfg, bytes) || q.len() <= cfg.onset_reserve) {
        let rest = q.remove(r);
        let kept = crate::spool::thinned(rest, cfg, bytes);
        law_no_more_is_given_up_than_has_to_be(rest, cfg, bytes);
        crate::spool::law_thinning_takes_the_middle(rest, cfg, bytes);
        let gone = rest.len() - kept.len();
        assert(kept == crate::spool::thinned(q, cfg, bytes));
        if gone > 0 {
            assert(rest[r + gone - 1] == q[r + gone]);
        } else {
            assert(kept == rest) by {
                lemma_rejoined(rest, kept, r);
            }
            lemma_weight_remove(q, r);
        }
    }
}

/// The answer to a push says what became of it: whether the result was queued,
/// and how many others went for it.
pub proof fn law_the_answer_says_what_became_of_it<T>(
    s: SpoolState<T>,
    cfg: SpoolConfig,
    item: T,
    bytes: usize,
)
    requires
        s.queue.len() <= usize::MAX,
    ensures
        ({
            let after = crate::spool::pushed(s, cfg, item, bytes);
            match crate::spool::answer(s.queue, cfg, bytes) {
                Accepted::Queued => after.queue == s.queue.push((item, bytes)),
                Accepted::QueuedEvicting(n) => n > 0 && after.queue.len() == s.queue.len() + 1 - n
                    && after.queue.last() == (item, bytes),
                Accepted::Rejected => after.queue.len() <= s.queue.len() && (after.queue.len()
                    >= cfg.max_entries || crate::spool::weight(after.queue) + bytes
                    > cfg.max_bytes),
            }
        }),
{
    crate::spool::law_thinning_takes_the_middle(s.queue, cfg, bytes);
    let kept = crate::spool::thinned(s.queue, cfg, bytes);
    if kept.len() == s.queue.len() {
        let onset: int = if s.queue.len() <= cfg.onset_reserve {
            s.queue.len() as int
        } else {
            cfg.onset_reserve as int
        };
        assert(kept =~= s.queue);
    }
}

/// Taking hands out the oldest results, as many as are asked for or as there
/// are, and loses nothing; clearing forgets the losses that were reported and
/// nothing else.
pub proof fn law_what_taking_and_clearing_change<T>(s: SpoolState<T>, max: usize)
    ensures
        ({
            let after = crate::spool::taken(s, max);
            let n = crate::spool::taking(s, max);
            &&& n <= max && n <= s.queue.len()
            &&& n < max ==> n == s.queue.len()
            &&& s.queue == s.queue.take(n as int) + after.queue
            &&& after.lost == s.lost && after.lost_ever == s.lost_ever
        }),
        crate::spool::cleared(s).lost == 0,
        crate::spool::cleared(s).queue == s.queue,
        crate::spool::cleared(s).lost_ever == s.lost_ever,
{
    let n = crate::spool::taking(s, max) as int;
    assert(s.queue =~= s.queue.take(n) + s.queue.skip(n));
}

/// Results that are returned and fit together with those queued since go in
/// front of them, and nothing is lost.
pub proof fn law_returning_loses_nothing_while_there_is_room<T>(
    q: Seq<(T, usize)>,
    cfg: SpoolConfig,
    items: Seq<(T, usize)>,
)
    requires
        q.len() + items.len() <= cfg.max_entries,
        crate::spool::weight(q) + crate::spool::weight(items) <= cfg.max_bytes,
    ensures
        crate::spool::readmitted(q, cfg, items) == items + q,
    decreases items.len(),
{
    if items.len() == 0 {
        assert(items + q =~= q);
    } else {
        let x = items.last();
        let rest = items.drop_last();
        let more = seq![x] + q;
        assert(crate::spool::trimmed(q, cfg, x.1) == q);
        lemma_weight_add(seq![x], q);
        assert(crate::spool::weight(seq![x]) == x.1) by {
            reveal_with_fuel(crate::spool::weight, 2);
            assert(seq![x].drop_last() =~= Seq::<(T, usize)>::empty());
        }
        law_returning_loses_nothing_while_there_is_room(more, cfg, rest);
        assert(items + q =~= rest + more);
    }
}

/// A spool holds as many results and bytes as it is set to, one of each at
/// least, and reserves the share of them that it is set to for the onset: nine
/// tenths at most, and never all.
pub proof fn law_how_a_spool_is_bounded(entries: usize, bytes: usize, pct: u32)
    ensures
        ({
            let c = crate::spool::config_for(entries, bytes, pct);
            &&& entries > 0 ==> c.max_entries == entries
            &&& entries == 0 ==> c.max_entries == 1
            &&& bytes > 0 ==> c.max_bytes == bytes
            &&& bytes == 0 ==> c.max_bytes == 1
            &&& c.onset_reserve < c.max_entries
            &&& entries > 0 && pct <= 90 ==> c.onset_reserve * 100 <= entries * pct < (
            c.onset_reserve + 1) * 100
            &&& entries > 0 && pct > 90 ==> c.onset_reserve * 100 <= entries * 90 < (
            c.onset_reserve + 1) * 100
        }),
{
    let e = entries as int;
    let p: int = if pct <= 90 {
        pct as int
    } else {
        90
    };
    if entries > 0 {
        assert(e * p <= e * 90) by (nonlinear_arith)
            requires
                e > 0,
                0 <= p <= 90,
        ;
        assert(e * p >= 0) by (nonlinear_arith)
            requires
                e > 0,
                0 <= p,
        ;
        assert(e * p / 100 <= e - 1);
    }
}

} // verus!
