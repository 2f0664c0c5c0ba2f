//! What the findings on a traceroute or a scan say of the path and the hosts.

use vstd::prelude::*;

use crate::discovery::findings::{DhcpLease, FindingView, Severity};
use crate::discovery::tools::{Hop, ScanHost};

verus! {

/// The hop answered: it has an address, and not all of what it was sent is lost.
pub open spec fn is_heard(h: Hop) -> bool {
    h.address@.len() > 0 && h.loss < 100_000
}

/// The hops that answered, in the order of their distance.
pub open spec fn heard(hops: Seq<Hop>) -> Seq<Hop> {
    hops.filter(|h: Hop| is_heard(h))
}

proof fn lemma_heard(hops: Seq<Hop>)
    ensures
        crate::discovery::tools::answering(hops) == heard(hops),
{
    crate::discovery::laws::lemma_same_filter(
        hops,
        |h: Hop| crate::discovery::tools::answered(h),
        |h: Hop| is_heard(h),
    );
}

/// Latency rises at the `i`-th answering hop by 30 ms or more, and the
/// destination is at most 30 ms faster than that hop.
pub open spec fn is_lasting_rise(path: Seq<Hop>, i: int) -> bool {
    &&& 1 <= i < path.len()
    &&& path[i].avg - path[i - 1].avg >= 30_000
    &&& path[i].avg <= path[path.len() - 1].avg + 30_000
}

/// The finding names the rise at the `i`-th answering hop: no other lasting one
/// is larger. From 100 ms on it is a warning.
pub open spec fn tells_of_rise(
    f: FindingView,
    path: Seq<Hop>,
    target: Seq<char>,
    i: int,
) -> bool {
    &&& f.code == "path.latency_step"@
    &&& is_lasting_rise(path, i)
    &&& forall|j: int| #[trigger]
        is_lasting_rise(path, j) ==> path[j].avg - path[j - 1].avg <= path[i].avg - path[i - 1].avg
    &&& f.severity == if path[i].avg - path[i - 1].avg >= 100_000 {
        Severity::Warning
    } else {
        Severity::Info
    }
    &&& crate::discovery::laws::opens_with(
        f.summary,
        "latency to "@ + target + " rises by "@ + crate::text::fixed(
            path[i].avg - path[i - 1].avg,
            0,
        ) + " ms between hop "@ + crate::text::decimal(path[i - 1].ttl as nat) + " and hop "@
            + crate::text::decimal(path[i].ttl as nat),
    )
}

proof fn lemma_latency(path: Seq<Hop>, target: Seq<char>)
    requires
        path.len() > 0,
    ensures
        ({
            let v = crate::discovery::tools::latency_of(path, target);
            &&& v.len() <= 1
            &&& v.len() == 1 <==> exists|i: int| #[trigger] is_lasting_rise(path, i)
            &&& v.len() == 1 ==> exists|i: int| #[trigger] tells_of_rise(v[0], path, target, i)
        }),
{
    let v = crate::discovery::tools::latency_of(path, target);
    let n = path.len() as int;
    crate::discovery::tools::law_a_named_rise_reaches_the_destination(path, n);
    assert forall|j: int| is_lasting_rise(path, j) implies 1 <= j < n
        && crate::discovery::tools::persists(path, j) by {
        assert(path[path.len() - 1] == path.last());
    }
    match crate::discovery::tools::steepest(path, n) {
        Some(i) => {
            assert(is_lasting_rise(path, i));
            assert forall|j: int| #[trigger] is_lasting_rise(path, j) implies path[j].avg - path[j
                - 1].avg <= path[i].avg - path[i - 1].avg by {
                assert(crate::discovery::tools::persists(path, j));
                assert(crate::discovery::tools::rise(path, j) <= crate::discovery::tools::rise(
                    path,
                    i,
                ));
            }
            crate::discovery::laws::lemma_opens(
                "latency to "@ + target + " rises by "@ + crate::text::fixed(
                    path[i].avg - path[i - 1].avg,
                    0,
                ) + " ms between hop "@ + crate::text::decimal(path[i - 1].ttl as nat)
                    + " and hop "@ + crate::text::decimal(path[i].ttl as nat),
                crate::discovery::tools::STEP_TAIL@,
            );
            assert(tells_of_rise(v[0], path, target, i));
        },
        None => {
            assert forall|j: int| !is_lasting_rise(path, j) by {
                if is_lasting_rise(path, j) {
                    assert(crate::discovery::tools::persists(path, j));
                }
            }
        },
    }
}

/// Every hop from `i` on loses 2 percent or more.
pub open spec fn loses_from(path: Seq<Hop>, i: int) -> bool {
    forall|j: int| i <= j < path.len() ==> (#[trigger] path[j]).loss >= 2_000
}

/// The finding gives the loss at the destination, and is critical from 10
/// percent on. Where the loss begins before the destination, the first hop from
/// which it lasts is named.
pub open spec fn tells_of_loss(f: FindingView, path: Seq<Hop>, target: Seq<char>) -> bool {
    let last = path[path.len() - 1];
    let head = crate::text::fixed(last.loss as int, 0) + "% loss to "@ + target;
    &&& f.code == "path.loss"@
    &&& last.loss >= 2_000
    &&& f.severity == if last.loss >= 10_000 {
        Severity::Critical
    } else {
        Severity::Warning
    }
    &&& exists|i: int|
        0 <= i < path.len() && #[trigger] loses_from(path, i) && (i > 0 ==> path[i - 1].loss
            < 2_000) && f.summary == (if path[i].ttl < last.ttl {
            head + ", first appearing at hop "@ + crate::text::decimal(path[i].ttl as nat) + " ("@
                + path[i].address@ + ") and persisting to the destination"@
        } else {
            head
        })
}

proof fn lemma_loss(path: Seq<Hop>, target: Seq<char>)
    requires
        path.len() > 0,
    ensures
        ({
            let v = crate::discovery::tools::loss_of(path, target);
            &&& v.len() <= 1
            &&& v.len() == 1 <==> path[path.len() - 1].loss >= 2_000
            &&& v.len() == 1 ==> tells_of_loss(v[0], path, target)
        }),
{
    let v = crate::discovery::tools::loss_of(path, target);
    let i = crate::discovery::tools::loss_onset(path);
    crate::discovery::tools::law_the_named_loss_persists(path);
    if path.last().loss >= 2_000 {
        assert(crate::discovery::tools::stays_lossy(path, path.len() - 1));
        assert(i < path.len());
        assert(loses_from(path, i)) by {
            assert(crate::discovery::tools::stays_lossy(path, i));
        }
    }
}

/// Two answering hops have the same address.
pub open spec fn loops(path: Seq<Hop>) -> bool {
    exists|i: int, k: int|
        0 <= i < k < path.len() && (#[trigger] path[i]).address@ == (#[trigger] path[k]).address@
}

/// The hop answers from the address `addr`.
pub open spec fn is_at(h: Hop, addr: Seq<char>) -> bool {
    h.address@ == addr
}

proof fn lemma_seen_at(path: Seq<Hop>, addr: Seq<char>)
    ensures
        crate::discovery::tools::seen_at(path, addr).len() == path.filter(
            |h: Hop| is_at(h, addr),
        ).len(),
    decreases path.len(),
{
    reveal(Seq::filter);
    if path.len() > 0 {
        lemma_seen_at(path.drop_last(), addr);
    }
}

/// Two elements are picked exactly when two positions hold such.
pub proof fn lemma_two_picked<A>(s: Seq<A>, p: spec_fn(A) -> bool)
    ensures
        s.filter(p).len() > 1 <==> exists|i: int, k: int|
            0 <= i < k < s.len() && p(#[trigger] s[i]) && p(#[trigger] s[k]),
    decreases s.len(),
{
    reveal(Seq::filter);
    if s.len() > 0 {
        let rest = s.drop_last();
        let last = s.len() - 1;
        lemma_two_picked(rest, p);
        crate::discovery::laws::lemma_picked(rest, p);
        if s.filter(p).len() > 1 {
            if rest.filter(p).len() > 1 {
                let (i, k) = choose|i: int, k: int|
                    0 <= i < k < rest.len() && p(#[trigger] rest[i]) && p(#[trigger] rest[k]);
                assert(p(s[i]) && p(s[k]));
            } else {
                let i = choose|i: int| 0 <= i < rest.len() && p(#[trigger] rest[i]);
                assert(p(s[i]) && p(s[last]));
            }
        }
        if exists|i: int, k: int| 0 <= i < k < s.len() && p(#[trigger] s[i]) && p(#[trigger] s[k]) {
            let (i, k) = choose|i: int, k: int|
                0 <= i < k < s.len() && p(#[trigger] s[i]) && p(#[trigger] s[k]);
            assert(p(rest[i]));
            if k < last {
                assert(p(rest[k]));
            }
        }
    }
}

proof fn lemma_loop_lines(path: Seq<Hop>, addrs: Seq<Seq<char>>)
    ensures
        crate::discovery::tools::loop_lines(path, addrs).len() > 0 <==> exists|a: int|
            0 <= a < addrs.len() && path.filter(|h: Hop| is_at(h, #[trigger] addrs[a])).len() > 1,
    decreases addrs.len(),
{
    if addrs.len() > 0 {
        let rest = addrs.drop_last();
        lemma_loop_lines(path, rest);
        lemma_seen_at(path, addrs.last());
        if crate::discovery::tools::loop_lines(path, rest).len() > 0 {
            let a = choose|a: int|
                0 <= a < rest.len() && path.filter(|h: Hop| is_at(h, #[trigger] rest[a])).len() > 1;
            assert(addrs[a] == rest[a]);
        }
        if exists|a: int|
            0 <= a < addrs.len() && path.filter(|h: Hop| is_at(h, #[trigger] addrs[a])).len() > 1 {
            let a = choose|a: int|
                0 <= a < addrs.len() && path.filter(|h: Hop| is_at(h, #[trigger] addrs[a])).len()
                    > 1;
            if a < rest.len() {
                assert(rest[a] == addrs[a]);
            }
        }
        assert(addrs[addrs.len() - 1] == addrs.last());
    }
}

proof fn lemma_loops(path: Seq<Hop>)
    ensures
        crate::discovery::tools::loops_of(path).len() == 1 <==> loops(path),
        crate::discovery::tools::loops_of(path).len() <= 1,
{
    let p = |h: Hop| true;
    let name = |h: Hop| h.address@;
    let addrs = crate::discovery::group::names_of(path, p, name);
    lemma_loop_lines(path, addrs);
    crate::discovery::group::lemma_names(path, p, name);
    if loops(path) {
        let (i, k) = choose|i: int, k: int|
            0 <= i < k < path.len() && (#[trigger] path[i]).address@ == (
            #[trigger] path[k]).address@;
        assert(p(path[i]));
        assert(addrs.contains(name(path[i])));
        let a = choose|a: int| 0 <= a < addrs.len() && addrs[a] == name(path[i]);
        let q = |h: Hop| is_at(h, addrs[a]);
        assert(q(path[i]) && q(path[k]));
        lemma_two_picked(path, q);
        assert(path.filter(|h: Hop| is_at(h, addrs[a])).len() > 1);
    }
    if crate::discovery::tools::loop_lines(path, addrs).len() > 0 {
        let a = choose|a: int|
            0 <= a < addrs.len() && path.filter(|h: Hop| is_at(h, #[trigger] addrs[a])).len() > 1;
        let q = |h: Hop| is_at(h, addrs[a]);
        lemma_two_picked(path, q);
        let (i, k) = choose|i: int, k: int|
            0 <= i < k < path.len() && q(#[trigger] path[i]) && q(#[trigger] path[k]);
        assert(path[i].address@ == path[k].address@);
    }
}

/// The hop answers from 100.64.0.0/10.
pub open spec fn is_shared(h: Hop) -> bool {
    crate::net::dotted(h.address@) is Some && crate::net::dotted(h.address@)->0 / 0x40_0000
        == 100 * 4 + 1
}

proof fn lemma_cgnat(path: Seq<Hop>)
    ensures
        crate::discovery::tools::cgnat_of(path).len() <= 1,
        crate::discovery::tools::cgnat_of(path).len() == 1 <==> exists|i: int|
            0 <= i < path.len() && is_shared(#[trigger] path[i]),
        crate::discovery::tools::cgnat_of(path).len() == 1
            ==> crate::discovery::tools::cgnat_of(path)[0].evidence.len() == path.filter(
            |h: Hop| is_shared(h),
        ).len(),
{
    let p = |h: Hop| crate::discovery::tools::behind_cgnat(h);
    let q = |h: Hop| is_shared(h);
    crate::discovery::laws::lemma_lines(path, p, |h: Hop| crate::discovery::tools::hop_line(h));
    crate::discovery::laws::lemma_same_filter(path, p, q);
    crate::discovery::laws::lemma_picked(path, q);
    if exists|i: int| 0 <= i < path.len() && is_shared(#[trigger] path[i]) {
        let i = choose|i: int| 0 <= i < path.len() && is_shared(#[trigger] path[i]);
        assert(q(path[i]));
    }
    if exists|i: int| 0 <= i < path.len() && q(#[trigger] path[i]) {
        let i = choose|i: int| 0 <= i < path.len() && q(#[trigger] path[i]);
        assert(is_shared(path[i]));
    }
}

proof fn lemma_path_codes()
    ensures
        "path.no_response"@.len() == 16,
        "path.unreachable"@.len() == 16,
        "path.latency_step"@.len() == 17,
        "path.loss"@.len() == 9,
        "path.routing_loop"@.len() == 17,
        "path.cgnat"@.len() == 10,
        "path.no_response"@ != "path.unreachable"@,
        "path.latency_step"@ != "path.routing_loop"@,
{
    reveal_strlit("path.no_response");
    reveal_strlit("path.unreachable");
    reveal_strlit("path.latency_step");
    reveal_strlit("path.loss");
    reveal_strlit("path.routing_loop");
    reveal_strlit("path.cgnat");
    assert("path.no_response"@[5] == 'n' && "path.unreachable"@[5] == 'u');
    assert("path.latency_step"@[5] == 'l' && "path.routing_loop"@[5] == 'r');
}

/// Some finding of `out` is under the code `code`.
pub open spec fn has_code(out: Seq<FindingView>, code: Seq<char>) -> bool {
    exists|j: int| 0 <= j < out.len() && (#[trigger] out[j]).code == code
}

/// What a traceroute says where something answered: whether the target was
/// reached, that is whether it is the last to answer; on the way to one that was
/// reached, the largest rise of latency that lasts and the loss that arrives
/// there; and on any way a loop and shared address space.
pub proof fn law_what_a_path_says(hops: Seq<Hop>, target: Seq<char>)
    requires
        heard(hops).len() > 0,
    ensures
        ({
            let out = crate::discovery::tools::path_findings(hops, target);
            let path = heard(hops);
            let last = path[path.len() - 1];
            let reached = last.address@ == target;
            &&& has_code(out, "path.unreachable"@) <==> !reached
            &&& has_code(out, "path.latency_step"@) <==> reached && exists|i: int| #[trigger]
                is_lasting_rise(path, i)
            &&& has_code(out, "path.loss"@) <==> reached && last.loss >= 2_000
            &&& has_code(out, "path.routing_loop"@) <==> loops(path)
            &&& has_code(out, "path.cgnat"@) <==> exists|i: int|
                0 <= i < path.len() && is_shared(#[trigger] path[i])
            &&& !has_code(out, "path.no_response"@)
            &&& forall|j: int|
                #![trigger out[j]]
                0 <= j < out.len() ==> {
                    &&& out[j].code == "path.unreachable"@ ==> out[j].severity == Severity::Critical
                        && crate::discovery::laws::opens_with(
                        out[j].summary,
                        target + " was not reached; the path stops responding after hop "@
                            + crate::text::decimal(last.ttl as nat) + " ("@ + last.address@,
                    )
                    &&& out[j].code == "path.latency_step"@ ==> exists|i: int| #[trigger]
                        tells_of_rise(out[j], path, target, i)
                    &&& out[j].code == "path.loss"@ ==> tells_of_loss(out[j], path, target)
                    &&& out[j].code == "path.routing_loop"@ ==> out[j].severity
                        == Severity::Critical
                    &&& out[j].code == "path.cgnat"@ ==> out[j].severity == Severity::Info
                        && out[j].evidence.len() == path.filter(|h: Hop| is_shared(h)).len()
                }
        }),
{
    lemma_heard(hops);
    lemma_path_codes();
    let path = heard(hops);
    let last = path.last();
    let out = crate::discovery::tools::path_findings(hops, target);
    let reached = last.address@ == target;
    lemma_latency(path, target);
    lemma_loss(path, target);
    lemma_loops(path);
    lemma_cgnat(path);
    assert(hops.len() > 0) by {
        if hops.len() == 0 {
            reveal(Seq::filter);
        }
    }
    let a = if reached {
        Seq::empty()
    } else {
        seq![crate::discovery::tools::unreachable_view(hops, target, last)]
    };
    let b = if reached {
        crate::discovery::tools::latency_of(path, target)
    } else {
        Seq::empty()
    };
    let c = if reached {
        crate::discovery::tools::loss_of(path, target)
    } else {
        Seq::empty()
    };
    let d = crate::discovery::tools::loops_of(path);
    let e = crate::discovery::tools::cgnat_of(path);
    let middle = if reached {
        crate::discovery::tools::latency_of(path, target) + crate::discovery::tools::loss_of(
            path,
            target,
        )
    } else {
        Seq::empty()
    };
    assert(out == a + middle + d + e);
    assert(out =~= a + b + c + d + e);
    crate::discovery::laws::lemma_opens(
        target + " was not reached; the path stops responding after hop "@ + crate::text::decimal(
            last.ttl as nat,
        ) + " ("@ + last.address@,
        ")"@,
    );
    if a.len() == 1 {
        assert(out[0] == a[0]);
    }
    if b.len() == 1 {
        assert(out[a.len() as int] == b[0]);
    }
    if c.len() == 1 {
        assert(out[(a.len() + b.len()) as int] == c[0]);
    }
    if d.len() == 1 {
        assert(out[(a.len() + b.len() + c.len()) as int] == d[0]);
    }
    if e.len() == 1 {
        assert(out[(a.len() + b.len() + c.len() + d.len()) as int] == e[0]);
    }
    assert forall|j: int| #![trigger out[j]] 0 <= j < out.len() implies {
        ||| a.len() == 1 && out[j] == a[0]
        ||| b.len() == 1 && out[j] == b[0]
        ||| c.len() == 1 && out[j] == c[0]
        ||| d.len() == 1 && out[j] == d[0]
        ||| e.len() == 1 && out[j] == e[0]
    } by {
        if j < a.len() {
        } else if j < a.len() + b.len() {
            assert(out[j] == b[j - a.len()]);
        } else if j < a.len() + b.len() + c.len() {
            assert(out[j] == c[j - a.len() - b.len()]);
        } else if j < a.len() + b.len() + c.len() + d.len() {
            assert(out[j] == d[j - a.len() - b.len() - c.len()]);
        } else {
            assert(out[j] == e[j - a.len() - b.len() - c.len() - d.len()]);
        }
    }
}

/// Where hops were probed and none answered, that is all there is to say, and
/// it is critical; where none was probed there is nothing to say.
pub proof fn law_a_silent_path(hops: Seq<Hop>, target: Seq<char>)
    requires
        heard(hops).len() == 0,
    ensures
        ({
            let out = crate::discovery::tools::path_findings(hops, target);
            &&& hops.len() == 0 ==> out.len() == 0
            &&& hops.len() > 0 ==> out.len() == 1 && out[0].code == "path.no_response"@
                && out[0].severity == Severity::Critical && out[0].summary
                == "no hop on the way to "@ + target + " answered at all"@
        }),
{
    lemma_heard(hops);
}

/// The rows of a reply that count are those of the latest section: none has a
/// later one, and each row of that section is among them.
pub proof fn law_only_the_latest_section_counts(v: crate::json::JsonView, i: int, k: int)
    requires
        0 <= i < crate::discovery::tools::last_rows(v).len(),
        0 <= k < v.rows().len(),
    ensures
        v.rows().contains(crate::discovery::tools::last_rows(v)[i]),
        crate::discovery::tools::section(v.rows()[k]) <= crate::discovery::tools::section(
            crate::discovery::tools::last_rows(v)[i],
        ),
        crate::discovery::tools::section(v.rows()[k]) == crate::discovery::tools::section(
            crate::discovery::tools::last_rows(v)[i],
        ) ==> crate::discovery::tools::last_rows(v).contains(v.rows()[k]),
{
    let top = crate::discovery::tools::top_section(v.rows());
    let p = |r: crate::json::JsonView| crate::discovery::tools::section(r) == top;
    lemma_top_section(v.rows());
    crate::discovery::laws::lemma_picked(v.rows(), p);
    if p(v.rows()[k]) {
        v.rows().lemma_filter_contains(p, k);
    }
    assert(p(crate::discovery::tools::last_rows(v)[i]));
}

/// A reply with rows has rows that count.
pub proof fn law_some_section_is_the_latest(v: crate::json::JsonView)
    requires
        v.rows().len() > 0,
    ensures
        crate::discovery::tools::last_rows(v).len() > 0,
{
    let top = crate::discovery::tools::top_section(v.rows());
    let p = |r: crate::json::JsonView| crate::discovery::tools::section(r) == top;
    let k = lemma_top_section(v.rows());
    assert(p(v.rows()[k]));
    v.rows().lemma_filter_contains(p, k);
}

proof fn lemma_top_section(rows: Seq<crate::json::JsonView>) -> (k: int)
    requires
        rows.len() > 0,
    ensures
        0 <= k < rows.len(),
        crate::discovery::tools::section(rows[k]) == crate::discovery::tools::top_section(rows),
        forall|i: int|
            0 <= i < rows.len() ==> crate::discovery::tools::section(#[trigger] rows[i])
                <= crate::discovery::tools::top_section(rows),
    decreases rows.len(),
{
    if rows.len() == 1 {
        0
    } else {
        let rest = rows.drop_last();
        let k = lemma_top_section(rest);
        assert forall|i: int| 0 <= i < rows.len() implies crate::discovery::tools::section(
            #[trigger] rows[i],
        ) <= crate::discovery::tools::top_section(rows) by {
            if i < rest.len() {
                assert(rest[i] == rows[i]);
            }
        }
        if crate::discovery::tools::section(rows.last()) > crate::discovery::tools::top_section(
            rest,
        ) {
            rows.len() - 1
        } else {
            assert(rest[k] == rows[k]);
            k
        }
    }
}

/// Under `key` the row gives the text `s`.
pub open spec fn gives_text(row: crate::json::JsonView, key: Seq<char>, s: Seq<char>) -> bool {
    row.get(key) == Some(crate::json::JsonView::Text(s))
}

proof fn lemma_decimal_cell(row: crate::json::JsonView, key: Seq<char>, n: nat)
    requires
        gives_text(row, key, crate::text::decimal(n)),
        n * 1000 <= i64::MAX,
    ensures
        crate::discovery::tools::decimal_cell(row, key) == n * 1000,
{
    reveal_strlit("-");
    crate::text_laws::law_whole_numbers_read_as_thousandths(n);
    crate::text_laws::law_numbers_are_written_in_digits(n);
    let d = crate::text::decimal(n);
    assert('0' <= d[0] && d[0] <= '9');
    assert("-"@[0] == '-');
    assert(d != "-"@);
}

/// Each figure of a hop is the one that its row gives under its name, in
/// thousandths; `n` stands for any whole number that a row gives.
pub proof fn law_hops_say_what_their_rows_give(
    h: Hop,
    row: crate::json::JsonView,
    ttl: int,
    n: nat,
)
    requires
        crate::discovery::tools::is_hop(h, row, ttl),
        n * 1000 <= i64::MAX,
    ensures
        h.ttl == ttl,
        gives_text(row, "avg"@, crate::text::decimal(n)) ==> h.avg == n * 1000,
        gives_text(row, "best"@, crate::text::decimal(n)) ==> h.best == n * 1000,
        gives_text(row, "worst"@, crate::text::decimal(n)) ==> h.worst == n * 1000,
        gives_text(row, "loss"@, crate::text::decimal(n)) ==> h.loss == n * 1000,
        gives_text(row, "sent"@, crate::text::decimal(n)) && n <= u32::MAX ==> h.sent == n,
        forall|a: Seq<char>|
            #![trigger gives_text(row, "address"@, a)]
            gives_text(row, "address"@, a) && a != "-"@ ==> h.address@ == a,
        gives_text(row, "address"@, "-"@) ==> h.address@.len() == 0,
        row.get("address"@) is None ==> h.address@.len() == 0,
{
    if gives_text(row, "avg"@, crate::text::decimal(n)) {
        lemma_decimal_cell(row, "avg"@, n);
    }
    if gives_text(row, "best"@, crate::text::decimal(n)) {
        lemma_decimal_cell(row, "best"@, n);
    }
    if gives_text(row, "worst"@, crate::text::decimal(n)) {
        lemma_decimal_cell(row, "worst"@, n);
    }
    if gives_text(row, "loss"@, crate::text::decimal(n)) {
        lemma_decimal_cell(row, "loss"@, n);
    }
    if gives_text(row, "sent"@, crate::text::decimal(n)) {
        lemma_decimal_cell(row, "sent"@, n);
    }
}

/// The host has a hardware address that no lease is for, in whatever case.
pub open spec fn is_unleased(h: ScanHost, leases: Seq<DhcpLease>) -> bool {
    h.mac@.len() > 0 && forall|i: int|
        0 <= i < leases.len() ==> crate::text::uppered((#[trigger] leases[i]).mac@)
            != crate::text::uppered(h.mac@)
}

/// Two hosts of the scan have the same hardware address.
pub open spec fn shares_mac(hosts: Seq<ScanHost>) -> bool {
    exists|i: int, k: int|
        0 <= i < k < hosts.len() && (#[trigger] hosts[i]).mac@.len() > 0 && hosts[i].mac@ == (
        #[trigger] hosts[k]).mac@
}

/// The host has the hardware address `mac`.
pub open spec fn has_mac(h: ScanHost, mac: Seq<char>) -> bool {
    h.mac@.len() > 0 && h.mac@ == mac
}

proof fn lemma_addresses_of(hosts: Seq<ScanHost>, mac: Seq<char>)
    ensures
        crate::discovery::tools::addresses_of(hosts, mac).len() == hosts.filter(
            |h: ScanHost| has_mac(h, mac),
        ).len(),
    decreases hosts.len(),
{
    reveal(Seq::filter);
    if hosts.len() > 0 {
        lemma_addresses_of(hosts.drop_last(), mac);
    }
}

proof fn lemma_multi_lines(hosts: Seq<ScanHost>, macs: Seq<Seq<char>>)
    ensures
        crate::discovery::tools::multi_lines(hosts, macs).len() > 0 <==> exists|a: int|
            0 <= a < macs.len() && hosts.filter(|h: ScanHost| has_mac(h, #[trigger] macs[a])).len()
                > 1,
    decreases macs.len(),
{
    if macs.len() > 0 {
        let rest = macs.drop_last();
        let mac = macs.last();
        lemma_multi_lines(hosts, rest);
        lemma_addresses_of(hosts, mac);
        if crate::discovery::tools::multi_lines(hosts, rest).len() > 0 {
            let a = choose|a: int|
                0 <= a < rest.len() && hosts.filter(
                    |h: ScanHost| has_mac(h, #[trigger] rest[a]),
                ).len() > 1;
            assert(macs[a] == rest[a]);
        }
        if exists|a: int|
            0 <= a < macs.len() && hosts.filter(|h: ScanHost| has_mac(h, #[trigger] macs[a])).len()
                > 1 {
            let a = choose|a: int|
                0 <= a < macs.len() && hosts.filter(
                    |h: ScanHost| has_mac(h, #[trigger] macs[a]),
                ).len() > 1;
            if a < rest.len() {
                assert(rest[a] == macs[a]);
            }
        }
        assert(macs[macs.len() - 1] == mac);
    }
}

/// A scan warns of hardware that answers on more than one address, exactly when
/// there is such, and lists the hosts that hold no lease, exactly when there are
/// leases to hold them against and such hosts.
pub proof fn law_what_a_scan_says(hosts: Seq<ScanHost>, leases: Seq<DhcpLease>)
    ensures
        ({
            let out = crate::discovery::tools::scan_findings(hosts, leases);
            let free = hosts.filter(|h: ScanHost| is_unleased(h, leases));
            &&& has_code(out, "scan.mac_multiple_addresses"@) <==> shares_mac(hosts)
            &&& has_code(out, "scan.unmanaged_host"@) <==> leases.len() > 0 && free.len() > 0
            &&& forall|j: int|
                #![trigger out[j]]
                0 <= j < out.len() ==> {
                    &&& out[j].code == "scan.mac_multiple_addresses"@ ==> out[j].severity
                        == Severity::Warning
                    &&& out[j].code == "scan.unmanaged_host"@ ==> out[j].severity == Severity::Info
                        && out[j].evidence.len() == free.len()
                        && crate::discovery::laws::opens_with(
                        out[j].summary,
                        crate::text::decimal(free.len()),
                    ) && forall|k: int|
                        0 <= k < free.len() ==> crate::discovery::laws::opens_with(
                            #[trigger] out[j].evidence[k],
                            free[k].address@ + " ("@ + free[k].mac@,
                        )
                }
        }),
{
    reveal_strlit("scan.mac_multiple_addresses");
    reveal_strlit("scan.unmanaged_host");
    assert("scan.mac_multiple_addresses"@.len() != "scan.unmanaged_host"@.len());
    let out = crate::discovery::tools::scan_findings(hosts, leases);
    let a = crate::discovery::tools::multiple_of(hosts);
    let b = crate::discovery::tools::unmanaged_of(hosts, leases);
    assert(out == a + b);
    let p = |h: ScanHost| crate::discovery::tools::unmanaged(h, leases);
    let q = |h: ScanHost| is_unleased(h, leases);
    let line = |h: ScanHost| crate::discovery::tools::host_line(h);
    crate::discovery::laws::lemma_lines(hosts, p, line);
    crate::discovery::laws::lemma_same_filter(hosts, p, q);
    let free = hosts.filter(q);
    crate::discovery::laws::lemma_opens(
        crate::text::decimal(free.len()),
        crate::discovery::tools::UNMANAGED_TAIL@,
    );
    let known = |h: ScanHost| crate::discovery::tools::identified(h);
    let name = |h: ScanHost| h.mac@;
    let macs = crate::discovery::group::names_of(hosts, known, name);
    lemma_multi_lines(hosts, macs);
    crate::discovery::group::lemma_names(hosts, known, name);
    if shares_mac(hosts) {
        let (i, k) = choose|i: int, k: int|
            0 <= i < k < hosts.len() && (#[trigger] hosts[i]).mac@.len() > 0 && hosts[i].mac@ == (
            #[trigger] hosts[k]).mac@;
        assert(known(hosts[i]));
        assert(macs.contains(name(hosts[i])));
        let m = choose|m: int| 0 <= m < macs.len() && macs[m] == name(hosts[i]);
        let r = |h: ScanHost| has_mac(h, macs[m]);
        assert(r(hosts[i]) && r(hosts[k]));
        lemma_two_picked(hosts, r);
        assert(hosts.filter(|h: ScanHost| has_mac(h, macs[m])).len() > 1);
    }
    if crate::discovery::tools::multi_lines(hosts, macs).len() > 0 {
        let m = choose|m: int|
            0 <= m < macs.len() && hosts.filter(|h: ScanHost| has_mac(h, #[trigger] macs[m])).len()
                > 1;
        let r = |h: ScanHost| has_mac(h, macs[m]);
        lemma_two_picked(hosts, r);
        let (i, k) = choose|i: int, k: int|
            0 <= i < k < hosts.len() && r(#[trigger] hosts[i]) && r(#[trigger] hosts[k]);
        assert(hosts[i].mac@ == hosts[k].mac@);
    }
    if a.len() == 1 {
        assert(out[0] == a[0]);
    }
    if b.len() == 1 {
        assert(out[a.len() as int] == b[0]);
        assert forall|k: int| 0 <= k < free.len() implies crate::discovery::laws::opens_with(
            #[trigger] b[0].evidence[k],
            free[k].address@ + " ("@ + free[k].mac@,
        ) by {
            assert(b[0].evidence[k] == line(free[k]));
            let front = free[k].address@ + " ("@ + free[k].mac@;
            assert(line(free[k]).take(front.len() as int) =~= front);
        }
    }
    assert forall|j: int| #![trigger out[j]] 0 <= j < out.len() implies {
        ||| a.len() == 1 && out[j] == a[0]
        ||| b.len() == 1 && out[j] == b[0]
    } by {
        if j >= a.len() {
            assert(out[j] == b[j - a.len()]);
        }
    }
}

/// What is listed with a finding on a path: with a target that was not reached,
/// every hop that was probed; with a rise, the hops on both sides of it; with
/// loss, each answering hop that loses anything, and last what reaches the
/// target.
pub proof fn law_what_path_findings_list(hops: Seq<Hop>, target: Seq<char>, last: Hop, i: int)
    requires
        1 <= i < hops.len(),
    ensures
        ({
            let f = crate::discovery::tools::unreachable_view(hops, target, last);
            &&& f.evidence.len() == hops.len()
            &&& forall|k: int|
                0 <= k < hops.len() ==> #[trigger] f.evidence[k]
                    == crate::discovery::tools::hop_line(hops[k])
        }),
        ({
            let f = crate::discovery::tools::step_view(hops, target, i);
            &&& f.evidence[0] == crate::discovery::tools::hop_line(hops[i - 1])
            &&& f.evidence[1] == crate::discovery::tools::hop_line(hops[i])
            &&& f.evidence[2] == "end-to-end average "@ + crate::text::fixed(
                hops[hops.len() - 1].avg as int,
                1,
            ) + " ms"@
        }),
        hops[hops.len() - 1].loss >= 2_000 ==> {
            let v = crate::discovery::tools::loss_of(hops, target);
            let lossy = hops.filter(|h: Hop| h.loss > 0);
            &&& v.len() == 1
            &&& v[0].evidence.len() == lossy.len() + 1
            &&& v[0].evidence[lossy.len() as int] == crate::text::fixed(
                hops[hops.len() - 1].loss as int,
                0,
            ) + "% loss reaches "@ + target
        },
{
    let all = |h: Hop| true;
    let line = |h: Hop| crate::discovery::tools::hop_line(h);
    crate::discovery::laws::lemma_lines(hops, all, line);
    lemma_all_picked(hops, all);
    crate::discovery::laws::lemma_lines(hops, |h: Hop| h.loss > 0, line);
}

proof fn lemma_all_picked(hops: Seq<Hop>, p: spec_fn(Hop) -> bool)
    requires
        forall|h: Hop| #[trigger] p(h),
    ensures
        hops.filter(p) == hops,
    decreases hops.len(),
{
    reveal(Seq::filter);
    if hops.len() > 0 {
        lemma_all_picked(hops.drop_last(), p);
        assert(p(hops.last()));
        assert(hops.drop_last().push(hops.last()) =~= hops);
    } else {
        assert(hops.filter(p) =~= hops);
    }
}

/// A hop that answered is described by its address and its own times and loss;
/// one that did not, by that.
pub proof fn law_how_a_hop_is_described(h: Hop)
    ensures
        is_heard(h) ==> crate::discovery::tools::hop_line(h) == "hop "@ + crate::text::decimal(
            h.ttl as nat,
        ) + ": "@ + h.address@ + " avg "@ + crate::text::fixed(h.avg as int, 1) + " ms (best "@
            + crate::text::fixed(h.best as int, 1) + ", worst "@ + crate::text::fixed(
            h.worst as int,
            1,
        ) + "), "@ + crate::text::fixed(h.loss as int, 0) + "% loss"@,
        !is_heard(h) ==> crate::discovery::tools::hop_line(h) == "hop "@ + crate::text::decimal(
            h.ttl as nat,
        ) + ": "@ + "no response"@,
{
}

} // verus!
