//! Arranging sequences by a key, keeping equal keys in the order they came.

use vstd::prelude::*;

verus! {

/// `order` with `x` put behind everything that ranks no higher.
pub open spec fn placed<A>(order: Seq<A>, x: A, rank: spec_fn(A) -> int) -> Seq<A>
    decreases order.len(),
{
    if order.len() == 0 || rank(order.last()) <= rank(x) {
        order.push(x)
    } else {
        placed(order.drop_last(), x, rank).push(order.last())
    }
}

/// `s` in ascending rank; what ranks equal keeps its order.
pub open spec fn arranged<A>(s: Seq<A>, rank: spec_fn(A) -> int) -> Seq<A>
    decreases s.len(),
{
    if s.len() == 0 {
        Seq::empty()
    } else {
        placed(arranged(s.drop_last(), rank), s.last(), rank)
    }
}

/// Every element ranks no higher than those behind it.
pub open spec fn ascends<A>(s: Seq<A>, rank: spec_fn(A) -> int) -> bool {
    forall|i: int, j: int| 0 <= i <= j < s.len() ==> rank(#[trigger] s[i]) <= rank(#[trigger] s[j])
}

/// `s` in ascending order.
pub open spec fn ascending(s: Seq<u64>) -> Seq<u64> {
    arranged(s, |v: u64| v as int)
}

pub proof fn lemma_placed<A>(order: Seq<A>, x: A, rank: spec_fn(A) -> int)
    requires
        ascends(order, rank),
    ensures
        ascends(placed(order, x, rank), rank),
        placed(order, x, rank).to_multiset() == order.to_multiset().insert(x),
        placed(order, x, rank).len() == order.len() + 1,
    decreases order.len(),
{
    broadcast use vstd::seq_lib::group_to_multiset_ensures;

    if order.len() == 0 || rank(order.last()) <= rank(x) {
        assert(order.push(x).to_multiset() =~= order.to_multiset().insert(x));
        assert forall|i: int, j: int| 0 <= i <= j < order.push(x).len() implies rank(
            #[trigger] order.push(x)[i],
        ) <= rank(#[trigger] order.push(x)[j]) by {
            if j == order.len() && i < order.len() {
                assert(rank(order[i]) <= rank(order.last()));
            }
        }
    } else {
        let rest = order.drop_last();
        lemma_placed(rest, x, rank);
        let below = placed(rest, x, rank);
        assert(order =~= rest.push(order.last()));
        assert(order.to_multiset() =~= rest.to_multiset().insert(order.last()));
        assert(below.push(order.last()).to_multiset() =~= below.to_multiset().insert(order.last()));
        assert(below.push(order.last()).to_multiset() =~= order.to_multiset().insert(x));
        assert forall|i: int, j: int| 0 <= i <= j < below.push(order.last()).len() implies rank(
            #[trigger] below.push(order.last())[i],
        ) <= rank(#[trigger] below.push(order.last())[j]) by {
            if j == below.len() && i < below.len() {
                lemma_bounded(rest, x, rank, rank(order.last()));
                assert(rank(below[i]) <= rank(order.last()));
            }
        }
    }
}

proof fn lemma_bounded<A>(order: Seq<A>, x: A, rank: spec_fn(A) -> int, top: int)
    requires
        forall|i: int| 0 <= i < order.len() ==> rank(#[trigger] order[i]) <= top,
        rank(x) <= top,
    ensures
        forall|i: int|
            0 <= i < placed(order, x, rank).len() ==> rank(#[trigger] placed(order, x, rank)[i])
                <= top,
    decreases order.len(),
{
    if order.len() == 0 || rank(order.last()) <= rank(x) {
    } else {
        let rest = order.drop_last();
        assert forall|i: int| 0 <= i < rest.len() implies rank(#[trigger] rest[i]) <= top by {
            assert(rank(order[i]) <= top && rest[i] == order[i]);
        }
        lemma_bounded(rest, x, rank, top);
        let below = placed(rest, x, rank);
        assert(rank(order[order.len() - 1]) <= top);
        assert forall|i: int| 0 <= i < below.push(order.last()).len() implies rank(
            #[trigger] below.push(order.last())[i],
        ) <= top by {
            if i < below.len() {
                assert(rank(below[i]) <= top);
            }
        }
    }
}

/// An arranged sequence ascends and holds what the sequence held.
pub proof fn lemma_arranged<A>(s: Seq<A>, rank: spec_fn(A) -> int)
    ensures
        ascends(arranged(s, rank), rank),
        arranged(s, rank).to_multiset() == s.to_multiset(),
        arranged(s, rank).len() == s.len(),
    decreases s.len(),
{
    broadcast use vstd::seq_lib::group_to_multiset_ensures;

    if s.len() > 0 {
        lemma_arranged(s.drop_last(), rank);
        lemma_placed(arranged(s.drop_last(), rank), s.last(), rank);
        assert(s =~= s.drop_last().push(s.last()));
        assert(s.to_multiset() =~= s.drop_last().to_multiset().insert(s.last()));
    } else {
        assert(s =~= Seq::empty());
    }
}

/// Placing is inserting at the one position where the order stays ascending
/// and equals keep their order.
pub proof fn lemma_placed_at<A>(order: Seq<A>, x: A, rank: spec_fn(A) -> int, pos: int)
    requires
        0 <= pos <= order.len(),
        pos > 0 ==> rank(order[pos - 1]) <= rank(x),
        forall|i: int| pos <= i < order.len() ==> rank(#[trigger] order[i]) > rank(x),
    ensures
        placed(order, x, rank) == order.insert(pos, x),
    decreases order.len(),
{
    if order.len() == 0 || rank(order.last()) <= rank(x) {
        assert(pos == order.len());
        assert(order.insert(pos, x) =~= order.push(x));
    } else {
        lemma_placed_at(order.drop_last(), x, rank, pos);
        assert(order.drop_last().insert(pos, x).push(order.last()) =~= order.insert(pos, x));
    }
}

/// Something with a rank to be arranged by.
pub trait Ranked: Sized {
    spec fn rank(&self) -> int;

    /// Whether this ranks higher, and so stands behind `other`.
    fn behind(&self, other: &Self) -> (r: bool)
        ensures
            r == (self.rank() > other.rank()),
    ;
}

/// `v` in ascending rank; what ranks equal keeps its order.
pub fn arrange<T: Ranked>(v: Vec<T>) -> (r: Vec<T>)
    ensures
        r@ == arranged(v@, |x: T| x.rank()),
{
    let ghost all = v@;
    let ghost rank = |x: T| x.rank();
    let mut rest = v;
    let n: usize = rest.len();
    let mut out: Vec<T> = Vec::new();
    let mut i: usize = 0;
    proof {
        assert(all.take(0) =~= Seq::empty());
        assert(all.skip(0) =~= all);
    }
    while i < n
        invariant
            i <= n == all.len(),
            rank == |x: T| x.rank(),
            rest@ == all.skip(i as int),
            out@ == arranged(all.take(i as int), rank),
        decreases n - i,
    {
        let x = rest.remove(0);
        proof {
            assert(rest@ =~= all.skip(i + 1));
            assert(all.take(i + 1).drop_last() =~= all.take(i as int));
            lemma_arranged(all.take(i as int), rank);
        }
        let mut pos: usize = out.len();
        while pos > 0 && out[pos - 1].behind(&x)
            invariant
                pos <= out@.len(),
                forall|j: int| pos <= j < out@.len() ==> (#[trigger] out@[j]).rank() > x.rank(),
            decreases pos,
        {
            pos = pos - 1;
        }
        proof {
            assert forall|j: int| pos <= j < out@.len() implies rank(#[trigger] out@[j]) > rank(
                x,
            ) by {
                assert(out@[j].rank() > x.rank());
            }
            lemma_placed_at(out@, x, rank, pos as int);
        }
        out.insert(pos, x);
        i = i + 1;
    }
    proof {
        assert(all.take(n as int) =~= all);
    }
    out
}

/// Describing elements and arranging the descriptions is arranging the elements
/// and describing them, as long as both rank alike.
pub proof fn lemma_arranged_map<A, B>(
    s: Seq<A>,
    f: spec_fn(A) -> B,
    rank: spec_fn(A) -> int,
    rank_b: spec_fn(B) -> int,
)
    requires
        forall|a: A| rank_b(#[trigger] f(a)) == rank(a),
    ensures
        arranged(s.map_values(f), rank_b) == arranged(s, rank).map_values(f),
    decreases s.len(),
{
    if s.len() == 0 {
        assert(s.map_values(f) =~= Seq::empty());
        assert(arranged(s, rank).map_values(f) =~= Seq::empty());
    } else {
        assert(s.map_values(f).drop_last() =~= s.drop_last().map_values(f));
        lemma_arranged_map(s.drop_last(), f, rank, rank_b);
        lemma_placed_map(arranged(s.drop_last(), rank), s.last(), f, rank, rank_b);
    }
}

proof fn lemma_placed_map<A, B>(
    s: Seq<A>,
    x: A,
    f: spec_fn(A) -> B,
    rank: spec_fn(A) -> int,
    rank_b: spec_fn(B) -> int,
)
    requires
        forall|a: A| rank_b(#[trigger] f(a)) == rank(a),
    ensures
        placed(s.map_values(f), f(x), rank_b) == placed(s, x, rank).map_values(f),
    decreases s.len(),
{
    assert(rank_b(f(x)) == rank(x));
    if s.len() == 0 || rank(s.last()) <= rank(x) {
        if s.len() > 0 {
            assert(s.map_values(f).last() == f(s.last()));
        }
        assert(s.push(x).map_values(f) =~= s.map_values(f).push(f(x)));
    } else {
        assert(s.map_values(f).last() == f(s.last()));
        assert(s.map_values(f).drop_last() =~= s.drop_last().map_values(f));
        lemma_placed_map(s.drop_last(), x, f, rank, rank_b);
        assert(placed(s.drop_last(), x, rank).push(s.last()).map_values(f) =~= placed(
            s.drop_last(),
            x,
            rank,
        ).map_values(f).push(f(s.last())));
    }
}

/// Sequences that ascend, hold the same and hold no rank twice are the same.
pub proof fn lemma_same_arrangement<A>(a: Seq<A>, b: Seq<A>, rank: spec_fn(A) -> int)
    requires
        ascends(a, rank),
        ascends(b, rank),
        a.to_multiset() == b.to_multiset(),
        forall|i: int, j: int|
            0 <= i < j < b.len() ==> rank(#[trigger] b[i]) != rank(#[trigger] b[j]),
    ensures
        a == b,
    decreases a.len(),
{
    broadcast use vstd::seq_lib::group_to_multiset_ensures;

    a.to_multiset_ensures();
    b.to_multiset_ensures();
    assert(a.len() == a.to_multiset().len() == b.len());
    if a.len() == 0 {
        assert(a =~= b);
    } else {
        let n = a.len() - 1;
        assert(a.to_multiset().count(a[n]) > 0) by {
            assert(a.contains(a[n]));
        }
        assert(b.contains(a[n]));
        assert(b.to_multiset().count(b[n]) > 0) by {
            assert(b.contains(b[n]));
        }
        assert(a.contains(b[n]));
        let i = choose|i: int| 0 <= i < b.len() && b[i] == a[n];
        let j = choose|j: int| 0 <= j < a.len() && a[j] == b[n];
        assert(rank(b[i]) <= rank(b[n]));
        assert(rank(a[j]) <= rank(a[n]));
        assert(i == n);
        let c = a.drop_last();
        let d = b.drop_last();
        assert(a =~= c.push(a[n]));
        assert(b =~= d.push(b[n]));
        assert(c.to_multiset() =~= a.to_multiset().remove(a[n])) by {
            assert(a.to_multiset() =~= c.to_multiset().insert(a[n]));
        }
        assert(d.to_multiset() =~= b.to_multiset().remove(b[n])) by {
            assert(b.to_multiset() =~= d.to_multiset().insert(b[n]));
        }
        assert forall|x: int, y: int| 0 <= x <= y < c.len() implies rank(#[trigger] c[x]) <= rank(
            #[trigger] c[y],
        ) by {
            assert(rank(a[x]) <= rank(a[y]));
        }
        assert forall|x: int, y: int| 0 <= x <= y < d.len() implies rank(#[trigger] d[x]) <= rank(
            #[trigger] d[y],
        ) by {
            assert(rank(b[x]) <= rank(b[y]));
        }
        assert forall|x: int, y: int| 0 <= x < y < d.len() implies rank(#[trigger] d[x]) != rank(
            #[trigger] d[y],
        ) by {
            assert(rank(b[x]) != rank(b[y]));
        }
        lemma_same_arrangement(c, d, rank);
    }
}

/// Describing what two sequences hold alike gives descriptions held alike.
pub proof fn lemma_described_alike<A, B>(a: Seq<A>, b: Seq<A>, f: spec_fn(A) -> B)
    requires
        a.to_multiset() == b.to_multiset(),
    ensures
        a.map_values(f).to_multiset() == b.map_values(f).to_multiset(),
    decreases a.len(),
{
    broadcast use vstd::seq_lib::group_to_multiset_ensures;

    a.to_multiset_ensures();
    b.to_multiset_ensures();
    assert(a.len() == a.to_multiset().len() == b.len());
    if a.len() == 0 {
        assert(a.map_values(f) =~= b.map_values(f));
    } else {
        let n = a.len() - 1;
        let x = a[n];
        assert(a.to_multiset().count(x) > 0) by {
            assert(a.contains(x));
        }
        assert(b.contains(x));
        let k = choose|k: int| 0 <= k < b.len() && b[k] == x;
        let c = a.drop_last();
        let d = b.remove(k);
        assert(a =~= c.push(x));
        assert(a.to_multiset() =~= c.to_multiset().insert(x));
        assert(c.to_multiset() =~= a.to_multiset().remove(x));
        assert(d.to_multiset() =~= b.to_multiset().remove(x));
        lemma_described_alike(c, d, f);
        let bf = b.map_values(f);
        assert(a.map_values(f) =~= c.map_values(f).push(f(x)));
        assert(bf.remove(k) =~= d.map_values(f));
        assert(bf[k] == f(x));
        bf.to_multiset_ensures();
        assert(bf.to_multiset().count(f(x)) > 0) by {
            assert(bf.contains(bf[k]));
        }
        assert(bf.remove(k).to_multiset() =~= bf.to_multiset().remove(f(x)));
        assert(bf.to_multiset() =~= d.map_values(f).to_multiset().insert(f(x)));
    }
}

/// What is held alike is the same in ascending order.
pub proof fn lemma_ascending_alike(a: Seq<u64>, b: Seq<u64>)
    requires
        a.to_multiset() == b.to_multiset(),
    ensures
        ascending(a) == ascending(b),
{
    let rank = |x: u64| x as int;
    let leq = |x: u64, y: u64| rank(x) <= rank(y);
    lemma_arranged(a, rank);
    lemma_arranged(b, rank);
    assert(vstd::relations::sorted_by(ascending(a), leq));
    assert(vstd::relations::sorted_by(ascending(b), leq));
    vstd::seq_lib::lemma_sorted_unique(ascending(a), ascending(b), leq);
}

/// Sorts with `slice::sort_unstable`, which orders a slice of integers
/// ascending and neither adds nor drops an element.
#[verifier::external_body]
fn sort_in_place(v: &mut Vec<u64>)
    ensures
        ascends(final(v)@, |x: u64| x as int),
        final(v)@.to_multiset() == old(v)@.to_multiset(),
{
    v.sort_unstable();
}

pub fn sort_ascending(v: &mut Vec<u64>)
    ensures
        final(v)@ == ascending(old(v)@),
{
    let ghost before = v@;
    sort_in_place(v);
    proof {
        let rank = |x: u64| x as int;
        let leq = |a: u64, b: u64| rank(a) <= rank(b);
        lemma_arranged(before, rank);
        assert(vstd::relations::sorted_by(v@, leq));
        assert(vstd::relations::sorted_by(ascending(before), leq));
        vstd::seq_lib::lemma_sorted_unique(v@, ascending(before), leq);
    }
}

/// Appending one element appends it to what `p` picks, if `p` picks it.
pub proof fn lemma_filter_push<A>(s: Seq<A>, x: A, p: spec_fn(A) -> bool)
    ensures
        s.push(x).filter(p) == (if p(x) {
            s.filter(p).push(x)
        } else {
            s.filter(p)
        }),
{
    reveal(Seq::filter);
    assert(s.push(x).drop_last() =~= s);
}

/// Where `p` picks the first `k` elements, it picks `k` at least; where it
/// picks none from the `k`-th on, it picks `k` at most.
pub proof fn lemma_filter_ends<A>(s: Seq<A>, p: spec_fn(A) -> bool, k: int)
    requires
        0 <= k <= s.len(),
    ensures
        (forall|i: int| 0 <= i < k ==> p(#[trigger] s[i])) ==> s.filter(p).len() >= k,
        (forall|i: int| k <= i < s.len() ==> !p(#[trigger] s[i])) ==> s.filter(p).len() <= k,
        s.filter(p).len() <= s.len(),
    decreases s.len(),
{
    reveal(Seq::filter);
    if s.len() > 0 {
        let rest = s.drop_last();
        let last = s.len() - 1;
        let low = if k < s.len() {
            k
        } else {
            k - 1
        };
        lemma_filter_ends(rest, p, low);
        assert(forall|i: int| 0 <= i < rest.len() ==> rest[i] == #[trigger] s[i]);
        if forall|i: int| 0 <= i < k ==> p(#[trigger] s[i]) {
            assert forall|i: int| 0 <= i < low implies p(#[trigger] rest[i]) by {
                assert(p(s[i]));
            }
            if k == s.len() {
                assert(p(s[last]));
            }
        }
        if forall|i: int| k <= i < s.len() ==> !p(#[trigger] s[i]) {
            assert forall|i: int| low <= i < rest.len() implies !p(#[trigger] rest[i]) by {
                assert(!p(s[i]));
            }
            if k < s.len() {
                assert(!p(s[last]));
            }
        }
    }
}

proof fn lemma_placed_filter<A>(
    order: Seq<A>,
    x: A,
    rank: spec_fn(A) -> int,
    p: spec_fn(A) -> bool,
)
    ensures
        placed(order, x, rank).filter(p).len() == order.push(x).filter(p).len(),
    decreases order.len(),
{
    lemma_filter_push(order, x, p);
    if order.len() == 0 || rank(order.last()) <= rank(x) {
    } else {
        let rest = order.drop_last();
        lemma_placed_filter(rest, x, rank, p);
        lemma_filter_push(placed(rest, x, rank), order.last(), p);
        lemma_filter_push(rest, order.last(), p);
        lemma_filter_push(rest, x, p);
        assert(order =~= rest.push(order.last()));
    }
}

/// Arranging changes nothing about how many elements `p` picks.
pub proof fn lemma_arranged_filter<A>(s: Seq<A>, rank: spec_fn(A) -> int, p: spec_fn(A) -> bool)
    ensures
        arranged(s, rank).filter(p).len() == s.filter(p).len(),
    decreases s.len(),
{
    if s.len() > 0 {
        let rest = s.drop_last();
        lemma_arranged_filter(rest, rank, p);
        lemma_placed_filter(arranged(rest, rank), s.last(), rank, p);
        lemma_filter_push(arranged(rest, rank), s.last(), p);
        lemma_filter_push(rest, s.last(), p);
        assert(s =~= rest.push(s.last()));
    } else {
        assert(s =~= arranged(s, rank));
    }
}

/// Picking among described elements is picking among the elements.
pub proof fn lemma_map_filter<A, B>(
    s: Seq<A>,
    t: Seq<B>,
    f: spec_fn(A) -> B,
    p: spec_fn(B) -> bool,
    q: spec_fn(A) -> bool,
)
    requires
        s.len() == t.len(),
        forall|i: int| 0 <= i < s.len() ==> #[trigger] t[i] == f(s[i]),
        forall|x: A| #[trigger] q(x) == p(f(x)),
    ensures
        t.filter(p).len() == s.filter(q).len(),
    decreases s.len(),
{
    reveal(Seq::filter);
    if s.len() > 0 {
        assert forall|i: int| 0 <= i < s.drop_last().len() implies #[trigger] t.drop_last()[i]
            == f(s.drop_last()[i]) by {
            assert(t[i] == f(s[i]));
        }
        lemma_map_filter(s.drop_last(), t.drop_last(), f, p, q);
        assert(t[t.len() - 1] == f(s[s.len() - 1]));
        assert(q(s.last()) == p(f(s.last())));
    }
}

/// What a sequence held, its arrangement holds.
pub proof fn lemma_arranged_contains<A>(s: Seq<A>, rank: spec_fn(A) -> int, x: A)
    ensures
        arranged(s, rank).contains(x) <==> s.contains(x),
{
    broadcast use vstd::seq_lib::group_to_multiset_ensures;

    lemma_arranged(s, rank);
    let t = arranged(s, rank);
    assert(s.contains(x) <==> s.to_multiset().count(x) > 0);
    assert(t.contains(x) <==> t.to_multiset().count(x) > 0);
}

/// Adding up does not depend on the arrangement.
pub proof fn lemma_arranged_sum<A>(s: Seq<A>, rank: spec_fn(A) -> int, w: spec_fn(int, A) -> int, f: spec_fn(A) -> int)
    requires
        forall|a: int, x: A| #[trigger] w(a, x) == a + f(x),
    ensures
        arranged(s, rank).fold_left(0, w) == s.fold_left(0, w),
    decreases s.len(),
{
    reveal(Seq::fold_left);
    if s.len() > 0 {
        let rest = s.drop_last();
        lemma_arranged_sum(rest, rank, w, f);
        lemma_placed_sum(arranged(rest, rank), s.last(), rank, w, f);
        assert(w(rest.fold_left(0, w), s.last()) == rest.fold_left(0, w) + f(s.last()));
    } else {
        assert(s =~= arranged(s, rank));
    }
}

proof fn lemma_placed_sum<A>(order: Seq<A>, x: A, rank: spec_fn(A) -> int, w: spec_fn(int, A) -> int, f: spec_fn(A) -> int)
    requires
        forall|a: int, x: A| #[trigger] w(a, x) == a + f(x),
    ensures
        placed(order, x, rank).fold_left(0, w) == order.fold_left(0, w) + f(x),
    decreases order.len(),
{
    reveal(Seq::fold_left);
    if order.len() == 0 || rank(order.last()) <= rank(x) {
        assert(order.push(x).drop_last() =~= order);
        assert(w(order.fold_left(0, w), x) == order.fold_left(0, w) + f(x));
    } else {
        let rest = order.drop_last();
        lemma_placed_sum(rest, x, rank, w, f);
        let below = placed(rest, x, rank);
        assert(below.push(order.last()).drop_last() =~= below);
        assert(w(below.fold_left(0, w), order.last()) == below.fold_left(0, w) + f(order.last()));
        assert(w(rest.fold_left(0, w), order.last()) == rest.fold_left(0, w) + f(order.last()));
    }
}

proof fn lemma_placed_keeps<A>(order: Seq<A>, x: A, rank: spec_fn(A) -> int, k: int)
    ensures
        placed(order, x, rank).filter(|a: A| rank(a) == k) == order.push(x).filter(
            |a: A| rank(a) == k,
        ),
    decreases order.len(),
{
    let p = |a: A| rank(a) == k;
    if order.len() == 0 || rank(order.last()) <= rank(x) {
    } else {
        let rest = order.drop_last();
        lemma_placed_keeps(rest, x, rank, k);
        lemma_filter_push(placed(rest, x, rank), order.last(), p);
        lemma_filter_push(rest, x, p);
        lemma_filter_push(rest, order.last(), p);
        lemma_filter_push(order, x, p);
        assert(order =~= rest.push(order.last()));
    }
}

/// An arrangement holds what the sequence held, in ascending rank, and what
/// ranks equal in the order it came.
pub proof fn law_equal_ranks_keep_their_order<A>(s: Seq<A>, rank: spec_fn(A) -> int, k: int)
    ensures
        arranged(s, rank).to_multiset() == s.to_multiset(),
        forall|i: int, j: int|
            0 <= i <= j < s.len() ==> rank(#[trigger] arranged(s, rank)[i]) <= rank(
                #[trigger] arranged(s, rank)[j],
            ),
        arranged(s, rank).filter(|a: A| rank(a) == k) == s.filter(|a: A| rank(a) == k),
    decreases s.len(),
{
    let p = |a: A| rank(a) == k;
    lemma_arranged(s, rank);
    if s.len() > 0 {
        let rest = s.drop_last();
        law_equal_ranks_keep_their_order(rest, rank, k);
        lemma_placed_keeps(arranged(rest, rank), s.last(), rank, k);
        lemma_filter_push(arranged(rest, rank), s.last(), p);
        lemma_filter_push(rest, s.last(), p);
        assert(s =~= rest.push(s.last()));
    } else {
        assert(s =~= arranged(s, rank));
    }
}

} // verus!
