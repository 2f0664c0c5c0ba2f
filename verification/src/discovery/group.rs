//! Picking rows, describing them, and grouping them by a name.

use vstd::prelude::*;

use crate::text::{before, same};

verus! {

/// A line for each element that `p` picks, in order.
pub open spec fn lines<A>(s: Seq<A>, p: spec_fn(A) -> bool, f: spec_fn(A) -> Seq<char>) -> Seq<
    Seq<char>,
>
    decreases s.len(),
{
    if s.len() == 0 {
        Seq::empty()
    } else {
        let rest = lines(s.drop_last(), p, f);
        if p(s.last()) {
            rest.push(f(s.last()))
        } else {
            rest
        }
    }
}

/// How many elements `p` picks.
pub open spec fn count<A>(s: Seq<A>, p: spec_fn(A) -> bool) -> nat
    decreases s.len(),
{
    if s.len() == 0 {
        0
    } else {
        count(s.drop_last(), p) + (if p(s.last()) {
            1nat
        } else {
            0
        })
    }
}

pub proof fn lemma_count_lines<A>(s: Seq<A>, p: spec_fn(A) -> bool, f: spec_fn(A) -> Seq<char>)
    ensures
        lines(s, p, f).len() == count(s, p) <= s.len(),
    decreases s.len(),
{
    if s.len() > 0 {
        lemma_count_lines(s.drop_last(), p, f);
    }
}

/// The first `i + 1` elements are the first `i` and the next.
pub proof fn lemma_take_step<A>(s: Seq<A>, i: int)
    requires
        0 <= i < s.len(),
    ensures
        s.take(i + 1).drop_last() == s.take(i),
        s.take(i + 1).last() == s[i],
        s.take(i + 1).len() == i + 1,
{
    assert(s.take(i + 1).drop_last() =~= s.take(i));
}

pub proof fn lemma_take_ends<A>(s: Seq<A>)
    ensures
        s.take(0) == Seq::<A>::empty(),
        s.take(s.len() as int) == s,
{
    assert(s.take(0) =~= Seq::<A>::empty());
    assert(s.take(s.len() as int) =~= s);
}

/// `names` with `name` in its place in dictionary order, unless it is there.
pub open spec fn with_name(names: Seq<Seq<char>>, name: Seq<char>) -> Seq<Seq<char>>
    decreases names.len(),
{
    if names.len() == 0 || crate::text::precedes(names.last(), name) {
        names.push(name)
    } else if names.last() == name {
        names
    } else {
        with_name(names.drop_last(), name).push(names.last())
    }
}

/// The names of the elements that `p` picks: each once, in dictionary order.
pub open spec fn names_of<A>(
    s: Seq<A>,
    p: spec_fn(A) -> bool,
    name: spec_fn(A) -> Seq<char>,
) -> Seq<Seq<char>>
    decreases s.len(),
{
    if s.len() == 0 {
        Seq::empty()
    } else {
        let rest = names_of(s.drop_last(), p, name);
        if p(s.last()) {
            with_name(rest, name(s.last()))
        } else {
            rest
        }
    }
}

/// Puts `name` into a list of names kept in dictionary order.
pub fn add_name(names: &mut Vec<String>, name: &str)
    ensures
        crate::text::views(final(names)@) == with_name(crate::text::views(old(names)@), name@),
{
    let ghost start = crate::text::views(names@);
    let mut pos: usize = names.len();
    let ghost mut tail: Seq<Seq<char>> = Seq::empty();
    proof {
        assert(start.take(pos as int) =~= start);
        assert(with_name(start.take(pos as int), name@) + tail =~= with_name(start, name@));
    }
    while pos > 0 && !before(names[pos - 1].as_str(), name)
        invariant
            pos <= names@.len(),
            start == crate::text::views(names@),
            tail == start.skip(pos as int),
            with_name(start, name@) == with_name(start.take(pos as int), name@) + tail,
        decreases pos,
    {
        proof {
            assert(start.take(pos as int).last() == names@[pos - 1]@);
            assert(start.take(pos as int).drop_last() =~= start.take(pos - 1));
        }
        if same(names[pos - 1].as_str(), name) {
            proof {
                assert(start.take(pos as int) + tail =~= start);
            }
            return;
        }
        proof {
            let shorter = with_name(start.take(pos - 1), name@);
            assert(shorter.push(start[pos - 1]) + tail =~= shorter + start.skip(pos - 1));
            tail = start.skip(pos - 1);
        }
        pos = pos - 1;
    }
    proof {
        if pos > 0 {
            assert(start.take(pos as int).last() == names@[pos - 1]@);
        }
    }
    let fresh: String = name.to_owned();
    names.insert(pos, fresh);
    proof {
        assert(crate::text::views(names@) =~= start.take(pos as int).push(name@) + tail);
    }
}

/// What is counted, listed or named among the elements that `keep` keeps is
/// what is counted, listed or named among all, as long as nothing else is
/// picked.
pub proof fn lemma_kept<A>(
    s: Seq<A>,
    keep: spec_fn(A) -> bool,
    p: spec_fn(A) -> bool,
    f: spec_fn(A) -> Seq<char>,
)
    requires
        forall|x: A| #[trigger] p(x) ==> keep(x),
    ensures
        count(s.filter(keep), p) == count(s, p),
        lines(s.filter(keep), p, f) == lines(s, p, f),
        names_of(s.filter(keep), p, f) == names_of(s, p, f),
    decreases s.len(),
{
    reveal(Seq::filter);
    if s.len() > 0 {
        let rest = s.drop_last();
        lemma_kept(rest, keep, p, f);
        if keep(s.last()) {
            assert(s.filter(keep).drop_last() =~= rest.filter(keep));
        }
    }
}

/// Inserting what `keep` does not keep changes nothing of what it does.
pub proof fn lemma_insert_kept<A>(s: Seq<A>, at: int, x: A, keep: spec_fn(A) -> bool)
    requires
        0 <= at <= s.len(),
        !keep(x),
    ensures
        s.insert(at, x).filter(keep) == s.filter(keep),
{
    let a = s.take(at);
    let b = s.skip(at);
    let m = seq![x];
    assert(s =~= a + b);
    assert(s.insert(at, x) =~= a + m + b);
    Seq::filter_distributes_over_add(a, b, keep);
    Seq::filter_distributes_over_add(a, m, keep);
    Seq::filter_distributes_over_add(a + m, b, keep);
    assert(m.filter(keep) =~= Seq::empty()) by {
        reveal(Seq::filter);
        assert(m.drop_last() =~= Seq::empty());
        assert(m.drop_last().filter(keep) =~= Seq::empty());
    }
    assert(a.filter(keep) + Seq::empty() =~= a.filter(keep));
}

/// Each name comes before those behind it.
pub open spec fn in_order(names: Seq<Seq<char>>) -> bool {
    forall|i: int, j: int|
        0 <= i < j < names.len() ==> crate::text::precedes(#[trigger] names[i], #[trigger] names[j])
}

pub proof fn lemma_with_name(names: Seq<Seq<char>>, name: Seq<char>)
    requires
        in_order(names),
    ensures
        in_order(with_name(names, name)),
        forall|x: Seq<char>| #[trigger]
            with_name(names, name).contains(x) <==> names.contains(x) || x == name,
    decreases names.len(),
{
    let after = with_name(names, name);
    if names.len() == 0 || crate::text::precedes(names.last(), name) {
        assert forall|i: int, j: int| 0 <= i < j < after.len() implies crate::text::precedes(
            #[trigger] after[i],
            #[trigger] after[j],
        ) by {
            if j == names.len() && i < names.len() - 1 {
                crate::text::lemma_precedes_on(names[i], names.last(), name);
            }
        }
        lemma_push_contains(names, name);
    } else if names.last() == name {
        assert(names.contains(names[names.len() - 1]));
    } else {
        let rest = names.drop_last();
        let top = names.last();
        crate::text::lemma_precedes(top, name);
        lemma_with_name(rest, name);
        let below = with_name(rest, name);
        assert forall|i: int, j: int| 0 <= i < j < after.len() implies crate::text::precedes(
            #[trigger] after[i],
            #[trigger] after[j],
        ) by {
            if j == below.len() {
                assert(below.contains(below[i]));
                if below[i] != name {
                    let k = choose|k: int| 0 <= k < rest.len() && rest[k] == below[i];
                    assert(crate::text::precedes(names[k], names[names.len() - 1]));
                }
            } else {
                assert(crate::text::precedes(below[i], below[j]));
            }
        }
        lemma_push_contains(below, top);
        lemma_push_contains(rest, top);
        assert(rest.push(top) =~= names);
    }
}

proof fn lemma_push_contains(s: Seq<Seq<char>>, x: Seq<char>)
    ensures
        forall|y: Seq<char>| #[trigger] s.push(x).contains(y) <==> s.contains(y) || y == x,
{
    assert forall|y: Seq<char>| #[trigger] s.push(x).contains(y) <==> s.contains(y) || y == x by {
        if s.contains(y) {
            let k = choose|k: int| 0 <= k < s.len() && s[k] == y;
            assert(s.push(x)[k] == y);
        }
        assert(s.push(x)[s.len() as int] == x);
    }
}

/// Names stand in order, and are those of the elements that were picked.
pub proof fn lemma_names<A>(s: Seq<A>, p: spec_fn(A) -> bool, name: spec_fn(A) -> Seq<char>)
    ensures
        in_order(names_of(s, p, name)),
        forall|i: int| 0 <= i < s.len() && p(#[trigger] s[i]) ==> names_of(s, p, name).contains(
            name(s[i]),
        ),
    decreases s.len(),
{
    if s.len() > 0 {
        let rest = s.drop_last();
        lemma_names(rest, p, name);
        lemma_with_name(names_of(rest, p, name), name(s.last()));
        assert forall|i: int| 0 <= i < s.len() && p(#[trigger] s[i]) implies names_of(
            s,
            p,
            name,
        ).contains(name(s[i])) by {
            if i < rest.len() {
                assert(rest[i] == s[i]);
            }
        }
    }
}

/// Names in order are determined by which they are.
pub proof fn lemma_same_names(a: Seq<Seq<char>>, b: Seq<Seq<char>>)
    requires
        in_order(a),
        in_order(b),
        forall|x: Seq<char>| #[trigger] a.contains(x) <==> b.contains(x),
    ensures
        a == b,
    decreases a.len(),
{
    if a.len() == 0 {
        if b.len() > 0 {
            assert(b.contains(b[0]));
            assert(a.contains(b[0]));
        }
        assert(a =~= b);
    } else {
        let x = a[a.len() - 1];
        assert(a.contains(x));
        assert(b.contains(x));
        let y = b[b.len() - 1];
        assert(b.contains(y));
        assert(a.contains(y));
        let i = choose|i: int| 0 <= i < b.len() && b[i] == x;
        let j = choose|j: int| 0 <= j < a.len() && a[j] == y;
        crate::text::lemma_precedes(x, y);
        assert(x == y);
        let c = a.drop_last();
        let d = b.drop_last();
        assert forall|z: Seq<char>| #[trigger] c.contains(z) <==> d.contains(z) by {
            lemma_but_last(a, z);
            lemma_but_last(b, z);
        }
        lemma_same_names(c, d);
        assert(a =~= c.push(x));
        assert(b =~= d.push(x));
    }
}

proof fn lemma_but_last(a: Seq<Seq<char>>, z: Seq<char>)
    requires
        in_order(a),
        a.len() > 0,
    ensures
        a.drop_last().contains(z) <==> a.contains(z) && z != a.last(),
{
    let c = a.drop_last();
    if c.contains(z) {
        let k = choose|k: int| 0 <= k < c.len() && c[k] == z;
        assert(a[k] == z);
        crate::text::lemma_precedes(a[k], a[a.len() - 1]);
    }
    if a.contains(z) && z != a.last() {
        let k = choose|k: int| 0 <= k < a.len() && a[k] == z;
        assert(c[k] == z);
    }
}

/// Leaving names out keeps the order of the others.
pub proof fn lemma_filtered_names(a: Seq<Seq<char>>, q: spec_fn(Seq<char>) -> bool)
    requires
        in_order(a),
    ensures
        in_order(a.filter(q)),
        forall|x: Seq<char>| #[trigger] a.filter(q).contains(x) <==> a.contains(x) && q(x),
    decreases a.len(),
{
    reveal(Seq::filter);
    if a.len() > 0 {
        let rest = a.drop_last();
        let f = rest.filter(q);
        lemma_filtered_names(rest, q);
        lemma_push_contains(rest, a.last());
        assert(rest.push(a.last()) =~= a);
        if q(a.last()) {
            lemma_push_contains(f, a.last());
            let g = a.filter(q);
            assert(g == f.push(a.last()));
            assert forall|i: int, j: int| 0 <= i < j < g.len() implies crate::text::precedes(
                #[trigger] g[i],
                #[trigger] g[j],
            ) by {
                if j == f.len() {
                    assert(f.contains(f[i]));
                    assert(rest.contains(f[i]));
                    let k = choose|k: int| 0 <= k < rest.len() && rest[k] == f[i];
                    assert(crate::text::precedes(a[k], a[a.len() - 1]));
                } else {
                    assert(crate::text::precedes(f[i], f[j]));
                }
            }
        }
    }
}

} // verus!
