//! How writing and reading texts relate: what is written reads back, what is
//! taken apart goes together again, and what is cut off is what was to be cut.

use vstd::prelude::*;

verus! {

/// The first separator in a text is the one behind a front that has none.
pub proof fn lemma_first_after(front: Seq<char>, sep: char, tail: Seq<char>)
    requires
        forall|i: int| 0 <= i < front.len() ==> #[trigger] front[i] != sep,
    ensures
        crate::text::first_of(front + seq![sep] + tail, sep) == Some(front.len() as int),
    decreases front.len(),
{
    let s = front + seq![sep] + tail;
    if front.len() == 0 {
        assert(s[0] == sep);
    } else {
        assert(s[0] == front[0]);
        let rest = front.skip(1);
        assert forall|i: int| 0 <= i < rest.len() implies #[trigger] rest[i] != sep by {
            assert(rest[i] == front[i + 1]);
        }
        lemma_first_after(rest, sep, tail);
        assert(s.skip(1) =~= rest + seq![sep] + tail);
    }
}

/// A text without a separator has no first one.
pub proof fn lemma_none_first(s: Seq<char>, sep: char)
    requires
        forall|i: int| 0 <= i < s.len() ==> #[trigger] s[i] != sep,
    ensures
        crate::text::first_of(s, sep) is None,
    decreases s.len(),
{
    if s.len() > 0 {
        let rest = s.skip(1);
        assert forall|i: int| 0 <= i < rest.len() implies #[trigger] rest[i] != sep by {
            assert(rest[i] == s[i + 1]);
        }
        lemma_none_first(rest, sep);
        assert(s[0] != sep);
    }
}

/// A written number is made of digits.
pub proof fn law_numbers_are_written_in_digits(n: nat)
    ensures
        crate::text::decimal(n).len() > 0,
        forall|i: int|
            0 <= i < crate::text::decimal(n).len() ==> '0' <= #[trigger] crate::text::decimal(n)[i]
                && crate::text::decimal(n)[i] <= '9',
        n > 0 ==> crate::text::decimal(n)[0] != '0',
    decreases n,
{
    let s = crate::text::decimal(n);
    if n >= 10 {
        law_numbers_are_written_in_digits(n / 10);
        let front = crate::text::decimal(n / 10);
        assert(s == front.push((48 + n % 10) as char));
        assert forall|i: int| 0 <= i < s.len() implies '0' <= #[trigger] s[i] && s[i] <= '9' by {
            if i < front.len() {
                assert(s[i] == front[i]);
            }
        }
        assert(s[0] == front[0]);
    }
}

/// A signed number that was written reads back.
pub proof fn law_signed_numbers_read_back(n: int, max: nat)
    requires
        -(max as int) - 1 <= n <= max,
    ensures
        crate::text::signed(crate::text::decimal_int(n), max) == Some(n),
{
    if n < 0 {
        let m = (-n) as nat;
        crate::text::law_decimal_reads_back(m);
        let s = crate::text::decimal_int(n);
        assert(s.skip(1) =~= crate::text::decimal(m));
        assert(s[0] == '-');
    } else {
        crate::text::law_decimal_reads_back(n as nat);
    }
}

proof fn lemma_run_push(s: Seq<char>, c: char)
    ensures
        crate::text::run_value(s.push(c), 10) == (match (
            crate::text::run_value(s, 10),
            crate::text::digit(c, 10),
        ) {
            (Some(v), Some(d)) => Some(v * 10 + d),
            _ => None,
        }),
{
    assert(s.push(c).drop_last() =~= s);
}

/// Up to three digits behind the point.
proof fn lemma_scaled(w: nat, part: Seq<char>, k: nat, p: nat)
    requires
        crate::text::run_value(part, 10) is Some,
        p == crate::text::ten_to(k),
    ensures
        crate::text::scaled(crate::text::decimal(w) + seq!['.'] + part, k) == Some(
            w * p + crate::text::leading_digits(part, k),
        ),
        crate::text::scaled(crate::text::decimal(w), k) == Some(w * p),
{
    let front = crate::text::decimal(w);
    let s = front + seq!['.'] + part;
    law_numbers_are_written_in_digits(w);
    crate::text::law_decimal_reads_back(w);
    assert forall|i: int| 0 <= i < front.len() implies #[trigger] front[i] != '.' by {
        assert('0' <= front[i] && front[i] <= '9');
    }
    lemma_first_after(front, '.', part);
    lemma_none_first(front, '.');
    assert(s.take(front.len() as int) =~= front);
    assert(s.skip(front.len() as int + 1) =~= part);
    assert(front.take(front.len() as int) =~= front);
    lemma_no_digits(k);
    assert(crate::text::run_value(Seq::<char>::empty(), 10) == Some(0nat));
}

proof fn lemma_no_digits(k: nat)
    ensures
        crate::text::leading_digits(Seq::empty(), k) == 0,
    decreases k,
{
    if k > 0 {
        lemma_no_digits((k - 1) as nat);
    }
}

proof fn lemma_one_digit(d: nat)
    requires
        d < 10,
    ensures
        crate::text::decimal(d) == seq![(48 + d) as char],
        crate::text::digit((48 + d) as char, 10) == Some(d),
        crate::text::run_value(crate::text::decimal(d), 10) == Some(d),
{
    crate::text::law_decimal_reads_back(d);
}

/// The decimals of a number of thousandths, as they are written.
proof fn lemma_decimals(rest: nat)
    requires
        rest < 1000,
    ensures
        ({
            let part = if rest % 100 == 0 {
                crate::text::decimal(rest / 100)
            } else if rest % 10 == 0 {
                crate::text::decimal(rest / 100) + crate::text::decimal(rest / 10 % 10)
            } else {
                crate::text::decimal(rest / 100) + crate::text::decimal(rest / 10 % 10)
                    + crate::text::decimal(rest % 10)
            };
            &&& crate::text::run_value(part, 10) is Some
            &&& crate::text::leading_digits(part, 3) == rest
        }),
{
    let a = rest / 100;
    let b = rest / 10 % 10;
    let c = rest % 10;
    lemma_one_digit(a);
    lemma_one_digit(b);
    lemma_one_digit(c);
    let pa = crate::text::decimal(a);
    let ca = (48 + a) as char;
    let cb = (48 + b) as char;
    let cc = (48 + c) as char;
    let pab = pa.push(cb);
    let pabc = pab.push(cc);
    assert(pa + crate::text::decimal(b) =~= pab);
    assert(pab + crate::text::decimal(c) =~= pabc);
    lemma_run_push(pa, cb);
    lemma_run_push(pab, cc);
    reveal_with_fuel(crate::text::leading_digits, 4);
    assert(pa[0] == ca && pab[0] == ca && pab[1] == cb);
    assert(pabc[0] == ca && pabc[1] == cb && pabc[2] == cc);
    assert(rest == a * 100 + b * 10 + c);
}

/// A number of thousandths that was written reads back.
pub proof fn law_thousandths_read_back(v: int)
    requires
        -(i64::MAX as int) <= v <= i64::MAX,
    ensures
        crate::text::milli(crate::text::thousandths(v)) == Some(v),
{
    reveal_strlit("-");
    reveal_strlit("");
    reveal_strlit(".");
    let size = if v < 0 {
        (-v) as nat
    } else {
        v as nat
    };
    let rest = size % 1000;
    let part = if rest % 100 == 0 {
        crate::text::decimal(rest / 100)
    } else if rest % 10 == 0 {
        crate::text::decimal(rest / 100) + crate::text::decimal(rest / 10 % 10)
    } else {
        crate::text::decimal(rest / 100) + crate::text::decimal(rest / 10 % 10)
            + crate::text::decimal(rest % 10)
    };
    lemma_decimals(rest);
    reveal_with_fuel(crate::text::ten_to, 4);
    lemma_scaled(size / 1000, part, 3, 1000);
    law_numbers_are_written_in_digits(size / 1000);
    let plain = crate::text::decimal(size / 1000) + seq!['.'] + part;
    let s = crate::text::thousandths(v);
    assert("."@ =~= seq!['.']);
    assert('0' <= crate::text::decimal(size / 1000)[0]);
    if v < 0 {
        assert("-"@ =~= seq!['-']);
        assert(s.skip(1) =~= plain);
        assert(s[0] == '-');
    } else {
        assert(s =~= plain);
        assert(s[0] == crate::text::decimal(size / 1000)[0]);
    }
}

/// A whole number reads as so many thousands of thousandths.
pub proof fn law_whole_numbers_read_as_thousandths(n: nat)
    requires
        n * 1000 <= i64::MAX,
    ensures
        crate::text::milli(crate::text::decimal(n)) == Some((n * 1000) as int),
        crate::text::milli(crate::text::trimmed(crate::text::decimal(n))) == Some((n * 1000) as int),
{
    reveal_with_fuel(crate::text::ten_to, 4);
    lemma_scaled(n, Seq::empty(), 3, 1000);
    law_numbers_are_written_in_digits(n);
    crate::routeros::btest::lemma_decimal_is_trimmed(n);
    assert('0' <= crate::text::decimal(n)[0] && crate::text::decimal(n)[0] <= '9');
}

/// A figure given without decimals is off by half a unit at most.
pub proof fn law_whole_figures_are_near(v: int)
    requires
        -(i64::MAX as int) + 1000 <= v <= i64::MAX - 1000,
    ensures
        ({
            let whole = crate::text::milli(crate::text::fixed(v, 0));
            whole is Some && whole->0 % 1000 == 0 && -500 <= whole->0 - v <= 500
        }),
{
    let size = if v < 0 {
        (-v) as nat
    } else {
        v as nat
    };
    let w = crate::round::rounded_quotient(size, 1000);
    reveal_with_fuel(crate::text::ten_to, 4);
    crate::discovery::laws::lemma_rounded(size, 1000);
    lemma_scaled(w, Seq::empty(), 3, 1000);
    law_numbers_are_written_in_digits(w);
    assert('0' <= crate::text::decimal(w)[0]);
    let a = crate::text::fixed(v, 0);
    if v < 0 {
        assert(a.skip(1) =~= crate::text::decimal(w));
        assert(a[0] == '-');
    } else {
        assert(a =~= crate::text::decimal(w));
    }
}

/// A figure given with one decimal is off by half a tenth at most.
pub proof fn law_figures_in_tenths_are_near(v: int)
    requires
        -(i64::MAX as int) + 1000 <= v <= i64::MAX - 1000,
    ensures
        ({
            let tenths = crate::text::milli(crate::text::fixed(v, 1));
            tenths is Some && tenths->0 % 100 == 0 && -50 <= tenths->0 - v <= 50
        }),
{
    let size = if v < 0 {
        (-v) as nat
    } else {
        v as nat
    };
    let t = crate::round::rounded_quotient(size, 100);
    let part = crate::text::decimal(t % 10);
    let plain = crate::text::decimal(t / 10) + seq!['.'] + part;
    reveal_with_fuel(crate::text::ten_to, 4);
    crate::discovery::laws::lemma_rounded(size, 100);
    lemma_one_digit(t % 10);
    lemma_scaled(t / 10, part, 3, 1000);
    assert(crate::text::leading_digits(part, 3) == (t % 10) * 100) by {
        reveal_with_fuel(crate::text::leading_digits, 4);
    }
    assert(crate::text::scaled(plain, 3) == Some(t * 100));
    law_numbers_are_written_in_digits(t / 10);
    assert('0' <= crate::text::decimal(t / 10)[0]);
    let b = crate::text::fixed(v, 1);
    if v < 0 {
        assert(b.skip(1) =~= plain);
        assert(b[0] == '-');
    } else {
        assert(b =~= plain);
        assert(b[0] == crate::text::decimal(t / 10)[0]);
    }
}

/// Appending a number and its unit to a span adds so many units to it.
proof fn lemma_span_step(s: Seq<char>, n: nat, unit: char, weeks: bool, secs: nat)
    requires
        secs == crate::text::unit_seconds(unit, weeks),
        s.len() > 0 ==> crate::text::digit(s.last(), 10) is None,
        crate::text::digit(unit, 10) is None,
    ensures
        crate::text::span_seconds(s + crate::text::decimal(n) + seq![unit], weeks)
            == crate::text::span_seconds(s, weeks) + n * secs,
{
    let t = s + crate::text::decimal(n);
    lemma_open_number(s, n, weeks);
    assert((t + seq![unit]).drop_last() =~= t);
    assert((t + seq![unit]).last() == unit);
}

proof fn lemma_open_number(s: Seq<char>, n: nat, weeks: bool)
    requires
        s.len() > 0 ==> crate::text::digit(s.last(), 10) is None,
    ensures
        crate::text::open_number(s + crate::text::decimal(n)) == n,
        crate::text::span_seconds(s + crate::text::decimal(n), weeks) == crate::text::span_seconds(
            s,
            weeks,
        ),
    decreases n,
{
    let t = s + crate::text::decimal(n);
    let d = n % 10;
    assert(t.last() == (48 + d) as char);
    assert(crate::text::digit(t.last(), 10) == Some(d));
    if n < 10 {
        assert(t.drop_last() =~= s);
        assert(crate::text::open_number(s) == 0);
    } else {
        lemma_open_number(s, n / 10, weeks);
        assert(t.drop_last() =~= s + crate::text::decimal(n / 10));
    }
}

/// A span of days, hours, minutes and seconds is so many seconds.
pub proof fn law_spans_add_up(d: nat, h: nat, m: nat, s: nat)
    ensures
        crate::text::span_seconds(
            crate::text::decimal(d) + seq!['d'] + crate::text::decimal(h) + seq!['h']
                + crate::text::decimal(m) + seq!['m'] + crate::text::decimal(s) + seq!['s'],
            false,
        ) == d * 86_400 + h * 3_600 + m * 60 + s,
        crate::text::span_seconds(crate::text::decimal(s) + seq!['s'], false) == s,
        crate::text::span_seconds(crate::text::decimal(d) + seq!['w'], true) == d * 604_800,
{
    let e = Seq::<char>::empty();
    let a = crate::text::decimal(d) + seq!['d'];
    let b = a + crate::text::decimal(h) + seq!['h'];
    let c = b + crate::text::decimal(m) + seq!['m'];
    assert(e + crate::text::decimal(d) =~= crate::text::decimal(d));
    assert(e + crate::text::decimal(s) =~= crate::text::decimal(s));
    lemma_span_step(e, d, 'd', false, 86_400);
    lemma_span_step(a, h, 'h', false, 3_600);
    lemma_span_step(b, m, 'm', false, 60);
    lemma_span_step(c, s, 's', false, 1);
    lemma_span_step(e, s, 's', false, 1);
    lemma_span_step(e, d, 'w', true, 604_800);
}

/// Trimming takes white space from both ends and nothing else: what is left
/// neither starts nor ends with any, and stands in the text with nothing but
/// white space around it.
pub proof fn law_trimming_takes_white_space_alone(s: Seq<char>)
    ensures
        ({
            let t = crate::text::trimmed(s);
            &&& t.len() > 0 ==> !crate::text::is_space(t[0]) && !crate::text::is_space(t.last())
            &&& exists|from: int|
                0 <= from && from + t.len() <= s.len() && #[trigger] s.subrange(
                    from,
                    from + t.len(),
                ) == t && (forall|i: int|
                    0 <= i < from || from + t.len() <= i < s.len() ==> crate::text::is_space(
                        #[trigger] s[i],
                    ))
        }),
{
    let f = |c: char| crate::text::is_space(c);
    let u = crate::text::without_front(s, f);
    let t = crate::text::trimmed(s);
    let from = lemma_cut_front(s, f);
    lemma_cut_back(u, f);
    assert(s.subrange(from, from + t.len()) =~= t) by {
        assert(forall|i: int| 0 <= i < t.len() ==> #[trigger] t[i] == u[i]);
    }
    if t.len() > 0 {
        assert(!f(t.last()));
        assert(t[0] == u[0]);
        assert(!f(u[0]));
    }
    assert forall|i: int| 0 <= i < from || from + t.len() <= i < s.len() implies crate::text::is_space(
        #[trigger] s[i],
    ) by {
        if i < from {
            assert(f(s[i]));
        } else {
            assert(u[i - from] == s[i]);
            assert(f(u[i - from]));
        }
    }
}

proof fn lemma_cut_front(s: Seq<char>, f: spec_fn(char) -> bool) -> (from: int)
    ensures
        0 <= from <= s.len(),
        crate::text::without_front(s, f) == s.skip(from),
        forall|i: int| 0 <= i < from ==> f(#[trigger] s[i]),
        from < s.len() ==> !f(s[from]),
    decreases s.len(),
{
    if s.len() > 0 && f(s[0]) {
        let k = lemma_cut_front(s.skip(1), f);
        assert(s.skip(1).skip(k) =~= s.skip(k + 1));
        assert forall|i: int| 0 <= i < k + 1 implies f(#[trigger] s[i]) by {
            if i > 0 {
                assert(s.skip(1)[i - 1] == s[i]);
            }
        }
        k + 1
    } else {
        assert(s.skip(0) =~= s);
        0
    }
}

pub proof fn lemma_cut_back(s: Seq<char>, f: spec_fn(char) -> bool)
    ensures
        ({
            let t = crate::text::without_back(s, f);
            &&& t.len() <= s.len()
            &&& t == s.take(t.len() as int)
            &&& forall|i: int| t.len() <= i < s.len() ==> f(#[trigger] s[i])
            &&& t.len() > 0 ==> !f(t.last())
        }),
    decreases s.len(),
{
    let t = crate::text::without_back(s, f);
    if s.len() > 0 && f(s.last()) {
        lemma_cut_back(s.drop_last(), f);
        assert(s.drop_last().take(t.len() as int) =~= s.take(t.len() as int));
        assert forall|i: int| t.len() <= i < s.len() implies f(#[trigger] s[i]) by {
            if i < s.len() - 1 {
                assert(s.drop_last()[i] == s[i]);
            }
        }
    } else {
        assert(s.take(s.len() as int) =~= s);
    }
}

/// What is split at a separator goes together again with it, and no piece holds
/// one.
pub proof fn law_split_pieces_go_together(s: Seq<char>, sep: char)
    ensures
        crate::text::joined(crate::text::pieces(s, sep), seq![sep]) == s,
        forall|k: int, i: int|
            0 <= k < crate::text::pieces(s, sep).len() && 0 <= i < crate::text::pieces(
                s,
                sep,
            )[k].len() ==> #[trigger] crate::text::pieces(s, sep)[k][i] != sep,
    decreases s.len(),
{
    let all = crate::text::pieces(s, sep);
    if s.len() > 0 {
        let rest = s.drop_last();
        let before = crate::text::pieces(rest, sep);
        law_split_pieces_go_together(rest, sep);
        crate::text::lemma_pieces_nonempty(rest, sep);
        if s.last() == sep {
            assert(all.drop_last() =~= before);
            assert(crate::text::joined(all, seq![sep]) =~= crate::text::joined(before, seq![sep])
                + seq![sep] + Seq::<char>::empty());
            assert(s =~= rest + seq![sep] + Seq::<char>::empty());
        } else {
            let front = before.drop_last();
            assert(all.drop_last() =~= front);
            if before.len() == 1 {
                assert(crate::text::joined(all, seq![sep]) =~= before.last().push(s.last()));
            } else {
                assert(crate::text::joined(all, seq![sep]) =~= (crate::text::joined(
                    front,
                    seq![sep],
                ) + seq![sep] + before.last()).push(s.last()));
            }
            assert(s =~= rest.push(s.last()));
        }
        assert forall|k: int, i: int| 0 <= k < all.len() && 0 <= i < all[k].len() implies #[trigger] all[k][i]
            != sep by {
            if k < before.len() - 1 {
                assert(all[k] == before[k]);
                assert(before[k][i] != sep);
            } else if s.last() == sep {
                if k < before.len() {
                    assert(before[k][i] != sep);
                }
            } else {
                assert(all[k] == before.last().push(s.last()));
                if i < before.last().len() {
                    assert(before[before.len() - 1][i] != sep);
                }
            }
        }
    }
}

/// Letter case is one of 26 pairs: lowering and raising undo each other on
/// letters, change nothing else, and agree on what differs in case alone.
pub proof fn law_letter_case(s: Seq<char>, i: int)
    requires
        0 <= i < s.len(),
    ensures
        crate::text::lowered(s).len() == s.len(),
        crate::text::uppered(s).len() == s.len(),
        crate::text::lowered(crate::text::uppered(s)) == crate::text::lowered(s),
        crate::text::uppered(crate::text::lowered(s)) == crate::text::uppered(s),
        'A' <= s[i] && s[i] <= 'Z' ==> crate::text::lowered(s)[i] as int - 'a' as int == s[i] as int
            - 'A' as int,
        'a' <= s[i] && s[i] <= 'z' ==> crate::text::uppered(s)[i] as int - 'A' as int == s[i] as int
            - 'a' as int,
        !('A' <= s[i] && s[i] <= 'Z') ==> crate::text::lowered(s)[i] == s[i],
        !('a' <= s[i] && s[i] <= 'z') ==> crate::text::uppered(s)[i] == s[i],
{
    assert(crate::text::lowered(crate::text::uppered(s)) =~= crate::text::lowered(s));
    assert(crate::text::uppered(crate::text::lowered(s)) =~= crate::text::uppered(s));
}

/// A number with a unit behind it reads as the number, in the scale asked for.
pub proof fn law_a_number_in_front_is_read(n: nat, tail: Seq<char>)
    requires
        n * 1000 <= u64::MAX,
        tail.len() > 0 ==> crate::text::digit(tail[0], 10) is None && tail[0] != '.',
    ensures
        crate::text::front_scaled(crate::text::decimal(n) + tail, 3) == n * 1000,
        crate::text::front_scaled(crate::text::decimal(n) + tail, 0) == n,
{
    let front = crate::text::decimal(n);
    law_numbers_are_written_in_digits(n);
    lemma_numeric_len(front, tail);
    assert((front + tail).take(front.len() as int) =~= front);
    reveal_with_fuel(crate::text::ten_to, 4);
    lemma_scaled(n, Seq::empty(), 3, 1000);
    lemma_scaled(n, Seq::empty(), 0, 1);
}

proof fn lemma_numeric_len(front: Seq<char>, tail: Seq<char>)
    requires
        forall|i: int|
            0 <= i < front.len() ==> crate::text::digit(#[trigger] front[i], 10) is Some
                || front[i] == '.',
        tail.len() > 0 ==> crate::text::digit(tail[0], 10) is None && tail[0] != '.',
    ensures
        crate::text::numeric_len(front + tail) == front.len(),
    decreases front.len(),
{
    let s = front + tail;
    if front.len() == 0 {
        assert(s =~= tail);
    } else {
        assert(s[0] == front[0]);
        let rest = front.skip(1);
        assert forall|i: int| 0 <= i < rest.len() implies crate::text::digit(
            #[trigger] rest[i],
            10,
        ) is Some || rest[i] == '.' by {
            assert(rest[i] == front[i + 1]);
        }
        lemma_numeric_len(rest, tail);
        assert(s.skip(1) =~= rest + tail);
    }
}

/// So many seconds, written with their unit, are a span of so many.
pub proof fn lemma_seconds(n: nat, weeks: bool)
    ensures
        crate::text::span_seconds(crate::text::decimal(n) + seq!['s'], weeks) == n,
{
    let e = Seq::<char>::empty();
    assert(e + crate::text::decimal(n) =~= crate::text::decimal(n));
    lemma_span_step(e, n, 's', weeks, 1);
}

/// A number with one decimal reads as it is written.
pub proof fn lemma_one_decimal(w: nat, a: nat)
    requires
        a < 10,
        w * 1000 + 1000 <= i64::MAX,
    ensures
        crate::text::milli(crate::text::decimal(w) + seq!['.'] + crate::text::decimal(a)) == Some(
            (w * 1000 + a * 100) as int,
        ),
{
    let part = crate::text::decimal(a);
    reveal_with_fuel(crate::text::ten_to, 4);
    lemma_one_digit(a);
    lemma_scaled(w, part, 3, 1000);
    assert(crate::text::leading_digits(part, 3) == a * 100) by {
        reveal_with_fuel(crate::text::leading_digits, 4);
    }
    lemma_unsigned(w, part);
}

/// A number with two decimals reads as it is written.
pub proof fn lemma_two_decimals(w: nat, a: nat, b: nat)
    requires
        a < 10,
        b < 10,
        w * 1000 + a * 100 + b * 10 <= i64::MAX,
    ensures
        crate::text::milli(
            crate::text::decimal(w) + seq!['.'] + (crate::text::decimal(a) + crate::text::decimal(
                b,
            )),
        ) == Some((w * 1000 + a * 100 + b * 10) as int),
{
    let part = crate::text::decimal(a) + crate::text::decimal(b);
    reveal_with_fuel(crate::text::ten_to, 4);
    lemma_one_digit(a);
    lemma_one_digit(b);
    let cb = (48 + b) as char;
    assert(part =~= crate::text::decimal(a).push(cb));
    lemma_run_push(crate::text::decimal(a), cb);
    lemma_scaled(w, part, 3, 1000);
    assert(crate::text::leading_digits(part, 3) == a * 100 + b * 10) by {
        reveal_with_fuel(crate::text::leading_digits, 4);
        assert(part[0] == (48 + a) as char && part[1] == cb);
    }
    lemma_unsigned(w, part);
}

/// A number with three decimals reads as it is written.
pub proof fn lemma_three_decimals(w: nat, a: nat, b: nat, c: nat)
    requires
        a < 10,
        b < 10,
        c < 10,
        w * 1000 + a * 100 + b * 10 + c <= i64::MAX,
    ensures
        crate::text::milli(
            crate::text::decimal(w) + seq!['.'] + (crate::text::decimal(a) + crate::text::decimal(b)
                + crate::text::decimal(c)),
        ) == Some((w * 1000 + a * 100 + b * 10 + c) as int),
{
    let part = crate::text::decimal(a) + crate::text::decimal(b) + crate::text::decimal(c);
    reveal_with_fuel(crate::text::ten_to, 4);
    lemma_one_digit(a);
    lemma_one_digit(b);
    lemma_one_digit(c);
    let cb = (48 + b) as char;
    let cc = (48 + c) as char;
    let ab = crate::text::decimal(a).push(cb);
    assert(part =~= ab.push(cc));
    lemma_run_push(crate::text::decimal(a), cb);
    lemma_run_push(ab, cc);
    lemma_scaled(w, part, 3, 1000);
    assert(crate::text::leading_digits(part, 3) == a * 100 + b * 10 + c) by {
        reveal_with_fuel(crate::text::leading_digits, 4);
        assert(part[0] == (48 + a) as char && part[1] == cb && part[2] == cc);
    }
    lemma_unsigned(w, part);
}

/// A number that starts with a digit has no sign.
proof fn lemma_unsigned(w: nat, part: Seq<char>)
    ensures
        ({
            let s = crate::text::decimal(w) + seq!['.'] + part;
            s.len() > 0 && s[0] != '-' && s[0] != '+'
        }),
{
    law_numbers_are_written_in_digits(w);
    let s = crate::text::decimal(w) + seq!['.'] + part;
    assert(s[0] == crate::text::decimal(w)[0]);
    assert('0' <= s[0] && s[0] <= '9');
}

/// Two texts stand in dictionary order by the first character in which they
/// differ; one that the other only goes on from stands before it.
pub proof fn law_dictionary_order(front: Seq<char>, x: char, y: char, s: Seq<char>, t: Seq<char>)
    ensures
        x < y ==> crate::text::precedes(front + seq![x] + s, front + seq![y] + t),
        crate::text::precedes(front, front + seq![x] + s),
        !crate::text::precedes(front + seq![x] + s, front),
        !crate::text::precedes(front, front),
    decreases front.len(),
{
    let a = front + seq![x] + s;
    let b = front + seq![y] + t;
    if front.len() == 0 {
        assert(a[0] == x && b[0] == y);
    } else {
        let rest = front.skip(1);
        law_dictionary_order(rest, x, y, s, t);
        assert(a[0] == front[0] && b[0] == front[0]);
        assert(a.skip(1) =~= rest + seq![x] + s);
        assert(b.skip(1) =~= rest + seq![y] + t);
    }
}

/// The entries of a list are its pieces without the white space around them,
/// in their order; what is blank is no entry.
pub proof fn law_entries_are_trimmed_pieces(ps: Seq<Seq<char>>)
    ensures
        crate::text::entries_of(ps) == ps.map_values(|p: Seq<char>| crate::text::trimmed(p)).filter(
            |t: Seq<char>| t.len() > 0,
        ),
    decreases ps.len(),
{
    reveal(Seq::filter);
    let f = |p: Seq<char>| crate::text::trimmed(p);
    if ps.len() > 0 {
        law_entries_are_trimmed_pieces(ps.drop_last());
        assert(ps.map_values(f).drop_last() =~= ps.drop_last().map_values(f));
    } else {
        assert(ps.map_values(f).filter(|t: Seq<char>| t.len() > 0) =~= Seq::empty());
    }
}

} // verus!
