//! Text: reading numbers and words out of it, and building it.
//!
//! Routers and operators hand over strings. What a string says is stated here
//! over its characters.

use vstd::prelude::*;
use vstd::string::StrSliceExecFns;
use vstd::string::StringExecFns;

verus! {

broadcast use vstd::string::group_string_axioms;

/// `String::push` appends one character.
pub assume_specification[ String::push ](s: &mut String, c: char)
    ensures
        final(s)@ == old(s)@.push(c),
;

// ---------------------------------------------------------------------------
// Characters
// ---------------------------------------------------------------------------

/// The characters of `s`, in order.
pub fn chars(s: &str) -> (r: Vec<char>)
    ensures
        r@ == s@,
{
    let mut out: Vec<char> = Vec::new();
    for c in it: s.chars()
        invariant
            it.seq() == s@,
            out@ == s@.take(it.index() as int),
    {
        out.push(c);
    }
    out
}

/// Unicode white space.
pub open spec fn is_space(c: char) -> bool {
    let u = c as u32;
    ||| 0x09 <= u <= 0x0D
    ||| u == 0x20
    ||| u == 0x85
    ||| u == 0xA0
    ||| u == 0x1680
    ||| 0x2000 <= u <= 0x200A
    ||| u == 0x2028
    ||| u == 0x2029
    ||| u == 0x202F
    ||| u == 0x205F
    ||| u == 0x3000
}

pub fn is_whitespace(c: char) -> (r: bool)
    ensures
        r == is_space(c),
{
    let u: u32 = c as u32;
    (0x09 <= u && u <= 0x0D) || u == 0x20 || u == 0x85 || u == 0xA0 || u == 0x1680 || (0x2000 <= u
        && u <= 0x200A) || u == 0x2028 || u == 0x2029 || u == 0x202F || u == 0x205F || u == 0x3000
}

/// `c` with an ASCII capital made small.
pub open spec fn lower(c: char) -> char {
    if 'A' <= c && c <= 'Z' {
        (c as u32 + 32) as char
    } else {
        c
    }
}

/// `c` with an ASCII small letter made capital.
pub open spec fn upper(c: char) -> char {
    if 'a' <= c && c <= 'z' {
        (c as u32 - 32) as char
    } else {
        c
    }
}

pub open spec fn lowered(s: Seq<char>) -> Seq<char> {
    Seq::new(s.len(), |i: int| lower(s[i]))
}

pub open spec fn uppered(s: Seq<char>) -> Seq<char> {
    Seq::new(s.len(), |i: int| upper(s[i]))
}

fn lower_char(c: char) -> (r: char)
    ensures
        r == lower(c),
{
    if 'A' <= c && c <= 'Z' {
        let u: u8 = c as u8;
        (u + 32) as char
    } else {
        c
    }
}

fn upper_char(c: char) -> (r: char)
    ensures
        r == upper(c),
{
    if 'a' <= c && c <= 'z' {
        let u: u8 = c as u8;
        (u - 32) as char
    } else {
        c
    }
}

pub fn to_ascii_lowercase(s: &str) -> (r: String)
    ensures
        r@ == lowered(s@),
{
    let mut out = String::new();
    let cs = chars(s);
    let mut i: usize = 0;
    while i < cs.len()
        invariant
            cs@ == s@,
            i <= cs@.len(),
            out@ == lowered(s@).take(i as int),
        decreases cs@.len() - i,
    {
        out.push(lower_char(cs[i]));
        proof {
            assert(lowered(s@).take(i + 1) =~= lowered(s@).take(i as int).push(
                lowered(s@)[i as int],
            ));
        }
        i = i + 1;
    }
    proof {
        assert(lowered(s@).take(i as int) =~= lowered(s@));
    }
    out
}

pub fn to_ascii_uppercase(s: &str) -> (r: String)
    ensures
        r@ == uppered(s@),
{
    let mut out = String::new();
    let cs = chars(s);
    let mut i: usize = 0;
    while i < cs.len()
        invariant
            cs@ == s@,
            i <= cs@.len(),
            out@ == uppered(s@).take(i as int),
        decreases cs@.len() - i,
    {
        out.push(upper_char(cs[i]));
        proof {
            assert(uppered(s@).take(i + 1) =~= uppered(s@).take(i as int).push(
                uppered(s@)[i as int],
            ));
        }
        i = i + 1;
    }
    proof {
        assert(uppered(s@).take(i as int) =~= uppered(s@));
    }
    out
}

// ---------------------------------------------------------------------------
// Comparing
// ---------------------------------------------------------------------------

pub fn same(a: &str, b: &str) -> (r: bool)
    ensures
        r == (a@ == b@),
{
    let x = chars(a);
    let y = chars(b);
    if x.len() != y.len() {
        return false;
    }
    let mut i: usize = 0;
    while i < x.len()
        invariant
            x@ == a@,
            y@ == b@,
            x@.len() == y@.len(),
            i <= x@.len(),
            forall|j: int| 0 <= j < i ==> x@[j] == y@[j],
        decreases x@.len() - i,
    {
        if x[i] != y[i] {
            return false;
        }
        i = i + 1;
    }
    proof {
        assert(a@ =~= b@);
    }
    true
}

/// Equal but for the case of ASCII letters.
pub fn same_ignoring_case(a: &str, b: &str) -> (r: bool)
    ensures
        r == (lowered(a@) == lowered(b@)),
{
    let x = to_ascii_lowercase(a);
    let y = to_ascii_lowercase(b);
    same(x.as_str(), y.as_str())
}

/// `a` comes before `b` in dictionary order of code points.
pub open spec fn precedes(a: Seq<char>, b: Seq<char>) -> bool
    decreases a.len(),
{
    if b.len() == 0 {
        false
    } else if a.len() == 0 {
        true
    } else if a[0] != b[0] {
        a[0] < b[0]
    } else {
        precedes(a.skip(1), b.skip(1))
    }
}

/// Dictionary order is strict and total.
pub proof fn lemma_precedes(a: Seq<char>, b: Seq<char>)
    ensures
        !precedes(a, a),
        precedes(a, b) ==> !precedes(b, a) && a != b,
        precedes(a, b) || precedes(b, a) || a == b,
    decreases a.len(),
{
    if a.len() > 0 {
        lemma_precedes(a.skip(1), b.skip(1));
        if b.len() > 0 && a[0] == b[0] && a.skip(1) == b.skip(1) {
            assert forall|i: int| 0 <= i < a.len() implies a.len() == b.len() && #[trigger] a[i]
                == b[i] by {
                if i > 0 {
                    assert(a.skip(1)[i - 1] == b.skip(1)[i - 1]);
                }
            }
            assert(a =~= b);
        }
    } else if b.len() == 0 {
        assert(a =~= b);
    }
}

pub proof fn lemma_precedes_on(a: Seq<char>, b: Seq<char>, c: Seq<char>)
    requires
        precedes(a, b),
        precedes(b, c),
    ensures
        precedes(a, c),
    decreases a.len(),
{
    if a.len() > 0 && a[0] == b[0] && b[0] == c[0] {
        lemma_precedes_on(a.skip(1), b.skip(1), c.skip(1));
    }
}

pub fn before(a: &str, b: &str) -> (r: bool)
    ensures
        r == precedes(a@, b@),
{
    let x = chars(a);
    let y = chars(b);
    let mut i: usize = 0;
    proof {
        assert(a@.skip(0) =~= a@);
        assert(b@.skip(0) =~= b@);
    }
    while i < x.len() && i < y.len()
        invariant
            x@ == a@,
            y@ == b@,
            i <= x@.len(),
            i <= y@.len(),
            precedes(a@, b@) == precedes(a@.skip(i as int), b@.skip(i as int)),
        decreases x@.len() - i,
    {
        if x[i] != y[i] {
            return x[i] < y[i];
        }
        proof {
            assert(a@.skip(i as int).skip(1) =~= a@.skip(i + 1));
            assert(b@.skip(i as int).skip(1) =~= b@.skip(i + 1));
        }
        i = i + 1;
    }
    i < y.len()
}

pub open spec fn starts(s: Seq<char>, prefix: Seq<char>) -> bool {
    prefix.len() <= s.len() && s.take(prefix.len() as int) == prefix
}

/// `pat` stands in `s` at position `at`.
pub open spec fn stands_at(s: Seq<char>, pat: Seq<char>, at: int) -> bool {
    0 <= at && at + pat.len() <= s.len() && s.subrange(at, at + pat.len()) == pat
}

pub open spec fn has(s: Seq<char>, pat: Seq<char>) -> bool {
    exists|at: int| stands_at(s, pat, at)
}

fn matches_at(x: &Vec<char>, y: &Vec<char>, at: usize) -> (r: bool)
    requires
        at <= x@.len(),
    ensures
        r == stands_at(x@, y@, at as int),
{
    if y.len() > x.len() - at {
        return false;
    }
    let mut i: usize = 0;
    while i < y.len()
        invariant
            i <= y@.len(),
            at + y@.len() <= x@.len(),
            forall|j: int| 0 <= j < i ==> #[trigger] y@[j] == x@[at + j],
        decreases y@.len() - i,
    {
        proof {
            assert(at + y@.len() <= x.len());
        }
        if x[at + i] != y[i] {
            proof {
                assert(x@.subrange(at as int, at + y@.len())[i as int] == x@[at + i]);
            }
            return false;
        }
        i = i + 1;
    }
    proof {
        assert(x@.subrange(at as int, at + y@.len()) =~= y@);
    }
    true
}

pub fn starts_with(s: &str, prefix: &str) -> (r: bool)
    ensures
        r == starts(s@, prefix@),
{
    let x = chars(s);
    let y = chars(prefix);
    proof {
        if prefix@.len() <= s@.len() {
            assert(s@.subrange(0, prefix@.len() as int) =~= s@.take(prefix@.len() as int));
        }
    }
    matches_at(&x, &y, 0)
}

pub fn contains(s: &str, pat: &str) -> (r: bool)
    ensures
        r == has(s@, pat@),
{
    let x = chars(s);
    let y = chars(pat);
    let mut at: usize = 0;
    loop
        invariant
            x@ == s@,
            y@ == pat@,
            at <= x@.len(),
            forall|j: int| 0 <= j < at ==> !stands_at(s@, pat@, j),
        decreases x@.len() - at,
    {
        if matches_at(&x, &y, at) {
            return true;
        }
        if at == x.len() {
            return false;
        }
        at = at + 1;
    }
}

// ---------------------------------------------------------------------------
// Cutting
// ---------------------------------------------------------------------------

/// `s` without the characters at its front that `f` picks.
pub open spec fn without_front(s: Seq<char>, f: spec_fn(char) -> bool) -> Seq<char>
    decreases s.len(),
{
    if s.len() > 0 && f(s[0]) {
        without_front(s.skip(1), f)
    } else {
        s
    }
}

/// `s` without the characters at its back that `f` picks.
pub open spec fn without_back(s: Seq<char>, f: spec_fn(char) -> bool) -> Seq<char>
    decreases s.len(),
{
    if s.len() > 0 && f(s.last()) {
        without_back(s.drop_last(), f)
    } else {
        s
    }
}

/// `s` without white space at either end.
pub open spec fn trimmed(s: Seq<char>) -> Seq<char> {
    without_back(without_front(s, |c: char| is_space(c)), |c: char| is_space(c))
}

/// Which characters to cut: white space, or one given character.
fn cut(c: char, only: Option<char>) -> (r: bool)
    ensures
        r == match only {
            Some(o) => c == o,
            None => is_space(c),
        },
{
    match only {
        Some(o) => c == o,
        None => is_whitespace(c),
    }
}

pub open spec fn picks(only: Option<char>) -> spec_fn(char) -> bool {
    match only {
        Some(o) => |c: char| c == o,
        None => |c: char| is_space(c),
    }
}

fn cut_front<'a>(s: &'a str, only: Option<char>) -> (r: &'a str)
    ensures
        r@ == without_front(s@, picks(only)),
{
    let cs = chars(s);
    let mut i: usize = 0;
    proof {
        assert(s@.skip(0) =~= s@);
    }
    while i < cs.len() && cut(cs[i], only)
        invariant
            cs@ == s@,
            i <= cs@.len(),
            without_front(s@, picks(only)) == without_front(s@.skip(i as int), picks(only)),
        decreases cs@.len() - i,
    {
        proof {
            assert(s@.skip(i as int).skip(1) =~= s@.skip(i + 1));
        }
        i = i + 1;
    }
    proof {
        assert(s@.subrange(i as int, s@.len() as int) =~= s@.skip(i as int));
    }
    s.substring_char(i, cs.len())
}

fn cut_back<'a>(s: &'a str, only: Option<char>) -> (r: &'a str)
    ensures
        r@ == without_back(s@, picks(only)),
{
    let cs = chars(s);
    let mut n: usize = cs.len();
    proof {
        assert(s@.take(n as int) =~= s@);
    }
    while n > 0 && cut(cs[n - 1], only)
        invariant
            cs@ == s@,
            n <= cs@.len(),
            without_back(s@, picks(only)) == without_back(s@.take(n as int), picks(only)),
        decreases n,
    {
        proof {
            assert(s@.take(n as int).drop_last() =~= s@.take(n - 1));
        }
        n = n - 1;
    }
    proof {
        assert(s@.subrange(0, n as int) =~= s@.take(n as int));
    }
    s.substring_char(0, n)
}

/// `s` without white space at either end.
pub fn trim<'a>(s: &'a str) -> (r: &'a str)
    ensures
        r@ == trimmed(s@),
{
    cut_back(cut_front(s, None), None)
}

/// `s` without any `c` at its end.
pub fn trim_end_char<'a>(s: &'a str, c: char) -> (r: &'a str)
    ensures
        r@ == without_back(s@, |x: char| x == c),
{
    cut_back(s, Some(c))
}

/// `s` without any `c` at its front.
pub fn trim_start_char<'a>(s: &'a str, c: char) -> (r: &'a str)
    ensures
        r@ == without_front(s@, |x: char| x == c),
{
    cut_front(s, Some(c))
}

/// What follows `prefix` in `s`, when `s` starts with it.
pub fn strip_prefix<'a>(s: &'a str, prefix: &str) -> (r: Option<&'a str>)
    ensures
        match r {
            Some(t) => starts(s@, prefix@) && t@ == s@.skip(prefix@.len() as int),
            None => !starts(s@, prefix@),
        },
{
    if starts_with(s, prefix) {
        let n: usize = s.unicode_len();
        let k: usize = prefix.unicode_len();
        proof {
            assert(s@.subrange(k as int, n as int) =~= s@.skip(k as int));
        }
        Some(s.substring_char(k, n))
    } else {
        None
    }
}

/// `s` without any repeats of `prefix` at its front.
pub open spec fn without_prefixes(s: Seq<char>, prefix: Seq<char>) -> Seq<char>
    decreases s.len(),
{
    if prefix.len() > 0 && starts(s, prefix) {
        without_prefixes(s.skip(prefix.len() as int), prefix)
    } else {
        s
    }
}

pub fn trim_prefixes<'a>(s: &'a str, prefix: &str) -> (r: &'a str)
    requires
        prefix@.len() > 0,
    ensures
        r@ == without_prefixes(s@, prefix@),
{
    let mut rest: &'a str = s;
    loop
        invariant
            prefix@.len() > 0,
            without_prefixes(rest@, prefix@) == without_prefixes(s@, prefix@),
        decreases rest@.len(),
    {
        match strip_prefix(rest, prefix) {
            Some(t) => {
                rest = t;
            },
            None => return rest,
        }
    }
}

/// The pieces of `s` between the occurrences of `sep`: always at least one.
pub open spec fn pieces(s: Seq<char>, sep: char) -> Seq<Seq<char>>
    decreases s.len(),
{
    if s.len() == 0 {
        seq![Seq::empty()]
    } else {
        let before = pieces(s.drop_last(), sep);
        if s.last() == sep {
            before.push(Seq::empty())
        } else {
            before.drop_last().push(before.last().push(s.last()))
        }
    }
}

/// The views of a list of strings.
pub open spec fn views(v: Seq<String>) -> Seq<Seq<char>> {
    Seq::new(v.len(), |i: int| v[i]@)
}

pub broadcast proof fn lemma_views_push(v: Seq<String>, s: String)
    ensures
        #[trigger] views(v.push(s)) == views(v).push(s@),
{
    assert(views(v.push(s)) =~= views(v).push(s@));
}

pub proof fn lemma_pieces_nonempty(s: Seq<char>, sep: char)
    ensures
        pieces(s, sep).len() > 0,
    decreases s.len(),
{
    if s.len() > 0 {
        lemma_pieces_nonempty(s.drop_last(), sep);
    }
}

pub fn split(s: &str, sep: char) -> (r: Vec<String>)
    ensures
        views(r@) == pieces(s@, sep),
        r@.len() > 0,
{
    let cs = chars(s);
    let mut out: Vec<String> = Vec::new();
    let mut piece = String::new();
    let mut i: usize = 0;
    proof {
        assert(s@.take(0) =~= Seq::empty());
        assert(views(out@).push(piece@) =~= pieces(s@.take(0), sep));
    }
    while i < cs.len()
        invariant
            cs@ == s@,
            i <= cs@.len(),
            views(out@).push(piece@) == pieces(s@.take(i as int), sep),
        decreases cs@.len() - i,
    {
        let c: char = cs[i];
        let ghost so_far = pieces(s@.take(i as int), sep);
        proof {
            assert(s@.take(i + 1).drop_last() =~= s@.take(i as int));
            assert(so_far.drop_last() =~= views(out@));
            assert(so_far.last() == piece@);
        }
        if c == sep {
            let ghost done = out@;
            let ghost last = piece@;
            out.push(piece);
            piece = String::new();
            proof {
                assert(views(out@) =~= views(done).push(last));
            }
        } else {
            piece.push(c);
        }
        i = i + 1;
    }
    let ghost done = out@;
    let ghost last = piece@;
    out.push(piece);
    proof {
        assert(views(out@) =~= views(done).push(last));
        assert(s@.take(i as int) =~= s@);
    }
    out
}

/// The text of an optional string.
pub open spec fn seen(v: Option<String>) -> Option<Seq<char>> {
    match v {
        Some(s) => Some(s@),
        None => None,
    }
}

/// What is left of `ps` when each piece is trimmed and the empty ones go.
pub open spec fn entries_of(ps: Seq<Seq<char>>) -> Seq<Seq<char>>
    decreases ps.len(),
{
    if ps.len() == 0 {
        Seq::empty()
    } else {
        let before = entries_of(ps.drop_last());
        let t = trimmed(ps.last());
        if t.len() == 0 {
            before
        } else {
            before.push(t)
        }
    }
}

/// The entries of a list written with `sep` between them.
pub fn entries(s: &str, sep: char) -> (r: Vec<String>)
    ensures
        views(r@) == entries_of(pieces(s@, sep)),
{
    broadcast use lemma_views_push;

    let ps = split(s, sep);
    let mut out: Vec<String> = Vec::new();
    let mut i: usize = 0;
    proof {
        assert(views(ps@).take(0) =~= Seq::empty());
        assert(views(out@) =~= Seq::empty());
    }
    while i < ps.len()
        invariant
            i <= ps@.len(),
            views(ps@) == pieces(s@, sep),
            views(out@) == entries_of(views(ps@).take(i as int)),
        decreases ps@.len() - i,
    {
        broadcast use lemma_views_push;

        let t = trim(ps[i].as_str());
        proof {
            let next = views(ps@).take(i + 1);
            assert(next.drop_last() =~= views(ps@).take(i as int));
            assert(next.last() == ps@[i as int]@);
        }
        if t.unicode_len() > 0 {
            out.push(t.to_owned());
        }
        i = i + 1;
    }
    proof {
        assert(views(ps@).take(i as int) =~= views(ps@));
    }
    out
}

/// The position of the first `sep` in `s`, if there is one.
pub open spec fn first_of(s: Seq<char>, sep: char) -> Option<int>
    decreases s.len(),
{
    if s.len() == 0 {
        None
    } else if s[0] == sep {
        Some(0)
    } else {
        match first_of(s.skip(1), sep) {
            Some(k) => Some(k + 1),
            None => None,
        }
    }
}

pub proof fn lemma_first_of(s: Seq<char>, sep: char)
    ensures
        first_of(s, sep) matches Some(k) ==> 0 <= k < s.len() && s[k] == sep && forall|j: int|
            0 <= j < k ==> s[j] != sep,
        first_of(s, sep) is None ==> forall|j: int| 0 <= j < s.len() ==> s[j] != sep,
    decreases s.len(),
{
    if s.len() > 0 && s[0] != sep {
        lemma_first_of(s.skip(1), sep);
        assert forall|j: int| 1 <= j < s.len() implies s[j] == s.skip(1)[j - 1] by {}
    }
}

/// What stands before and after the first `sep`.
pub fn split_once<'a>(s: &'a str, sep: char) -> (r: Option<(&'a str, &'a str)>)
    ensures
        match (r, first_of(s@, sep)) {
            (Some(p), Some(k)) => 0 <= k < s@.len() && p.0@ == s@.take(k) && p.1@ == s@.skip(k + 1),
            (None, None) => true,
            _ => false,
        },
{
    let cs = chars(s);
    let mut i: usize = 0;
    proof {
        assert(s@.skip(0) =~= s@);
    }
    while i < cs.len()
        invariant
            cs@ == s@,
            i <= cs@.len(),
            match first_of(s@.skip(i as int), sep) {
                Some(k) => first_of(s@, sep) == Some(k + i),
                None => first_of(s@, sep) is None,
            },
        decreases cs@.len() - i,
    {
        if cs[i] == sep {
            proof {
                assert(s@.subrange(0, i as int) =~= s@.take(i as int));
                assert(s@.subrange(i + 1, s@.len() as int) =~= s@.skip(i + 1));
            }
            return Some((s.substring_char(0, i), s.substring_char(i + 1, cs.len())));
        }
        proof {
            assert(s@.skip(i as int).skip(1) =~= s@.skip(i + 1));
        }
        i = i + 1;
    }
    None
}

// ---------------------------------------------------------------------------
// Reading numbers
// ---------------------------------------------------------------------------

/// The value of a digit, if `c` is one in base `radix`.
pub open spec fn digit(c: char, radix: nat) -> Option<nat> {
    let u = c as u32;
    let v: int = if '0' <= c && c <= '9' {
        u - 48
    } else if 'a' <= c && c <= 'z' {
        u - 97 + 10
    } else if 'A' <= c && c <= 'Z' {
        u - 65 + 10
    } else {
        99
    };
    if v < radix {
        Some(v as nat)
    } else {
        None
    }
}

/// The number that a run of digits spells; nothing when any character is not a
/// digit. The empty run spells zero.
pub open spec fn run_value(s: Seq<char>, radix: nat) -> Option<nat>
    decreases s.len(),
{
    if s.len() == 0 {
        Some(0)
    } else {
        match (run_value(s.drop_last(), radix), digit(s.last(), radix)) {
            (Some(v), Some(d)) => Some(v * radix + d),
            _ => None,
        }
    }
}

/// The number that `s` spells: digits, at least one, with an optional plus sign
/// before them, and at most `max`.
pub open spec fn unsigned(s: Seq<char>, radix: nat, max: nat) -> Option<nat> {
    let d = if s.len() > 0 && s[0] == '+' {
        s.skip(1)
    } else {
        s
    };
    match run_value(d, radix) {
        Some(v) if d.len() > 0 && v <= max => Some(v),
        _ => None,
    }
}

/// The number that `s` spells, with an optional sign, from `-max - 1` to `max`.
pub open spec fn signed(s: Seq<char>, max: nat) -> Option<int> {
    if s.len() > 0 && s[0] == '-' {
        let d = s.skip(1);
        match run_value(d, 10) {
            Some(v) if d.len() > 0 && v <= max + 1 => Some(-(v as int)),
            _ => None,
        }
    } else {
        match unsigned(s, 10, max) {
            Some(v) => Some(v as int),
            None => None,
        }
    }
}

proof fn lemma_run_value_prefix(s: Seq<char>, i: int, radix: nat)
    requires
        0 <= i <= s.len(),
        radix >= 1,
        run_value(s, radix) is Some,
    ensures
        run_value(s.take(i), radix) is Some,
        run_value(s.take(i), radix)->0 <= run_value(s, radix)->0,
    decreases s.len() - i,
{
    if i == s.len() {
        assert(s.take(i) =~= s);
    } else {
        lemma_run_value_prefix(s, i + 1, radix);
        assert(s.take(i + 1).drop_last() =~= s.take(i));
        let v = run_value(s.take(i), radix)->0 as int;
        assert(v <= v * radix) by (nonlinear_arith)
            requires
                0 <= v,
                radix >= 1,
        ;
    }
}

fn digit_value(c: char, radix: u64) -> (r: Option<u64>)
    requires
        radix <= 36,
    ensures
        match r {
            Some(d) => digit(c, radix as nat) == Some(d as nat),
            None => digit(c, radix as nat) is None,
        },
{
    let u: u32 = c as u32;
    let v: u64 = if '0' <= c && c <= '9' {
        (u - 48) as u64
    } else if 'a' <= c && c <= 'z' {
        (u - 97 + 10) as u64
    } else if 'A' <= c && c <= 'Z' {
        (u - 65 + 10) as u64
    } else {
        99
    };
    if v < radix {
        Some(v)
    } else {
        None
    }
}

/// The digits of `cs` from `from` on, as a number up to `max`.
fn parse_run(cs: &Vec<char>, from: usize, radix: u64, max: u128) -> (r: Option<u128>)
    requires
        from <= cs@.len(),
        1 <= radix <= 36,
        max <= 0x1_0000_0000_0000_0000,
    ensures
        ({
            let d = cs@.skip(from as int);
            match r {
                Some(v) => d.len() > 0 && run_value(d, radix as nat) == Some(v as nat) && v <= max,
                None => d.len() == 0 || run_value(d, radix as nat) is None || run_value(
                    d,
                    radix as nat,
                )->0 > max,
            }
        }),
{
    let ghost d = cs@.skip(from as int);
    if from == cs.len() {
        return None;
    }
    let mut v: u128 = 0;
    let mut i: usize = from;
    proof {
        assert(d.take(0) =~= Seq::empty());
    }
    while i < cs.len()
        invariant
            from <= i <= cs@.len(),
            d == cs@.skip(from as int),
            1 <= radix <= 36,
            v <= max <= 0x1_0000_0000_0000_0000,
            run_value(d.take(i - from), radix as nat) == Some(v as nat),
        decreases cs@.len() - i,
    {
        proof {
            assert(d.take(i - from + 1).drop_last() =~= d.take(i - from));
            if run_value(d, radix as nat) is Some {
                lemma_run_value_prefix(d, i - from + 1, radix as nat);
            }
        }
        match digit_value(cs[i], radix) {
            None => {
                return None;
            },
            Some(x) => {
                proof {
                    assert(v * radix <= 0x1_0000_0000_0000_0000 * 36) by (nonlinear_arith)
                        requires
                            0 <= v <= 0x1_0000_0000_0000_0000,
                            0 <= radix <= 36,
                    ;
                }
                let next: u128 = v * radix as u128 + x as u128;
                if next > max {
                    return None;
                }
                v = next;
            },
        }
        i = i + 1;
    }
    proof {
        assert(d.take(i - from) =~= d);
    }
    Some(v)
}

/// Reads a number of base `radix` that is at most `max`.
pub fn parse_radix(s: &str, radix: u64, max: u64) -> (r: Option<u64>)
    requires
        1 <= radix <= 36,
    ensures
        match r {
            Some(v) => unsigned(s@, radix as nat, max as nat) == Some(v as nat),
            None => unsigned(s@, radix as nat, max as nat) is None,
        },
{
    let cs = chars(s);
    let from: usize = if cs.len() > 0 && cs[0] == '+' {
        1
    } else {
        0
    };
    proof {
        assert(s@.skip(0) =~= s@);
    }
    match parse_run(&cs, from, radix, max as u128) {
        Some(v) => Some(v as u64),
        None => None,
    }
}

pub fn parse_u64(s: &str) -> (r: Option<u64>)
    ensures
        match r {
            Some(v) => unsigned(s@, 10, u64::MAX as nat) == Some(v as nat),
            None => unsigned(s@, 10, u64::MAX as nat) is None,
        },
{
    parse_radix(s, 10, u64::MAX)
}

pub fn parse_u16(s: &str) -> (r: Option<u16>)
    ensures
        match r {
            Some(v) => unsigned(s@, 10, u16::MAX as nat) == Some(v as nat),
            None => unsigned(s@, 10, u16::MAX as nat) is None,
        },
{
    match parse_radix(s, 10, u16::MAX as u64) {
        Some(v) => Some(v as u16),
        None => None,
    }
}

pub fn parse_u8(s: &str) -> (r: Option<u8>)
    ensures
        match r {
            Some(v) => unsigned(s@, 10, u8::MAX as nat) == Some(v as nat),
            None => unsigned(s@, 10, u8::MAX as nat) is None,
        },
{
    match parse_radix(s, 10, u8::MAX as u64) {
        Some(v) => Some(v as u8),
        None => None,
    }
}

/// Reads a number with an optional sign whose size is at most `max`, or one
/// more below zero.
fn parse_signed(s: &str, max: u64) -> (r: Option<i128>)
    ensures
        match r {
            Some(v) => signed(s@, max as nat) == Some(v as int),
            None => signed(s@, max as nat) is None,
        },
{
    let cs = chars(s);
    if cs.len() > 0 && cs[0] == '-' {
        match parse_run(&cs, 1, 10, max as u128 + 1) {
            Some(v) => Some(-(v as i128)),
            None => None,
        }
    } else {
        match parse_radix(s, 10, max) {
            Some(v) => Some(v as i128),
            None => None,
        }
    }
}

pub fn parse_i64(s: &str) -> (r: Option<i64>)
    ensures
        match r {
            Some(v) => signed(s@, i64::MAX as nat) == Some(v as int),
            None => signed(s@, i64::MAX as nat) is None,
        },
{
    match parse_signed(s, i64::MAX as u64) {
        Some(v) => Some(v as i64),
        None => None,
    }
}

pub fn parse_i32(s: &str) -> (r: Option<i32>)
    ensures
        match r {
            Some(v) => signed(s@, i32::MAX as nat) == Some(v as int),
            None => signed(s@, i32::MAX as nat) is None,
        },
{
    match parse_signed(s, i32::MAX as u64) {
        Some(v) => Some(v as i32),
        None => None,
    }
}

/// Ten to the power `k`.
pub open spec fn ten_to(k: nat) -> nat
    decreases k,
{
    if k == 0 {
        1
    } else {
        ten_to((k - 1) as nat) * 10
    }
}

/// The first `k` digits of `f` as a number, with zeros for those it lacks.
pub open spec fn leading_digits(f: Seq<char>, k: nat) -> nat
    decreases k,
{
    if k == 0 {
        0
    } else {
        leading_digits(f, (k - 1) as nat) * 10 + (if k <= f.len() {
            match digit(f[k - 1], 10) {
                Some(v) => v,
                None => 0,
            }
        } else {
            0
        })
    }
}

/// The unsigned decimal number that `s` spells (digits with an optional point,
/// at least one digit) times ten to the power `k`, rounded down.
pub open spec fn scaled(s: Seq<char>, k: nat) -> Option<nat> {
    let point = match first_of(s, '.') {
        Some(p) => p,
        None => s.len() as int,
    };
    let whole = s.take(point);
    let part = if point < s.len() {
        s.skip(point + 1)
    } else {
        Seq::empty()
    };
    match (run_value(whole, 10), run_value(part, 10)) {
        (Some(w), Some(_)) if whole.len() + part.len() > 0 => Some(
            w * ten_to(k) + leading_digits(part, k),
        ),
        _ => None,
    }
}

pub open spec fn capped(v: nat, cap: nat) -> nat {
    if v <= cap {
        v
    } else {
        cap
    }
}

/// The decimal number that `s` spells, in thousandths, with an optional sign.
/// A size past the largest machine integer is read as that integer.
pub open spec fn milli(s: Seq<char>) -> Option<int> {
    let negative = s.len() > 0 && s[0] == '-';
    let body = if negative || (s.len() > 0 && s[0] == '+') {
        s.skip(1)
    } else {
        s
    };
    match scaled(body, 3) {
        Some(v) => {
            let size = capped(v, i64::MAX as nat) as int;
            Some(
                if negative {
                    -size
                } else {
                    size
                },
            )
        },
        None => None,
    }
}

/// The digits of `cs` in `from..to`, cut off at the largest machine integer.
fn run_capped(cs: &Vec<char>, from: usize, to: usize) -> (r: Option<u64>)
    requires
        from <= to <= cs@.len(),
    ensures
        match (r, run_value(cs@.subrange(from as int, to as int), 10)) {
            (Some(v), Some(n)) => v == capped(n, u64::MAX as nat),
            (None, None) => true,
            _ => false,
        },
{
    let ghost d = cs@.subrange(from as int, to as int);
    let mut v: u64 = 0;
    let mut i: usize = from;
    proof {
        assert(d.take(0) =~= Seq::empty());
    }
    while i < to
        invariant
            from <= i <= to <= cs@.len(),
            d == cs@.subrange(from as int, to as int),
            run_value(d.take(i - from), 10) matches Some(n) && v == capped(n, u64::MAX as nat),
        decreases to - i,
    {
        proof {
            assert(d.take(i - from + 1).drop_last() =~= d.take(i - from));
        }
        match digit_value(cs[i], 10) {
            Some(x) => {
                let next: u128 = v as u128 * 10 + x as u128;
                v = if next <= u64::MAX as u128 {
                    next as u64
                } else {
                    u64::MAX
                };
            },
            None => {
                proof {
                    if run_value(d, 10) is Some {
                        lemma_run_value_prefix(d, i - from + 1, 10);
                    }
                }
                return None;
            },
        }
        i = i + 1;
    }
    proof {
        assert(d.take(i - from) =~= d);
    }
    Some(v)
}

proof fn lemma_leading_digits_bound(f: Seq<char>, k: nat)
    ensures
        leading_digits(f, k) < ten_to(k),
    decreases k,
{
    if k > 0 {
        lemma_leading_digits_bound(f, (k - 1) as nat);
    }
}

/// The number at the front of `cs`, up to `to`, times ten to the power `k`,
/// rounded down and cut off at the largest machine integer.
fn parse_scaled(cs: &Vec<char>, from: usize, to: usize, k: usize) -> (r: Option<u64>)
    requires
        from <= to <= cs@.len(),
        k <= 9,
    ensures
        match (r, scaled(cs@.subrange(from as int, to as int), k as nat)) {
            (Some(v), Some(n)) => v == capped(n, u64::MAX as nat),
            (None, None) => true,
            _ => false,
        },
{
    let ghost s = cs@.subrange(from as int, to as int);
    let mut point: usize = from;
    proof {
        lemma_first_of(s, '.');
    }
    while point < to && cs[point] != '.'
        invariant
            from <= point <= to <= cs@.len(),
            s == cs@.subrange(from as int, to as int),
            forall|j: int| 0 <= j < point - from ==> s[j] != '.',
        decreases to - point,
    {
        proof {
            assert(s[point - from] == cs@[point as int]);
        }
        point = point + 1;
    }
    proof {
        if point < to {
            assert(s[point - from] == '.');
        }
        assert(cs@.subrange(from as int, point as int) =~= s.take(point - from));
    }
    let part_from: usize = if point < to {
        point + 1
    } else {
        to
    };
    let ghost part = cs@.subrange(part_from as int, to as int);
    proof {
        if point < to {
            assert(part =~= s.skip(point - from + 1));
        } else {
            assert(part =~= Seq::empty());
        }
    }
    if point == from && part_from == to {
        return None;
    }
    let whole: u64 = match run_capped(cs, from, point) {
        Some(w) => w,
        None => {
            return None;
        },
    };
    if run_capped(cs, part_from, to).is_none() {
        return None;
    }
    let mut scale: u128 = 1;
    let mut lead: u128 = 0;
    let mut i: usize = 0;
    while i < k
        invariant
            i <= k <= 9,
            part_from <= to <= cs@.len(),
            part == cs@.subrange(part_from as int, to as int),
            scale == ten_to(i as nat),
            lead == leading_digits(part, i as nat),
            i == 0 ==> scale <= 1,
            i == 1 ==> scale <= 10,
            i == 2 ==> scale <= 100,
            i == 3 ==> scale <= 1_000,
            i == 4 ==> scale <= 10_000,
            i == 5 ==> scale <= 100_000,
            i == 6 ==> scale <= 1_000_000,
            i == 7 ==> scale <= 10_000_000,
            i == 8 ==> scale <= 100_000_000,
            i == 9 ==> scale <= 1_000_000_000,
        decreases k - i,
    {
        proof {
            lemma_leading_digits_bound(part, i as nat);
        }
        let d: u64 = if i < to - part_from {
            proof {
                assert(part[i as int] == cs@[part_from + i]);
            }
            match digit_value(cs[part_from + i], 10) {
                Some(v) => v,
                None => 0,
            }
        } else {
            0
        };
        lead = lead * 10 + d as u128;
        scale = scale * 10;
        i = i + 1;
    }
    proof {
        lemma_leading_digits_bound(part, k as nat);
        assert(whole * scale <= u64::MAX * 1_000_000_000) by (nonlinear_arith)
            requires
                0 <= whole <= u64::MAX,
                0 <= scale <= 1_000_000_000,
        ;
        let w = run_value(s.take(point - from), 10)->0 as int;
        assert(scale >= 1) by {
            lemma_ten_to_positive(k as nat);
        }
        if w > u64::MAX {
            assert(w * scale >= u64::MAX && whole * scale >= u64::MAX) by (nonlinear_arith)
                requires
                    w > u64::MAX,
                    whole == u64::MAX,
                    scale >= 1,
            ;
        }
    }
    let v: u128 = whole as u128 * scale + lead;
    if v <= u64::MAX as u128 {
        Some(v as u64)
    } else {
        Some(u64::MAX)
    }
}

proof fn lemma_ten_to_positive(k: nat)
    ensures
        ten_to(k) >= 1,
    decreases k,
{
    if k > 0 {
        lemma_ten_to_positive((k - 1) as nat);
    }
}

/// Reads a decimal number, in thousandths.
pub fn parse_milli(s: &str) -> (r: Option<i64>)
    ensures
        match r {
            Some(v) => milli(s@) == Some(v as int) && v > i64::MIN,
            None => milli(s@) is None,
        },
{
    let cs = chars(s);
    let n: usize = cs.len();
    let negative: bool = n > 0 && cs[0] == '-';
    let from: usize = if negative || (n > 0 && cs[0] == '+') {
        1
    } else {
        0
    };
    proof {
        assert(cs@.subrange(from as int, n as int) =~= s@.skip(from as int));
        assert(s@.skip(0) =~= s@);
    }
    match parse_scaled(&cs, from, n, 3) {
        Some(v) => {
            let size: i64 = if v <= i64::MAX as u64 {
                v as i64
            } else {
                i64::MAX
            };
            if negative {
                Some(-size)
            } else {
                Some(size)
            }
        },
        None => None,
    }
}

/// How much of `s` from the front is digits and points.
pub open spec fn numeric_len(s: Seq<char>) -> int
    decreases s.len(),
{
    if s.len() > 0 && (digit(s[0], 10) is Some || s[0] == '.') {
        1 + numeric_len(s.skip(1))
    } else {
        0
    }
}

/// The decimal number at the front of `s` times ten to the power `k`, rounded
/// down; zero when there is none.
pub open spec fn front_scaled(s: Seq<char>, k: nat) -> nat {
    match scaled(s.take(numeric_len(s)), k) {
        Some(v) => capped(v, u64::MAX as nat),
        None => 0,
    }
}

/// Reads the decimal number at the front of a text.
pub fn parse_front(s: &str, k: usize) -> (r: u64)
    requires
        k <= 9,
    ensures
        r == front_scaled(s@, k as nat),
{
    let cs = chars(s);
    let mut n: usize = 0;
    proof {
        assert(s@.skip(0) =~= s@);
    }
    while n < cs.len() && (digit_value(cs[n], 10).is_some() || cs[n] == '.')
        invariant
            cs@ == s@,
            n <= cs@.len(),
            numeric_len(s@) == n + numeric_len(s@.skip(n as int)),
        decreases cs@.len() - n,
    {
        proof {
            assert(s@.skip(n as int).skip(1) =~= s@.skip(n + 1));
        }
        n = n + 1;
    }
    proof {
        assert(cs@.subrange(0, n as int) =~= s@.take(n as int));
    }
    match parse_scaled(&cs, 0, n, k) {
        Some(v) => v,
        None => 0,
    }
}

/// Seconds in the unit that `c` stands for; none for a letter that is no unit.
pub open spec fn unit_seconds(c: char, weeks: bool) -> nat {
    if c == 'w' && weeks {
        604_800
    } else if c == 'd' {
        86_400
    } else if c == 'h' {
        3_600
    } else if c == 'm' {
        60
    } else if c == 's' {
        1
    } else {
        0
    }
}

/// The number that stands at the end of `s`, waiting for its unit.
pub open spec fn open_number(s: Seq<char>) -> nat
    decreases s.len(),
{
    if s.len() == 0 {
        0
    } else {
        match digit(s.last(), 10) {
            Some(d) => open_number(s.drop_last()) * 10 + d,
            None => 0,
        }
    }
}

/// The seconds that a span such as `3d17h58m3s` adds up to.
pub open spec fn span_seconds(s: Seq<char>, weeks: bool) -> nat
    decreases s.len(),
{
    if s.len() == 0 {
        0
    } else {
        let rest = span_seconds(s.drop_last(), weeks);
        match digit(s.last(), 10) {
            Some(_) => rest,
            None => rest + open_number(s.drop_last()) * unit_seconds(s.last(), weeks),
        }
    }
}

fn seconds_in(c: char, weeks: bool) -> (r: u64)
    ensures
        r == unit_seconds(c, weeks),
        r <= 604_800,
{
    if c == 'w' && weeks {
        604_800
    } else if c == 'd' {
        86_400
    } else if c == 'h' {
        3_600
    } else if c == 'm' {
        60
    } else if c == 's' {
        1
    } else {
        0
    }
}

/// Reads a span such as `3d17h58m3s`. One that no machine integer holds is read
/// as the largest.
pub fn parse_span(s: &str, weeks: bool) -> (r: u64)
    ensures
        r == capped(span_seconds(s@, weeks), u64::MAX as nat),
{
    let cs = chars(s);
    let mut total: u64 = 0;
    let mut num: u64 = 0;
    let mut i: usize = 0;
    proof {
        assert(s@.take(0) =~= Seq::empty());
    }
    while i < cs.len()
        invariant
            cs@ == s@,
            i <= cs@.len(),
            total == capped(span_seconds(s@.take(i as int), weeks), u64::MAX as nat),
            num == capped(open_number(s@.take(i as int)), u64::MAX as nat),
        decreases cs@.len() - i,
    {
        let ghost n = open_number(s@.take(i as int)) as int;
        let ghost t = span_seconds(s@.take(i as int), weeks) as int;
        proof {
            assert(s@.take(i + 1).drop_last() =~= s@.take(i as int));
        }
        match digit_value(cs[i], 10) {
            Some(d) => {
                let next: u128 = num as u128 * 10 + d as u128;
                num = if next <= u64::MAX as u128 {
                    next as u64
                } else {
                    u64::MAX
                };
            },
            None => {
                let unit: u64 = seconds_in(cs[i], weeks);
                proof {
                    assert(num * unit <= u64::MAX * 604_800) by (nonlinear_arith)
                        requires
                            0 <= num <= u64::MAX,
                            0 <= unit <= 604_800,
                    ;
                    if n > u64::MAX && unit > 0 {
                        assert(n * unit >= u64::MAX && num * unit >= u64::MAX) by (nonlinear_arith)
                            requires
                                n > u64::MAX,
                                num == u64::MAX,
                                unit >= 1,
                        ;
                    }
                    assert(unit == 0 ==> n * unit == 0 && num * unit == 0) by (nonlinear_arith);
                    assert(n * unit >= 0) by (nonlinear_arith)
                        requires
                            n >= 0,
                            unit >= 0,
                    ;
                }
                let next: u128 = total as u128 + num as u128 * unit as u128;
                total = if next <= u64::MAX as u128 {
                    next as u64
                } else {
                    u64::MAX
                };
                num = 0;
            },
        }
        i = i + 1;
    }
    proof {
        assert(s@.take(i as int) =~= s@);
    }
    total
}

// ---------------------------------------------------------------------------
// Writing
// ---------------------------------------------------------------------------

/// `n` in decimal, without leading zeros.
pub open spec fn decimal(n: nat) -> Seq<char>
    decreases n,
{
    if n < 10 {
        seq![(48 + n) as char]
    } else {
        decimal(n / 10).push((48 + n % 10) as char)
    }
}

/// `n` in decimal, with a minus sign when it is negative.
pub open spec fn decimal_int(n: int) -> Seq<char> {
    if n < 0 {
        seq!['-'] + decimal((-n) as nat)
    } else {
        decimal(n as nat)
    }
}

/// The hexadecimal digit `d`.
pub open spec fn hex_digit(d: nat, capital: bool) -> char {
    if d < 10 {
        (48 + d) as char
    } else if capital {
        (55 + d) as char
    } else {
        (87 + d) as char
    }
}

/// The low `width` hexadecimal digits of `n`.
pub open spec fn hex(n: nat, width: nat, capital: bool) -> Seq<char>
    decreases width,
{
    if width == 0 {
        Seq::empty()
    } else {
        hex(n / 16, (width - 1) as nat, capital).push(hex_digit(n % 16, capital))
    }
}

pub fn push_decimal(out: &mut String, n: u128)
    ensures
        final(out)@ == old(out)@ + decimal(n as nat),
    decreases n,
{
    let d: u8 = (n % 10) as u8;
    if n >= 10 {
        push_decimal(out, n / 10);
    }
    out.push((48 + d) as char);
}

pub fn push_decimal_int(out: &mut String, n: i64)
    ensures
        final(out)@ == old(out)@ + decimal_int(n as int),
{
    if n < 0 {
        out.push('-');
        let size: u128 = (-(n as i128)) as u128;
        push_decimal(out, size);
    } else {
        push_decimal(out, n as u128);
    }
}

pub fn push_hex(out: &mut String, n: u64, width: u64, capital: bool)
    ensures
        final(out)@ == old(out)@ + hex(n as nat, width as nat, capital),
    decreases width,
{
    if width > 0 {
        push_hex(out, n / 16, width - 1, capital);
        let d: u8 = (n % 16) as u8;
        let c: char = if d < 10 {
            (48 + d) as char
        } else if capital {
            (55 + d) as char
        } else {
            (87 + d) as char
        };
        out.push(c);
    }
}

/// A number of thousandths with `places` decimals, zero or one, rounded to the
/// nearest with ties to even.
pub open spec fn fixed(v: int, places: nat) -> Seq<char> {
    let size = if v < 0 {
        (-v) as nat
    } else {
        v as nat
    };
    let sign = if v < 0 {
        seq!['-']
    } else {
        Seq::empty()
    };
    if places == 0 {
        sign + decimal(crate::round::rounded_quotient(size, 1000))
    } else {
        let tenths = crate::round::rounded_quotient(size, 100);
        sign + decimal(tenths / 10) + seq!['.'] + decimal(tenths % 10)
    }
}

pub fn push_fixed(out: &mut String, v: i64, one_place: bool)
    ensures
        final(out)@ == old(out)@ + fixed(
            v as int,
            if one_place {
                1
            } else {
                0
            },
        ),
{
    let ghost start = out@;
    let size: u128 = if v < 0 {
        (-(v as i128)) as u128
    } else {
        v as u128
    };
    if v < 0 {
        out.push('-');
    }
    let ghost sign = if v < 0 {
        seq!['-']
    } else {
        Seq::empty()
    };
    proof {
        assert(out@ =~= start + sign);
    }
    if one_place {
        let tenths: u128 = crate::round::round_div(size, 100);
        push_decimal(out, tenths / 10);
        out.push('.');
        push_decimal(out, tenths % 10);
        proof {
            assert(out@ =~= start + (sign + decimal((tenths / 10) as nat) + seq!['.'] + decimal(
                (tenths % 10) as nat,
            )));
        }
    } else {
        let whole: u128 = crate::round::round_div(size, 1000);
        push_decimal(out, whole);
        proof {
            assert(out@ =~= start + (sign + decimal(whole as nat)));
        }
    }
}

pub fn to_decimal(n: u128) -> (r: String)
    ensures
        r@ == decimal(n as nat),
{
    let mut out = String::new();
    push_decimal(&mut out, n);
    out
}

/// How `{:?}` writes a string: in double quotes, with escapes.
pub uninterp spec fn quoted(s: Seq<char>) -> Seq<char>;

/// `str`'s `Debug`. The result depends on the string alone; what it is has the
/// name `quoted`.
#[verifier::external_body]
pub(crate) fn quote(s: &str) -> (r: String)
    ensures
        r@ == quoted(s@),
{
    format!("{s:?}")
}

/// The parts with `sep` between them.
pub open spec fn joined(parts: Seq<Seq<char>>, sep: Seq<char>) -> Seq<char>
    decreases parts.len(),
{
    if parts.len() == 0 {
        Seq::empty()
    } else if parts.len() == 1 {
        parts[0]
    } else {
        joined(parts.drop_last(), sep) + sep + parts.last()
    }
}

pub fn join(parts: &Vec<String>, sep: &str) -> (r: String)
    ensures
        r@ == joined(views(parts@), sep@),
{
    let mut out = String::new();
    let mut i: usize = 0;
    proof {
        assert(views(parts@).take(0) =~= Seq::empty());
    }
    while i < parts.len()
        invariant
            i <= parts@.len(),
            out@ == joined(views(parts@).take(i as int), sep@),
        decreases parts@.len() - i,
    {
        proof {
            assert(views(parts@).take(i + 1).drop_last() =~= views(parts@).take(i as int));
        }
        if i > 0 {
            out.append(sep);
        }
        out.append(parts[i].as_str());
        i = i + 1;
    }
    proof {
        assert(views(parts@).take(i as int) =~= views(parts@));
    }
    out
}

/// So many spaces.
pub open spec fn spaces(n: nat) -> Seq<char> {
    Seq::new(n, |i: int| ' ')
}

/// `s` at the right of a column.
pub open spec fn right_of(s: Seq<char>, width: nat) -> Seq<char> {
    if s.len() >= width {
        s
    } else {
        spaces((width - s.len()) as nat) + s
    }
}

/// `s` at the left of a column.
pub open spec fn left_of(s: Seq<char>, width: nat) -> Seq<char> {
    if s.len() >= width {
        s
    } else {
        s + spaces((width - s.len()) as nat)
    }
}

fn push_spaces(out: &mut String, n: usize)
    ensures
        final(out)@ == old(out)@ + spaces(n as nat),
{
    let ghost start = out@;
    let mut i: usize = 0;
    proof {
        assert(start + spaces(0) =~= start);
    }
    while i < n
        invariant
            i <= n,
            out@ == start + spaces(i as nat),
        decreases n - i,
    {
        out.push(' ');
        i = i + 1;
        proof {
            assert(start + spaces(i as nat) =~= (start + spaces((i - 1) as nat)).push(' '));
        }
    }
}

/// Append `s` at the right of a column.
pub fn push_right(out: &mut String, s: &str, width: usize)
    ensures
        final(out)@ == old(out)@ + right_of(s@, width as nat),
{
    let ghost start = out@;
    let len: usize = s.unicode_len();
    if len < width {
        push_spaces(out, width - len);
    }
    out.append(s);
    proof {
        assert(out@ =~= start + right_of(s@, width as nat));
    }
}

/// Append `s` at the left of a column.
pub fn push_left(out: &mut String, s: &str, width: usize)
    ensures
        final(out)@ == old(out)@ + left_of(s@, width as nat),
{
    let ghost start = out@;
    let len: usize = s.unicode_len();
    out.append(s);
    if len < width {
        push_spaces(out, width - len);
    }
    proof {
        assert(out@ =~= start + left_of(s@, width as nat));
    }
}

/// A number of thousandths as a decimal number, with as many decimals as it
/// needs and at least one.
pub open spec fn thousandths(v: int) -> Seq<char> {
    let size = if v < 0 {
        (-v) as nat
    } else {
        v as nat
    };
    let rest = size % 1000;
    (if v < 0 {
        "-"@
    } else {
        ""@
    }) + decimal(size / 1000) + "."@ + (if rest % 100 == 0 {
        decimal(rest / 100)
    } else if rest % 10 == 0 {
        decimal(rest / 100) + decimal(rest / 10 % 10)
    } else {
        decimal(rest / 100) + decimal(rest / 10 % 10) + decimal(rest % 10)
    })
}

pub fn to_thousandths(v: i128) -> (r: String)
    requires
        v > i128::MIN,
    ensures
        r@ == thousandths(v as int),
{
    let size: u128 = if v < 0 {
        (-v) as u128
    } else {
        v as u128
    };
    let rest: u128 = size % 1000;
    let mut t = if v < 0 {
        "-".to_owned()
    } else {
        "".to_owned()
    };
    push_decimal(&mut t, size / 1000);
    t.append(".");
    let mut d = to_decimal(rest / 100);
    if rest % 100 != 0 {
        push_decimal(&mut d, rest / 10 % 10);
        if rest % 10 != 0 {
            push_decimal(&mut d, rest % 10);
        }
    }
    t.append(d.as_str());
    t
}

/// Reading a number that was written gives it back.
pub proof fn law_decimal_reads_back(n: nat)
    ensures
        decimal(n).len() > 0,
        run_value(decimal(n), 10) == Some(n),
        decimal(n)[0] != '+',
        decimal(n)[0] != '-',
        forall|max: nat| n <= max ==> #[trigger] unsigned(decimal(n), 10, max) == Some(n),
    decreases n,
{
    if n < 10 {
        reveal_with_fuel(run_value, 2);
        assert(decimal(n).drop_last() =~= Seq::empty());
    } else {
        law_decimal_reads_back(n / 10);
        assert(decimal(n).drop_last() =~= decimal(n / 10));
    }
}

} // verus!
