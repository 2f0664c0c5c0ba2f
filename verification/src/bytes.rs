//! Big-endian integers inside byte buffers.

use vstd::prelude::*;

verus! {

/// The number that `s` spells in base 256, most significant byte first.
pub open spec fn be_value(s: Seq<u8>) -> nat
    decreases s.len(),
{
    if s.len() == 0 {
        0
    } else {
        be_value(s.drop_last()) * 256 + s.last() as nat
    }
}

/// The low `width` base-256 digits of `v`, most significant first.
pub open spec fn be_bytes(v: nat, width: nat) -> Seq<u8>
    decreases width,
{
    if width == 0 {
        Seq::empty()
    } else {
        be_bytes(v / 256, (width - 1) as nat).push((v % 256) as u8)
    }
}

/// 256 to the power `n`: one more than the largest value of `n` bytes.
pub open spec fn be_bound(n: nat) -> nat
    decreases n,
{
    if n == 0 {
        1
    } else {
        be_bound((n - 1) as nat) * 256
    }
}

/// `s` with the bytes from `at` on replaced by `part`.
pub open spec fn patched(s: Seq<u8>, at: int, part: Seq<u8>) -> Seq<u8> {
    Seq::new(
        s.len(),
        |i: int|
            if at <= i < at + part.len() {
                part[i - at]
            } else {
                s[i]
            },
    )
}

/// The number in the `width` bytes at `at`.
pub open spec fn field(s: Seq<u8>, at: int, width: int) -> nat {
    be_value(s.subrange(at, at + width))
}

/// A patch is what its own range then holds.
pub broadcast proof fn lemma_patched_own(s: Seq<u8>, at: int, part: Seq<u8>, end: int)
    requires
        0 <= at,
        end == at + part.len(),
        end <= s.len(),
    ensures
        #[trigger] patched(s, at, part).subrange(at, end) == part,
{
    assert(patched(s, at, part).subrange(at, end) =~= part);
}

/// A patch leaves every range that it does not touch.
pub broadcast proof fn lemma_patched_apart(s: Seq<u8>, at: int, part: Seq<u8>, lo: int, hi: int)
    requires
        0 <= lo <= hi <= s.len(),
        hi <= at || at + part.len() <= lo,
    ensures
        #[trigger] patched(s, at, part).subrange(lo, hi) == s.subrange(lo, hi),
{
    assert(patched(s, at, part).subrange(lo, hi) =~= s.subrange(lo, hi));
}

/// Reading a field where a number that fits was written gives that number.
pub broadcast proof fn lemma_field_own(s: Seq<u8>, at: int, v: nat, width: int)
    requires
        0 <= at,
        0 <= width,
        at + width <= s.len(),
        v < be_bound(width as nat),
    ensures
        #[trigger] field(patched(s, at, be_bytes(v, width as nat)), at, width) == v,
{
    lemma_be_round_trip(v, width as nat);
    lemma_patched_own(s, at, be_bytes(v, width as nat), at + width);
}

/// Reading a field elsewhere gives what was there.
pub broadcast proof fn lemma_field_apart(s: Seq<u8>, at: int, v: nat, width: nat, lo: int, w: int)
    requires
        0 <= lo,
        0 <= w,
        lo + w <= s.len(),
        lo + w <= at || at + width <= lo,
    ensures
        #[trigger] field(patched(s, at, be_bytes(v, width)), lo, w) == field(s, lo, w),
{
    lemma_be_bytes_len(v, width);
    lemma_patched_apart(s, at, be_bytes(v, width), lo, lo + w);
}

pub proof fn lemma_be_bytes_len(v: nat, width: nat)
    ensures
        be_bytes(v, width).len() == width,
    decreases width,
{
    if width > 0 {
        lemma_be_bytes_len(v / 256, (width - 1) as nat);
    }
}

pub broadcast proof fn lemma_be_bytes_width(v: nat, width: nat)
    ensures
        #[trigger] be_bytes(v, width).len() == width,
{
    lemma_be_bytes_len(v, width);
}

/// The four digits of a number, each by itself.
pub proof fn lemma_four_bytes(v: nat)
    ensures
        be_bytes(v, 4) == seq![
            (v / 256 / 256 / 256 % 256) as u8,
            (v / 256 / 256 % 256) as u8,
            (v / 256 % 256) as u8,
            (v % 256) as u8,
        ],
{
    let none = Seq::<u8>::empty();
    let one = none.push((v / 256 / 256 / 256 % 256) as u8);
    let two = one.push((v / 256 / 256 % 256) as u8);
    let three = two.push((v / 256 % 256) as u8);
    assert(be_bytes(v / 256 / 256 / 256 / 256, 0) == none);
    assert(be_bytes(v / 256 / 256 / 256, 1) == one);
    assert(be_bytes(v / 256 / 256, 2) == two);
    assert(be_bytes(v / 256, 3) == three);
    assert(be_bytes(v, 4) == three.push((v % 256) as u8));
}

/// A field is bounded by its width.
pub proof fn lemma_field_bounds(s: Seq<u8>)
    ensures
        forall|at: int, w: int|
            0 <= at && 0 <= w && at + w <= s.len() ==> #[trigger] field(s, at, w) < be_bound(
                w as nat,
            ),
{
    assert forall|at: int, w: int|
        0 <= at && 0 <= w && at + w <= s.len() implies #[trigger] field(s, at, w) < be_bound(
        w as nat,
    ) by {
        lemma_be_round_trip_bytes(s.subrange(at, at + w));
    }
}

/// A field of one byte is that byte.
pub proof fn lemma_field_byte(s: Seq<u8>, at: int)
    requires
        0 <= at < s.len(),
    ensures
        field(s, at, 1) == s[at],
{
    reveal_with_fuel(be_value, 2);
}

/// Reading back what was written gives the value, as long as it fits.
pub proof fn lemma_be_round_trip(v: nat, width: nat)
    requires
        v < be_bound(width),
    ensures
        be_bytes(v, width).len() == width,
        be_value(be_bytes(v, width)) == v,
    decreases width,
{
    lemma_be_bytes_len(v, width);
    if width > 0 {
        let rest = be_bytes(v / 256, (width - 1) as nat);
        lemma_be_round_trip(v / 256, (width - 1) as nat);
        assert(be_bytes(v, width).drop_last() =~= rest);
    }
}

/// Writing back what was read gives the bytes.
pub proof fn lemma_be_round_trip_bytes(s: Seq<u8>)
    ensures
        be_value(s) < be_bound(s.len()),
        be_bytes(be_value(s), s.len()) == s,
    decreases s.len(),
{
    if s.len() > 0 {
        lemma_be_round_trip_bytes(s.drop_last());
        let n = be_value(s);
        assert(n / 256 == be_value(s.drop_last()));
        assert(n % 256 == s.last() as nat);
        assert(be_bytes(n, s.len()) =~= s);
    } else {
        assert(be_bytes(0, 0) =~= s);
    }
}

pub proof fn lemma_be_bounds()
    ensures
        be_bound(1) == 0x100,
        be_bound(2) == 0x1_0000,
        be_bound(3) == 0x100_0000,
        be_bound(4) == 0x1_0000_0000,
        be_bound(8) == 0x1_0000_0000_0000_0000,
{
    reveal_with_fuel(be_bound, 9);
}

/// Writes the low `width` bytes of `v` at `at`, most significant first.
pub fn put_be(buf: &mut [u8], at: usize, width: usize, v: u64)
    requires
        at + width <= old(buf)@.len(),
    ensures
        final(buf)@ == patched(old(buf)@, at as int, be_bytes(v as nat, width as nat)),
    decreases width,
{
    proof {
        lemma_be_bytes_len(v as nat, width as nat);
    }
    if width > 0 {
        put_be(buf, at, width - 1, v / 256);
        proof {
            assert(at + width <= buf.len());
            lemma_be_bytes_len((v / 256) as nat, (width - 1) as nat);
        }
        buf[at + width - 1] = (v % 256) as u8;
    }
}

/// Reads the `width` bytes at `at` as a number, most significant first.
pub fn get_be(buf: &[u8], at: usize, width: usize) -> (r: u64)
    requires
        at + width <= buf@.len(),
        width <= 8,
    ensures
        r == field(buf@, at as int, width as int),
{
    let mut value: u64 = 0;
    let mut i: usize = 0;
    proof {
        assert(buf@.subrange(at as int, at as int) =~= Seq::empty());
    }
    while i < width
        invariant
            i <= width <= 8,
            at + width <= buf@.len(),
            value == be_value(buf@.subrange(at as int, at + i)),
            value < be_bound(i as nat),
        decreases width - i,
    {
        proof {
            assert(at + width <= buf.len());
            let next = buf@.subrange(at as int, at + i + 1);
            assert(next.drop_last() =~= buf@.subrange(at as int, at + i));
            reveal_with_fuel(be_bound, 9);
        }
        value = value * 256 + buf[at + i] as u64;
        i = i + 1;
    }
    value
}

} // verus!
