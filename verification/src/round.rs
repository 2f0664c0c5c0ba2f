//! Rounding quotients.

use vstd::prelude::*;

verus! {

/// `a / b` rounded to the nearest integer, ties to even.
pub open spec fn rounded_quotient(a: nat, b: nat) -> nat {
    let q = a / b;
    let twice = 2 * (a % b);
    if twice > b || (twice == b && q % 2 == 1) {
        q + 1
    } else {
        q
    }
}

/// `a / b` rounded to the nearest integer, ties to even.
pub fn round_div(a: u128, b: u128) -> (r: u128)
    requires
        0 < b <= 0x7FFF_FFFF_FFFF_FFFF_FFFF_FFFF_FFFF_FFFF,
        a < u128::MAX,
    ensures
        r == rounded_quotient(a as nat, b as nat),
{
    let q: u128 = a / b;
    let twice: u128 = 2 * (a % b);
    proof {
        assert(a as nat / b as nat <= a as nat) by (nonlinear_arith)
            requires
                b > 0,
        ;
    }
    if twice > b || (twice == b && q % 2 == 1) {
        q + 1
    } else {
        q
    }
}

/// A rounded quotient is the whole number nearest to the quotient; where two are
/// equally near it is the even one.
pub proof fn law_rounding_is_to_the_nearest(a: nat, b: nat)
    requires
        b > 0,
    ensures
        ({
            let r = rounded_quotient(a, b);
            &&& -(b as int) <= 2 * (a - r * b) <= b
            &&& 2 * (a - r * b) == b || 2 * (a - r * b) == -(b as int) ==> r % 2 == 0
        }),
{
    let q = a as int / b as int;
    vstd::arithmetic::div_mod::lemma_fundamental_div_mod(a as int, b as int);
    vstd::arithmetic::div_mod::lemma_mod_bound(a as int, b as int);
    assert(b * q == q * b) by (nonlinear_arith);
    assert((q + 1) * b == q * b + b) by (nonlinear_arith);
}

} // verus!
