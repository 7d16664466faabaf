//! Division of integers with a stated direction of rounding.

use vstd::prelude::*;

verus! {

/// The quotient of `n` by `d`, rounded down; `d` is not zero.
pub open spec fn floor_div(n: int, d: int) -> int {
    if d > 0 {
        n / d
    } else {
        (-n) / (-d)
    }
}

/// The quotient of `n` by a positive `d`, rounded toward zero.
pub open spec fn trunc_div(n: int, d: int) -> int {
    if n >= 0 {
        n / d
    } else {
        -((-n) / d)
    }
}

/// The quotient of a magnitude by a positive divisor is the magnitude of
/// the quotient rounded toward zero.
pub proof fn lemma_trunc_div_sign(n: int, d: int)
    requires
        d > 0,
    ensures
        n >= 0 ==> trunc_div(n, d) == n / d && n / d >= 0,
        n < 0 ==> trunc_div(n, d) == -((-n) / d) && (-n) / d >= 0,
{
    if n >= 0 {
        vstd::arithmetic::div_mod::lemma_div_pos_is_pos(n, d);
    } else {
        vstd::arithmetic::div_mod::lemma_div_pos_is_pos(-n, d);
    }
}

/// Rounding down a negative quotient: the magnitude is rounded up.
pub proof fn lemma_floor_div_negative(n: int, d: int)
    requires
        n < 0,
        d > 0,
    ensures
        n / d == -((-n + d - 1) / d),
        (-n + d - 1) / d >= 0,
{
    let m = -n;
    let q = (m + d - 1) / d;
    vstd::arithmetic::div_mod::lemma_fundamental_div_mod(m + d - 1, d);
    vstd::arithmetic::div_mod::lemma_div_pos_is_pos(m + d - 1, d);
    let r = (m + d - 1) % d;
    assert(m + d - 1 == d * q + r);
    let r2 = d - 1 - r;
    assert(n == (-q) * d + r2) by (nonlinear_arith)
        requires
            m + d - 1 == d * q + r,
            n == -m,
            r2 == d - 1 - r,
    ;
    vstd::arithmetic::div_mod::lemma_fundamental_div_mod_converse(n, d, -q, r2);
}

} // verus!
