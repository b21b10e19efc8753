//! Integer arithmetic on amounts: division rounds towards zero, and every result either is the
//! exact mathematical one or is reported as not fitting.
use vstd::prelude::*;
use crate::types::BPS_DENOMINATOR;

verus! {

/// True for the integers that an `i128` can hold.
pub open spec fn in_i128(x: int) -> bool {
    i128::MIN <= x <= i128::MAX
}

/// The quotient `n / d` without its fraction, for `d` other than zero.
pub open spec fn trunc_div(n: int, d: int) -> int {
    if d > 0 {
        if n >= 0 {
            n / d
        } else {
            -((-n) / d)
        }
    } else {
        if n >= 0 {
            -(n / (-d))
        } else {
            (-n) / (-d)
        }
    }
}

/// `a * b / d`, without its fraction.
pub open spec fn mul_div(a: int, b: int, d: int) -> int {
    trunc_div(a * b, d)
}

/// True if `a * b / d` can be worked out on `i128` numbers.
pub open spec fn mul_div_fits(a: int, b: int, d: int) -> bool {
    &&& in_i128(a * b)
    &&& d != 0
    &&& in_i128(mul_div(a, b, d))
}

/// `bps` basis points of `amount`.
pub open spec fn bps_of(amount: int, bps: int) -> int {
    mul_div(amount, bps, BPS_DENOMINATOR as int)
}

/// True if `bps` basis points of `amount` can be worked out on `i128` numbers.
pub open spec fn bps_of_fits(amount: int, bps: int) -> bool {
    mul_div_fits(amount, bps, BPS_DENOMINATOR as int)
}

/// Works out `n / d` without its fraction; `None` if there is no such `i128`.
pub fn checked_trunc_div(n: i128, d: i128) -> (r: Option<i128>)
    ensures
        r is Some <==> d != 0 && in_i128(trunc_div(n as int, d as int)),
        r matches Some(x) ==> x == trunc_div(n as int, d as int),
{
    proof {
        if d != 0 && n == 0 {
            vstd::arithmetic::div_mod::lemma_div_of0(d as int);
            vstd::arithmetic::div_mod::lemma_div_of0(-(d as int));
        }
    }
    n.checked_div(d)
}

/// Works out `a * b / d`; `None` if a step of it does not fit.
pub fn checked_mul_div(a: i128, b: i128, d: i128) -> (r: Option<i128>)
    ensures
        r is Some <==> mul_div_fits(a as int, b as int, d as int),
        r matches Some(x) ==> x == mul_div(a as int, b as int, d as int),
{
    match a.checked_mul(b) {
        None => None,
        Some(p) => checked_trunc_div(p, d),
    }
}

/// Works out `bps` basis points of `amount`; `None` if a step of it does not fit.
pub fn checked_bps_of(amount: i128, bps: i128) -> (r: Option<i128>)
    ensures
        r is Some <==> bps_of_fits(amount as int, bps as int),
        r matches Some(x) ==> x == bps_of(amount as int, bps as int),
{
    checked_mul_div(amount, bps, BPS_DENOMINATOR)
}

/// The sum of a sequence.
pub open spec fn sum(s: Seq<int>) -> int
    decreases s.len(),
{
    if s.len() == 0 {
        0
    } else {
        sum(s.drop_last()) + s.last()
    }
}

/// True if a running total over `s`, from its start, stays within `i128`.
pub open spec fn sums_fit(s: Seq<int>) -> bool {
    forall|k: int| 0 <= k <= s.len() ==> in_i128(#[trigger] sum(s.take(k)))
}

/// A running total grows by the next item.
pub proof fn lemma_sum_step(s: Seq<int>, k: int)
    requires
        0 <= k < s.len(),
    ensures
        sum(s.take(k + 1)) == sum(s.take(k)) + s[k],
{
    assert(s.take(k + 1).drop_last() =~= s.take(k));
}

/// The running total over all of `s` is its sum.
pub proof fn lemma_sum_all(s: Seq<int>)
    ensures
        sum(s.take(s.len() as int)) == sum(s),
        sums_fit(s) ==> in_i128(sum(s)),
{
    assert(s.take(s.len() as int) =~= s);
}

} // verus!
