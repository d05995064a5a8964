//! Arithmetic that does not round.
//!
//! A calculator is exact where it answers a step with a number only if that number
//! is the step's result; what it would have to round off, it answers with what is
//! not a number. Numbers are read as real ones. What a formula amounts to is said of
//! such a calculator: where its answer is a number, nothing on the way was rounded.
use vstd::prelude::*;

use crate::arith::{
    count, difference, power, product, quotient, root, sum, total, unsigned, Calculation, HALF_BITS, HUNDRED_BITS,
    ONE_BITS, TWO_BITS,
};
use crate::num::Num;

verus! {

/// A real number raised to a power.
pub open spec fn raised(x: real, n: nat) -> real
    decreases n,
{
    if n == 0 {
        1 as real
    } else {
        x * raised(x, (n - 1) as nat)
    }
}

/// A real number without its sign.
pub open spec fn without(x: real) -> real {
    if x < 0 as real {
        -x
    } else {
        x
    }
}

/// Whether `val` reads numbers in their order, the constants as what they are, and a
/// number without its sign as that.
pub open spec fn reads(val: spec_fn(Num) -> real) -> bool {
    &&& forall|a: Num, b: Num| #![trigger val(a), val(b)]
        !a.nan() && !b.nan() ==> (a.key() <= b.key() <==> val(a) <= val(b))
    &&& val(Num { bits: 0 }) == 0 as real
    &&& val(Num { bits: ONE_BITS }) == 1 as real
    &&& val(Num { bits: TWO_BITS }) == 2 as real
    &&& val(Num { bits: HUNDRED_BITS }) == 100 as real
    &&& val(Num { bits: HALF_BITS }) * 2 as real == 1 as real
    &&& forall|a: Num| !a.nan() ==> val(#[trigger] unsigned(a)) == without(val(a))
}

/// Whether a calculator is exact, numbers being read by `val`.
pub open spec fn exact<F: Fn(Calculation) -> Num>(f: F, val: spec_fn(Num) -> real) -> bool {
    &&& reads(val)
    &&& forall|a: Num, b: Num|
        !(#[trigger] sum(f, a, b)).nan() ==> !a.nan() && !b.nan() && val(sum(f, a, b)) == val(a) + val(b)
    &&& forall|a: Num, b: Num|
        !(#[trigger] difference(f, a, b)).nan() ==> !a.nan() && !b.nan() && val(difference(f, a, b)) == val(a) - val(b)
    &&& forall|a: Num, b: Num|
        !(#[trigger] product(f, a, b)).nan() ==> !a.nan() && !b.nan() && val(product(f, a, b)) == val(a) * val(b)
    &&& forall|a: Num, b: Num|
        !(#[trigger] quotient(f, a, b)).nan() ==> !a.nan() && !b.nan() && val(b) != 0 as real && val(quotient(f, a, b))
            == val(a) / val(b)
    &&& forall|a: Num|
        !(#[trigger] root(f, a)).nan() ==> !a.nan() && val(root(f, a)) >= 0 as real && val(root(f, a)) * val(root(f, a))
            == val(a)
    &&& forall|a: Num, b: Num, n: nat|
        #![trigger power(f, a, b), raised(val(a), n)]
        !power(f, a, b).nan() ==> !a.nan() && !b.nan() && (val(b) == n as real ==> val(power(f, a, b)) == raised(
            val(a),
            n,
        ))
    &&& forall|n: int| 0 <= n <= u128::MAX && !(#[trigger] count(f, n)).nan() ==> val(count(f, n)) == n as real
}

/// The sum of numbers as they are read.
pub open spec fn real_total(val: spec_fn(Num) -> real, s: Seq<Num>) -> real
    decreases s.len(),
{
    if s.len() == 0 {
        0 as real
    } else {
        real_total(val, s.drop_last()) + val(s.last())
    }
}

/// The sum of what `h` makes of each entry.
pub open spec fn sum_over<A>(s: Seq<A>, h: spec_fn(A) -> real) -> real
    decreases s.len(),
{
    if s.len() == 0 {
        0 as real
    } else {
        sum_over(s.drop_last(), h) + h(s.last())
    }
}

/// What is added up without rounding is the sum, and every summand is a number.
pub proof fn sums_are_exact<F: Fn(Calculation) -> Num>(f: F, val: spec_fn(Num) -> real, s: Seq<Num>)
    requires
        exact(f, val),
        !total(f, s).nan(),
    ensures
        val(total(f, s)) == real_total(val, s),
        forall|i: int| 0 <= i < s.len() ==> !(#[trigger] s[i]).nan(),
    decreases s.len(),
{
    if s.len() > 0 {
        assert(!sum(f, total(f, s.drop_last()), s.last()).nan());
        sums_are_exact(f, val, s.drop_last());
        assert forall|i: int| 0 <= i < s.len() implies !(#[trigger] s[i]).nan() by {
            if i < s.len() - 1 {
                assert(!s.drop_last()[i].nan());
            }
        }
    }
}

} // verus!
