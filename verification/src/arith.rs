//! Arithmetic that the caller supplies.
//!
//! Formulas over prices, profits and weights are written here in terms of a
//! calculator: a function that the caller gives, which does the floating-point
//! steps. What is stated of a formula is which steps it takes, on which numbers
//! and in which order.
use vstd::prelude::*;

use crate::num::{Num, SIGN_BIT};

verus! {

/// 0.5
pub const HALF_BITS: u64 = 0x3FE0_0000_0000_0000;

/// 1.0
pub const ONE_BITS: u64 = 0x3FF0_0000_0000_0000;

/// 2.0
pub const TWO_BITS: u64 = 0x4000_0000_0000_0000;

/// 100.0
pub const HUNDRED_BITS: u64 = 0x4059_0000_0000_0000;

/// One step of arithmetic.
#[derive(Clone, Copy, Debug, PartialEq, Eq, Structural)]
pub enum Calculation {
    Sum(Num, Num),
    Difference(Num, Num),
    Product(Num, Num),
    Quotient(Num, Num),
    /// The square root.
    Root(Num),
    /// The number raised to a power.
    Power(Num, Num),
    /// Euler's number raised to a power.
    Exponential(Num),
    /// The natural logarithm.
    Logarithm(Num),
    /// A count, as a number.
    Count(u128),
}

/// Whether a function answers every step, and always the same way.
pub open spec fn calculates<F: Fn(Calculation) -> Num>(f: F) -> bool {
    &&& forall|c: Calculation| #[trigger] call_requires(f, (c,))
    &&& forall|c: Calculation, x: Num, y: Num| #[trigger]
        call_ensures(f, (c,), x) && #[trigger] call_ensures(f, (c,), y) ==> x == y
}

/// What a calculator makes of a step.
pub open spec fn value<F: Fn(Calculation) -> Num>(f: F, c: Calculation) -> Num {
    choose|x: Num| call_ensures(f, (c,), x)
}

pub open spec fn sum<F: Fn(Calculation) -> Num>(f: F, a: Num, b: Num) -> Num {
    value(f, Calculation::Sum(a, b))
}

pub open spec fn difference<F: Fn(Calculation) -> Num>(f: F, a: Num, b: Num) -> Num {
    value(f, Calculation::Difference(a, b))
}

pub open spec fn product<F: Fn(Calculation) -> Num>(f: F, a: Num, b: Num) -> Num {
    value(f, Calculation::Product(a, b))
}

pub open spec fn quotient<F: Fn(Calculation) -> Num>(f: F, a: Num, b: Num) -> Num {
    value(f, Calculation::Quotient(a, b))
}

pub open spec fn root<F: Fn(Calculation) -> Num>(f: F, a: Num) -> Num {
    value(f, Calculation::Root(a))
}

pub open spec fn power<F: Fn(Calculation) -> Num>(f: F, a: Num, b: Num) -> Num {
    value(f, Calculation::Power(a, b))
}

pub open spec fn exponential<F: Fn(Calculation) -> Num>(f: F, a: Num) -> Num {
    value(f, Calculation::Exponential(a))
}

pub open spec fn logarithm<F: Fn(Calculation) -> Num>(f: F, a: Num) -> Num {
    value(f, Calculation::Logarithm(a))
}

pub open spec fn count<F: Fn(Calculation) -> Num>(f: F, n: int) -> Num {
    value(f, Calculation::Count(n as u128))
}

/// Takes one step.
pub fn calculate<F: Fn(Calculation) -> Num>(f: &F, c: Calculation) -> (r: Num)
    requires
        calculates(*f),
    ensures
        r == value(*f, c),
{
    let x = f(c);
    assert(call_ensures(*f, (c,), x));
    assert(call_ensures(*f, (c,), value(*f, c)));
    x
}

/// A number without its sign.
pub open spec fn unsigned(a: Num) -> Num {
    if a.bits >= SIGN_BIT {
        Num { bits: (a.bits - SIGN_BIT) as u64 }
    } else {
        a
    }
}

/// A number without its sign.
pub fn without_sign(a: Num) -> (r: Num)
    ensures
        r == unsigned(a),
{
    if a.bits >= SIGN_BIT {
        Num { bits: a.bits - SIGN_BIT }
    } else {
        a
    }
}

/// The quotient where the divisor is above zero, else a given number.
pub open spec fn ratio<F: Fn(Calculation) -> Num>(f: F, a: Num, b: Num, otherwise: Num) -> Num {
    if (Num { bits: 0 }).below(b) {
        quotient(f, a, b)
    } else {
        otherwise
    }
}

/// The quotient where the divisor is above zero, else a given number.
pub fn ratio_or<F: Fn(Calculation) -> Num>(f: &F, a: Num, b: Num, otherwise: Num) -> (r: Num)
    requires
        calculates(*f),
    ensures
        r == ratio(*f, a, b, otherwise),
{
    if b.is_positive() {
        calculate(f, Calculation::Quotient(a, b))
    } else {
        otherwise
    }
}

/// The sum of numbers, from the first to the last.
pub open spec fn total<F: Fn(Calculation) -> Num>(f: F, s: Seq<Num>) -> Num
    decreases s.len(),
{
    if s.len() == 0 {
        Num { bits: 0 }
    } else {
        sum(f, total(f, s.drop_last()), s.last())
    }
}

/// Adds numbers up, from the first to the last.
pub fn add_up<F: Fn(Calculation) -> Num>(f: &F, v: &Vec<Num>) -> (r: Num)
    requires
        calculates(*f),
    ensures
        r == total(*f, v@),
{
    let mut t = Num::zero();
    let mut i: usize = 0;
    while i < v.len()
        invariant
            i <= v@.len(),
            calculates(*f),
            t == total(*f, v@.take(i as int)),
        decreases v@.len() - i,
    {
        t = calculate(f, Calculation::Sum(t, v[i]));
        i += 1;
        assert(v@.take(i as int).drop_last() =~= v@.take(i - 1));
    }
    assert(v@.take(i as int) =~= v@);
    t
}

} // verus!
