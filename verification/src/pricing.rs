//! The prices and the weights of a grid's levels.
use vstd::prelude::*;

use crate::arith::{
    add_up, calculate, calculates, count, difference, exponential, power, product, quotient, sum, total, Calculation,
    ONE_BITS, TWO_BITS,
};
use crate::grid::{repeat, repeated};
use crate::num::Num;

verus! {

/// 4.0
pub const FOUR_BITS: u64 = 0x4010_0000_0000_0000;

/// -0.5
pub const MINUS_HALF_BITS: u64 = 0xBFE0_0000_0000_0000;

/// Prices from a start, one step apart.
pub open spec fn spaced<F: Fn(Calculation) -> Num>(f: F, n: usize, start: Num, step: Num) -> Seq<Num> {
    Seq::new(n as nat, |j: int| sum(f, start, product(f, count(f, j), step)))
}

/// The step that divides a range evenly.
pub open spec fn even_step<F: Fn(Calculation) -> Num>(f: F, n: usize, min: Num, max: Num) -> Num {
    quotient(f, difference(f, max, min), count(f, n - 1))
}

/// The lowest of prices around a centre.
pub open spec fn centered_start<F: Fn(Calculation) -> Num>(f: F, n: usize, center: Num, step: Num) -> Num {
    difference(f, center, product(f, quotient(f, count(f, n - 1), Num { bits: TWO_BITS }), step))
}

/// The equal share of one level among `n`.
pub open spec fn equal_share<F: Fn(Calculation) -> Num>(f: F, n: usize) -> Num {
    quotient(f, Num { bits: ONE_BITS }, count(f, n as int))
}

/// Prices from a start, one step apart.
pub fn space<F: Fn(Calculation) -> Num>(f: &F, n: usize, start: Num, step: Num) -> (r: Vec<Num>)
    requires
        calculates(*f),
    ensures
        r@ == spaced(*f, n, start, step),
{
    let mut v: Vec<Num> = Vec::new();
    let mut j: usize = 0;
    while j < n
        invariant
            j <= n,
            calculates(*f),
            v@ == spaced(*f, n, start, step).take(j as int),
        decreases n - j,
    {
        let c = calculate(f, Calculation::Count(j as u128));
        let off = calculate(f, Calculation::Product(c, step));
        v.push(calculate(f, Calculation::Sum(start, off)));
        j += 1;
        assert(v@ =~= spaced(*f, n, start, step).take(j as int));
    }
    assert(v@ =~= spaced(*f, n, start, step));
    v
}

/// The step that divides a range evenly.
pub fn even<F: Fn(Calculation) -> Num>(f: &F, n: usize, min: Num, max: Num) -> (r: Num)
    requires
        calculates(*f),
        n >= 1,
    ensures
        r == even_step(*f, n, min, max),
{
    let width = calculate(f, Calculation::Difference(max, min));
    let parts = calculate(f, Calculation::Count(n as u128 - 1));
    calculate(f, Calculation::Quotient(width, parts))
}

/// The lowest of prices around a centre.
pub fn start_around<F: Fn(Calculation) -> Num>(f: &F, n: usize, center: Num, step: Num) -> (r: Num)
    requires
        calculates(*f),
        n >= 1,
    ensures
        r == centered_start(*f, n, center, step),
{
    let parts = calculate(f, Calculation::Count(n as u128 - 1));
    let half = calculate(f, Calculation::Quotient(parts, Num { bits: TWO_BITS }));
    let off = calculate(f, Calculation::Product(half, step));
    calculate(f, Calculation::Difference(center, off))
}

/// The equal share of one level among `n`.
pub fn share<F: Fn(Calculation) -> Num>(f: &F, n: usize) -> (r: Num)
    requires
        calculates(*f),
    ensures
        r == equal_share(*f, n),
{
    let c = calculate(f, Calculation::Count(n as u128));
    calculate(f, Calculation::Quotient(Num { bits: ONE_BITS }, c))
}

/// Numbers as shares of their sum.
pub open spec fn shared_out<F: Fn(Calculation) -> Num>(f: F, raw: Seq<Num>) -> Seq<Num> {
    Seq::new(raw.len(), |j: int| quotient(f, raw[j], total(f, raw)))
}

fn share_out<F: Fn(Calculation) -> Num>(f: &F, raw: &Vec<Num>) -> (r: Vec<Num>)
    requires
        calculates(*f),
    ensures
        r@ == shared_out(*f, raw@),
{
    let t = add_up(f, raw);
    let mut v: Vec<Num> = Vec::new();
    let mut j: usize = 0;
    while j < raw.len()
        invariant
            j <= raw@.len(),
            calculates(*f),
            t == total(*f, raw@),
            v@ == shared_out(*f, raw@).take(j as int),
        decreases raw@.len() - j,
    {
        v.push(calculate(f, Calculation::Quotient(raw[j], t)));
        j += 1;
        assert(v@ =~= shared_out(*f, raw@).take(j as int));
    }
    assert(v@ =~= shared_out(*f, raw@));
    v
}

/// The height of a bell curve over `k` levels at level `j`: it peaks in the
/// middle, the more so the sharper.
pub open spec fn bell<F: Fn(Calculation) -> Num>(f: F, k: usize, sharpness: Num, j: int) -> Num {
    let center = quotient(f, difference(f, count(f, k as int), Num { bits: ONE_BITS }), Num { bits: TWO_BITS });
    let deviation = quotient(f, count(f, k as int), sharpness.greater(Num { bits: ONE_BITS }));
    let z = quotient(f, difference(f, count(f, j), center), deviation);
    exponential(f, product(f, product(f, Num { bits: MINUS_HALF_BITS }, z), z))
}

/// The weights of a bell curve, as shares of their sum where that is above zero.
pub open spec fn normal_weights<F: Fn(Calculation) -> Num>(f: F, k: usize, sharpness: Num) -> Seq<Num> {
    let raw = Seq::new(k as nat, |j: int| bell(f, k, sharpness, j));
    if (Num { bits: 0 }).below(total(f, raw)) {
        shared_out(f, raw)
    } else {
        raw
    }
}

/// The weights of a bell curve.
pub fn weigh_normal<F: Fn(Calculation) -> Num>(f: &F, k: usize, sharpness: Num) -> (r: Vec<Num>)
    requires
        calculates(*f),
    ensures
        r@ == normal_weights(*f, k, sharpness),
{
    let one = Num { bits: ONE_BITS };
    let kn = calculate(f, Calculation::Count(k as u128));
    let less = calculate(f, Calculation::Difference(kn, one));
    let center = calculate(f, Calculation::Quotient(less, Num { bits: TWO_BITS }));
    let deviation = calculate(f, Calculation::Quotient(kn, sharpness.max(one)));
    let ghost raw = Seq::new(k as nat, |j: int| bell(*f, k, sharpness, j));
    let mut v: Vec<Num> = Vec::new();
    let mut j: usize = 0;
    while j < k
        invariant
            j <= k,
            calculates(*f),
            center == quotient(
                *f,
                difference(*f, count(*f, k as int), Num { bits: ONE_BITS }),
                Num { bits: TWO_BITS },
            ),
            deviation == quotient(*f, count(*f, k as int), sharpness.greater(Num { bits: ONE_BITS })),
            raw == Seq::new(k as nat, |j: int| bell(*f, k, sharpness, j)),
            v@ == raw.take(j as int),
        decreases k - j,
    {
        let c = calculate(f, Calculation::Count(j as u128));
        let off = calculate(f, Calculation::Difference(c, center));
        let z = calculate(f, Calculation::Quotient(off, deviation));
        let h = calculate(f, Calculation::Product(Num { bits: MINUS_HALF_BITS }, z));
        let e = calculate(f, Calculation::Product(h, z));
        v.push(calculate(f, Calculation::Exponential(e)));
        j += 1;
        assert(v@ =~= raw.take(j as int));
    }
    assert(v@ =~= raw);
    let t = add_up(f, &v);
    if t.is_positive() {
        share_out(f, &v)
    } else {
        v
    }
}

/// Equal weights.
pub fn weigh_evenly<F: Fn(Calculation) -> Num>(f: &F, k: usize) -> (r: Vec<Num>)
    requires
        calculates(*f),
    ensures
        r@ == repeated(equal_share(*f, k), k as nat),
{
    repeat(share(f, k), k)
}

/// Weights that rise, or fall, by the same step.
pub open spec fn linear_weights<F: Fn(Calculation) -> Num>(f: F, k: usize, ascending: bool) -> Seq<Num> {
    shared_out(
        f,
        Seq::new(
            k as nat,
            |j: int|
                if ascending {
                    count(f, j + 1)
                } else {
                    difference(f, count(f, k as int), count(f, j))
                },
        ),
    )
}

/// Weights that rise, or fall, by the same step.
pub fn weigh_linear<F: Fn(Calculation) -> Num>(f: &F, k: usize, ascending: bool) -> (r: Vec<Num>)
    requires
        calculates(*f),
    ensures
        r@ == linear_weights(*f, k, ascending),
{
    let ghost raw = Seq::new(
        k as nat,
        |j: int|
            if ascending {
                count(*f, j + 1)
            } else {
                difference(*f, count(*f, k as int), count(*f, j))
            },
    );
    let kn = calculate(f, Calculation::Count(k as u128));
    let mut v: Vec<Num> = Vec::new();
    let mut j: usize = 0;
    while j < k
        invariant
            j <= k,
            calculates(*f),
            kn == count(*f, k as int),
            raw == Seq::new(
                k as nat,
                |j: int|
                    if ascending {
                        count(*f, j + 1)
                    } else {
                        difference(*f, count(*f, k as int), count(*f, j))
                    },
            ),
            v@ == raw.take(j as int),
        decreases k - j,
    {
        if ascending {
            v.push(calculate(f, Calculation::Count(j as u128 + 1)));
        } else {
            let c = calculate(f, Calculation::Count(j as u128));
            v.push(calculate(f, Calculation::Difference(kn, c)));
        }
        j += 1;
        assert(v@ =~= raw.take(j as int));
    }
    assert(v@ =~= raw);
    share_out(f, &v)
}

/// The pull of a trend on level `j` of `k`, before it is shared out: on the low
/// levels where it goes up, on the high ones where it goes down, the same on all
/// without a direction. The exponent goes from one to five with the strength.
pub open spec fn trend_pull<F: Fn(Calculation) -> Num>(f: F, k: usize, direction: Num, strength: Num, j: int) -> Num {
    let one = Num { bits: ONE_BITS };
    let zero = Num { bits: 0 };
    let p = sum(f, one, product(f, strength.held(zero, one), Num { bits: FOUR_BITS }));
    if zero.below(direction) {
        power(f, difference(f, count(f, k as int), count(f, j)), p)
    } else if direction.below(zero) {
        power(f, sum(f, count(f, j), one), p)
    } else {
        one
    }
}

/// Weights that favour the side of a trend.
pub open spec fn trend_weights<F: Fn(Calculation) -> Num>(f: F, k: usize, direction: Num, strength: Num) -> Seq<Num> {
    shared_out(f, Seq::new(k as nat, |j: int| trend_pull(f, k, direction, strength, j)))
}

/// Weights that favour the side of a trend.
pub fn weigh_trend<F: Fn(Calculation) -> Num>(f: &F, k: usize, direction: Num, strength: Num) -> (r: Vec<Num>)
    requires
        calculates(*f),
    ensures
        r@ == trend_weights(*f, k, direction, strength),
{
    let one = Num { bits: ONE_BITS };
    let zero = Num { bits: 0 };
    let s = calculate(f, Calculation::Product(strength.clamp(zero, one), Num { bits: FOUR_BITS }));
    let p = calculate(f, Calculation::Sum(one, s));
    let kn = calculate(f, Calculation::Count(k as u128));
    let ghost raw = Seq::new(k as nat, |j: int| trend_pull(*f, k, direction, strength, j));
    let mut v: Vec<Num> = Vec::new();
    let mut j: usize = 0;
    while j < k
        invariant
            j <= k,
            calculates(*f),
            one.bits == ONE_BITS,
            zero.bits == 0,
            kn == count(*f, k as int),
            p == sum(*f, one, product(*f, strength.held(zero, one), Num { bits: FOUR_BITS })),
            raw == Seq::new(k as nat, |j: int| trend_pull(*f, k, direction, strength, j)),
            v@ == raw.take(j as int),
        decreases k - j,
    {
        let c = calculate(f, Calculation::Count(j as u128));
        let x = if zero.lt(direction) {
            let left = calculate(f, Calculation::Difference(kn, c));
            calculate(f, Calculation::Power(left, p))
        } else if direction.lt(zero) {
            let next = calculate(f, Calculation::Sum(c, one));
            calculate(f, Calculation::Power(next, p))
        } else {
            one
        };
        v.push(x);
        j += 1;
        assert(v@ =~= raw.take(j as int));
    }
    assert(v@ =~= raw);
    share_out(f, &v)
}

} // verus!
