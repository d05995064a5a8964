//! What rounding, divided ranges and counted levels amount to.
use vstd::arithmetic::div_mod::lemma_fundamental_div_mod;
use vstd::arithmetic::power2::{
    lemma2_to64, lemma2_to64_rest, lemma_pow2_pos, lemma_pow2_strictly_increases, lemma_pow2_unfold, pow2,
};
use vstd::prelude::*;

use super::trading::how_many;
use crate::analysis::{
    bucket_of, coarser, crossings_to, place_of, places_of, points_in, usable_width, width_at, AnalysisGrid, Sieve,
    SieveConfig,
};
use crate::arith::{count, difference, product, quotient, Calculation, TWO_BITS};
use crate::exact::exact;
use crate::grid::{is_most_levels, least_step, level_limit, pays_with, too_narrow};
use crate::num::{Num, SIGN_BIT};
use crate::rounding::FRACTION;

verus! {

proof fn lemma_divided(m: nat, d: nat, q: nat)
    requires
        d > 0,
        q == m / d,
    ensures
        q * d <= m < (q + 1) * d,
{
    lemma_fundamental_div_mod(m as int, d as int);
    assert(q * d == d * q && (q + 1) * d == d * q + d) by (nonlinear_arith);
}

/// What a pattern stands for is its fraction times a power of two. Rounded towards zero
/// it is the last whole number that is not above that, rounded away from zero the first
/// that is not below, and rounded to the nearest it is no more than a half away, the
/// upper one of two that are as near.
pub proof fn rounded_numbers_are_the_nearest_on_their_side(x: Num)
    requires
        1 <= x.exponent() <= 1075,
        x.magnitude() > 0,
    ensures
        ({
            let one = pow2((1075 - x.exponent()) as nat);
            let m = x.fraction();
            &&& x.whole() * one <= m < (x.whole() + 1) * one
            &&& m <= x.above() * one < m + one
            &&& 2 * m < (2 * x.nearest() + 1) * one <= 2 * m + 2 * one
        }),
{
    let e = x.exponent();
    let k = (1075 - e) as nat;
    let one = pow2(k);
    let m = x.fraction();
    lemma_pow2_pos(k);
    lemma2_to64();
    lemma2_to64_rest();
    assert(FRACTION <= m < 2 * FRACTION);
    if e < 1023 {
        if k > 53 {
            lemma_pow2_strictly_increases(53, k);
        }
        assert(one >= 2 * FRACTION);
        let (w, a) = (x.whole(), x.above());
        assert(w * one == 0 && (w + 1) * one == one && a * one == one) by (nonlinear_arith)
            requires
                w == 0,
                a == 1,
        ;
    } else if e < 1075 {
        lemma_divided(m, one, x.whole());
        let up = (m + one - 1) as nat;
        lemma_divided(up, one, x.above());
        assert((x.above() + 1) * one == x.above() * one + one) by (nonlinear_arith);
    } else {
        let (w, a) = (x.whole(), x.above());
        assert(m * pow2(0) == m) by (nonlinear_arith)
            requires
                pow2(0) == 1,
        ;
        assert(w == m && a == m);
        assert(w * one == m && (w + 1) * one == m + 1 && a * one == m) by (nonlinear_arith)
            requires
                w == m,
                a == m,
                one == 1,
        ;
    }
    if e < 1022 {
        if k > 54 {
            lemma_pow2_strictly_increases(54, k);
        }
        assert(one >= 4 * FRACTION);
        let near = x.nearest();
        assert((2 * near + 1) * one == one) by (nonlinear_arith)
            requires
                near == 0,
        ;
    } else if e < 1075 {
        let half = pow2((1074 - e) as nat);
        lemma_pow2_unfold(k);
        assert(one == 2 * half);
        let near = x.nearest();
        lemma_divided(m + half, one, near);
        assert((2 * near + 1) * one == 2 * (near * one) + one && (near + 1) * one == near * one + one)
            by (nonlinear_arith);
    } else {
        assert((2 * x.nearest() + 1) * one == 2 * x.nearest() + 1) by (nonlinear_arith)
            requires
                one == 1,
        ;
    }
}

/// Whether `val` reads every pattern without a sign as what it stands for.
pub open spec fn stands_for(val: spec_fn(Num) -> real) -> bool {
    forall|x: Num| #![trigger val(x)]
        x.bits < SIGN_BIT && x.finite() ==> {
            &&& x.exponent() == 0 ==> val(x) * pow2(1074) as real == x.magnitude() as real
            &&& 1 <= x.exponent() <= 1075 ==> val(x) * pow2((1075 - x.exponent()) as nat) as real == x.fraction() as real
            &&& x.exponent() > 1075 ==> val(x) == (x.fraction() * pow2((x.exponent() - 1075) as nat)) as real
        }
}

proof fn lemma_between(v: real, q: nat, one: nat, m: nat)
    requires
        v * one as real == m as real,
        q * one <= m < (q + 1) * one,
        one > 0,
    ensures
        (q as real) <= v < (q + 1) as real,
{
    let (a, b, d) = (q as real, (q + 1) as real, one as real);
    assert((q * one) as real == a * d && ((q + 1) * one) as real == b * d) by {
        lemma_cast(q, one);
        lemma_cast(q + 1, one);
    }
    assert((q * one) as real <= m as real && (m as real) < ((q + 1) * one) as real);
    assert(a <= v) by (nonlinear_arith)
        requires
            a * d <= v * d,
            d > 0 as real,
    ;
    assert(v < b) by (nonlinear_arith)
        requires
            v * d < b * d,
            d > 0 as real,
    ;
}

proof fn lemma_cast(a: nat, b: nat)
    ensures
        (a * b) as real == a as real * b as real,
    decreases a,
{
    if a == 0 {
        assert(a * b == 0) by (nonlinear_arith)
            requires
                a == 0,
        ;
        assert((a as real) * (b as real) == 0 as real) by (nonlinear_arith)
            requires
                a as real == 0 as real,
        ;
    } else {
        let p = (a - 1) as nat;
        lemma_cast(p, b);
        assert(a * b == p * b + b) by (nonlinear_arith)
            requires
                a == p + 1,
        ;
        let (x, y) = (p as real, b as real);
        assert((a * b) as real == (p * b) as real + b as real);
        assert((x + 1 as real) * y == x * y + y) by (nonlinear_arith);
        assert(a as real == x + 1 as real);
    }
}

/// What is rounded towards zero is less than one away.
pub proof fn lemma_whole(val: spec_fn(Num) -> real, x: Num)
    requires
        stands_for(val),
        x.bits < SIGN_BIT,
        x.finite(),
    ensures
        x.whole() as real <= val(x) < (x.whole() + 1) as real,
{
    let e = x.exponent();
    if e == 0 {
        lemma2_to64();
        lemma_pow2_strictly_increases(52, 1074);
        lemma2_to64_rest();
        lemma_pow2_pos(1074);
        assert(x.magnitude() < FRACTION);
        assert(0 * pow2(1074) == 0);
        lemma_between(val(x), 0, pow2(1074), x.magnitude() as nat);
    } else if e <= 1075 {
        rounded_numbers_are_the_nearest_on_their_side(x);
        lemma_pow2_pos((1075 - e) as nat);
        lemma_between(val(x), x.whole(), pow2((1075 - e) as nat), x.fraction());
    }
}


/// What is rounded to the nearest is no more than a half away.
pub proof fn lemma_nearest(val: spec_fn(Num) -> real, x: Num)
    requires
        stands_for(val),
        x.bits < SIGN_BIT,
        x.finite(),
        1 <= x.exponent() <= 1075,
    ensures
        2 as real * val(x) < 2 as real * x.nearest() as real + 1 as real,
        2 as real * x.nearest() as real <= 2 as real * val(x) + 1 as real,
{
    let e = x.exponent();
    let one = pow2((1075 - e) as nat);
    rounded_numbers_are_the_nearest_on_their_side(x);
    lemma_pow2_pos((1075 - e) as nat);
    let (v, d, m) = (val(x), one as real, x.fraction() as real);
    let q = (2 * x.nearest() + 1) as nat;
    lemma_cast(q, one);
    let r = q as real;
    assert((2 * x.fraction()) as real == 2 as real * m);
    assert((2 * one) as real == 2 as real * d);
    assert(2 as real * m < r * d);
    assert(r * d <= 2 as real * m + 2 as real * d);
    assert(2 as real * v < r) by (nonlinear_arith)
        requires
            v * d == m,
            2 as real * m < r * d,
            d > 0 as real,
    ;
    assert(r <= 2 as real * v + 2 as real) by (nonlinear_arith)
        requires
            v * d == m,
            r * d <= 2 as real * m + 2 as real * d,
            d > 0 as real,
    ;
    assert(r == 2 as real * x.nearest() as real + 1 as real);
}

proof fn lemma_above(val: spec_fn(Num) -> real, x: Num)
    requires
        stands_for(val),
        x.bits < SIGN_BIT,
        x.finite(),
        1 <= x.exponent() <= 1075,
    ensures
        val(x) <= x.above() as real,
        (x.above() as real) < val(x) + 1 as real,
{
    let e = x.exponent();
    let one = pow2((1075 - e) as nat);
    rounded_numbers_are_the_nearest_on_their_side(x);
    lemma_pow2_pos((1075 - e) as nat);
    let (v, a, d, m) = (val(x), x.above(), one as real, x.fraction() as real);
    lemma_cast(a, one);
    let r = a as real;
    assert(m <= r * d);
    assert(r * d < m + d);
    assert(v <= r) by (nonlinear_arith)
        requires
            v * d == m,
            m <= r * d,
            d > 0 as real,
    ;
    assert(r < v + 1 as real) by (nonlinear_arith)
        requires
            v * d == m,
            r * d < m + d,
            d > 0 as real,
    ;
}

/// A cell's width times the cells of its division is the range.
pub proof fn cells_fill_their_range<F: Fn(Calculation) -> Num>(
    f: F,
    val: spec_fn(Num) -> real,
    capacity: Num,
    level: u32,
)
    requires
        exact(f, val),
        !width_at(f, capacity, level).nan(),
    ensures
        val(width_at(f, capacity, level)) * (1u64 << level) as real == val(capacity),
{
    let n = count(f, (1u64 << level) as int);
    let (w, c, k) = (val(width_at(f, capacity, level)), val(capacity), val(n));
    assert(!n.nan());
    assert(w * k == c) by (nonlinear_arith)
        requires
            w == c / k,
            k != 0 as real,
    ;
}

proof fn lemma_cut(x: real, a: real, b: real, low: real, high: real)
    requires
        x == a / b,
        b > 0 as real,
        low <= x,
        x < high,
    ensures
        low * b <= a,
        a < high * b,
{
    assert(x * b == a) by (nonlinear_arith)
        requires
            x == a / b,
            b > 0 as real,
    ;
    assert(low * b <= x * b && x * b < high * b) by (nonlinear_arith)
        requires
            low <= x,
            x < high,
            b > 0 as real,
    ;
}

/// The cell that a value is said to lie in has bounds around the value: the lower one is
/// not above it, and the upper one is.
pub proof fn a_value_lies_in_its_cell<F: Fn(Calculation) -> Num>(
    f: F,
    val: spec_fn(Num) -> real,
    g: AnalysisGrid,
    y: Num,
)
    requires
        exact(f, val),
        stands_for(val),
        g.offset == g.min,
        g.min.below(y),
        y.below(g.max),
        (Num { bits: 0 }).below(g.step),
        quotient(f, difference(f, y, g.offset), g.step).finite(),
        quotient(f, difference(f, y, g.offset), g.step).whole() < usize::MAX,
        quotient(f, difference(f, y, g.offset), g.step).whole() <= u64::MAX,
    ensures
        ({
            let r = g.range_of(f, g.cell_of(f, y) as int);
            &&& !r.0.nan() ==> val(r.0) <= val(y)
            &&& !r.1.nan() ==> val(y) < val(r.1)
            &&& !r.1.nan() ==> val(r.1) - val(r.0) == val(g.step)
        }),
{
    let zero = Num { bits: 0 };
    let off = difference(f, y, g.offset);
    let x = quotient(f, off, g.step);
    assert(!x.nan());
    assert(!off.nan());
    assert(y.key() <= g.min.key() <==> val(y) <= val(g.min));
    assert(g.step.key() <= zero.key() <==> val(g.step) <= val(zero));
    let (a, b) = (val(off), val(g.step));
    assert(val(x) > 0 as real) by (nonlinear_arith)
        requires
            val(x) == a / b,
            a > 0 as real,
            b > 0 as real,
    ;
    assert(x.key() <= zero.key() <==> val(x) <= val(zero));
    assert(x.bits < SIGN_BIT);
    lemma_whole(val, x);
    let w = x.whole();
    let c = g.cell_of(f, y);
    assert(c == w);
    lemma_cut(val(x), a, b, w as real, (w + 1) as real);
    let at = product(f, count(f, w as int), g.step);
    let r = g.range_of(f, c as int);
    let n = w as real;
    if !r.0.nan() {
        assert(!at.nan());
        assert(val(at) == n * b);
    }
    if !r.1.nan() {
        assert(!r.0.nan());
        assert((n + 1 as real) * b == n * b + b) by (nonlinear_arith);
        assert((w + 1) as real == n + 1 as real);
    }
}

/// The cells reach over the range, and one cell less would not.
pub proof fn cells_reach_over_the_range<F: Fn(Calculation) -> Num>(f: F, val: spec_fn(Num) -> real, g: AnalysisGrid)
    requires
        exact(f, val),
        stands_for(val),
        (Num { bits: 0 }).below(g.step),
        quotient(f, difference(f, g.max, g.offset), g.step).finite(),
        1 <= quotient(f, difference(f, g.max, g.offset), g.step).exponent() <= 1075,
        quotient(f, difference(f, g.max, g.offset), g.step).bits < SIGN_BIT,
        quotient(f, difference(f, g.max, g.offset), g.step).above() < usize::MAX,
        quotient(f, difference(f, g.max, g.offset), g.step).above() <= u64::MAX,
    ensures
        ({
            let n = g.cells_of(f);
            &&& n >= 1
            &&& val(g.max) - val(g.offset) <= n as real * val(g.step)
            &&& (n - 1) as real * val(g.step) < val(g.max) - val(g.offset)
        }),
{
    let zero = Num { bits: 0 };
    let off = difference(f, g.max, g.offset);
    let x = quotient(f, off, g.step);
    assert(!x.nan());
    assert(!off.nan());
    assert(g.step.key() <= zero.key() <==> val(g.step) <= val(zero));
    lemma_above(val, x);
    assert(x.key() <= zero.key() <==> val(x) <= val(zero));
    assert(x.key() > 0);
    let (a, b, v) = (val(off), val(g.step), val(x));
    let n = g.cells_of(f);
    assert(x.above() >= 1) by {
        if x.above() == 0 {
            assert(v <= 0 as real);
        }
    }
    assert(n == x.above());
    let r = n as real;
    assert((n - 1) as real == r - 1 as real);
    assert(v * b == a) by (nonlinear_arith)
        requires
            v == a / b,
            b > 0 as real,
    ;
    assert(v * b <= r * b && (r - 1 as real) * b < v * b) by (nonlinear_arith)
        requires
            v <= r,
            (r - 1 as real) < v,
            b > 0 as real,
    ;
}

/// The place of a value inside a range is to all places as the value's distance from the
/// lower bound is to the range, rounded down; a value beyond a bound has the place
/// beside it.
pub proof fn places_go_by_distance<F: Fn(Calculation) -> Num>(
    f: F,
    val: spec_fn(Num) -> real,
    y: Num,
    min: Num,
    max: Num,
    max_bit: u32,
)
    requires
        exact(f, val),
        stands_for(val),
        max_bit < 64,
        min.below(max),
        product(f, quotient(f, difference(f, y, min), difference(f, max, min)), count(f, (1u64 << max_bit) as int)).finite(),
        product(
            f,
            quotient(f, difference(f, y, min), difference(f, max, min)),
            count(f, (1u64 << max_bit) as int),
        ).whole() <= u64::MAX,
    ensures
        ({
            let p = place_of(f, y, min, max, max_bit);
            let all = (1u64 << max_bit) as real;
            let (from, width) = (val(y) - val(min), val(max) - val(min));
            &&& y.at_most(min) ==> p == 0
            &&& max.at_most(y) ==> p == (1u64 << max_bit) - 1
            &&& min.below(y) && y.below(max) ==> p as real * width <= from * all && from * all < (p + 1) as real * width
        }),
{
    assert(1u64 << max_bit >= 1) by (bit_vector)
        requires
            max_bit < 64,
    ;
    if min.below(y) && y.below(max) {
        let zero = Num { bits: 0 };
        let off = difference(f, y, min);
        let wide = difference(f, max, min);
        let part = quotient(f, off, wide);
        let n = count(f, (1u64 << max_bit) as int);
        let x = product(f, part, n);
        assert(!x.nan());
        assert(!part.nan() && !n.nan());
        assert(!off.nan() && !wide.nan());
        assert(y.key() <= min.key() <==> val(y) <= val(min));
        assert(max.key() <= min.key() <==> val(max) <= val(min));
        let (a, b, k, q) = (val(off), val(wide), val(n), val(part));
        assert(q * b == a) by (nonlinear_arith)
            requires
                q == a / b,
                b > 0 as real,
        ;
        assert(q > 0 as real) by (nonlinear_arith)
            requires
                q == a / b,
                a > 0 as real,
                b > 0 as real,
        ;
        assert(k >= 1 as real);
        assert(val(x) > 0 as real) by (nonlinear_arith)
            requires
                val(x) == q * k,
                q > 0 as real,
                k >= 1 as real,
        ;
        assert(x.key() <= zero.key() <==> val(x) <= val(zero));
        assert(x.bits < SIGN_BIT);
        lemma_whole(val, x);
        let w = x.whole();
        assert(place_of(f, y, min, max, max_bit) == w);
        let (v, lo, hi) = (val(x), w as real, (w + 1) as real);
        assert(v * b == a * k) by (nonlinear_arith)
            requires
                v == q * k,
                q * b == a,
        ;
        assert(lo * b <= v * b && v * b < hi * b) by (nonlinear_arith)
            requires
                lo <= v,
                v < hi,
                b > 0 as real,
        ;
    }
}

/// A series never crosses fewer borders than lie between its ends, and one that only
/// rises or only falls crosses just those.
pub proof fn a_series_crosses_what_lies_between(cells: Seq<u64>, shift: u32, n: nat)
    requires
        n < cells.len(),
    ensures
        ({
            let first = coarser(cells[0], shift) as int;
            let last = coarser(cells[n as int], shift) as int;
            let r = crossings_to(cells, shift, n);
            &&& first - last <= r
            &&& last - first <= r
            &&& (forall|i: int| 0 <= i < n ==> coarser(#[trigger] cells[i], shift) <= coarser(cells[i + 1], shift)) ==> r
                == last - first
            &&& (forall|i: int| 0 <= i < n ==> coarser(#[trigger] cells[i], shift) >= coarser(cells[i + 1], shift)) ==> r
                == first - last
        }),
    decreases n,
{
    if n > 0 {
        a_series_crosses_what_lies_between(cells, shift, (n - 1) as nat);
    }
}

/// Two series that meet cross what each of them crosses: counting goes on where it
/// stopped.
pub proof fn crossings_add_up(cells: Seq<u64>, shift: u32, at: nat, n: nat)
    requires
        at <= n < cells.len(),
    ensures
        crossings_to(cells, shift, n) == crossings_to(cells, shift, at) + crossings_to(
            cells.skip(at as int),
            shift,
            (n - at) as nat,
        ),
    decreases n,
{
    if n > at {
        crossings_add_up(cells, shift, at, (n - 1) as nat);
        let rest = cells.skip(at as int);
        assert(rest[n - at - 1] == cells[n - 1]);
        assert(rest[n - at] == cells[n as int]);
    }
}

/// Whether a point lies in a bucket of time, and in a cell.
pub open spec fn lies_in(p: (i64, usize), start: int, interval: int, bucket: int, cell: int) -> bool {
    start + bucket * interval <= p.0 < start + (bucket + 1) * interval && p.1 == cell
}

proof fn lemma_bucket(t: int, start: int, interval: int, bucket: int)
    requires
        interval > 0,
    ensures
        bucket_of(t, start, interval) == bucket <==> start + bucket * interval <= t < start + (bucket + 1) * interval,
{
    let d = t - start;
    let q = d / interval;
    lemma_fundamental_div_mod(d, interval);
    assert(interval * q == q * interval && (q + 1) * interval == q * interval + interval) by (nonlinear_arith);
    assert((bucket + 1) * interval == bucket * interval + interval) by (nonlinear_arith);
    if bucket < q {
        assert((bucket + 1) * interval <= q * interval) by (nonlinear_arith)
            requires
                bucket + 1 <= q,
                interval > 0,
        ;
    }
    if bucket > q {
        assert((q + 1) * interval <= bucket * interval) by (nonlinear_arith)
            requires
                q + 1 <= bucket,
                interval > 0,
        ;
    }
}

/// What is counted for a bucket and a cell are the points that lie in both.
pub proof fn points_are_counted_where_they_lie(data: Seq<(i64, usize)>, interval: int, bucket: int, cell: int)
    requires
        interval > 0,
        data.len() > 0,
    ensures
        points_in(data, interval, bucket, cell, data.len()) == how_many(
            data,
            |p: (i64, usize)| lies_in(p, data[0].0 as int, interval, bucket, cell),
        ),
{
    lemma_points(data, interval, bucket, cell, data.len());
    assert(data.take(data.len() as int) =~= data);
}

proof fn lemma_points(data: Seq<(i64, usize)>, interval: int, bucket: int, cell: int, n: nat)
    requires
        interval > 0,
        n <= data.len(),
    ensures
        points_in(data, interval, bucket, cell, n) == how_many(
            data.take(n as int),
            |p: (i64, usize)| lies_in(p, data[0].0 as int, interval, bucket, cell),
        ),
    decreases n,
{
    if n > 0 {
        lemma_points(data, interval, bucket, cell, (n - 1) as nat);
        assert(data.take(n as int).drop_last() =~= data.take(n - 1));
        assert(data.take(n as int).last() == data[n - 1]);
        lemma_bucket(data[n - 1].0 as int, data[0].0 as int, interval, bucket);
    }
}

/// A search finds a level whose cells can be told apart, and finds one wherever a level
/// has such cells.
pub proof fn a_search_finds_a_usable_level<F: Fn(Calculation) -> Num>(f: F, s: Sieve)
    requires
        s.max_bit < 64,
        s.level <= s.max_bit + 1,
        s.best is None ==> s.prev_delta.bits == 0,
        s.best matches Some(b) ==> b <= s.max_bit && usable_width(width_at(f, s.capacity, b)),
    ensures
        s.found(f) matches Some(b) ==> b <= s.max_bit && usable_width(width_at(f, s.capacity, b)),
        s.found(f) is None <==> s.best is None && forall|l: u32|
            s.level <= l <= s.max_bit ==> !usable_width(#[trigger] width_at(f, s.capacity, l)),
    decreases s.max_bit + 1 - s.level,
{
    if s.level > s.max_bit {
    } else if !usable_width(width_at(f, s.capacity, s.level)) {
        a_search_finds_a_usable_level(f, s.skipped());
    } else if s.jumps(f) {
    } else {
        a_search_finds_a_usable_level(f, s.kept(f));
    }
}

/// Whether a range is cut into cells of a width, halved so many times.
pub open spec fn is_halved(width: real, range: real, times: u32) -> bool {
    width * (1u64 << times) as real == range
}

/// A range with values in it is cut into equal cells from its lower bound on: it is
/// halved some number of times, no more than the most.
pub proof fn a_range_is_halved_into_cells<F: Fn(Calculation) -> Num>(
    f: F,
    val: spec_fn(Num) -> real,
    values: Seq<Num>,
    min: Num,
    max: Num,
    max_bit: u32,
    config: SieveConfig,
    r: AnalysisGrid,
)
    requires
        exact(f, val),
        AnalysisGrid::divided(f, values, min, max, max_bit, config, r),
        values.len() > 0,
        max_bit < 64,
        (Num { bits: 0 }).below(difference(f, max, min)),
        !r.step.nan(),
    ensures
        r.offset == min && r.min == min && r.max == max,
        exists|times: u32| times <= max_bit && #[trigger] is_halved(val(r.step), val(max) - val(min), times),
{
    let capacity = difference(f, max, min);
    let s = choose|s: Sieve| #[trigger]
        Sieve::start(places_of(f, values, min, max, max_bit), max_bit, capacity, config, s) && r == (AnalysisGrid {
            step: (match s.found(f) {
                Some(level) => width_at(f, capacity, level),
                None => capacity,
            }),
            offset: min,
            min,
            max,
            max_bit,
        });
    a_search_finds_a_usable_level(f, s);
    match s.found(f) {
        Some(level) => {
            cells_fill_their_range(f, val, capacity, level);
            assert(is_halved(val(r.step), val(max) - val(min), level));
        },
        None => {
            assert(1u64 << 0u32 == 1) by (bit_vector);
            let w = val(r.step);
            assert(w * 1 as real == w) by (nonlinear_arith);
            assert(is_halved(val(r.step), val(max) - val(min), 0));
        },
    }
}

/// A level jumps where it is past the first two, the crossings had grown before, and for
/// every move they have now grown by more than the multiple of that, and by no less than
/// the least growth that counts. A level that is kept hands on its own crossings and its
/// own growth.
pub proof fn a_jump_is_a_growth_beyond_its_multiple<F: Fn(Calculation) -> Num>(f: F, val: spec_fn(Num) -> real, s: Sieve)
    requires
        exact(f, val),
        s.inv(),
        1 <= s.level <= s.max_bit,
        s.segments() <= u128::MAX,
        s.crossings_at(s.level as int) <= u128::MAX,
        !s.delta(f).nan(),
        !s.prev_delta.nan(),
        !s.config.min_abs_delta.nan(),
        !product(f, s.prev_delta, s.config.delta_multiplier).nan(),
    ensures
        ({
            let grown = (s.crossings_at(s.level as int) - s.prev_crossings) as real;
            let moves = s.segments() as real;
            let before = val(s.prev_delta);
            &&& moves > 0 as real
            &&& s.jumps(f) <==> s.level >= 2 && before > 0 as real && grown > before * val(s.config.delta_multiplier) * moves
                && grown >= val(s.config.min_abs_delta) * moves
            &&& val(s.kept(f).prev_delta) * moves == grown
            &&& s.kept(f).prev_crossings == s.crossings_at(s.level as int)
            &&& s.kept(f).best == Some(s.level) && s.kept(f).level == s.level + 1 == s.skipped().level
            &&& s.skipped().best == s.best && s.skipped().prev_crossings == s.prev_crossings && s.skipped().prev_delta
                == s.prev_delta
        }),
{
    let zero = Num { bits: 0 };
    let d = s.delta(f);
    let g = count(f, s.crossings_at(s.level as int) - s.prev_crossings);
    let n = count(f, s.segments());
    assert(d == quotient(f, g, n));
    assert(!g.nan() && !n.nan());
    let grown = (s.crossings_at(s.level as int) - s.prev_crossings) as real;
    let moves = s.segments() as real;
    assert(val(g) == grown && val(n) == moves);
    let v = val(d);
    assert(v * moves == grown) by (nonlinear_arith)
        requires
            v == grown / moves,
            moves > 0 as real,
    ;
    let m = product(f, s.prev_delta, s.config.delta_multiplier);
    let least = s.config.min_abs_delta;
    assert(d.key() <= m.key() <==> val(d) <= val(m));
    assert(least.key() <= d.key() <==> val(least) <= val(d));
    assert(s.prev_delta.key() <= zero.key() <==> val(s.prev_delta) <= val(zero));
    let (a, b) = (val(m), val(least));
    assert((a < v) <==> (a * moves < v * moves)) by (nonlinear_arith)
        requires
            moves > 0 as real,
    ;
    assert((b <= v) <==> (b * moves <= v * moves)) by (nonlinear_arith)
        requires
            moves > 0 as real,
    ;
}

/// The least step that pays for the fee of both sides is twice the fee on the price, so
/// a wider one earns more than the two fees.
pub proof fn the_least_step_pays_both_fees<F: Fn(Calculation) -> Num>(
    f: F,
    val: spec_fn(Num) -> real,
    fee_rate: Num,
    at_price: Num,
)
    requires
        exact(f, val),
        !least_step(f, fee_rate, at_price).nan(),
    ensures
        val(least_step(f, fee_rate, at_price)) == val(fee_rate) * val(at_price) + val(fee_rate) * val(at_price),
{
    let two = Num { bits: TWO_BITS };
    let both = product(f, two, fee_rate);
    assert(!both.nan());
    let (a, b, c) = (val(both), val(fee_rate), val(at_price));
    assert(a * c == b * c + b * c) by (nonlinear_arith)
        requires
            a == 2 as real * b,
    ;
}

/// The most levels that pay are the most: with them the steps are above the least one,
/// and with any more they are not.
pub proof fn no_more_levels_would_pay<F: Fn(Calculation) -> Num>(
    f: F,
    val: spec_fn(Num) -> real,
    min: Num,
    max: Num,
    fee_rate: Num,
    k: usize,
    j: int,
)
    requires
        exact(f, val),
        stands_for(val),
        is_most_levels(f, min, max, fee_rate, k),
        k < j <= u64::MAX,
        !too_narrow(f, difference(f, max, min), least_step(f, fee_rate, min)),
        !least_step(f, fee_rate, min).nan(),
        (Num { bits: 0 }).below(difference(f, max, min)),
        quotient(f, difference(f, max, min), least_step(f, fee_rate, min)).finite(),
        quotient(f, difference(f, max, min), least_step(f, fee_rate, min)).whole() < usize::MAX,
        !quotient(f, difference(f, max, min), count(f, j - 1)).nan(),
    ensures
        ({
            let width = val(max) - val(min);
            let least = val(least_step(f, fee_rate, min));
            &&& k > 2 ==> (least * (k - 1) as real) < width
            &&& width <= least * (j - 1) as real
        }),
{
    let zero = Num { bits: 0 };
    let width = difference(f, max, min);
    let least = least_step(f, fee_rate, min);
    assert(k >= 2);
    assert(least.key() <= zero.key() <==> val(least) <= val(zero));
    assert(width.key() <= zero.key() <==> val(width) <= val(zero));
    let (w, l) = (val(width), val(least));
    assert(w == val(max) - val(min));
    if k > 2 {
        assert(pays_with(f, width, least, k as int));
        let step = quotient(f, width, count(f, k - 1));
        assert(!step.nan());
        assert(!count(f, k - 1).nan());
        assert(step.key() <= least.key() <==> val(step) <= val(least));
        let n = (k - 1) as real;
        assert(l * n < w) by (nonlinear_arith)
            requires
                val(step) == w / n,
                l < val(step),
                n > 0 as real,
        ;
    }
    let x = quotient(f, width, least);
    assert(!x.nan());
    assert(val(x) > 0 as real) by (nonlinear_arith)
        requires
            val(x) == w / l,
            w > 0 as real,
            l > 0 as real,
    ;
    assert(x.key() <= zero.key() <==> val(x) <= val(zero));
    assert(x.bits < SIGN_BIT);
    lemma_whole(val, x);
    let steps = x.whole();
    let n = (j - 1) as real;
    if j <= level_limit(f, width, least) {
        assert(!pays_with(f, width, least, j));
        let step = quotient(f, width, count(f, j - 1));
        assert(!count(f, j - 1).nan());
        assert(step.key() <= least.key() <==> val(step) <= val(least));
        assert(w <= l * n) by (nonlinear_arith)
            requires
                val(step) == w / n,
                val(step) <= l,
                n > 0 as real,
        ;
    } else {
        assert(level_limit(f, width, least) == steps + 1);
        assert(j - 1 >= steps + 1);
        let up = (steps + 1) as real;
        assert(w <= l * n) by (nonlinear_arith)
            requires
                val(x) == w / l,
                val(x) < up,
                up <= n,
                l > 0 as real,
        ;
    }
}

} // verus!
