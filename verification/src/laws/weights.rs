//! What the weights of averages and of a grid's levels amount to.
use vstd::prelude::*;

use crate::arith::{
    count, difference, exponential, power, product, quotient, sum, total, Calculation, ONE_BITS, TWO_BITS,
};
use crate::exact::{exact, raised, real_total, sums_are_exact};
use crate::graph::ctx::{average, decay, decayed, smoothing};
use crate::graph::meaning::{dot, ema_weights, sma_weights, sum_between, wilder_weights};
use crate::grid::GridView;
use crate::num::Num;
use crate::pricing::{
    bell, centered_start, even_step, linear_weights, normal_weights, shared_out, spaced, trend_pull, trend_weights,
    FOUR_BITS, MINUS_HALF_BITS,
};

verus! {

proof fn lemma_decayed<F: Fn(Calculation) -> Num>(f: F, val: spec_fn(Num) -> real, k: Num, age: int)
    requires
        exact(f, val),
        0 <= age <= u128::MAX,
        !decayed(f, k, age).nan(),
    ensures
        !k.nan(),
        val(decayed(f, k, age)) == val(k) * raised(1 as real - val(k), age as nat),
{
    let keep = difference(f, Num { bits: ONE_BITS }, k);
    let steps = count(f, age);
    let left = power(f, keep, steps);
    assert(decayed(f, k, age) == product(f, k, left));
    assert(!left.nan());
    let r = raised(val(keep), age as nat);
    assert(!keep.nan() && !steps.nan());
    assert(val(steps) == age as real);
    assert(val(left) == r);
}

/// The weights that are written for averages are those averages' weights, wherever they
/// were not rounded.
pub proof fn written_weights_are_the_averages<F: Fn(Calculation) -> Num>(
    f: F,
    val: spec_fn(Num) -> real,
    ws: usize,
    period: usize,
    i: int,
)
    requires
        exact(f, val),
        0 <= i < ws,
    ensures
        !decay(f, ws, period)[i].nan() ==> val(decay(f, ws, period)[i]) == ema_weights(ws as int, period)[i],
        !average(f, ws, period)[i].nan() ==> val(average(f, ws, period)[i]) == sma_weights(ws as int, period)[i],
        !smoothing(f, ws, period)[i].nan() ==> val(smoothing(f, ws, period)[i]) == wilder_weights(ws as int, period)[i],
{
    let one = Num { bits: ONE_BITS };
    let two = Num { bits: TWO_BITS };
    if period > 0 {
        let k = quotient(f, two, sum(f, count(f, period as int), one));
        let d = decay(f, ws, period)[i];
        if !d.nan() {
            assert(d == decayed(f, k, ws - 1 - i));
            lemma_decayed(f, val, k, ws - 1 - i);
            assert(!sum(f, count(f, period as int), one).nan());
            assert(val(k) == 2 as real / (period as real + 1 as real));
        }
        let s = smoothing(f, ws, period)[i];
        let n = ws - 1;
        let q = quotient(f, one, count(f, period as int));
        if !s.nan() && i > 0 && n > period {
            let age = if i <= period { n - period } else { n - i };
            assert(s == decayed(f, q, age));
            lemma_decayed(f, val, q, age);
        }
    }
}

/// An exponential average moves by what is new: over a window with one more entry it is
/// `2 / (period + 1)` of that entry and the rest of the average before.
pub proof fn an_exponential_average_moves_by_the_new(a: Seq<real>, x: real, period: usize)
    requires
        period > 0,
    ensures
        ({
            let n = a.len();
            let k = 2 as real / (period as real + 1 as real);
            dot(a.push(x), ema_weights(n as int + 1, period), n + 1) == k * x + (1 as real - k) * dot(
                a,
                ema_weights(n as int, period),
                n,
            )
        }),
{
    let n = a.len();
    let k = 2 as real / (period as real + 1 as real);
    let u = ema_weights(n as int + 1, period);
    let w = ema_weights(n as int, period);
    assert forall|i: int| 0 <= i < n implies #[trigger] u[i] == (1 as real - k) * w[i] by {
        let r = raised(1 as real - k, (n - 1 - i) as nat);
        let q = 1 as real - k;
        assert(raised(q, (n - i) as nat) == q * r);
        assert(k * (q * r) == q * (k * r)) by (nonlinear_arith);
    }
    lemma_scaled(a, a.push(x), w, u, 1 as real - k, n);
    assert(u[n as int] == k * raised(1 as real - k, 0));
    assert(k * 1 as real == k) by (nonlinear_arith);
    assert(x * k == k * x) by (nonlinear_arith);
}

proof fn lemma_scaled(a: Seq<real>, b: Seq<real>, w: Seq<real>, u: Seq<real>, c: real, n: nat)
    requires
        forall|i: int| 0 <= i < n ==> #[trigger] u[i] == c * w[i],
        forall|i: int| 0 <= i < n ==> #[trigger] b[i] == a[i],
    ensures
        dot(b, u, n) == c * dot(a, w, n),
    decreases n,
{
    if n > 0 {
        lemma_scaled(a, b, w, u, c, (n - 1) as nat);
        let x = a[n - 1];
        let y = w[n - 1];
        let d = dot(a, w, (n - 1) as nat);
        assert(u[n - 1] == c * y);
        assert(b[n - 1] == x);
        assert(c * d + x * (c * y) == c * (d + x * y)) by (nonlinear_arith);
    } else {
        assert(c * 0 as real == 0 as real) by (nonlinear_arith);
    }
}

/// Wilder's average starts as the mean of the first `period` moves, and each later move
/// shifts it by one part in `period`.
pub proof fn wilders_average_shifts_by_one_part(a: Seq<real>, x: real, period: usize)
    requires
        period > 0,
        a.len() > period,
    ensures
        ({
            let n = a.len();
            let p = period as real;
            let before = dot(a, wilder_weights(n as int, period), n);
            &&& dot(a.push(x), wilder_weights(n as int + 1, period), n + 1) * p == before * (p - 1 as real) + x
            &&& n == period + 1 ==> before * p == sum_between(a, 1, n as int)
        }),
{
    let n = a.len();
    let p = period as real;
    let k = 1 as real / p;
    let u = wilder_weights(n as int + 1, period);
    let w = wilder_weights(n as int, period);
    let q = 1 as real - k;
    assert forall|i: int| 0 <= i < n implies #[trigger] u[i] == q * w[i] by {
        if i == 0 {
            assert(q * 0 as real == 0 as real) by (nonlinear_arith);
        } else {
            let age: nat = if n == period + 1 {
                0
            } else if i <= period {
                (n - 1 - period) as nat
            } else {
                (n - 1 - i) as nat
            };
            let r = raised(q, age);
            assert(raised(q, age + 1) == q * r);
            assert(w[i] == k * r) by {
                assert(k * 1 as real == k) by (nonlinear_arith);
            }
            assert(u[i] == k * raised(q, age + 1));
            assert(k * (q * r) == q * (k * r)) by (nonlinear_arith);
        }
    }
    lemma_scaled(a, a.push(x), w, u, q, n);
    assert(u[n as int] == k * raised(q, 0));
    assert(k * 1 as real == k) by (nonlinear_arith);
    let before = dot(a, w, n);
    let after = dot(a.push(x), u, n + 1);
    assert(after == q * before + x * k);
    assert(after * p == before * (p - 1 as real) + x) by (nonlinear_arith)
        requires
            after == q * before + x * k,
            q == 1 as real - k,
            k == 1 as real / p,
            p > 0 as real,
    ;
    if n == period + 1 {
        crate::graph::meaning::lemma_dot_of_band(a, w, 1, k, n);
        let s = sum_between(a, 1, n as int);
        assert((k * s) * p == s) by (nonlinear_arith)
            requires
                k == 1 as real / p,
                p > 0 as real,
        ;
    }
}

/// Shares stand in the ratio of what they are shares of, and make up one.
pub proof fn shares_make_up_one<F: Fn(Calculation) -> Num>(f: F, val: spec_fn(Num) -> real, raw: Seq<Num>)
    requires
        exact(f, val),
        raw.len() > 0,
        forall|j: int| 0 <= j < raw.len() ==> !(#[trigger] shared_out(f, raw)[j]).nan(),
    ensures
        shared_out(f, raw).len() == raw.len(),
        real_total(val, shared_out(f, raw)) == 1 as real,
        forall|i: int, j: int|
            0 <= i < raw.len() && 0 <= j < raw.len() ==> val(#[trigger] shared_out(f, raw)[i]) * val(raw[j]) == val(
                #[trigger] shared_out(f, raw)[j],
            ) * val(raw[i]),
{
    let s = shared_out(f, raw);
    let t = total(f, raw);
    assert(!s[0].nan());
    assert(s[0] == quotient(f, raw[0], t));
    assert(!t.nan());
    sums_are_exact(f, val, raw);
    assert forall|j: int| 0 <= j < raw.len() implies val(#[trigger] s[j]) == val(raw[j]) / val(t) by {
        assert(!s[j].nan());
        assert(s[j] == quotient(f, raw[j], t));
    }
    lemma_parts_of(val, s, raw, val(t), raw.len());
    assert(raw.take(raw.len() as int) =~= raw);
    assert(s.take(raw.len() as int) =~= s);
    let r = val(t);
    assert(real_total(val, s) == 1 as real) by (nonlinear_arith)
        requires
            real_total(val, s) * r == r,
            r != 0 as real,
    ;
    assert forall|i: int, j: int| 0 <= i < raw.len() && 0 <= j < raw.len() implies val(#[trigger] s[i]) * val(raw[j]) == val(
        #[trigger] s[j],
    ) * val(raw[i]) by {
        let x = val(raw[i]);
        let y = val(raw[j]);
        assert((x / r) * y == (y / r) * x) by (nonlinear_arith)
            requires
                r != 0 as real,
        ;
    }
}

proof fn lemma_parts_of(val: spec_fn(Num) -> real, s: Seq<Num>, raw: Seq<Num>, t: real, n: nat)
    requires
        n <= raw.len() == s.len(),
        t != 0 as real,
        forall|j: int| 0 <= j < raw.len() ==> val(#[trigger] s[j]) == val(raw[j]) / t,
    ensures
        real_total(val, s.take(n as int)) * t == real_total(val, raw.take(n as int)),
    decreases n,
{
    if n > 0 {
        lemma_parts_of(val, s, raw, t, (n - 1) as nat);
        assert(s.take(n as int).drop_last() =~= s.take(n - 1));
        assert(raw.take(n as int).drop_last() =~= raw.take(n - 1));
        let a = real_total(val, s.take(n - 1));
        let b = real_total(val, raw.take(n - 1));
        let x = val(s[n - 1]);
        let y = val(raw[n - 1]);
        assert((a + x) * t == b + y) by (nonlinear_arith)
            requires
                a * t == b,
                x == y / t,
                t != 0 as real,
        ;
    } else {
        assert(s.take(0) =~= Seq::empty());
        assert(raw.take(0) =~= Seq::empty());
        assert(0 as real * t == 0 as real) by (nonlinear_arith);
    }
}

/// A grid evenly laid over a range goes from its lower to its upper bound in equal
/// steps; one around a centre lies evenly about it, one step apart; and every level
/// starts with an equal share, all of which make up one.
pub proof fn even_grids_reach_from_bound_to_bound<F: Fn(Calculation) -> Num>(
    f: F,
    val: spec_fn(Num) -> real,
    n: usize,
    min: Num,
    max: Num,
    center: Num,
    step: Num,
    j: int,
)
    requires
        exact(f, val),
        n >= 2,
        0 <= j < n,
    ensures
        ({
            let even = GridView::even(f, n, min, max);
            let about = GridView::around(f, n, center, step);
            let parts = (n - 1) as real;
            &&& even.levels.len() == n && about.levels.len() == n
            &&& !even.levels[j].nan() ==> (val(even.levels[j]) - val(min)) * parts == (val(max) - val(min)) * j as real
            &&& j == 0 && !even.levels[j].nan() ==> val(even.levels[j]) == val(min)
            &&& j == n - 1 && !even.levels[j].nan() ==> val(even.levels[j]) == val(max)
            &&& !about.levels[j].nan() ==> 2 as real * (val(about.levels[j]) - val(center)) == (2 as real * j as real - parts)
                * val(step)
            &&& !even.weights[j][0].nan() ==> val(even.weights[j][0]) * n as real == 1 as real
        }),
{
    let parts = (n - 1) as real;
    let even = GridView::even(f, n, min, max);
    let about = GridView::around(f, n, center, step);
    let c = count(f, n - 1);
    let jj = j as real;
    if !even.levels[j].nan() {
        let s = even_step(f, n, min, max);
        let off = product(f, count(f, j), s);
        assert(even.levels == spaced(f, n, min, s));
        assert(even.levels[j] == sum(f, min, off));
        let w = difference(f, max, min);
        assert(s == quotient(f, w, c));
        assert(!off.nan() && !s.nan() && !w.nan() && !c.nan() && !count(f, j).nan());
        let d = val(w);
        assert((jj * (d / parts)) * parts == d * jj) by (nonlinear_arith)
            requires
                parts > 0 as real,
        ;
        if j == 0 {
            assert(0 as real * (d / parts) == 0 as real) by (nonlinear_arith);
        }
        if j == n - 1 {
            assert(parts * (d / parts) == d) by (nonlinear_arith)
                requires
                    parts > 0 as real,
            ;
        }
    }
    if !about.levels[j].nan() {
        let start = centered_start(f, n, center, step);
        let off = product(f, count(f, j), step);
        assert(about.levels == spaced(f, n, start, step));
        assert(about.levels[j] == sum(f, start, off));
        let two = Num { bits: TWO_BITS };
        let h = quotient(f, c, two);
        let back = product(f, h, step);
        assert(start == difference(f, center, back));
        assert(!start.nan() && !off.nan() && !back.nan() && !h.nan() && !c.nan() && !count(f, j).nan());
        let x = val(step);
        assert(2 as real * (jj * x - (parts / 2 as real) * x) == (2 as real * jj - parts) * x) by (nonlinear_arith);
    }
    let share = even.weights[j][0];
    if !share.nan() {
        assert(share == quotient(f, Num { bits: ONE_BITS }, count(f, n as int)));
        assert(!count(f, n as int).nan());
        let m = n as real;
        assert((1 as real / m) * m == 1 as real) by (nonlinear_arith)
            requires
                m > 0 as real,
        ;
    }
}

/// Linear weights rise by the same step from the first level on, or fall to it: they
/// stand in the ratio of the levels' places, counted from the light end.
pub proof fn linear_weights_go_by_place<F: Fn(Calculation) -> Num>(
    f: F,
    val: spec_fn(Num) -> real,
    k: usize,
    ascending: bool,
    i: int,
    j: int,
)
    requires
        exact(f, val),
        forall|q: int| 0 <= q < k ==> !(#[trigger] linear_weights(f, k, ascending)[q]).nan(),
        0 <= i < k,
        0 <= j < k,
    ensures
        ({
            let w = linear_weights(f, k, ascending);
            let place = |q: int| if ascending { (q + 1) as real } else { (k - q) as real };
            &&& val(w[i]) * place(j) == val(w[j]) * place(i)
            &&& real_total(val, w) == 1 as real
        }),
{
    let raw = Seq::new(
        k as nat,
        |j: int|
            if ascending {
                count(f, j + 1)
            } else {
                difference(f, count(f, k as int), count(f, j))
            },
    );
    let w = linear_weights(f, k, ascending);
    assert(w == shared_out(f, raw));
    shares_make_up_one(f, val, raw);
    assert(!w[i].nan() && !w[j].nan());
    assert(w[i] == quotient(f, raw[i], total(f, raw)));
    assert(w[j] == quotient(f, raw[j], total(f, raw)));
    assert(!raw[i].nan() && !raw[j].nan());
    let place = |q: int| if ascending { (q + 1) as real } else { (k - q) as real };
    assert(val(raw[i]) == place(i));
    assert(val(raw[j]) == place(j));
}

/// Whether powers of a positive exponent keep the order of what is raised.
pub open spec fn powers_keep_order<F: Fn(Calculation) -> Num>(f: F, val: spec_fn(Num) -> real) -> bool {
    forall|a: Num, b: Num, p: Num| #![trigger power(f, a, p), power(f, b, p)]
        !power(f, a, p).nan() && !power(f, b, p).nan() && val(p) > 0 as real && 0 as real <= val(a) && val(a) <= val(b)
            ==> val(power(f, a, p)) <= val(power(f, b, p))
}

/// Whether exponentials keep order.
pub open spec fn exponentials_keep_order<F: Fn(Calculation) -> Num>(f: F, val: spec_fn(Num) -> real) -> bool {
    forall|a: Num, b: Num| #![trigger exponential(f, a), exponential(f, b)]
        !exponential(f, a).nan() && !exponential(f, b).nan() && val(a) <= val(b) ==> val(exponential(f, a)) <= val(
            exponential(f, b),
        )
}

/// A rising market puts the weight on the low levels and a falling one on the high
/// levels; without a direction all levels weigh the same. All weights make up one.
pub proof fn trend_weights_lean_with_the_trend<F: Fn(Calculation) -> Num>(
    f: F,
    val: spec_fn(Num) -> real,
    k: usize,
    direction: Num,
    strength: Num,
    i: int,
    j: int,
)
    requires
        exact(f, val),
        powers_keep_order(f, val),
        forall|q: int| 0 <= q < k ==> !(#[trigger] trend_weights(f, k, direction, strength)[q]).nan(),
        val(Num { bits: FOUR_BITS }) == 4 as real,
        val(total(f, Seq::new(k as nat, |q: int| trend_pull(f, k, direction, strength, q)))) > 0 as real,
        !direction.nan(),
        0 <= i < j < k,
    ensures
        ({
            let w = trend_weights(f, k, direction, strength);
            &&& val(direction) > 0 as real ==> val(w[i]) >= val(w[j])
            &&& val(direction) < 0 as real ==> val(w[i]) <= val(w[j])
            &&& val(direction) == 0 as real ==> val(w[i]) == val(w[j])
            &&& real_total(val, w) == 1 as real
        }),
{
    let raw = Seq::new(k as nat, |q: int| trend_pull(f, k, direction, strength, q));
    let w = trend_weights(f, k, direction, strength);
    let zero = Num { bits: 0 };
    let one = Num { bits: ONE_BITS };
    assert(w == shared_out(f, raw));
    shares_make_up_one(f, val, raw);
    assert(!w[i].nan() && !w[j].nan());
    let t = total(f, raw);
    assert(w[i] == quotient(f, raw[i], t));
    assert(w[j] == quotient(f, raw[j], t));
    assert(!raw[i].nan() && !raw[j].nan());
    assert(zero.key() <= direction.key() <==> val(zero) <= val(direction));
    assert(direction.key() <= zero.key() <==> val(direction) <= val(zero));
    let s = strength.held(zero, one);
    let x = product(f, s, Num { bits: FOUR_BITS });
    let p = sum(f, one, x);
    if zero.below(direction) || direction.below(zero) {
        assert(raw[i] == trend_pull(f, k, direction, strength, i));
        assert(raw[j] == trend_pull(f, k, direction, strength, j));
        assert(!p.nan()) by {
            if zero.below(direction) {
                let b = difference(f, count(f, k as int), count(f, i));
                assert(raw[i] == power(f, b, p));
                assert(raised(val(b), 0) == 1 as real);
            } else {
                let b = sum(f, count(f, i), one);
                assert(raw[i] == power(f, b, p));
                assert(raised(val(b), 0) == 1 as real);
            }
        }
        assert(!x.nan() && !s.nan());
        super::setup::lemma_within(val, strength, zero, one);
        assert(val(s) >= 0 as real);
        assert(val(p) > 0 as real);
    }
    if zero.below(direction) {
        let bi = difference(f, count(f, k as int), count(f, i));
        let bj = difference(f, count(f, k as int), count(f, j));
        assert(raw[i] == power(f, bi, p) && raw[j] == power(f, bj, p));
        assert(raised(val(bi), 0) == 1 as real && raised(val(bj), 0) == 1 as real);
        assert(!bi.nan() && !bj.nan());
        assert(val(bj) <= val(bi));
        assert(val(raw[j]) <= val(raw[i]));
        lemma_quotients(val(raw[j]), val(raw[i]), val(t));
    } else if direction.below(zero) {
        let bi = sum(f, count(f, i), one);
        let bj = sum(f, count(f, j), one);
        assert(raw[i] == power(f, bi, p) && raw[j] == power(f, bj, p));
        assert(raised(val(bi), 0) == 1 as real && raised(val(bj), 0) == 1 as real);
        assert(!bi.nan() && !bj.nan());
        assert(val(bi) <= val(bj));
        assert(val(raw[i]) <= val(raw[j]));
        lemma_quotients(val(raw[i]), val(raw[j]), val(t));
    } else {
        assert(raw[i] == one && raw[j] == one);
    }
}

proof fn lemma_quotients(a: real, b: real, t: real)
    requires
        a <= b,
        t > 0 as real,
    ensures
        a / t <= b / t,
{
    assert(a / t <= b / t) by (nonlinear_arith)
        requires
            a <= b,
            t > 0 as real,
    ;
}

/// Bell-shaped weights are heaviest in the middle: of two levels, the one nearer to the
/// middle of the grid weighs no less, and levels as far from it weigh the same.
pub proof fn normal_weights_peak_in_the_middle<F: Fn(Calculation) -> Num>(
    f: F,
    val: spec_fn(Num) -> real,
    k: usize,
    sharpness: Num,
    i: int,
    j: int,
)
    requires
        exact(f, val),
        exponentials_keep_order(f, val),
        val(Num { bits: MINUS_HALF_BITS }) < 0 as real,
        !sharpness.nan(),
        0 <= i < k,
        0 <= j < k,
        !bell(f, k, sharpness, i).nan(),
        !bell(f, k, sharpness, j).nan(),
        !exponent_at(f, k, sharpness, i).nan(),
        !exponent_at(f, k, sharpness, j).nan(),
        from_middle(k, i) <= from_middle(k, j),
        !normal_weights(f, k, sharpness)[i].nan(),
        !normal_weights(f, k, sharpness)[j].nan(),
    ensures
        val(normal_weights(f, k, sharpness)[i]) >= val(normal_weights(f, k, sharpness)[j]),
{
    let raw = Seq::new(k as nat, |q: int| bell(f, k, sharpness, q));
    let w = normal_weights(f, k, sharpness);
    let t = total(f, raw);
    let zero = Num { bits: 0 };
    lemma_exponent(f, val, k, sharpness, i);
    lemma_exponent(f, val, k, sharpness, j);
    let a = from_middle(k, i) as real;
    let b = from_middle(k, j) as real;
    let c = choose|c: real| c <= 0 as real && #[trigger] bends(f, val, k, sharpness, c);
    assert(val(exponent_at(f, k, sharpness, i)) == c * (a * a)) by {
        assert(bends(f, val, k, sharpness, c));
    }
    assert(val(exponent_at(f, k, sharpness, j)) == c * (b * b));
    assert(c * (b * b) <= c * (a * a)) by (nonlinear_arith)
        requires
            c <= 0 as real,
            0 as real <= a,
            a <= b,
    ;
    assert(bell(f, k, sharpness, i) == exponential(f, exponent_at(f, k, sharpness, i)));
    assert(bell(f, k, sharpness, j) == exponential(f, exponent_at(f, k, sharpness, j)));
    assert(val(raw[j]) <= val(raw[i]));
    if zero.below(t) {
        assert(w[i] == quotient(f, raw[i], t));
        assert(w[j] == quotient(f, raw[j], t));
        assert(t.key() <= zero.key() <==> val(t) <= val(zero));
        lemma_quotients(val(raw[j]), val(raw[i]), val(t));
    }
}

/// Twice how far level `j` of `k` lies from the middle.
pub open spec fn from_middle(k: usize, j: int) -> int {
    if 2 * j >= k - 1 {
        2 * j - (k - 1)
    } else {
        (k - 1) - 2 * j
    }
}

/// What the bell curve at a level is the exponential of.
pub open spec fn exponent_at<F: Fn(Calculation) -> Num>(f: F, k: usize, sharpness: Num, j: int) -> Num {
    let center = quotient(f, difference(f, count(f, k as int), Num { bits: ONE_BITS }), Num { bits: TWO_BITS });
    let deviation = quotient(f, count(f, k as int), sharpness.greater(Num { bits: ONE_BITS }));
    let z = quotient(f, difference(f, count(f, j), center), deviation);
    product(f, product(f, Num { bits: MINUS_HALF_BITS }, z), z)
}

/// Whether the exponents of a bell curve are `c` times the squared distance from the
/// middle.
spec fn bends<F: Fn(Calculation) -> Num>(f: F, val: spec_fn(Num) -> real, k: usize, sharpness: Num, c: real) -> bool {
    forall|j: int|
        0 <= j < k && !(#[trigger] exponent_at(f, k, sharpness, j)).nan() ==> val(exponent_at(f, k, sharpness, j)) == c * (
        from_middle(k, j) as real * from_middle(k, j) as real)
}

proof fn lemma_exponent<F: Fn(Calculation) -> Num>(f: F, val: spec_fn(Num) -> real, k: usize, sharpness: Num, i: int)
    requires
        exact(f, val),
        val(Num { bits: MINUS_HALF_BITS }) < 0 as real,
        0 <= i < k,
        !exponent_at(f, k, sharpness, i).nan(),
    ensures
        exists|c: real| c <= 0 as real && #[trigger] bends(f, val, k, sharpness, c),
{
    let one = Num { bits: ONE_BITS };
    let two = Num { bits: TWO_BITS };
    let less = difference(f, count(f, k as int), one);
    let center = quotient(f, less, two);
    let deviation = quotient(f, count(f, k as int), sharpness.greater(one));
    let m = val(Num { bits: MINUS_HALF_BITS });
    let d = val(deviation);
    let c = m / (4 as real * (d * d));
    let z0 = quotient(f, difference(f, count(f, i), center), deviation);
    assert(!product(f, Num { bits: MINUS_HALF_BITS }, z0).nan());
    assert(!z0.nan());
    assert(!deviation.nan() && d != 0 as real);
    assert(c <= 0 as real) by (nonlinear_arith)
        requires
            c == m / (4 as real * (d * d)),
            m < 0 as real,
            d != 0 as real,
    ;
    assert forall|j: int| 0 <= j < k && !(#[trigger] exponent_at(f, k, sharpness, j)).nan() implies val(
        exponent_at(f, k, sharpness, j),
    ) == c * (from_middle(k, j) as real * from_middle(k, j) as real) by {
        let off = difference(f, count(f, j), center);
        let z = quotient(f, off, deviation);
        assert(!product(f, Num { bits: MINUS_HALF_BITS }, z).nan());
        assert(!z.nan() && !off.nan() && !center.nan() && !less.nan() && !count(f, j).nan());
        let x = val(off);
        let y = from_middle(k, j) as real;
        assert(val(center) == (k as real - 1 as real) / 2 as real);
        assert(2 as real * x == 2 as real * j as real - (k as real - 1 as real));
        assert((2 as real * x) * (2 as real * x) == y * y) by (nonlinear_arith)
            requires
                2 as real * x == y || 2 as real * x == -y,
        ;
        assert((m * (x / d)) * (x / d) == c * ((2 as real * x) * (2 as real * x))) by (nonlinear_arith)
            requires
                c == m / (4 as real * (d * d)),
                d != 0 as real,
        ;
    }
    assert(bends(f, val, k, sharpness, c));
}

} // verus!
