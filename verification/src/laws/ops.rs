//! What the operators of a genome compute.
use vstd::prelude::*;

use crate::exact::raised;
use crate::graph::compile::Op;
use crate::graph::meaning::{
    column, computed, constant, dot, ema_weights, entries, greater_of, greatest, joined, kinds_are_told_apart, least,
    lemma_dot_not_negative, lemma_dot_of_band, lemma_dot_picks, lemma_dot_positive, lemma_greatest, lemma_least,
    lemma_row_times_column, lesser_of, row, sma_weights, solves_inits, solves_nodes, sum_between, wilder_weights,
    Sense, Tensor,
};
use crate::graph::onnx::InitView;
use crate::graph::ops::{named, Atr, Concat, DonchianHigh, DonchianLow, Ema, Last, Ma, Roc, Rsi};

verus! {

/// Whether a tensor is one row of a window's length.
pub open spec fn is_series(t: Tensor, ws: int) -> bool {
    t == row(t.data) && t.data.len() == ws
}

/// Whether a tensor is one entry.
pub open spec fn is_one(t: Tensor) -> bool {
    t == row(t.data) && t.data.len() == 1
}

/// How far each close rose above the one before; nothing where it fell.
pub open spec fn rises(close: Seq<real>, before: Seq<real>) -> Seq<real> {
    Seq::new(
        close.len(),
        |i: int|
            if close[i] > before[i] {
                close[i] - before[i]
            } else {
                0 as real
            },
    )
}

/// The true range of each candle: from the lower of its low and the close before to the
/// higher of its high and the close before.
pub open spec fn true_ranges(high: Seq<real>, low: Seq<real>, before: Seq<real>) -> Seq<real> {
    Seq::new(high.len(), |i: int| greater_of(high[i], before[i]) - lesser_of(low[i], before[i]))
}

/// The rows of tensors, side by side.
pub open spec fn side_by_side(xs: Seq<Tensor>, n: nat) -> Seq<real>
    decreases n,
{
    if n == 0 {
        Seq::empty()
    } else {
        side_by_side(xs, (n - 1) as nat) + xs[n - 1].data
    }
}

/// Whether `y` comes of `a` and `b` entry by entry.
pub open spec fn entrywise(y: Tensor, a: Tensor, b: Tensor, holds: spec_fn(real, real, real) -> bool) -> bool {
    &&& y.rows == a.rows && y.cols == a.cols && y.data.len() == a.data.len()
    &&& forall|i: int| 0 <= i < a.data.len() ==> holds(#[trigger] y.data[i], a.data[i], b.data[i])
}

/// Whether an operator over windows of length `ws` makes `y` of the tensors `xs`.
///
/// The last entry; the change from the entry `period` steps before it as a part of that
/// entry; the mean of the last `period` entries; the exponential average; the relative
/// strength, which is the part of all moves that went up, one where every close rose
/// and zero where every close fell; the exponential average of the true ranges; the
/// highest and the lowest of the last `period` entries of prices; and the plain
/// operations, entry by entry.
pub open spec fn means(sense: Sense, op: Op, ws: int, xs: Seq<Tensor>, y: Tensor) -> bool {
    let a = xs[0];
    let b = xs[1];
    let c = xs[2];
    match op {
        Op::Last(_) => ws > 0 && is_series(a, ws) ==> is_one(y) && y.data[0] == a.data[ws - 1],
        Op::Roc(o) => o.period < ws && is_series(a, ws) && a.data[ws - 1 - o.period] != 0 as real ==> is_one(y) && y.data[0]
            * a.data[ws - 1 - o.period] == a.data[ws - 1] - a.data[ws - 1 - o.period],
        Op::Ema(o) => is_series(a, ws) ==> is_one(y) && y.data[0] == dot(a.data, ema_weights(ws, o.period), ws as nat),
        Op::Ma(o) => 0 < o.period <= ws && is_series(a, ws) ==> is_one(y) && y.data[0] * o.period as real == sum_between(
            a.data,
            ws - o.period,
            ws,
        ),
        Op::Rsi(o) => o.period > 0 && ws > 1 && is_series(a, ws) && is_series(b, ws) ==> {
            let w = wilder_weights(ws, o.period);
            let up = dot(rises(a.data, b.data), w, ws as nat);
            let down = dot(rises(b.data, a.data), w, ws as nat);
            &&& is_one(y)
            &&& up >= 0 as real && down >= 0 as real
            &&& up + down != 0 as real ==> y.data[0] * (up + down) == up && y.data[0] >= 0 as real && y.data[0] <= 1 as real
            &&& (forall|i: int| 0 < i < ws ==> #[trigger] a.data[i] > b.data[i]) ==> y.data[0] == 1 as real
            &&& (forall|i: int| 0 < i < ws ==> #[trigger] a.data[i] < b.data[i]) ==> y.data[0] == 0 as real
        },
        Op::Atr(o) => is_series(a, ws) && is_series(b, ws) && is_series(c, ws) && (forall|i: int|
            0 <= i < ws ==> #[trigger] b.data[i] <= a.data[i]) ==> is_one(y) && y.data[0] == dot(
            true_ranges(a.data, b.data, c.data),
            ema_weights(ws, o.period),
            ws as nat,
        ),
        Op::DonchianHigh(o) => o.period > 0 && ws > 0 && is_series(a, ws) && (forall|i: int|
            0 <= i < ws ==> #[trigger] a.data[i] >= 0 as real) ==> {
            &&& is_one(y)
            &&& forall|i: int| 0 <= i < ws && ws - o.period <= i ==> #[trigger] a.data[i] <= y.data[0]
            &&& exists|i: int| 0 <= i < ws && ws - o.period <= i && #[trigger] a.data[i] == y.data[0]
        },
        Op::DonchianLow(o) => o.period > 0 && ws > 0 && is_series(a, ws) && (forall|i: int|
            0 <= i < ws ==> 0 as real <= #[trigger] a.data[i] && a.data[i] <= 1_000_000_000 as real) ==> {
            &&& is_one(y)
            &&& forall|i: int| 0 <= i < ws && ws - o.period <= i ==> #[trigger] a.data[i] >= y.data[0]
            &&& exists|i: int| 0 <= i < ws && ws - o.period <= i && #[trigger] a.data[i] == y.data[0]
        },
        Op::Concat(_) => y == row(side_by_side(xs, xs.len())),
        Op::Head(_) => true,
        Op::Add(_) => entrywise(y, a, b, |r: real, p: real, q: real| r == p + q),
        Op::Sub(_) => entrywise(y, a, b, |r: real, p: real, q: real| r + q == p),
        Op::Mul(_) => entrywise(y, a, b, |r: real, p: real, q: real| r == p * q),
        Op::Div(_) => entrywise(y, a, b, |r: real, p: real, q: real| q != 0 as real ==> r * q == p),
        Op::Max(_) => entrywise(y, a, b, |r: real, p: real, q: real| r >= p && r >= q && (r == p || r == q)),
        Op::Min(_) => entrywise(y, a, b, |r: real, p: real, q: real| r <= p && r <= q && (r == p || r == q)),
        Op::Abs(_) => entrywise(y, a, a, |r: real, p: real, q: real| r >= 0 as real && (r == p || r + p == 0 as real)),
        Op::Neg(_) => entrywise(y, a, a, |r: real, p: real, q: real| r + p == 0 as real),
        Op::Sigmoid(_) => entrywise(y, a, a, |r: real, p: real, q: real| r == (sense.squash)(p)),
    }
}

pub proof fn lemma_divided(x: real, a: real, b: real)
    requires
        x == a / b,
        b != 0 as real,
    ensures
        x * b == a,
{
    assert(x * b == a) by (nonlinear_arith)
        requires
            x == a / b,
            b != 0 as real,
    ;
}

/// A constant of one column over a window.
pub proof fn lemma_weights(sense: Sense, inits: Seq<InitView>, v: spec_fn(Seq<char>) -> Tensor, i: int, ws: int)
    requires
        solves_inits(sense, inits, v),
        0 <= i < inits.len(),
        inits[i].dims == seq![ws as i64, 1i64],
        0 <= ws <= i64::MAX,
    ensures
        v(inits[i].name) == (Tensor { rows: ws, cols: 1, data: entries(sense, inits[i].data, ws) }),
{
}

proof fn lemma_last(sense: Sense, o: Last, ws: int, x: Seq<Seq<char>>, out: Seq<char>, v: spec_fn(Seq<char>) -> Tensor)
    requires
        solves_inits(sense, o.inits(ws, out), v),
        solves_nodes(sense, o.nodes(x, out), v),
        0 < ws <= i64::MAX,
        is_series(v(x[0]), ws),
    ensures
        is_one(v(out)),
        v(out).data[0] == v(x[0]).data[ws - 1],
{
    kinds_are_told_apart();
    let inits = o.inits(ws, out);
    let nodes = o.nodes(x, out);
    let a = v(x[0]).data;
    lemma_weights(sense, inits, v, 0, ws);
    let w = entries(sense, inits[0].data, ws);
    assert(v(nodes[0].output[0]) == computed(sense, nodes[0], v));
    lemma_row_times_column(sense, nodes[0], v, a, w);
    lemma_dot_picks(a, w, ws - 1, ws as nat);
}

proof fn lemma_roc(sense: Sense, o: Roc, ws: int, x: Seq<Seq<char>>, out: Seq<char>, v: spec_fn(Seq<char>) -> Tensor)
    requires
        solves_inits(sense, o.inits(ws, out), v),
        solves_nodes(sense, o.nodes(x, out), v),
        o.period < ws <= i64::MAX,
        is_series(v(x[0]), ws),
        v(x[0]).data[ws - 1 - o.period] != 0 as real,
    ensures
        is_one(v(out)),
        v(out).data[0] * v(x[0]).data[ws - 1 - o.period] == v(x[0]).data[ws - 1] - v(x[0]).data[ws - 1 - o.period],
{
    kinds_are_told_apart();
    let inits = o.inits(ws, out);
    let nodes = o.nodes(x, out);
    let a = v(x[0]).data;
    lemma_weights(sense, inits, v, 0, ws);
    lemma_weights(sense, inits, v, 1, ws);
    let w = entries(sense, inits[0].data, ws);
    let u = entries(sense, inits[1].data, ws);
    assert(v(nodes[0].output[0]) == computed(sense, nodes[0], v));
    assert(v(nodes[1].output[0]) == computed(sense, nodes[1], v));
    assert(v(nodes[2].output[0]) == computed(sense, nodes[2], v));
    assert(v(nodes[3].output[0]) == computed(sense, nodes[3], v));
    lemma_row_times_column(sense, nodes[0], v, a, w);
    lemma_row_times_column(sense, nodes[1], v, a, u);
    lemma_dot_picks(a, w, ws - 1, ws as nat);
    lemma_dot_picks(a, u, ws - 1 - o.period, ws as nat);
    let d = v(nodes[2].output[0]);
    assert(d.data[0] == a[ws - 1] - a[ws - 1 - o.period]);
    lemma_divided(v(out).data[0], d.data[0], a[ws - 1 - o.period]);
}

proof fn lemma_ema(sense: Sense, o: Ema, ws: int, x: Seq<Seq<char>>, out: Seq<char>, v: spec_fn(Seq<char>) -> Tensor)
    requires
        solves_inits(sense, o.inits(ws, out), v),
        solves_nodes(sense, o.nodes(x, out), v),
        0 <= ws <= i64::MAX,
        is_series(v(x[0]), ws),
    ensures
        is_one(v(out)),
        v(out).data[0] == dot(v(x[0]).data, ema_weights(ws, o.period), ws as nat),
{
    kinds_are_told_apart();
    let inits = o.inits(ws, out);
    let nodes = o.nodes(x, out);
    lemma_weights(sense, inits, v, 0, ws);
    assert(v(nodes[0].output[0]) == computed(sense, nodes[0], v));
    lemma_row_times_column(sense, nodes[0], v, v(x[0]).data, ema_weights(ws, o.period));
}

proof fn lemma_ma(sense: Sense, o: Ma, ws: int, x: Seq<Seq<char>>, out: Seq<char>, v: spec_fn(Seq<char>) -> Tensor)
    requires
        solves_inits(sense, o.inits(ws, out), v),
        solves_nodes(sense, o.nodes(x, out), v),
        0 < o.period <= ws <= i64::MAX,
        is_series(v(x[0]), ws),
    ensures
        is_one(v(out)),
        v(out).data[0] * o.period as real == sum_between(v(x[0]).data, ws - o.period, ws),
{
    kinds_are_told_apart();
    let inits = o.inits(ws, out);
    let nodes = o.nodes(x, out);
    let a = v(x[0]).data;
    let w = sma_weights(ws, o.period);
    lemma_weights(sense, inits, v, 0, ws);
    assert(v(nodes[0].output[0]) == computed(sense, nodes[0], v));
    lemma_row_times_column(sense, nodes[0], v, a, w);
    lemma_mean_of_last(a, ws, o.period);
}

/// The simple average of a window is the mean of its last entries.
pub proof fn lemma_mean_of_last(a: Seq<real>, ws: int, period: usize)
    requires
        0 < period <= ws,
        a.len() == ws,
    ensures
        dot(a, sma_weights(ws, period), ws as nat) * period as real == sum_between(a, ws - period, ws),
{
    let c = 1 as real / period as real;
    let s = sum_between(a, ws - period, ws);
    let p = period as real;
    lemma_dot_of_band(a, sma_weights(ws, period), ws - period, c, ws as nat);
    assert((c * s) * p == s) by (nonlinear_arith)
        requires
            c == 1 as real / p,
            p > 0 as real,
    ;
}

/// A power of a number that is not negative is not negative.
pub proof fn lemma_raised(x: real, n: nat)
    requires
        x >= 0 as real,
    ensures
        raised(x, n) >= 0 as real,
    decreases n,
{
    if n > 0 {
        lemma_raised(x, (n - 1) as nat);
        let r = raised(x, (n - 1) as nat);
        assert(x * r >= 0 as real) by (nonlinear_arith)
            requires
                x >= 0 as real,
                r >= 0 as real,
        ;
    }
}

/// The weights of Wilder's average are not negative, and the newest move has some.
pub proof fn lemma_wilder_weights(ws: int, period: usize)
    requires
        ws > 1,
        period > 0,
    ensures
        forall|i: int| 0 <= i < ws ==> #[trigger] wilder_weights(ws, period)[i] >= 0 as real,
        wilder_weights(ws, period)[ws - 1] > 0 as real,
{
    let w = wilder_weights(ws, period);
    let p = period as real;
    let k = 1 as real / p;
    let n = ws - 1;
    assert(k > 0 as real && k <= 1 as real) by (nonlinear_arith)
        requires
            k == 1 as real / p,
            p >= 1 as real,
    ;
    let m = n as real;
    assert(1 as real / m > 0 as real) by (nonlinear_arith)
        requires
            m >= 1 as real,
    ;
    assert forall|i: int| 0 <= i < ws implies #[trigger] w[i] >= 0 as real by {
        if n > period && i > 0 {
            let age = if i <= period { (n - period) as nat } else { (n - i) as nat };
            lemma_raised(1 as real - k, age);
            let r = raised(1 as real - k, age);
            assert(k * r >= 0 as real) by (nonlinear_arith)
                requires
                    k > 0 as real,
                    r >= 0 as real,
            ;
        }
    }
    if n > period {
        assert(w[ws - 1] == k * raised(1 as real - k, 0));
        assert(k * 1 as real == k) by (nonlinear_arith);
    }
}

/// What the relative strength is, given the weighted moves up and down.
pub proof fn lemma_strength(close: Seq<real>, before: Seq<real>, ws: int, period: usize, r: real)
    requires
        ws > 1,
        period > 0,
        close.len() == ws,
        before.len() == ws,
        ({
            let w = wilder_weights(ws, period);
            let up = dot(rises(close, before), w, ws as nat);
            let down = dot(rises(before, close), w, ws as nat);
            r == up / (up + down)
        }),
    ensures
        ({
            let w = wilder_weights(ws, period);
            let up = dot(rises(close, before), w, ws as nat);
            let down = dot(rises(before, close), w, ws as nat);
            &&& up >= 0 as real && down >= 0 as real
            &&& up + down != 0 as real ==> r * (up + down) == up && r >= 0 as real && r <= 1 as real
            &&& (forall|i: int| 0 < i < ws ==> #[trigger] close[i] > before[i]) ==> r == 1 as real
            &&& (forall|i: int| 0 < i < ws ==> #[trigger] close[i] < before[i]) ==> r == 0 as real
        }),
{
    let w = wilder_weights(ws, period);
    let ups = rises(close, before);
    let downs = rises(before, close);
    let up = dot(ups, w, ws as nat);
    let down = dot(downs, w, ws as nat);
    lemma_wilder_weights(ws, period);
    lemma_dot_not_negative(ups, w, ws as nat);
    lemma_dot_not_negative(downs, w, ws as nat);
    if up + down != 0 as real {
        let s = up + down;
        lemma_divided(r, up, s);
        assert(r >= 0 as real && r <= 1 as real) by (nonlinear_arith)
            requires
                r * s == up,
                up >= 0 as real,
                up <= s,
                s > 0 as real,
        ;
    }
    if forall|i: int| 0 < i < ws ==> #[trigger] close[i] > before[i] {
        assert(close[ws - 1] > before[ws - 1]);
        lemma_dot_positive(ups, w, ws - 1, ws as nat);
        lemma_first_is_no_move(downs, w, ws);
        assert(r == 1 as real) by (nonlinear_arith)
            requires
                r * (up + down) == up,
                down == 0 as real,
                up > 0 as real,
        ;
    }
    if forall|i: int| 0 < i < ws ==> #[trigger] close[i] < before[i] {
        assert(close[ws - 1] < before[ws - 1]);
        lemma_dot_positive(downs, w, ws - 1, ws as nat);
        lemma_first_is_no_move(ups, w, ws);
        assert(r == 0 as real) by (nonlinear_arith)
            requires
                r * (up + down) == up,
                up == 0 as real,
                down > 0 as real,
        ;
    }
}

/// Moves that are nothing but the first weigh nothing.
proof fn lemma_first_is_no_move(moves: Seq<real>, w: Seq<real>, n: int)
    requires
        n > 0,
        w[0] == 0 as real,
        forall|i: int| 0 < i < n ==> #[trigger] moves[i] == 0 as real,
    ensures
        dot(moves, w, n as nat) == 0 as real,
    decreases n,
{
    let x = moves[n - 1];
    let y = w[n - 1];
    assert(x * y == 0 as real) by (nonlinear_arith)
        requires
            x == 0 as real || y == 0 as real,
    ;
    if n > 1 {
        lemma_first_is_no_move(moves, w, n - 1);
    } else {
        assert(dot(moves, w, 0) == 0 as real);
    }
}

proof fn lemma_rsi(sense: Sense, o: Rsi, ws: int, x: Seq<Seq<char>>, out: Seq<char>, v: spec_fn(Seq<char>) -> Tensor)
    requires
        solves_inits(sense, o.inits(ws, out), v),
        solves_nodes(sense, o.nodes(x, out), v),
        1 < ws <= i64::MAX,
        o.period > 0,
        is_series(v(x[0]), ws),
        is_series(v(x[1]), ws),
    ensures
        is_one(v(out)),
        ({
            let w = wilder_weights(ws, o.period);
            let up = dot(rises(v(x[0]).data, v(x[1]).data), w, ws as nat);
            let down = dot(rises(v(x[1]).data, v(x[0]).data), w, ws as nat);
            v(out).data[0] == up / (up + down)
        }),
{
    kinds_are_told_apart();
    let inits = o.inits(ws, out);
    let nodes = o.nodes(x, out);
    let a = v(x[0]).data;
    let b = v(x[1]).data;
    let w = wilder_weights(ws, o.period);
    lemma_weights(sense, inits, v, 0, ws);
    assert(v(inits[1].name) == constant(sense, inits[1]));
    assert forall|i: int| 0 <= i < 8 implies v((#[trigger] nodes[i]).output[0]) == computed(sense, nodes[i], v) by {}
    assert(v(nodes[0].output[0]) == computed(sense, nodes[0], v));
    let d = v(named("rsi_diff_", out));
    assert(d.data =~= Seq::new(ws as nat, |i: int| a[i] - b[i]));
    assert(v(nodes[1].output[0]) == computed(sense, nodes[1], v));
    let up = v(named("rsi_gains_", out));
    assert(up.data =~= rises(a, b));
    assert(v(nodes[2].output[0]) == computed(sense, nodes[2], v));
    assert(v(nodes[3].output[0]) == computed(sense, nodes[3], v));
    let down = v(named("rsi_loss_", out));
    assert(down.data =~= rises(b, a));
    assert(v(nodes[4].output[0]) == computed(sense, nodes[4], v));
    lemma_row_times_column(sense, nodes[4], v, rises(a, b), w);
    assert(v(nodes[5].output[0]) == computed(sense, nodes[5], v));
    lemma_row_times_column(sense, nodes[5], v, rises(b, a), w);
    assert(v(nodes[6].output[0]) == computed(sense, nodes[6], v));
    assert(v(nodes[7].output[0]) == computed(sense, nodes[7], v));
}

proof fn lemma_atr(sense: Sense, o: Atr, ws: int, x: Seq<Seq<char>>, out: Seq<char>, v: spec_fn(Seq<char>) -> Tensor)
    requires
        solves_inits(sense, o.inits(ws, out), v),
        solves_nodes(sense, o.nodes(x, out), v),
        0 <= ws <= i64::MAX,
        is_series(v(x[0]), ws),
        is_series(v(x[1]), ws),
        is_series(v(x[2]), ws),
        forall|i: int| 0 <= i < ws ==> #[trigger] v(x[1]).data[i] <= v(x[0]).data[i],
    ensures
        is_one(v(out)),
        v(out).data[0] == dot(
            true_ranges(v(x[0]).data, v(x[1]).data, v(x[2]).data),
            ema_weights(ws, o.period),
            ws as nat,
        ),
{
    kinds_are_told_apart();
    let inits = o.inits(ws, out);
    let nodes = o.nodes(x, out);
    let h = v(x[0]).data;
    let l = v(x[1]).data;
    let p = v(x[2]).data;
    lemma_weights(sense, inits, v, 0, ws);
    assert(v(nodes[0].output[0]) == computed(sense, nodes[0], v));
    assert(v(nodes[1].output[0]) == computed(sense, nodes[1], v));
    assert(v(nodes[2].output[0]) == computed(sense, nodes[2], v));
    assert(v(nodes[3].output[0]) == computed(sense, nodes[3], v));
    assert(v(nodes[4].output[0]) == computed(sense, nodes[4], v));
    assert(v(nodes[5].output[0]) == computed(sense, nodes[5], v));
    assert(v(nodes[6].output[0]) == computed(sense, nodes[6], v));
    let tr = v(named("atr_tr_", out));
    assert forall|i: int| 0 <= i < ws implies #[trigger] tr.data[i] == true_ranges(h, l, p)[i] by {
        assert(l[i] <= h[i]);
    }
    assert(tr.data =~= true_ranges(h, l, p));
    assert(v(nodes[7].output[0]) == computed(sense, nodes[7], v));
    lemma_row_times_column(sense, nodes[7], v, true_ranges(h, l, p), ema_weights(ws, o.period));
}

proof fn lemma_donchian_high(
    sense: Sense,
    o: DonchianHigh,
    ws: int,
    x: Seq<Seq<char>>,
    out: Seq<char>,
    v: spec_fn(Seq<char>) -> Tensor,
)
    requires
        solves_inits(sense, o.inits(ws, out), v),
        solves_nodes(sense, o.nodes(x, out), v),
        0 < ws <= i64::MAX,
        o.period > 0,
        is_series(v(x[0]), ws),
        forall|i: int| 0 <= i < ws ==> #[trigger] v(x[0]).data[i] >= 0 as real,
    ensures
        is_one(v(out)),
        forall|i: int| 0 <= i < ws && ws - o.period <= i ==> #[trigger] v(x[0]).data[i] <= v(out).data[0],
        exists|i: int| 0 <= i < ws && ws - o.period <= i && #[trigger] v(x[0]).data[i] == v(out).data[0],
{
    kinds_are_told_apart();
    let inits = o.inits(ws, out);
    let nodes = o.nodes(x, out);
    let a = v(x[0]).data;
    assert(v(inits[0].name) == constant(sense, inits[0]));
    assert(v(nodes[0].output[0]) == computed(sense, nodes[0], v));
    assert(v(nodes[1].output[0]) == computed(sense, nodes[1], v));
    let m = v(named("mhm_", out)).data;
    assert forall|i: int| 0 <= i < ws implies #[trigger] m[i] == (if ws - o.period <= i { a[i] } else { 0 as real }) by {
        let y = a[i];
        assert(y * 1 as real == y) by (nonlinear_arith);
        assert(y * 0 as real == 0 as real) by (nonlinear_arith);
    }
    assert(m.len() == ws);
    lemma_greatest(m, ws as nat);
    let r = v(out).data[0];
    assert(r == greatest(m, ws as nat));
    assert forall|i: int| 0 <= i < ws && ws - o.period <= i implies #[trigger] a[i] <= r by {
        assert(m[i] == a[i]);
    }
    let k = choose|i: int| 0 <= i < ws && #[trigger] m[i] == greatest(m, ws as nat);
    if ws - o.period <= k {
        assert(a[k] == r);
    } else {
        assert(m[ws - 1] == a[ws - 1]);
        assert(a[ws - 1] == r);
    }
}

proof fn lemma_donchian_low(
    sense: Sense,
    o: DonchianLow,
    ws: int,
    x: Seq<Seq<char>>,
    out: Seq<char>,
    v: spec_fn(Seq<char>) -> Tensor,
)
    requires
        solves_inits(sense, o.inits(ws, out), v),
        solves_nodes(sense, o.nodes(x, out), v),
        0 < ws <= i64::MAX,
        o.period > 0,
        is_series(v(x[0]), ws),
        forall|i: int| 0 <= i < ws ==> 0 as real <= #[trigger] v(x[0]).data[i] && v(x[0]).data[i] <= 1_000_000_000 as real,
    ensures
        is_one(v(out)),
        forall|i: int| 0 <= i < ws && ws - o.period <= i ==> #[trigger] v(x[0]).data[i] >= v(out).data[0],
        exists|i: int| 0 <= i < ws && ws - o.period <= i && #[trigger] v(x[0]).data[i] == v(out).data[0],
{
    kinds_are_told_apart();
    let inits = o.inits(ws, out);
    let nodes = o.nodes(x, out);
    let a = v(x[0]).data;
    assert(v(inits[0].name) == constant(sense, inits[0]));
    assert(v(nodes[0].output[0]) == computed(sense, nodes[0], v));
    assert(v(nodes[1].output[0]) == computed(sense, nodes[1], v));
    let m = v(named("mlm_", out)).data;
    assert forall|i: int| 0 <= i < ws implies #[trigger] m[i] == (if ws - o.period <= i {
        a[i]
    } else {
        a[i] + 1_000_000_000 as real
    }) by {
    }
    assert(m.len() == ws);
    lemma_least(m, ws as nat);
    let r = v(out).data[0];
    assert(r == least(m, ws as nat));
    assert forall|i: int| 0 <= i < ws && ws - o.period <= i implies #[trigger] a[i] >= r by {
        assert(m[i] == a[i]);
    }
    let k = choose|i: int| 0 <= i < ws && #[trigger] m[i] == least(m, ws as nat);
    if ws - o.period <= k {
        assert(a[k] == r);
    } else {
        assert(m[ws - 1] == a[ws - 1]);
        assert(a[k] >= 0 as real);
        assert(a[ws - 1] == r);
    }
}

proof fn lemma_joined(v: spec_fn(Seq<char>) -> Tensor, x: Seq<Seq<char>>, n: nat)
    requires
        n <= x.len(),
    ensures
        joined(v, x, n) == side_by_side(Seq::new(x.len(), |j: int| v(x[j])), n),
    decreases n,
{
    if n > 0 {
        lemma_joined(v, x, (n - 1) as nat);
    }
}

/// Whatever graph the nodes of an operator stand in, what they compute is what the
/// operator means.
pub proof fn an_operator_computes_what_it_means(
    sense: Sense,
    op: Op,
    ws: int,
    x: Seq<Seq<char>>,
    out: Seq<char>,
    v: spec_fn(Seq<char>) -> Tensor,
)
    requires
        op !is Head,
        x.len() >= op.arity(),
        0 <= ws <= i64::MAX,
        solves_inits(sense, op.inits(ws, out), v),
        solves_nodes(sense, op.nodes(x, out), v),
    ensures
        means(sense, op, ws, Seq::new(x.len(), |j: int| v(x[j])), v(out)),
{
    kinds_are_told_apart();
    let xs = Seq::new(x.len(), |j: int| v(x[j]));
    let nodes = op.nodes(x, out);
    assert(nodes.len() > 0);
    assert(v(nodes[0].output[0]) == computed(sense, nodes[0], v));
    match op {
        Op::Last(o) => {
            if ws > 0 && is_series(v(x[0]), ws) {
                lemma_last(sense, o, ws, x, out, v);
            }
        },
        Op::Roc(o) => {
            if o.period < ws && is_series(v(x[0]), ws) && v(x[0]).data[ws - 1 - o.period] != 0 as real {
                lemma_roc(sense, o, ws, x, out, v);
            }
        },
        Op::Ema(o) => {
            if is_series(v(x[0]), ws) {
                lemma_ema(sense, o, ws, x, out, v);
            }
        },
        Op::Ma(o) => {
            if 0 < o.period <= ws && is_series(v(x[0]), ws) {
                lemma_ma(sense, o, ws, x, out, v);
            }
        },
        Op::Rsi(o) => {
            if o.period > 0 && ws > 1 && is_series(v(x[0]), ws) && is_series(v(x[1]), ws) {
                lemma_rsi(sense, o, ws, x, out, v);
                lemma_strength(v(x[0]).data, v(x[1]).data, ws, o.period, v(out).data[0]);
            }
        },
        Op::Atr(o) => {
            if is_series(xs[0], ws) && is_series(xs[1], ws) && is_series(xs[2], ws) && (forall|i: int|
                0 <= i < ws ==> #[trigger] xs[1].data[i] <= xs[0].data[i]) {
                lemma_atr(sense, o, ws, x, out, v);
            }
        },
        Op::DonchianHigh(o) => {
            if o.period > 0 && ws > 0 && is_series(xs[0], ws) && (forall|i: int|
                0 <= i < ws ==> #[trigger] xs[0].data[i] >= 0 as real) {
                lemma_donchian_high(sense, o, ws, x, out, v);
            }
        },
        Op::DonchianLow(o) => {
            if o.period > 0 && ws > 0 && is_series(xs[0], ws) && (forall|i: int|
                0 <= i < ws ==> 0 as real <= #[trigger] xs[0].data[i] && xs[0].data[i] <= 1_000_000_000 as real) {
                lemma_donchian_low(sense, o, ws, x, out, v);
            }
        },
        Op::Concat(_) => {
            lemma_joined(v, x, x.len());
        },
        Op::Div(_) => {
            let a = v(x[0]).data;
            let b = v(x[1]).data;
            let y = v(out).data;
            assert forall|i: int| 0 <= i < a.len() && b[i] != 0 as real implies #[trigger] y[i] * b[i] == a[i] by {
                lemma_divided(y[i], a[i], b[i]);
            }
        },
        _ => {},
    }
}

} // verus!
