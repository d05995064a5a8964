//! What the hand-written models compute.
use vstd::prelude::*;

use super::graph::{lemma_prediction, predicted};
use super::ops::{
    is_one, is_series, lemma_divided, lemma_mean_of_last, lemma_strength, lemma_weights, rises, true_ranges,
};
use crate::arith::{difference, logarithm, quotient, Calculation, ONE_BITS};
use crate::exact::exact;
use crate::graph::meaning::{
    computed, constant, dot, ema_weights, entries, greatest, joined, kinds_are_told_apart, least, lemma_dot_picks,
    lemma_greatest, lemma_least, lemma_row_times_column, row, sma_weights, solves_inits, solves_nodes, sum_between,
    wilder_weights, Sense, Tensor,
};
use crate::models::{
    before_last, first_output_weights, mean_reversion_graph, model_inputs, momentum_breakout_graph, sigmoid_inverse,
    trend_follower_graph, usual_biases, LARGEST_SINGLE, NUM_GRID_PARAMS, P05_BITS, P22_BITS, P35_BITS, P65_BITS, P78_BITS,
};
use crate::num::Num;

verus! {

/// Whether a valuation gives a model what it reads: four series of a window's length,
/// no low above its high, weights and biases.
pub open spec fn is_fed(v: spec_fn(Seq<char>) -> Tensor, ws: usize) -> bool {
    &&& is_series(v("closes"@), ws as int)
    &&& is_series(v("highs"@), ws as int)
    &&& is_series(v("lows"@), ws as int)
    &&& is_series(v("prev_closes"@), ws as int)
    &&& forall|i: int| 0 <= i < ws ==> #[trigger] v("lows"@).data[i] <= v("highs"@).data[i]
    &&& is_series(v("B_pred"@), NUM_GRID_PARAMS as int)
}

/// The exponential average of closes.
pub open spec fn ema(close: Seq<real>, period: usize) -> real {
    dot(close, ema_weights(close.len() as int, period), close.len())
}

/// The exponential average of the true ranges.
pub open spec fn average_true_range(high: Seq<real>, low: Seq<real>, before: Seq<real>, period: usize) -> real {
    dot(true_ranges(high, low, before), ema_weights(high.len() as int, period), high.len())
}

proof fn lemma_head_shape(v: spec_fn(Seq<char>) -> Tensor, sense: Sense, n_feat: int)
    requires
        v("reshape_shape"@) == constant(sense, crate::models::head_shape(n_feat)),
        0 <= n_feat <= 64,
    ensures
        v("reshape_shape"@).data == seq![n_feat as real, NUM_GRID_PARAMS as real],
{
    assert(v("reshape_shape"@).data =~= seq![n_feat as real, NUM_GRID_PARAMS as real]);
}

/// The trend follower predicts from four features: the fast exponential average of the
/// closes, the slow one, the average true range, and how far the fast average stands
/// above the slow one. It puts out the prediction and the average true range.
#[verifier::rlimit(60)]
pub proof fn the_trend_follower_follows_the_fast_average(
    sense: Sense,
    v: spec_fn(Seq<char>) -> Tensor,
    ema_fast_period: usize,
    ema_slow_period: usize,
    atr_period: usize,
    ws: usize,
)
    requires
        ws <= i64::MAX,
        solves_inits(sense, trend_follower_graph(ema_fast_period, ema_slow_period, atr_period, ws).initializer, v),
        solves_nodes(sense, trend_follower_graph(ema_fast_period, ema_slow_period, atr_period, ws).node, v),
        is_fed(v, ws),
    ensures
        ({
            let g = trend_follower_graph(ema_fast_period, ema_slow_period, atr_period, ws);
            let fast = ema(v("closes"@).data, ema_fast_period);
            let slow = ema(v("closes"@).data, ema_slow_period);
            let atr = average_true_range(v("highs"@).data, v("lows"@).data, v("prev_closes"@).data, atr_period);
            &&& g.output.len() == 2
            &&& v(g.output[0].name) == row(
                predicted(
                    sense,
                    4,
                    NUM_GRID_PARAMS as int,
                    seq![fast, slow, atr, fast - slow],
                    v("W_pred_flat"@).data,
                    v("B_pred"@).data,
                ),
            )
            &&& v(g.output[1].name) == row(seq![atr])
        }),
{
    kinds_are_told_apart();
    let g = trend_follower_graph(ema_fast_period, ema_slow_period, atr_period, ws);
    let c = v("closes"@).data;
    let h = v("highs"@).data;
    let l = v("lows"@).data;
    let p = v("prev_closes"@).data;
    lemma_weights(sense, g.initializer, v, 0, ws as int);
    lemma_weights(sense, g.initializer, v, 1, ws as int);
    lemma_weights(sense, g.initializer, v, 2, ws as int);
    assert(v(g.initializer[3].name) == constant(sense, g.initializer[3]));
    lemma_head_shape(v, sense, 4);
    assert(v(g.node[0].output[0]) == computed(sense, g.node[0], v));
    assert(v(g.node[1].output[0]) == computed(sense, g.node[1], v));
    assert(v(g.node[2].output[0]) == computed(sense, g.node[2], v));
    lemma_row_times_column(sense, g.node[1], v, c, ema_weights(ws as int, ema_fast_period));
    lemma_row_times_column(sense, g.node[2], v, c, ema_weights(ws as int, ema_slow_period));
    assert(v(g.node[3].output[0]) == computed(sense, g.node[3], v));
    assert(v(g.node[4].output[0]) == computed(sense, g.node[4], v));
    assert(v(g.node[5].output[0]) == computed(sense, g.node[5], v));
    assert(v(g.node[6].output[0]) == computed(sense, g.node[6], v));
    assert(v(g.node[7].output[0]) == computed(sense, g.node[7], v));
    assert(v(g.node[8].output[0]) == computed(sense, g.node[8], v));
    assert(v(g.node[9].output[0]) == computed(sense, g.node[9], v));
    assert(v(g.node[10].output[0]) == computed(sense, g.node[10], v));
    let tr = v("tr"@);
    assert forall|i: int| 0 <= i < ws implies #[trigger] tr.data[i] == true_ranges(h, l, p)[i] by {
        assert(l[i] <= h[i]);
    }
    assert(tr.data =~= true_ranges(h, l, p));
    lemma_row_times_column(sense, g.node[10], v, true_ranges(h, l, p), ema_weights(ws as int, atr_period));
    assert(v(g.node[11].output[0]) == computed(sense, g.node[11], v));
    assert(v(g.node[12].output[0]) == computed(sense, g.node[12], v));
    assert(v(g.node[13].output[0]) == computed(sense, g.node[13], v));
    assert(v(g.node[14].output[0]) == computed(sense, g.node[14], v));
    assert(v(g.node[15].output[0]) == computed(sense, g.node[15], v));
    let fast = ema(c, ema_fast_period);
    let slow = ema(c, ema_slow_period);
    let atr = average_true_range(h, l, p, atr_period);
    assert(v("diff"@).data =~= seq![fast - slow]);
    let names = g.node[12].input;
    assert(names == seq!["ema_fast"@, "ema_slow"@, "atr_val"@, "diff"@]);
    assert(joined(v, names, 0) =~= Seq::empty());
    assert(joined(v, names, 1) =~= seq![fast]);
    assert(joined(v, names, 2) =~= seq![fast, slow]);
    assert(joined(v, names, 3) =~= seq![fast, slow, atr]);
    assert(joined(v, names, 4) =~= seq![fast, slow, atr, fast - slow]);
    assert(v("features"@) == row(seq![fast, slow, atr, fast - slow]));
    lemma_prediction(sense, v, 4, NUM_GRID_PARAMS as int, g.node[0], g.node[13], g.node[14], g.node[15]);
}

/// The mean reversion model predicts from the mean of the last closes over the last
/// close, the relative strength (in parts of one, twice) and the average true range
/// over the last close. It puts out the prediction, the average true range and the mean.
/// The relative strength is one where every close rose above the one before and zero
/// where every close fell below it.
#[verifier::rlimit(80)]
pub proof fn mean_reversion_reads_the_mean_and_the_strength(
    sense: Sense,
    v: spec_fn(Seq<char>) -> Tensor,
    ma_period: usize,
    rsi_period: usize,
    atr_period: usize,
    ws: usize,
)
    requires
        1 < ws <= i64::MAX,
        0 < ma_period <= ws,
        0 < rsi_period,
        solves_inits(sense, mean_reversion_graph(ma_period, rsi_period, atr_period, ws).initializer, v),
        solves_nodes(sense, mean_reversion_graph(ma_period, rsi_period, atr_period, ws).node, v),
        is_fed(v, ws),
        v("closes"@).data[ws - 1] != 0 as real,
    ensures
        ({
            let g = mean_reversion_graph(ma_period, rsi_period, atr_period, ws);
            let c = v("closes"@).data;
            let p = v("prev_closes"@).data;
            let last = c[ws - 1];
            let w = wilder_weights(ws as int, rsi_period);
            let up = dot(rises(c, p), w, ws as nat);
            let down = dot(rises(p, c), w, ws as nat);
            let atr = average_true_range(v("highs"@).data, v("lows"@).data, p, atr_period);
            let features = v("features"@).data;
            &&& g.output.len() == 3
            &&& v(g.output[0].name) == row(
                predicted(sense, 4, NUM_GRID_PARAMS as int, features, v("W_pred_flat"@).data, v("B_pred"@).data),
            )
            &&& v(g.output[1].name) == row(seq![atr])
            &&& is_one(v(g.output[2].name))
            &&& v(g.output[2].name).data[0] * ma_period as real == sum_between(c, ws - ma_period, ws as int)
            &&& features.len() == 4
            &&& features[0] * last == v(g.output[2].name).data[0]
            &&& features[2] * last == atr
            &&& features[3] == features[1]
            &&& up >= 0 as real && down >= 0 as real
            &&& up + down != 0 as real ==> features[1] * (up + down) == up
            &&& (forall|i: int| 0 < i < ws ==> #[trigger] c[i] > p[i]) ==> features[1] == 1 as real
            &&& (forall|i: int| 0 < i < ws ==> #[trigger] c[i] < p[i]) ==> features[1] == 0 as real
        }),
{
    kinds_are_told_apart();
    let g = mean_reversion_graph(ma_period, rsi_period, atr_period, ws);
    let c = v("closes"@).data;
    let h = v("highs"@).data;
    let l = v("lows"@).data;
    let p = v("prev_closes"@).data;
    let last = c[ws - 1];
    lemma_weights(sense, g.initializer, v, 0, ws as int);
    lemma_weights(sense, g.initializer, v, 1, ws as int);
    lemma_weights(sense, g.initializer, v, 2, ws as int);
    lemma_weights(sense, g.initializer, v, 3, ws as int);
    assert(v(g.initializer[4].name) == constant(sense, g.initializer[4]));
    assert(v(g.initializer[5].name) == constant(sense, g.initializer[5]));
    assert(v(g.initializer[6].name) == constant(sense, g.initializer[6]));
    lemma_head_shape(v, sense, 4);
    assert(v("hundred"@).data =~= seq![100 as real]);
    assert(v(g.node[0].output[0]) == computed(sense, g.node[0], v));
    assert(v(g.node[1].output[0]) == computed(sense, g.node[1], v));
    assert(v(g.node[2].output[0]) == computed(sense, g.node[2], v));
    lemma_row_times_column(sense, g.node[1], v, c, sma_weights(ws as int, ma_period));
    lemma_mean_of_last(c, ws as int, ma_period);
    let pick = entries(sense, g.initializer[3].data, ws as int);
    lemma_row_times_column(sense, g.node[2], v, c, pick);
    lemma_dot_picks(c, pick, ws - 1, ws as nat);
    assert(v("last_close"@) == row(seq![last]));
    assert(v(g.node[3].output[0]) == computed(sense, g.node[3], v));
    assert(v(g.node[4].output[0]) == computed(sense, g.node[4], v));
    assert(v(g.node[5].output[0]) == computed(sense, g.node[5], v));
    assert(v(g.node[6].output[0]) == computed(sense, g.node[6], v));
    let w = wilder_weights(ws as int, rsi_period);
    assert(v("diffs"@).data =~= Seq::new(ws as nat, |i: int| c[i] - p[i]));
    assert(v("gains"@).data =~= rises(c, p));
    assert(v("losses"@).data =~= rises(p, c));
    assert(v(g.node[7].output[0]) == computed(sense, g.node[7], v));
    assert(v(g.node[8].output[0]) == computed(sense, g.node[8], v));
    assert(v(g.node[9].output[0]) == computed(sense, g.node[9], v));
    assert(v(g.node[10].output[0]) == computed(sense, g.node[10], v));
    assert(v(g.node[11].output[0]) == computed(sense, g.node[11], v));
    lemma_row_times_column(sense, g.node[7], v, rises(c, p), w);
    lemma_row_times_column(sense, g.node[8], v, rises(p, c), w);
    let up = dot(rises(c, p), w, ws as nat);
    let down = dot(rises(p, c), w, ws as nat);
    let strength = up / (up + down);
    assert(v("rsi_raw"@).data =~= seq![strength]);
    lemma_strength(c, p, ws as int, rsi_period, strength);
    assert(v(g.node[12].output[0]) == computed(sense, g.node[12], v));
    assert(v(g.node[13].output[0]) == computed(sense, g.node[13], v));
    assert(v(g.node[14].output[0]) == computed(sense, g.node[14], v));
    assert(v(g.node[15].output[0]) == computed(sense, g.node[15], v));
    assert(v(g.node[16].output[0]) == computed(sense, g.node[16], v));
    assert(v(g.node[17].output[0]) == computed(sense, g.node[17], v));
    assert(v(g.node[18].output[0]) == computed(sense, g.node[18], v));
    assert(v(g.node[19].output[0]) == computed(sense, g.node[19], v));
    let tr = v("tr"@);
    assert forall|i: int| 0 <= i < ws implies #[trigger] tr.data[i] == true_ranges(h, l, p)[i] by {
        assert(l[i] <= h[i]);
    }
    assert(tr.data =~= true_ranges(h, l, p));
    lemma_row_times_column(sense, g.node[19], v, true_ranges(h, l, p), ema_weights(ws as int, atr_period));
    assert(v(g.node[20].output[0]) == computed(sense, g.node[20], v));
    assert(v(g.node[21].output[0]) == computed(sense, g.node[21], v));
    assert(v(g.node[22].output[0]) == computed(sense, g.node[22], v));
    assert(v(g.node[23].output[0]) == computed(sense, g.node[23], v));
    assert(v(g.node[24].output[0]) == computed(sense, g.node[24], v));
    assert(v(g.node[25].output[0]) == computed(sense, g.node[25], v));
    assert(v(g.node[26].output[0]) == computed(sense, g.node[26], v));
    let mean = dot(c, sma_weights(ws as int, ma_period), ws as nat);
    let atr = average_true_range(h, l, p, atr_period);
    assert((strength * 100 as real) / 100 as real == strength) by (nonlinear_arith);
    assert(v("sma_ratio"@).data =~= seq![mean / last]);
    assert(v("rsi_norm"@).data =~= seq![strength]);
    assert(v("atr_norm"@).data =~= seq![atr / last]);
    lemma_divided(mean / last, mean, last);
    lemma_divided(atr / last, atr, last);
    let names = g.node[23].input;
    assert(names == seq!["sma_ratio"@, "rsi_norm"@, "atr_norm"@, "rsi_norm"@]);
    assert(joined(v, names, 0) =~= Seq::empty());
    assert(joined(v, names, 1) =~= seq![mean / last]);
    assert(joined(v, names, 2) =~= seq![mean / last, strength]);
    assert(joined(v, names, 3) =~= seq![mean / last, strength, atr / last]);
    assert(joined(v, names, 4) =~= seq![mean / last, strength, atr / last, strength]);
    lemma_prediction(sense, v, 4, NUM_GRID_PARAMS as int, g.node[0], g.node[24], g.node[25], g.node[26]);
}

/// The momentum breakout model predicts from the change of the close over its period,
/// as a part of the close before, and the average true range over the last close. It
/// puts out the prediction, the average true range, the highest high and the lowest low
/// of the candles before the last one, and the change.
#[verifier::rlimit(80)]
pub proof fn momentum_breakout_reads_the_channel_and_the_change(
    sense: Sense,
    v: spec_fn(Seq<char>) -> Tensor,
    donchian_period: usize,
    momentum_period: usize,
    atr_period: usize,
    ws: usize,
    weights: Seq<Num>,
    biases: Seq<Num>,
)
    requires
        1 < ws <= i64::MAX,
        0 < donchian_period < usize::MAX,
        momentum_period < ws,
        solves_inits(
            sense,
            momentum_breakout_graph(donchian_period, momentum_period, atr_period, ws, weights, biases).initializer,
            v,
        ),
        solves_nodes(
            sense,
            momentum_breakout_graph(donchian_period, momentum_period, atr_period, ws, weights, biases).node,
            v,
        ),
        is_fed(v, ws),
        v("closes"@).data[ws - 1] != 0 as real,
        v("closes"@).data[ws - 1 - momentum_period] != 0 as real,
        (sense.single)(0) == 0 as real,
        forall|i: int|
            0 <= i < ws ==> 0 as real <= #[trigger] v("lows"@).data[i] && v("lows"@).data[i] <= (sense.single)(LARGEST_SINGLE),
    ensures
        ({
            let g = momentum_breakout_graph(donchian_period, momentum_period, atr_period, ws, weights, biases);
            let c = v("closes"@).data;
            let h = v("highs"@).data;
            let l = v("lows"@).data;
            let last = c[ws - 1];
            let ago = c[ws - 1 - momentum_period];
            let atr = average_true_range(h, l, v("prev_closes"@).data, atr_period);
            let features = v("features"@).data;
            let top = v(g.output[2].name);
            let bottom = v(g.output[3].name);
            &&& g.output.len() == 5
            &&& v(g.output[0].name) == row(
                predicted(sense, 2, NUM_GRID_PARAMS as int, features, v("W_pred_flat"@).data, v("B_pred"@).data),
            )
            &&& v(g.output[1].name) == row(seq![atr])
            &&& features.len() == 2
            &&& features[0] * ago == last - ago
            &&& features[1] * last == atr
            &&& v(g.output[4].name) == row(seq![features[0]])
            &&& is_one(top) && is_one(bottom)
            &&& forall|i: int| 0 <= i < ws - 1 && ws - 1 - donchian_period <= i ==> #[trigger] h[i] <= top.data[0]
            &&& exists|i: int| 0 <= i < ws - 1 && ws - 1 - donchian_period <= i && #[trigger] h[i] == top.data[0]
            &&& forall|i: int| 0 <= i < ws - 1 && ws - 1 - donchian_period <= i ==> #[trigger] l[i] >= bottom.data[0]
            &&& exists|i: int| 0 <= i < ws - 1 && ws - 1 - donchian_period <= i && #[trigger] l[i] == bottom.data[0]
        }),
{
    kinds_are_told_apart();
    let g = momentum_breakout_graph(donchian_period, momentum_period, atr_period, ws, weights, biases);
    let c = v("closes"@).data;
    let h = v("highs"@).data;
    let l = v("lows"@).data;
    let p = v("prev_closes"@).data;
    let last = c[ws - 1];
    let ago = c[ws - 1 - momentum_period];
    let huge = (sense.single)(LARGEST_SINGLE);
    let from = before_last(ws, donchian_period);
    lemma_weights(sense, g.initializer, v, 0, ws as int);
    lemma_weights(sense, g.initializer, v, 1, ws as int);
    lemma_weights(sense, g.initializer, v, 2, ws as int);
    assert(v(g.initializer[3].name) == constant(sense, g.initializer[3]));
    assert(v(g.initializer[4].name) == constant(sense, g.initializer[4]));
    assert(v(g.initializer[5].name) == constant(sense, g.initializer[5]));
    lemma_head_shape(v, sense, 2);
    assert(v(g.node[0].output[0]) == computed(sense, g.node[0], v));
    assert(v(g.node[1].output[0]) == computed(sense, g.node[1], v));
    let pick = entries(sense, g.initializer[0].data, ws as int);
    lemma_row_times_column(sense, g.node[1], v, c, pick);
    lemma_dot_picks(c, pick, ws - 1, ws as nat);
    assert(v("last_close"@) == row(seq![last]));
    assert(v(g.node[2].output[0]) == computed(sense, g.node[2], v));
    assert(v(g.node[3].output[0]) == computed(sense, g.node[3], v));
    assert(v(g.node[4].output[0]) == computed(sense, g.node[4], v));
    assert(v(g.node[5].output[0]) == computed(sense, g.node[5], v));
    let mh = v("masked_highs"@).data;
    assert forall|i: int| 0 <= i < ws implies #[trigger] mh[i] == (if from <= i < ws - 1 { h[i] } else { 0 as real }) by {
        let y = h[i];
        assert(y * 1 as real == y) by (nonlinear_arith);
        assert(y * 0 as real == 0 as real) by (nonlinear_arith);
    }
    assert(mh.len() == ws);
    lemma_greatest(mh, ws as nat);
    let top = greatest(mh, ws as nat);
    assert(v("prev_hh"@) == row(seq![top]));
    assert forall|i: int| 0 <= i < ws - 1 && ws - 1 - donchian_period <= i implies #[trigger] h[i] <= top by {
        assert(mh[i] == h[i]);
    }
    let kh = choose|i: int| 0 <= i < ws && #[trigger] mh[i] == top;
    assert(h[ws - 2] >= l[ws - 2]) by {
        assert(l[ws - 2] <= h[ws - 2]);
    }
    assert(mh[ws - 2] == h[ws - 2]);
    assert(l[ws - 2] >= 0 as real);
    if from <= kh < ws - 1 {
        assert(h[kh] == top);
    } else {
        assert(h[ws - 2] == top);
    }
    let ml = v("masked_lows"@).data;
    assert forall|i: int| 0 <= i < ws implies #[trigger] ml[i] == (if from <= i < ws - 1 { l[i] } else { l[i] + huge }) by {
    }
    assert(ml.len() == ws);
    lemma_least(ml, ws as nat);
    let bottom = least(ml, ws as nat);
    assert(v("prev_ll"@) == row(seq![bottom]));
    assert forall|i: int| 0 <= i < ws - 1 && ws - 1 - donchian_period <= i implies #[trigger] l[i] >= bottom by {
        assert(ml[i] == l[i]);
    }
    let kl = choose|i: int| 0 <= i < ws && #[trigger] ml[i] == bottom;
    assert(ml[ws - 2] == l[ws - 2]);
    if from <= kl < ws - 1 {
        assert(l[kl] == bottom);
    } else {
        assert(l[kl] >= 0 as real);
        assert(l[ws - 2] == bottom);
    }
    assert(v(g.node[6].output[0]) == computed(sense, g.node[6], v));
    assert(v(g.node[7].output[0]) == computed(sense, g.node[7], v));
    assert(v(g.node[8].output[0]) == computed(sense, g.node[8], v));
    let lag = entries(sense, g.initializer[2].data, ws as int);
    lemma_row_times_column(sense, g.node[6], v, c, lag);
    lemma_dot_picks(c, lag, ws - 1 - momentum_period, ws as nat);
    assert(v("roc_diff"@).data =~= seq![last - ago]);
    let change = (last - ago) / ago;
    assert(v("roc_val"@).data =~= seq![change]);
    lemma_divided(change, last - ago, ago);
    assert(v(g.node[9].output[0]) == computed(sense, g.node[9], v));
    assert(v(g.node[10].output[0]) == computed(sense, g.node[10], v));
    assert(v(g.node[11].output[0]) == computed(sense, g.node[11], v));
    assert(v(g.node[12].output[0]) == computed(sense, g.node[12], v));
    assert(v(g.node[13].output[0]) == computed(sense, g.node[13], v));
    assert(v(g.node[14].output[0]) == computed(sense, g.node[14], v));
    assert(v(g.node[15].output[0]) == computed(sense, g.node[15], v));
    assert(v(g.node[16].output[0]) == computed(sense, g.node[16], v));
    let tr = v("tr"@);
    assert forall|i: int| 0 <= i < ws implies #[trigger] tr.data[i] == true_ranges(h, l, p)[i] by {
        assert(l[i] <= h[i]);
    }
    assert(tr.data =~= true_ranges(h, l, p));
    lemma_row_times_column(sense, g.node[16], v, true_ranges(h, l, p), ema_weights(ws as int, atr_period));
    assert(v(g.node[17].output[0]) == computed(sense, g.node[17], v));
    assert(v(g.node[18].output[0]) == computed(sense, g.node[18], v));
    assert(v(g.node[19].output[0]) == computed(sense, g.node[19], v));
    assert(v(g.node[20].output[0]) == computed(sense, g.node[20], v));
    assert(v(g.node[21].output[0]) == computed(sense, g.node[21], v));
    let atr = average_true_range(h, l, p, atr_period);
    assert(v("atr_norm"@).data =~= seq![atr / last]);
    lemma_divided(atr / last, atr, last);
    let names = g.node[18].input;
    assert(names == seq!["roc_val"@, "atr_norm"@]);
    assert(joined(v, names, 0) =~= Seq::empty());
    assert(joined(v, names, 1) =~= seq![change]);
    assert(joined(v, names, 2) =~= seq![change, atr / last]);
    lemma_prediction(sense, v, 2, NUM_GRID_PARAMS as int, g.node[0], g.node[19], g.node[20], g.node[21]);
}


proof fn lemma_answer(y: real, q: real, p: real)
    requires
        q == p / (1 as real - p),
        1 as real - p != 0 as real,
        y * (1 as real + q) == q,
    ensures
        y == p,
{
    let r = 1 as real - p;
    assert(q * r == p) by (nonlinear_arith)
        requires
            q == p / r,
            r != 0 as real,
    ;
    assert((1 as real + q) * r == 1 as real) by (nonlinear_arith)
        requires
            q * r == p,
            r == 1 as real - p,
    ;
    assert(y == p) by (nonlinear_arith)
        requires
            y * (1 as real + q) == q,
            (1 as real + q) * r == 1 as real,
            q * r == p,
    ;
}

/// Whether a function turns what a calculator takes for a logarithm into odds again: of
/// the logarithm of odds it makes the probability that has them.
pub open spec fn turns_logarithms_back<F: Fn(Calculation) -> Num>(
    f: F,
    val: spec_fn(Num) -> real,
    squash: spec_fn(real) -> real,
) -> bool {
    forall|x: Num|
        !(#[trigger] logarithm(f, x)).nan() ==> !x.nan() && squash(val(logarithm(f, x))) * (1 as real + val(x)) == val(x)
}

/// Where no feature has a weight, a model with the usual biases answers its usual
/// parameters, each in its place; the first answer is that of the bias given. The
/// weights and biases have the sizes that the model is fed.
pub proof fn the_usual_biases_answer_the_usual_parameters<F: Fn(Calculation) -> Num>(
    f: F,
    val: spec_fn(Num) -> real,
    squash: spec_fn(real) -> real,
    pred_bias: Num,
    pred: Seq<Num>,
    ws: usize,
    n_feat: int,
)
    requires
        exact(f, val),
        turns_logarithms_back(f, val, squash),
        0 <= n_feat <= 64,
    ensures
        ({
            let b = usual_biases(f, pred_bias);
            let inputs = model_inputs(ws, n_feat);
            &&& b[0] == pred_bias
            &&& val(b[1]) == 0 as real
            &&& !b[2].nan() ==> squash(val(b[2])) == val(Num { bits: P22_BITS })
            &&& !b[3].nan() ==> squash(val(b[3])) == val(Num { bits: P05_BITS })
            &&& !b[4].nan() ==> squash(val(b[4])) == val(Num { bits: P78_BITS })
            &&& !b[5].nan() ==> squash(val(b[5])) == val(Num { bits: P35_BITS })
            &&& !b[6].nan() ==> squash(val(b[6])) == val(Num { bits: P65_BITS })
            &&& !b[7].nan() ==> squash(val(b[7])) == val(Num { bits: P22_BITS })
            &&& b.len() == inputs[5].width
            &&& first_output_weights(pred, n_feat).len() == inputs[4].width
        }),
{
    lemma_usual(f, val, squash, Num { bits: P22_BITS });
    lemma_usual(f, val, squash, Num { bits: P05_BITS });
    lemma_usual(f, val, squash, Num { bits: P78_BITS });
    lemma_usual(f, val, squash, Num { bits: P35_BITS });
    lemma_usual(f, val, squash, Num { bits: P65_BITS });
}

proof fn lemma_usual<F: Fn(Calculation) -> Num>(f: F, val: spec_fn(Num) -> real, squash: spec_fn(real) -> real, p: Num)
    requires
        exact(f, val),
        turns_logarithms_back(f, val, squash),
    ensures
        !sigmoid_inverse(f, p).nan() ==> squash(val(sigmoid_inverse(f, p))) == val(p),
{
    let one = Num { bits: ONE_BITS };
    let rest = difference(f, one, p);
    let odds = quotient(f, p, rest);
    if !sigmoid_inverse(f, p).nan() {
        assert(!logarithm(f, odds).nan());
        assert(!odds.nan());
        assert(!rest.nan());
        lemma_answer(squash(val(logarithm(f, odds))), val(odds), val(p));
    }
}

} // verus!
