//! What candles, features and the calendar amount to.
use vstd::arithmetic::div_mod::{lemma_fundamental_div_mod, lemma_mod_multiples_basic};
use vstd::prelude::*;

use crate::arith::{count, quotient, total, Calculation};
use crate::blocks::{block_of, block_start};
use crate::calendar::{monday_00, vn_hour, weekend};
use crate::candle::{interval_start, CandleStick, Tick};
use crate::exact::{exact, real_total, sum_over, sums_are_exact};
use crate::extractor::OhlcvExtractor;
use crate::forward::scores_to;
use crate::graph::genome::Graph;
use crate::graph::strategy::{all_features, entry_or_zero, TRADING_PARAMS};
use crate::num::Num;
use crate::providers::{provider_time, Columns, Scalar};

verus! {

/// An interval starts at a multiple of its length, at a time no more than that length
/// before the moments that fall in it.
pub proof fn an_interval_holds_its_moments(timestamp: int, interval: int)
    requires
        timestamp >= 0,
        interval > 0,
    ensures
        interval_start(timestamp, interval) <= timestamp < interval_start(timestamp, interval) + interval,
        interval_start(timestamp, interval) % interval == 0,
        interval_start(timestamp, interval) >= 0,
{
    let n = timestamp / interval;
    lemma_fundamental_div_mod(timestamp, interval);
    lemma_mod_multiples_basic(n, interval);
    assert(n * interval == interval * n) by (nonlinear_arith);
    assert(n * interval >= 0) by (nonlinear_arith)
        requires
            n >= 0,
            interval > 0,
    ;
}

proof fn lemma_same_interval(t: int, timestamp: int, interval: int)
    requires
        t >= 0,
        t % interval == 0,
        interval > 0,
        timestamp >= 0,
    ensures
        timestamp < t + interval ==> interval_start(timestamp, interval) <= t,
        timestamp >= t + interval ==> interval_start(timestamp, interval) > t,
{
    an_interval_holds_its_moments(timestamp, interval);
    let start = interval_start(timestamp, interval);
    if timestamp < t + interval && start > t {
        let a = t / interval;
        let b = timestamp / interval;
        lemma_fundamental_div_mod(t, interval);
        assert(t == interval * a);
        assert(start == b * interval);
        assert(b >= a + 1) by (nonlinear_arith)
            requires
                b * interval > interval * a,
                interval > 0,
        ;
        assert(b * interval >= interval * a + interval) by (nonlinear_arith)
            requires
                b >= a + 1,
                interval > 0,
        ;
    }
}

/// A candle takes in the ticks of its interval: it keeps its time and its open, closes
/// at the last price, and reaches just as far as every price that it has seen. A tick
/// of a later interval hands the candle out as it stood and opens one of its own
/// interval, at its own price and quantity; so does the first tick, with none to hand
/// out.
pub proof fn a_candle_takes_in_the_ticks_of_its_interval(
    candle: CandleStick,
    tick: Tick,
    interval: int,
    volume: Num,
)
    requires
        0 < interval <= i64::MAX,
        tick.timestamp >= 0,
        candle.t >= 0,
        candle.t as int % interval == 0,
        !tick.price.nan(),
        !candle.h.nan(),
        !candle.l.nan(),
    ensures
        ({
            let (now, done) = candle.with_tick(tick, interval, volume);
            let opens = candle.t == 0 || tick.timestamp >= candle.t + interval;
            &&& opens ==> {
                &&& now.t <= tick.timestamp < now.t + interval
                &&& now.t as int % interval == 0
                &&& now.o == tick.price && now.h == tick.price && now.l == tick.price && now.c == tick.price
                &&& now.v == tick.quantity
                &&& done == (if candle.t == 0 {
                    None
                } else {
                    Some(candle)
                })
            }
            &&& !opens ==> {
                &&& done is None
                &&& now.t == candle.t && now.o == candle.o && now.c == tick.price && now.v == volume
                &&& candle.h.at_most(now.h) && tick.price.at_most(now.h)
                &&& now.h == candle.h || now.h == tick.price
                &&& now.l.at_most(candle.l) && now.l.at_most(tick.price)
                &&& now.l == candle.l || now.l == tick.price
            }
        }),
{
    an_interval_holds_its_moments(tick.timestamp as int, interval);
    lemma_same_interval(candle.t as int, tick.timestamp as int, interval);
}

/// The features of one place are of one candle: the last ones of the last candle, and
/// each before of the candle before, the first candle standing in where there are none.
/// Each previous close is the close of the place before.
pub proof fn features_line_up_with_candles(e: OhlcvExtractor, candles: Seq<CandleStick>, i: int)
    requires
        e.window > 0,
        candles.len() > 0,
        0 <= i < e.window,
    ensures
        ({
            let r = e.features(candles);
            let at = candles.len() - e.window + i;
            let c = candles[if at >= 0 {
                at
            } else {
                0
            }];
            &&& r[0][i] == c.c
            &&& r[1][i] == c.h
            &&& r[2][i] == c.l
            &&& r[3][i] == (if i > 0 {
                r[0][i - 1]
            } else {
                r[0][0]
            })
        }),
{
}

/// Starting parameters feed a model the initial weights and biases, zeros where they
/// run out; and finite parameters are fed as they stand, the weights first.
pub proof fn parameters_are_fed_where_they_belong(
    g: Graph,
    candles: Seq<CandleStick>,
    params: Seq<Num>,
    lookback: Num,
    i: int,
    k: int,
)
    requires
        0 <= i < g.weight_len(),
        0 <= k < g.num_of_grids,
    ensures
        ({
            let n = all_features(g.extractors@, candles, g.extractors@.len()).len() as int;
            let first = g.feed(candles, g.initial_params(lookback));
            let next = g.feed(candles, params);
            let zero = Num { bits: 0 };
            &&& first.len() == n + 2
            &&& first[n][i] == (if i < g.inited_weights@.len() {
                g.inited_weights@[i]
            } else {
                zero
            })
            &&& first[n + 1][k] == (if k < g.inited_bias@.len() {
                g.inited_bias@[k]
            } else {
                zero
            })
            &&& params[TRADING_PARAMS + i].finite() ==> next[n][i] == params[TRADING_PARAMS + i]
            &&& params[TRADING_PARAMS + g.weight_len() + k].finite() ==> next[n + 1][k] == params[TRADING_PARAMS
                + g.weight_len() + k]
            &&& !params[TRADING_PARAMS + i].finite() ==> next[n][i] == first[n][i]
            &&& !params[TRADING_PARAMS + g.weight_len() + k].finite() ==> next[n + 1][k] == first[n + 1][k]
        }),
{
    let w = g.weight_len();
    let p = g.initial_params(lookback);
    assert(p[TRADING_PARAMS + i] == entry_or_zero(g.inited_weights@, i));
    assert(p[TRADING_PARAMS + w + k] == entry_or_zero(g.inited_bias@, k));
}

/// The weekend is the third and the fourth day of the weeks from the epoch, which began
/// on a Thursday.
pub proof fn weekends_recur_every_week(ts: int)
    requires
        ts >= 0,
    ensures
        weekend(ts) <==> 2 * 86_400 <= ts % 604_800 < 4 * 86_400,
{
}

/// The hour in Vietnam is that of a clock seven hours ahead.
pub proof fn the_clock_is_seven_hours_ahead(ts: int)
    requires
        ts >= 0,
    ensures
        ({
            let into_day = (ts + 7 * 3_600) % 86_400;
            vn_hour(ts) * 3_600 <= into_day < (vn_hour(ts) + 1) * 3_600
        }),
{
}

/// From a moment of a weekend, the next Monday starts where the weekend ends. A moment
/// of another day lies in the day that starts there.
pub proof fn monday_starts_where_the_weekend_ends(ts: int)
    requires
        ts >= 0,
    ensures
        monday_00(ts) % 86_400 == 0,
        !weekend(monday_00(ts)),
        weekend(ts) ==> ts < monday_00(ts) && forall|t: int| ts <= t < monday_00(ts) ==> #[trigger] weekend(t),
        !weekend(ts) ==> monday_00(ts) <= ts < monday_00(ts) + 86_400,
{
}

/// A time lies in its block, and blocks follow each other without a gap.
pub proof fn a_block_holds_its_times(t: int, bid: int)
    ensures
        block_start(bid) <= t < block_start(bid + 1) <==> block_of(t) == bid,
{
}

/// A time that was asked of a provider in the provider's own count is read back as the
/// same time.
pub proof fn times_come_back_as_they_were_asked(profile_name: Seq<char>, t: i64)
    requires
        i64::MIN <= provider_time(profile_name, t as int) <= i64::MAX,
    ensures
        Scalar::Integer(provider_time(profile_name, t as int) as i64).seconds(profile_name) == t,
{
}

/// A score, or nothing where there is none.
pub open spec fn score_or_nothing(val: spec_fn(Num) -> real, s: Option<Num>) -> real {
    match s {
        Some(x) => val(x),
        None => 0 as real,
    }
}

proof fn lemma_scores(val: spec_fn(Num) -> real, scores: Seq<Option<Num>>, n: nat)
    requires
        n <= scores.len(),
    ensures
        real_total(val, scores_to(scores, n)) == sum_over(
            scores.take(n as int),
            |s: Option<Num>| score_or_nothing(val, s),
        ),
    decreases n,
{
    if n > 0 {
        lemma_scores(val, scores, (n - 1) as nat);
        assert(scores.take(n as int).drop_last() =~= scores.take(n - 1));
        assert(scores.take(n as int).last() == scores[n - 1]);
        if let Some(x) = scores[n - 1] {
            let rest = scores_to(scores, (n - 1) as nat);
            assert(rest.push(x).drop_last() =~= rest);
        }
    }
}

/// The mean score times the windows is the sum of their scores, a window without one
/// counting as nothing.
pub proof fn the_mean_score_is_a_mean<F: Fn(Calculation) -> Num>(
    f: F,
    val: spec_fn(Num) -> real,
    scores: Seq<Option<Num>>,
    mean: Num,
)
    requires
        exact(f, val),
        0 < scores.len() <= usize::MAX,
        mean == quotient(f, total(f, scores_to(scores, scores.len())), count(f, scores.len() as int)),
        !mean.nan(),
    ensures
        val(mean) * scores.len() as real == sum_over(scores, |s: Option<Num>| score_or_nothing(val, s)),
{
    let all = scores_to(scores, scores.len());
    let n = count(f, scores.len() as int);
    assert(!total(f, all).nan() && !n.nan());
    sums_are_exact(f, val, all);
    lemma_scores(val, scores, scores.len());
    assert(scores.take(scores.len() as int) =~= scores);
    let (m, s, k) = (val(mean), val(total(f, all)), val(n));
    assert(m * k == s) by (nonlinear_arith)
        requires
            m == s / k,
            k != 0 as real,
    ;
}


/// Columns make as many candles as the shortest of them has entries, or as a limit above
/// zero allows; and each candle holds the entries of its row, every one where it belongs.
pub proof fn columns_make_rows(c: Columns, profile_name: Seq<char>, limit: nat, i: int)
    requires
        0 <= i < c.rows(limit),
    ensures
        ({
            let n = c.rows(limit);
            &&& n <= c.t@.len() && n <= c.o@.len() && n <= c.h@.len() && n <= c.l@.len() && n <= c.c@.len() && n
                <= c.v@.len()
            &&& limit > 0 ==> n <= limit
            &&& n == c.t@.len() || n == c.o@.len() || n == c.h@.len() || n == c.l@.len() || n == c.c@.len() || n
                == c.v@.len() || n == limit && limit > 0
            &&& c.row(profile_name, i).o == c.o@[i] && c.row(profile_name, i).h == c.h@[i]
            &&& c.row(profile_name, i).l == c.l@[i] && c.row(profile_name, i).c == c.c@[i]
            &&& c.row(profile_name, i).v == c.v@[i]
            &&& c.t@[i] matches Scalar::Integer(n) ==> 0 <= n ==> (c.row(profile_name, i).t == n || c.row(
                profile_name,
                i,
            ).t * 1000 <= n < (c.row(profile_name, i).t + 1) * 1000)
        }),
{
}

} // verus!
