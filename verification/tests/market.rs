//! Candles, orders, grids, plans and the portfolios that trade on them.
use opsense::analysis::{crossings, median_gap, occupancy, AnalysisGrid, Sieve, SieveConfig};
use opsense::arith::{add_up, calculate, ratio_or, without_sign, Calculation};
use opsense::blocks::{
    analysis_key, block_id, judge_reply, trade_key, CandleBlocks, Lookup, Reply, SpanError, BLOCK_SECS,
};
use opsense::calendar::{
    hour_vn, is_weekend, next_monday_00, next_monday_09, resolution_to_seconds, to_timestamp_secs, Calendar,
    CryptoCalendar, ForexCalendar, StockCalendar,
};
use opsense::candle::CandleStick;
use opsense::extractor::{ExtractError, OhlcvExtractor};
use opsense::fee::{
    DerivativeFee, Fee, MbsDerivativeFee, SimpleFixedFee, SsiDerivativeFee, VpsDerivativeFee,
};
use opsense::forward::{
    best_trial, covering_span, farthest_lookback, first_open, mean_score, prefetch_spans, random_trial,
    settlement_candles, Forward, Step,
};
use opsense::grid::{sort_prices, TradingGrid};
use opsense::lru::LruCache;
use opsense::num::Num;
use opsense::order::{check_order_exit, Order, OrderEvent, OrderType};
use opsense::plan::{realized_outcomes, CellStats, GridPlan};
use opsense::playground;
use opsense::quotes::{calculate_order_size, flush_pnl_pct, pnl_pct, quote_plan};
use opsense::report::{convert_order_history_into_report, convert_order_history_into_tally};
use opsense::rounding::{as_place, round, round_up, truncate};
use opsense::score::{NetPnlScore, Report, Score, SharpeScore};
use opsense::series::{candles_within, merge_candles};
use opsense::session::{GridQuotes, Session};
use opsense::strategies::{
    calculate_atr, counts_add_up, evidence, price_range, update_win_probabilities, Evidence, GridStrategy, RebuildError,
    VolatilityAdaptiveGridStrategy, MIN_ANALYSIS_CANDLES,
};
use opsense::streaming::{plan_is_sound, plan_takes, StreamError, StreamingPortfolio};

fn n(x: f64) -> Num {
    Num::from_bits(x.to_bits())
}

fn f(x: Num) -> f64 {
    f64::from_bits(x.bits)
}

fn nums(v: &[f64]) -> Vec<Num> {
    v.iter().map(|x| n(*x)).collect()
}

/// The floating-point steps of the library's formulas.
fn calc(c: Calculation) -> Num {
    n(match c {
        Calculation::Sum(a, b) => f(a) + f(b),
        Calculation::Difference(a, b) => f(a) - f(b),
        Calculation::Product(a, b) => f(a) * f(b),
        Calculation::Quotient(a, b) => f(a) / f(b),
        Calculation::Root(a) => f(a).sqrt(),
        Calculation::Power(a, b) => f(a).powf(f(b)),
        Calculation::Exponential(a) => f(a).exp(),
        Calculation::Logarithm(a) => f(a).ln(),
        Calculation::Count(k) => k as f64,
    })
}

// ---- numbers -------------------------------------------------------------

#[test]
fn numbers_become_counts_as_floats_do() {
    let all = [
        0.0,
        -0.0,
        5e-324,
        0.25,
        0.49999999999999994,
        0.5,
        0.75,
        1.0,
        1.5,
        2.5,
        3.499,
        4095.9999,
        4503599627370495.5,
        4503599627370497.0,
        9007199254740993.0,
        1.8446744073709550e19,
        1.8446744073709552e19,
        1e300,
        f64::INFINITY,
        -0.75,
        -3.0,
        f64::NEG_INFINITY,
        f64::NAN,
    ];
    for x in all {
        assert_eq!(truncate(n(x)), x as u64, "{x}");
        assert_eq!(round(n(x)), x.round() as u64, "{x}");
        assert_eq!(round_up(n(x)), x.ceil() as u64, "{x}");
    }
    assert_eq!(as_place(7), 7);
}

#[test]
fn formulas_go_by_the_calculator() {
    assert_eq!(f(add_up(&calc, &nums(&[1.0, 2.0, 3.5]))), 6.5);
    assert_eq!(f(add_up(&calc, &vec![])), 0.0);
    assert_eq!(f(ratio_or(&calc, n(1.0), n(4.0), n(9.0))), 0.25);
    assert_eq!(f(ratio_or(&calc, n(1.0), n(0.0), n(9.0))), 9.0);
    assert_eq!((f(without_sign(n(-2.0))), f(without_sign(n(3.0)))), (2.0, 3.0));
    assert_eq!(f(calculate(&calc, Calculation::Power(n(2.0), n(10.0)))), 1024.0);
}

#[test]
fn numbers_compare_as_floats_do() {
    let all = [
        f64::NEG_INFINITY,
        -2.5,
        -f64::MIN_POSITIVE,
        -0.0,
        0.0,
        5e-324,
        1.0,
        2.5,
        f64::MAX,
        f64::INFINITY,
        f64::NAN,
        -f64::NAN,
    ];
    for a in all {
        assert_eq!(n(a).is_nan(), a.is_nan());
        assert_eq!(n(a).is_finite(), a.is_finite());
        assert_eq!(n(a).is_positive(), a > 0.0);
        for b in all {
            assert_eq!(n(a).lt(n(b)), a < b);
            assert_eq!(n(a).le(n(b)), a <= b);
        }
    }
    assert_eq!(f(n(1.0).max(n(2.0))), 2.0);
    assert_eq!(f(n(1.0).min(n(f64::NAN))), 1.0);
}

// ---- calendars -----------------------------------------------------------

#[test]
fn test_settlement_candles_market_defaults() {
    assert_eq!(StockCalendar.settlement_candles(), 3);
    assert_eq!(CryptoCalendar.settlement_candles(), 0);
    assert_eq!(ForexCalendar.settlement_candles(), 0);
}

#[test]
fn calendars_skip_closed_hours() {
    // 2023-11-17 is a Friday.
    let friday_14_30: u64 = 1_700_206_200;
    assert_eq!(hour_vn(friday_14_30), 14);
    assert!(!is_weekend(friday_14_30));
    let saturday: u64 = 1_700_265_600;
    assert!(is_weekend(saturday));
    assert_eq!(next_monday_00(saturday), 1_700_438_400);
    assert_eq!(next_monday_09(saturday), 1_700_445_600);
    assert_eq!(CryptoCalendar.next(saturday, "1H"), saturday + 3600);
    assert_eq!(ForexCalendar.next(saturday, "1H"), 1_700_438_400);
    // The first moment of the next session, an hour after Friday's close.
    assert_eq!(StockCalendar.next(friday_14_30, "1H"), 1_700_445_600);
    assert_eq!(to_timestamp_secs("5m"), 300);
    assert_eq!(resolution_to_seconds("4H"), 4 * 3600);
    // A market that never closes needs no room beyond the candle.
    assert_eq!(CryptoCalendar.next(u64::MAX - 300, "5m"), u64::MAX);
}

// ---- extractor -----------------------------------------------------------

fn mk_candle(c: f64, h: f64, l: f64) -> CandleStick {
    CandleStick { t: 0, c: n(c), h: n(h), l: n(l), o: n(0.0), v: n(0.0) }
}

#[test]
fn test_extract_pads_to_window() {
    let candles: Vec<_> =
        (0..10).map(|i| mk_candle(100.0 + i as f64, 101.0 + i as f64, 99.0 + i as f64)).collect();
    let ex = OhlcvExtractor { window: 20 };
    let result = ex.extract(&candles).expect("extract");
    assert_eq!(result.len(), 4);
    for arr in &result {
        assert_eq!(arr.len(), 20);
    }
    assert_eq!(result[0][0], result[0][9]);
    assert_eq!(result[0][9], result[0][10]);
    assert_eq!(ex.name(), "ohlcv");
}

#[test]
fn test_extract_exact_window_no_padding() {
    let candles: Vec<_> =
        (0..50).map(|i| mk_candle(100.0 + i as f64, 101.0 + i as f64, 99.0 + i as f64)).collect();
    let ex = OhlcvExtractor { window: 50 };
    let result = ex.extract(&candles).expect("extract");
    for arr in &result {
        assert_eq!(arr.len(), 50);
    }
    assert!((f(result[0][0]) - 100.0).abs() < 1e-6);
    assert!((f(result[0][49]) - 149.0).abs() < 1e-6);
}

#[test]
fn test_prev_closes_shifted() {
    let candles: Vec<_> = (0..5).map(|i| mk_candle(10.0 + i as f64, 11.0 + i as f64, 9.0 + i as f64)).collect();
    let ex = OhlcvExtractor { window: 5 };
    let result = ex.extract(&candles).expect("extract");
    let prev = &result[3];
    assert!((f(prev[0]) - f(result[0][0])).abs() < 1e-6);
    for i in 1..5 {
        assert!((f(prev[i]) - f(result[0][i - 1])).abs() < 1e-6);
    }
}

#[test]
fn test_empty_candles_returns_error() {
    let ex = OhlcvExtractor { window: 10 };
    assert!(ex.extract(&vec![]).is_err());
    assert!(matches!(ex.extract(&vec![]), Err(ExtractError::NoCandles)));
}

#[test]
fn the_last_candles_fill_a_short_window() {
    let candles: Vec<_> = (0..5).map(|i| mk_candle(10.0 + i as f64, 11.0, 9.0)).collect();
    let result = OhlcvExtractor { window: 2 }.extract(&candles).unwrap();
    assert_eq!(result[0], nums(&[13.0, 14.0]));
    // The close before the window is known here.
    assert_eq!(result[3][1], n(13.0));
}

// ---- orders --------------------------------------------------------------

fn order(dtype: OrderType, sl: f64, tp: f64) -> Order {
    Order {
        dtype,
        entry_price: n(100.0),
        sl_price: n(sl),
        tp_price: n(tp),
        size: n(1.0),
        ..Default::default()
    }
}

fn bar(o: f64, h: f64, l: f64, c: f64) -> CandleStick {
    CandleStick { t: 1000, o: n(o), h: n(h), l: n(l), c: n(c), v: n(1000.0) }
}

/// What an order earned at its exit, after the fee of both sides.
fn pnl_of(o: Order, exit: Num, fee_rate: f64) -> Num {
    pnl_pct(o, exit, n(2.0 * fee_rate), &calc)
}

#[test]
fn test_check_order_exit_long_hit_sl() {
    let o = order(OrderType::Long, 95.0, 110.0);
    let result = check_order_exit(&o, &bar(98.0, 99.0, 94.0, 95.0), 0);
    assert!(result.is_some());
    let exit = result.unwrap();
    assert!(exit.le(o.sl_price));
    assert!(f(pnl_of(o, exit, 0.0005)) < 0.0);
}

#[test]
fn test_check_order_exit_short_hit_tp() {
    let o = order(OrderType::Short, 105.0, 95.0);
    let result = check_order_exit(&o, &bar(99.0, 100.0, 94.0, 95.0), 0);
    assert!(result.is_some());
    let exit = result.unwrap();
    assert!(o.tp_price.le(exit));
    assert!(f(pnl_of(o, exit, 0.0005)) > 0.0);
}

#[test]
fn test_check_order_exit_no_exit() {
    let o = order(OrderType::Long, 95.0, 110.0);
    assert!(check_order_exit(&o, &bar(98.0, 103.0, 97.0, 102.0), 0).is_none());
}

#[test]
fn test_check_order_exit_t_plus_n_blocks_before_unlock() {
    let o = Order { unlock_seq: 5, ..order(OrderType::Long, 95.0, 110.0) };
    let c = bar(98.0, 99.0, 94.0, 95.0);
    assert!(check_order_exit(&o, &c, 4).is_none());
    assert!(check_order_exit(&o, &c, 5).is_some());
}

#[test]
fn test_check_order_exit_no_unlock_is_unrestricted() {
    let o = order(OrderType::Long, 95.0, 110.0);
    assert!(check_order_exit(&o, &bar(98.0, 99.0, 94.0, 95.0), 0).is_some());
}

#[test]
fn exits_fill_at_the_open_past_a_gap() {
    let long = order(OrderType::Long, 95.0, 110.0);
    assert_eq!(check_order_exit(&long, &bar(90.0, 92.0, 89.0, 91.0), 0), Some(n(90.0)));
    assert_eq!(check_order_exit(&long, &bar(100.0, 112.0, 99.0, 111.0), 0), Some(n(110.0)));
    assert_eq!(check_order_exit(&long, &bar(115.0, 116.0, 99.0, 111.0), 0), Some(n(115.0)));
    // Both in one candle: the stop.
    assert_eq!(check_order_exit(&long, &bar(100.0, 112.0, 90.0, 100.0), 0), Some(n(95.0)));
    let short = order(OrderType::Short, 105.0, 95.0);
    assert_eq!(check_order_exit(&short, &bar(108.0, 109.0, 107.0, 108.0), 0), Some(n(108.0)));
    assert_eq!(check_order_exit(&short, &bar(90.0, 91.0, 89.0, 90.0), 0), Some(n(90.0)));
    assert!(check_order_exit(&order(OrderType::Unknown, 105.0, 95.0), &bar(1.0, 200.0, 0.5, 1.0), 9).is_none());
}

#[test]
fn sides_have_names_and_numbers() {
    for side in [OrderType::Unknown, OrderType::Long, OrderType::Short] {
        assert_eq!(OrderType::from(side.name().to_string()), side);
    }
    assert_eq!(OrderType::from(1), OrderType::Long);
    assert_eq!(OrderType::from(2), OrderType::Short);
    assert_eq!(OrderType::from(7), OrderType::Unknown);
    assert_eq!(OrderType::from("Long".to_string()), OrderType::Unknown);
}

fn order_size(win_p: f64, sl_pct: f64, fraction: f64, base_capital: f64) -> f64 {
    f(calculate_order_size(n(win_p), n(sl_pct), n(fraction), n(base_capital), &calc))
}

#[test]
fn test_calculate_order_size_basic() {
    let size = order_size(0.6, 0.05, 0.25, 100_000.0);
    assert!(size > 0.0 && size < 100_000.0);
    assert!((size - 14_500.0).abs() < 1e-6);
}

#[test]
fn test_calculate_order_size_edge() {
    let size = order_size(0.0, 0.05, 0.25, 100_000.0);
    assert_eq!(size, 0.0);
    let size = order_size(1.0, 0.05, 0.25, 100_000.0);
    assert_eq!(size, 0.0);
    let size = order_size(0.6, 0.0, 0.25, 100_000.0);
    assert_eq!(size, 0.0);
}

// ---- grids and plans -----------------------------------------------------

fn even_grid(levels: usize, min: f64, max: f64) -> Option<TradingGrid> {
    TradingGrid::new(levels, n(min), n(max), &calc)
}

fn assert_close(a: f64, b: f64, tol: f64) {
    assert!((a - b).abs() < tol, "expected {a} ≈ {b}");
}

fn trend(g: &TradingGrid, direction: f64, strength: f64) -> Vec<f64> {
    g.weights_trend(n(direction), n(strength), &calc).into_iter().map(f).collect()
}

#[test]
fn bullish_weights_heavy_on_low_levels() {
    let g = even_grid(5, 100.0, 110.0).unwrap();
    let w = trend(&g, 1.0, 1.0);
    assert_close(w.iter().sum(), 1.0, 1e-9);
    assert!(w[0] > w[1] && w[1] > w[2] && w[2] > w[3] && w[3] > w[4]);
}

#[test]
fn bearish_weights_heavy_on_high_levels() {
    let g = even_grid(5, 100.0, 110.0).unwrap();
    let w = trend(&g, -1.0, 1.0);
    assert_close(w.iter().sum(), 1.0, 1e-9);
    assert!(w[0] < w[1] && w[1] < w[2] && w[2] < w[3] && w[3] < w[4]);
}

#[test]
fn neutral_weights_are_uniform() {
    let g = even_grid(5, 100.0, 110.0).unwrap();
    let w = trend(&g, 0.0, 1.0);
    let u = 1.0 / 5.0;
    for v in w {
        assert_close(v, u, 1e-9);
    }
}

#[test]
fn zero_strength_reduces_to_linear() {
    let g = even_grid(5, 100.0, 110.0).unwrap();
    let w = trend(&g, 1.0, 0.0);
    let raw: Vec<f64> = (0..5).map(|j| (5 - j) as f64).collect();
    let sum: f64 = raw.iter().sum();
    for (got, e) in w.iter().zip(raw.iter().map(|e| e / sum)) {
        assert_close(*got, e, 1e-9);
    }
}

#[test]
fn with_weights_trend_expands_to_matrix() {
    let g = even_grid(5, 100.0, 110.0).unwrap().with_max_candles(10).with_weights_trend(n(-1.0), n(0.5), &calc);
    assert_eq!(g.weight_cols(), 10);
    for j in 0..5 {
        let row = g.weights[j].clone();
        assert_eq!(row.len(), 10);
        for (t, item) in row.iter().enumerate().take(10) {
            assert_close(f(*item), f(g.weight(j, t)), 1e-12);
        }
    }
}

#[test]
fn weights_come_in_shapes() {
    let g = even_grid(4, 100.0, 130.0).unwrap();
    assert_eq!(g.weights_uniform(&calc), nums(&[0.25; 4]));
    assert_eq!(g.weights_linear(true, &calc), nums(&[0.1, 0.2, 0.3, 0.4]));
    assert_eq!(g.weights_linear(false, &calc), nums(&[0.4, 0.3, 0.2, 0.1]));
    let w: Vec<f64> = g.weights_normal(n(4.0), &calc).into_iter().map(f).collect();
    assert_close(w.iter().sum(), 1.0, 1e-12);
    assert!(w[0] < w[1] && w[0] == w[3] && w[1] == w[2]);
    assert_close(w[1] / w[0], (-0.125f64).exp() / (-1.125f64).exp(), 1e-12);
    let g = g.with_weights_linear(true, &calc);
    assert_eq!(f(g.weight(3, 5)), 0.4);
    let g = g.with_weights_uniform(&calc).with_weights_normal(n(4.0), &calc);
    assert_eq!(f(g.weight(1, 0)), w[1]);
}

#[test]
fn steps_pay_their_fees() {
    let g = even_grid(3, 100.0, 110.0).unwrap();
    assert_eq!(f(g.step(&calc)), 5.0);
    assert_eq!((f(g.sl_long(0, &calc)), f(g.sl_short(0, &calc))), (95.0, 105.0));
    assert_eq!(f(TradingGrid::min_profitable_step(n(0.001), n(100.0), &calc)), 0.2);
    assert!(g.is_step_profitable(n(0.001), n(100.0), &calc));
    assert!(!g.is_step_profitable(n(0.025), n(100.0), &calc));
    assert_eq!(TradingGrid::max_levels_for_profit(n(100.0), n(110.0), n(0.01), &calc), 5);
    let least = n(0.0078125);
    assert_eq!(TradingGrid::max_levels_for_profit(n(64.0), n(74.0), least, &calc), 10);
    assert!(even_grid(10, 64.0, 74.0).unwrap().is_step_profitable(least, n(64.0), &calc));
    assert!(!even_grid(11, 64.0, 74.0).unwrap().is_step_profitable(least, n(64.0), &calc));
    assert_eq!(TradingGrid::max_levels_for_profit(n(100.0), n(101.0), n(0.01), &calc), 2);
    assert_eq!(TradingGrid::max_levels_for_profit(n(100.0), n(110.0), n(0.0), &calc), 2);
}

#[test]
fn grids_are_built_from_good_bounds_only() {
    assert!(even_grid(1, 100.0, 110.0).is_none());
    assert!(even_grid(3, 110.0, 100.0).is_none());
    assert!(even_grid(3, 100.0, f64::NAN).is_none());
    let g = even_grid(3, 100.0, 110.0).unwrap();
    assert_eq!(g.levels(), &nums(&[100.0, 105.0, 110.0]));
    assert_eq!((f(g.min()), f(g.max())), (100.0, 110.0));
    assert_eq!((f(g.tp_above(0)), f(g.tp_above(2))), (105.0, 110.0));
    assert_eq!((f(g.tp_below(0)), f(g.tp_below(2))), (100.0, 105.0));
    assert_eq!(f(g.weight(1, 99)), 1.0 / 3.0);
    assert_eq!(f(g.long_win_pct(9)), 0.0);

    assert!(TradingGrid::from_step(3, n(10.0), n(0.0), &calc).is_none());
    assert!(TradingGrid::from_step(3, n(10.0), n(-0.0), &calc).is_none());
    let g = TradingGrid::from_step(3, n(10.0), n(-2.0), &calc).unwrap();
    assert_eq!(g.levels(), &nums(&[10.0, 8.0, 6.0]));
    assert!(TradingGrid::centered(3, n(10.0), n(-2.0), &calc).is_none());
    let g = TradingGrid::centered(4, n(10.0), n(2.0), &calc).unwrap();
    assert_eq!(g.levels(), &nums(&[7.0, 9.0, 11.0, 13.0]));
    let g = TradingGrid::from_levels(&nums(&[10.0, 8.0, 6.0]), &calc).unwrap();
    assert_eq!(g.levels(), &nums(&[6.0, 8.0, 10.0]));
    assert_eq!(f(g.weight(0, 0)), 1.0 / 3.0);
    assert!(TradingGrid::from_levels(&nums(&[1.0]), &calc).is_none());
    assert_eq!(sort_prices(&nums(&[3.0, 1.0, 2.0, 1.0])), nums(&[1.0, 1.0, 2.0, 3.0]));
}

#[test]
fn grid_builders_ignore_what_does_not_fit() {
    let g = even_grid(2, 1.0, 2.0).unwrap();
    let g = g.with_weights(&nums(&[0.1]));
    assert_eq!(f(g.weight(0, 0)), 0.5);
    let g = g.with_weight_matrix(vec![nums(&[0.1, 0.2, 0.3]), nums(&[0.4, 0.5, 0.6])]);
    assert_eq!((g.max_candles, f(g.weight(1, 1)), f(g.weight(1, 8))), (3, 0.5, 0.6));
    let g = g.with_max_candles(5);
    assert_eq!(g.weights[0], nums(&[0.1, 0.2, 0.3, 0.3, 0.3]));
    let g = g.with_long_win_p(nums(&[0.9, 0.8])).with_short_win_p(nums(&[0.9]));
    assert_eq!((f(g.long_win_pct(1)), f(g.short_win_pct(1))), (0.8, 0.5));
    let g = g.with_win_probabilities(nums(&[0.1, 0.1]), nums(&[0.1]));
    assert_eq!(f(g.long_win_pct(1)), 0.8);
    let g = g.with_sl_pct(n(0.01));
    assert_eq!(f(g.stoploss_pct()), 0.01);
    let mut g = g;
    g.record_trade_outcome(0, true, n(0.1));
    g.record_trade_outcome(0, true, n(0.0));
    g.record_trade_outcome(1, false, n(-0.1));
    g.record_trade_outcome(1, false, n(0.1));
    g.record_trade_outcome(7, false, n(0.1));
    assert_eq!((g.long_win_count(0), g.long_lost_count(0)), (1, 1));
    assert_eq!((g.short_win_count(1), g.short_lost_count(1)), (1, 1));
    assert_eq!(g.short_win_count(7), 0);
    let stats = CellStats::of(&g);
    let h = even_grid(3, 1.0, 3.0).unwrap().with_outcome_counts(
        &stats.long_win,
        &stats.long_lost,
        &stats.short_win,
        &stats.short_lost,
    );
    assert_eq!((h.long_win_count(0), h.short_lost_count(1), h.short_lost_count(2)), (1, 1, 0));
}

fn plan(levels: &[f64]) -> GridPlan {
    GridPlan {
        levels: nums(levels),
        sl_pct: None,
        max_candles: None,
        weights: None,
        weight_sharpness: None,
        long_win: None,
        short_win: None,
    }
}

#[test]
fn plan_round_trip_and_stats_carried_over() {
    let plans = vec![GridPlan {
        sl_pct: Some(n(0.008)),
        max_candles: Some(15),
        weight_sharpness: Some(n(4.0)),
        long_win: Some(nums(&[0.5, 0.52, 0.55])),
        short_win: Some(nums(&[0.5, 0.48, 0.45])),
        ..plan(&[99.0, 100.0, 101.0])
    }];
    let mut prev = plans[0].to_grid(None, &calc).unwrap();
    prev.record_trade_outcome(0, true, n(0.01));
    prev.record_trade_outcome(0, true, n(0.01));
    prev.record_trade_outcome(1, true, n(-0.01));

    let prev = vec![prev];
    let grids = GridPlan::to_grids(&plans, &prev, &calc);
    assert_eq!(grids.len(), 1);
    let g = &grids[0];
    assert_eq!(g.num_levels(), 3);
    assert!((f(g.stoploss_pct()) - 0.008).abs() < 1e-12);
    assert_eq!(g.long_win_count(0), 2);
    assert_eq!(g.long_lost_count(1), 1);
    assert_eq!(g.long_win_count(2), 0);
    assert!((f(g.long_win_pct(2)) - 0.55).abs() < 1e-12);
}

#[test]
fn plan_optional_fields_use_defaults() {
    let p = plan(&[10.0, 11.0]);
    let g = p.to_grid(None, &calc).expect("two levels are enough");
    assert!((f(g.stoploss_pct()) - 0.05).abs() < 1e-12);
    assert!((f(g.long_win_pct(0)) - 0.5).abs() < 1e-12);
}

#[test]
fn plan_drops_invalid_cells_but_keeps_valid_ones() {
    let plans = vec![plan(&[10.0]), plan(&[f64::NAN, -1.0, 10.0, 11.0])];
    let grids = GridPlan::to_grids(&plans, &vec![], &calc);
    assert_eq!(grids.len(), 1);
    assert_eq!(grids[0].num_levels(), 2);
}

#[test]
fn outcomes_of_a_plan_add_up() {
    let r = realized_outcomes(&vec![]).unwrap();
    assert_eq!((r.long_total, r.short_total), (0, 0));
    let mut a = even_grid(2, 1.0, 2.0).unwrap();
    let mut b = even_grid(2, 1.0, 2.0).unwrap();
    a.record_trade_outcome(0, true, n(1.0));
    b.record_trade_outcome(1, true, n(-1.0));
    b.record_trade_outcome(1, false, n(1.0));
    let r = realized_outcomes(&vec![a, b]).unwrap();
    assert_eq!((r.long_wins, r.long_total, r.short_wins, r.short_total), (1, 2, 1, 1));
    assert!(r.enough_long(2) && !r.enough_long(3) && r.enough_short(1));
}

// ---- reports and scores --------------------------------------------------

#[test]
fn test_empty_report() {
    let t = convert_order_history_into_tally(&vec![]);
    assert_eq!(t.total_trades, 0);
    assert_eq!(Report::default().total_trades, 0);
}

#[test]
fn histories_are_counted() {
    let closed = |dtype, pnl: f64| Order { dtype, pnl_pct: Some(n(pnl)), ..Default::default() };
    let orders = vec![
        closed(OrderType::Long, 0.1),
        closed(OrderType::Long, -0.1),
        closed(OrderType::Short, 0.0),
        Order::default(),
        closed(OrderType::Short, -0.2),
        closed(OrderType::Unknown, 0.3),
    ];
    let t = convert_order_history_into_tally(&orders);
    assert_eq!((t.total_trades, t.wins, t.max_consecutive_losses), (6, 2, 3));
    assert_eq!((t.long_trades, t.long_wins, t.short_trades, t.short_wins), (2, 1, 2, 0));
    assert_eq!(t.profits, nums(&[0.1, -0.1, 0.0, -0.2, 0.3]));
}

#[test]
fn sharpe_score_is_zero_without_trades() {
    assert_eq!(f(SharpeScore.score(&Report::default())), 0.0);
}

#[test]
fn sharpe_score_reads_report() {
    let report = Report { total_trades: 10, sharpe_ratio: n(1.5), net_pnl_abs: n(42.0), ..Report::default() };
    assert_eq!(f(SharpeScore.score(&report)), 1.5);
    assert_eq!(f(NetPnlScore.score(&report)), 42.0);
}

#[test]
fn the_playground_asks_for_trades() {
    let report = |total_trades, s: f64| Report { total_trades, sharpe_ratio: n(s), ..Report::default() };
    assert_eq!(f(playground::SharpeScore.score(&report(2, 1.5))), 0.0);
    assert_eq!(f(playground::SharpeScore.score(&report(3, 1.5))), 1.5);
    assert_eq!(f(playground::SharpeScore.score(&report(10, -1.5))), -1.5);
    assert_eq!(f(playground::SharpeScore.score(&Report::default())), 0.0);
}

// ---- streaming -----------------------------------------------------------

const FEE: f64 = 0.0005;
const LOOKBACK: u64 = 2 * 24 * 3600;

fn strategy() -> GridStrategy {
    GridStrategy::new(4, n(0.01), n(10.0), LOOKBACK, 900, 300)
}

fn engine(settlement: u64) -> StreamingPortfolio {
    StreamingPortfolio::new(&CryptoCalendar, settlement)
}

fn candle(step: usize, price: f64) -> CandleStick {
    CandleStick::new(
        1_700_000_000 + step as i64 * 300,
        n(price),
        n(price + 2.0),
        n(price - 2.0),
        n(price + 0.1),
        n(10.0),
    )
}

fn rebuild(pf: &StreamingPortfolio, ts: u64) -> (u64, Result<Vec<TradingGrid>, RebuildError>) {
    let mut s = strategy();
    let review = s.next(ts);
    let params = s.init(&calc);
    let (from, to) = s.analysis_span(ts, &params);
    let data = pf.snapshot(from, to);
    let still = |_: AnalysisGrid, _: Vec<(i64, Num)>, _: i64| (vec![], vec![]);
    (review, s.rebuild(&pf.session.plan, &data, &params, still, &calc))
}

fn quotes(plan: &Vec<TradingGrid>, candle: u64) -> Vec<GridQuotes> {
    quote_plan(plan, candle as usize, n(0.25), n(1_000.0), &calc)
}

fn feed_one(pf: &mut StreamingPortfolio, c: &CandleStick) -> Result<Vec<OrderEvent>, StreamError<RebuildError>> {
    pf.on_candle(c, |o, p| pnl_of(o, p, FEE), rebuild, quotes, LOOKBACK, n(2.0 * FEE))
}

fn flush_all(pf: &mut StreamingPortfolio) -> Vec<OrderEvent> {
    let (_, close) = pf.flush_quote();
    let pnls = pf.open_orders().iter().map(|o| flush_pnl_pct(*o, close, n(2.0 * FEE), &calc)).collect();
    pf.flush(&pnls)
}

#[test]
fn rejects_invalid_candles() {
    let mut pf = engine(0);
    for bad in [
        CandleStick::new(0, n(100.0), n(101.0), n(99.0), n(100.0), n(1.0)),
        CandleStick::new(1_700_000_000, n(100.0), n(101.0), n(99.0), n(f64::NAN), n(1.0)),
        CandleStick::new(1_700_000_000, n(100.0), n(101.0), n(99.0), n(0.0), n(1.0)),
    ] {
        let error = feed_one(&mut pf, &bad).unwrap_err();
        assert_eq!(error, StreamError::InvalidData);
    }
}

#[test]
fn duplicate_and_out_of_order_candles_are_idempotent() {
    let mut pf = engine(0);
    feed_one(&mut pf, &candle(0, 100.0)).unwrap();
    let seq = pf.session.candle_seq;
    assert!(feed_one(&mut pf, &candle(0, 100.0)).unwrap().is_empty());
    let old = CandleStick::new(1_699_999_999, n(100.0), n(101.0), n(99.0), n(100.0), n(1.0));
    assert!(feed_one(&mut pf, &old).unwrap().is_empty());
    assert_eq!(pf.session.candle_seq, seq);
    assert_eq!(pf.candles.len(), 1);
}

#[test]
fn first_candles_rebuild_without_enough_history_keeps_empty_plan() {
    let mut pf = engine(0);
    for step in 0..5 {
        let events = feed_one(&mut pf, &candle(step, 100.0)).unwrap();
        assert!(events.iter().all(|e| !matches!(e, OrderEvent::Placed { .. })));
    }
    assert!(pf.grids().is_empty());
}

#[test]
fn wave_market_places_and_closes_orders() {
    let mut pf = engine(0);
    for (step, p) in (0..200).map(|i| 100.0 + (i % 40) as f64).enumerate() {
        feed_one(&mut pf, &candle(step, p)).unwrap();
    }
    let closed = flush_all(&mut pf);
    assert!(pf.open_orders().is_empty());
    assert!(!pf.closed_orders().is_empty());
    assert!(closed.iter().all(|e| matches!(e, OrderEvent::Closed { .. })));
    let seen = |pf: &StreamingPortfolio| {
        let s = &pf.session;
        let clock = (s.review_at, s.candle_seq, s.candle_id, s.candle_ts, s.next_ts, pf.settlement_candles);
        (s.history.clone(), format!("{:?}", s.plan), clock, pf.candles.clone())
    };
    let before = seen(&pf);
    assert!(flush_all(&mut pf).is_empty());
    assert!(pf.open_orders().is_empty());
    assert_eq!(seen(&pf), before);
}

#[test]
fn settlement_blocks_same_candle_exit() {
    let mut pf = engine(2);
    for step in 0..30 {
        feed_one(&mut pf, &candle(step, 100.0 - step as f64)).unwrap();
    }
    assert!(!pf.grids().is_empty());
    if let Some(order) = pf.open_orders().first().copied() {
        let (entry, sl) = (f(order.entry_price), f(order.sl_price));
        let t = pf.session.candle_ts + 300;
        let crash = CandleStick::new(t, n(entry), n(entry + 1.0), n(sl - 10.0), n(sl - 5.0), n(10.0));
        feed_one(&mut pf, &crash).unwrap();
        assert_eq!(pf.open_orders().len(), 1);
    }
}

#[test]
fn an_order_waits_for_its_settlement() {
    let mut pf = engine(2);
    pf.session.plan = vec![even_grid(2, 100.0, 110.0).unwrap()];
    pf.session.review_at = u64::MAX;
    let t = 1_700_000_000;
    let bar = |k: i64, l: f64| CandleStick::new(t + k * 300, n(100.0), n(101.0), n(l), n(100.0), n(1.0));
    let placed = feed_one(&mut pf, &bar(0, 99.0)).unwrap();
    assert_eq!(placed.len(), 1);
    assert!(matches!(&placed[0], OrderEvent::Placed { order, .. } if order.unlock_seq == 3));
    assert!(feed_one(&mut pf, &bar(1, 10.0)).unwrap().is_empty());
    assert_eq!(pf.open_orders().len(), 1);
    let events = feed_one(&mut pf, &bar(2, 10.0)).unwrap();
    assert!(matches!(&events[0], OrderEvent::Closed { order, .. } if order.exit_price == Some(n(95.0))));
    assert_eq!(pf.closed_orders().len(), 1);
    assert_eq!(pf.grids()[0].long_lost_count(0), 1);
}

#[test]
fn levels_below_the_fee_are_rejected() {
    let mut pf = engine(0);
    pf.session.plan = vec![even_grid(2, 100.0, 100.05).unwrap()];
    pf.session.review_at = u64::MAX;
    let events = feed_one(&mut pf, &candle(0, 100.0)).unwrap();
    assert_eq!(events.len(), 2);
    assert!(events.iter().all(|e| matches!(e, OrderEvent::Rejected { fee, .. } if f(*fee) == 0.001)));
    assert!(pf.open_orders().is_empty());
}

#[test]
fn a_failed_rebuild_counts_only_with_enough_candles() {
    let mut pf = engine(0);
    let none = |_: &StreamingPortfolio, ts: u64| (ts + 1, Err(RebuildError::NoAtr));
    let mut failed = 0;
    for step in 0..12 {
        let r = pf.on_candle(&candle(step, 100.0), |o, p| pnl_of(o, p, FEE), none, quotes, LOOKBACK, n(0.001));
        if let Err(e) = r {
            assert_eq!(e, StreamError::RebuildFailed(RebuildError::NoAtr));
            failed += 1;
        }
    }
    // Ten candles lie before the eleventh and the twelfth.
    assert_eq!(failed, 2);
    // Of the last 2700 seconds there are never more than nine, of 3000 ten.
    for (lookback, fails) in [(2700, 0), (3000, 2)] {
        let mut pf = engine(0);
        let feed = |pf: &mut StreamingPortfolio, step| {
            pf.on_candle(&candle(step, 100.0), |o, p| pnl_of(o, p, FEE), none, quotes, lookback, n(0.001)).is_err()
        };
        assert_eq!((0..12).filter(|step| feed(&mut pf, *step)).count(), fails);
    }
    assert_eq!(StreamingPortfolio::rebuild_lookback_secs(&nums(&[0.0; 4])), 172_800);
    assert_eq!(StreamingPortfolio::rebuild_lookback_secs(&nums(&[0.0, 0.0, 0.0, 0.0, 7.9])), 7);
}

#[test]
fn history_is_capped() {
    let mut pf = engine(0);
    pf.session.review_at = u64::MAX;
    for step in 0..2050 {
        feed_one(&mut pf, &candle(step, 100.0)).unwrap();
    }
    assert_eq!(pf.candles.len(), 2048);
    assert_eq!(pf.candles[0].t, 1_700_000_600);
}

// ---- backtests -----------------------------------------------------------

#[test]
fn a_backtest_rebuilds_fetches_and_ends() {
    let (from, to) = (1_700_000_000u64, 1_700_000_000 + 1800);
    let mut run = Forward::start(&CryptoCalendar, vec![], vec![], 0, from, to, "5m");
    assert_eq!(run.next_step(), Step::Rebuild { at: from });
    let event = run.on_rebuilt(from + 900, vec![even_grid(2, 100.0, 110.0).unwrap()]);
    assert!(matches!(event, OrderEvent::Rebuilt { ts, grids } if ts == from && grids.len() == 1));
    assert_eq!(run.next_step(), Step::Fetch { from, to: from + 900 });
    let candles: Vec<_> = (0..3).map(|k| candle(k, 100.0)).collect();
    let q = |p: &Vec<TradingGrid>, k: usize| quotes(p, k as u64);
    let mut placed = 0;
    for c in &candles {
        placed += run.on_candle(c, |o, p| pnl_of(o, p, FEE), q, n(0.001)).len();
    }
    assert_eq!((placed, run.session.orders.len(), run.session.candle_id), (1, 1, 3));
    run.on_fetched(&candles, 0);
    assert_eq!(run.next_step(), Step::Rebuild { at: from + 900 });
    // A candle of the last fetch counts no more.
    assert!(run.on_candle(&candles[2], |o, p| pnl_of(o, p, FEE), q, n(0.001)).is_empty());
    run.on_rebuilt(from + 3600, vec![]);
    assert_eq!(run.next_step(), Step::Fetch { from: from + 900, to });
    run.on_fetched(&vec![], to);
    assert_eq!(run.next_step(), Step::Done);
}

#[test]
fn a_backtest_accounts_for_every_order() {
    let before = Order { dtype: OrderType::Long, entry_price: n(50.0), sl_price: n(1.0), tp_price: n(101.0), ..Order::default() };
    let old = Order { pnl_pct: Some(n(0.5)), exit_price: Some(n(3.0)), ..before };
    let from = 1_700_000_000u64;
    let mut run = Forward::start(&CryptoCalendar, vec![before], vec![old], 0, from, from + 9000, "5m");
    let mut events = vec![run.on_rebuilt(from + 9000, vec![even_grid(3, 90.0, 110.0).unwrap()])];
    let q = |p: &Vec<TradingGrid>, k: usize| quotes(p, k as u64);
    let candles: Vec<_> = [100.0, 90.0, 100.0, 110.0, 91.0].iter().enumerate().map(|(k, p)| candle(k, *p)).collect();
    for c in &candles {
        events.extend(run.on_candle(c, |o, p| pnl_of(o, p, FEE), q, n(0.001)));
    }
    run.on_fetched(&candles, 0);
    let closed: Vec<Order> =
        events.iter().filter_map(|e| match e { OrderEvent::Closed { order, .. } => Some(*order), _ => None }).collect();
    let placed: Vec<Order> =
        events.iter().filter_map(|e| match e { OrderEvent::Placed { order, .. } => Some(*order), _ => None }).collect();
    assert!(closed.len() >= 2 && placed.len() >= 2);
    assert_eq!(run.session.history[0], old);
    assert_eq!(run.session.history[1..], closed);
    assert!(closed.iter().all(|o| o.exit_price.is_some() && o.pnl_pct.is_some()));
    assert_eq!(run.session.orders.len() + closed.len(), 1 + placed.len());
    assert!(run.session.orders.iter().all(|o| *o == before || placed.contains(o)));
    assert!(run.session.orders.iter().all(|o| !closed.contains(o)));
}

#[test]
fn placed_orders_pay_at_their_targets() {
    let mut pf = engine(0);
    pf.session.plan = vec![even_grid(5, 96.0, 104.0).unwrap()];
    pf.session.review_at = u64::MAX;
    let events = feed_one(&mut pf, &CandleStick::new(1_700_000_000, n(100.0), n(110.0), n(90.0), n(100.0), n(1.0))).unwrap();
    assert_eq!(events.len(), 5);
    assert_eq!(pf.open_orders().len(), 5);
    let earned: Vec<f64> =
        pf.open_orders().iter().map(|o| f(pnl_pct(*o, o.tp_price, n(2.0 * FEE), &calc))).collect();
    assert!(earned.iter().all(|p| *p > 0.0));
    assert_eq!(earned[0], 2.0 / 96.0 - 2.0 * FEE);
}

#[test]
fn placed_orders_win() {
    let mut pf = engine(0);
    pf.session.plan = vec![even_grid(5, 96.0, 104.0).unwrap()];
    pf.session.review_at = u64::MAX;
    feed_one(&mut pf, &CandleStick::new(1_700_000_000, n(100.0), n(110.0), n(90.0), n(100.0), n(1.0))).unwrap();
    for o in pf.open_orders() {
        let (up, tp, fee) = (o.dtype == OrderType::Long, f(o.tp_price), n(2.0 * FEE));
        assert!((f(o.entry_price) - tp).abs() / f(o.entry_price) > 2.0 * FEE);
        let at = |open: f64| CandleStick::new(1_700_000_300, n(open), n(open.max(tp)), n(open.min(tp)), n(open), n(1.0));
        let near = at(if up { tp - 0.25 } else { tp + 0.25 });
        let beyond = at(if up { tp + 0.5 } else { tp - 0.5 });
        assert_eq!(check_order_exit(o, &near, o.unlock_seq), Some(o.tp_price));
        assert_eq!(check_order_exit(o, &beyond, o.unlock_seq), Some(beyond.o));
        let (there, further) = (pnl_pct(*o, o.tp_price, fee, &calc), pnl_pct(*o, beyond.o, fee, &calc));
        assert!(0.0 < f(there) && f(there) < f(further));
    }
}

#[test]
fn backtests_start_in_trading_hours() {
    let saturday: u64 = 1_700_265_600;
    assert_eq!(first_open(&StockCalendar, saturday, "1H"), 1_700_445_600);
    assert_eq!(settlement_candles(&StockCalendar, 0), 3);
    assert_eq!(settlement_candles(&StockCalendar, 1), 1);
    let run = Forward::start(&StockCalendar, vec![], vec![], 0, saturday, saturday + 7 * 86_400, "1H");
    assert_eq!(run.next_step(), Step::Rebuild { at: 1_700_445_600 });
    let (trade, analysis) = prefetch_spans(&CryptoCalendar, 1000, 5000, 9000, 8000, "5m", "1H");
    assert_eq!(trade, Some((5000, 8000)));
    assert_eq!(analysis, Some((4000, 8000)));
    let (trade, analysis) = prefetch_spans(&CryptoCalendar, 1000, 5000, 9000, 4500, "5m", "1H");
    assert_eq!((trade, analysis), (None, Some((4000, 4500))));
    assert_eq!(best_trial(&nums(&[0.1, f64::NAN, 0.3, 0.3])), Some(2));
    assert_eq!(best_trial(&nums(&[f64::NEG_INFINITY])), None);
    assert_eq!(covering_span(&vec![(5, 9), (3, 4), (6, 20)]), (3, 20));
    assert_eq!(farthest_lookback(&vec![(n(0.0), n(1.0)), (n(1.0), n(90.5))], 50), 90);
    assert_eq!(farthest_lookback(&vec![(n(1.0), n(90.5))], 500), 500);
    assert_eq!(farthest_lookback(&vec![], 5), 5);
}

#[test]
fn trials_stay_within_their_bounds() {
    let bounds = vec![(n(1.0), n(2.0)), (n(3.0), n(f64::INFINITY)), (n(1.0), n(2.5))];
    let draw = |a: Num, b: Num| n((f(a) + f(b)) / 2.0);
    let round = |a: Num| n(f(a).round());
    let t = random_trial(&bounds, &vec![false, false, true], &draw, &round);
    assert_eq!(t, nums(&[1.5, 3.0, 2.0]));
    assert_eq!(f(mean_score(&vec![Some(n(3.0)), None, Some(n(1.5))], &calc)), 1.5);
}

// ---- caches and series ---------------------------------------------------

#[test]
fn old_entries_leave_first() {
    let mut c: LruCache<&str> = LruCache::new(2);
    c.put(1, "a");
    c.put(2, "b");
    c.touch(1);
    c.put(3, "c");
    assert_eq!((c.peek(1), c.peek(2), c.peek(3)), (Some(&"a"), None, Some(&"c")));
    c.put(3, "d");
    assert_eq!(c.peek(3), Some(&"d"));
    assert_eq!(c.take(1), Some("a"));
    assert_eq!(c.take(1), None);
}

#[test]
fn candles_merge_in_the_order_of_time() {
    let at = |t: i64, p: f64| CandleStick::new(t, n(p), n(p), n(p), n(p), n(1.0));
    let mut v = vec![at(10, 1.0), at(30, 3.0)];
    merge_candles(&mut v, &vec![at(20, 2.0), at(10, 9.0), at(40, 4.0)]);
    assert_eq!(v, vec![at(10, 1.0), at(20, 2.0), at(30, 3.0), at(40, 4.0)]);
    assert_eq!(candles_within(&v, 20, 40), vec![at(20, 2.0), at(30, 3.0)]);
}

#[test]
fn whole_blocks_are_fetched_once() {
    let mut blocks = CandleBlocks::new();
    let start = 2811 * BLOCK_SECS;
    let (from, to) = (start + 1000, start + 5000);
    assert_eq!(block_id(from), 2811);
    let asked = blocks.look_up(&CryptoCalendar, from, to, "5m").unwrap();
    assert!(matches!(asked, Lookup::Fetch { from, to } if from == start && to == start + BLOCK_SECS));
    let at = |t: u64| CandleStick::new(t as i64, n(1.0), n(1.0), n(1.0), n(1.0), n(1.0));
    let candles = vec![at(start + 600), at(start + 1200), at(start + 4800), at(start + 6000)];
    let got = blocks.store_fetched(&candles, start, start + BLOCK_SECS, from, to, to + 1);
    assert_eq!(got, vec![at(start + 1200), at(start + 4800)]);
    let hit = blocks.look_up(&CryptoCalendar, from, to, "5m").unwrap();
    assert!(matches!(hit, Lookup::Hit(v) if v == got));
    assert!(matches!(
        blocks.look_up(&CryptoCalendar, to, from, "5m"),
        Err(SpanError::Reversed { .. })
    ));
    assert_eq!(SpanError::Reversed { from: 9, to: 8 }.message(), "`from` (9) should be smaller than `to` (8)");
}

#[test]
fn late_data_is_not_taken_for_complete() {
    let mut blocks = CandleBlocks::new();
    let start = 2811 * BLOCK_SECS;
    let at = |t: u64| CandleStick::new(t as i64, n(1.0), n(1.0), n(1.0), n(1.0), n(1.0));
    let candles = vec![at(start + 300), at(start + 600)];
    blocks.store_fetched(&candles, start, start + BLOCK_SECS, start, start + 3000, start + 700);
    assert!(blocks.try_read_blocks(start, start + 900).is_some());
    assert!(blocks.try_read_blocks(start, start + 901).is_none());
    assert!(blocks.try_read_blocks(start + BLOCK_SECS, start + BLOCK_SECS + 1).is_none());
    // A closed market needs no fetch.
    let saturday: u64 = 1_700_265_600;
    assert!(matches!(
        blocks.look_up(&StockCalendar, saturday, saturday + 3600, "1H"),
        Ok(Lookup::Closed)
    ));
    assert_eq!(judge_reply(false, 1, 10, 5), Reply::Take);
    assert_eq!(judge_reply(true, 0, 5, 10), Reply::Take);
    assert_eq!((trade_key("5m"), analysis_key("1H")), ("5m:trade".to_string(), "1H:analysis".to_string()));
}

// ---- strategies ----------------------------------------------------------

#[test]
fn cells_are_crossed_and_filled() {
    let cells = vec![0, 5, 2, 7];
    assert_eq!((crossings(&cells, 0), crossings(&cells, 1), crossings(&cells, 3)), (13, 5, 0));
    let counts = occupancy(&vec![(100, 0), (150, 1), (200, 1), (260, 0)], 2, 100);
    assert_eq!(counts, vec![vec![1, 1], vec![1, 1]]);
    assert!(occupancy(&vec![(1, 0)], 2, 0).is_empty());
    let at = |t: i64| CandleStick::new(t, n(1.0), n(1.0), n(1.0), n(1.0), n(1.0));
    assert_eq!(median_gap(&vec![at(0), at(10), at(15), at(100)]), 10);
    assert_eq!(median_gap(&vec![at(0)]), 3600);
    assert_eq!(median_gap(&vec![at(5), at(5)]), 1);
}

#[test]
fn the_sieve_stops_at_a_jump() {
    let search = |cells: Vec<u64>, capacity: f64| Sieve::new(cells, 3, n(capacity), SieveConfig::default()).search(&calc);
    // Once the one border is crossed, finer cells cross no more.
    assert_eq!(search((0..100).map(|i| if i % 2 == 0 { 3 } else { 4 }).collect(), 8.0), Some(3));
    // Halving twice multiplies the crossings of a zigzag.
    assert_eq!(search((0..100).map(|i| if i % 2 == 0 { 0 } else { 7 }).collect(), 8.0), Some(1));
    // Levels without a width are passed over.
    assert_eq!(search(vec![0, 7], f64::INFINITY), None);
}

#[test]
fn a_range_is_divided_into_cells() {
    let values: Vec<Num> = (0..50).map(|i| n(if i % 2 == 0 { 11.0 } else { 19.0 })).collect();
    let g = AnalysisGrid::new(&values, n(10.0), n(20.0), 4, &calc);
    // Two cells are crossed at every move; four would be crossed three times.
    assert_eq!((f(g.step), g.num_cells(&calc), g.num_lines(&calc)), (5.0, 2, 3));
    let wide = SieveConfig { delta_multiplier: n(100.0), min_abs_delta: n(0.02) };
    let fine = AnalysisGrid::with_config(&values, n(10.0), n(20.0), 4, wide, &calc);
    assert_eq!((f(fine.step), fine.num_cells(&calc)), (0.625, 16));
    assert_eq!((g.cell(n(9.0), &calc), g.cell(n(14.9), &calc), g.cell(n(15.0), &calc), g.cell(n(20.0), &calc)), (0, 0, 1, 1));
    assert_eq!(g.cell(n(f64::NAN), &calc), 0);
    assert_eq!(g.crossings(&values, &calc), 49);
    assert_eq!(g.cell_range(1, &calc), Some((n(15.0), n(20.0))));
    assert_eq!(g.cell_range(2, &calc), None);
    assert_eq!(g.cell_ranges(&calc), vec![(0, n(10.0), n(15.0)), (1, n(15.0), n(20.0))]);
    let data = vec![(0, n(11.0)), (5, n(19.0)), (10, n(12.0))];
    assert_eq!(g.occupancy(&data, 10, &calc), vec![vec![1, 1], vec![1, 0]]);
    // Without a range there is one cell of width one.
    let none = AnalysisGrid::new(&values, n(20.0), n(10.0), 4, &calc);
    assert_eq!((f(none.step), f(none.offset)), (1.0, 20.0));
    assert_eq!(f(AnalysisGrid::new(&vec![], n(10.0), n(20.0), 4, &calc).step), 1.0);
}

#[test]
fn strategies_need_candles() {
    let s = strategy();
    assert_eq!(s.init(&calc), nums(&[0.25, 100_000.0, 4.0, 0.01, 172_800.0]));
    assert_eq!(s.analysis_span(500, &nums(&[0.0, 0.0, 0.0, 0.0, 800.9])), (0, 500));
    assert_eq!(s.max_candles(), 3);
    let data: Vec<_> = (0..9).map(|k| candle(k, 1.0)).collect();
    assert_eq!(s.interval(&data), Err(RebuildError::NotEnoughForAnalysis));
    let data: Vec<_> = (0..MIN_ANALYSIS_CANDLES).map(|k| candle(k, 1.0)).collect();
    assert_eq!(s.interval(&data), Ok(300));

    let mut v = VolatilityAdaptiveGridStrategy::new(8, n(1.5), n(2.0), 3600, 86_400, 900, n(10.0), 0);
    assert_eq!(v.next(100), 1000);
    assert_eq!(v.last_review, 100);
    assert_eq!(v.init(&calc), nums(&[0.25, 100_000.0, 1.5, 2.0, 3600.0, 86_400.0]));
    assert_eq!(v.rebuild_spans(90_000, &v.init(&calc)), ((86_400, 90_000), (3600, 90_000)));
    assert_eq!((v.atr_period(3600), v.atr_period(9000)), (14, 30));
    assert_eq!(v.max_candles(), 900);
    let build = |short: usize, long: usize, spread: f64| {
        let at = |k: usize, price: f64| {
            CandleStick::new(300 * k as i64, n(price), n(price + spread), n(price - spread), n(price), n(1.0))
        };
        let short: Vec<_> = (0..short).map(|k| at(k, 100.0)).collect();
        let long: Vec<_> = (0..long).map(|k| at(k, 100.0 + k as f64)).collect();
        let drifting = |g: AnalysisGrid, data: Vec<(i64, Num)>, gap: i64| {
            assert_eq!((gap, f(g.min)), (300, 100.0 - spread));
            assert_eq!((data.len(), data[9]), (long.len(), (2700, n(109.0))));
            (nums(&[0.75]), nums(&[0.25]))
        };
        v.rebuild(&vec![], &short, &long, &v.init(&calc), drifting, &calc)
    };
    assert_eq!(build(4, 99, 1.0).unwrap_err(), RebuildError::NotEnoughForAtr);
    assert_eq!(build(5, 9, 1.0).unwrap_err(), RebuildError::NotEnoughForAnalysis);
    assert_eq!(build(5, 10, 0.0).unwrap_err(), RebuildError::NoAtr);
    // The range is two, so the step is three. From 99 to 110 are 3.67 steps, and
    // one level more.
    let plan = build(5, 10, 1.0).unwrap();
    let g = &plan[0];
    assert_eq!(g.num_levels(), 5);
    assert_eq!(f(g.step(&calc)), 3.0);
    // The drift of the first cell lifts its long side beyond the bound.
    assert_eq!(g.long_win_p, nums(&[0.75; 5]));
    assert_eq!((f(g.short_win_pct(0)), f(g.short_win_pct(4))), (0.25, 0.25));
    assert_eq!((f(g.stoploss_pct()), g.max_candles), (2.0 * 2.0 / 109.0, 900));
    assert_eq!(f(g.weight(2, 899)), f(g.weights_normal(n(4.0), &calc)[2]));

    let bars = vec![bar(1.0, 2.0, 1.0, 1.5), bar(1.0, 3.0, 2.0, 2.5), bar(1.0, 2.25, 0.5, 1.0)];
    assert_eq!(f(calculate_atr(&bars, 9, &calc)), 1.75);
    assert_eq!(f(calculate_atr(&bars, 1, &calc)), 2.0);
    assert_eq!(f(calculate_atr(&bars, 0, &calc)), 0.0);
    assert_eq!(RebuildError::NoAtr.message(), "ATR calculation failed");
    let levels = |atr: f64, max: f64, times: f64| v.calculate_optimal_levels(n(atr), n(1.0), n(max), n(times), &calc);
    assert_eq!(levels(0.0, 2.0, 1.0), 2);
    assert_eq!(levels(1.0, 1.0, 1.0), 2);
    assert_eq!(levels(1.0, 5.0, 1.0), 5);
    assert_eq!(levels(1.0, 50.0, 1.0), 8);
    assert_eq!(levels(1.0, 2.0, 9.0), 2);
}

#[test]
fn records_count_from_three_trades_on() {
    let mut g = even_grid(2, 1.0, 2.0).unwrap();
    for pnl in [1.0, -1.0, 1.0] {
        g.record_trade_outcome(0, true, n(pnl));
    }
    let plan = vec![g];
    let (long, short) = evidence(&plan, 0, 0);
    assert_eq!(long, Evidence::Record { wins: 2, total: 3 });
    assert_eq!(short, Evidence::Model);
    assert_eq!(evidence(&plan, 1, 0), (Evidence::Model, Evidence::Model));
}

#[test]
fn win_probabilities_learn_from_outcomes() {
    let mut plan = vec![even_grid(3, 100.0, 110.0).unwrap(), even_grid(2, 1.0, 2.0).unwrap()];
    for pnl in [1.0, 1.0, 1.0, -1.0] {
        plan[0].record_trade_outcome(0, true, n(pnl));
    }
    plan[0].record_trade_outcome(1, true, n(1.0));
    for _ in 0..30 {
        plan[0].record_trade_outcome(2, false, n(-1.0));
    }
    assert!(counts_add_up(&plan));
    let before = plan.clone();
    update_win_probabilities(&mut plan, 3, n(4.0), &calc);
    // Four trades weigh as much as four that were never made.
    assert_eq!(plan[0].long_win_p, nums(&[0.625, 0.5, 0.5]));
    assert_eq!(plan[0].short_win_p, nums(&[0.5, 0.5, 0.25]));
    assert_eq!((&plan[1].long_win_p, &plan[1].short_win_p), (&before[1].long_win_p, &before[1].short_win_p));
    assert_eq!(plan[0].levels, before[0].levels);
    assert_eq!(plan[0].weights, before[0].weights);
    assert_eq!(plan[0].order_long_win_cnt, before[0].order_long_win_cnt);
    assert_eq!((plan[0].order_short_lost_cnt[2], plan[0].sl_pct), (30, before[0].sl_pct));
    // What was learnt is what the next outcomes are held against.
    update_win_probabilities(&mut plan, 3, n(4.0), &calc);
    assert_eq!(f(plan[0].long_win_pct(0)), 0.6875);
    // A level with fewer trades than asked for keeps its chances.
    let mut strict = before.clone();
    update_win_probabilities(&mut strict, 31, n(4.0), &calc);
    assert_eq!(strict[0].long_win_p, before[0].long_win_p);
    assert_eq!(strict[0].short_win_p, before[0].short_win_p);
    plan[1].order_long_win_cnt[1] = usize::MAX;
    assert!(counts_add_up(&plan));
    plan[1].order_long_lost_cnt[1] = 1;
    assert!(!counts_add_up(&plan));
}

#[test]
fn plans_are_tested_before_they_are_traded() {
    let mut plan = vec![even_grid(2, 1.0, 2.0).unwrap()];
    assert!(plan_is_sound(&plan) && plan_takes(&plan, usize::MAX));
    plan[0].record_trade_outcome(1, false, n(1.0));
    assert!(plan_takes(&plan, usize::MAX - 1) && !plan_takes(&plan, usize::MAX));
    plan[0].weights[1].clear();
    assert!(!plan_is_sound(&plan));
    plan[0].weights[1].push(n(0.5));
    assert!(plan_is_sound(&plan));
    plan[0].order_long_lost_cnt.pop();
    assert!(!plan_is_sound(&plan));
    assert!(plan_is_sound(&vec![]));
}

#[test]
fn a_rebuild_lays_a_grid_over_each_cell() {
    let s = GridStrategy::new(2, n(0.01), n(10.0), 172_800, 900, 300);
    let data: Vec<_> = (0..10).map(|k| candle(k, if k % 2 == 0 { 100.0 } else { 109.0 })).collect();
    assert_eq!(price_range(&data), (n(98.0), n(111.0)));
    assert_eq!(price_range(&vec![]), (n(f64::INFINITY), n(f64::NEG_INFINITY)));
    // A zigzag between the ends is divided in two.
    let still = |g: AnalysisGrid, series: Vec<(i64, Num)>, gap: i64| {
        assert_eq!((gap, f(g.step)), (300, 6.5));
        assert_eq!(series, data.iter().map(|c| (c.t, c.c)).collect::<Vec<_>>());
        (nums(&[0.0, 0.5]), nums(&[0.0]))
    };
    let mut before: Vec<TradingGrid> = (0..3).map(|_| even_grid(2, 1.0, 2.0).unwrap()).collect();
    for _ in 0..3 {
        before[1].record_trade_outcome(1, true, n(1.0));
    }
    for pnl in [1.0, -1.0, -1.0] {
        before[1].record_trade_outcome(0, false, n(pnl));
    }
    let params = s.init(&calc);
    let plan = s.rebuild(&before, &data, &params, still, &calc).unwrap();
    assert_eq!(plan.len(), 2);
    assert_eq!((&plan[0].levels, &plan[1].levels), (&nums(&[98.0, 104.5]), &nums(&[104.5, 111.0])));
    // The model's word: no drift, then all of it upwards.
    assert_eq!(plan[0].long_win_p, nums(&[0.6, 0.5]));
    assert_eq!(plan[0].short_win_p, nums(&[0.5, 0.6]));
    // The record of the second cell where it is long enough, held back by what
    // its levels were thought to win before.
    let w = 3.0 / (3.0 + 10.0);
    assert_eq!(plan[1].long_win_p, nums(&[0.75, w * 1.0 + (1.0 - w) * 0.5]));
    assert_eq!(f(plan[1].short_win_pct(0)), w * (1.0 / 3.0) + (1.0 - w) * 0.5);
    assert_eq!(f(plan[1].short_win_pct(1)), 0.25);
    assert_eq!(before[1].long_win_p, nums(&[0.5, 0.5]));
    let bold = GridStrategy::new(2, n(0.01), n(0.0), 172_800, 900, 300);
    let plan = bold.rebuild(&before, &data, &params, still, &calc).unwrap();
    assert_eq!(plan[1].long_win_p, nums(&[0.75, 0.75]));
    assert_eq!(f(plan[1].short_win_pct(0)), 1.0 / 3.0);
    assert_eq!((plan[1].max_candles, plan[1].weight_cols()), (3, 3));
    assert_eq!((f(plan[1].weight(0, 2)), f(plan[1].weight(1, 0))), (0.5, 0.5));
    assert!(plan[1].order_long_win_cnt.iter().all(|c| *c == 0));
    let few = data[1..].to_vec();
    assert_eq!(s.rebuild(&before, &few, &params, still, &calc).unwrap_err(), RebuildError::NotEnoughForAnalysis);
}

// ---- quotes --------------------------------------------------------------

#[test]
fn levels_are_quoted() {
    let g = even_grid(3, 100.0, 110.0).unwrap().with_sl_pct(n(0.05));
    let q = quote_plan(&vec![g], 0, n(0.25), n(100_000.0), &calc);
    assert_eq!((q.len(), q[0].levels.len(), f(q[0].mid)), (1, 3, 105.0));
    let low = q[0].levels[0];
    assert_eq!((f(low.sl_long), f(low.sl_short)), (100.0 * 0.95, 100.0 * 1.05));
    assert_eq!((f(low.profit_long), f(low.profit_short)), (0.05, 0.0));
    // A third of one half wins one time in six: more than the stop's odds ask.
    assert_eq!(f(low.size_long), order_size(0.5 / 3.0, 0.05, 0.25, 100_000.0));
    assert_eq!(low.size_long, low.size_short);
}

#[test]
fn a_target_earns_what_its_level_promised() {
    let g = even_grid(3, 100.0, 110.0).unwrap();
    let q = quote_plan(&vec![g], 0, n(0.25), n(100_000.0), &calc);
    let long = Order { entry_price: n(100.0), tp_price: n(105.0), dtype: OrderType::Long, ..Default::default() };
    let fee = 0.001;
    assert_eq!(f(pnl_pct(long, long.tp_price, n(fee), &calc)), f(q[0].levels[0].profit_long) - fee);
    let short = Order { entry_price: n(110.0), tp_price: n(105.0), dtype: OrderType::Short, ..Default::default() };
    assert_eq!(f(pnl_pct(short, short.tp_price, n(fee), &calc)), f(q[0].levels[2].profit_short) - fee);
    let unknown = Order { entry_price: n(110.0), ..Default::default() };
    assert_eq!(f(pnl_pct(unknown, n(1.0), n(fee), &calc)), -fee);
    let unpriced = Order { entry_price: n(0.0), dtype: OrderType::Long, ..Default::default() };
    assert_eq!(f(flush_pnl_pct(unpriced, n(5.0), n(fee), &calc)), -fee);
    assert_eq!(flush_pnl_pct(long, n(105.0), n(fee), &calc), pnl_pct(long, n(105.0), n(fee), &calc));
}

// ---- fees ----------------------------------------------------------------

fn rate<T: Fee<fn(Calculation) -> Num>>(fee: &T) -> f64 {
    f(fee.rate(&(calc as fn(Calculation) -> Num)))
}

#[test]
fn test_vps_standard_rate() {
    let fee = VpsDerivativeFee::standard(n(1_300.0));
    let cv = f(fee.0.contract_value(&calc));
    assert_eq!(cv, 130_000_000.0);

    let expected_commission = (0.0005 * cv).max(10_000.0);
    let expected_vsd = 3_300.0;
    let expected_tax = 0.001 * cv;
    let expected_per_side = expected_commission + expected_vsd + expected_tax;
    let expected_rate = expected_per_side / cv;

    let rate = rate(&fee);
    assert!((rate - expected_rate).abs() < 1e-12, "rate={rate} expected={expected_rate}");
    assert!(rate > 0.0015 && rate < 0.0016, "rate={rate} out of expected range");
    assert_eq!(f(fee.0.fee_per_side(&calc)), expected_per_side);
    assert_eq!(f(fee.0.fee_round_trip(&calc)), 2.0 * expected_per_side);
}

#[test]
fn test_vps_internal_rate() {
    let fee = VpsDerivativeFee::internal(n(1_000.0));
    let rate = rate(&fee);
    assert!(rate > 0.0 && rate < 0.01, "rate={rate} seems unrealistic");
}

#[test]
fn test_mbs_standard_rate() {
    let fee = MbsDerivativeFee::standard(n(1_300.0));
    let rate = rate(&fee);
    assert!(rate > 0.0014 && rate < 0.0016, "rate={rate} out of range");
}

#[test]
fn test_ssi_standard_rate() {
    let fee = SsiDerivativeFee::standard(n(1_300.0));
    let rate = rate(&fee);
    assert!(rate > 0.0);
}

#[test]
fn test_simple_fixed_fee() {
    let fee = SimpleFixedFee::new(n(0.001));
    assert!((rate(&fee) - 0.001).abs() < 1e-12);
}

#[test]
fn test_min_commission_dominates() {
    let fee = VpsDerivativeFee::standard(n(10.0));
    let rate = rate(&fee);
    assert!(rate > 0.01, "min commission should dominate at low price: rate={rate}");
    assert!((rate - 0.0143).abs() < 1e-12);
}

#[test]
fn test_zero_assumed_price_fallback() {
    let fee = DerivativeFee {
        commission_rate: n(0.0005),
        min_commission: n(10_000.0),
        vsd_fee: n(3_300.0),
        tax_rate: n(0.001),
        contract_multiplier: n(100_000.0),
        assumed_price: n(0.0),
    };
    assert!((rate(&fee) - 0.0015).abs() < 1e-12, "fallback rate={}", rate(&fee));
}

#[test]
fn entry_gate_and_ledger_agree_on_round_trip_fee() {
    let calc = &(calc as fn(Calculation) -> Num);
    let fee = SimpleFixedFee::new(n(0.001));
    let one_side = 0.001;
    let round_trip = f(fee.round_trip_rate(calc));

    assert!((round_trip - 2.0 * one_side).abs() < 1e-12);

    let gross = 0.0015;
    assert!(gross > one_side);
    let net = f(fee.net_pnl_pct(n(gross), calc));
    assert!(net < 0.0, "net={net}");

    let good = 0.0025;
    assert!(good > round_trip);
    assert!(f(fee.net_pnl_pct(n(good), calc)) > 0.0);
}

#[test]
fn brokers_differ_in_their_commission() {
    assert_eq!(f(MbsDerivativeFee::prepaid(n(1.0)).0.min_commission), 0.0);
    assert_eq!(f(MbsDerivativeFee::prepaid(n(1.0)).0.commission_rate), 0.0003);
    assert_eq!(f(MbsDerivativeFee::standard(n(1.0)).0.commission_rate), 0.00045);
    assert_eq!(f(SsiDerivativeFee::standard(n(1.0)).0.min_commission), 8_000.0);
    assert_eq!(f(VpsDerivativeFee::internal(n(1.0)).0.commission_rate), 0.0003);
}

// ---- reports -------------------------------------------------------------

#[test]
fn a_history_is_reported() {
    let closed = |dtype: OrderType, pnl: f64, size: f64| Order {
        dtype,
        pnl_pct: Some(n(pnl)),
        size: n(size),
        ..Default::default()
    };
    let history = vec![
        closed(OrderType::Long, 0.5, 10.0),
        closed(OrderType::Short, -0.25, 4.0),
        closed(OrderType::Long, -0.5, 2.0),
        closed(OrderType::Short, 0.25, 8.0),
    ];
    let r = convert_order_history_into_report(&history, &calc);
    assert_eq!((r.total_trades, f(r.win_rate)), (4, 50.0));
    assert_eq!((f(r.net_pnl_pct), f(r.total_return)), (0.0, 0.0));
    assert_eq!((f(r.profit_factor), f(r.win_loss_ratio)), (1.0, 1.0));
    assert_eq!((f(r.avg_win_pct), f(r.avg_loss_pct), f(r.expectancy)), (37.5, 37.5, 0.0));
    // From 0.5 down to -0.25.
    assert_eq!((f(r.max_drawdown_pct), r.max_consecutive_losses), (75.0, 2));
    assert_eq!((f(r.sharpe_ratio), f(r.sortino_ratio), f(r.calmar_ratio)), (0.0, 0.0, 0.0));
    assert_eq!((r.long_trades, f(r.long_win_rate), r.short_trades, f(r.short_win_rate)), (2, 50.0, 2, 50.0));
    assert_eq!(f(r.net_pnl_abs), 5.0 - 1.0 - 1.0 + 2.0);

    let r = convert_order_history_into_report(&vec![closed(OrderType::Long, 0.5, 1.0), closed(OrderType::Long, 0.25, 1.0)], &calc);
    assert_eq!((f(r.profit_factor), f(r.win_loss_ratio)), (f64::INFINITY, f64::INFINITY));
    assert_eq!((f(r.max_drawdown_pct), f(r.calmar_ratio), f(r.sortino_ratio)), (0.0, 0.0, 0.0));
    assert!((f(r.sharpe_ratio) - 0.375 / 0.125 * 2.0f64.sqrt()).abs() < 1e-12);
    assert_eq!((r.short_trades, f(r.short_win_rate)), (0, 0.0));
    assert_eq!(convert_order_history_into_report(&vec![], &calc), Report::default());
}

#[test]
fn a_reordered_history_counts_the_same() {
    let closed = |dtype: OrderType, pnl: f64| Order { dtype, pnl_pct: Some(n(pnl)), size: n(1.0), ..Default::default() };
    let mut history = vec![
        closed(OrderType::Long, 0.5),
        closed(OrderType::Short, -0.25),
        Order::default(),
        closed(OrderType::Long, -0.5),
        closed(OrderType::Long, 0.125),
    ];
    let a = convert_order_history_into_report(&history, &calc);
    history.reverse();
    history.swap(0, 2);
    let b = convert_order_history_into_report(&history, &calc);
    assert_eq!((a.total_trades, a.long_trades, a.short_trades), (5, 3, 1));
    assert_eq!((b.total_trades, b.long_trades, b.short_trades), (5, 3, 1));
    assert_eq!((f(a.win_rate), f(b.win_rate)), (40.0, 40.0));
    assert_eq!((a.long_win_rate, a.short_win_rate), (b.long_win_rate, b.short_win_rate));
    assert_ne!(a.max_drawdown_pct, b.max_drawdown_pct);
}

// ---- sessions ------------------------------------------------------------

#[test]
fn a_session_starts_with_nothing() {
    let mut s = Session::new();
    assert_eq!((s.processed_upto(), s.has_open_orders()), (0, false));
    s.orders.push(Order::default());
    s.candle_ts = 7;
    assert_eq!((s.processed_upto(), s.has_open_orders()), (7, true));
}
