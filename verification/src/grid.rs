//! The trading grid: price levels with capital weights, win probabilities and
//! the outcomes of the orders placed on them.
use vstd::prelude::*;
use vstd::seq_lib::to_multiset_insert;

use crate::arith::{calculate, calculates, count, difference, product, quotient, sum, Calculation, ONE_BITS, TWO_BITS};
use crate::num::Num;
use crate::pricing::{
    centered_start, equal_share, even, even_step, linear_weights, normal_weights, share, space, spaced, start_around,
    trend_weights, weigh_evenly, weigh_linear, weigh_normal, weigh_trend,
};
use crate::rounding::{as_place, in_word, in_memory, truncate};

verus! {

/// 0.05, the stop-loss fraction of a grid that names none.
pub const DEFAULT_SL_BITS: u64 = 0x3FA9_9999_9999_999A;

/// 0.5, the win probability of a level that names none.
pub const DEFAULT_WIN_BITS: u64 = 0x3FE0_0000_0000_0000;

/// A grid of price levels, lowest first.
#[derive(Debug)]
pub struct TradingGrid {
    pub levels: Vec<Num>,
    pub sl_pct: Num,
    /// The most candles that the grid holds for; 0 where it holds on.
    pub max_candles: usize,
    /// Capital weights by level and candle.
    pub weights: Vec<Vec<Num>>,
    pub long_win_p: Vec<Num>,
    pub short_win_p: Vec<Num>,
    pub order_long_win_cnt: Vec<usize>,
    pub order_long_lost_cnt: Vec<usize>,
    pub order_short_win_cnt: Vec<usize>,
    pub order_short_lost_cnt: Vec<usize>,
}

/// What a grid holds.
#[verifier::ext_equal]
pub struct GridView {
    pub levels: Seq<Num>,
    pub sl_pct: Num,
    pub max_candles: usize,
    pub weights: Seq<Seq<Num>>,
    pub long_win_p: Seq<Num>,
    pub short_win_p: Seq<Num>,
    pub long_win: Seq<usize>,
    pub long_lost: Seq<usize>,
    pub short_win: Seq<usize>,
    pub short_lost: Seq<usize>,
}

/// The rows of a matrix.
pub open spec fn rows(v: Seq<Vec<Num>>) -> Seq<Seq<Num>> {
    Seq::new(v.len(), |i: int| v[i]@)
}

impl View for TradingGrid {
    type V = GridView;

    open spec fn view(&self) -> GridView {
        GridView {
            levels: self.levels@,
            sl_pct: self.sl_pct,
            max_candles: self.max_candles,
            weights: rows(self.weights@),
            long_win_p: self.long_win_p@,
            short_win_p: self.short_win_p@,
            long_win: self.order_long_win_cnt@,
            long_lost: self.order_long_lost_cnt@,
            short_win: self.order_short_win_cnt@,
            short_lost: self.order_short_lost_cnt@,
        }
    }
}

/// `n` copies of `x`.
pub open spec fn repeated<T>(x: T, n: nat) -> Seq<T> {
    Seq::new(n, |i: int| x)
}

/// Entry `j`, or `default` past the end.
pub open spec fn get_or<T>(s: Seq<T>, j: int, default: T) -> T {
    if j < s.len() {
        s[j]
    } else {
        default
    }
}

/// `s` with one more at `j`; unchanged past its end.
pub open spec fn bumped(s: Seq<usize>, j: int) -> Seq<usize> {
    if j < s.len() {
        s.update(j, (s[j] + 1) as usize)
    } else {
        s
    }
}

/// `row` cut or extended with its last entry to `n` entries.
pub open spec fn resized(row: Seq<Num>, n: nat) -> Seq<Num> {
    Seq::new(n, |t: int| if t < row.len() { row[t] } else if row.len() > 0 { row.last() } else { Num { bits: 0 } })
}

/// The least step at which a trade makes a profit after the fee of both sides.
pub open spec fn least_step<F: Fn(Calculation) -> Num>(f: F, fee_rate: Num, at_price: Num) -> Num {
    product(f, product(f, Num { bits: TWO_BITS }, fee_rate), at_price)
}

/// 1.001, how much wider than the least step a range is to be.
pub const STEP_MARGIN_BITS: u64 = 0x3FF0_0418_9374_BC6A;

/// Whether a range of this width leaves less than two steps of the least size.
pub open spec fn too_narrow<F: Fn(Calculation) -> Num>(f: F, width: Num, least: Num) -> bool {
    least.at_most(Num { bits: 0 }) || width.at_most(product(f, least, Num { bits: STEP_MARGIN_BITS }))
}

/// Whether a range of this width cut by `k` levels has steps above the least one.
pub open spec fn pays_with<F: Fn(Calculation) -> Num>(f: F, width: Num, least: Num, k: int) -> bool {
    least.below(quotient(f, width, count(f, k - 1)))
}

/// One level more than the least steps that the width holds: with more levels
/// the steps would be smaller than the least one.
pub open spec fn level_limit<F: Fn(Calculation) -> Num>(f: F, width: Num, least: Num) -> usize {
    let x = quotient(f, width, least);
    let steps = in_memory(in_word(x, x.whole()));
    if steps == usize::MAX {
        usize::MAX
    } else {
        (steps + 1) as usize
    }
}

/// Whether `k` is the most levels in a range whose step makes a profit after
/// fees, or two where not even three do.
pub open spec fn is_most_levels<F: Fn(Calculation) -> Num>(f: F, min: Num, max: Num, fee_rate: Num, k: usize) -> bool {
    let width = difference(f, max, min);
    let least = least_step(f, fee_rate, min);
    if too_narrow(f, width, least) {
        k == 2
    } else {
        &&& k == 2 || 2 < k <= level_limit(f, width, least) && pays_with(f, width, least, k as int)
        &&& forall|j: int| k < j <= level_limit(f, width, least) ==> !#[trigger] pays_with(f, width, least, j)
    }
}

/// Whether the prices do not fall.
pub open spec fn ascending(s: Seq<Num>) -> bool {
    forall|i: int, j: int| 0 <= i <= j < s.len() ==> (#[trigger] s[i]).key() <= (#[trigger] s[j]).key()
}

/// Whether `r` is `s` in ascending order.
pub open spec fn is_sorted_of(s: Seq<Num>, r: Seq<Num>) -> bool {
    ascending(r) && r.to_multiset() == s.to_multiset()
}

impl GridView {
    /// Every level has weights, win probabilities and counts.
    pub open spec fn inv(self) -> bool {
        let k = self.levels.len();
        &&& k >= 2
        &&& self.weights.len() == k
        &&& forall|j: int| 0 <= j < k ==> (#[trigger] self.weights[j]).len() > 0
        &&& self.long_win_p.len() == k
        &&& self.short_win_p.len() == k
        &&& self.long_win.len() == k
        &&& self.long_lost.len() == k
        &&& self.short_win.len() == k
        &&& self.short_lost.len() == k
    }

    /// A grid over `levels` with nothing else set; `share` is one level's equal
    /// share of the capital.
    pub open spec fn plain(levels: Seq<Num>, share: Num) -> GridView {
        let k = levels.len();
        GridView {
            levels,
            sl_pct: Num { bits: DEFAULT_SL_BITS },
            max_candles: 0,
            weights: repeated(seq![share], k),
            long_win_p: repeated(Num { bits: DEFAULT_WIN_BITS }, k),
            short_win_p: repeated(Num { bits: DEFAULT_WIN_BITS }, k),
            long_win: repeated(0usize, k),
            long_lost: repeated(0usize, k),
            short_win: repeated(0usize, k),
            short_lost: repeated(0usize, k),
        }
    }

    /// The candles that the weights tell apart.
    pub open spec fn weight_cols(self) -> nat {
        if self.max_candles > 0 {
            self.max_candles as nat
        } else {
            1
        }
    }

    /// The weight of level `j` at candle `t`; past the last column, that of the
    /// last column.
    pub open spec fn weight(self, j: int, t: int) -> Num {
        let row = self.weights[j];
        if t < row.len() {
            row[t]
        } else {
            row[row.len() - 1]
        }
    }

    /// The stop-loss price of a long order at level `j`.
    pub open spec fn stop_long<F: Fn(Calculation) -> Num>(self, f: F, j: int) -> Num {
        product(f, self.levels[j], difference(f, Num { bits: ONE_BITS }, self.sl_pct))
    }

    /// The stop-loss price of a short order at level `j`.
    pub open spec fn stop_short<F: Fn(Calculation) -> Num>(self, f: F, j: int) -> Num {
        product(f, self.levels[j], sum(f, Num { bits: ONE_BITS }, self.sl_pct))
    }

    /// A grid evenly spaced over a range.
    pub open spec fn even<F: Fn(Calculation) -> Num>(f: F, levels: usize, min: Num, max: Num) -> GridView {
        GridView::stepped(f, levels, min, even_step(f, levels, min, max))
    }

    /// A grid from a start, one step apart.
    pub open spec fn stepped<F: Fn(Calculation) -> Num>(f: F, levels: usize, start: Num, step: Num) -> GridView {
        GridView::plain(spaced(f, levels, start, step), equal_share(f, levels))
    }

    /// A grid around a centre, one step apart.
    pub open spec fn around<F: Fn(Calculation) -> Num>(f: F, levels: usize, center: Num, step: Num) -> GridView {
        GridView::stepped(f, levels, centered_start(f, levels, center, step), step)
    }

    pub open spec fn with_weights(self, base: Seq<Num>) -> GridView {
        if base.len() == self.weights.len() {
            GridView { weights: Seq::new(base.len(), |j: int| repeated(base[j], self.weight_cols())), ..self }
        } else {
            self
        }
    }

    pub open spec fn with_max_candles(self, n: usize) -> GridView {
        let weights = if n > self.weight_cols() {
            Seq::new(self.weights.len(), |j: int| resized(self.weights[j], n as nat))
        } else {
            self.weights
        };
        GridView { weights, max_candles: n, ..self }
    }

    pub open spec fn with_win_probabilities(self, long: Seq<Num>, short: Seq<Num>) -> GridView {
        if long.len() == self.long_win_p.len() && short.len() == self.short_win_p.len() {
            GridView { long_win_p: long, short_win_p: short, ..self }
        } else {
            self
        }
    }

    /// The grid once an order at `level` has ended: a profit above zero is a
    /// win, anything else a loss.
    pub open spec fn with_outcome(self, level: int, is_long: bool, pnl: Num) -> GridView {
        let won = !pnl.nan() && pnl.key() > 0;
        if won && is_long {
            GridView { long_win: bumped(self.long_win, level), ..self }
        } else if won {
            GridView { short_win: bumped(self.short_win, level), ..self }
        } else if is_long {
            GridView { long_lost: bumped(self.long_lost, level), ..self }
        } else {
            GridView { short_lost: bumped(self.short_lost, level), ..self }
        }
    }

    /// Whether every count has room for `n` more outcomes.
    pub open spec fn has_room(self, n: int) -> bool {
        forall|j: int| #![trigger self.long_win[j]]
            #![trigger self.long_lost[j]]
            #![trigger self.short_win[j]]
            #![trigger self.short_lost[j]]
            {
                &&& 0 <= j < self.long_win.len() ==> self.long_win[j] + n <= usize::MAX
                &&& 0 <= j < self.long_lost.len() ==> self.long_lost[j] + n <= usize::MAX
                &&& 0 <= j < self.short_win.len() ==> self.short_win[j] + n <= usize::MAX
                &&& 0 <= j < self.short_lost.len() ==> self.short_lost[j] + n <= usize::MAX
            }
    }

    /// The take-profit of a long order at level `j`: the next level up, or the
    /// level itself at the top.
    pub open spec fn tp_above(self, j: int) -> Num {
        if j + 1 < self.levels.len() {
            self.levels[j + 1]
        } else {
            self.levels[j]
        }
    }

    /// The take-profit of a short order at level `j`: the next level down, or
    /// the level itself at the bottom.
    pub open spec fn tp_below(self, j: int) -> Num {
        if j > 0 {
            self.levels[j - 1]
        } else {
            self.levels[j]
        }
    }
}

pub fn repeat<T: Copy>(x: T, n: usize) -> (r: Vec<T>)
    ensures
        r@ == repeated(x, n as nat),
{
    let mut v: Vec<T> = Vec::new();
    let mut i: usize = 0;
    while i < n
        invariant
            i <= n,
            v@ == repeated(x, i as nat),
        decreases n - i,
    {
        v.push(x);
        i += 1;
        assert(v@ =~= repeated(x, i as nat));
    }
    v
}

spec fn counts_take(counts: Seq<usize>, n: int) -> bool {
    forall|j: int| #![trigger counts[j]] 0 <= j < counts.len() ==> counts[j] + n <= usize::MAX
}

fn all_take(counts: &Vec<usize>, more: usize) -> (r: bool)
    ensures
        r == counts_take(counts@, more as int),
{
    let most: usize = usize::MAX - more;
    let mut j: usize = 0;
    while j < counts.len()
        invariant
            j <= counts@.len(),
            most == usize::MAX - more,
            forall|q: int| #![trigger counts@[q]] 0 <= q < j ==> counts@[q] + more <= usize::MAX,
        decreases counts@.len() - j,
    {
        if counts[j] > most {
            assert(counts@[j as int] + more > usize::MAX);
            return false;
        }
        j += 1;
    }
    true
}

fn copied<T: Copy>(v: &Vec<T>) -> (r: Vec<T>)
    ensures
        r@ == v@,
{
    let mut r: Vec<T> = Vec::new();
    let mut i: usize = 0;
    while i < v.len()
        invariant
            i <= v@.len(),
            r@ == v@.take(i as int),
        decreases v@.len() - i,
    {
        r.push(v[i]);
        i += 1;
        assert(r@ =~= v@.take(i as int));
    }
    assert(r@ =~= v@);
    r
}

fn copied_rows(v: &Vec<Vec<Num>>) -> (r: Vec<Vec<Num>>)
    ensures
        rows(r@) == rows(v@),
{
    let mut r: Vec<Vec<Num>> = Vec::new();
    let mut i: usize = 0;
    while i < v.len()
        invariant
            i <= v@.len(),
            rows(r@) == rows(v@).take(i as int),
        decreases v@.len() - i,
    {
        let ghost before = r@;
        let row = copied(&v[i]);
        r.push(row);
        assert(rows(r@) =~= rows(before).push(row@));
        i += 1;
        assert(rows(r@) =~= rows(v@).take(i as int));
    }
    assert(rows(r@) =~= rows(v@));
    r
}

impl Clone for TradingGrid {
    fn clone(&self) -> (r: TradingGrid)
        ensures
            r@ == self@,
    {
        TradingGrid {
            levels: copied(&self.levels),
            sl_pct: self.sl_pct,
            max_candles: self.max_candles,
            weights: copied_rows(&self.weights),
            long_win_p: copied(&self.long_win_p),
            short_win_p: copied(&self.short_win_p),
            order_long_win_cnt: copied(&self.order_long_win_cnt),
            order_long_lost_cnt: copied(&self.order_long_lost_cnt),
            order_short_win_cnt: copied(&self.order_short_win_cnt),
            order_short_lost_cnt: copied(&self.order_short_lost_cnt),
        }
    }
}

fn columns(base: &Vec<Num>, cols: usize) -> (r: Vec<Vec<Num>>)
    ensures
        rows(r@) == Seq::new(base@.len(), |j: int| repeated(base@[j], cols as nat)),
{
    let mut v: Vec<Vec<Num>> = Vec::new();
    let mut j: usize = 0;
    let ghost all = Seq::new(base@.len(), |j: int| repeated(base@[j], cols as nat));
    while j < base.len()
        invariant
            j <= base@.len(),
            all == Seq::new(base@.len(), |j: int| repeated(base@[j], cols as nat)),
            rows(v@) == all.take(j as int),
        decreases base@.len() - j,
    {
        let ghost before = v@;
        let row = repeat(base[j], cols);
        v.push(row);
        assert(rows(v@) =~= rows(before).push(row@));
        j += 1;
        assert(all.take(j as int) =~= all.take(j - 1).push(row@));
    }
    assert(all.take(j as int) =~= all);
    v
}

/// The prices in ascending order.
pub fn sort_prices(prices: &Vec<Num>) -> (r: Vec<Num>)
    requires
        forall|i: int| 0 <= i < prices@.len() ==> !(#[trigger] prices@[i]).nan(),
    ensures
        is_sorted_of(prices@, r@),
        r@.len() == prices@.len(),
        forall|i: int| 0 <= i < r@.len() ==> !(#[trigger] r@[i]).nan(),
{
    let mut out: Vec<Num> = Vec::new();
    let mut i: usize = 0;
    assert(prices@.take(0) =~= Seq::<Num>::empty());
    while i < prices.len()
        invariant
            i <= prices@.len(),
            forall|i: int| 0 <= i < prices@.len() ==> !(#[trigger] prices@[i]).nan(),
            out@.len() == i,
            ascending(out@),
            out@.to_multiset() == prices@.take(i as int).to_multiset(),
            forall|i: int| 0 <= i < out@.len() ==> !(#[trigger] out@[i]).nan(),
        decreases prices@.len() - i,
    {
        let x = prices[i];
        let mut p: usize = 0;
        while p < out.len() && out[p].le(x)
            invariant
                p <= out@.len(),
                !x.nan(),
                forall|k: int| 0 <= k < p ==> (#[trigger] out@[k]).key() <= x.key(),
                forall|i: int| 0 <= i < out@.len() ==> !(#[trigger] out@[i]).nan(),
            ensures
                p <= out@.len(),
                forall|k: int| 0 <= k < p ==> (#[trigger] out@[k]).key() <= x.key(),
                p < out@.len() ==> out@[p as int].key() > x.key(),
            decreases out@.len() - p,
        {
            p += 1;
        }
        let ghost before = out@;
        out.insert(p, x);
        proof {
            to_multiset_insert(before, p as int, x);
            to_multiset_insert(prices@.take(i as int), i as int, x);
            assert(prices@.take(i + 1) =~= prices@.take(i as int).insert(i as int, x));
            assert forall|a: int, b: int| 0 <= a <= b < out@.len() implies (#[trigger] out@[a]).key() <= (
            #[trigger] out@[b]).key() by {
                let a0 = if a < p { a } else { a - 1 };
                let b0 = if b < p { b } else { b - 1 };
                if a < p && b > p {
                    assert(before[a].key() <= before[b - 1].key());
                } else if a > p {
                    assert(before[a - 1].key() <= before[b - 1].key());
                } else if b < p {
                    assert(before[a].key() <= before[b].key());
                } else if a == p && b > p {
                    assert(before[p as int].key() <= before[b - 1].key());
                }
            }
        }
        i += 1;
    }
    assert(prices@.take(i as int) =~= prices@);
    out
}

impl TradingGrid {
    fn plain(levels: Vec<Num>, share: Num) -> (r: TradingGrid)
        ensures
            r@ == GridView::plain(levels@, share),
    {
        let k: usize = levels.len();
        let shares = repeat(share, k);
        let weights = columns(&shares, 1);
        let r = TradingGrid {
            levels,
            sl_pct: Num { bits: DEFAULT_SL_BITS },
            max_candles: 0,
            weights,
            long_win_p: repeat(Num { bits: DEFAULT_WIN_BITS }, k),
            short_win_p: repeat(Num { bits: DEFAULT_WIN_BITS }, k),
            order_long_win_cnt: repeat(0usize, k),
            order_long_lost_cnt: repeat(0usize, k),
            order_short_win_cnt: repeat(0usize, k),
            order_short_lost_cnt: repeat(0usize, k),
        };
        assert(repeated(share, 1) =~= seq![share]);
        assert(r@.weights =~= repeated(seq![share], levels@.len()));
        r
    }

    /// A grid of `levels` evenly spaced from `min` to `max`; none with fewer
    /// than two levels or without a range.
    pub fn new<F: Fn(Calculation) -> Num>(levels: usize, min: Num, max: Num, f: &F) -> (r: Option<TradingGrid>)
        requires
            calculates(*f),
        ensures
            r is Some <==> levels >= 2 && min.below(max),
            r matches Some(g) ==> g@ == GridView::even(*f, levels, min, max) && g@.inv(),
    {
        if levels < 2 || !min.lt(max) {
            return None;
        }
        let step = even(f, levels, min, max);
        Some(TradingGrid::plain(space(f, levels, min, step), share(f, levels)))
    }

    /// A grid of `levels` from a start, one step apart; none with fewer than two
    /// levels or a step of zero.
    pub fn from_step<F: Fn(Calculation) -> Num>(levels: usize, start: Num, step: Num, f: &F) -> (r: Option<TradingGrid>)
        requires
            calculates(*f),
        ensures
            r is Some <==> levels >= 2 && (step.nan() || step.key() != 0),
            r matches Some(g) ==> g@ == GridView::stepped(*f, levels, start, step) && g@.inv(),
    {
        let zero = Num::zero();
        if levels < 2 || (step.le(zero) && zero.le(step)) {
            return None;
        }
        Some(TradingGrid::plain(space(f, levels, start, step), share(f, levels)))
    }

    /// A grid of `levels` around a centre, one step apart; none with fewer than
    /// two levels or a step that is zero or less.
    pub fn centered<F: Fn(Calculation) -> Num>(levels: usize, center: Num, step: Num, f: &F) -> (r: Option<TradingGrid>)
        requires
            calculates(*f),
        ensures
            r is Some <==> levels >= 2 && !step.at_most(Num { bits: 0 }),
            r matches Some(g) ==> g@ == GridView::around(*f, levels, center, step) && g@.inv(),
    {
        if levels < 2 || step.le(Num::zero()) {
            return None;
        }
        let start = start_around(f, levels, center, step);
        TradingGrid::from_step(levels, start, step, f)
    }

    /// A grid over the given levels, sorted; none with fewer than two.
    pub fn from_levels<F: Fn(Calculation) -> Num>(levels: &Vec<Num>, f: &F) -> (r: Option<TradingGrid>)
        requires
            calculates(*f),
            forall|i: int| 0 <= i < levels@.len() ==> !(#[trigger] levels@[i]).nan(),
        ensures
            r is Some <==> levels@.len() >= 2,
            r matches Some(g) ==> is_sorted_of(levels@, g@.levels) && g@ == GridView::plain(
                g@.levels,
                equal_share(*f, levels.len()),
            ) && g@.inv(),
            r matches Some(g) ==> g@.levels.len() == levels@.len(),
    {
        if levels.len() < 2 {
            return None;
        }
        let sorted = sort_prices(levels);
        Some(TradingGrid::plain(sorted, share(f, levels.len())))
    }

    /// The number of levels.
    pub fn num_levels(&self) -> (r: usize)
        ensures
            r == self@.levels.len(),
    {
        self.levels.len()
    }

    /// The price of level `j`.
    pub fn level_price(&self, j: usize) -> (r: Num)
        requires
            j < self@.levels.len(),
        ensures
            r == self@.levels[j as int],
    {
        self.levels[j]
    }

    /// The distance of the first two levels.
    pub fn step<F: Fn(Calculation) -> Num>(&self, f: &F) -> (r: Num)
        requires
            calculates(*f),
            self@.levels.len() >= 2,
        ensures
            r == difference(*f, self@.levels[1], self@.levels[0]),
    {
        calculate(f, Calculation::Difference(self.levels[1], self.levels[0]))
    }

    /// The stop-loss price of a long order at level `j`.
    pub fn sl_long<F: Fn(Calculation) -> Num>(&self, j: usize, f: &F) -> (r: Num)
        requires
            calculates(*f),
            j < self@.levels.len(),
        ensures
            r == self@.stop_long(*f, j as int),
    {
        let keep = calculate(f, Calculation::Difference(Num { bits: ONE_BITS }, self.sl_pct));
        calculate(f, Calculation::Product(self.levels[j], keep))
    }

    /// The stop-loss price of a short order at level `j`.
    pub fn sl_short<F: Fn(Calculation) -> Num>(&self, j: usize, f: &F) -> (r: Num)
        requires
            calculates(*f),
            j < self@.levels.len(),
        ensures
            r == self@.stop_short(*f, j as int),
    {
        let more = calculate(f, Calculation::Sum(Num { bits: ONE_BITS }, self.sl_pct));
        calculate(f, Calculation::Product(self.levels[j], more))
    }

    /// Weights that peak in the middle.
    pub fn weights_normal<F: Fn(Calculation) -> Num>(&self, sharpness: Num, f: &F) -> (r: Vec<Num>)
        requires
            calculates(*f),
        ensures
            r@ == normal_weights(*f, self.levels.len(), sharpness),
    {
        weigh_normal(f, self.levels.len(), sharpness)
    }

    /// Equal weights.
    pub fn weights_uniform<F: Fn(Calculation) -> Num>(&self, f: &F) -> (r: Vec<Num>)
        requires
            calculates(*f),
        ensures
            r@ == repeated(equal_share(*f, self.levels.len()), self@.levels.len()),
    {
        weigh_evenly(f, self.levels.len())
    }

    /// Weights that rise, or fall, by the same step.
    pub fn weights_linear<F: Fn(Calculation) -> Num>(&self, ascending: bool, f: &F) -> (r: Vec<Num>)
        requires
            calculates(*f),
        ensures
            r@ == linear_weights(*f, self.levels.len(), ascending),
    {
        weigh_linear(f, self.levels.len(), ascending)
    }

    /// Weights that favour the side of a trend.
    pub fn weights_trend<F: Fn(Calculation) -> Num>(&self, direction: Num, strength: Num, f: &F) -> (r: Vec<Num>)
        requires
            calculates(*f),
        ensures
            r@ == trend_weights(*f, self.levels.len(), direction, strength),
    {
        weigh_trend(f, self.levels.len(), direction, strength)
    }

    /// The grid with weights that peak in the middle.
    pub fn with_weights_normal<F: Fn(Calculation) -> Num>(self, sharpness: Num, f: &F) -> (r: TradingGrid)
        requires
            calculates(*f),
            self@.inv(),
        ensures
            r@ == self@.with_weights(normal_weights(*f, self.levels.len(), sharpness)),
            r@.inv(),
    {
        let base = self.weights_normal(sharpness, f);
        self.with_weights(&base)
    }

    /// The grid with equal weights.
    pub fn with_weights_uniform<F: Fn(Calculation) -> Num>(self, f: &F) -> (r: TradingGrid)
        requires
            calculates(*f),
            self@.inv(),
        ensures
            r@ == self@.with_weights(repeated(equal_share(*f, self.levels.len()), self@.levels.len())),
            r@.inv(),
    {
        let base = self.weights_uniform(f);
        self.with_weights(&base)
    }

    /// The grid with weights that rise, or fall, by the same step.
    pub fn with_weights_linear<F: Fn(Calculation) -> Num>(self, ascending: bool, f: &F) -> (r: TradingGrid)
        requires
            calculates(*f),
            self@.inv(),
        ensures
            r@ == self@.with_weights(linear_weights(*f, self.levels.len(), ascending)),
            r@.inv(),
    {
        let base = self.weights_linear(ascending, f);
        self.with_weights(&base)
    }

    /// The grid with weights that favour the side of a trend.
    pub fn with_weights_trend<F: Fn(Calculation) -> Num>(self, direction: Num, strength: Num, f: &F) -> (r: TradingGrid)
        requires
            calculates(*f),
            self@.inv(),
        ensures
            r@ == self@.with_weights(trend_weights(*f, self.levels.len(), direction, strength)),
            r@.inv(),
    {
        let base = self.weights_trend(direction, strength, f);
        self.with_weights(&base)
    }

    /// The least step at which a trade makes a profit after its fees.
    pub fn min_profitable_step<F: Fn(Calculation) -> Num>(fee_rate: Num, at_price: Num, f: &F) -> (r: Num)
        requires
            calculates(*f),
        ensures
            r == least_step(*f, fee_rate, at_price),
    {
        let both = calculate(f, Calculation::Product(Num { bits: TWO_BITS }, fee_rate));
        calculate(f, Calculation::Product(both, at_price))
    }

    /// Whether a trade from one level to the next makes a profit after its fees.
    pub fn is_step_profitable<F: Fn(Calculation) -> Num>(&self, fee_rate: Num, at_price: Num, f: &F) -> (r: bool)
        requires
            calculates(*f),
            self@.levels.len() >= 2,
        ensures
            r == least_step(*f, fee_rate, at_price).below(difference(*f, self@.levels[1], self@.levels[0])),
    {
        let step = self.step(f);
        TradingGrid::min_profitable_step(fee_rate, at_price, f).lt(step)
    }

    /// The most levels in a range whose step makes a profit after fees; two where
    /// the range is too narrow.
    pub fn max_levels_for_profit<F: Fn(Calculation) -> Num>(min: Num, max: Num, fee_rate: Num, f: &F) -> (r: usize)
        requires
            calculates(*f),
        ensures
            is_most_levels(*f, min, max, fee_rate, r),
    {
        let width = calculate(f, Calculation::Difference(max, min));
        let least = TradingGrid::min_profitable_step(fee_rate, min, f);
        let bar = calculate(f, Calculation::Product(least, Num { bits: STEP_MARGIN_BITS }));
        if least.le(Num::zero()) || width.le(bar) {
            return 2;
        }
        let steps = as_place(truncate(calculate(f, Calculation::Quotient(width, least))));
        let mut k: usize = if steps == usize::MAX {
            usize::MAX
        } else {
            steps + 1
        };
        while k > 2
            invariant
                calculates(*f),
                width == difference(*f, max, min),
                least == least_step(*f, fee_rate, min),
                !too_narrow(*f, width, least),
                k <= level_limit(*f, width, least),
                forall|j: int| k < j <= level_limit(*f, width, least) ==> !#[trigger] pays_with(*f, width, least, j),
            decreases k,
        {
            let parts = calculate(f, Calculation::Count((k - 1) as u128));
            let step = calculate(f, Calculation::Quotient(width, parts));
            if least.lt(step) {
                return k;
            }
            assert(!pays_with(*f, width, least, k as int));
            k -= 1;
        }
        2
    }

    /// The weight of level `j` at candle `t`.
    pub fn weight(&self, j: usize, t: usize) -> (r: Num)
        requires
            self@.inv(),
            j < self@.levels.len(),
        ensures
            r == self@.weight(j as int, t as int),
    {
        assert(self@.weights[j as int] == self.weights@[j as int]@);
        let row = &self.weights[j];
        let last: usize = row.len() - 1;
        let col: usize = if t < last { t } else { last };
        row[col]
    }

    /// The candles that the weights tell apart.
    pub fn weight_cols(&self) -> (r: usize)
        ensures
            r == self@.weight_cols(),
    {
        if self.max_candles > 0 {
            self.max_candles
        } else {
            1
        }
    }

    /// The win probability of a long order at level `j`; 0 past the last.
    pub fn long_win_pct(&self, j: usize) -> (r: Num)
        ensures
            r == get_or(self@.long_win_p, j as int, Num { bits: 0 }),
    {
        if j >= self.long_win_p.len() {
            Num { bits: 0 }
        } else {
            self.long_win_p[j]
        }
    }

    /// The win probability of a short order at level `j`; 0 past the last.
    pub fn short_win_pct(&self, j: usize) -> (r: Num)
        ensures
            r == get_or(self@.short_win_p, j as int, Num { bits: 0 }),
    {
        if j >= self.short_win_p.len() {
            Num { bits: 0 }
        } else {
            self.short_win_p[j]
        }
    }

    /// Long orders won at level `j`; 0 past the last.
    pub fn long_win_count(&self, j: usize) -> (r: usize)
        ensures
            r == get_or(self@.long_win, j as int, 0),
    {
        if j >= self.order_long_win_cnt.len() {
            0
        } else {
            self.order_long_win_cnt[j]
        }
    }

    /// Long orders lost at level `j`; 0 past the last.
    pub fn long_lost_count(&self, j: usize) -> (r: usize)
        ensures
            r == get_or(self@.long_lost, j as int, 0),
    {
        if j >= self.order_long_lost_cnt.len() {
            0
        } else {
            self.order_long_lost_cnt[j]
        }
    }

    /// Short orders won at level `j`; 0 past the last.
    pub fn short_win_count(&self, j: usize) -> (r: usize)
        ensures
            r == get_or(self@.short_win, j as int, 0),
    {
        if j >= self.order_short_win_cnt.len() {
            0
        } else {
            self.order_short_win_cnt[j]
        }
    }

    /// Short orders lost at level `j`; 0 past the last.
    pub fn short_lost_count(&self, j: usize) -> (r: usize)
        ensures
            r == get_or(self@.short_lost, j as int, 0),
    {
        if j >= self.order_short_lost_cnt.len() {
            0
        } else {
            self.order_short_lost_cnt[j]
        }
    }

    /// Counts the outcome of an order at `level`.
    pub fn record_trade_outcome(&mut self, level: usize, is_long: bool, pnl_pct: Num)
        requires
            old(self)@.has_room(1),
        ensures
            final(self)@ == old(self)@.with_outcome(level as int, is_long, pnl_pct),
    {
        let ghost before = self@;
        if pnl_pct.is_positive() {
            if is_long {
                if level < self.order_long_win_cnt.len() {
                    assert(before.long_win[level as int] + 1 <= usize::MAX);
                    let c = self.order_long_win_cnt[level];
                    self.order_long_win_cnt.set(level, c + 1);
                }
            } else if level < self.order_short_win_cnt.len() {
                assert(before.short_win[level as int] + 1 <= usize::MAX);
                let c = self.order_short_win_cnt[level];
                self.order_short_win_cnt.set(level, c + 1);
            }
        } else if is_long {
            if level < self.order_long_lost_cnt.len() {
                assert(before.long_lost[level as int] + 1 <= usize::MAX);
                let c = self.order_long_lost_cnt[level];
                self.order_long_lost_cnt.set(level, c + 1);
            }
        } else if level < self.order_short_lost_cnt.len() {
            assert(before.short_lost[level as int] + 1 <= usize::MAX);
            let c = self.order_short_lost_cnt[level];
            self.order_short_lost_cnt.set(level, c + 1);
        }
        assert(self@ =~= before.with_outcome(level as int, is_long, pnl_pct));
    }

    /// The stop-loss fraction.
    pub fn stoploss_pct(&self) -> (r: Num)
        ensures
            r == self@.sl_pct,
    {
        self.sl_pct
    }

    /// Sets the stop-loss fraction.
    pub fn with_sl_pct(self, sl_pct: Num) -> (r: TradingGrid)
        ensures
            r@ == (GridView { sl_pct, ..self@ }),
    {
        TradingGrid { sl_pct, ..self }
    }

    /// Sets one weight per level for every candle; unchanged where the number
    /// of weights is not the number of levels.
    pub fn with_weights(self, base: &Vec<Num>) -> (r: TradingGrid)
        ensures
            r@ == self@.with_weights(base@),
            self@.inv() ==> r@.inv(),
    {
        if base.len() == self.weights.len() {
            let cols = self.weight_cols();
            let weights = columns(base, cols);
            let r = TradingGrid { weights, ..self };
            assert(r@ =~= self@.with_weights(base@));
            r
        } else {
            self
        }
    }

    /// Sets the weights by level and candle; unchanged where the number of rows
    /// is not the number of levels. The candles told apart are those of the
    /// first row.
    pub fn with_weight_matrix(self, matrix: Vec<Vec<Num>>) -> (r: TradingGrid)
        requires
            self@.weights.len() > 0,
            forall|j: int| 0 <= j < matrix@.len() ==> (#[trigger] matrix@[j])@.len() > 0,
        ensures
            r@ == (if matrix@.len() == self@.weights.len() {
                GridView {
                    weights: rows(matrix@),
                    max_candles: if matrix@[0]@.len() > 1 { matrix@[0]@.len() as usize } else { 0usize },
                    ..self@
                }
            } else {
                self@
            }),
            self@.inv() ==> r@.inv(),
    {
        if matrix.len() == self.weights.len() {
            let width: usize = matrix[0].len();
            let max_candles: usize = if width > 1 { width } else { 0 };
            TradingGrid { weights: matrix, max_candles, ..self }
        } else {
            self
        }
    }

    /// Sets the win probabilities of long orders; unchanged where the number
    /// does not fit.
    pub fn with_long_win_p(self, long_win_p: Vec<Num>) -> (r: TradingGrid)
        ensures
            r@ == (if long_win_p@.len() == self@.long_win_p.len() {
                GridView { long_win_p: long_win_p@, ..self@ }
            } else {
                self@
            }),
    {
        if long_win_p.len() == self.long_win_p.len() {
            TradingGrid { long_win_p, ..self }
        } else {
            self
        }
    }

    /// Sets the win probabilities of short orders; unchanged where the number
    /// does not fit.
    pub fn with_short_win_p(self, short_win_p: Vec<Num>) -> (r: TradingGrid)
        ensures
            r@ == (if short_win_p@.len() == self@.short_win_p.len() {
                GridView { short_win_p: short_win_p@, ..self@ }
            } else {
                self@
            }),
    {
        if short_win_p.len() == self.short_win_p.len() {
            TradingGrid { short_win_p, ..self }
        } else {
            self
        }
    }

    /// Sets how many candles the grid holds for. More candles than before
    /// repeat each level's last weight.
    pub fn with_max_candles(self, max_candles: usize) -> (r: TradingGrid)
        ensures
            r@ == self@.with_max_candles(max_candles),
            self@.inv() ==> r@.inv(),
    {
        if max_candles > self.weight_cols() {
            let ghost all = Seq::new(self.weights@.len(), |j: int| resized(self.weights@[j]@, max_candles as nat));
            let mut weights: Vec<Vec<Num>> = Vec::new();
            let mut j: usize = 0;
            while j < self.weights.len()
                invariant
                    j <= self.weights@.len(),
                    all == Seq::new(self.weights@.len(), |j: int| resized(self.weights@[j]@, max_candles as nat)),
                    rows(weights@) == all.take(j as int),
                decreases self.weights@.len() - j,
            {
                let ghost before = weights@;
                let row = resize(&self.weights[j], max_candles);
                weights.push(row);
                assert(rows(weights@) =~= rows(before).push(row@));
                j += 1;
                assert(all.take(j as int) =~= all.take(j - 1).push(row@));
            }
            assert(all.take(j as int) =~= all);
            let r = TradingGrid { weights, max_candles, ..self };
            assert(r@.weights =~= self@.with_max_candles(max_candles).weights);
            r
        } else {
            TradingGrid { max_candles, ..self }
        }
    }

    /// Sets the win probabilities of both sides; unchanged where either number
    /// does not fit.
    pub fn with_win_probabilities(self, long_win_p: Vec<Num>, short_win_p: Vec<Num>) -> (r: TradingGrid)
        ensures
            r@ == self@.with_win_probabilities(long_win_p@, short_win_p@),
            self@.inv() ==> r@.inv(),
    {
        if long_win_p.len() == self.long_win_p.len() && short_win_p.len() == self.short_win_p.len() {
            TradingGrid { long_win_p, short_win_p, ..self }
        } else {
            self
        }
    }

    /// Whether every level has weights, win probabilities and counts.
    pub fn is_sound(&self) -> (r: bool)
        ensures
            r == self@.inv(),
    {
        let k: usize = self.levels.len();
        if k < 2 || self.weights.len() != k || self.long_win_p.len() != k || self.short_win_p.len() != k {
            return false;
        }
        let mut j: usize = 0;
        while j < k
            invariant
                j <= k == self.levels@.len() == self.weights@.len(),
                forall|q: int| 0 <= q < j ==> (#[trigger] self@.weights[q]).len() > 0,
            decreases k - j,
        {
            if self.weights[j].len() == 0 {
                assert(self@.weights[j as int].len() == 0);
                return false;
            }
            assert(self@.weights[j as int] == self.weights@[j as int]@);
            j += 1;
        }
        self.order_long_win_cnt.len() == k && self.order_long_lost_cnt.len() == k && self.order_short_win_cnt.len() == k
            && self.order_short_lost_cnt.len() == k
    }

    /// Whether every count has room for `more` outcomes.
    pub fn takes(&self, more: usize) -> (r: bool)
        ensures
            r == self@.has_room(more as int),
    {
        let a = all_take(&self.order_long_win_cnt, more);
        let b = all_take(&self.order_long_lost_cnt, more);
        let c = all_take(&self.order_short_win_cnt, more);
        let d = all_take(&self.order_short_lost_cnt, more);
        assert(self@.has_room(more as int) == {
            let g = self@;
            let n = more as int;
            counts_take(g.long_win, n) && counts_take(g.long_lost, n) && counts_take(g.short_win, n) && counts_take(
                g.short_lost,
                n,
            )
        });
        a && b && c && d
    }

    /// Takes over win probabilities for its levels, as `with_win_probabilities`
    /// does.
    pub fn set_win_probabilities(&mut self, long_win_p: Vec<Num>, short_win_p: Vec<Num>)
        ensures
            final(self)@ == old(self)@.with_win_probabilities(long_win_p@, short_win_p@),
    {
        if long_win_p.len() == self.long_win_p.len() && short_win_p.len() == self.short_win_p.len() {
            self.long_win_p = long_win_p;
            self.short_win_p = short_win_p;
        }
    }

    /// Takes over the outcomes counted by another grid, level by level.
    pub fn with_outcome_counts(
        self,
        long_win: &Vec<usize>,
        long_lost: &Vec<usize>,
        short_win: &Vec<usize>,
        short_lost: &Vec<usize>,
    ) -> (r: TradingGrid)
        ensures
            r@ == (GridView {
                long_win: Seq::new(self@.levels.len(), |j: int| get_or(long_win@, j, 0)),
                long_lost: Seq::new(self@.levels.len(), |j: int| get_or(long_lost@, j, 0)),
                short_win: Seq::new(self@.levels.len(), |j: int| get_or(short_win@, j, 0)),
                short_lost: Seq::new(self@.levels.len(), |j: int| get_or(short_lost@, j, 0)),
                ..self@
            }),
            self@.inv() ==> r@.inv(),
    {
        let k: usize = self.levels.len();
        TradingGrid {
            order_long_win_cnt: counts_for(long_win, k),
            order_long_lost_cnt: counts_for(long_lost, k),
            order_short_win_cnt: counts_for(short_win, k),
            order_short_lost_cnt: counts_for(short_lost, k),
            ..self
        }
    }

    /// The take-profit of a long order at level `j`.
    pub fn tp_above(&self, j: usize) -> (r: Num)
        requires
            j < self@.levels.len(),
        ensures
            r == self@.tp_above(j as int),
    {
        let k: usize = self.levels.len();
        if j < k - 1 {
            self.levels[j + 1]
        } else {
            self.levels[j]
        }
    }

    /// The take-profit of a short order at level `j`.
    pub fn tp_below(&self, j: usize) -> (r: Num)
        requires
            j < self@.levels.len(),
        ensures
            r == self@.tp_below(j as int),
    {
        if j > 0 {
            self.levels[j - 1]
        } else {
            self.levels[j]
        }
    }

    /// The lowest level.
    pub fn min(&self) -> (r: Num)
        requires
            self@.levels.len() > 0,
        ensures
            r == self@.levels[0],
    {
        self.levels[0]
    }

    /// The highest level.
    pub fn max(&self) -> (r: Num)
        requires
            self@.levels.len() > 0,
        ensures
            r == self@.levels.last(),
    {
        self.levels[self.levels.len() - 1]
    }

    /// The levels.
    pub fn levels(&self) -> (r: &Vec<Num>)
        ensures
            r@ == self@.levels,
    {
        &self.levels
    }
}

fn resize(row: &Vec<Num>, n: usize) -> (r: Vec<Num>)
    ensures
        r@ == resized(row@, n as nat),
{
    let len: usize = row.len();
    let last = if len > 0 { row[len - 1] } else { Num { bits: 0 } };
    let mut v: Vec<Num> = Vec::new();
    let mut t: usize = 0;
    while t < n
        invariant
            t <= n,
            len == row@.len(),
            last == (if len > 0 { row@.last() } else { Num { bits: 0 } }),
            v@ == resized(row@, n as nat).take(t as int),
        decreases n - t,
    {
        v.push(if t < len { row[t] } else { last });
        t += 1;
    }
    assert(v@ =~= resized(row@, n as nat));
    v
}

fn counts_for(given: &Vec<usize>, k: usize) -> (r: Vec<usize>)
    ensures
        r@ == Seq::new(k as nat, |j: int| get_or(given@, j, 0)),
{
    let mut v: Vec<usize> = Vec::new();
    let mut j: usize = 0;
    while j < k
        invariant
            j <= k,
            v@ == Seq::new(k as nat, |j: int| get_or(given@, j, 0)).take(j as int),
        decreases k - j,
    {
        v.push(if j < given.len() { given[j] } else { 0 });
        j += 1;
    }
    assert(v@ =~= Seq::new(k as nat, |j: int| get_or(given@, j, 0)));
    v
}

/// Past the last weight column a level keeps the weight of that column.
pub proof fn weights_hold_past_their_last_candle(g: GridView, j: int, t: int, u: int)
    requires
        g.inv(),
        0 <= j < g.levels.len(),
        g.weights[j].len() - 1 <= t,
        g.weights[j].len() - 1 <= u,
    ensures
        g.weight(j, t) == g.weight(j, u),
{
}

/// Holding a grid for more candles changes no weight.
pub proof fn more_candles_keep_every_weight(g: GridView, n: usize, j: int, t: int)
    requires
        g.inv(),
        0 <= j < g.levels.len(),
        t >= 0,
        forall|i: int| 0 <= i < g.levels.len() ==> (#[trigger] g.weights[i]).len() == g.weight_cols(),
        n > g.weight_cols(),
    ensures
        g.with_max_candles(n).weight(j, t) == g.weight(j, t),
{
    assert(g.weights[j].len() == g.weight_cols());
}

/// Each outcome is counted once: one count of the level grows by one, every
/// other count stays.
pub proof fn an_outcome_counts_once(g: GridView, level: int, is_long: bool, pnl: Num)
    requires
        g.inv(),
        g.has_room(1),
        0 <= level < g.levels.len(),
    ensures
        ({
            let h = g.with_outcome(level, is_long, pnl);
            &&& h.inv()
            &&& h.long_win[level] + h.long_lost[level] + h.short_win[level] + h.short_lost[level] == g.long_win[level]
                + g.long_lost[level] + g.short_win[level] + g.short_lost[level] + 1
            &&& forall|j: int|
                0 <= j < g.levels.len() && j != level ==> (#[trigger] h.long_win[j]) == g.long_win[j] && h.long_lost[j]
                    == g.long_lost[j] && h.short_win[j] == g.short_win[j] && h.short_lost[j] == g.short_lost[j]
        }),
{
    assert(g.long_win[level] + 1 <= usize::MAX);
}

} // verus!
