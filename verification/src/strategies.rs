//! Strategies that lay trading grids over the cells of a price range.
use vstd::prelude::*;

use crate::analysis::{default_config, gaps, is_median_gap, median_gap, AnalysisGrid};
use crate::arith::{
    add_up, calculate, calculates, count, difference, product, quotient, ratio, ratio_or, sum, total, unsigned,
    without_sign, Calculation, HALF_BITS, ONE_BITS, TWO_BITS,
};
use crate::candle::CandleStick;
use crate::grid::{get_or, GridView, TradingGrid};
use crate::num::{Num, INFINITY_BITS, SIGN_BIT};
use crate::pricing::{normal_weights, FOUR_BITS};
use crate::rounding::{as_place, in_word, in_memory, round, truncate};
use crate::session::plan_view;

verus! {

/// Bit pattern of a Kelly fraction of one quarter.
pub const QUARTER_BITS: u64 = 0x3FD0_0000_0000_0000;

/// Bit pattern of the starting capital, one hundred thousand.
pub const INITIAL_CAPITAL_BITS: u64 = 0x40F8_6A00_0000_0000;

/// The trades from which a level's own record counts.
pub const MIN_RECORD: usize = 3;

/// The fewest candles for an analysis.
pub const MIN_ANALYSIS_CANDLES: usize = 10;

/// The fewest candles for an average true range.
pub const MIN_ATR_CANDLES: usize = 5;

/// The fewest candles that an average true range is taken over.
pub const MIN_ATR_PERIOD: u64 = 14;

/// Why a plan could not be rebuilt.
#[derive(Clone, Copy, Debug, PartialEq, Eq, Structural)]
pub enum RebuildError {
    NotEnoughForAtr,
    NotEnoughForAnalysis,
    NoAtr,
}

impl RebuildError {
    /// What the error says.
    pub open spec fn text(self) -> Seq<char> {
        match self {
            RebuildError::NotEnoughForAtr => "not enough data for ATR calculation"@,
            RebuildError::NotEnoughForAnalysis => "not enough analysis data"@,
            RebuildError::NoAtr => "ATR calculation failed"@,
        }
    }

    /// What the error says.
    pub fn message(&self) -> (s: &'static str)
        ensures
            s@ == self.text(),
    {
        match self {
            RebuildError::NotEnoughForAtr => "not enough data for ATR calculation",
            RebuildError::NotEnoughForAnalysis => "not enough analysis data",
            RebuildError::NoAtr => "ATR calculation failed",
        }
    }
}

/// What a level's win probability comes from.
#[derive(Clone, Copy, Debug, PartialEq, Eq, Structural)]
pub enum Evidence {
    /// The model, the level having too few trades.
    Model,
    /// The level's own record.
    Record { wins: usize, total: usize },
}

/// What a record of wins and losses is worth.
pub open spec fn judged(wins: nat, losses: nat) -> Evidence {
    if wins + losses >= MIN_RECORD {
        Evidence::Record { wins: wins as usize, total: (wins + losses) as usize }
    } else {
        Evidence::Model
    }
}

/// Whether the counts at a level add up within the machine's numbers.
pub open spec fn countable(plan: Seq<TradingGrid>, cell: int, level: int) -> bool {
    cell < plan.len() ==> {
        let g = plan[cell]@;
        &&& get_or(g.long_win, level, 0) + get_or(g.long_lost, level, 0) <= usize::MAX
        &&& get_or(g.short_win, level, 0) + get_or(g.short_lost, level, 0) <= usize::MAX
    }
}

/// What the win probabilities of a level of a new grid come from, long and
/// short: the record of the same level of the same cell in the plan before.
pub open spec fn level_evidence(plan: Seq<GridView>, cell: int, level: int) -> (Evidence, Evidence) {
    if cell < plan.len() {
        let g = plan[cell];
        (
            judged(get_or(g.long_win, level, 0) as nat, get_or(g.long_lost, level, 0) as nat),
            judged(get_or(g.short_win, level, 0) as nat, get_or(g.short_lost, level, 0) as nat),
        )
    } else {
        (Evidence::Model, Evidence::Model)
    }
}

fn judge(wins: usize, losses: usize) -> (r: Evidence)
    requires
        wins + losses <= usize::MAX,
    ensures
        r == judged(wins as nat, losses as nat),
{
    let total: usize = wins + losses;
    if total >= MIN_RECORD {
        Evidence::Record { wins, total }
    } else {
        Evidence::Model
    }
}

/// What the win probabilities of a level of a new grid come from.
pub fn evidence(plan: &Vec<TradingGrid>, cell: usize, level: usize) -> (r: (Evidence, Evidence))
    requires
        countable(plan@, cell as int, level as int),
    ensures
        r == level_evidence(plan_view(plan@), cell as int, level as int),
{
    if cell < plan.len() {
        let g = &plan[cell];
        (
            judge(g.long_win_count(level), g.long_lost_count(level)),
            judge(g.short_win_count(level), g.short_lost_count(level)),
        )
    } else {
        (Evidence::Model, Evidence::Model)
    }
}

/// Bit pattern of the least win probability of a level, one quarter.
pub const LEAST_WIN_BITS: u64 = 0x3FD0_0000_0000_0000;

/// Bit pattern of the greatest win probability of a level, three quarters.
pub const MOST_WIN_BITS: u64 = 0x3FE8_0000_0000_0000;

/// A win probability within the bounds of a level's.
pub open spec fn bounded(p: Num) -> Num {
    p.held(Num { bits: LEAST_WIN_BITS }, Num { bits: MOST_WIN_BITS })
}

fn bound(p: Num) -> (r: Num)
    ensures
        r == bounded(p),
{
    let low = Num { bits: LEAST_WIN_BITS };
    let high = Num { bits: MOST_WIN_BITS };
    assert(low.at_most(high));
    p.clamp(low, high)
}

/// 0.1
pub const TENTH_BITS: u64 = 0x3FB9_9999_9999_999A;

/// 0.001
pub const LEAST_STOP_BITS: u64 = 0x3F50_624D_D2F1_A9FC;

/// How often a range is halved at most when it is divided into cells.
pub const MAX_BIT: u32 = 20;

/// The drift of a cell: how much more often prices leave it upwards than
/// downwards, of all the times they leave it.
pub open spec fn drift_of<F: Fn(Calculation) -> Num>(f: F, up: Seq<Num>, down: Seq<Num>, cell: int) -> Num {
    let zero = Num { bits: 0 };
    let u = get_or(up, cell, zero);
    let d = get_or(down, cell, zero);
    ratio(f, difference(f, u, d), sum(f, u, d), zero)
}

fn drift<F: Fn(Calculation) -> Num>(f: &F, up: &Vec<Num>, down: &Vec<Num>, cell: usize) -> (r: Num)
    requires
        calculates(*f),
    ensures
        r == drift_of(*f, up@, down@, cell as int),
{
    let zero = Num { bits: 0 };
    let u = if cell < up.len() { up[cell] } else { zero };
    let d = if cell < down.len() { down[cell] } else { zero };
    let more = calculate(f, Calculation::Difference(u, d));
    let all = calculate(f, Calculation::Sum(u, d));
    ratio_or(f, more, all, zero)
}

/// The win probabilities that a drift gives level `j` of `k`, long and short.
pub open spec fn modelled<F: Fn(Calculation) -> Num>(f: F, drift: Num, j: int, k: int) -> (Num, Num) {
    let half = Num { bits: HALF_BITS };
    let tenth = Num { bits: TENTH_BITS };
    let t = quotient(f, count(f, j), count(f, k - 1));
    (
        bounded(
            sum(f, sum(f, half, drift), product(f, difference(f, Num { bits: ONE_BITS }, t), tenth)),
        ),
        bounded(sum(f, difference(f, half, drift), product(f, t, tenth))),
    )
}

fn model<F: Fn(Calculation) -> Num>(f: &F, drift: Num, j: usize, k: usize) -> (r: (Num, Num))
    requires
        calculates(*f),
        k >= 2,
    ensures
        r == modelled(*f, drift, j as int, k as int),
{
    let half = Num { bits: HALF_BITS };
    let tenth = Num { bits: TENTH_BITS };
    let at = calculate(f, Calculation::Count(j as u128));
    let last = calculate(f, Calculation::Count(k as u128 - 1));
    let t = calculate(f, Calculation::Quotient(at, last));
    let up = calculate(f, Calculation::Sum(half, drift));
    let left = calculate(f, Calculation::Difference(Num { bits: ONE_BITS }, t));
    let more = calculate(f, Calculation::Product(left, tenth));
    let down = calculate(f, Calculation::Difference(half, drift));
    let less = calculate(f, Calculation::Product(t, tenth));
    (
        bound(calculate(f, Calculation::Sum(up, more))),
        bound(calculate(f, Calculation::Sum(down, less))),
    )
}

/// A win probability: what a level's own record has made of it where that is long
/// enough, else the model's.
pub open spec fn rated(e: Evidence, learnt: Num, model: Num) -> Num {
    match e {
        Evidence::Model => model,
        Evidence::Record { .. } => learnt,
    }
}

fn rate(e: Evidence, learnt: Num, model: Num) -> (r: Num)
    ensures
        r == rated(e, learnt, model),
{
    match e {
        Evidence::Model => model,
        Evidence::Record { .. } => learnt,
    }
}

/// A win probability after wins and losses: the rate of wins and the probability
/// so far, the rate weighing the more the more trades there are. With few trades
/// the probability stays.
pub open spec fn smoothed<F: Fn(Calculation) -> Num>(
    f: F,
    wins: usize,
    losses: usize,
    p: Num,
    min_trades: usize,
    smoothing_k: Num,
) -> Num {
    if wins + losses >= min_trades {
        let n = count(f, wins + losses);
        let w = quotient(f, n, sum(f, n, smoothing_k));
        bounded(
            sum(
                f,
                product(f, w, quotient(f, count(f, wins as int), n)),
                product(f, difference(f, Num { bits: ONE_BITS }, w), p),
            ),
        )
    } else {
        p
    }
}

fn smooth<F: Fn(Calculation) -> Num>(f: &F, wins: usize, losses: usize, p: Num, min_trades: usize, smoothing_k: Num) -> (r: Num)
    requires
        calculates(*f),
        wins + losses <= usize::MAX,
    ensures
        r == smoothed(*f, wins, losses, p, min_trades, smoothing_k),
{
    let all: usize = wins + losses;
    if all < min_trades {
        return p;
    }
    let n = calculate(f, Calculation::Count(all as u128));
    let won = calculate(f, Calculation::Count(wins as u128));
    let seen = calculate(f, Calculation::Quotient(won, n));
    let spread = calculate(f, Calculation::Sum(n, smoothing_k));
    let w = calculate(f, Calculation::Quotient(n, spread));
    let left = calculate(f, Calculation::Difference(Num { bits: ONE_BITS }, w));
    let new = calculate(f, Calculation::Product(w, seen));
    let old_part = calculate(f, Calculation::Product(left, p));
    bound(calculate(f, Calculation::Sum(new, old_part)))
}

/// The long win probabilities of a grid after the outcomes at its levels.
pub open spec fn updated_longs<F: Fn(Calculation) -> Num>(f: F, g: GridView, min_trades: usize, smoothing_k: Num) -> Seq<Num> {
    Seq::new(
        g.levels.len(),
        |j: int|
            smoothed(
                f,
                get_or(g.long_win, j, 0),
                get_or(g.long_lost, j, 0),
                get_or(g.long_win_p, j, Num { bits: 0 }),
                min_trades,
                smoothing_k,
            ),
    )
}

/// The short win probabilities of a grid after the outcomes at its levels.
pub open spec fn updated_shorts<F: Fn(Calculation) -> Num>(f: F, g: GridView, min_trades: usize, smoothing_k: Num) -> Seq<Num> {
    Seq::new(
        g.levels.len(),
        |j: int|
            smoothed(
                f,
                get_or(g.short_win, j, 0),
                get_or(g.short_lost, j, 0),
                get_or(g.short_win_p, j, Num { bits: 0 }),
                min_trades,
                smoothing_k,
            ),
    )
}

/// A grid whose win probabilities have learnt from its outcomes. Nothing else
/// changes.
pub open spec fn updated<F: Fn(Calculation) -> Num>(f: F, g: GridView, min_trades: usize, smoothing_k: Num) -> GridView {
    g.with_win_probabilities(updated_longs(f, g, min_trades, smoothing_k), updated_shorts(f, g, min_trades, smoothing_k))
}

/// The grids of a plan, their win probabilities having learnt from their outcomes.
pub open spec fn updated_plan<F: Fn(Calculation) -> Num>(
    f: F,
    plan: Seq<TradingGrid>,
    min_trades: usize,
    smoothing_k: Num,
) -> Seq<GridView> {
    Seq::new(plan.len(), |i: int| updated(f, plan[i]@, min_trades, smoothing_k))
}

/// Lets the win probabilities of grids learn from the outcomes of their orders: a
/// level with at least `min_trades` of them gets its rate of wins blended with the
/// probability so far, `smoothing_k` being how many trades that one is worth.
pub fn update_win_probabilities<F: Fn(Calculation) -> Num>(
    grids: &mut Vec<TradingGrid>,
    min_trades: usize,
    smoothing_k: Num,
    f: &F,
)
    requires
        calculates(*f),
        all_countable(old(grids)@),
    ensures
        final(grids)@.len() == old(grids)@.len(),
        forall|i: int| #![trigger final(grids)@[i]]
            0 <= i < final(grids)@.len() ==> final(grids)@[i]@ == updated(*f, old(grids)@[i]@, min_trades, smoothing_k),
{
    let ghost before = grids@;
    let n: usize = grids.len();
    let mut i: usize = 0;
    while i < n
        invariant
            i <= n == before.len() == grids@.len(),
            calculates(*f),
            all_countable(before),
            forall|q: int| #![trigger grids@[q]]
                0 <= q < i ==> grids@[q]@ == updated(*f, before[q]@, min_trades, smoothing_k),
            forall|q: int| i <= q < n ==> #[trigger] grids@[q] == before[q],
        decreases n - i,
    {
        let ghost g = before[i as int]@;
        assert(grids@[i as int]@ == g);
        let ghost longs = updated_longs(*f, g, min_trades, smoothing_k);
        let ghost shorts = updated_shorts(*f, g, min_trades, smoothing_k);
        let k: usize = grids[i].num_levels();
        let mut long: Vec<Num> = Vec::new();
        let mut short: Vec<Num> = Vec::new();
        let mut j: usize = 0;
        while j < k
            invariant
                j <= k == g.levels.len(),
                i < n == before.len() == grids@.len(),
                g == before[i as int]@,
                grids@[i as int]@ == g,
                calculates(*f),
                all_countable(before),
                longs == updated_longs(*f, g, min_trades, smoothing_k),
                shorts == updated_shorts(*f, g, min_trades, smoothing_k),
                long@ == longs.take(j as int),
                short@ == shorts.take(j as int),
            decreases k - j,
        {
            assert(countable(before, i as int, j as int));
            let grid = &grids[i];
            let wins = grid.long_win_count(j);
            let losses = grid.long_lost_count(j);
            long.push(smooth(f, wins, losses, grid.long_win_pct(j), min_trades, smoothing_k));
            let wins = grid.short_win_count(j);
            let losses = grid.short_lost_count(j);
            short.push(smooth(f, wins, losses, grid.short_win_pct(j), min_trades, smoothing_k));
            j += 1;
            assert(long@ =~= longs.take(j as int));
            assert(short@ =~= shorts.take(j as int));
        }
        assert(long@ =~= longs);
        assert(short@ =~= shorts);
        grids[i].set_win_probabilities(long, short);
        i += 1;
    }
}

/// How the levels of a grid lie in its cell.
#[derive(Clone, Copy, Debug, PartialEq, Eq, Structural)]
pub enum Layout {
    /// Evenly from one bound to the other.
    Even,
    /// Around the middle, this far apart.
    Centered { step: Num },
}

impl Layout {
    /// Whether a cell gets a grid.
    pub open spec fn lays(self, levels: int, range: (Num, Num)) -> bool {
        levels >= 2 && match self {
            Layout::Even => range.0.below(range.1),
            Layout::Centered { step } => !step.at_most(Num { bits: 0 }),
        }
    }

    /// The bare grid of a cell.
    pub open spec fn bare<F: Fn(Calculation) -> Num>(self, f: F, levels: usize, range: (Num, Num)) -> GridView {
        match self {
            Layout::Even => GridView::even(f, levels, range.0, range.1),
            Layout::Centered { step } => GridView::around(
                f,
                levels,
                quotient(f, sum(f, range.0, range.1), Num { bits: TWO_BITS }),
                step,
            ),
        }
    }

    fn lay<F: Fn(Calculation) -> Num>(self, f: &F, levels: usize, low: Num, high: Num) -> (r: Option<TradingGrid>)
        requires
            calculates(*f),
        ensures
            r is Some <==> self.lays(levels as int, (low, high)),
            r matches Some(g) ==> g@ == self.bare(*f, levels, (low, high)) && g@.inv(),
    {
        match self {
            Layout::Even => TradingGrid::new(levels, low, high, f),
            Layout::Centered { step } => {
                let both = calculate(f, Calculation::Sum(low, high));
                let middle = calculate(f, Calculation::Quotient(both, Num { bits: TWO_BITS }));
                TradingGrid::centered(levels, middle, step, f)
            },
        }
    }
}

/// What a plan is laid out from: the cells of a range, which way prices leave
/// them, and the settings of every grid.
#[derive(Debug)]
pub struct Design {
    pub cells: AnalysisGrid,
    /// How often prices leave a cell upwards, by cell.
    pub up: Vec<Num>,
    /// How often prices leave a cell downwards, by cell.
    pub down: Vec<Num>,
    pub layout: Layout,
    pub levels: usize,
    pub sl_pct: Num,
    pub max_candles: usize,
}

impl Design {
    /// The win probabilities of level `j` of a cell's grid: those of the same level
    /// of the same cell in `plan` where its record is long enough, else the
    /// model's.
    pub open spec fn chances<F: Fn(Calculation) -> Num>(self, f: F, plan: Seq<GridView>, cell: int, j: int) -> (Num, Num) {
        let e = level_evidence(plan, cell, j);
        let m = modelled(f, drift_of(f, self.up@, self.down@, cell), j, self.levels as int);
        let zero = Num { bits: 0 };
        (
            rated(e.0, get_or(plan[cell].long_win_p, j, zero), m.0),
            rated(e.1, get_or(plan[cell].short_win_p, j, zero), m.1),
        )
    }

    /// The grid of a cell.
    pub open spec fn grid_of<F: Fn(Calculation) -> Num>(self, f: F, plan: Seq<GridView>, cell: int) -> GridView {
        let k = self.levels as nat;
        (GridView { sl_pct: self.sl_pct, ..self.layout.bare(f, self.levels, self.cells.range_of(f, cell)) }).with_weights(
            normal_weights(f, self.levels, Num { bits: FOUR_BITS }),
        ).with_max_candles(self.max_candles).with_win_probabilities(
            Seq::new(k, |j: int| self.chances(f, plan, cell, j).0),
            Seq::new(k, |j: int| self.chances(f, plan, cell, j).1),
        )
    }

    /// The grids of the first `n` cells that get one, in their order.
    pub open spec fn laid<F: Fn(Calculation) -> Num>(self, f: F, plan: Seq<GridView>, n: nat) -> Seq<GridView>
        decreases n,
    {
        if n == 0 {
            Seq::empty()
        } else {
            let before = self.laid(f, plan, (n - 1) as nat);
            if self.layout.lays(self.levels as int, self.cells.range_of(f, n - 1)) {
                before.push(self.grid_of(f, plan, n - 1))
            } else {
                before
            }
        }
    }
}

/// Whether the counts of every level add up within the machine's numbers.
pub open spec fn all_countable(plan: Seq<TradingGrid>) -> bool {
    forall|cell: int, level: int| 0 <= cell && 0 <= level ==> #[trigger] countable(plan, cell, level)
}

/// Whether the counts of every level add up within the machine's numbers.
pub fn counts_add_up(plan: &Vec<TradingGrid>) -> (r: bool)
    ensures
        r == all_countable(plan@),
{
    let mut i: usize = 0;
    while i < plan.len()
        invariant
            i <= plan@.len(),
            forall|cell: int, level: int| 0 <= cell < i && 0 <= level ==> #[trigger] countable(plan@, cell, level),
        decreases plan@.len() - i,
    {
        let g = &plan[i];
        let n: usize = g.order_long_win_cnt.len();
        let m: usize = g.order_short_win_cnt.len();
        let most: usize = if n < m {
            m
        } else {
            n
        };
        let mut j: usize = 0;
        while j < most
            invariant
                i < plan@.len(),
                *g == plan@[i as int],
                n == g.order_long_win_cnt@.len() && m == g.order_short_win_cnt@.len(),
                j <= most,
                n <= most && m <= most,
                forall|level: int| 0 <= level < j ==> #[trigger] countable(plan@, i as int, level),
            decreases most - j,
        {
            let long = g.long_win_count(j).checked_add(g.long_lost_count(j));
            let short = g.short_win_count(j).checked_add(g.short_lost_count(j));
            if long.is_none() || short.is_none() {
                assert(!countable(plan@, i as int, j as int));
                return false;
            }
            j += 1;
        }
        assert forall|level: int| 0 <= level implies #[trigger] countable(plan@, i as int, level) by {
            if level >= most {
                assert(get_or(g@.long_win, level, 0) == 0);
                assert(get_or(g@.short_win, level, 0) == 0);
            }
        }
        i += 1;
    }
    true
}

/// Whether a number lies between two others, where it is a number at all.
pub open spec fn lies_between(x: Num, low: Num, high: Num) -> bool {
    x.nan() || (low.at_most(x) && x.at_most(high))
}

/// Whether every win probability of a grid lies between a quarter and three
/// quarters, where it is a number at all.
pub open spec fn even_chances(g: GridView) -> bool {
    &&& forall|j: int|
        0 <= j < g.long_win_p.len() ==> lies_between(
            #[trigger] g.long_win_p[j],
            Num { bits: LEAST_WIN_BITS },
            Num { bits: MOST_WIN_BITS },
        )
    &&& forall|j: int|
        0 <= j < g.short_win_p.len() ==> lies_between(
            #[trigger] g.short_win_p[j],
            Num { bits: LEAST_WIN_BITS },
            Num { bits: MOST_WIN_BITS },
        )
}

proof fn lemma_updated_chances<F: Fn(Calculation) -> Num>(f: F, g: GridView, smoothing_k: Num, j: int)
    requires
        g.inv(),
        0 <= j,
    ensures
        ({
            let u = updated(f, g, MIN_RECORD, smoothing_k);
            let low = Num { bits: LEAST_WIN_BITS };
            let high = Num { bits: MOST_WIN_BITS };
            let zero = Num { bits: 0 };
            &&& get_or(u.long_win, j, 0) + get_or(u.long_lost, j, 0) >= MIN_RECORD ==> lies_between(
                get_or(u.long_win_p, j, zero),
                low,
                high,
            )
            &&& get_or(u.short_win, j, 0) + get_or(u.short_lost, j, 0) >= MIN_RECORD ==> lies_between(
                get_or(u.short_win_p, j, zero),
                low,
                high,
            )
        }),
{
}

/// Whatever the arithmetic is, every grid that is laid after a plan has learnt
/// from its outcomes has the stop-loss of its design, and no win probability of it
/// lies below a quarter or above three quarters.
pub proof fn a_plan_has_even_chances<F: Fn(Calculation) -> Num>(
    f: F,
    d: Design,
    plan: Seq<TradingGrid>,
    smoothing_k: Num,
    n: nat,
)
    requires
        forall|i: int| 0 <= i < plan.len() ==> (#[trigger] plan[i])@.inv(),
    ensures
        ({
            let grids = d.laid(f, updated_plan(f, plan, MIN_RECORD, smoothing_k), n);
            forall|i: int|
                0 <= i < grids.len() ==> even_chances(#[trigger] grids[i]) && grids[i].sl_pct == d.sl_pct
        }),
    decreases n,
{
    if n > 0 {
        a_plan_has_even_chances(f, d, plan, smoothing_k, (n - 1) as nat);
        let learnt = updated_plan(f, plan, MIN_RECORD, smoothing_k);
        let before = d.laid(f, learnt, (n - 1) as nat);
        let all = d.laid(f, learnt, n);
        let cell = n - 1;
        assert forall|i: int| 0 <= i < all.len() implies even_chances(#[trigger] all[i]) && all[i].sl_pct == d.sl_pct by {
            if i < before.len() {
                assert(all[i] == before[i]);
            } else {
                let g = d.grid_of(f, learnt, cell);
                assert(all[i] == g);
                assert forall|j: int| 0 <= j implies lies_between(
                    (#[trigger] d.chances(f, learnt, cell, j)).0,
                    Num { bits: LEAST_WIN_BITS },
                    Num { bits: MOST_WIN_BITS },
                ) && lies_between(
                    d.chances(f, learnt, cell, j).1,
                    Num { bits: LEAST_WIN_BITS },
                    Num { bits: MOST_WIN_BITS },
                ) by {
                    if cell < plan.len() {
                        assert(plan[cell]@.inv());
                        assert(learnt[cell] == updated(f, plan[cell]@, MIN_RECORD, smoothing_k));
                        lemma_updated_chances(f, plan[cell]@, smoothing_k, j);
                    }
                }
            }
        }
    }
}

/// A level with too few trades keeps its win probability, and so does a grid all
/// else: learning changes nothing but win probabilities.
pub proof fn learning_changes_chances_only<F: Fn(Calculation) -> Num>(f: F, g: GridView, min_trades: usize, smoothing_k: Num, j: int)
    requires
        g.inv(),
        0 <= j < g.levels.len(),
    ensures
        ({
            let u = updated(f, g, min_trades, smoothing_k);
            &&& u == (GridView { long_win_p: u.long_win_p, short_win_p: u.short_win_p, ..g })
            &&& g.long_win[j] + g.long_lost[j] < min_trades ==> u.long_win_p[j] == g.long_win_p[j]
            &&& g.short_win[j] + g.short_lost[j] < min_trades ==> u.short_win_p[j] == g.short_win_p[j]
        }),
{
}

/// Lays a grid over each cell. The levels' records, and the win probabilities that
/// go with a long one, are those of the plan before, cell by cell.
pub fn lay_grids<F: Fn(Calculation) -> Num>(plan: &Vec<TradingGrid>, design: &Design, f: &F) -> (grids: Vec<TradingGrid>)
    requires
        calculates(*f),
        all_countable(plan@),
    ensures
        plan_view(grids@) == design.laid(*f, plan_view(plan@), design.cells.cells_of(*f) as nat),
        forall|i: int| 0 <= i < grids@.len() ==> (#[trigger] grids@[i])@.inv(),
{
    let n: usize = design.cells.num_cells(f);
    let k: usize = design.levels;
    let mut grids: Vec<TradingGrid> = Vec::new();
    let mut i: usize = 0;
    assert(plan_view(grids@) =~= design.laid(*f, plan_view(plan@), 0));
    while i < n
        invariant
            i <= n == design.cells.cells_of(*f),
            k == design.levels,
            calculates(*f),
            all_countable(plan@),
            plan_view(grids@) == design.laid(*f, plan_view(plan@), i as nat),
            forall|q: int| 0 <= q < grids@.len() ==> (#[trigger] grids@[q])@.inv(),
        decreases n - i,
    {
        if let Some((low, high)) = design.cells.cell_range(i, f) {
            if let Some(g) = design.layout.lay(f, k, low, high) {
                let d = drift(f, &design.up, &design.down, i);
                let ghost longs = Seq::new(k as nat, |j: int| design.chances(*f, plan_view(plan@), i as int, j).0);
                let ghost shorts = Seq::new(k as nat, |j: int| design.chances(*f, plan_view(plan@), i as int, j).1);
                let mut long: Vec<Num> = Vec::new();
                let mut short: Vec<Num> = Vec::new();
                let mut j: usize = 0;
                while j < k
                    invariant
                        j <= k,
                        k >= 2,
                        k == design.levels,
                        calculates(*f),
                        all_countable(plan@),
                        d == drift_of(*f, design.up@, design.down@, i as int),
                        longs == Seq::new(k as nat, |j: int| design.chances(*f, plan_view(plan@), i as int, j).0),
                        shorts == Seq::new(k as nat, |j: int| design.chances(*f, plan_view(plan@), i as int, j).1),
                        long@ == longs.take(j as int),
                        short@ == shorts.take(j as int),
                    decreases k - j,
                {
                    assert(countable(plan@, i as int, j as int));
                    let (l, s) = evidence(plan, i, j);
                    let (ml, ms) = model(f, d, j, k);
                    let mut seen_long = Num { bits: 0 };
                    let mut seen_short = Num { bits: 0 };
                    if i < plan.len() {
                        assert(plan_view(plan@)[i as int] == plan@[i as int]@);
                        seen_long = plan[i].long_win_pct(j);
                        seen_short = plan[i].short_win_pct(j);
                    }
                    long.push(rate(l, seen_long, ml));
                    short.push(rate(s, seen_short, ms));
                    j += 1;
                    assert(long@ =~= longs.take(j as int));
                    assert(short@ =~= shorts.take(j as int));
                }
                assert(long@ =~= longs);
                assert(short@ =~= shorts);
                let ghost before = grids@;
                let g = g.with_sl_pct(design.sl_pct).with_weights_normal(Num { bits: FOUR_BITS }, f).with_max_candles(
                    design.max_candles,
                ).with_win_probabilities(long, short);
                assert(g@ == design.grid_of(*f, plan_view(plan@), i as int));
                grids.push(g);
                assert(plan_view(grids@) =~= plan_view(before).push(g@));
            }
        }
        i += 1;
    }
    grids
}

/// A copy of a plan, its win probabilities having learnt from its outcomes.
fn learnt_plan<F: Fn(Calculation) -> Num>(plan: &Vec<TradingGrid>, smoothing_k: Num, f: &F) -> (r: Vec<TradingGrid>)
    requires
        calculates(*f),
        all_countable(plan@),
    ensures
        plan_view(r@) == updated_plan(*f, plan@, MIN_RECORD, smoothing_k),
        all_countable(r@),
{
    let mut r: Vec<TradingGrid> = Vec::new();
    let mut i: usize = 0;
    while i < plan.len()
        invariant
            i <= plan@.len(),
            r@.len() == i,
            forall|q: int| 0 <= q < i ==> (#[trigger] r@[q])@ == plan@[q]@,
        decreases plan@.len() - i,
    {
        r.push(plan[i].clone());
        i += 1;
    }
    proof {
        assert forall|cell: int, level: int| 0 <= cell && 0 <= level implies #[trigger] countable(r@, cell, level) by {
            assert(countable(plan@, cell, level));
        }
    }
    update_win_probabilities(&mut r, MIN_RECORD, smoothing_k, f);
    proof {
        assert(plan_view(r@) =~= updated_plan(*f, plan@, MIN_RECORD, smoothing_k));
        assert forall|cell: int, level: int| 0 <= cell && 0 <= level implies #[trigger] countable(r@, cell, level) by {
            assert(countable(plan@, cell, level));
            if cell < plan@.len() {
                assert(r@[cell]@ == updated(*f, plan@[cell]@, MIN_RECORD, smoothing_k));
            }
        }
    }
    r
}

/// The closes of candles.
pub open spec fn closes_of(candles: Seq<CandleStick>) -> Seq<Num> {
    Seq::new(candles.len(), |i: int| candles[i].c)
}

fn closes(candles: &Vec<CandleStick>) -> (r: Vec<Num>)
    ensures
        r@ == closes_of(candles@),
{
    let mut r: Vec<Num> = Vec::new();
    let mut i: usize = 0;
    while i < candles.len()
        invariant
            i <= candles@.len(),
            r@ == closes_of(candles@).take(i as int),
        decreases candles@.len() - i,
    {
        r.push(candles[i].c);
        i += 1;
        assert(r@ =~= closes_of(candles@).take(i as int));
    }
    assert(r@ =~= closes_of(candles@));
    r
}

/// The closes of candles with their times.
pub open spec fn series_of(candles: Seq<CandleStick>) -> Seq<(i64, Num)> {
    Seq::new(candles.len(), |i: int| (candles[i].t, candles[i].c))
}

fn series(candles: &Vec<CandleStick>) -> (r: Vec<(i64, Num)>)
    ensures
        r@ == series_of(candles@),
{
    let mut r: Vec<(i64, Num)> = Vec::new();
    let mut i: usize = 0;
    while i < candles.len()
        invariant
            i <= candles@.len(),
            r@ == series_of(candles@).take(i as int),
        decreases candles@.len() - i,
    {
        r.push((candles[i].t, candles[i].c));
        i += 1;
        assert(r@ =~= series_of(candles@).take(i as int));
    }
    assert(r@ =~= series_of(candles@));
    r
}

/// The lowest price of the first `n` candles.
pub open spec fn lowest(candles: Seq<CandleStick>, n: nat) -> Num
    decreases n,
{
    if n == 0 {
        Num { bits: INFINITY_BITS }
    } else {
        lowest(candles, (n - 1) as nat).lesser(candles[n - 1].l)
    }
}

/// The highest price of the first `n` candles.
pub open spec fn highest(candles: Seq<CandleStick>, n: nat) -> Num
    decreases n,
{
    if n == 0 {
        Num { bits: (SIGN_BIT + INFINITY_BITS) as u64 }
    } else {
        highest(candles, (n - 1) as nat).greater(candles[n - 1].h)
    }
}

/// The range of prices of candles, from the lowest low to the highest high.
pub fn price_range(candles: &Vec<CandleStick>) -> (r: (Num, Num))
    ensures
        r == (low_of(candles@), high_of(candles@)),
{
    let mut low = Num { bits: INFINITY_BITS };
    let mut high = Num { bits: SIGN_BIT + INFINITY_BITS };
    let mut i: usize = 0;
    while i < candles.len()
        invariant
            i <= candles@.len(),
            low == lowest(candles@, i as nat),
            high == highest(candles@, i as nat),
        decreases candles@.len() - i,
    {
        low = low.min(candles[i].l);
        high = high.max(candles[i].h);
        i += 1;
    }
    (low, high)
}

/// The lowest price of candles.
pub open spec fn low_of(candles: Seq<CandleStick>) -> Num {
    lowest(candles, candles.len())
}

/// The highest price of candles.
pub open spec fn high_of(candles: Seq<CandleStick>) -> Num {
    highest(candles, candles.len())
}

/// Whether neighbouring times are no further apart than a machine word says.
pub open spec fn gaps_fit(candles: Seq<CandleStick>) -> bool {
    forall|i: int| 0 <= i < gaps(candles).len() ==> i64::MIN <= #[trigger] gaps(candles)[i] <= i64::MAX
}

/// The whole candles of a review interval.
pub open spec fn candles_of(review_interval_secs: u64, trading_candle_secs: u64) -> int {
    if trading_candle_secs >= 1 {
        review_interval_secs as int / trading_candle_secs as int
    } else {
        review_interval_secs as int
    }
}

fn whole_candles(review_interval_secs: u64, trading_candle_secs: u64) -> (r: u64)
    ensures
        r == candles_of(review_interval_secs, trading_candle_secs),
{
    if trading_candle_secs >= 1 {
        review_interval_secs / trading_candle_secs
    } else {
        review_interval_secs
    }
}

/// The start of the span of `lookback` seconds up to `current`.
pub open spec fn span_start(current: u64, lookback: u64) -> u64 {
    if current >= lookback {
        (current - lookback) as u64
    } else {
        0
    }
}

/// A grid for each cell, evenly spaced.
#[derive(Clone, Copy, Debug, PartialEq, Eq, Structural)]
pub struct GridStrategy {
    pub grid_levels: usize,
    pub sl_pct: Num,
    pub lookback_secs: u64,
    pub review_interval_secs: u64,
    pub smoothing_k: Num,
    pub trading_candle_secs: u64,
    pub last_review: u64,
}

impl GridStrategy {
    /// A strategy that was never reviewed.
    pub fn new(
        grid_levels: usize,
        sl_pct: Num,
        smoothing_k: Num,
        lookback_secs: u64,
        review_interval_secs: u64,
        trading_candle_secs: u64,
    ) -> (r: GridStrategy)
        ensures
            r == (GridStrategy {
                grid_levels,
                sl_pct,
                lookback_secs,
                review_interval_secs,
                smoothing_k,
                trading_candle_secs,
                last_review: 0,
            }),
    {
        GridStrategy {
            grid_levels,
            sl_pct,
            lookback_secs,
            review_interval_secs,
            smoothing_k,
            trading_candle_secs,
            last_review: 0,
        }
    }

    /// The parameters to start from: the Kelly fraction, the capital, the number
    /// of levels, the stop and the lookback.
    pub fn init<F: Fn(Calculation) -> Num>(&self, f: &F) -> (r: Vec<Num>)
        requires
            calculates(*f),
        ensures
            r@ == seq![
                Num { bits: QUARTER_BITS },
                Num { bits: INITIAL_CAPITAL_BITS },
                count(*f, self.grid_levels as int),
                self.sl_pct,
                count(*f, self.lookback_secs as int),
            ],
    {
        let mut v: Vec<Num> = Vec::new();
        v.push(Num { bits: QUARTER_BITS });
        v.push(Num { bits: INITIAL_CAPITAL_BITS });
        v.push(calculate(f, Calculation::Count(self.grid_levels as u128)));
        v.push(self.sl_pct);
        v.push(calculate(f, Calculation::Count(self.lookback_secs as u128)));
        v
    }

    /// Notes a review, and says when the next one is due.
    pub fn next(&mut self, current: u64) -> (r: u64)
        requires
            current + old(self).review_interval_secs <= u64::MAX,
        ensures
            r == current + old(self).review_interval_secs,
            *final(self) == (GridStrategy { last_review: current, ..*old(self) }),
    {
        self.last_review = current;
        current + self.review_interval_secs
    }

    /// The span of candles that a rebuild at `current` analyses, the lookback
    /// being among the parameters.
    pub fn analysis_span(&self, current: u64, params: &Vec<Num>) -> (r: (u64, u64))
        requires
            params@.len() >= 5,
        ensures
            r == (span_start(current, in_word(params@[4], params@[4].whole())), current),
    {
        (current.saturating_sub(truncate(params[4])), current)
    }

    /// The candles for which the weights of a grid are spread.
    pub fn max_candles(&self) -> (r: u64)
        ensures
            r == candles_of(self.review_interval_secs, self.trading_candle_secs),
    {
        whole_candles(self.review_interval_secs, self.trading_candle_secs)
    }

    /// The usual time between the candles of an analysis; an error where there
    /// are too few.
    pub fn interval(&self, analysis: &Vec<CandleStick>) -> (r: Result<i64, RebuildError>)
        requires
            analysis@.len() >= MIN_ANALYSIS_CANDLES ==> gaps_fit(analysis@),
        ensures
            r is Err <==> analysis@.len() < MIN_ANALYSIS_CANDLES,
            r matches Err(e) ==> e == RebuildError::NotEnoughForAnalysis,
            r matches Ok(g) ==> is_median_gap(analysis@, g),
    {
        if analysis.len() < MIN_ANALYSIS_CANDLES {
            Err(RebuildError::NotEnoughForAnalysis)
        } else {
            Ok(median_gap(analysis))
        }
    }

    /// The levels of each grid, a parameter rounded.
    pub open spec fn levels_of(params: Seq<Num>) -> usize {
        in_memory(in_word(params[2], params[2].nearest()))
    }

    /// Whether a design is the one for an analysis. `transitions` says which way
    /// prices leave the cells of a division, given the closes with their times and
    /// the usual time between them.
    pub open spec fn is_design<T, F>(
        self,
        f: F,
        transitions: T,
        analysis: Seq<CandleStick>,
        params: Seq<Num>,
        d: Design,
    ) -> bool where T: Fn(AnalysisGrid, Vec<(i64, Num)>, i64) -> (Vec<Num>, Vec<Num>), F: Fn(Calculation) -> Num {
        &&& AnalysisGrid::divided(
            f,
            closes_of(analysis),
            low_of(analysis),
            high_of(analysis),
            MAX_BIT,
            default_config(),
            d.cells,
        )
        &&& exists|data: Vec<(i64, Num)>, gap: i64|
            data@ == series_of(analysis) && is_median_gap(analysis, gap) && #[trigger] call_ensures(
                transitions,
                (d.cells, data, gap),
                (d.up, d.down),
            )
        &&& d.layout == Layout::Even
        &&& d.levels == GridStrategy::levels_of(params)
        &&& d.sl_pct == params[3]
        &&& d.max_candles == self.candles_kept()
    }

    /// The plan that the candles of an analysis give; an error where they are
    /// too few. `transitions` says which way prices leave the cells of a
    /// division, given the closes with their times and the usual time between
    /// them.
    pub fn rebuild<T, F>(
        &self,
        plan: &Vec<TradingGrid>,
        analysis: &Vec<CandleStick>,
        params: &Vec<Num>,
        transitions: T,
        f: &F,
    ) -> (r: Result<Vec<TradingGrid>, RebuildError>) where
        T: Fn(AnalysisGrid, Vec<(i64, Num)>, i64) -> (Vec<Num>, Vec<Num>),
        F: Fn(Calculation) -> Num,

        requires
            calculates(*f),
            analysis@.len() >= MIN_ANALYSIS_CANDLES ==> gaps_fit(analysis@),
            all_countable(plan@),
            params@.len() >= 5,
            forall|g: AnalysisGrid, data: Vec<(i64, Num)>, gap: i64| #[trigger]
                call_requires(transitions, (g, data, gap)),
        ensures
            r is Err <==> analysis@.len() < MIN_ANALYSIS_CANDLES,
            r matches Err(e) ==> e == RebuildError::NotEnoughForAnalysis,
            r matches Ok(grids) ==> exists|d: Design| #[trigger]
                self.is_design(*f, transitions, analysis@, params@, d) && plan_view(grids@) == d.laid(
                    *f,
                    updated_plan(*f, plan@, MIN_RECORD, self.smoothing_k),
                    d.cells.cells_of(*f) as nat,
                ),
    {
        let gap = match self.interval(analysis) {
            Ok(gap) => gap,
            Err(e) => {
                return Err(e);
            },
        };
        let (low, high) = price_range(analysis);
        let cells = AnalysisGrid::new(&closes(analysis), low, high, MAX_BIT, f);
        let data = series(analysis);
        let ghost seen = data;
        let (up, down) = transitions(cells, data, gap);
        let d = Design {
            cells,
            up,
            down,
            layout: Layout::Even,
            levels: as_place(round(params[2])),
            sl_pct: params[3],
            max_candles: self.max_candles() as usize,
        };
        assert(call_ensures(transitions, (d.cells, seen, gap), (d.up, d.down)));
        assert(self.is_design(*f, transitions, analysis@, params@, d));
        Ok(lay_grids(&learnt_plan(plan, self.smoothing_k, f), &d, f))
    }

    /// The candles for which the weights of a grid are spread.
    pub open spec fn candles_kept(self) -> usize {
        candles_of(self.review_interval_secs, self.trading_candle_secs) as usize
    }
}

/// A grid for each cell, its step following the average true range.
#[derive(Clone, Copy, Debug, PartialEq, Eq, Structural)]
pub struct VolatilityAdaptiveGridStrategy {
    pub max_grid_levels: usize,
    pub atr_multiplier: Num,
    pub sl_atr_multiplier: Num,
    pub atr_lookback_secs: u64,
    pub analysis_lookback_secs: u64,
    pub review_interval_secs: u64,
    pub smoothing_k: Num,
    pub trading_candle_secs: u64,
    pub last_review: u64,
}

impl VolatilityAdaptiveGridStrategy {
    /// A strategy that was never reviewed.
    pub fn new(
        max_grid_levels: usize,
        atr_multiplier: Num,
        sl_atr_multiplier: Num,
        atr_lookback_secs: u64,
        analysis_lookback_secs: u64,
        review_interval_secs: u64,
        smoothing_k: Num,
        trading_candle_secs: u64,
    ) -> (r: VolatilityAdaptiveGridStrategy)
        ensures
            r == (VolatilityAdaptiveGridStrategy {
                max_grid_levels,
                atr_multiplier,
                sl_atr_multiplier,
                atr_lookback_secs,
                analysis_lookback_secs,
                review_interval_secs,
                smoothing_k,
                trading_candle_secs,
                last_review: 0,
            }),
    {
        VolatilityAdaptiveGridStrategy {
            max_grid_levels,
            atr_multiplier,
            sl_atr_multiplier,
            atr_lookback_secs,
            analysis_lookback_secs,
            review_interval_secs,
            smoothing_k,
            trading_candle_secs,
            last_review: 0,
        }
    }

    /// The parameters to start from: the Kelly fraction, the capital, the two
    /// multipliers and the two lookbacks.
    pub fn init<F: Fn(Calculation) -> Num>(&self, f: &F) -> (r: Vec<Num>)
        requires
            calculates(*f),
        ensures
            r@ == seq![
                Num { bits: QUARTER_BITS },
                Num { bits: INITIAL_CAPITAL_BITS },
                self.atr_multiplier,
                self.sl_atr_multiplier,
                count(*f, self.atr_lookback_secs as int),
                count(*f, self.analysis_lookback_secs as int),
            ],
    {
        let mut v: Vec<Num> = Vec::new();
        v.push(Num { bits: QUARTER_BITS });
        v.push(Num { bits: INITIAL_CAPITAL_BITS });
        v.push(self.atr_multiplier);
        v.push(self.sl_atr_multiplier);
        v.push(calculate(f, Calculation::Count(self.atr_lookback_secs as u128)));
        v.push(calculate(f, Calculation::Count(self.analysis_lookback_secs as u128)));
        v
    }

    /// Notes a review, and says when the next one is due.
    pub fn next(&mut self, current: u64) -> (r: u64)
        requires
            current + old(self).review_interval_secs <= u64::MAX,
        ensures
            r == current + old(self).review_interval_secs,
            *final(self) == (VolatilityAdaptiveGridStrategy { last_review: current, ..*old(self) }),
    {
        self.last_review = current;
        current + self.review_interval_secs
    }

    /// The spans of candles that a rebuild at `current` reads, the lookbacks
    /// being among the parameters: for the average true range, and for the
    /// analysis.
    pub fn rebuild_spans(&self, current: u64, params: &Vec<Num>) -> (r: ((u64, u64), (u64, u64)))
        requires
            params@.len() >= 6,
        ensures
            r.0 == (span_start(current, in_word(params@[4], params@[4].whole())), current),
            r.1 == (span_start(current, in_word(params@[5], params@[5].whole())), current),
    {
        (
            (current.saturating_sub(truncate(params[4])), current),
            (current.saturating_sub(truncate(params[5])), current),
        )
    }

    /// The candles that the average true range is taken over.
    pub fn atr_period(&self, atr_lookback: u64) -> (r: u64)
        ensures
            r == self.period(atr_lookback),
    {
        let p: u64 = atr_lookback / 300;
        if p >= MIN_ATR_PERIOD {
            p
        } else {
            MIN_ATR_PERIOD
        }
    }

    /// The candles for which the weights of a grid are spread.
    pub fn max_candles(&self) -> (r: u64)
        ensures
            r == candles_of(self.review_interval_secs, self.trading_candle_secs),
    {
        whole_candles(self.review_interval_secs, self.trading_candle_secs)
    }

    /// Whether the most levels bound a grid: there is a range, and prices move.
    pub open spec fn reads_most_levels(self, atr: Num, min_price: Num, max_price: Num) -> bool {
        !atr.at_most(Num { bits: 0 }) && !max_price.at_most(min_price)
    }

    /// The levels of a grid over a range of prices: its steps and one more, from
    /// two to the most levels; two without a range.
    pub open spec fn optimal_levels<F: Fn(Calculation) -> Num>(
        self,
        f: F,
        atr: Num,
        min_price: Num,
        max_price: Num,
        atr_multiplier: Num,
    ) -> usize {
        if !self.reads_most_levels(atr, min_price, max_price) {
            2
        } else {
            let x = quotient(f, difference(f, max_price, min_price), product(f, atr, atr_multiplier));
            let steps = in_memory(in_word(x, x.nearest()));
            if steps + 1 < 2 {
                2
            } else if steps + 1 > self.max_grid_levels {
                self.max_grid_levels
            } else {
                (steps + 1) as usize
            }
        }
    }

    /// The candles that the average true range is taken over.
    pub open spec fn period(self, atr_lookback: u64) -> u64 {
        if atr_lookback / 300 >= MIN_ATR_PERIOD {
            atr_lookback / 300
        } else {
            MIN_ATR_PERIOD
        }
    }

    /// The candles for which the weights of a grid are spread.
    pub open spec fn candles_kept(self) -> usize {
        candles_of(self.review_interval_secs, self.trading_candle_secs) as usize
    }

    /// The stop-loss of every grid: a multiple of the average true range over the
    /// last close, within bounds.
    pub open spec fn stop_of<F: Fn(Calculation) -> Num>(f: F, atr: Num, multiplier: Num, last_close: Num) -> Num {
        quotient(f, product(f, atr, multiplier), last_close).held(
            Num { bits: LEAST_STOP_BITS },
            Num { bits: TENTH_BITS },
        )
    }

    /// Whether a design is the one for an analysis and an average true range.
    /// `transitions` says which way prices leave the cells of a division, given
    /// the closes with their times and the usual time between them.
    pub open spec fn is_design<T, F>(
        self,
        f: F,
        transitions: T,
        atr: Num,
        analysis: Seq<CandleStick>,
        params: Seq<Num>,
        d: Design,
    ) -> bool where T: Fn(AnalysisGrid, Vec<(i64, Num)>, i64) -> (Vec<Num>, Vec<Num>), F: Fn(Calculation) -> Num {
        &&& AnalysisGrid::divided(
            f,
            closes_of(analysis),
            low_of(analysis),
            high_of(analysis),
            MAX_BIT,
            default_config(),
            d.cells,
        )
        &&& exists|data: Vec<(i64, Num)>, gap: i64|
            data@ == series_of(analysis) && is_median_gap(analysis, gap) && #[trigger] call_ensures(
                transitions,
                (d.cells, data, gap),
                (d.up, d.down),
            )
        &&& d.layout == (Layout::Centered { step: product(f, atr, params[2]) })
        &&& d.levels == self.optimal_levels(f, atr, low_of(analysis), high_of(analysis), params[2])
        &&& d.sl_pct == Self::stop_of(f, atr, params[3], analysis[analysis.len() - 1].c)
        &&& d.max_candles == self.candles_kept()
    }

    /// The average true range that a rebuild goes by.
    pub open spec fn atr_of<F: Fn(Calculation) -> Num>(
        self,
        f: F,
        atr_candles: Seq<CandleStick>,
        params: Seq<Num>,
    ) -> Num {
        average_range(f, atr_candles, in_memory(self.period(in_word(params[4], params[4].whole()))))
    }

    /// The plan that two spans of candles give: one for the average true range,
    /// one for the analysis. `transitions` says which way prices leave the cells
    /// of a division, given the closes with their times and the usual time between
    /// them.
    pub fn rebuild<T, F>(
        &self,
        plan: &Vec<TradingGrid>,
        atr_candles: &Vec<CandleStick>,
        analysis: &Vec<CandleStick>,
        params: &Vec<Num>,
        transitions: T,
        f: &F,
    ) -> (r: Result<Vec<TradingGrid>, RebuildError>) where
        T: Fn(AnalysisGrid, Vec<(i64, Num)>, i64) -> (Vec<Num>, Vec<Num>),
        F: Fn(Calculation) -> Num,

        requires
            calculates(*f),
            atr_candles@.len() >= MIN_ATR_CANDLES && analysis@.len() >= MIN_ANALYSIS_CANDLES && self.reads_most_levels(
                self.atr_of(*f, atr_candles@, params@),
                low_of(analysis@),
                high_of(analysis@),
            ) ==> self.max_grid_levels >= 2,
            analysis@.len() >= MIN_ANALYSIS_CANDLES ==> gaps_fit(analysis@),
            all_countable(plan@),
            params@.len() >= 6,
            forall|g: AnalysisGrid, data: Vec<(i64, Num)>, gap: i64| #[trigger]
                call_requires(transitions, (g, data, gap)),
        ensures
            r == Err::<Vec<TradingGrid>, RebuildError>(RebuildError::NotEnoughForAtr) <==> atr_candles@.len()
                < MIN_ATR_CANDLES,
            r == Err::<Vec<TradingGrid>, RebuildError>(RebuildError::NotEnoughForAnalysis) <==> atr_candles@.len()
                >= MIN_ATR_CANDLES && analysis@.len() < MIN_ANALYSIS_CANDLES,
            r == Err::<Vec<TradingGrid>, RebuildError>(RebuildError::NoAtr) <==> atr_candles@.len() >= MIN_ATR_CANDLES
                && analysis@.len() >= MIN_ANALYSIS_CANDLES && self.atr_of(*f, atr_candles@, params@).at_most(
                Num { bits: 0 },
            ),
            r matches Ok(grids) ==> exists|d: Design| #[trigger]
                self.is_design(*f, transitions, self.atr_of(*f, atr_candles@, params@), analysis@, params@, d)
                    && plan_view(grids@) == d.laid(
                    *f,
                    updated_plan(*f, plan@, MIN_RECORD, self.smoothing_k),
                    d.cells.cells_of(*f) as nat,
                ),
    {
        if atr_candles.len() < MIN_ATR_CANDLES {
            return Err(RebuildError::NotEnoughForAtr);
        }
        if analysis.len() < MIN_ANALYSIS_CANDLES {
            return Err(RebuildError::NotEnoughForAnalysis);
        }
        let atr = calculate_atr(atr_candles, as_place(self.atr_period(truncate(params[4]))), f);
        if atr.le(Num::zero()) {
            return Err(RebuildError::NoAtr);
        }
        let (low, high) = price_range(analysis);
        let levels = self.calculate_optimal_levels(atr, low, high, params[2], f);
        let step = calculate(f, Calculation::Product(atr, params[2]));
        let gap = median_gap(analysis);
        let cells = AnalysisGrid::new(&closes(analysis), low, high, MAX_BIT, f);
        let data = series(analysis);
        let ghost seen = data;
        let (up, down) = transitions(cells, data, gap);
        let risk = calculate(f, Calculation::Product(atr, params[3]));
        let stop = calculate(f, Calculation::Quotient(risk, analysis[analysis.len() - 1].c));
        let least = Num { bits: LEAST_STOP_BITS };
        let most = Num { bits: TENTH_BITS };
        let d = Design {
            cells,
            up,
            down,
            layout: Layout::Centered { step },
            levels,
            sl_pct: stop.clamp(least, most),
            max_candles: self.max_candles() as usize,
        };
        assert(call_ensures(transitions, (d.cells, seen, gap), (d.up, d.down)));
        let ghost by = self.atr_of(*f, atr_candles@, params@);
        assert(by == atr);
        assert(self.is_design(*f, transitions, by, analysis@, params@, d));
        Ok(lay_grids(&learnt_plan(plan, self.smoothing_k, f), &d, f))
    }

    /// The levels of a grid over a range of prices.
    pub fn calculate_optimal_levels<F: Fn(Calculation) -> Num>(
        &self,
        atr: Num,
        min_price: Num,
        max_price: Num,
        atr_multiplier: Num,
        f: &F,
    ) -> (r: usize)
        requires
            calculates(*f),
            self.reads_most_levels(atr, min_price, max_price) ==> self.max_grid_levels >= 2,
        ensures
            r == self.optimal_levels(*f, atr, min_price, max_price, atr_multiplier),
    {
        if atr.le(Num::zero()) || max_price.le(min_price) {
            return 2;
        }
        let step = calculate(f, Calculation::Product(atr, atr_multiplier));
        let width = calculate(f, Calculation::Difference(max_price, min_price));
        let steps = as_place(round(calculate(f, Calculation::Quotient(width, step))));
        if steps < 1 {
            2
        } else if steps >= self.max_grid_levels {
            self.max_grid_levels
        } else {
            steps + 1
        }
    }
}

/// The stop-loss that follows the average true range is a tenth of a percent at
/// least and a tenth at most, where it is a number at all.
pub proof fn a_stop_stays_within_bounds<F: Fn(Calculation) -> Num>(f: F, atr: Num, multiplier: Num, last_close: Num)
    ensures
        lies_between(
            VolatilityAdaptiveGridStrategy::stop_of(f, atr, multiplier, last_close),
            Num { bits: LEAST_STOP_BITS },
            Num { bits: TENTH_BITS },
        ),
{
}

/// How far prices ranged at a candle, the close before included.
pub open spec fn true_range<F: Fn(Calculation) -> Num>(f: F, before: CandleStick, c: CandleStick) -> Num {
    difference(f, c.h, c.l).greater(unsigned(difference(f, c.h, before.c))).greater(
        unsigned(difference(f, c.l, before.c)),
    )
}

/// The true ranges of candles but the first.
pub open spec fn true_ranges<F: Fn(Calculation) -> Num>(f: F, candles: Seq<CandleStick>) -> Seq<Num> {
    Seq::new((candles.len() - 1) as nat, |i: int| true_range(f, candles[i], candles[i + 1]))
}

/// The mean of the last `period` true ranges, or of all where there are fewer;
/// zero where there is none or none is asked for.
pub open spec fn average_range<F: Fn(Calculation) -> Num>(f: F, candles: Seq<CandleStick>, period: usize) -> Num {
    if candles.len() < 2 || period == 0 {
        Num { bits: 0 }
    } else {
        let all = true_ranges(f, candles);
        let n = if all.len() < period {
            all.len() as int
        } else {
            period as int
        };
        quotient(f, total(f, all.skip(all.len() - n)), count(f, n))
    }
}

/// The average true range of candles.
pub fn calculate_atr<F: Fn(Calculation) -> Num>(candles: &Vec<CandleStick>, period: usize, f: &F) -> (r: Num)
    requires
        calculates(*f),
    ensures
        r == average_range(*f, candles@, period),
{
    if candles.len() < 2 || period == 0 {
        return Num::zero();
    }
    let n: usize = candles.len() - 1;
    let take: usize = if n < period { n } else { period };
    let ghost all = true_ranges(*f, candles@);
    let ghost last = all.skip(n - take);
    let mut used: Vec<Num> = Vec::new();
    let mut i: usize = n - take;
    while i < n
        invariant
            n - take <= i <= n,
            take <= n,
            n == candles@.len() - 1,
            calculates(*f),
            all == true_ranges(*f, candles@),
            last == all.skip(n - take),
            used@ == last.take(i - (n - take)),
        decreases n - i,
    {
        let before = candles[i];
        let c = candles[i + 1];
        let width = calculate(f, Calculation::Difference(c.h, c.l));
        let up = without_sign(calculate(f, Calculation::Difference(c.h, before.c)));
        let down = without_sign(calculate(f, Calculation::Difference(c.l, before.c)));
        used.push(width.max(up).max(down));
        i += 1;
        assert(used@ =~= last.take(i - (n - take)));
    }
    assert(used@ =~= last);
    let s = add_up(f, &used);
    let c = calculate(f, Calculation::Count(take as u128));
    calculate(f, Calculation::Quotient(s, c))
}

} // verus!
