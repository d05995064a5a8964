//! Plans as data: what a scripted strategy hands over, and the grids made of
//! it.
use vstd::prelude::*;

use crate::arith::{calculates, Calculation, ONE_BITS};
use crate::grid::{get_or, is_sorted_of, GridView, TradingGrid};
use crate::num::Num;
use crate::pricing::{equal_share, normal_weights};

verus! {

/// One cell of a plan. Everything but the levels may be left out.
#[derive(Debug)]
pub struct GridPlan {
    pub levels: Vec<Num>,
    pub sl_pct: Option<Num>,
    pub max_candles: Option<usize>,
    pub weights: Option<Vec<Num>>,
    pub weight_sharpness: Option<Num>,
    pub long_win: Option<Vec<Num>>,
    pub short_win: Option<Vec<Num>>,
}

/// The outcomes counted on a grid, level by level.
#[derive(Debug)]
pub struct CellStats {
    pub long_win: Vec<usize>,
    pub long_lost: Vec<usize>,
    pub short_win: Vec<usize>,
    pub short_lost: Vec<usize>,
}

/// The counts of `s` for the first `k` levels.
pub open spec fn counts_of(s: Seq<usize>, k: nat) -> Seq<usize> {
    Seq::new(k, |j: int| get_or(s, j, 0))
}

impl CellStats {
    /// Reads the outcomes counted on a grid.
    pub fn of(grid: &TradingGrid) -> (r: CellStats)
        ensures
            r.long_win@ == counts_of(grid@.long_win, grid@.levels.len()),
            r.long_lost@ == counts_of(grid@.long_lost, grid@.levels.len()),
            r.short_win@ == counts_of(grid@.short_win, grid@.levels.len()),
            r.short_lost@ == counts_of(grid@.short_lost, grid@.levels.len()),
    {
        let n: usize = grid.num_levels();
        let mut long_win: Vec<usize> = Vec::new();
        let mut long_lost: Vec<usize> = Vec::new();
        let mut short_win: Vec<usize> = Vec::new();
        let mut short_lost: Vec<usize> = Vec::new();
        let mut j: usize = 0;
        while j < n
            invariant
                j <= n == grid@.levels.len(),
                long_win@ == counts_of(grid@.long_win, n as nat).take(j as int),
                long_lost@ == counts_of(grid@.long_lost, n as nat).take(j as int),
                short_win@ == counts_of(grid@.short_win, n as nat).take(j as int),
                short_lost@ == counts_of(grid@.short_lost, n as nat).take(j as int),
            decreases n - j,
        {
            long_win.push(grid.long_win_count(j));
            long_lost.push(grid.long_lost_count(j));
            short_win.push(grid.short_win_count(j));
            short_lost.push(grid.short_lost_count(j));
            j += 1;
        }
        assert(long_win@ =~= counts_of(grid@.long_win, n as nat));
        assert(long_lost@ =~= counts_of(grid@.long_lost, n as nat));
        assert(short_win@ =~= counts_of(grid@.short_win, n as nat));
        assert(short_lost@ =~= counts_of(grid@.short_lost, n as nat));
        CellStats { long_win, long_lost, short_win, short_lost }
    }
}

/// `p` held between zero and one; not a number stays so.
pub open spec fn unit_clamped(p: Num) -> Num {
    if p.below(Num { bits: 0 }) {
        Num { bits: 0 }
    } else if (Num { bits: ONE_BITS }).below(p) {
        Num { bits: ONE_BITS }
    } else {
        p
    }
}

/// Whether `p` is a price that a level can have.
pub open spec fn usable(p: Num) -> bool {
    p.finite() && p.key() > 0
}

/// Probabilities, one per level, held between zero and one; none where their
/// number is not `k`.
pub open spec fn clamped_probs(v: Option<Vec<Num>>, k: nat) -> Option<Seq<Num>> {
    match v {
        Some(p) => if p@.len() == k {
            Some(Seq::new(k, |j: int| unit_clamped(p@[j])))
        } else {
            None
        },
        None => None,
    }
}

fn clamp_probs(v: &Option<Vec<Num>>, k: usize) -> (r: Option<Vec<Num>>)
    ensures
        r is Some <==> clamped_probs(*v, k as nat) is Some,
        r matches Some(p) ==> clamped_probs(*v, k as nat) == Some(p@),
{
    match v {
        Some(p) => {
            if p.len() != k {
                return None;
            }
            let mut out: Vec<Num> = Vec::new();
            let mut j: usize = 0;
            while j < k
                invariant
                    j <= k == p@.len(),
                    out@ == Seq::new(k as nat, |j: int| unit_clamped(p@[j])).take(j as int),
                decreases k - j,
            {
                let x = p[j];
                let zero = Num { bits: 0 };
                let one = Num { bits: ONE_BITS };
                out.push(if x.lt(zero) { zero } else if one.lt(x) { one } else { x });
                j += 1;
            }
            assert(out@ =~= Seq::new(k as nat, |j: int| unit_clamped(p@[j])));
            Some(out)
        },
        None => None,
    }
}

impl GridPlan {
    /// The levels that can be used: positive finite prices.
    pub open spec fn kept(self) -> Seq<Num> {
        self.levels@.filter(|p: Num| usable(p))
    }

    /// The levels that can be used, in the order given.
    pub fn kept_levels(&self) -> (r: Vec<Num>)
        ensures
            r@ == self.kept(),
            forall|i: int| 0 <= i < r@.len() ==> usable(#[trigger] r@[i]),
    {
        let mut out: Vec<Num> = Vec::new();
        let mut i: usize = 0;
        let ghost pred = |p: Num| usable(p);
        proof {
            reveal(Seq::filter);
            assert(self.levels@.take(0) =~= Seq::<Num>::empty());
        }
        while i < self.levels.len()
            invariant
                i <= self.levels@.len(),
                pred == (|p: Num| usable(p)),
                out@ == self.levels@.take(i as int).filter(pred),
                forall|k: int| 0 <= k < out@.len() ==> usable(#[trigger] out@[k]),
            decreases self.levels@.len() - i,
        {
            let p = self.levels[i];
            proof {
                reveal(Seq::filter);
                assert(self.levels@.take(i + 1).drop_last() =~= self.levels@.take(i as int));
                assert(self.levels@.take(i + 1).last() == p);
            }
            if p.is_finite() && p.is_positive() {
                out.push(p);
            }
            i += 1;
        }
        assert(self.levels@.take(i as int) =~= self.levels@);
        out
    }

    /// The grid that the plan describes over the sorted levels `levels`, with
    /// the outcomes counted so far on `prev`.
    pub open spec fn grid_over<F: Fn(Calculation) -> Num>(
        self,
        f: F,
        levels: Seq<Num>,
        prev: Option<GridView>,
    ) -> GridView {
        let g0 = GridView::plain(levels, equal_share(f, levels.len() as usize));
        let g1 = match self.sl_pct {
            Some(sl) => GridView { sl_pct: sl, ..g0 },
            None => g0,
        };
        let g2 = match self.max_candles {
            Some(n) => g1.with_max_candles(n),
            None => g1,
        };
        let g3 = match self.weights {
            Some(given) => g2.with_weights(given@),
            None => match self.weight_sharpness {
                Some(s) => g2.with_weights(normal_weights(f, levels.len() as usize, s)),
                None => g2,
            },
        };
        let k = levels.len();
        let g4 = match (clamped_probs(self.long_win, k), clamped_probs(self.short_win, k)) {
            (Some(l), Some(s)) => g3.with_win_probabilities(l, s),
            _ => g3,
        };
        match prev {
            Some(p) => GridView {
                long_win: counts_of(counts_of(p.long_win, p.levels.len()), k),
                long_lost: counts_of(counts_of(p.long_lost, p.levels.len()), k),
                short_win: counts_of(counts_of(p.short_win, p.levels.len()), k),
                short_lost: counts_of(counts_of(p.short_lost, p.levels.len()), k),
                ..g4
            },
            None => g4,
        }
    }

    /// The grid that the plan describes; none where fewer than two levels can
    /// be used. `prev` is the grid whose counted outcomes carry over.
    pub fn to_grid<F: Fn(Calculation) -> Num>(&self, prev: Option<&TradingGrid>, f: &F) -> (r: Option<TradingGrid>)
        requires
            calculates(*f),
        ensures
            r is Some <==> self.kept().len() >= 2,
            r matches Some(g) ==> {
                &&& g@.inv()
                &&& is_sorted_of(self.kept(), g@.levels)
                &&& g@ == self.grid_over(
                    *f,
                    g@.levels,
                    (match prev {
                        Some(p) => Some(p@),
                        None => None,
                    }),
                )
            },
    {
        let kept = self.kept_levels();
        assert forall|i: int| 0 <= i < kept@.len() implies !(#[trigger] kept@[i]).nan() by {
            assert(usable(kept@[i]));
        }
        let mut grid = match TradingGrid::from_levels(&kept, f) {
            Some(g) => g,
            None => {
                return None;
            },
        };
        let ghost levels = grid@.levels;
        if let Some(sl) = self.sl_pct {
            grid = grid.with_sl_pct(sl);
        }
        if let Some(n) = self.max_candles {
            grid = grid.with_max_candles(n);
        }
        match &self.weights {
            Some(given) => {
                grid = grid.with_weights(given);
            },
            None => {
                if let Some(s) = self.weight_sharpness {
                    grid = grid.with_weights_normal(s, f);
                }
            },
        }
        let k: usize = grid.num_levels();
        let long = clamp_probs(&self.long_win, k);
        let short = clamp_probs(&self.short_win, k);
        if let (Some(l), Some(s)) = (long, short) {
            grid = grid.with_win_probabilities(l, s);
        }
        if let Some(p) = prev {
            let stats = CellStats::of(p);
            grid = grid.with_outcome_counts(&stats.long_win, &stats.long_lost, &stats.short_win, &stats.short_lost);
        }
        Some(grid)
    }

    /// Whether the grids that a plan's first `n` cells give are `grids`, in
    /// order, each with the outcomes of the grid that stood at its place.
    pub open spec fn are_grids_of<F: Fn(Calculation) -> Num>(
        f: F,
        plans: Seq<GridPlan>,
        prev: Seq<TradingGrid>,
        n: nat,
        grids: Seq<TradingGrid>,
    ) -> bool
        decreases n,
    {
        if n == 0 {
            grids.len() == 0
        } else {
            let i = n - 1;
            let p = plans[i];
            if p.kept().len() >= 2 {
                &&& grids.len() > 0
                &&& Self::are_grids_of(f, plans, prev, (n - 1) as nat, grids.drop_last())
                &&& grids.last()@.inv()
                &&& is_sorted_of(p.kept(), grids.last()@.levels)
                &&& grids.last()@ == p.grid_over(
                    f,
                    grids.last()@.levels,
                    if i < prev.len() { Some(prev[i]@) } else { None },
                )
            } else {
                Self::are_grids_of(f, plans, prev, (n - 1) as nat, grids)
            }
        }
    }

    /// The grids of a whole plan; a cell without two usable levels gives none.
    pub fn to_grids<F: Fn(Calculation) -> Num>(plans: &Vec<GridPlan>, prev: &Vec<TradingGrid>, f: &F) -> (r: Vec<
        TradingGrid,
    >)
        requires
            calculates(*f),
        ensures
            Self::are_grids_of(*f, plans@, prev@, plans@.len(), r@),
    {
        let mut out: Vec<TradingGrid> = Vec::new();
        let mut i: usize = 0;
        while i < plans.len()
            invariant
                i <= plans@.len(),
                calculates(*f),
                Self::are_grids_of(*f, plans@, prev@, i as nat, out@),
            decreases plans@.len() - i,
        {
            let before = if i < prev.len() { Some(&prev[i]) } else { None };
            let ghost was = out@;
            if let Some(g) = plans[i].to_grid(before, f) {
                out.push(g);
                assert(out@.drop_last() =~= was);
            }
            i += 1;
        }
        out
    }
}

/// Rebuilding a plan over as many levels keeps every outcome that was counted.
pub proof fn rebuilt_plan_keeps_outcomes<F: Fn(Calculation) -> Num>(
    f: F,
    p: GridPlan,
    levels: Seq<Num>,
    prev: GridView,
    j: int,
)
    requires
        prev.inv(),
        levels.len() == prev.levels.len(),
        0 <= j < levels.len(),
    ensures
        ({
            let g = p.grid_over(f, levels, Some(prev));
            &&& g.long_win[j] == prev.long_win[j]
            &&& g.long_lost[j] == prev.long_lost[j]
            &&& g.short_win[j] == prev.short_win[j]
            &&& g.short_lost[j] == prev.short_lost[j]
        }),
{
}

/// Outcomes counted over every level of every grid.
#[derive(Clone, Copy, Debug, PartialEq, Eq, Structural)]
pub struct Realized {
    pub long_wins: u128,
    pub long_total: u128,
    pub short_wins: u128,
    pub short_total: u128,
}

/// The sum of the first `n` entries.
pub open spec fn sum_to(s: Seq<usize>, n: nat) -> nat
    decreases n,
{
    if n == 0 {
        0
    } else {
        sum_to(s, (n - 1) as nat) + get_or(s, n - 1, 0) as nat
    }
}

/// What the levels of one grid add up to.
pub open spec fn grid_realized(g: GridView) -> (nat, nat, nat, nat) {
    let k = g.levels.len();
    (
        sum_to(g.long_win, k),
        sum_to(g.long_win, k) + sum_to(g.long_lost, k),
        sum_to(g.short_win, k),
        sum_to(g.short_win, k) + sum_to(g.short_lost, k),
    )
}

/// What the first `n` grids add up to.
pub open spec fn realized_to(grids: Seq<TradingGrid>, n: nat) -> (nat, nat, nat, nat)
    decreases n,
{
    if n == 0 {
        (0, 0, 0, 0)
    } else {
        let a = realized_to(grids, (n - 1) as nat);
        let b = grid_realized(grids[n - 1]@);
        (a.0 + b.0, a.1 + b.1, a.2 + b.2, a.3 + b.3)
    }
}

impl Realized {
    /// Whether long orders have at least `min_samples` outcomes.
    pub fn enough_long(&self, min_samples: usize) -> (r: bool)
        ensures
            r == (self.long_total >= min_samples),
    {
        self.long_total >= min_samples as u128
    }

    /// Whether short orders have at least `min_samples` outcomes.
    pub fn enough_short(&self, min_samples: usize) -> (r: bool)
        ensures
            r == (self.short_total >= min_samples),
    {
        self.short_total >= min_samples as u128
    }
}

/// Adds up the outcomes counted on all grids; none where the sum does not fit
/// in 128 bits.
pub fn realized_outcomes(grids: &Vec<TradingGrid>) -> (r: Option<Realized>)
    ensures
        r matches Some(x) ==> (x.long_wins as nat, x.long_total as nat, x.short_wins as nat, x.short_total as nat)
            == realized_to(grids@, grids@.len()),
        r is None ==> {
            let t = realized_to(grids@, grids@.len());
            t.1 > u128::MAX || t.3 > u128::MAX
        },
{
    let mut acc = Realized { long_wins: 0, long_total: 0, short_wins: 0, short_total: 0 };
    let mut i: usize = 0;
    while i < grids.len()
        invariant
            i <= grids@.len(),
            (acc.long_wins as nat, acc.long_total as nat, acc.short_wins as nat, acc.short_total as nat) == realized_to(
                grids@,
                i as nat,
            ),
            acc.long_wins <= acc.long_total,
            acc.short_wins <= acc.short_total,
        decreases grids@.len() - i,
    {
        let g = &grids[i];
        let n: usize = g.num_levels();
        let mut lw: u128 = 0;
        let mut ll: u128 = 0;
        let mut sw: u128 = 0;
        let mut sl: u128 = 0;
        let mut j: usize = 0;
        while j < n
            invariant
                j <= n == g@.levels.len(),
                lw == sum_to(g@.long_win, j as nat),
                ll == sum_to(g@.long_lost, j as nat),
                sw == sum_to(g@.short_win, j as nat),
                sl == sum_to(g@.short_lost, j as nat),
                lw <= j * usize::MAX,
                ll <= j * usize::MAX,
                sw <= j * usize::MAX,
                sl <= j * usize::MAX,
            decreases n - j,
        {
            proof {
                assert((j + 1) * usize::MAX == j * usize::MAX + usize::MAX) by (nonlinear_arith);
                assert((j + 1) * usize::MAX <= u128::MAX) by (nonlinear_arith)
                    requires
                        j + 1 <= usize::MAX,
                        usize::MAX <= 0xFFFF_FFFF_FFFF_FFFF,
                ;
            }
            lw = lw + g.long_win_count(j) as u128;
            ll = ll + g.long_lost_count(j) as u128;
            sw = sw + g.short_win_count(j) as u128;
            sl = sl + g.short_lost_count(j) as u128;
            j += 1;
        }
        let lt = lw.checked_add(ll);
        let st = sw.checked_add(sl);
        let long_total: Option<u128> = match lt {
            Some(x) => acc.long_total.checked_add(x),
            None => None,
        };
        let short_total: Option<u128> = match st {
            Some(x) => acc.short_total.checked_add(x),
            None => None,
        };
        match (long_total, short_total) {
            (Some(l), Some(s)) => {
                acc = Realized {
                    long_wins: acc.long_wins + lw,
                    long_total: l,
                    short_wins: acc.short_wins + sw,
                    short_total: s,
                };
            },
            _ => {
                proof {
                    lemma_realized_grows(grids@, (i + 1) as nat, grids@.len());
                }
                return None;
            },
        }
        i += 1;
    }
    Some(acc)
}

proof fn lemma_realized_grows(grids: Seq<TradingGrid>, a: nat, b: nat)
    requires
        a <= b,
    ensures
        realized_to(grids, a).1 <= realized_to(grids, b).1,
        realized_to(grids, a).3 <= realized_to(grids, b).3,
    decreases b - a,
{
    if a < b {
        lemma_realized_grows(grids, a, (b - 1) as nat);
    }
}

} // verus!
