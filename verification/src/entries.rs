//! Placing orders: which grid levels a candle touches, and what becomes of
//! each.
use vstd::prelude::*;

use crate::candle::CandleStick;
use crate::grid::{GridView, TradingGrid};
use crate::num::Num;
use crate::order::{Order, OrderEvent, OrderType};
use crate::session::{event_time, plan_view, time_of, GridQuotes};

verus! {

/// Whether an order is open at level `il` of grid `ig`.
pub open spec fn taken(orders: Seq<Order>, ig: int, il: int) -> bool {
    exists|i: int| 0 <= i < orders.len() && (#[trigger] orders[i]).grid_index == ig && orders[i].level_index == il
}

/// Whether the candle's range meets the grid's.
pub open spec fn meets(g: GridView, candle: CandleStick) -> bool {
    !candle.h.below(g.levels[0]) && !g.levels.last().below(candle.l)
}

/// Whether the candle's range holds the price.
pub open spec fn touches(candle: CandleStick, price: Num) -> bool {
    candle.l.at_most(price) && price.at_most(candle.h)
}

/// The order for level `il` of grid `ig`: a long one up to the middle of the
/// grid's range, a short one above it.
pub open spec fn order_at(g: GridView, q: GridQuotes, ig: int, il: int, unlock_seq: u64) -> Order {
    let price = g.levels[il];
    let long = price.at_most(q.mid);
    let l = q.levels@[il];
    Order {
        dtype: if long { OrderType::Long } else { OrderType::Short },
        entry_price: price,
        size: if long { l.size_long } else { l.size_short },
        sl_price: if long { l.sl_long } else { l.sl_short },
        tp_price: if long { g.tp_above(il) } else { g.tp_below(il) },
        grid_index: ig as usize,
        level_index: il as usize,
        pnl_pct: None,
        exit_price: None,
        unlock_seq,
    }
}

/// The profit that an order at level `il` could make.
pub open spec fn profit_at(g: GridView, q: GridQuotes, il: int) -> Num {
    if g.levels[il].at_most(q.mid) {
        q.levels@[il].profit_long
    } else {
        q.levels@[il].profit_short
    }
}

/// Settings of an entry step that every level shares.
#[derive(Clone, Copy, Debug, PartialEq, Eq, Structural)]
pub struct EntryRule {
    /// The fee of opening and closing an order.
    pub round_trip_fee: Num,
    /// The number of the first candle that may close a new order.
    pub unlock_seq: u64,
}

/// What becomes of level `il` of grid `ig`, with `open` the orders open before
/// the step: nothing where the candle does not touch it or an order is open
/// there, a rejection where the profit does not exceed the fee, else an order.
pub open spec fn outcome_at(
    open: Seq<Order>,
    g: GridView,
    q: GridQuotes,
    candle: CandleStick,
    rule: EntryRule,
    ig: int,
    il: int,
) -> Seq<OrderEvent> {
    let ts = event_time(candle.t);
    if !touches(candle, g.levels[il]) || taken(open, ig, il) {
        Seq::empty()
    } else if profit_at(g, q, il).at_most(rule.round_trip_fee) {
        seq![
            OrderEvent::Rejected {
                ts,
                grid: ig as usize,
                level: il as usize,
                expected_profit: profit_at(g, q, il),
                fee: rule.round_trip_fee,
            },
        ]
    } else {
        seq![OrderEvent::Placed { ts, order: order_at(g, q, ig, il, rule.unlock_seq) }]
    }
}

/// The outcomes of the first `n` levels of grid `ig`.
pub open spec fn level_outcomes(
    open: Seq<Order>,
    g: GridView,
    q: GridQuotes,
    candle: CandleStick,
    rule: EntryRule,
    ig: int,
    n: nat,
) -> Seq<OrderEvent>
    decreases n,
{
    if n == 0 {
        Seq::empty()
    } else {
        level_outcomes(open, g, q, candle, rule, ig, (n - 1) as nat) + outcome_at(open, g, q, candle, rule, ig, n - 1)
    }
}

/// The outcomes of the first `n` grids, each level in turn.
pub open spec fn grid_outcomes(
    open: Seq<Order>,
    plan: Seq<GridView>,
    quotes: Seq<GridQuotes>,
    candle: CandleStick,
    rule: EntryRule,
    n: nat,
) -> Seq<OrderEvent>
    decreases n,
{
    if n == 0 {
        Seq::empty()
    } else {
        let ig = n - 1;
        let rest = grid_outcomes(open, plan, quotes, candle, rule, (n - 1) as nat);
        if meets(plan[ig], candle) {
            rest + level_outcomes(open, plan[ig], quotes[ig], candle, rule, ig, plan[ig].levels.len())
        } else {
            rest
        }
    }
}

/// The orders that events place.
pub open spec fn placed(events: Seq<OrderEvent>) -> Seq<Order>
    decreases events.len(),
{
    if events.len() == 0 {
        Seq::empty()
    } else {
        match events.last() {
            OrderEvent::Placed { order, .. } => placed(events.drop_last()).push(order),
            _ => placed(events.drop_last()),
        }
    }
}

proof fn lemma_placed_push(events: Seq<OrderEvent>, e: OrderEvent)
    ensures
        placed(events.push(e)) == (match e {
            OrderEvent::Placed { order, .. } => placed(events).push(order),
            _ => placed(events),
        }),
{
    assert(events.push(e).drop_last() =~= events);
}

/// Whether quotes stand ready for every level of every grid.
pub open spec fn quoted(plan: Seq<GridView>, quotes: Seq<GridQuotes>) -> bool {
    &&& plan.len() == quotes.len()
    &&& forall|i: int| #![trigger plan[i]]
        0 <= i < plan.len() ==> plan[i].inv() && quotes[i].levels@.len() == plan[i].levels.len()
}

fn is_taken(orders: &Vec<Order>, ig: usize, il: usize) -> (r: bool)
    ensures
        r == taken(orders@, ig as int, il as int),
{
    let mut i: usize = 0;
    while i < orders.len()
        invariant
            i <= orders@.len(),
            forall|k: int|
                0 <= k < i ==> !((#[trigger] orders@[k]).grid_index == ig && orders@[k].level_index == il),
        decreases orders@.len() - i,
    {
        if orders[i].grid_index == ig && orders[i].level_index == il {
            return true;
        }
        i += 1;
    }
    false
}

/// Whether every order from position `from` on stands before level `il` of
/// grid `ig`.
spec fn all_before(orders: Seq<Order>, from: int, ig: int, il: int) -> bool {
    forall|i: int|
        from <= i < orders.len() ==> (#[trigger] orders[i]).grid_index < ig || (orders[i].grid_index == ig
            && orders[i].level_index < il)
}

/// Places orders on the levels that the candle touches and that have none. The
/// events come in the order of grids and levels.
pub fn evaluate_grid_entries(
    candle: &CandleStick,
    plan: &Vec<TradingGrid>,
    quotes: &Vec<GridQuotes>,
    orders: &mut Vec<Order>,
    rule: EntryRule,
) -> (events: Vec<OrderEvent>)
    requires
        quoted(plan_view(plan@), quotes@),
    ensures
        events@ == grid_outcomes(old(orders)@, plan_view(plan@), quotes@, *candle, rule, plan@.len()),
        final(orders)@ == old(orders)@ + placed(events@),
{
    let ghost open = orders@;
    let ghost views = plan_view(plan@);
    let ts = time_of(candle);
    let mut events: Vec<OrderEvent> = Vec::new();
    let mut ig: usize = 0;
    assert(orders@ =~= open + placed(events@));
    while ig < plan.len()
        invariant
            ig <= plan@.len(),
            open == old(orders)@,
            views == plan_view(plan@),
            quoted(views, quotes@),
            ts == event_time(candle.t),
            events@ == grid_outcomes(open, views, quotes@, *candle, rule, ig as nat),
            orders@ == open + placed(events@),
            all_before(orders@, open.len() as int, ig as int, 0),
        decreases plan@.len() - ig,
    {
        let grid = &plan[ig];
        let q = &quotes[ig];
        assert(views[ig as int] == grid@);
        assert(views[ig as int].inv());
        let ghost before = events@;
        if candle.h.lt(grid.min()) || grid.max().lt(candle.l) {
            assert(!meets(views[ig as int], *candle));
        } else {
            let n: usize = grid.num_levels();
            let mut il: usize = 0;
            assert(events@ =~= before + level_outcomes(open, grid@, *q, *candle, rule, ig as int, 0));
            while il < n
                invariant
                    il <= n == grid@.levels.len(),
                    ig < plan@.len(),
                    grid@.inv(),
                    q.levels@.len() == n,
                    ts == event_time(candle.t),
                    events@ == before + level_outcomes(open, grid@, *q, *candle, rule, ig as int, il as nat),
                    orders@ == open + placed(events@),
                    all_before(orders@, open.len() as int, ig as int, il as int),
                decreases n - il,
            {
                let ghost so_far = events@;
                let ghost orders0 = orders@;
                let price = grid.level_price(il);
                proof {
                    assert(taken(orders0, ig as int, il as int) <==> taken(open, ig as int, il as int)) by {
                        if taken(orders0, ig as int, il as int) {
                            let i = choose|i: int|
                                0 <= i < orders0.len() && (#[trigger] orders0[i]).grid_index == ig && orders0[i].level_index
                                    == il;
                            assert(i < open.len());
                            assert(open[i] == orders0[i]);
                        }
                        if taken(open, ig as int, il as int) {
                            let i = choose|i: int|
                                0 <= i < open.len() && (#[trigger] open[i]).grid_index == ig && open[i].level_index == il;
                            assert(orders0[i] == open[i]);
                        }
                    }
                }
                if candle.l.le(price) && price.le(candle.h) && !is_taken(orders, ig, il) {
                    let level = q.levels[il];
                    let long = price.le(q.mid);
                    let profit = if long { level.profit_long } else { level.profit_short };
                    if profit.le(rule.round_trip_fee) {
                        let e = OrderEvent::Rejected {
                            ts,
                            grid: ig,
                            level: il,
                            expected_profit: profit,
                            fee: rule.round_trip_fee,
                        };
                        events.push(e);
                        proof {
                            lemma_placed_push(so_far, e);
                        }
                    } else {
                        let order = Order {
                            dtype: if long { OrderType::Long } else { OrderType::Short },
                            entry_price: price,
                            size: if long { level.size_long } else { level.size_short },
                            sl_price: if long { level.sl_long } else { level.sl_short },
                            tp_price: if long { grid.tp_above(il) } else { grid.tp_below(il) },
                            grid_index: ig,
                            level_index: il,
                            pnl_pct: None,
                            exit_price: None,
                            unlock_seq: rule.unlock_seq,
                        };
                        orders.push(order);
                        let e = OrderEvent::Placed { ts, order };
                        events.push(e);
                        proof {
                            lemma_placed_push(so_far, e);
                            assert(orders@ =~= open + placed(events@));
                        }
                    }
                }
                proof {
                    let o = outcome_at(open, grid@, *q, *candle, rule, ig as int, il as int);
                    assert(events@ =~= so_far + o);
                    assert(events@ =~= before + level_outcomes(open, grid@, *q, *candle, rule, ig as int, (il + 1) as nat));
                }
                il += 1;
            }
            assert(meets(views[ig as int], *candle));
        }
        ig += 1;
    }
    events
}

/// Whether no two orders are open at the same level of the same grid.
pub open spec fn one_order_per_level(orders: Seq<Order>) -> bool {
    forall|i: int, j: int|
        0 <= i < j < orders.len() ==> !((#[trigger] orders[i]).grid_index == (#[trigger] orders[j]).grid_index
            && orders[i].level_index == orders[j].level_index)
}

/// Whether the placed orders are new: unlocked at `unlock_seq`, with no
/// outcome, at levels where none was open, below `(ig, il)`, one per level.
spec fn fresh(open: Seq<Order>, p: Seq<Order>, rule: EntryRule, ig: int, il: int) -> bool {
    &&& all_before(p, 0, ig, il)
    &&& one_order_per_level(p)
    &&& forall|i: int|
        0 <= i < p.len() ==> (#[trigger] p[i]).unlock_seq == rule.unlock_seq && p[i].exit_price is None && p[i].pnl_pct is None
            && !taken(open, p[i].grid_index as int, p[i].level_index as int)
}

pub proof fn lemma_placed_add(a: Seq<OrderEvent>, b: Seq<OrderEvent>)
    ensures
        placed(a + b) == placed(a) + placed(b),
    decreases b.len(),
{
    if b.len() == 0 {
        assert(a + b =~= a);
        assert(placed(a) + placed(b) =~= placed(a));
    } else {
        lemma_placed_add(a, b.drop_last());
        assert((a + b).drop_last() =~= a + b.drop_last());
        assert(placed(a + b) =~= placed(a) + placed(b));
    }
}

proof fn lemma_level_fresh(
    open: Seq<Order>,
    g: GridView,
    q: GridQuotes,
    candle: CandleStick,
    rule: EntryRule,
    ig: int,
    n: nat,
)
    requires
        0 <= ig <= usize::MAX,
        n <= usize::MAX,
    ensures
        fresh(open, placed(level_outcomes(open, g, q, candle, rule, ig, n)), rule, ig, n as int),
        forall|i: int|
            0 <= i < placed(level_outcomes(open, g, q, candle, rule, ig, n)).len() ==> (#[trigger] placed(
                level_outcomes(open, g, q, candle, rule, ig, n),
            )[i]).grid_index == ig,
    decreases n,
{
    if n > 0 {
        lemma_level_fresh(open, g, q, candle, rule, ig, (n - 1) as nat);
        let rest = level_outcomes(open, g, q, candle, rule, ig, (n - 1) as nat);
        let o = outcome_at(open, g, q, candle, rule, ig, n - 1);
        lemma_placed_add(rest, o);
        if o.len() == 1 {
            assert(o.drop_last() =~= Seq::empty());
            assert(placed(o.drop_last()) =~= Seq::empty());
        }
    }
}

proof fn lemma_grid_fresh(
    open: Seq<Order>,
    plan: Seq<GridView>,
    quotes: Seq<GridQuotes>,
    candle: CandleStick,
    rule: EntryRule,
    n: nat,
)
    requires
        n <= plan.len(),
        n <= usize::MAX,
        forall|i: int| 0 <= i < plan.len() ==> (#[trigger] plan[i]).levels.len() <= usize::MAX,
    ensures
        fresh(open, placed(grid_outcomes(open, plan, quotes, candle, rule, n)), rule, n as int, 0),
    decreases n,
{
    if n > 0 {
        let ig = n - 1;
        lemma_grid_fresh(open, plan, quotes, candle, rule, (n - 1) as nat);
        let rest = grid_outcomes(open, plan, quotes, candle, rule, (n - 1) as nat);
        assert(plan[ig].levels.len() <= usize::MAX);
        let here = level_outcomes(open, plan[ig], quotes[ig], candle, rule, ig, plan[ig].levels.len());
        lemma_level_fresh(open, plan[ig], quotes[ig], candle, rule, ig, plan[ig].levels.len());
        lemma_placed_add(rest, here);
        let a = placed(rest);
        let b = placed(here);
        assert forall|i: int, j: int| 0 <= i < j < (a + b).len() implies !((#[trigger] (a + b)[i]).grid_index == (
        #[trigger] (a + b)[j]).grid_index && (a + b)[i].level_index == (a + b)[j].level_index) by {
            if j < a.len() {
                assert(a[i].grid_index != a[j].grid_index || a[i].level_index != a[j].level_index);
            } else if i >= a.len() {
                let x = b[i - a.len()];
                let y = b[j - a.len()];
            } else {
                assert(a[i].grid_index < ig);
                assert(b[j - a.len()].grid_index == ig);
            }
        }
    }
}

/// The orders open after an entry step are those before it and the placed
/// ones, still one per level of a grid. A placed order has no outcome yet and
/// is held for the settlement.
pub proof fn entries_keep_one_order_per_level(
    open: Seq<Order>,
    plan: Seq<GridView>,
    quotes: Seq<GridQuotes>,
    candle: CandleStick,
    rule: EntryRule,
)
    requires
        one_order_per_level(open),
        plan.len() <= usize::MAX,
        forall|i: int| 0 <= i < plan.len() ==> (#[trigger] plan[i]).levels.len() <= usize::MAX,
    ensures
        ({
            let p = placed(grid_outcomes(open, plan, quotes, candle, rule, plan.len()));
            &&& one_order_per_level(open + p)
            &&& forall|i: int|
                0 <= i < p.len() ==> (#[trigger] p[i]).unlock_seq == rule.unlock_seq && p[i].exit_price is None && p[i].pnl_pct
                    is None
        }),
{
    lemma_grid_fresh(open, plan, quotes, candle, rule, plan.len());
    let p = placed(grid_outcomes(open, plan, quotes, candle, rule, plan.len()));
    assert forall|i: int, j: int| 0 <= i < j < (open + p).len() implies !((#[trigger] (open + p)[i]).grid_index == (
    #[trigger] (open + p)[j]).grid_index && (open + p)[i].level_index == (open + p)[j].level_index) by {
        if j < open.len() {
            assert(open[i].grid_index != open[j].grid_index || open[i].level_index != open[j].level_index);
        } else if i < open.len() {
            let y = p[j - open.len()];
            assert(!taken(open, y.grid_index as int, y.level_index as int));
            assert(open[i].grid_index != y.grid_index || open[i].level_index != y.level_index);
        } else {
            let x = p[i - open.len()];
            let y = p[j - open.len()];
        }
    }
}

/// No order is placed whose profit does not exceed the fee of opening and
/// closing it.
pub proof fn no_order_below_the_fee(
    open: Seq<Order>,
    g: GridView,
    q: GridQuotes,
    candle: CandleStick,
    rule: EntryRule,
    ig: int,
    il: int,
)
    requires
        profit_at(g, q, il).at_most(rule.round_trip_fee),
    ensures
        placed(outcome_at(open, g, q, candle, rule, ig, il)).len() == 0,
{
    let o = outcome_at(open, g, q, candle, rule, ig, il);
    if o.len() == 1 {
        assert(o.drop_last() =~= Seq::empty());
        assert(placed(o.drop_last()) =~= Seq::empty());
    }
}

} // verus!
