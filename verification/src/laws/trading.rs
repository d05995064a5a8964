//! What candles do to orders, and what is counted of it.
use vstd::prelude::*;

use crate::arith::{Calculation, ONE_BITS};
use crate::candle::CandleStick;
use crate::forward::{walked, Forward, Step};
use crate::grid::{bumped, GridView};
use crate::jobs::stopped_out;
use crate::num::Num;
use crate::order::{Order, OrderEvent, OrderType};
use crate::plan::{grid_realized, sum_to, GridPlan};
use crate::session::{
    closed_events, closed_orders, counted, counted_to, event_time, exits_to, kept_to, plan_view, GridQuotes,
};
use crate::streaming::{candle_step, StreamingPortfolio, HISTORY_CAP};

verus! {

/// An unlocked order stays open exactly while every price that a candle trades at lies
/// between its stop and its target. It is filled at a price that the candle traded at:
/// the stop or the target where the candle opens between them, and on the stop's side
/// wherever the candle reached the stop.
pub proof fn an_order_fills_at_a_traded_price(order: Order, candle: CandleStick, seq: u64)
    requires
        seq >= order.unlock_seq,
        !order.sl_price.nan(),
        !order.tp_price.nan(),
        candle.l.at_most(candle.o),
        candle.o.at_most(candle.h),
    ensures
        order.dtype == OrderType::Long ==> (order.exit_at(candle, seq) is None <==> order.sl_price.below(candle.l)
            && candle.h.below(order.tp_price)),
        order.dtype == OrderType::Short ==> (order.exit_at(candle, seq) is None <==> order.tp_price.below(candle.l)
            && candle.h.below(order.sl_price)),
        order.dtype == OrderType::Unknown ==> order.exit_at(candle, seq) is None,
        order.exit_at(candle, seq) matches Some(p) ==> {
            &&& candle.l.at_most(p) && p.at_most(candle.h)
            &&& order.dtype == OrderType::Long ==> {
                &&& candle.l.at_most(order.sl_price) ==> p.at_most(order.sl_price)
                &&& order.sl_price.below(candle.l) ==> order.tp_price.at_most(p)
                &&& order.sl_price.at_most(candle.o) && candle.o.at_most(order.tp_price) ==> p == order.sl_price || p
                    == order.tp_price
            }
            &&& order.dtype == OrderType::Short ==> {
                &&& order.sl_price.at_most(candle.h) ==> order.sl_price.at_most(p)
                &&& candle.h.below(order.sl_price) ==> p.at_most(order.tp_price)
                &&& order.tp_price.at_most(candle.o) && candle.o.at_most(order.sl_price) ==> p == order.sl_price || p
                    == order.tp_price
            }
        },
{
}

/// A closed order is said to be stopped out exactly where the candle that closed it
/// reached its stop.
pub proof fn a_stopped_order_met_its_stop(order: Order, candle: CandleStick, seq: u64, pnl: Num)
    requires
        order.exit_at(candle, seq) is Some,
        order.dtype == OrderType::Long ==> order.sl_price.below(order.tp_price),
        order.dtype == OrderType::Short ==> order.tp_price.below(order.sl_price),
        candle.l.at_most(candle.o),
        candle.o.at_most(candle.h),
    ensures
        order.dtype == OrderType::Long ==> (stopped_out(order.closed(order.exit_at(candle, seq)->0, pnl))
            <==> candle.l.at_most(order.sl_price)),
        order.dtype == OrderType::Short ==> (stopped_out(order.closed(order.exit_at(candle, seq)->0, pnl))
            <==> order.sl_price.at_most(candle.h)),
{
}

/// One for what holds, nothing for what does not.
pub open spec fn one_if(b: bool) -> nat {
    if b {
        1
    } else {
        0
    }
}

/// How many entries `p` holds of.
pub open spec fn how_many<A>(s: Seq<A>, p: spec_fn(A) -> bool) -> nat
    decreases s.len(),
{
    if s.len() == 0 {
        0
    } else {
        how_many(s.drop_last(), p) + one_if(p(s.last()))
    }
}

/// Whether an order ended with a gain.
pub open spec fn gained(order: Order) -> bool {
    order.pnl_pct matches Some(x) && (Num { bits: 0 }).below(x)
}

/// Whether an order ended at a level of a grid, on a side, with a gain or without.
pub open spec fn ended_at(order: Order, grid: int, level: int, long: bool, won: bool) -> bool {
    &&& order.pnl_pct is Some
    &&& order.grid_index == grid
    &&& order.level_index == level
    &&& (order.dtype == OrderType::Long) == long
    &&& gained(order) == won
}

/// The orders that ended at a level of a grid, on a side, with a gain or without.
pub open spec fn endings(closed: Seq<Order>, grid: int, level: int, long: bool, won: bool) -> nat {
    how_many(closed, |o: Order| ended_at(o, grid, level, long, won))
}

proof fn lemma_how_many<A>(s: Seq<A>, p: spec_fn(A) -> bool)
    ensures
        how_many(s, p) <= s.len(),
    decreases s.len(),
{
    if s.len() > 0 {
        lemma_how_many(s.drop_last(), p);
    }
}

/// What a level of a grid has counted after orders were closed is what it had counted
/// before and the orders that ended there: gains of long orders as long wins, other
/// ends of long orders as long losses, and so for short ones. Nothing else of a grid
/// changes.
pub proof fn every_ending_is_counted_where_it_belongs(plan: Seq<GridView>, closed: Seq<Order>, i: int, j: int)
    requires
        0 <= i < plan.len(),
        plan[i].inv(),
        0 <= j < plan[i].levels.len(),
        plan[i].has_room(closed.len() as int),
    ensures
        ({
            let g = plan[i];
            let after = counted_to(plan, closed, closed.len());
            let h = after[i];
            &&& after.len() == plan.len()
            &&& h.long_win[j] == g.long_win[j] + endings(closed, i, j, true, true)
            &&& h.long_lost[j] == g.long_lost[j] + endings(closed, i, j, true, false)
            &&& h.short_win[j] == g.short_win[j] + endings(closed, i, j, false, true)
            &&& h.short_lost[j] == g.short_lost[j] + endings(closed, i, j, false, false)
            &&& h.levels == g.levels && h.weights == g.weights && h.sl_pct == g.sl_pct && h.max_candles == g.max_candles
            &&& h.long_win_p == g.long_win_p && h.short_win_p == g.short_win_p
        }),
{
    lemma_counted(plan, closed, i, j, closed.len());
    assert(closed.take(closed.len() as int) =~= closed);
}

proof fn lemma_counted(plan: Seq<GridView>, closed: Seq<Order>, i: int, j: int, n: nat)
    requires
        0 <= i < plan.len(),
        plan[i].inv(),
        0 <= j < plan[i].levels.len(),
        n <= closed.len(),
        plan[i].has_room(closed.len() as int),
    ensures
        ({
            let g = plan[i];
            let after = counted_to(plan, closed, n);
            let h = after[i];
            let done = closed.take(n as int);
            &&& after.len() == plan.len()
            &&& h.inv()
            &&& h.long_win[j] == g.long_win[j] + endings(done, i, j, true, true)
            &&& h.long_lost[j] == g.long_lost[j] + endings(done, i, j, true, false)
            &&& h.short_win[j] == g.short_win[j] + endings(done, i, j, false, true)
            &&& h.short_lost[j] == g.short_lost[j] + endings(done, i, j, false, false)
            &&& h.levels == g.levels && h.weights == g.weights && h.sl_pct == g.sl_pct && h.max_candles == g.max_candles
            &&& h.long_win_p == g.long_win_p && h.short_win_p == g.short_win_p
        }),
    decreases n,
{
    let g = plan[i];
    if n > 0 {
        lemma_counted(plan, closed, i, j, (n - 1) as nat);
        let before = counted_to(plan, closed, (n - 1) as nat);
        let done = closed.take(n as int);
        let last = closed[n - 1];
        assert(done.drop_last() =~= closed.take(n - 1));
        assert(done.last() == last);
        let h = before[i];
        assert(g.long_win[j] + closed.len() <= usize::MAX);
        lemma_how_many(closed.take(n - 1), |o: Order| ended_at(o, i, j, true, true));
        lemma_how_many(closed.take(n - 1), |o: Order| ended_at(o, i, j, true, false));
        lemma_how_many(closed.take(n - 1), |o: Order| ended_at(o, i, j, false, true));
        lemma_how_many(closed.take(n - 1), |o: Order| ended_at(o, i, j, false, false));
        assert(counted_to(plan, closed, n) == counted(before, last));
        if last.grid_index == i && last.pnl_pct is Some {
            let pnl = last.pnl_pct->0;
            assert(gained(last) <==> !pnl.nan() && pnl.key() > 0);
        }
    } else {
        assert(closed.take(0).len() == 0);
    }
}

proof fn lemma_sum_bumped(s: Seq<usize>, j: int, n: nat)
    requires
        0 <= j < s.len(),
        n <= s.len(),
        s[j] < usize::MAX,
    ensures
        sum_to(bumped(s, j), n) == sum_to(s, n) + one_if(j < n),
    decreases n,
{
    if n > 0 {
        lemma_sum_bumped(s, j, (n - 1) as nat);
    }
}

/// Each outcome adds one to what its side amounts to, and to what that side has won
/// where the order gained. What the other side amounts to stays.
pub proof fn an_outcome_adds_to_its_side(g: GridView, level: int, long: bool, pnl: Num)
    requires
        g.inv(),
        g.has_room(1),
        0 <= level < g.levels.len(),
    ensures
        ({
            let a = grid_realized(g);
            let b = grid_realized(g.with_outcome(level, long, pnl));
            let won = (Num { bits: 0 }).below(pnl);
            &&& b.0 == a.0 + one_if(long && won)
            &&& b.1 == a.1 + one_if(long)
            &&& b.2 == a.2 + one_if(!long && won)
            &&& b.3 == a.3 + one_if(!long)
        }),
{
    let k = g.levels.len();
    assert(g.long_win[level] + 1 <= usize::MAX);
    assert(g.short_win[level] + 1 <= usize::MAX);
    lemma_sum_bumped(g.long_win, level, k);
    lemma_sum_bumped(g.long_lost, level, k);
    lemma_sum_bumped(g.short_win, level, k);
    lemma_sum_bumped(g.short_lost, level, k);
}

/// A backtest and live trading make the same decisions: from the same orders and the
/// same plan, by the same clock and settlement, a candle that is no occasion for a
/// rebuild leads to the same events, the same open orders, the same closed ones and
/// the same counts.
pub proof fn live_trading_decides_as_a_backtest(
    a: Forward,
    b: Forward,
    c: StreamingPortfolio,
    d: StreamingPortfolio,
    candle: CandleStick,
    round_trip_fee: Num,
    tested: Seq<OrderEvent>,
    traded: Seq<OrderEvent>,
    pnls: Seq<Num>,
    quotes: Seq<GridQuotes>,
)
    requires
        walked(a, b, candle, round_trip_fee, tested, pnls, quotes),
        candle_step(c, d, candle, round_trip_fee, traded, pnls, Seq::empty(), quotes),
        a.session.orders@ == c.session.orders@,
        a.session.candle_seq == c.session.candle_seq,
        a.settlement == c.settlement_candles,
        plan_view(a.session.plan@) == plan_view(c.session.plan@),
    ensures
        tested == traded,
        b.session.orders@ == d.session.orders@,
        b.session.candle_seq == d.session.candle_seq,
        plan_view(b.session.plan@) == plan_view(d.session.plan@),
        b.session.history@.skip(a.session.history@.len() as int) == d.session.history@.skip(
            c.session.history@.len() as int,
        ),
{
    assert(plan_view(b.session.plan@).len() == b.session.plan@.len());
    assert(plan_view(d.session.plan@).len() == d.session.plan@.len());
    assert(tested =~= traded);
    assert(b.session.history@.skip(a.session.history@.len() as int) =~= d.session.history@.skip(
        c.session.history@.len() as int,
    ));
}

/// A grid is what its plan asks for: the stop, the candles, the weights and the chances
/// of each side as given, each where it belongs.
pub proof fn a_grid_has_what_its_plan_gives<F: Fn(Calculation) -> Num>(
    f: F,
    plan: GridPlan,
    levels: Seq<Num>,
    prev: Option<GridView>,
    j: int,
    t: int,
)
    requires
        levels.len() >= 2,
        0 <= j < levels.len(),
        0 <= t,
    ensures
        ({
            let g = plan.grid_over(f, levels, prev);
            let zero = Num { bits: 0 };
            let one = Num { bits: ONE_BITS };
            &&& g.levels == levels
            &&& plan.sl_pct matches Some(sl) ==> g.sl_pct == sl
            &&& plan.max_candles matches Some(n) ==> g.max_candles == n
            &&& plan.weights matches Some(w) ==> (w@.len() == levels.len() ==> g.weight(j, t) == w@[j])
            &&& (plan.long_win matches Some(l) && plan.short_win matches Some(s) && l@.len() == levels.len() && s@.len()
                == levels.len()) ==> {
                let p = plan.long_win->0@[j];
                let q = plan.short_win->0@[j];
                &&& zero.at_most(p) && p.at_most(one) ==> g.long_win_p[j] == p
                &&& zero.at_most(q) && q.at_most(one) ==> g.short_win_p[j] == q
                &&& p.below(zero) ==> g.long_win_p[j] == zero
                &&& one.below(p) ==> g.long_win_p[j] == one
                &&& q.below(zero) ==> g.short_win_p[j] == zero
                &&& one.below(q) ==> g.short_win_p[j] == one
            }
        }),
{
}


/// Whether an order ended as another one was set up, at a price.
pub open spec fn ended_as(o: Order, setup: Order, price: Num) -> bool {
    &&& o.exit_price == Some(price)
    &&& o.pnl_pct is Some
    &&& o.dtype == setup.dtype && o.entry_price == setup.entry_price && o.size == setup.size
    &&& o.sl_price == setup.sl_price && o.tp_price == setup.tp_price
    &&& o.grid_index == setup.grid_index && o.level_index == setup.level_index && o.unlock_seq == setup.unlock_seq
}

/// Whether an open order went the way that a candle sends it: into the kept ones where
/// nothing closes it, else into the closed ones at its price.
pub open spec fn went_its_way(o: Order, candle: CandleStick, seq: u64, kept: Seq<Order>, closed: Seq<Order>) -> bool {
    match o.exit_at(candle, seq) {
        None => kept.contains(o),
        Some(p) => exists|k: int| 0 <= k < closed.len() && ended_as(#[trigger] closed[k], o, p),
    }
}

proof fn lemma_ways(orders: Seq<Order>, candle: CandleStick, seq: u64, pnls: Seq<Num>, n: nat)
    requires
        n <= orders.len() <= usize::MAX,
    ensures
        forall|i: int|
            0 <= i < n ==> went_its_way(
                #[trigger] orders[i],
                candle,
                seq,
                kept_to(orders, candle, seq, n),
                closed_orders(orders, exits_to(orders, candle, seq, n), pnls),
            ),
        kept_to(orders, candle, seq, n).len() + exits_to(orders, candle, seq, n).len() == n,
    decreases n,
{
    if n > 0 {
        let m = (n - 1) as nat;
        lemma_ways(orders, candle, seq, pnls, m);
        let (kept, all) = (kept_to(orders, candle, seq, m), kept_to(orders, candle, seq, n));
        let (exits, more) = (exits_to(orders, candle, seq, m), exits_to(orders, candle, seq, n));
        let closed = closed_orders(orders, exits, pnls);
        let after = closed_orders(orders, more, pnls);
        assert forall|i: int| 0 <= i < n implies went_its_way(#[trigger] orders[i], candle, seq, all, after) by {
            let o = orders[i];
            if i < m {
                assert(went_its_way(o, candle, seq, kept, closed));
                match o.exit_at(candle, seq) {
                    None => {
                        let k = choose|k: int| 0 <= k < kept.len() && kept[k] == o;
                        assert(all[k] == o);
                    },
                    Some(p) => {
                        let k = choose|k: int| 0 <= k < closed.len() && ended_as(#[trigger] closed[k], o, p);
                        assert(after[k] == closed[k]);
                    },
                }
            } else {
                match o.exit_at(candle, seq) {
                    None => {
                        assert(all[kept.len() as int] == o);
                    },
                    Some(p) => {
                        assert(ended_as(after[exits.len() as int], o, p));
                    },
                }
            }
        }
    }
}

/// In a backtest, a candle leaves every order that nothing closes open, and closes every
/// other one at its price as it was set up. It tells of each of those first, in the order
/// in which they go into the history.
pub proof fn a_candle_sends_every_order_its_way(
    a: Forward,
    b: Forward,
    candle: CandleStick,
    round_trip_fee: Num,
    events: Seq<OrderEvent>,
    pnls: Seq<Num>,
    quotes: Seq<GridQuotes>,
)
    requires
        walked(a, b, candle, round_trip_fee, events, pnls, quotes),
    ensures
        ({
            let seq = (a.session.candle_seq + 1) as u64;
            let open = a.session.orders@;
            let old_len = a.session.history@.len() as int;
            let closed = b.session.history@.skip(old_len);
            &&& b.session.history@.take(old_len) == a.session.history@
            &&& forall|i: int|
                0 <= i < open.len() ==> went_its_way(#[trigger] open[i], candle, seq, b.session.orders@, closed)
            &&& closed.len() <= open.len() <= closed.len() + b.session.orders@.len()
            &&& closed.len() <= events.len()
            &&& forall|k: int|
                0 <= k < closed.len() ==> #[trigger] events[k] == (OrderEvent::Closed {
                    ts: event_time(candle.t),
                    order: closed[k],
                })
            &&& forall|k: int| 0 <= k < closed.len() ==> (#[trigger] closed[k]).pnl_pct == Some(pnls[k])
        }),
{
    let seq = (a.session.candle_seq + 1) as u64;
    let open = a.session.orders@;
    assert(open.len() == a.session.orders.len());
    let exits = exits_to(open, candle, seq, open.len());
    let kept = kept_to(open, candle, seq, open.len());
    let ended = closed_orders(open, exits, pnls);
    lemma_ways(open, candle, seq, pnls, open.len());
    let old_len = a.session.history@.len() as int;
    let closed = b.session.history@.skip(old_len);
    assert(closed =~= ended);
    assert(b.session.history@.take(old_len) =~= a.session.history@);
    assert forall|i: int| 0 <= i < open.len() implies went_its_way(
        #[trigger] open[i],
        candle,
        seq,
        b.session.orders@,
        closed,
    ) by {
        let o = open[i];
        assert(went_its_way(o, candle, seq, kept, ended));
        if o.exit_at(candle, seq) is None {
            let k = choose|k: int| 0 <= k < kept.len() && kept[k] == o;
            assert(b.session.orders@[k] == o);
        }
    }
    assert forall|k: int| 0 <= k < closed.len() implies #[trigger] events[k] == (OrderEvent::Closed {
        ts: event_time(candle.t),
        order: closed[k],
    }) by {
        assert(events[k] == closed_events(event_time(candle.t), ended)[k]);
    }
}

/// The candle taken in last is the last that is remembered: a flush after it closes at
/// its close and at its time, and of the candles before none but the oldest is dropped.
pub proof fn a_flush_goes_by_the_last_candle(
    a: StreamingPortfolio,
    b: StreamingPortfolio,
    candle: CandleStick,
    round_trip_fee: Num,
    events: Seq<OrderEvent>,
    pnls: Seq<Num>,
    rebuilt: Seq<OrderEvent>,
    quotes: Seq<GridQuotes>,
)
    requires
        a.inv(),
        candle_step(a, b, candle, round_trip_fee, events, pnls, rebuilt, quotes),
    ensures
        b.flush_price() == candle.c,
        b.flush_time() == event_time(candle.t),
        b.inv(),
        forall|k: int|
            0 <= k < b.candles@.len() - 1 ==> #[trigger] b.candles@[k] == a.candles@[a.candles@.len() - b.candles@.len() + 1 + k],
        b.candles@.len() == a.candles@.len() + 1 || b.candles@.len() == a.candles@.len() == HISTORY_CAP,
{
}

/// A backtest asks for no candle at or past its next review or the end of its span, asks
/// for a new plan before it goes on past a review, and is done exactly where it has come
/// to its end with nothing left to trade on a plan.
pub proof fn a_backtest_reviews_before_it_goes_on(f: Forward)
    ensures
        f.step() matches Step::Fetch { from, to } ==> from == f.current() && to <= f.session.review_at && to <= f.to && (to
            == f.session.review_at || to == f.to),
        f.step() matches Step::Fetch { from, to } ==> f.rebuilt || from < to,
        f.step() matches Step::Rebuild { at } ==> at == f.current() && f.session.review_at <= at < f.to && !f.rebuilt,
        f.step() is Done <==> !f.rebuilt && f.to <= f.current(),
{
}

} // verus!
