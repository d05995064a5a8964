//! The state of a run, and the steps that one candle takes it through: closing
//! orders, then placing new ones.
use vstd::prelude::*;

use crate::candle::CandleStick;
use crate::grid::{GridView, TradingGrid};
use crate::num::Num;
use crate::order::{check_order_exit, Order, OrderEvent, OrderType};

verus! {

/// What changes while a run goes on. Nothing of its configuration is here.
#[derive(Debug)]
pub struct Session {
    /// Open orders.
    pub orders: Vec<Order>,
    /// Closed orders.
    pub history: Vec<Order>,
    /// The grids of the last rebuild.
    pub plan: Vec<TradingGrid>,
    /// When the plan is to be rebuilt; 0 where it never was.
    pub review_at: u64,
    /// Candles seen in all.
    pub candle_seq: u64,
    /// Candles seen since the last rebuild.
    pub candle_id: usize,
    /// Time of the last candle seen.
    pub candle_ts: i64,
    /// Time of the next candle to fetch; 0 where none was fetched.
    pub next_ts: u64,
}

/// An open order that a candle closes, by its place, and the price.
#[derive(Clone, Copy, Debug, PartialEq, Eq, Structural)]
pub struct Exit {
    pub index: usize,
    pub price: Num,
}

/// What a grid's levels would trade at: computed from the grid's prices, its
/// weights and the run's capital.
#[derive(Clone, Copy, Debug, PartialEq, Eq, Structural)]
pub struct LevelQuote {
    pub sl_long: Num,
    pub sl_short: Num,
    pub profit_long: Num,
    pub profit_short: Num,
    pub size_long: Num,
    pub size_short: Num,
}

/// The quotes of one grid and the middle of its price range.
#[derive(Debug)]
pub struct GridQuotes {
    pub mid: Num,
    pub levels: Vec<LevelQuote>,
}

/// The event time of a candle: its time, or 0 where that is negative.
pub open spec fn event_time(t: i64) -> u64 {
    if t >= 0 {
        t as u64
    } else {
        0
    }
}

/// The event time of a candle.
pub fn time_of(candle: &CandleStick) -> (r: u64)
    ensures
        r == event_time(candle.t),
{
    if candle.t >= 0 {
        candle.t as u64
    } else {
        0
    }
}

/// The exits among the first `n` orders.
pub open spec fn exits_to(orders: Seq<Order>, candle: CandleStick, seq: u64, n: nat) -> Seq<Exit>
    decreases n,
{
    if n == 0 {
        Seq::empty()
    } else {
        let rest = exits_to(orders, candle, seq, (n - 1) as nat);
        match orders[n - 1].exit_at(candle, seq) {
            Some(price) => rest.push(Exit { index: (n - 1) as usize, price }),
            None => rest,
        }
    }
}

/// The first `n` orders without those that the candle closes.
pub open spec fn kept_to(orders: Seq<Order>, candle: CandleStick, seq: u64, n: nat) -> Seq<Order>
    decreases n,
{
    if n == 0 {
        Seq::empty()
    } else {
        let rest = kept_to(orders, candle, seq, (n - 1) as nat);
        match orders[n - 1].exit_at(candle, seq) {
            Some(_) => rest,
            None => rest.push(orders[n - 1]),
        }
    }
}

/// The orders of `exits` as they are closed, with the profits `pnls`.
pub open spec fn closed_orders(orders: Seq<Order>, exits: Seq<Exit>, pnls: Seq<Num>) -> Seq<Order> {
    Seq::new(exits.len(), |k: int| orders[exits[k].index as int].closed(exits[k].price, pnls[k]))
}

/// What the grids of a plan hold.
pub open spec fn plan_view(plan: Seq<TradingGrid>) -> Seq<GridView> {
    Seq::new(plan.len(), |i: int| plan[i]@)
}

/// The plan once the closed order is counted on its grid.
pub open spec fn counted(plan: Seq<GridView>, order: Order) -> Seq<GridView> {
    let i = order.grid_index as int;
    if i < plan.len() && order.pnl_pct is Some {
        plan.update(i, plan[i].with_outcome(order.level_index as int, order.dtype == OrderType::Long, order.pnl_pct->0))
    } else {
        plan
    }
}

/// The plan once the first `n` closed orders are counted.
pub open spec fn counted_to(plan: Seq<GridView>, closed: Seq<Order>, n: nat) -> Seq<GridView>
    decreases n,
{
    if n == 0 {
        plan
    } else {
        counted(counted_to(plan, closed, (n - 1) as nat), closed[n - 1])
    }
}

/// The events of orders closed at `ts`.
pub open spec fn closed_events(ts: u64, closed: Seq<Order>) -> Seq<OrderEvent> {
    Seq::new(closed.len(), |k: int| OrderEvent::Closed { ts, order: closed[k] })
}

/// Whether every count of every grid has room for `n` more outcomes.
pub open spec fn plan_has_room(plan: Seq<GridView>, n: int) -> bool {
    forall|i: int| 0 <= i < plan.len() ==> (#[trigger] plan[i]).has_room(n)
}

proof fn lemma_counted_room(plan: Seq<GridView>, order: Order, n: int)
    requires
        plan_has_room(plan, n + 1),
        n >= 0,
    ensures
        plan_has_room(counted(plan, order), n),
        counted(plan, order).len() == plan.len(),
{
    let after = counted(plan, order);
    assert forall|i: int| 0 <= i < after.len() implies (#[trigger] after[i]).has_room(n) by {
        assert(plan[i].has_room(n + 1));
        let g = plan[i];
        let h = after[i];
        assert forall|j: int| #![trigger h.long_win[j]]
            #![trigger h.long_lost[j]]
            #![trigger h.short_win[j]]
            #![trigger h.short_lost[j]]
            {
                &&& 0 <= j < h.long_win.len() ==> h.long_win[j] + n <= usize::MAX
                &&& 0 <= j < h.long_lost.len() ==> h.long_lost[j] + n <= usize::MAX
                &&& 0 <= j < h.short_win.len() ==> h.short_win[j] + n <= usize::MAX
                &&& 0 <= j < h.short_lost.len() ==> h.short_lost[j] + n <= usize::MAX
            } by {
            assert(0 <= j < g.long_win.len() ==> g.long_win[j] + n + 1 <= usize::MAX);
            assert(0 <= j < g.long_lost.len() ==> g.long_lost[j] + n + 1 <= usize::MAX);
            assert(0 <= j < g.short_win.len() ==> g.short_win[j] + n + 1 <= usize::MAX);
            assert(0 <= j < g.short_lost.len() ==> g.short_lost[j] + n + 1 <= usize::MAX);
        }
    }
}

/// Every open order is either kept or closed, never both and never lost.
pub proof fn orders_are_kept_or_closed(orders: Seq<Order>, candle: CandleStick, seq: u64, n: nat)
    requires
        n <= orders.len(),
    ensures
        kept_to(orders, candle, seq, n).len() + exits_to(orders, candle, seq, n).len() == n,
        forall|i: int|
            0 <= i < kept_to(orders, candle, seq, n).len() ==> (#[trigger] kept_to(orders, candle, seq, n)[i]).exit_at(
                candle,
                seq,
            ) is None,
    decreases n,
{
    if n > 0 {
        orders_are_kept_or_closed(orders, candle, seq, (n - 1) as nat);
    }
}

/// The orders that `candle` closes as the candle with number `seq`.
pub fn due_exits(orders: &Vec<Order>, candle: &CandleStick, seq: u64) -> (r: Vec<Exit>)
    ensures
        r@ == exits_to(orders@, *candle, seq, orders@.len()),
{
    let mut out: Vec<Exit> = Vec::new();
    let mut i: usize = 0;
    while i < orders.len()
        invariant
            i <= orders@.len(),
            out@ == exits_to(orders@, *candle, seq, i as nat),
        decreases orders@.len() - i,
    {
        if let Some(price) = check_order_exit(&orders[i], candle, seq) {
            out.push(Exit { index: i, price });
        }
        i += 1;
    }
    out
}

proof fn lemma_exits(orders: Seq<Order>, candle: CandleStick, seq: u64, n: nat)
    requires
        n <= orders.len(),
        orders.len() <= usize::MAX,
    ensures
        ({
            let e = exits_to(orders, candle, seq, n);
            &&& e.len() <= n
            &&& forall|k: int| 0 <= k < e.len() ==> (#[trigger] e[k]).index < n
            &&& forall|a: int, b: int| 0 <= a < b < e.len() ==> (#[trigger] e[a]).index < (#[trigger] e[b]).index
        }),
    decreases n,
{
    if n > 0 {
        lemma_exits(orders, candle, seq, (n - 1) as nat);
    }
}

/// The exits name orders that exist.
pub proof fn lemma_exit_places(orders: Seq<Order>, candle: CandleStick, seq: u64, n: nat)
    requires
        n <= orders.len(),
        orders.len() <= usize::MAX,
    ensures
        forall|k: int|
            0 <= k < exits_to(orders, candle, seq, n).len() ==> (#[trigger] exits_to(orders, candle, seq, n)[k]).index < n,
{
    lemma_exits(orders, candle, seq, n);
}

/// Room for `n` outcomes is room for fewer.
pub proof fn lemma_plan_room_less(plan: Seq<GridView>, n: int, m: int)
    requires
        plan_has_room(plan, n),
        m <= n,
    ensures
        plan_has_room(plan, m),
{
    assert forall|i: int| 0 <= i < plan.len() implies (#[trigger] plan[i]).has_room(m) by {
        lemma_room_less(plan[i], n, m);
    }
}

proof fn lemma_exits_prefix(orders: Seq<Order>, candle: CandleStick, seq: u64, n: nat, m: nat)
    requires
        n <= m <= orders.len(),
        orders.len() <= usize::MAX,
    ensures
        ({
            let a = exits_to(orders, candle, seq, n);
            let b = exits_to(orders, candle, seq, m);
            &&& a.len() <= b.len()
            &&& a == b.take(a.len() as int)
            &&& a.len() < b.len() ==> b[a.len() as int].index >= n
        }),
    decreases m - n,
{
    let a = exits_to(orders, candle, seq, n);
    let b = exits_to(orders, candle, seq, m);
    if n < m {
        lemma_exits_prefix(orders, candle, seq, n, (m - 1) as nat);
        let c = exits_to(orders, candle, seq, (m - 1) as nat);
        assert(a =~= b.take(a.len() as int));
    } else {
        assert(a =~= b.take(a.len() as int));
    }
}

impl Session {
    /// A run that has not begun.
    pub fn new() -> (r: Session)
        ensures
            r.orders@.len() == 0 && r.history@.len() == 0 && r.plan@.len() == 0,
            r.review_at == 0 && r.candle_seq == 0 && r.candle_id == 0 && r.candle_ts == 0 && r.next_ts == 0,
    {
        Session {
            orders: Vec::new(),
            history: Vec::new(),
            plan: Vec::new(),
            review_at: 0,
            candle_seq: 0,
            candle_id: 0,
            candle_ts: 0,
            next_ts: 0,
        }
    }

    /// The time of the last candle seen.
    pub fn processed_upto(&self) -> (r: i64)
        ensures
            r == self.candle_ts,
    {
        self.candle_ts
    }

    /// Whether an order is open.
    pub fn has_open_orders(&self) -> (r: bool)
        ensures
            r == (self.orders@.len() > 0),
    {
        self.orders.len() > 0
    }

    /// Moves a closed order to the history and counts it on its grid. `room` is
    /// how many more outcomes every count must have room for.
    pub(crate) fn close_one(&mut self, order: Order, room: usize)
        requires
            order.pnl_pct is Some,
            room > 0,
            plan_has_room(plan_view(old(self).plan@), room as int),
        ensures
            final(self).history@ == old(self).history@.push(order),
            plan_view(final(self).plan@) == counted(plan_view(old(self).plan@), order),
            plan_has_room(plan_view(final(self).plan@), room - 1),
            final(self).orders == old(self).orders,
            final(self).review_at == old(self).review_at,
            final(self).candle_seq == old(self).candle_seq,
            final(self).candle_id == old(self).candle_id,
            final(self).candle_ts == old(self).candle_ts,
            final(self).next_ts == old(self).next_ts,
    {
        let ghost before = plan_view(self.plan@);
        proof {
            lemma_counted_room(before, order, room - 1);
        }
        if order.grid_index < self.plan.len() {
            if let Some(pnl) = order.pnl_pct {
                let is_long = order.dtype == OrderType::Long;
                let g: usize = order.grid_index;
                proof {
                    assert(before[g as int].has_room(room as int));
                    lemma_room_less(before[g as int], room as int, 1);
                    assert(self.plan@[g as int]@ == before[g as int]);
                }
                self.plan[g].record_trade_outcome(order.level_index, is_long, pnl);
            }
        }
        assert(plan_view(self.plan@) =~= counted(before, order));
        self.history.push(order);
    }

    /// Closes the orders that `candle` closes as the candle with number `seq`.
    /// `exits` are those orders, and `pnls` what each of them earned.
    pub fn settle(&mut self, candle: &CandleStick, seq: u64, exits: &Vec<Exit>, pnls: &Vec<Num>) -> (events: Vec<OrderEvent>)
        requires
            exits@ == exits_to(old(self).orders@, *candle, seq, old(self).orders@.len()),
            pnls@.len() == exits@.len(),
            plan_has_room(plan_view(old(self).plan@), exits@.len() as int),
        ensures
            ({
                let closed = closed_orders(old(self).orders@, exits@, pnls@);
                &&& final(self).orders@ == kept_to(old(self).orders@, *candle, seq, old(self).orders@.len())
                &&& final(self).history@ == old(self).history@ + closed
                &&& plan_view(final(self).plan@) == counted_to(plan_view(old(self).plan@), closed, closed.len())
                &&& events@ == closed_events(event_time(candle.t), closed)
            }),
            final(self).review_at == old(self).review_at,
            final(self).candle_seq == old(self).candle_seq,
            final(self).candle_id == old(self).candle_id,
            final(self).candle_ts == old(self).candle_ts,
            final(self).next_ts == old(self).next_ts,
    {
        let ghost orders0 = self.orders@;
        let ghost plan0 = plan_view(self.plan@);
        let ghost hist0 = self.history@;
        let ghost closed = closed_orders(orders0, exits@, pnls@);
        let n: usize = self.orders.len();
        let ts = time_of(candle);
        let mut events: Vec<OrderEvent> = Vec::new();
        let mut kept: Vec<Order> = Vec::new();
        let mut i: usize = 0;
        let mut e: usize = 0;
        proof {
            lemma_exits(orders0, *candle, seq, n as nat);
            assert(closed.take(0) =~= Seq::<Order>::empty());
        }
        while i < n
            invariant
                i <= n == orders0.len(),
                self.orders@ == orders0,
                e <= exits@.len() == pnls@.len(),
                exits@ == exits_to(orders0, *candle, seq, n as nat),
                closed == closed_orders(orders0, exits@, pnls@),
                e == exits_to(orders0, *candle, seq, i as nat).len(),
                kept@ == kept_to(orders0, *candle, seq, i as nat),
                ts == event_time(candle.t),
                self.history@ == hist0 + closed.take(e as int),
                events@ == closed_events(ts, closed.take(e as int)),
                plan_view(self.plan@) == counted_to(plan0, closed, e as nat),
                plan_has_room(plan_view(self.plan@), exits@.len() - e),
                self.review_at == old(self).review_at,
                self.candle_seq == old(self).candle_seq,
                self.candle_id == old(self).candle_id,
                self.candle_ts == old(self).candle_ts,
                self.next_ts == old(self).next_ts,
            decreases n - i,
        {
            let mut order = self.orders[i];
            proof {
                lemma_exits_prefix(orders0, *candle, seq, i as nat, n as nat);
                lemma_exits_prefix(orders0, *candle, seq, (i + 1) as nat, n as nat);
                lemma_exits(orders0, *candle, seq, i as nat);
                let a = exits_to(orders0, *candle, seq, i as nat);
                let b = exits_to(orders0, *candle, seq, (i + 1) as nat);
                if order.exit_at(*candle, seq) is Some {
                    assert(b[e as int] == exits@.take(b.len() as int)[e as int]);
                    assert(exits@[e as int].index == i);
                } else if e < exits@.len() {
                    assert(exits@[e as int].index >= i + 1);
                }
            }
            if e < exits.len() && exits[e].index == i {
                let pnl = pnls[e];
                order.exit_price = Some(exits[e].price);
                order.pnl_pct = Some(pnl);
                assert(order == closed[e as int]);
                let room: usize = exits.len() - e;
                self.close_one(order, room);
                events.push(OrderEvent::Closed { ts, order });
                proof {
                    assert(closed.take(e + 1) =~= closed.take(e as int).push(closed[e as int]));
                    assert(self.history@ =~= hist0 + closed.take(e + 1));
                    assert(events@ =~= closed_events(ts, closed.take(e + 1)));
                }
                e += 1;
            } else {
                kept.push(order);
            }
            i += 1;
        }
        proof {
            assert(closed.take(e as int) =~= closed);
        }
        self.orders = kept;
        events
    }
}

proof fn lemma_room_less(g: GridView, n: int, m: int)
    requires
        g.has_room(n),
        m <= n,
    ensures
        g.has_room(m),
{
    assert forall|j: int| #![trigger g.long_win[j]]
        #![trigger g.long_lost[j]]
        #![trigger g.short_win[j]]
        #![trigger g.short_lost[j]]
        {
            &&& 0 <= j < g.long_win.len() ==> g.long_win[j] + m <= usize::MAX
            &&& 0 <= j < g.long_lost.len() ==> g.long_lost[j] + m <= usize::MAX
            &&& 0 <= j < g.short_win.len() ==> g.short_win[j] + m <= usize::MAX
            &&& 0 <= j < g.short_lost.len() ==> g.short_lost[j] + m <= usize::MAX
        } by {
        assert(0 <= j < g.long_win.len() ==> g.long_win[j] + n <= usize::MAX);
        assert(0 <= j < g.long_lost.len() ==> g.long_lost[j] + n <= usize::MAX);
        assert(0 <= j < g.short_win.len() ==> g.short_win[j] + n <= usize::MAX);
        assert(0 <= j < g.short_lost.len() ==> g.short_lost[j] + n <= usize::MAX);
    }
}

} // verus!
