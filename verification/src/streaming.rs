//! Live trading: one closed candle at a time, with the state kept in between.
//!
//! A candle goes through these steps: it is taken in, the orders it closes are
//! settled, the plan is rebuilt where that is due, new orders are placed, and
//! the candle is marked as seen. The steps are those of a backtest, so both
//! make the same decisions.
use std::collections::VecDeque;
use vstd::prelude::*;

use crate::calendar::Calendar;
use crate::candle::CandleStick;
use crate::entries::{evaluate_grid_entries, grid_outcomes, placed, quoted, EntryRule};
use crate::grid::{GridView, TradingGrid};
use crate::num::Num;
use crate::order::{GridSnapshot, Order, OrderEvent};
use crate::rounding::{in_word, truncate};
use crate::session::{
    closed_events, closed_orders, counted_to, due_exits, event_time, exits_to, kept_to, plan_has_room, plan_view,
    time_of, Exit, GridQuotes, Session,
};

verus! {

/// The most candles that are kept for rebuilding the plan.
pub const HISTORY_CAP: usize = 2_048;

/// The candles that a rebuild needs before its failure counts.
pub const ENOUGH_CANDLES: usize = 10;

/// The lookback of a strategy that names none: two days.
pub const DEFAULT_LOOKBACK_SECS: u64 = 172_800;

/// A candle whose time is not positive, or whose close is not a positive finite
/// price.
#[derive(Clone, Copy, Debug, PartialEq, Eq, Structural)]
pub struct InvalidCandle;

/// Why a candle is not taken, `E` being why a strategy has no plan.
#[derive(Clone, Copy, Debug, PartialEq, Eq)]
pub enum StreamError<E> {
    /// Its time is not positive, or its close is not a positive finite price.
    InvalidData,
    /// The plan could not be rebuilt though there were enough candles.
    RebuildFailed(E),
}

/// A portfolio that trades as candles come in.
pub struct StreamingPortfolio {
    pub settlement_candles: u64,
    pub candles: VecDeque<CandleStick>,
    pub session: Session,
}

/// The candles that an order waits: as configured, or as the market has it.
pub open spec fn settlement_of(configured: u64, market: u64) -> u64 {
    if configured > 0 {
        configured
    } else {
        market
    }
}

/// Whether the portfolio can take the candle: a positive time and a positive
/// finite close.
pub open spec fn valid_candle(candle: CandleStick) -> bool {
    candle.t > 0 && candle.c.finite() && candle.c.key() > 0
}

/// The history with one more candle, the oldest gone where it was full.
pub open spec fn remembered(s: Seq<CandleStick>, candle: CandleStick) -> Seq<CandleStick> {
    if s.len() == HISTORY_CAP {
        s.drop_first().push(candle)
    } else {
        s.push(candle)
    }
}

/// The candles with an event time from `from` up to `to`.
pub open spec fn between(s: Seq<CandleStick>, from: u64, to: u64) -> Seq<CandleStick> {
    s.filter(|c: CandleStick| from <= event_time(c.t) < to)
}

/// Whether enough candles are remembered for a rebuild at `ts` to be held to its
/// result: those of the lookback before `ts`.
pub open spec fn enough_before(s: Seq<CandleStick>, ts: u64, lookback: u64) -> bool {
    between(s, if ts >= lookback { (ts - lookback) as u64 } else { 0 }, ts).len() >= ENOUGH_CANDLES
}

/// The levels that the event of a rebuild shows.
pub open spec fn shows_levels(grids: Seq<GridSnapshot>, plan: Seq<TradingGrid>) -> bool {
    &&& grids.len() == plan.len()
    &&& forall|i: int| 0 <= i < grids.len() ==> (#[trigger] grids[i]).levels@ == plan[i]@.levels
}

/// The levels of every grid of a plan.
pub fn snapshots(plan: &Vec<TradingGrid>) -> (r: Vec<GridSnapshot>)
    ensures
        shows_levels(r@, plan@),
{
    let mut out: Vec<GridSnapshot> = Vec::new();
    let mut i: usize = 0;
    while i < plan.len()
        invariant
            i <= plan@.len(),
            out@.len() == i,
            forall|k: int| 0 <= k < i ==> (#[trigger] out@[k]).levels@ == plan@[k]@.levels,
        decreases plan@.len() - i,
    {
        let levels = plan[i].levels();
        let mut copy: Vec<Num> = Vec::new();
        let mut j: usize = 0;
        while j < levels.len()
            invariant
                j <= levels@.len(),
                copy@ == levels@.take(j as int),
            decreases levels@.len() - j,
        {
            copy.push(levels[j]);
            j += 1;
        }
        assert(copy@ =~= levels@);
        out.push(GridSnapshot { levels: copy });
        i += 1;
    }
    out
}

/// The orders as they are closed at `price`, with the profits `pnls`.
pub open spec fn all_closed(orders: Seq<Order>, price: Num, pnls: Seq<Num>) -> Seq<Order> {
    Seq::new(orders.len(), |k: int| orders[k].closed(price, pnls[k]))
}

impl StreamingPortfolio {
    /// No more candles are kept than the cap allows.
    pub open spec fn inv(self) -> bool {
        self.candles@.len() <= HISTORY_CAP
    }

    /// A portfolio that has seen no candle.
    pub fn new<C: Calendar>(calendar: &C, settlement_candles: u64) -> (r: StreamingPortfolio)
        ensures
            r.inv(),
            r.settlement_candles == settlement_of(settlement_candles, calendar.settlement()),
            r.candles@.len() == 0,
            r.session.orders@.len() == 0 && r.session.history@.len() == 0 && r.session.plan@.len() == 0,
            r.session.review_at == 0 && r.session.candle_seq == 0 && r.session.candle_ts == 0,
            r.session.candle_id == 0 && r.session.next_ts == 0,
    {
        let settlement = if settlement_candles > 0 { settlement_candles } else { calendar.settlement_candles() };
        StreamingPortfolio { settlement_candles: settlement, candles: VecDeque::new(), session: Session::new() }
    }

    /// The open orders.
    pub fn open_orders(&self) -> (r: &Vec<Order>)
        ensures
            r@ == self.session.orders@,
    {
        &self.session.orders
    }

    /// The closed orders.
    pub fn closed_orders(&self) -> (r: &Vec<Order>)
        ensures
            r@ == self.session.history@,
    {
        &self.session.history
    }

    /// The grids of the plan.
    pub fn grids(&self) -> (r: &Vec<TradingGrid>)
        ensures
            r@ == self.session.plan@,
    {
        &self.session.plan
    }

    /// Takes a candle. An invalid one is refused, and one that is not later than
    /// the last one seen is passed over; neither changes anything. Any other
    /// gets the next number and is remembered.
    pub fn take_candle(&mut self, candle: &CandleStick) -> (r: Result<Option<u64>, InvalidCandle>)
        requires
            old(self).inv(),
            old(self).session.candle_seq < u64::MAX,
        ensures
            final(self).inv(),
            r is Err <==> !valid_candle(*candle),
            r is Err ==> *final(self) == *old(self),
            r == Ok::<Option<u64>, InvalidCandle>(None) <==> valid_candle(*candle) && candle.t <= old(self).session.candle_ts,
            r == Ok::<Option<u64>, InvalidCandle>(None) ==> *final(self) == *old(self),
            r matches Ok(Some(seq)) ==> {
                &&& seq == old(self).session.candle_seq + 1
                &&& final(self).candles@ == remembered(old(self).candles@, *candle)
                &&& final(self).session == (Session { candle_seq: seq, ..old(self).session })
                &&& final(self).settlement_candles == old(self).settlement_candles
            },
    {
        if candle.t <= 0 || !candle.c.is_finite() || !candle.c.is_positive() {
            return Err(InvalidCandle);
        }
        if candle.t <= self.session.candle_ts {
            return Ok(None);
        }
        self.session.candle_seq = self.session.candle_seq + 1;
        self.push_history(*candle);
        Ok(Some(self.session.candle_seq))
    }

    fn push_history(&mut self, candle: CandleStick)
        requires
            old(self).inv(),
        ensures
            final(self).inv(),
            final(self).candles@ == remembered(old(self).candles@, candle),
            final(self).session == old(self).session,
            final(self).settlement_candles == old(self).settlement_candles,
    {
        if self.candles.len() == HISTORY_CAP {
            let _ = self.candles.pop_front();
            assert(self.candles@ =~= old(self).candles@.drop_first());
        }
        self.candles.push_back(candle);
    }

    /// The open orders that the candle just taken in closes.
    pub fn exits(&self, candle: &CandleStick) -> (r: Vec<Exit>)
        ensures
            r@ == exits_to(self.session.orders@, *candle, self.session.candle_seq, self.session.orders@.len()),
    {
        due_exits(&self.session.orders, candle, self.session.candle_seq)
    }

    /// Closes the orders that the candle just taken in closes; `pnls` is what
    /// each of them earned.
    pub fn settle(&mut self, candle: &CandleStick, exits: &Vec<Exit>, pnls: &Vec<Num>) -> (events: Vec<OrderEvent>)
        requires
            exits@ == exits_to(
                old(self).session.orders@,
                *candle,
                old(self).session.candle_seq,
                old(self).session.orders@.len(),
            ),
            pnls@.len() == exits@.len(),
            plan_has_room(plan_view(old(self).session.plan@), exits@.len() as int),
        ensures
            ({
                let a = old(self).session;
                let b = final(self).session;
                let closed = closed_orders(a.orders@, exits@, pnls@);
                &&& b.orders@ == kept_to(a.orders@, *candle, a.candle_seq, a.orders@.len())
                &&& b.history@ == a.history@ + closed
                &&& plan_view(b.plan@) == counted_to(plan_view(a.plan@), closed, closed.len())
                &&& events@ == closed_events(event_time(candle.t), closed)
                &&& b.review_at == a.review_at && b.candle_seq == a.candle_seq && b.candle_ts == a.candle_ts
                &&& b.candle_id == a.candle_id && b.next_ts == a.next_ts
            }),
            final(self).candles == old(self).candles,
            final(self).settlement_candles == old(self).settlement_candles,
    {
        let seq = self.session.candle_seq;
        self.session.settle(candle, seq, exits, pnls)
    }

    /// Whether the plan is to be rebuilt at `ts`.
    pub fn rebuild_due(&self, ts: u64) -> (r: bool)
        ensures
            r == (self.session.review_at <= ts),
    {
        self.session.review_at <= ts
    }

    /// The lookback of a rebuild: the strategy's fifth parameter in whole
    /// seconds where it is above zero, else two days.
    pub fn rebuild_lookback_secs(params: &Vec<Num>) -> (r: u64)
        ensures
            r == (if params@.len() > 4 && (Num { bits: 0 }).below(params@[4]) {
                in_word(params@[4], params@[4].whole())
            } else {
                DEFAULT_LOOKBACK_SECS
            }),
    {
        if params.len() > 4 && params[4].is_positive() {
            truncate(params[4])
        } else {
            DEFAULT_LOOKBACK_SECS
        }
    }

    /// The remembered candles from `from` up to `to`.
    pub fn snapshot(&self, from: u64, to: u64) -> (r: Vec<CandleStick>)
        ensures
            r@ == between(self.candles@, from, to),
    {
        let mut out: Vec<CandleStick> = Vec::new();
        let mut i: usize = 0;
        let ghost pred = |c: CandleStick| from <= event_time(c.t) < to;
        proof {
            reveal(Seq::filter);
            assert(self.candles@.take(0) =~= Seq::<CandleStick>::empty());
        }
        while i < self.candles.len()
            invariant
                i <= self.candles@.len(),
                pred == (|c: CandleStick| from <= event_time(c.t) < to),
                out@ == self.candles@.take(i as int).filter(pred),
            decreases self.candles@.len() - i,
        {
            let c = self.candles[i];
            proof {
                reveal(Seq::filter);
                assert(self.candles@.take(i + 1).drop_last() =~= self.candles@.take(i as int));
                assert(self.candles@.take(i + 1).last() == c);
            }
            let t = time_of(&c);
            if from <= t && t < to {
                out.push(c);
            }
            i += 1;
        }
        assert(self.candles@.take(i as int) =~= self.candles@);
        out
    }

    /// Whether enough candles are remembered for a rebuild at `ts` to be held
    /// to its result.
    pub fn enough_for_rebuild(&self, ts: u64, lookback: u64) -> (r: bool)
        ensures
            r == enough_before(self.candles@, ts, lookback),
    {
        let seen = self.snapshot(ts.saturating_sub(lookback), ts);
        seen.len() >= ENOUGH_CANDLES
    }

    /// Takes in the result of a rebuild at `ts`: the time of the next one, and
    /// the new grids or why the strategy has none. A failure counts only where
    /// there were enough candles. Where no grid comes back the plan stays as it
    /// is.
    pub fn install<E>(&mut self, ts: u64, next_review: u64, rebuilt: Result<Vec<TradingGrid>, E>, enough: bool) -> (r: Result<
        OrderEvent,
        StreamError<E>,
    >)
        ensures
            r is Err <==> rebuilt is Err && enough,
            r matches Err(e) ==> e == StreamError::RebuildFailed(rebuilt->Err_0) && *final(self) == *old(self),
            r matches Ok(event) ==> {
                &&& final(self).session.review_at == next_review
                &&& final(self).session.plan@ == (if rebuilt is Ok && rebuilt->Ok_0@.len() > 0 {
                    rebuilt->Ok_0@
                } else {
                    old(self).session.plan@
                })
                &&& event matches OrderEvent::Rebuilt { ts: at, grids } && at == ts && shows_levels(
                    grids@,
                    final(self).session.plan@,
                )
                &&& final(self).session.orders == old(self).session.orders
                &&& final(self).session.history == old(self).session.history
                &&& final(self).session.candle_seq == old(self).session.candle_seq
                &&& final(self).session.candle_ts == old(self).session.candle_ts
                &&& final(self).session.candle_id == old(self).session.candle_id
                &&& final(self).session.next_ts == old(self).session.next_ts
                &&& final(self).candles == old(self).candles
                &&& final(self).settlement_candles == old(self).settlement_candles
            },
    {
        match rebuilt {
            Ok(plan) => {
                if plan.len() > 0 {
                    self.session.plan = plan;
                }
            },
            Err(e) => {
                if enough {
                    return Err(StreamError::RebuildFailed(e));
                }
            },
        }
        self.session.review_at = next_review;
        Ok(OrderEvent::Rebuilt { ts, grids: snapshots(&self.session.plan) })
    }

    /// Places orders on the levels that the candle touches; they are held for
    /// the settlement. Then the candle counts as seen.
    pub fn enter(&mut self, candle: &CandleStick, quotes: &Vec<GridQuotes>, round_trip_fee: Num) -> (events: Vec<OrderEvent>)
        requires
            quoted(plan_view(old(self).session.plan@), quotes@),
            old(self).session.candle_seq + old(self).settlement_candles <= u64::MAX,
        ensures
            ({
                let a = old(self).session;
                let b = final(self).session;
                let rule = EntryRule {
                    round_trip_fee,
                    unlock_seq: (a.candle_seq + old(self).settlement_candles) as u64,
                };
                &&& events@ == grid_outcomes(a.orders@, plan_view(a.plan@), quotes@, *candle, rule, a.plan@.len())
                &&& b.orders@ == a.orders@ + placed(events@)
                &&& b.candle_ts == candle.t
                &&& b.history == a.history && b.plan == a.plan && b.review_at == a.review_at && b.candle_seq == a.candle_seq
                &&& b.candle_id == a.candle_id && b.next_ts == a.next_ts
            }),
            final(self).candles == old(self).candles,
            final(self).settlement_candles == old(self).settlement_candles,
    {
        let rule = EntryRule { round_trip_fee, unlock_seq: self.session.candle_seq + self.settlement_candles };
        let events = evaluate_grid_entries(candle, &self.session.plan, quotes, &mut self.session.orders, rule);
        self.session.candle_ts = candle.t;
        events
    }

    /// The price at which every open order would be closed now: the last close,
    /// or zero before any candle.
    pub open spec fn flush_price(self) -> Num {
        if self.candles@.len() > 0 {
            self.candles@.last().c
        } else {
            Num { bits: 0 }
        }
    }

    /// The time at which every open order would be closed now.
    pub open spec fn flush_time(self) -> u64 {
        if self.candles@.len() > 0 {
            event_time(self.candles@.last().t)
        } else {
            0
        }
    }

    /// The time and the price at which every open order would be closed now.
    pub fn flush_quote(&self) -> (r: (u64, Num))
        ensures
            r == (self.flush_time(), self.flush_price()),
    {
        let n: usize = self.candles.len();
        if n > 0 {
            let last = self.candles[n - 1];
            (time_of(&last), last.c)
        } else {
            (0, Num { bits: 0 })
        }
    }

    /// Closes every open order at the last close; `pnls` is what each of them
    /// earned.
    pub fn flush(&mut self, pnls: &Vec<Num>) -> (events: Vec<OrderEvent>)
        requires
            pnls@.len() == old(self).session.orders@.len(),
            plan_has_room(plan_view(old(self).session.plan@), pnls@.len() as int),
        ensures
            flushed(*old(self), *final(self), pnls@, events@),
    {
        let (ts, price) = self.flush_quote();
        let ghost a = self.session;
        let ghost plan0 = plan_view(self.session.plan@);
        let ghost closed = all_closed(a.orders@, price, pnls@);
        let n: usize = self.session.orders.len();
        let mut events: Vec<OrderEvent> = Vec::new();
        let mut i: usize = 0;
        assert(closed.take(0) =~= Seq::<Order>::empty());
        while i < n
            invariant
                i <= n == a.orders@.len() == pnls@.len(),
                self.session.orders@ == a.orders@,
                self.candles == old(self).candles,
                self.settlement_candles == old(self).settlement_candles,
                closed == all_closed(a.orders@, price, pnls@),
                self.session.history@ == a.history@ + closed.take(i as int),
                events@ == closed_events(ts, closed.take(i as int)),
                plan_view(self.session.plan@) == counted_to(plan0, closed, i as nat),
                plan_has_room(plan_view(self.session.plan@), n - i),
                self.session.review_at == a.review_at,
                self.session.candle_seq == a.candle_seq,
                self.session.candle_ts == a.candle_ts,
                self.session.candle_id == a.candle_id,
                self.session.next_ts == a.next_ts,
            decreases n - i,
        {
            let mut order = self.session.orders[i];
            let pnl = pnls[i];
            order.exit_price = Some(price);
            order.pnl_pct = Some(pnl);
            assert(order == closed[i as int]);
            self.session.close_one(order, n - i);
            events.push(OrderEvent::Closed { ts, order });
            proof {
                assert(closed.take(i + 1) =~= closed.take(i as int).push(closed[i as int]));
                assert(self.session.history@ =~= a.history@ + closed.take(i + 1));
                assert(events@ =~= closed_events(ts, closed.take(i + 1)));
            }
            i += 1;
        }
        assert(closed.take(n as int) =~= closed);
        self.session.orders = Vec::new();
        events
    }
}

/// Whether `b` is `a` with every open order closed at the last close, `pnls`
/// being what each of them earned.
pub open spec fn flushed(a: StreamingPortfolio, b: StreamingPortfolio, pnls: Seq<Num>, events: Seq<OrderEvent>) -> bool {
    let closed = all_closed(a.session.orders@, a.flush_price(), pnls);
    &&& events == closed_events(a.flush_time(), closed)
    &&& b.session.orders@.len() == 0
    &&& b.session.history@ == a.session.history@ + closed
    &&& plan_view(b.session.plan@) == counted_to(plan_view(a.session.plan@), closed, closed.len())
    &&& b.candles == a.candles
    &&& same_clock(a, b)
}

/// Whether two portfolios agree on all that tells the time and on the settlement.
pub open spec fn same_clock(a: StreamingPortfolio, b: StreamingPortfolio) -> bool {
    &&& b.session.review_at == a.session.review_at
    &&& b.session.candle_seq == a.session.candle_seq
    &&& b.session.candle_id == a.session.candle_id
    &&& b.session.candle_ts == a.session.candle_ts
    &&& b.session.next_ts == a.session.next_ts
    &&& b.settlement_candles == a.settlement_candles
}

/// Whether every grid of a plan is well formed.
pub open spec fn sound_plan(plan: Seq<TradingGrid>) -> bool {
    forall|i: int| 0 <= i < plan.len() ==> (#[trigger] plan[i])@.inv()
}

/// Whether every grid of a plan is well formed.
pub fn plan_is_sound(plan: &Vec<TradingGrid>) -> (r: bool)
    ensures
        r == sound_plan(plan@),
{
    let mut i: usize = 0;
    while i < plan.len()
        invariant
            i <= plan@.len(),
            forall|q: int| 0 <= q < i ==> (#[trigger] plan@[q])@.inv(),
        decreases plan@.len() - i,
    {
        if !plan[i].is_sound() {
            assert(!plan@[i as int]@.inv());
            return false;
        }
        i += 1;
    }
    true
}

/// Whether every count of every grid of a plan has room for `more` outcomes.
pub fn plan_takes(plan: &Vec<TradingGrid>, more: usize) -> (r: bool)
    ensures
        r == plan_has_room(plan_view(plan@), more as int),
{
    let mut i: usize = 0;
    while i < plan.len()
        invariant
            i <= plan@.len(),
            forall|q: int| 0 <= q < i ==> (#[trigger] plan_view(plan@)[q]).has_room(more as int),
        decreases plan@.len() - i,
    {
        assert(plan_view(plan@)[i as int] == plan@[i as int]@);
        if !plan[i].takes(more) {
            return false;
        }
        i += 1;
    }
    true
}

pub proof fn lemma_counted_sound(plan: Seq<GridView>, closed: Seq<Order>, n: nat)
    requires
        forall|i: int| 0 <= i < plan.len() ==> (#[trigger] plan[i]).inv(),
    ensures
        counted_to(plan, closed, n).len() == plan.len(),
        forall|i: int| 0 <= i < plan.len() ==> (#[trigger] counted_to(plan, closed, n)[i]).inv(),
    decreases n,
{
    if n > 0 {
        lemma_counted_sound(plan, closed, (n - 1) as nat);
    }
}

/// The events of one candle, in order: the closed orders, the rebuild where it
/// was due, the placed and rejected orders.
pub open spec fn candle_events(
    ts: u64,
    closed: Seq<Order>,
    rebuilt: Seq<OrderEvent>,
    entered: Seq<OrderEvent>,
) -> Seq<OrderEvent> {
    closed_events(ts, closed) + rebuilt + entered
}

/// What a candle that is taken in does to the portfolio, with `pnls` what the
/// closed orders earned, `rebuilt` the event of a rebuild or nothing, and
/// `quotes` the quotes of the plan after it.
pub open spec fn candle_step(
    a: StreamingPortfolio,
    b: StreamingPortfolio,
    candle: CandleStick,
    round_trip_fee: Num,
    events: Seq<OrderEvent>,
    pnls: Seq<Num>,
    rebuilt: Seq<OrderEvent>,
    quotes: Seq<GridQuotes>,
) -> bool {
    let seq = (a.session.candle_seq + 1) as u64;
    let ts = event_time(candle.t);
    let open = a.session.orders@;
    let exits = exits_to(open, candle, seq, open.len());
    let closed = closed_orders(open, exits, pnls);
    let kept = kept_to(open, candle, seq, open.len());
    let rule = EntryRule { round_trip_fee, unlock_seq: (seq + a.settlement_candles) as u64 };
    let entered = grid_outcomes(kept, plan_view(b.session.plan@), quotes, candle, rule, b.session.plan@.len());
    &&& pnls.len() == exits.len()
    &&& events == candle_events(ts, closed, rebuilt, entered)
    &&& rebuilt.len() == (if a.session.review_at <= ts { 1nat } else { 0nat })
    &&& rebuilt.len() > 0 ==> (rebuilt[0] matches OrderEvent::Rebuilt { ts: at, grids } && at == ts && shows_levels(
        grids@,
        b.session.plan@,
    ))
    &&& rebuilt.len() == 0 ==> b.session.review_at == a.session.review_at && plan_view(b.session.plan@) == counted_to(
        plan_view(a.session.plan@),
        closed,
        closed.len(),
    )
    &&& b.session.orders@ == kept + placed(entered)
    &&& b.session.history@ == a.session.history@ + closed
    &&& b.session.candle_seq == seq
    &&& b.session.candle_ts == candle.t
    &&& b.session.candle_id == a.session.candle_id
    &&& b.session.next_ts == a.session.next_ts
    &&& b.candles@ == remembered(a.candles@, candle)
    &&& b.settlement_candles == a.settlement_candles
}

/// Whether `pnls` is what `pnl` says the orders closed by the candle earned.
pub open spec fn earned<P: Fn(Order, Num) -> Num>(pnl: P, a: StreamingPortfolio, candle: CandleStick, pnls: Seq<Num>) -> bool {
    let open = a.session.orders@;
    let exits = exits_to(open, candle, (a.session.candle_seq + 1) as u64, open.len());
    forall|k: int|
        0 <= k < exits.len() ==> call_ensures(
            pnl,
            (open[(#[trigger] exits[k]).index as int], exits[k].price),
            pnls[k],
        )
}

/// Whether the plan and the next review of `b` come from a call of `rebuild` on
/// the settled portfolio `mid`. Where that call failed, too few candles were
/// remembered for it to count.
pub open spec fn installed<E, R: Fn(&StreamingPortfolio, u64) -> (u64, Result<Vec<TradingGrid>, E>)>(
    rebuild: R,
    mid: StreamingPortfolio,
    out: (u64, Result<Vec<TradingGrid>, E>),
    b: StreamingPortfolio,
    ts: u64,
    lookback: u64,
) -> bool {
    &&& call_ensures(rebuild, (&mid, ts), out)
    &&& out.1 is Err ==> !enough_before(mid.candles@, ts, lookback)
    &&& b.session.review_at == out.0
    &&& b.session.plan@ == (if out.1 is Ok && out.1->Ok_0@.len() > 0 {
        out.1->Ok_0@
    } else {
        mid.session.plan@
    })
}

/// Whether `mid` is `a` once the candle is taken in and its exits are settled.
pub open spec fn settled(a: StreamingPortfolio, mid: StreamingPortfolio, candle: CandleStick, pnls: Seq<Num>) -> bool {
    let seq = (a.session.candle_seq + 1) as u64;
    let open = a.session.orders@;
    let closed = closed_orders(open, exits_to(open, candle, seq, open.len()), pnls);
    &&& mid.session.orders@ == kept_to(open, candle, seq, open.len())
    &&& mid.session.history@ == a.session.history@ + closed
    &&& plan_view(mid.session.plan@) == counted_to(plan_view(a.session.plan@), closed, closed.len())
    &&& mid.candles@ == remembered(a.candles@, candle)
    &&& mid.session.candle_seq == seq
    &&& mid.session.review_at == a.session.review_at
    &&& mid.session.candle_id == a.session.candle_id
    &&& mid.session.candle_ts == a.session.candle_ts
    &&& mid.session.next_ts == a.session.next_ts
    &&& mid.settlement_candles == a.settlement_candles
}

/// Whether `b` is `a` once the candle went through all steps with these events,
/// the profits, the plan and the quotes being what the functions given say.
pub open spec fn stepped<E, P, R, Q>(
    a: StreamingPortfolio,
    b: StreamingPortfolio,
    candle: CandleStick,
    round_trip_fee: Num,
    events: Seq<OrderEvent>,
    pnl: P,
    rebuild: R,
    quotes: Q,
    lookback: u64,
) -> bool where
    P: Fn(Order, Num) -> Num,
    R: Fn(&StreamingPortfolio, u64) -> (u64, Result<Vec<TradingGrid>, E>),
    Q: Fn(&Vec<TradingGrid>, u64) -> Vec<GridQuotes>,
 {
    exists|pnls: Seq<Num>, rebuilt: Seq<OrderEvent>, qs: Vec<GridQuotes>|
        {
            &&& #[trigger] candle_step(a, b, candle, round_trip_fee, events, pnls, rebuilt, qs@)
            &&& earned(pnl, a, candle, pnls)
            &&& call_ensures(quotes, (&b.session.plan, b.session.candle_seq), qs)
            &&& rebuilt.len() > 0 ==> exists|mid: StreamingPortfolio, out: (u64, Result<Vec<TradingGrid>, E>)|
                settled(a, mid, candle, pnls) && #[trigger] installed(rebuild, mid, out, b, event_time(candle.t), lookback)
        }
}

/// Whether `b` is `a` with the candle's exits settled, and `rebuild` gave this
/// error for it though enough candles were remembered.
pub open spec fn refused<E, P, R>(
    a: StreamingPortfolio,
    b: StreamingPortfolio,
    candle: CandleStick,
    pnl: P,
    rebuild: R,
    lookback: u64,
    error: E,
) -> bool where
    P: Fn(Order, Num) -> Num,
    R: Fn(&StreamingPortfolio, u64) -> (u64, Result<Vec<TradingGrid>, E>),
 {
    &&& enough_before(b.candles@, event_time(candle.t), lookback)
    &&& exists|pnls: Seq<Num>, next: u64|
        {
            &&& #[trigger] settled(a, b, candle, pnls)
            &&& earned(pnl, a, candle, pnls)
            &&& #[trigger] call_ensures(rebuild, (&b, event_time(candle.t)), (next, Err::<Vec<TradingGrid>, E>(error)))
        }
}

impl StreamingPortfolio {
    /// Takes a closed candle through all steps. `pnl` says what an order earned
    /// at its exit price, `rebuild` when the plan is to be rebuilt next and its
    /// new grids, `quotes` what a plan's levels would trade at for the candle
    /// with the given number. A rebuild that fails is an error only where at
    /// least ten candles of the last `lookback` seconds are remembered.
    pub fn on_candle<E, P, R, Q>(
        &mut self,
        candle: &CandleStick,
        pnl: P,
        rebuild: R,
        quotes: Q,
        lookback: u64,
        round_trip_fee: Num,
    ) -> (r: Result<Vec<OrderEvent>, StreamError<E>>) where
        P: Fn(Order, Num) -> Num,
        R: Fn(&StreamingPortfolio, u64) -> (u64, Result<Vec<TradingGrid>, E>),
        Q: Fn(&Vec<TradingGrid>, u64) -> Vec<GridQuotes>,

        requires
            old(self).inv(),
            old(self).session.candle_seq + 1 + old(self).settlement_candles <= u64::MAX,
            sound_plan(old(self).session.plan@),
            plan_has_room(plan_view(old(self).session.plan@), old(self).session.orders@.len() as int),
            forall|o: Order, p: Num| #[trigger] call_requires(pnl, (o, p)),
            forall|s: &StreamingPortfolio, ts: u64| #[trigger] call_requires(rebuild, (s, ts)),
            forall|plan: &Vec<TradingGrid>, n: u64| #[trigger] call_requires(quotes, (plan, n)),
            forall|s: &StreamingPortfolio, ts: u64, out: (u64, Result<Vec<TradingGrid>, E>)| #[trigger]
                call_ensures(rebuild, (s, ts), out) ==> (out.1 matches Ok(p) ==> sound_plan(p@)),
            forall|plan: &Vec<TradingGrid>, n: u64, out: Vec<GridQuotes>| #[trigger]
                call_ensures(quotes, (plan, n), out) ==> (sound_plan(plan@) ==> quoted(plan_view(plan@), out@)),
        ensures
            final(self).inv(),
            sound_plan(final(self).session.plan@),
            !valid_candle(*candle) ==> r == Err::<Vec<OrderEvent>, StreamError<E>>(StreamError::InvalidData) && *final(self)
                == *old(self),
            valid_candle(*candle) && candle.t <= old(self).session.candle_ts ==> *final(self) == *old(self) && (
            r matches Ok(events) && events@.len() == 0),
            valid_candle(*candle) && candle.t > old(self).session.candle_ts && r is Ok ==> stepped(
                *old(self),
                *final(self),
                *candle,
                round_trip_fee,
                r->Ok_0@,
                pnl,
                rebuild,
                quotes,
                lookback,
            ),
            valid_candle(*candle) && candle.t > old(self).session.candle_ts && r is Err ==> (
            r->Err_0 matches StreamError::RebuildFailed(e) && old(self).session.review_at <= event_time(candle.t) && refused(
                *old(self),
                *final(self),
                *candle,
                pnl,
                rebuild,
                lookback,
                e,
            )),
            valid_candle(*candle) && candle.t > old(self).session.candle_ts && old(self).session.review_at > event_time(
                candle.t,
            ) ==> r is Ok,
    {
        let ghost a = *self;
        match self.take_candle(candle) {
            Err(_) => {
                return Err(StreamError::InvalidData);
            },
            Ok(None) => {
                return Ok(Vec::new());
            },
            Ok(Some(_)) => {},
        }
        let ghost open = self.session.orders@;
        let ghost seq = self.session.candle_seq;
        let ts = time_of(candle);
        let exits = self.exits(candle);
        let mut pnls: Vec<Num> = Vec::new();
        let mut k: usize = 0;
        assert(open.len() == self.session.orders.len());
        proof {
            crate::session::orders_are_kept_or_closed(open, *candle, seq, open.len());
            crate::session::lemma_exit_places(open, *candle, seq, open.len());
        }
        while k < exits.len()
            invariant
                k <= exits@.len(),
                pnls@.len() == k,
                self.session.orders@ == open,
                forall|i: int| 0 <= i < exits@.len() ==> (#[trigger] exits@[i]).index < open.len(),
                forall|o: Order, p: Num| #[trigger] call_requires(pnl, (o, p)),
                forall|i: int|
                    0 <= i < k ==> call_ensures(
                        pnl,
                        (open[(#[trigger] exits@[i]).index as int], exits@[i].price),
                        pnls@[i],
                    ),
            decreases exits@.len() - k,
        {
            let exit = exits[k];
            assert(exits@[k as int].index < open.len());
            pnls.push(pnl(self.session.orders[exit.index], exit.price));
            k += 1;
        }
        proof {
            crate::session::lemma_plan_room_less(
                plan_view(self.session.plan@),
                open.len() as int,
                exits@.len() as int,
            );
        }
        let mut events = self.settle(candle, &exits, &pnls);
        let ghost closed = closed_orders(open, exits@, pnls@);
        let ghost kept = self.session.orders@;
        proof {
            lemma_counted_sound(plan_view(a.session.plan@), closed, closed.len());
            assert forall|i: int| 0 <= i < self.session.plan@.len() implies (#[trigger] self.session.plan@[i])@.inv() by {
                assert(plan_view(self.session.plan@)[i].inv());
            }
        }
        let ghost mut rebuilt: Seq<OrderEvent> = Seq::empty();
        let ghost before = events@;
        assert(before + rebuilt =~= before);
        if self.rebuild_due(ts) {
            let enough = self.enough_for_rebuild(ts, lookback);
            let ghost mid = *self;
            let made = rebuild(&*self, ts);
            let ghost out = made;
            let (next_review, plan) = made;
            match self.install(ts, next_review, plan, enough) {
                Ok(event) => {
                    proof {
                        rebuilt = seq![event];
                    }
                    events.push(event);
                    assert(events@ =~= before + rebuilt);
                    assert(settled(a, mid, *candle, pnls@));
                    assert(installed(rebuild, mid, out, *self, ts, lookback));
                },
                Err(e) => {
                    assert(*self == mid);
                    assert(settled(a, *self, *candle, pnls@));
                    assert(earned(pnl, a, *candle, pnls@));
                    let ghost why = out.1->Err_0;
                    assert(out == (next_review, Err::<Vec<TradingGrid>, E>(why)));
                    assert(refused(a, *self, *candle, pnl, rebuild, lookback, why));
                    return Err(e);
                },
            }
        }
        let qs = quotes(&self.session.plan, self.session.candle_seq);
        let ghost ready = *self;
        let mut entered = self.enter(candle, &qs, round_trip_fee);
        let ghost placed_events = entered@;
        events.append(&mut entered);
        proof {
            assert(events@ =~= candle_events(ts, closed, rebuilt, placed_events));
            assert(candle_step(a, *self, *candle, round_trip_fee, events@, pnls@, rebuilt, qs@));
            assert(earned(pnl, a, *candle, pnls@));
            if rebuilt.len() > 0 {
                let (mid, out) = choose|mid: StreamingPortfolio, out: (u64, Result<Vec<TradingGrid>, E>)|
                    settled(a, mid, *candle, pnls@) && #[trigger] installed(rebuild, mid, out, ready, ts, lookback);
                assert(installed(rebuild, mid, out, *self, ts, lookback));
            }
            assert(stepped(a, *self, *candle, round_trip_fee, events@, pnl, rebuild, quotes, lookback));
        }
        Ok(events)
    }
}

/// A flush closes every open order at the last close, in their order, and tells
/// of each: nothing stays open, and the history grows by exactly those orders.
pub proof fn a_flush_closes_every_order(a: StreamingPortfolio, b: StreamingPortfolio, pnls: Seq<Num>, events: Seq<OrderEvent>)
    requires
        pnls.len() == a.session.orders@.len(),
        flushed(a, b, pnls, events),
    ensures
        b.session.orders@.len() == 0,
        events.len() == a.session.orders@.len(),
        b.session.history@.len() == a.session.history@.len() + a.session.orders@.len(),
        b.session.history@.take(a.session.history@.len() as int) == a.session.history@,
        forall|k: int|
            0 <= k < events.len() ==> {
                let order = b.session.history@[a.session.history@.len() + k];
                &&& #[trigger] events[k] == (OrderEvent::Closed { ts: a.flush_time(), order })
                &&& order == (Order {
                    exit_price: Some(a.flush_price()),
                    pnl_pct: Some(pnls[k]),
                    ..a.session.orders@[k]
                })
            },
{
    assert(b.session.history@.take(a.session.history@.len() as int) =~= a.session.history@);
}

/// A flush after a flush says nothing and changes nothing.
pub proof fn a_second_flush_changes_nothing(
    a: StreamingPortfolio,
    b: StreamingPortfolio,
    c: StreamingPortfolio,
    pnls: Seq<Num>,
    events: Seq<OrderEvent>,
    again: Seq<Num>,
    more: Seq<OrderEvent>,
)
    requires
        flushed(a, b, pnls, events),
        flushed(b, c, again, more),
    ensures
        more == Seq::<OrderEvent>::empty(),
        c.session.orders@ == b.session.orders@,
        c.session.history@ == b.session.history@,
        plan_view(c.session.plan@) == plan_view(b.session.plan@),
        c.candles == b.candles,
        same_clock(b, c),
{
    assert(more =~= Seq::<OrderEvent>::empty());
    assert(c.session.orders@ =~= b.session.orders@);
    assert(c.session.history@ =~= b.session.history@);
}

/// An order placed by candle `seq` is closed by no candle before number
/// `seq + settlement`.
pub proof fn settlement_blocks_early_exits(order: Order, seq: u64, settlement: u64, candle: CandleStick, later: u64)
    requires
        seq + settlement <= u64::MAX,
        order.unlock_seq == seq + settlement,
        later < seq + settlement,
    ensures
        order.exit_at(candle, later) is None,
{
}

} // verus!
