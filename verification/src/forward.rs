//! Backtesting: the loop that walks a span of time, rebuilding the plan when
//! it is due and feeding the candles in between.
//!
//! The loop alternates between decisions, which are made here, and work that
//! needs a strategy or a data source, which the caller does.
use vstd::prelude::*;

use crate::arith::{add_up, calculate, calculates, count, quotient, total, Calculation};
use crate::calendar::{resolution_secs, to_timestamp_secs, Calendar};
use crate::candle::CandleStick;
use crate::entries::{
    evaluate_grid_entries, grid_outcomes, lemma_placed_add, level_outcomes, outcome_at, placed, quoted, EntryRule,
};
use crate::grid::{GridView, TradingGrid};
use crate::num::Num;
use crate::order::{Order, OrderEvent};
use crate::rounding::{in_word, truncate};
use crate::session::{
    closed_events, closed_orders, counted_to, due_exits, event_time, exits_to, kept_to, lemma_exit_places,
    lemma_plan_room_less, orders_are_kept_or_closed, plan_has_room, plan_view, GridQuotes, Session,
};
use crate::streaming::{settlement_of, shows_levels, snapshots, sound_plan};

verus! {

/// The candles that an order waits where nothing is configured: as the market
/// has it.
pub const DEFAULT_SETTLEMENT_CANDLES: u64 = 0;

/// The random trials of an optimisation.
pub const RANDOM_TRIALS: usize = 30;

/// What a backtest needs next.
#[derive(Clone, Copy, Debug, PartialEq, Eq, Structural)]
pub enum Step {
    /// Nothing: the span is done.
    Done,
    /// A new plan, as of this time.
    Rebuild { at: u64 },
    /// The candles of a span.
    Fetch { from: u64, to: u64 },
}

/// A backtest under way.
#[derive(Debug)]
pub struct Forward {
    pub session: Session,
    pub settlement: u64,
    /// The end of the span.
    pub to: u64,
    /// Whether the plan was rebuilt for the candles to fetch next.
    pub rebuilt: bool,
}

/// The lesser of two times.
pub open spec fn earlier(a: u64, b: u64) -> u64 {
    if a <= b {
        a
    } else {
        b
    }
}

/// `a - b`, or 0 where `b` is greater.
pub open spec fn less_or_zero(a: u64, b: int) -> int {
    if a >= b {
        a - b
    } else {
        0
    }
}

/// Whether `r` is the first time at which the market is open, at or after `ts`
/// rounded up to the first candle.
pub open spec fn is_first_open<C: Calendar>(calendar: C, ts: u64, secs: nat, r: u64) -> bool {
    let from = less_or_zero(ts, secs as int) + secs;
    &&& calendar.open_at(r as int)
    &&& from <= r
    &&& forall|t: int| from <= t < r ==> !calendar.open_at(t)
}

/// The first time at which the market is open, at or after `ts`.
pub fn first_open<C: Calendar>(calendar: &C, ts: u64, resolution: &str) -> (r: u64)
    requires
        ts + resolution_secs(resolution@) + calendar.longest_close() <= u64::MAX,
    ensures
        is_first_open(*calendar, ts, resolution_secs(resolution@), r),
        r <= ts + resolution_secs(resolution@) + calendar.longest_close(),
{
    let step = to_timestamp_secs(resolution);
    calendar.next(ts.saturating_sub(step), resolution)
}

/// The candles that an order waits before it may be closed.
pub fn settlement_candles<C: Calendar>(calendar: &C, configured: u64) -> (r: u64)
    ensures
        r == settlement_of(configured, calendar.settlement()),
{
    if configured > 0 {
        configured
    } else {
        calendar.settlement_candles()
    }
}

/// The spans of candles to load before a backtest from `from` to `to`, up to
/// `now` at most: those to trade on, and those to build plans from. Either is
/// left out where the market does not open in it.
pub fn prefetch_spans<C: Calendar>(
    calendar: &C,
    lookback: u64,
    from: u64,
    to: u64,
    now: u64,
    resolution_for_test: &str,
    resolution_for_rebuild: &str,
) -> (r: (Option<(u64, u64)>, Option<(u64, u64)>))
    requires
        from + resolution_secs(resolution_for_test@) + calendar.longest_close() <= u64::MAX,
        from + resolution_secs(resolution_for_rebuild@) + calendar.longest_close() <= u64::MAX,
    ensures
        ({
            let end = earlier(to, now);
            let back = less_or_zero(from, lookback as int) as u64;
            &&& exists|a: u64| #[trigger]
                is_first_open(*calendar, from, resolution_secs(resolution_for_test@), a) && r.0 == (if a < end {
                    Some((a, end))
                } else {
                    None
                })
            &&& back >= end ==> r.1 is None
            &&& back < end ==> exists|a: u64| #[trigger]
                is_first_open(*calendar, back, resolution_secs(resolution_for_rebuild@), a) && r.1 == (if a < end {
                    Some((a, end))
                } else {
                    None
                })
        }),
{
    let end: u64 = if to <= now { to } else { now };
    let a = first_open(calendar, from, resolution_for_test);
    let trade: Option<(u64, u64)> = if a < end { Some((a, end)) } else { None };
    let back = from.saturating_sub(lookback);
    let mut analysis: Option<(u64, u64)> = None;
    if back < end {
        let b = first_open(calendar, back, resolution_for_rebuild);
        if b < end {
            analysis = Some((b, end));
        }
        assert(is_first_open(*calendar, back, resolution_secs(resolution_for_rebuild@), b));
    }
    (trade, analysis)
}

/// What one candle does to a backtest, with `pnls` what the closed orders
/// earned and `quotes` the quotes of the plan.
pub open spec fn walked(
    a: Forward,
    b: Forward,
    candle: CandleStick,
    round_trip_fee: Num,
    events: Seq<OrderEvent>,
    pnls: Seq<Num>,
    quotes: Seq<GridQuotes>,
) -> bool {
    let seq = (a.session.candle_seq + 1) as u64;
    let ts = event_time(candle.t);
    let open = a.session.orders@;
    let exits = exits_to(open, candle, seq, open.len());
    let closed = closed_orders(open, exits, pnls);
    let kept = kept_to(open, candle, seq, open.len());
    let rule = EntryRule { round_trip_fee, unlock_seq: (seq + a.settlement) as u64 };
    let entered = grid_outcomes(kept, plan_view(b.session.plan@), quotes, candle, rule, b.session.plan@.len());
    &&& pnls.len() == exits.len()
    &&& events == closed_events(ts, closed) + entered
    &&& plan_view(b.session.plan@) == counted_to(plan_view(a.session.plan@), closed, closed.len())
    &&& b.session.orders@ == kept + placed(entered)
    &&& b.session.history@ == a.session.history@ + closed
    &&& b.session.candle_seq == seq
    &&& b.session.candle_id == a.session.candle_id + 1
    &&& b.session.candle_ts == a.session.candle_ts
    &&& b.session.review_at == a.session.review_at
    &&& b.session.next_ts == a.session.next_ts
    &&& b.settlement == a.settlement && b.to == a.to && b.rebuilt == a.rebuilt
}

/// Whether `b` is `a` once the candle went through, the profits and the quotes
/// being what the functions given say.
pub open spec fn walked_with<P, Q>(
    a: Forward,
    b: Forward,
    candle: CandleStick,
    round_trip_fee: Num,
    events: Seq<OrderEvent>,
    pnl: P,
    quotes: Q,
) -> bool where P: Fn(Order, Num) -> Num, Q: Fn(&Vec<TradingGrid>, usize) -> Vec<GridQuotes> {
    exists|pnls: Seq<Num>, qs: Vec<GridQuotes>|
        {
            &&& #[trigger] walked(a, b, candle, round_trip_fee, events, pnls, qs@)
            &&& earned_by(pnl, a, candle, pnls)
            &&& call_ensures(quotes, (&b.session.plan, a.session.candle_id), qs)
        }
}

/// Whether `pnls` is what `pnl` says the orders closed by the candle earned.
pub open spec fn earned_by<P: Fn(Order, Num) -> Num>(pnl: P, a: Forward, candle: CandleStick, pnls: Seq<Num>) -> bool {
    let open = a.session.orders@;
    let exits = exits_to(open, candle, (a.session.candle_seq + 1) as u64, open.len());
    forall|k: int|
        0 <= k < exits.len() ==> call_ensures(
            pnl,
            (open[(#[trigger] exits[k]).index as int], exits[k].price),
            pnls[k],
        )
}

/// The orders that events close.
pub open spec fn closed_in(events: Seq<OrderEvent>) -> Seq<Order>
    decreases events.len(),
{
    if events.len() == 0 {
        Seq::empty()
    } else {
        match events.last() {
            OrderEvent::Closed { order, .. } => closed_in(events.drop_last()).push(order),
            _ => closed_in(events.drop_last()),
        }
    }
}

/// Whether no event places or closes an order.
pub open spec fn leaves_orders(events: Seq<OrderEvent>) -> bool {
    forall|i: int| 0 <= i < events.len() ==> #[trigger] events[i] is Rebuilt
}

/// Whether a step of a backtest leads from `a` to `b` with these events: a candle
/// went through, or nothing happened to orders.
pub open spec fn advanced(a: Forward, b: Forward, events: Seq<OrderEvent>) -> bool {
    ||| exists|candle: CandleStick, fee: Num, pnls: Seq<Num>, quotes: Seq<GridQuotes>| #[trigger]
        walked(a, b, candle, fee, events, pnls, quotes)
    ||| b.session.orders@ == a.session.orders@ && b.session.history@ == a.session.history@ && leaves_orders(events)
}

/// Whether a backtest went through these states, one step after the other, each
/// with its events.
pub open spec fn ran(states: Seq<Forward>, events: Seq<Seq<OrderEvent>>) -> bool {
    &&& states.len() == events.len() + 1
    &&& forall|i: int| 0 <= i < events.len() ==> advanced(states[i], states[i + 1], #[trigger] events[i])
}

/// All events of a run, in their order.
pub open spec fn told(events: Seq<Seq<OrderEvent>>) -> Seq<OrderEvent>
    decreases events.len(),
{
    if events.len() == 0 {
        Seq::empty()
    } else {
        told(events.drop_last()) + events.last()
    }
}

impl Forward {
    /// The time that the backtest has come to.
    pub open spec fn current(self) -> u64 {
        self.session.next_ts
    }

    /// The end of the candles to fetch next.
    pub open spec fn fetch_end(self) -> u64 {
        earlier(self.session.review_at, self.to)
    }

    /// A backtest from `from` to `to` that goes on from the given orders. It
    /// starts at the first time at which the market is open, where that is in
    /// the span.
    pub fn start<C: Calendar>(
        calendar: &C,
        orders: Vec<Order>,
        history: Vec<Order>,
        configured_settlement: u64,
        from: u64,
        to: u64,
        resolution: &str,
    ) -> (r: Forward)
        requires
            from + resolution_secs(resolution@) + calendar.longest_close() <= u64::MAX,
        ensures
            exists|v: u64| #[trigger]
                is_first_open(*calendar, from, resolution_secs(resolution@), v) && r.current() == (if from < v < to {
                    v
                } else {
                    from
                }),
            r.session.orders == orders && r.session.history == history,
            r.session.plan@.len() == 0,
            r.session.review_at == 0 && r.session.candle_seq == 0 && r.session.candle_id == 0 && r.session.candle_ts == 0,
            r.settlement == settlement_of(configured_settlement, calendar.settlement()),
            r.to == to && !r.rebuilt,
    {
        let v = first_open(calendar, from, resolution);
        let current: u64 = if v > from && v < to { v } else { from };
        let mut session = Session::new();
        session.orders = orders;
        session.history = history;
        session.next_ts = current;
        Forward { session, settlement: settlement_candles(calendar, configured_settlement), to, rebuilt: false }
    }

    /// What the backtest needs next: nothing at the end of the span, a plan
    /// where the review is due, else the candles up to the review.
    pub open spec fn step(self) -> Step {
        if self.rebuilt {
            Step::Fetch { from: self.current(), to: self.fetch_end() }
        } else if self.current() >= self.to {
            Step::Done
        } else if self.session.review_at <= self.current() {
            Step::Rebuild { at: self.current() }
        } else {
            Step::Fetch { from: self.current(), to: self.fetch_end() }
        }
    }

    /// What the backtest needs next.
    pub fn next_step(&self) -> (r: Step)
        ensures
            r == self.step(),
    {
        let current = self.session.next_ts;
        let end: u64 = if self.session.review_at <= self.to { self.session.review_at } else { self.to };
        if self.rebuilt {
            Step::Fetch { from: current, to: end }
        } else if current >= self.to {
            Step::Done
        } else if self.session.review_at <= current {
            Step::Rebuild { at: current }
        } else {
            Step::Fetch { from: current, to: end }
        }
    }

    /// Takes in a new plan and the time of the next review. Candles are counted
    /// from here on for the weights; the number of candles seen in all goes on.
    pub fn on_rebuilt(&mut self, review: u64, plan: Vec<TradingGrid>) -> (event: OrderEvent)
        requires
            old(self).step() is Rebuild,
        ensures
            event matches OrderEvent::Rebuilt { ts, grids } && ts == old(self).current() && shows_levels(
                grids@,
                final(self).session.plan@,
            ),
            final(self).session.plan@ == plan@,
            final(self).session.review_at == review,
            final(self).session.candle_id == 0,
            final(self).rebuilt,
            final(self).session.orders == old(self).session.orders,
            final(self).session.history == old(self).session.history,
            final(self).session.candle_seq == old(self).session.candle_seq,
            final(self).session.candle_ts == old(self).session.candle_ts,
            final(self).current() == old(self).current(),
            final(self).settlement == old(self).settlement && final(self).to == old(self).to,
            advanced(*old(self), *final(self), seq![event]),
    {
        let ts = self.session.next_ts;
        self.session.plan = plan;
        self.session.review_at = review;
        self.session.candle_id = 0;
        self.rebuilt = true;
        OrderEvent::Rebuilt { ts, grids: snapshots(&self.session.plan) }
    }

    /// Feeds one candle: the orders it closes, then the orders it places. A
    /// candle that is not later than those of earlier fetches changes nothing.
    /// `pnl` says what an order earned at its exit price, `quotes` what a plan's
    /// levels would trade at for the given candle since the rebuild.
    pub fn on_candle<P, Q>(&mut self, candle: &CandleStick, pnl: P, quotes: Q, round_trip_fee: Num) -> (events: Vec<
        OrderEvent,
    >) where P: Fn(Order, Num) -> Num, Q: Fn(&Vec<TradingGrid>, usize) -> Vec<GridQuotes>
        requires
            old(self).session.candle_seq + 1 + old(self).settlement <= u64::MAX,
            old(self).session.candle_id < usize::MAX,
            sound_plan(old(self).session.plan@),
            plan_has_room(plan_view(old(self).session.plan@), old(self).session.orders@.len() as int),
            forall|o: Order, p: Num| #[trigger] call_requires(pnl, (o, p)),
            forall|plan: &Vec<TradingGrid>, n: usize| #[trigger] call_requires(quotes, (plan, n)),
            forall|plan: &Vec<TradingGrid>, n: usize, out: Vec<GridQuotes>| #[trigger]
                call_ensures(quotes, (plan, n), out) ==> (sound_plan(plan@) ==> quoted(plan_view(plan@), out@)),
        ensures
            sound_plan(final(self).session.plan@),
            candle.t <= old(self).session.candle_ts ==> *final(self) == *old(self) && events@.len() == 0,
            candle.t > old(self).session.candle_ts ==> walked_with(
                *old(self),
                *final(self),
                *candle,
                round_trip_fee,
                events@,
                pnl,
                quotes,
            ),
            advanced(*old(self), *final(self), events@),
    {
        let ghost a = *self;
        if candle.t <= self.session.candle_ts {
            return Vec::new();
        }
        let seq: u64 = self.session.candle_seq + 1;
        self.session.candle_seq = seq;
        let ghost open = self.session.orders@;
        assert(open.len() == self.session.orders.len());
        let exits = due_exits(&self.session.orders, candle, seq);
        proof {
            orders_are_kept_or_closed(open, *candle, seq, open.len());
            lemma_exit_places(open, *candle, seq, open.len());
            lemma_plan_room_less(plan_view(self.session.plan@), open.len() as int, exits@.len() as int);
        }
        let mut pnls: Vec<Num> = Vec::new();
        let mut k: usize = 0;
        while k < exits.len()
            invariant
                k <= exits@.len(),
                pnls@.len() == k,
                self.session.orders@ == open,
                forall|i: int| 0 <= i < exits@.len() ==> (#[trigger] exits@[i]).index < open.len(),
                forall|o: Order, p: Num| #[trigger] call_requires(pnl, (o, p)),
                forall|i: int|
                    0 <= i < k ==> call_ensures(
                        pnl,
                        (open[(#[trigger] exits@[i]).index as int], exits@[i].price),
                        pnls@[i],
                    ),
            decreases exits@.len() - k,
        {
            let exit = exits[k];
            assert(exits@[k as int].index < open.len());
            pnls.push(pnl(self.session.orders[exit.index], exit.price));
            k += 1;
        }
        let mut events = self.session.settle(candle, seq, &exits, &pnls);
        let ghost closed = closed_orders(open, exits@, pnls@);
        proof {
            crate::streaming::lemma_counted_sound(plan_view(a.session.plan@), closed, closed.len());
            assert forall|i: int| 0 <= i < self.session.plan@.len() implies (#[trigger] self.session.plan@[i])@.inv() by {
                assert(plan_view(self.session.plan@)[i].inv());
            }
        }
        let qs = quotes(&self.session.plan, self.session.candle_id);
        let rule = EntryRule { round_trip_fee, unlock_seq: seq + self.settlement };
        let mut entered = evaluate_grid_entries(candle, &self.session.plan, &qs, &mut self.session.orders, rule);
        let ghost more = entered@;
        events.append(&mut entered);
        self.session.candle_id = self.session.candle_id + 1;
        proof {
            assert(walked(a, *self, *candle, round_trip_fee, events@, pnls@, qs@));
            assert(earned_by(pnl, a, *candle, pnls@));
        }
        events
    }

    /// Ends a fetch: where it brought candles the backtest goes on at the end of
    /// the span that was fetched, else at `next_open`, the market's next candle.
    pub fn on_fetched(&mut self, candles: &Vec<CandleStick>, next_open: u64)
        requires
            old(self).step() is Fetch,
        ensures
            final(self).current() == (if candles@.len() > 0 { old(self).fetch_end() } else { next_open }),
            final(self).session.candle_ts == (if candles@.len() > 0 { candles@.last().t } else { old(self).session.candle_ts }),
            !final(self).rebuilt,
            final(self).session.orders == old(self).session.orders,
            final(self).session.history == old(self).session.history,
            final(self).session.plan == old(self).session.plan,
            final(self).session.review_at == old(self).session.review_at,
            final(self).session.candle_seq == old(self).session.candle_seq,
            final(self).session.candle_id == old(self).session.candle_id,
            final(self).settlement == old(self).settlement && final(self).to == old(self).to,
            advanced(*old(self), *final(self), Seq::empty()),
    {
        let n: usize = candles.len();
        if n > 0 {
            self.session.next_ts = if self.session.review_at <= self.to { self.session.review_at } else { self.to };
            self.session.candle_ts = candles[n - 1].t;
        } else {
            self.session.next_ts = next_open;
        }
        self.rebuilt = false;
    }
}

proof fn lemma_closed_add(a: Seq<OrderEvent>, b: Seq<OrderEvent>)
    ensures
        closed_in(a + b) == closed_in(a) + closed_in(b),
    decreases b.len(),
{
    if b.len() == 0 {
        assert(a + b =~= a);
        assert(closed_in(a) + closed_in(b) =~= closed_in(a));
    } else {
        lemma_closed_add(a, b.drop_last());
        assert((a + b).drop_last() =~= a + b.drop_last());
        assert(closed_in(a + b) =~= closed_in(a) + closed_in(b));
    }
}

proof fn lemma_closed_told(ts: u64, closed: Seq<Order>)
    ensures
        closed_in(closed_events(ts, closed)) == closed,
        placed(closed_events(ts, closed)) == Seq::<Order>::empty(),
    decreases closed.len(),
{
    let events = closed_events(ts, closed);
    if closed.len() > 0 {
        lemma_closed_told(ts, closed.drop_last());
        assert(events.drop_last() =~= closed_events(ts, closed.drop_last()));
        assert(closed.drop_last().push(closed.last()) =~= closed);
    } else {
        assert(closed =~= Seq::empty());
    }
}

/// Whether orders are open: none has an outcome.
pub open spec fn all_open(orders: Seq<Order>) -> bool {
    forall|i: int| 0 <= i < orders.len() ==> (#[trigger] orders[i]).exit_price is None
}

proof fn lemma_levels_close_nothing(
    open: Seq<Order>,
    g: GridView,
    q: GridQuotes,
    candle: CandleStick,
    rule: EntryRule,
    ig: int,
    n: nat,
)
    ensures
        closed_in(level_outcomes(open, g, q, candle, rule, ig, n)) == Seq::<Order>::empty(),
        all_open(placed(level_outcomes(open, g, q, candle, rule, ig, n))),
    decreases n,
{
    if n > 0 {
        lemma_levels_close_nothing(open, g, q, candle, rule, ig, (n - 1) as nat);
        let rest = level_outcomes(open, g, q, candle, rule, ig, (n - 1) as nat);
        let here = outcome_at(open, g, q, candle, rule, ig, n - 1);
        lemma_closed_add(rest, here);
        lemma_placed_add(rest, here);
        if here.len() == 1 {
            assert(here.drop_last() =~= Seq::empty());
            assert(closed_in(here.drop_last()) =~= Seq::empty());
            assert(placed(here.drop_last()) =~= Seq::empty());
        }
        assert(closed_in(here) =~= Seq::empty());
    }
}

proof fn lemma_entries_close_nothing(
    open: Seq<Order>,
    plan: Seq<GridView>,
    quotes: Seq<GridQuotes>,
    candle: CandleStick,
    rule: EntryRule,
    n: nat,
)
    ensures
        closed_in(grid_outcomes(open, plan, quotes, candle, rule, n)) == Seq::<Order>::empty(),
        all_open(placed(grid_outcomes(open, plan, quotes, candle, rule, n))),
    decreases n,
{
    if n > 0 {
        let ig = n - 1;
        lemma_entries_close_nothing(open, plan, quotes, candle, rule, (n - 1) as nat);
        let rest = grid_outcomes(open, plan, quotes, candle, rule, (n - 1) as nat);
        let here = level_outcomes(open, plan[ig], quotes[ig], candle, rule, ig, plan[ig].levels.len());
        lemma_levels_close_nothing(open, plan[ig], quotes[ig], candle, rule, ig, plan[ig].levels.len());
        lemma_closed_add(rest, here);
        lemma_placed_add(rest, here);
    }
}

proof fn lemma_kept_were_open(orders: Seq<Order>, candle: CandleStick, seq: u64, n: nat)
    requires
        n <= orders.len(),
    ensures
        forall|i: int|
            0 <= i < kept_to(orders, candle, seq, n).len() ==> orders.contains(
                #[trigger] kept_to(orders, candle, seq, n)[i],
            ),
    decreases n,
{
    if n > 0 {
        lemma_kept_were_open(orders, candle, seq, (n - 1) as nat);
        let rest = kept_to(orders, candle, seq, (n - 1) as nat);
        let kept = kept_to(orders, candle, seq, n);
        assert forall|i: int| 0 <= i < kept.len() implies orders.contains(#[trigger] kept[i]) by {
            if i < rest.len() {
                assert(kept[i] == rest[i]);
            } else {
                assert(kept[i] == orders[n - 1]);
            }
        }
    }
}

proof fn lemma_left_alone(events: Seq<OrderEvent>)
    requires
        leaves_orders(events),
    ensures
        closed_in(events) == Seq::<Order>::empty(),
        placed(events) == Seq::<Order>::empty(),
    decreases events.len(),
{
    if events.len() > 0 {
        let rest = events.drop_last();
        assert forall|i: int| 0 <= i < rest.len() implies #[trigger] rest[i] is Rebuilt by {
            assert(events[i] is Rebuilt);
        }
        lemma_left_alone(rest);
        assert(events[events.len() - 1] is Rebuilt);
    }
}

/// What events do to orders: those closed go to the history, in their order and
/// with an outcome; each that is open was open before or is placed; none is lost.
pub open spec fn accounts(a: Session, b: Session, events: Seq<OrderEvent>) -> bool {
    &&& b.history@ == a.history@ + closed_in(events)
    &&& forall|k: int|
        0 <= k < closed_in(events).len() ==> (#[trigger] closed_in(events)[k]).exit_price is Some && closed_in(
            events,
        )[k].pnl_pct is Some
    &&& forall|k: int|
        0 <= k < b.orders@.len() ==> a.orders@.contains(#[trigger] b.orders@[k]) || placed(events).contains(b.orders@[k])
    &&& b.orders@.len() + closed_in(events).len() == a.orders@.len() + placed(events).len()
    &&& all_open(placed(events))
}

proof fn lemma_step_accounts(a: Forward, b: Forward, events: Seq<OrderEvent>)
    requires
        advanced(a, b, events),
    ensures
        accounts(a.session, b.session, events),
{
    let open = a.session.orders@;
    if b.session.orders@ == open && b.session.history@ == a.session.history@ && leaves_orders(events) {
        lemma_left_alone(events);
        assert(b.session.history@ =~= a.session.history@ + closed_in(events));
        assert forall|k: int| 0 <= k < b.session.orders@.len() implies open.contains(#[trigger] b.session.orders@[k]) by {
            assert(open[k] == b.session.orders@[k]);
        }
    } else {
        let (candle, fee, pnls, quotes) = choose|
            candle: CandleStick,
            fee: Num,
            pnls: Seq<Num>,
            quotes: Seq<GridQuotes>,
        | #[trigger] walked(a, b, candle, fee, events, pnls, quotes);
        let seq = (a.session.candle_seq + 1) as u64;
        let exits = exits_to(open, candle, seq, open.len());
        let closed = closed_orders(open, exits, pnls);
        let kept = kept_to(open, candle, seq, open.len());
        let rule = EntryRule { round_trip_fee: fee, unlock_seq: (seq + a.settlement) as u64 };
        let views = plan_view(b.session.plan@);
        let entered = grid_outcomes(kept, views, quotes, candle, rule, b.session.plan@.len());
        let first = closed_events(event_time(candle.t), closed);
        lemma_closed_told(event_time(candle.t), closed);
        lemma_entries_close_nothing(kept, views, quotes, candle, rule, b.session.plan@.len());
        lemma_closed_add(first, entered);
        lemma_placed_add(first, entered);
        assert(closed_in(events) =~= closed);
        assert(placed(events) =~= placed(entered));
        orders_are_kept_or_closed(open, candle, seq, open.len());
        lemma_kept_were_open(open, candle, seq, open.len());
        let now = b.session.orders@;
        assert forall|k: int| 0 <= k < now.len() implies open.contains(#[trigger] now[k]) || placed(events).contains(
            now[k],
        ) by {
            if k < kept.len() {
                assert(now[k] == kept[k]);
            } else {
                assert(now[k] == placed(entered)[k - kept.len()]);
            }
        }
    }
}

proof fn lemma_accounts_join(a: Session, b: Session, c: Session, x: Seq<OrderEvent>, y: Seq<OrderEvent>)
    requires
        accounts(a, b, x),
        accounts(b, c, y),
    ensures
        accounts(a, c, x + y),
{
    lemma_closed_add(x, y);
    lemma_placed_add(x, y);
    let p = placed(x);
    let q = placed(y);
    assert(c.history@ =~= a.history@ + closed_in(x + y));
    assert forall|k: int| 0 <= k < c.orders@.len() implies a.orders@.contains(#[trigger] c.orders@[k]) || placed(
        x + y,
    ).contains(c.orders@[k]) by {
        let o = c.orders@[k];
        if q.contains(o) {
            let i = choose|i: int| 0 <= i < q.len() && q[i] == o;
            assert((p + q)[p.len() + i] == o);
        } else {
            let j = choose|j: int| 0 <= j < b.orders@.len() && b.orders@[j] == o;
            assert(a.orders@.contains(b.orders@[j]) || p.contains(b.orders@[j]));
            if p.contains(o) {
                let i = choose|i: int| 0 <= i < p.len() && p[i] == o;
                assert((p + q)[i] == o);
            }
        }
    }
}

/// A whole backtest accounts for every order. The history it found stays, and what
/// follows is exactly the orders that its events close, in their order, each with
/// a price and a profit. Every order that is open in the end was open in the
/// beginning or was placed, no order is lost, and where none had an outcome in the
/// beginning, none is both open in the end and among those closed.
pub proof fn a_run_accounts_for_every_order(states: Seq<Forward>, events: Seq<Seq<OrderEvent>>)
    requires
        ran(states, events),
    ensures
        accounts(states[0].session, states.last().session, told(events)),
        all_open(states[0].session.orders@) ==> all_open(states.last().session.orders@) && forall|k: int|
            0 <= k < states.last().session.orders@.len() ==> !closed_in(told(events)).contains(
                #[trigger] states.last().session.orders@[k],
            ),
    decreases events.len(),
{
    let a = states[0].session;
    let c = states.last().session;
    if events.len() == 0 {
        assert(c.history@ =~= a.history@ + closed_in(told(events)));
        assert forall|k: int| 0 <= k < c.orders@.len() implies a.orders@.contains(#[trigger] c.orders@[k]) by {
            assert(a.orders@[k] == c.orders@[k]);
        }
    } else {
        let before = states.drop_last();
        let said = events.drop_last();
        assert forall|i: int| 0 <= i < said.len() implies advanced(before[i], before[i + 1], #[trigger] said[i]) by {
            assert(advanced(states[i], states[i + 1], events[i]));
        }
        a_run_accounts_for_every_order(before, said);
        let n = events.len() - 1;
        assert(advanced(states[n], states[n + 1], events[n]));
        lemma_step_accounts(states[n], states[n + 1], events[n]);
        lemma_accounts_join(a, states[n].session, c, told(said), events.last());
    }
    if all_open(a.orders@) {
        let all = told(events);
        assert forall|k: int| 0 <= k < c.orders@.len() implies (#[trigger] c.orders@[k]).exit_price is None by {
            let o = c.orders@[k];
            if a.orders@.contains(o) {
                let i = choose|i: int| 0 <= i < a.orders@.len() && a.orders@[i] == o;
                assert(a.orders@[i].exit_price is None);
            } else {
                let i = choose|i: int| 0 <= i < placed(all).len() && placed(all)[i] == o;
                assert(placed(all)[i].exit_price is None);
            }
        }
        assert forall|k: int| 0 <= k < c.orders@.len() implies !closed_in(all).contains(#[trigger] c.orders@[k]) by {
            if closed_in(all).contains(c.orders@[k]) {
                let i = choose|i: int| 0 <= i < closed_in(all).len() && closed_in(all)[i] == c.orders@[k];
                assert(closed_in(all)[i].exit_price is Some);
            }
        }
    }
}

/// Where the review lies ahead, a fetch that brings candles moves the backtest
/// on, and never past the end of its span.
pub proof fn fetches_make_progress(f: Forward)
    requires
        f.current() < f.to,
        f.session.review_at > f.current(),
    ensures
        f.current() < f.fetch_end() <= f.to,
{
}

/// Whether `best` is the first of the highest scores.
pub open spec fn is_best(scores: Seq<Num>, best: int) -> bool {
    &&& 0 <= best < scores.len()
    &&& !scores[best].nan()
    &&& forall|j: int| 0 <= j < scores.len() && !(#[trigger] scores[j]).nan() ==> scores[j].key() <= scores[best].key()
    &&& forall|j: int| 0 <= j < best && !(#[trigger] scores[j]).nan() ==> scores[j].key() < scores[best].key()
}

/// Bit pattern of negative infinity.
pub const NEG_INFINITY_BITS: u64 = 0xFFF0_0000_0000_0000;

/// Whether a score is above negative infinity.
pub open spec fn counts(score: Num) -> bool {
    (Num { bits: NEG_INFINITY_BITS }).below(score)
}

/// The trial with the highest score, the first of them where several have it;
/// none where no score is above negative infinity.
pub fn best_trial(scores: &Vec<Num>) -> (r: Option<usize>)
    ensures
        r is Some <==> exists|j: int| 0 <= j < scores@.len() && counts(#[trigger] scores@[j]),
        r matches Some(i) ==> is_best(scores@, i as int) && counts(scores@[i as int]),
{
    let mut best: Option<usize> = None;
    let mut top = Num { bits: NEG_INFINITY_BITS };
    let mut i: usize = 0;
    while i < scores.len()
        invariant
            i <= scores@.len(),
            !top.nan(),
            best is None ==> top.bits == NEG_INFINITY_BITS && forall|j: int|
                0 <= j < i ==> !counts(#[trigger] scores@[j]),
            best matches Some(b) ==> {
                &&& b < i
                &&& top == scores@[b as int]
                &&& counts(top)
                &&& forall|j: int| 0 <= j < i && !(#[trigger] scores@[j]).nan() ==> scores@[j].key() <= top.key()
                &&& forall|j: int| 0 <= j < b && !(#[trigger] scores@[j]).nan() ==> scores@[j].key() < top.key()
            },
        decreases scores@.len() - i,
    {
        let s = scores[i];
        if top.lt(s) {
            proof {
                assert forall|j: int| 0 <= j < i && !(#[trigger] scores@[j]).nan() implies scores@[j].key() < s.key() by {
                    if best is None {
                        assert(!counts(scores@[j]));
                    }
                }
            }
            best = Some(i);
            top = s;
        }
        i += 1;
    }
    proof {
        if let Some(b) = best {
            assert(counts(scores@[b as int]));
        }
    }
    best
}

/// The span that covers every window.
pub fn covering_span(windows: &Vec<(u64, u64)>) -> (r: (u64, u64))
    requires
        windows@.len() > 0,
    ensures
        forall|i: int| 0 <= i < windows@.len() ==> r.0 <= (#[trigger] windows@[i]).0 && windows@[i].1 <= r.1,
        exists|i: int| 0 <= i < windows@.len() && (#[trigger] windows@[i]).0 == r.0,
        exists|i: int| 0 <= i < windows@.len() && (#[trigger] windows@[i]).1 == r.1,
{
    let mut lo: u64 = windows[0].0;
    let mut hi: u64 = windows[0].1;
    let mut i: usize = 1;
    let ghost mut a: int = 0;
    let ghost mut b: int = 0;
    while i < windows.len()
        invariant
            1 <= i <= windows@.len(),
            0 <= a < i,
            0 <= b < i,
            windows@[a].0 == lo,
            windows@[b].1 == hi,
            forall|k: int| 0 <= k < i ==> lo <= (#[trigger] windows@[k]).0 && windows@[k].1 <= hi,
        decreases windows@.len() - i,
    {
        if windows[i].0 < lo {
            lo = windows[i].0;
            proof {
                a = i as int;
            }
        }
        if windows[i].1 > hi {
            hi = windows[i].1;
            proof {
                b = i as int;
            }
        }
        i += 1;
    }
    (lo, hi)
}

/// Whether `x` is drawn within bounds where both are finite, else the lower one.
pub open spec fn is_drawn<D: Fn(Num, Num) -> Num>(draw: D, bounds: (Num, Num), x: Num) -> bool {
    if bounds.0.finite() && bounds.1.finite() {
        call_ensures(draw, bounds, x)
    } else {
        x == bounds.0
    }
}

/// Whether `v` is a value of a trial: drawn, and rounded where it is to be whole.
pub open spec fn is_tried<D, R>(draw: D, round: R, bounds: (Num, Num), whole: bool, v: Num) -> bool where
    D: Fn(Num, Num) -> Num,
    R: Fn(Num) -> Num,
 {
    exists|x: Num| #[trigger]
        is_drawn(draw, bounds, x) && if whole {
            call_ensures(round, (x,), v)
        } else {
            v == x
        }
}

/// Whether `t` is a trial within bounds.
pub open spec fn is_trial<D, R>(draw: D, round: R, bounds: Seq<(Num, Num)>, whole: Seq<bool>, t: Seq<Num>) -> bool where
    D: Fn(Num, Num) -> Num,
    R: Fn(Num) -> Num,
 {
    &&& t.len() == bounds.len()
    &&& forall|i: int| #![trigger t[i]] 0 <= i < t.len() ==> is_tried(draw, round, bounds[i], whole[i], t[i])
}

/// Draws parameters at random. `draw` gives a number within bounds, `round` the
/// whole number that is nearest.
pub fn random_trial<D, R>(bounds: &Vec<(Num, Num)>, whole: &Vec<bool>, draw: &D, round: &R) -> (t: Vec<Num>) where
    D: Fn(Num, Num) -> Num,
    R: Fn(Num) -> Num,

    requires
        whole@.len() == bounds@.len(),
        forall|a: Num, b: Num| a.finite() && b.finite() ==> #[trigger] call_requires(*draw, (a, b)),
        forall|a: Num| #[trigger] call_requires(*round, (a,)),
    ensures
        is_trial(*draw, *round, bounds@, whole@, t@),
{
    let mut t: Vec<Num> = Vec::new();
    let mut i: usize = 0;
    while i < bounds.len()
        invariant
            i <= bounds@.len(),
            whole@.len() == bounds@.len(),
            forall|a: Num, b: Num| a.finite() && b.finite() ==> #[trigger] call_requires(*draw, (a, b)),
            forall|a: Num| #[trigger] call_requires(*round, (a,)),
            t@.len() == i,
            forall|k: int| #![trigger t@[k]]
                0 <= k < i ==> is_tried(*draw, *round, bounds@[k], whole@[k], t@[k]),
        decreases bounds@.len() - i,
    {
        let (low, high) = bounds[i];
        let x = if low.is_finite() && high.is_finite() {
            draw(low, high)
        } else {
            low
        };
        let v = if whole[i] {
            round(x)
        } else {
            x
        };
        assert(is_drawn(*draw, bounds@[i as int], x));
        assert(is_tried(*draw, *round, bounds@[i as int], whole@[i as int], v));
        t.push(v);
        i += 1;
    }
    t
}

/// The farthest that trials look back: the upper bound of the last parameter in
/// whole seconds, at least `lookback`.
pub fn farthest_lookback(bounds: &Vec<(Num, Num)>, lookback: u64) -> (r: u64)
    ensures
        r == (if bounds@.len() > 0 && in_word(bounds@.last().1, bounds@.last().1.whole()) > lookback {
            in_word(bounds@.last().1, bounds@.last().1.whole())
        } else {
            lookback
        }),
{
    if bounds.len() == 0 {
        return lookback;
    }
    let named = truncate(bounds[bounds.len() - 1].1);
    if named > lookback {
        named
    } else {
        lookback
    }
}

/// The scores of the first `n` windows that have one.
pub open spec fn scores_to(scores: Seq<Option<Num>>, n: nat) -> Seq<Num>
    decreases n,
{
    if n == 0 {
        Seq::empty()
    } else {
        match scores[n - 1] {
            Some(x) => scores_to(scores, (n - 1) as nat).push(x),
            None => scores_to(scores, (n - 1) as nat),
        }
    }
}

/// The mean score over windows. A window that could not be run counts as zero.
pub fn mean_score<F: Fn(Calculation) -> Num>(scores: &Vec<Option<Num>>, f: &F) -> (r: Num)
    requires
        calculates(*f),
    ensures
        r == quotient(*f, total(*f, scores_to(scores@, scores@.len())), count(*f, scores@.len() as int)),
{
    let mut all: Vec<Num> = Vec::new();
    let mut i: usize = 0;
    while i < scores.len()
        invariant
            i <= scores@.len(),
            all@ == scores_to(scores@, i as nat),
        decreases scores@.len() - i,
    {
        if let Some(x) = scores[i] {
            all.push(x);
        }
        i += 1;
    }
    let s = add_up(f, &all);
    let n = calculate(f, Calculation::Count(scores.len() as u128));
    calculate(f, Calculation::Quotient(s, n))
}

} // verus!
