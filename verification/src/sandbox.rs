//! Paper trading: ticks of several markets, each with its own orders.
use vstd::prelude::*;

use crate::calendar::{after_digits, leading_number, resolution_to_seconds, unit_secs};
use crate::candle::{CandleStick, Tick};
use crate::num::Num;
use crate::order::Order;
use crate::text::same;

verus! {

/// The resolution that plans are built from where nothing is configured.
pub fn default_analysis_resolution() -> (r: String)
    ensures
        r@ == "1H"@,
{
    "1H".to_owned()
}

/// The resolution that is traded on where nothing is configured.
pub fn default_trading_resolution() -> (r: String)
    ensures
        r@ == "5m"@,
{
    "5m".to_owned()
}

/// What must be configured before ticks are taken.
#[derive(Clone, Copy, Debug, PartialEq, Eq, Structural)]
pub enum Setting {
    Strategy,
    Fee,
    Score,
    Calendar,
}

impl Setting {
    /// The complaint that the setting is missing.
    pub open spec fn text(self) -> Seq<char> {
        match self {
            Setting::Strategy => "`strategy` is required"@,
            Setting::Fee => "`fee` is required"@,
            Setting::Score => "`score` is required"@,
            Setting::Calendar => "`calendar` is required"@,
        }
    }

    /// The complaint that the setting is missing.
    pub fn message(&self) -> (s: &'static str)
        ensures
            s@ == self.text(),
    {
        match self {
            Setting::Strategy => "`strategy` is required",
            Setting::Fee => "`fee` is required",
            Setting::Score => "`score` is required",
            Setting::Calendar => "`calendar` is required",
        }
    }
}

/// The first setting that is missing, given which are there.
pub fn missing_setting(strategy: bool, fee: bool, score: bool, calendar: bool) -> (r: Option<Setting>)
    ensures
        r == (if !strategy {
            Some(Setting::Strategy)
        } else if !fee {
            Some(Setting::Fee)
        } else if !score {
            Some(Setting::Score)
        } else if !calendar {
            Some(Setting::Calendar)
        } else {
            None
        }),
{
    if !strategy {
        Some(Setting::Strategy)
    } else if !fee {
        Some(Setting::Fee)
    } else if !score {
        Some(Setting::Score)
    } else if !calendar {
        Some(Setting::Calendar)
    } else {
        None
    }
}

/// A market that is traded on paper.
#[derive(Debug)]
pub struct Sandbox {
    pub broker: String,
    pub symbol: String,
    pub orders: Vec<Order>,
    pub history: Vec<Order>,
    pub analysis_resolution: String,
    pub trading_resolution: String,
    /// The milliseconds of a candle.
    pub interval: u64,
    /// The candle that the ticks are making.
    pub candle: CandleStick,
}

fn copied(orders: &Vec<Order>) -> (r: Vec<Order>)
    ensures
        r@ == orders@,
{
    let mut r: Vec<Order> = Vec::new();
    let mut i: usize = 0;
    while i < orders.len()
        invariant
            i <= orders@.len(),
            r@ == orders@.take(i as int),
        decreases orders@.len() - i,
    {
        r.push(orders[i]);
        i += 1;
        assert(orders@.take(i as int) =~= orders@.take(i - 1).push(orders@[i - 1]));
    }
    assert(orders@.take(i as int) =~= orders@);
    r
}

impl Sandbox {
    /// Whether the market is this one.
    pub open spec fn is_at(self, broker: Seq<char>, symbol: Seq<char>) -> bool {
        self.broker@ == broker && self.symbol@ == symbol
    }

    /// A market about to take ticks. Its history starts out as its open orders.
    pub fn start(
        broker: String,
        symbol: String,
        orders: Vec<Order>,
        analysis_resolution: String,
        trading_resolution: String,
    ) -> (r: Sandbox)
        requires
            leading_number(trading_resolution@) * unit_secs(after_digits(trading_resolution@)) * 1000 <= i64::MAX,
        ensures
            r.broker == broker && r.symbol == symbol,
            r.orders@ == orders@ && r.history@ == orders@,
            r.analysis_resolution == analysis_resolution && r.trading_resolution == trading_resolution,
            r.interval == leading_number(trading_resolution@) * unit_secs(after_digits(trading_resolution@)) * 1000,
            r.candle.t == 0,
    {
        let secs = resolution_to_seconds(&trading_resolution);
        let history = copied(&orders);
        Sandbox {
            broker,
            symbol,
            orders,
            history,
            analysis_resolution,
            trading_resolution,
            interval: secs * 1000,
            candle: CandleStick::default(),
        }
    }
}

/// The markets that are traded on paper.
#[derive(Debug)]
pub struct Sandboxes {
    pub items: Vec<Sandbox>,
}

/// Whether `i` is the market of a broker and a symbol: of several, the last.
pub open spec fn is_place(items: Seq<Sandbox>, broker: Seq<char>, symbol: Seq<char>, i: int) -> bool {
    &&& 0 <= i < items.len()
    &&& items[i].is_at(broker, symbol)
    &&& forall|j: int| i < j < items.len() ==> !(#[trigger] items[j]).is_at(broker, symbol)
}

impl Sandboxes {
    /// Every candle's length fits.
    pub open spec fn inv(self) -> bool {
        forall|i: int| 0 <= i < self.items@.len() ==> (#[trigger] self.items@[i]).interval <= i64::MAX
    }

    /// The market of a broker and a symbol.
    pub fn find(&self, broker: &str, symbol: &str) -> (r: Option<usize>)
        ensures
            r is Some <==> exists|i: int| 0 <= i < self.items@.len() && (#[trigger] self.items@[i]).is_at(broker@, symbol@),
            r matches Some(i) ==> is_place(self.items@, broker@, symbol@, i as int),
    {
        let mut i: usize = self.items.len();
        while i > 0
            invariant
                i <= self.items@.len(),
                forall|j: int| i <= j < self.items@.len() ==> !(#[trigger] self.items@[j]).is_at(broker@, symbol@),
            decreases i,
        {
            i -= 1;
            if same(&self.items[i].broker, broker) && same(&self.items[i].symbol, symbol) {
                assert(self.items@[i as int].is_at(broker@, symbol@));
                return Some(i);
            }
        }
        None
    }

    /// Counts a tick, in the market at place `at`: the candle that it closes, if
    /// it closes one. `volume` is the volume of the market's candle and of the
    /// tick together.
    pub fn on_tick(&mut self, at: usize, tick: &Tick, volume: Num) -> (r: Option<CandleStick>)
        requires
            old(self).inv(),
            at < old(self).items@.len(),
        ensures
            final(self).inv(),
            final(self).items@.len() == old(self).items@.len(),
            ({
                let a = old(self).items@[at as int];
                let b = final(self).items@[at as int];
                &&& (b.candle, r) == a.candle.with_tick(*tick, a.interval as int, volume)
                &&& b == (Sandbox { candle: b.candle, ..a })
            }),
            forall|i: int| 0 <= i < old(self).items@.len() && i != at ==> #[trigger] final(self).items@[i] == old(self).items@[i],
    {
        assert(self.items@[at as int].interval <= i64::MAX);
        let interval = self.items[at].interval;
        self.items[at].candle.update(tick, interval, volume)
    }
}

/// The candles of a span of one candle: the candle, where it is in the span.
pub fn only_candle(candle: &CandleStick, from: u64, to: u64) -> (r: Vec<CandleStick>)
    requires
        candle.t >= 0,
    ensures
        r@ == (if from <= candle.t < to { seq![*candle] } else { seq![] }),
{
    let mut v: Vec<CandleStick> = Vec::new();
    let t: u64 = candle.t as u64;
    if t >= from && t < to {
        v.push(*candle);
    }
    v
}

} // verus!
