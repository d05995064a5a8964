//! Orders: their sides, when they are closed, and the events they give rise
//! to.
use vstd::prelude::*;
use vstd::std_specs::convert::FromSpecImpl;

use crate::candle::CandleStick;
use crate::num::Num;
use crate::text::same;

verus! {

/// The side of an order.
#[derive(Clone, Copy, Debug, PartialEq, Eq, Structural)]
pub enum OrderType {
    Unknown,
    Long,
    Short,
}

impl Default for OrderType {
    fn default() -> (r: OrderType)
        ensures
            r == OrderType::Unknown,
    {
        OrderType::Unknown
    }
}

impl From<i32> for OrderType {
    fn from(value: i32) -> (r: OrderType) {
        if value == 1 {
            OrderType::Long
        } else if value == 2 {
            OrderType::Short
        } else {
            OrderType::Unknown
        }
    }
}

impl FromSpecImpl<i32> for OrderType {
    open spec fn obeys_from_spec() -> bool {
        true
    }

    open spec fn from_spec(value: i32) -> OrderType {
        if value == 1 {
            OrderType::Long
        } else if value == 2 {
            OrderType::Short
        } else {
            OrderType::Unknown
        }
    }
}

impl From<String> for OrderType {
    fn from(value: String) -> (r: OrderType) {
        if same(&value, "long") {
            OrderType::Long
        } else if same(&value, "short") {
            OrderType::Short
        } else {
            OrderType::Unknown
        }
    }
}

impl FromSpecImpl<String> for OrderType {
    open spec fn obeys_from_spec() -> bool {
        true
    }

    open spec fn from_spec(value: String) -> OrderType {
        side_named(value@)
    }
}

/// The side with the given name.
pub open spec fn side_named(name: Seq<char>) -> OrderType {
    if name == "long"@ {
        OrderType::Long
    } else if name == "short"@ {
        OrderType::Short
    } else {
        OrderType::Unknown
    }
}

impl OrderType {
    /// The name of the side.
    pub open spec fn label(self) -> Seq<char> {
        match self {
            OrderType::Long => "long"@,
            OrderType::Short => "short"@,
            OrderType::Unknown => "unknown"@,
        }
    }

    /// The name of the side.
    pub fn name(&self) -> (r: &'static str)
        ensures
            r@ == self.label(),
    {
        match self {
            OrderType::Long => "long",
            OrderType::Short => "short",
            OrderType::Unknown => "unknown",
        }
    }
}

/// Reading back the name of a side gives the side.
pub proof fn side_names_read_back(side: OrderType)
    ensures
        side_named(side.label()) == side,
{
    reveal_strlit("long");
    reveal_strlit("short");
    reveal_strlit("unknown");
    assert("long"@.len() == 4);
    assert("short"@.len() == 5);
    assert("unknown"@.len() == 7);
}

/// An order: how it was set up, and how it ended.
#[derive(Clone, Copy, Debug, PartialEq, Eq, Structural)]
pub struct Order {
    pub dtype: OrderType,
    pub entry_price: Num,
    pub size: Num,
    pub sl_price: Num,
    pub tp_price: Num,
    pub grid_index: usize,
    pub level_index: usize,
    pub pnl_pct: Option<Num>,
    pub exit_price: Option<Num>,
    /// The number of the first candle that may close the order; 0 where any
    /// may.
    pub unlock_seq: u64,
}

impl Default for Order {
    fn default() -> (r: Order)
        ensures
            r.dtype == OrderType::Unknown,
            r.entry_price.bits == 0 && r.size.bits == 0 && r.sl_price.bits == 0 && r.tp_price.bits == 0,
            r.grid_index == 0 && r.level_index == 0,
            r.pnl_pct is None && r.exit_price is None,
            r.unlock_seq == 0,
    {
        let zero = Num::zero();
        Order {
            dtype: OrderType::Unknown,
            entry_price: zero,
            size: zero,
            sl_price: zero,
            tp_price: zero,
            grid_index: 0,
            level_index: 0,
            pnl_pct: None,
            exit_price: None,
            unlock_seq: 0,
        }
    }
}

/// The price levels of a grid when it was built.
#[derive(Clone, Debug)]
pub struct GridSnapshot {
    pub levels: Vec<Num>,
}

/// What happens to orders and plans as candles come in.
#[derive(Clone, Debug)]
pub enum OrderEvent {
    /// An order was placed and is open.
    Placed { ts: u64, order: Order },
    /// An order was closed.
    Closed { ts: u64, order: Order },
    /// The plan was rebuilt.
    Rebuilt { ts: u64, grids: Vec<GridSnapshot> },
    /// An order was not placed, because the profit it could make does not
    /// exceed the fee.
    Rejected { ts: u64, grid: usize, level: usize, expected_profit: Num, fee: Num },
}

impl Order {
    /// Whether a candle reaches the order's stop-loss.
    pub open spec fn hits_stop(self, candle: CandleStick) -> bool {
        match self.dtype {
            OrderType::Long => candle.l.at_most(self.sl_price),
            OrderType::Short => self.sl_price.at_most(candle.h),
            OrderType::Unknown => false,
        }
    }

    /// Whether a candle reaches the order's take-profit.
    pub open spec fn hits_target(self, candle: CandleStick) -> bool {
        match self.dtype {
            OrderType::Long => self.tp_price.at_most(candle.h),
            OrderType::Short => candle.l.at_most(self.tp_price),
            OrderType::Unknown => false,
        }
    }

    /// The price at which a candle closes the order, as the candle with number
    /// `seq`. Nothing closes it before it is unlocked. The stop-loss goes before
    /// the take-profit; a candle that opens beyond either fills at its open.
    pub open spec fn exit_at(self, candle: CandleStick, seq: u64) -> Option<Num> {
        let long = self.dtype == OrderType::Long;
        if seq < self.unlock_seq {
            None
        } else if self.hits_stop(candle) {
            let gapped = if long {
                candle.o.below(self.sl_price)
            } else {
                self.sl_price.below(candle.o)
            };
            Some(if gapped { candle.o } else { self.sl_price })
        } else if self.hits_target(candle) {
            let gapped = if long {
                self.tp_price.below(candle.o)
            } else {
                candle.o.below(self.tp_price)
            };
            Some(if gapped { candle.o } else { self.tp_price })
        } else {
            None
        }
    }

    /// The order once it is closed.
    pub open spec fn closed(self, exit_price: Num, pnl_pct: Num) -> Order {
        Order { exit_price: Some(exit_price), pnl_pct: Some(pnl_pct), ..self }
    }
}

/// The price at which `candle`, the candle with number `current_seq`, closes
/// the order.
pub fn check_order_exit(order: &Order, candle: &CandleStick, current_seq: u64) -> (r: Option<Num>)
    ensures
        r == order.exit_at(*candle, current_seq),
{
    if current_seq < order.unlock_seq {
        return None;
    }
    match order.dtype {
        OrderType::Long => {
            if candle.l.le(order.sl_price) {
                if candle.o.lt(order.sl_price) {
                    Some(candle.o)
                } else {
                    Some(order.sl_price)
                }
            } else if order.tp_price.le(candle.h) {
                if order.tp_price.lt(candle.o) {
                    Some(candle.o)
                } else {
                    Some(order.tp_price)
                }
            } else {
                None
            }
        },
        OrderType::Short => {
            if order.sl_price.le(candle.h) {
                if order.sl_price.lt(candle.o) {
                    Some(candle.o)
                } else {
                    Some(order.sl_price)
                }
            } else if candle.l.le(order.tp_price) {
                if candle.o.lt(order.tp_price) {
                    Some(candle.o)
                } else {
                    Some(order.tp_price)
                }
            } else {
                None
            }
        },
        OrderType::Unknown => None,
    }
}

/// No candle closes an order before the order's settlement has passed.
pub proof fn settlement_holds_orders_open(order: Order, candle: CandleStick, seq: u64)
    requires
        seq < order.unlock_seq,
    ensures
        order.exit_at(candle, seq) is None,
{
}

/// A stopped order never fills better than its stop-loss price: a long one at
/// or below it, a short one at or above it.
pub proof fn stop_never_fills_better(order: Order, candle: CandleStick, seq: u64)
    requires
        seq >= order.unlock_seq,
        order.hits_stop(candle),
    ensures
        order.exit_at(candle, seq) matches Some(p) && (order.dtype == OrderType::Long ==> p.at_most(order.sl_price)) && (
        order.dtype == OrderType::Short ==> order.sl_price.at_most(p)),
{
}

/// An order that reaches its target without its stop never fills worse than
/// its take-profit price.
pub proof fn target_never_fills_worse(order: Order, candle: CandleStick, seq: u64)
    requires
        seq >= order.unlock_seq,
        !order.hits_stop(candle),
        order.hits_target(candle),
    ensures
        order.exit_at(candle, seq) matches Some(p) && (order.dtype == OrderType::Long ==> order.tp_price.at_most(p)) && (
        order.dtype == OrderType::Short ==> p.at_most(order.tp_price)),
{
}

} // verus!
