//! Candles and the ticks they are made of.
use vstd::prelude::*;

use crate::num::Num;

verus! {

/// One candle: opening time in Unix seconds, prices and volume.
#[derive(Clone, Copy, Debug, PartialEq, Eq, Structural)]
pub struct CandleStick {
    pub t: i64,
    pub o: Num,
    pub h: Num,
    pub l: Num,
    pub c: Num,
    pub v: Num,
}

impl Default for CandleStick {
    fn default() -> (r: CandleStick)
        ensures
            r.t == 0,
            r.o.bits == 0 && r.h.bits == 0 && r.l.bits == 0 && r.c.bits == 0 && r.v.bits == 0,
    {
        let zero = Num::zero();
        CandleStick { t: 0, o: zero, h: zero, l: zero, c: zero, v: zero }
    }
}

/// One trade as it was matched, at a Unix time in milliseconds.
#[derive(Clone, Debug)]
pub struct Tick {
    pub broker: String,
    pub symbol: String,
    pub price: Num,
    pub quantity: Num,
    pub timestamp: i64,
    pub candlestick: Option<CandleStick>,
}

/// The start of the interval that `timestamp` falls in, rounding toward zero.
pub open spec fn interval_start(timestamp: int, interval: int) -> int {
    if timestamp >= 0 {
        timestamp / interval * interval
    } else {
        -((-timestamp) / interval * interval)
    }
}

/// The candle that a tick alone makes.
pub open spec fn opened_by(tick: Tick, start: int) -> CandleStick {
    CandleStick { t: start as i64, o: tick.price, h: tick.price, l: tick.price, c: tick.price, v: tick.quantity }
}

fn start_of(timestamp: i64, interval: i64) -> (r: i64)
    requires
        interval > 0,
    ensures
        r == interval_start(timestamp as int, interval as int),
{
    let wide: i128 = if timestamp >= 0 { timestamp as i128 } else { -(timestamp as i128) };
    let size: u128 = wide as u128;
    let step: u128 = interval as u128;
    let whole: u128 = size / step;
    assert(whole * step <= size) by (nonlinear_arith)
        requires
            whole == size / step,
            step > 0,
    ;
    let back: u128 = whole * step;
    let signed: i128 = if timestamp >= 0 { back as i128 } else { -(back as i128) };
    signed as i64
}

impl CandleStick {
    /// A candle with the given time, prices and volume.
    pub fn new(t: i64, o: Num, h: Num, l: Num, c: Num, v: Num) -> (r: CandleStick)
        ensures
            r == (CandleStick { t, o, h, l, c, v }),
    {
        CandleStick { t, o, h, l, c, v }
    }

    /// The upper end of the candle's body.
    pub fn max(&self) -> (r: Num)
        ensures
            r == self.o.greater(self.c),
    {
        self.o.max(self.c)
    }

    /// The lower end of the candle's body.
    pub fn min(&self) -> (r: Num)
        ensures
            r == self.o.lesser(self.c),
    {
        self.o.min(self.c)
    }

    /// The candle once `tick` is counted, where `volume` is the volume so far
    /// plus the tick's, and the candle that the tick closes.
    pub open spec fn with_tick(self, tick: Tick, interval_ms: int, volume: Num) -> (CandleStick, Option<CandleStick>) {
        let start = interval_start(tick.timestamp as int, interval_ms);
        if interval_ms == 0 {
            (self, None)
        } else if self.t == 0 {
            (opened_by(tick, start), None)
        } else if start > self.t {
            (opened_by(tick, start), Some(self))
        } else {
            (
                CandleStick {
                    h: self.h.greater(tick.price),
                    l: self.l.lesser(tick.price),
                    c: tick.price,
                    v: volume,
                    ..self
                },
                None,
            )
        }
    }

    /// Counts a tick: the first one opens the candle, one of a later interval
    /// closes it and opens the next, any other one extends it. `volume` is the
    /// candle's volume plus the tick's quantity.
    pub fn update(&mut self, tick: &Tick, interval_ms: u64, volume: Num) -> (r: Option<CandleStick>)
        requires
            interval_ms <= i64::MAX,
        ensures
            (*final(self), r) == old(self).with_tick(*tick, interval_ms as int, volume),
    {
        if interval_ms == 0 {
            return None;
        }
        let start = start_of(tick.timestamp, interval_ms as i64);
        let fresh = CandleStick {
            t: start,
            o: tick.price,
            h: tick.price,
            l: tick.price,
            c: tick.price,
            v: tick.quantity,
        };
        if self.t == 0 {
            *self = fresh;
            None
        } else if start > self.t {
            let closed = *self;
            *self = fresh;
            Some(closed)
        } else {
            self.h = self.h.max(tick.price);
            self.l = self.l.min(tick.price);
            self.c = tick.price;
            self.v = volume;
            None
        }
    }
}

} // verus!
