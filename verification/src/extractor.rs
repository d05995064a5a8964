//! Feature extraction: candles to fixed-size series.
use vstd::prelude::*;

use crate::candle::CandleStick;
use crate::num::Num;

verus! {

/// Why no features can be extracted.
#[derive(Clone, Copy, Debug, PartialEq, Eq, Structural)]
pub enum ExtractError {
    /// There is no candle.
    NoCandles,
}

/// Extracts closes, highs, lows and previous closes, each padded at the front
/// to `window` entries with its first value.
#[derive(Clone, Copy, Debug, PartialEq, Eq, Structural)]
pub struct OhlcvExtractor {
    pub window: usize,
}

/// `s` with copies of its first entry in front, `window` entries in all.
pub open spec fn padded(s: Seq<Num>, window: nat) -> Seq<Num> {
    if s.len() >= window {
        s
    } else {
        Seq::new(window, |i: int| if i < window - s.len() { s[0] } else { s[i - (window - s.len())] })
    }
}

/// The last `n` entries of `s`, or all of them where there are fewer.
pub open spec fn tail<T>(s: Seq<T>, n: nat) -> Seq<T> {
    if s.len() <= n {
        s
    } else {
        s.skip(s.len() - n)
    }
}

pub open spec fn closes(s: Seq<CandleStick>) -> Seq<Num> {
    Seq::new(s.len(), |i: int| s[i].c)
}

pub open spec fn highs(s: Seq<CandleStick>) -> Seq<Num> {
    Seq::new(s.len(), |i: int| s[i].h)
}

pub open spec fn lows(s: Seq<CandleStick>) -> Seq<Num> {
    Seq::new(s.len(), |i: int| s[i].l)
}

/// Each close's predecessor; the first close stands in for its own.
pub open spec fn prev_closes(s: Seq<CandleStick>) -> Seq<Num> {
    Seq::new(s.len(), |i: int| if i == 0 { s[0].c } else { s[i - 1].c })
}

/// The views of a list of series.
pub open spec fn series_views(v: Seq<Vec<Num>>) -> Seq<Seq<Num>> {
    Seq::new(v.len(), |i: int| v[i]@)
}

fn pad(v: Vec<Num>, window: usize) -> (r: Vec<Num>)
    requires
        v@.len() > 0,
    ensures
        r@ == padded(v@, window as nat),
{
    let n: usize = v.len();
    if n >= window {
        return v;
    }
    let first = v[0];
    let mut out: Vec<Num> = Vec::new();
    let mut i: usize = 0;
    while i < window - n
        invariant
            n < window,
            n == v@.len(),
            first == v@[0],
            i <= window - n,
            out@ == padded(v@, window as nat).take(i as int),
        decreases window - n - i,
    {
        out.push(first);
        i += 1;
    }
    let mut k: usize = 0;
    while k < n
        invariant
            n < window,
            n == v@.len(),
            k <= n,
            out@ == padded(v@, window as nat).take(window - n + k),
        decreases n - k,
    {
        out.push(v[k]);
        k += 1;
    }
    assert(out@ =~= padded(v@, window as nat));
    out
}

impl OhlcvExtractor {
    /// The extractor's name.
    pub fn name(&self) -> (r: &'static str)
        ensures
            r@ == "ohlcv"@,
    {
        "ohlcv"
    }

    /// The four series of the last `window` candles.
    pub open spec fn features(self, candles: Seq<CandleStick>) -> Seq<Seq<Num>> {
        let recent = tail(candles, self.window as nat);
        seq![
            padded(closes(recent), self.window as nat),
            padded(highs(recent), self.window as nat),
            padded(lows(recent), self.window as nat),
            padded(prev_closes(recent), self.window as nat),
        ]
    }

    /// Extracts closes, highs, lows and previous closes.
    pub fn extract(&self, candles: &Vec<CandleStick>) -> (r: Result<Vec<Vec<Num>>, ExtractError>)
        requires
            candles@.len() == 0 || self.window > 0,
        ensures
            r is Err <==> candles@.len() == 0,
            r matches Ok(v) ==> series_views(v@) == self.features(candles@),
    {
        let n: usize = candles.len();
        if n == 0 {
            return Err(ExtractError::NoCandles);
        }
        let take: usize = if self.window < n { self.window } else { n };
        let start: usize = n - take;
        let ghost recent = tail(candles@, self.window as nat);
        assert(recent =~= candles@.subrange(start as int, n as int));
        let mut c: Vec<Num> = Vec::new();
        let mut h: Vec<Num> = Vec::new();
        let mut l: Vec<Num> = Vec::new();
        let mut p: Vec<Num> = Vec::new();
        let mut i: usize = start;
        while i < n
            invariant
                start <= i <= n == candles@.len(),
                recent == candles@.subrange(start as int, n as int),
                c@ == closes(recent).take(i - start),
                h@ == highs(recent).take(i - start),
                l@ == lows(recent).take(i - start),
                p@ == prev_closes(recent).take(i - start),
            decreases n - i,
        {
            let candle = candles[i];
            c.push(candle.c);
            h.push(candle.h);
            l.push(candle.l);
            p.push(if i == start { candle.c } else { candles[i - 1].c });
            i += 1;
        }
        assert(c@ =~= closes(recent));
        assert(h@ =~= highs(recent));
        assert(l@ =~= lows(recent));
        assert(p@ =~= prev_closes(recent));
        let mut out: Vec<Vec<Num>> = Vec::new();
        out.push(pad(c, self.window));
        out.push(pad(h, self.window));
        out.push(pad(l, self.window));
        out.push(pad(p, self.window));
        assert(series_views(out@) =~= self.features(candles@));
        Ok(out)
    }
}

/// Every extracted series has the window's length.
pub proof fn extracted_series_fill_the_window(e: OhlcvExtractor, candles: Seq<CandleStick>, k: int)
    requires
        e.window > 0,
        candles.len() > 0,
        0 <= k < 4,
    ensures
        e.features(candles).len() == 4,
        e.features(candles)[k].len() == e.window,
{
}

} // verus!
