//! The context that operators write to.
use vstd::prelude::*;

use super::onnx::{init_views, node_views, Initializer, OnnxGraph, OnnxNode};
use crate::arith::{
    calculate, calculates, count, difference, power, product, quotient, sum, Calculation, ONE_BITS, TWO_BITS,
};
use crate::num::Num;

verus! {

/// A graph under construction and the length of its input windows.
#[derive(Debug)]
pub struct OnnxEmitCtx {
    pub graph: OnnxGraph,
    pub window_size: usize,
}

impl OnnxEmitCtx {
    /// A context over `graph`.
    pub fn new(graph: OnnxGraph, window_size: usize) -> (r: OnnxEmitCtx)
        ensures
            r.graph == graph,
            r.window_size == window_size,
    {
        OnnxEmitCtx { graph, window_size }
    }

    /// Adds a node after those already there.
    pub fn push_node(&mut self, node: OnnxNode)
        ensures
            final(self).graph@ == old(self).graph@.plus(Seq::empty(), seq![node@]),
            final(self).window_size == old(self).window_size,
    {
        self.graph.node.push(node);
        assert(node_views(self.graph.node@) =~= node_views(old(self).graph.node@) + seq![node@]);
        assert(self.graph@ =~= old(self).graph@.plus(Seq::empty(), seq![node@]));
    }

    /// Adds a constant after those already there.
    pub fn push_initializer(&mut self, init: Initializer)
        ensures
            final(self).graph@ == old(self).graph@.plus(seq![init@], Seq::empty()),
            final(self).window_size == old(self).window_size,
    {
        self.graph.initializer.push(init);
        assert(init_views(self.graph.initializer@) =~= init_views(old(self).graph.initializer@) + seq![init@]);
        assert(self.graph@ =~= old(self).graph@.plus(seq![init@], Seq::empty()));
    }

    /// The length of the input windows.
    pub fn window_size(&self) -> (r: usize)
        ensures
            r == self.window_size,
    {
        self.window_size
    }

    /// Exponential decay weights over the window.
    pub fn ema_weights<F: Fn(Calculation) -> Num>(&self, period: usize, f: &F) -> (r: Vec<Num>)
        requires
            calculates(*f),
        ensures
            r@ == decay(*f, self.window_size, period),
    {
        ema_weights(self.window_size, period, f)
    }

    /// Simple average weights over the window.
    pub fn sma_weights<F: Fn(Calculation) -> Num>(&self, period: usize, f: &F) -> (r: Vec<Num>)
        requires
            calculates(*f),
        ensures
            r@ == average(*f, self.window_size, period),
    {
        sma_weights(self.window_size, period, f)
    }

    /// Wilder's smoothing weights over the window.
    pub fn rsi_weights<F: Fn(Calculation) -> Num>(&self, period: usize, f: &F) -> (r: Vec<Num>)
        requires
            calculates(*f),
        ensures
            r@ == smoothing(*f, self.window_size, period),
    {
        rsi_weights(self.window_size, period, f)
    }
}

/// The weight of a value that is `age` steps old, where each step keeps all but
/// `k` of it.
pub open spec fn decayed<F: Fn(Calculation) -> Num>(f: F, k: Num, age: int) -> Num {
    product(f, k, power(f, difference(f, Num { bits: ONE_BITS }, k), count(f, age)))
}

/// Exponential decay weights, the newest last; zeros without a period.
pub open spec fn decay<F: Fn(Calculation) -> Num>(f: F, window_size: usize, period: usize) -> Seq<Num> {
    let k = quotient(f, Num { bits: TWO_BITS }, sum(f, count(f, period as int), Num { bits: ONE_BITS }));
    Seq::new(
        window_size as nat,
        |i: int|
            if period == 0 {
                Num { bits: 0 }
            } else {
                decayed(f, k, window_size - 1 - i)
            },
    )
}

/// Equal weights over the last `period` entries; zeros without a period.
pub open spec fn average<F: Fn(Calculation) -> Num>(f: F, window_size: usize, period: usize) -> Seq<Num> {
    Seq::new(
        window_size as nat,
        |i: int|
            if period == 0 || i < window_size - period {
                Num { bits: 0 }
            } else {
                quotient(f, Num { bits: ONE_BITS }, count(f, period as int))
            },
    )
}

/// Wilder's smoothing: the mean of the first `period` moves, then exponential
/// decay; the mean of all moves where there are no more than `period`. The first
/// entry is no move.
pub open spec fn smoothing<F: Fn(Calculation) -> Num>(f: F, window_size: usize, period: usize) -> Seq<Num> {
    let one = Num { bits: ONE_BITS };
    let k = quotient(f, one, count(f, period as int));
    let n = window_size - 1;
    Seq::new(
        window_size as nat,
        |i: int|
            if period == 0 || i == 0 {
                Num { bits: 0 }
            } else if n <= period {
                quotient(f, one, count(f, n))
            } else if i <= period {
                decayed(f, k, n - period)
            } else {
                decayed(f, k, n - i)
            },
    )
}

fn decay_by<F: Fn(Calculation) -> Num>(f: &F, k: Num, age: usize) -> (r: Num)
    requires
        calculates(*f),
    ensures
        r == decayed(*f, k, age as int),
{
    let keep = calculate(f, Calculation::Difference(Num { bits: ONE_BITS }, k));
    let steps = calculate(f, Calculation::Count(age as u128));
    let left = calculate(f, Calculation::Power(keep, steps));
    calculate(f, Calculation::Product(k, left))
}

/// Exponential decay weights, the newest last.
pub fn ema_weights<F: Fn(Calculation) -> Num>(window_size: usize, period: usize, f: &F) -> (r: Vec<Num>)
    requires
        calculates(*f),
    ensures
        r@ == decay(*f, window_size, period),
{
    let one = Num { bits: ONE_BITS };
    let p = calculate(f, Calculation::Count(period as u128));
    let more = calculate(f, Calculation::Sum(p, one));
    let k = calculate(f, Calculation::Quotient(Num { bits: TWO_BITS }, more));
    let ghost want = decay(*f, window_size, period);
    let mut v: Vec<Num> = Vec::new();
    let mut i: usize = 0;
    while i < window_size
        invariant
            i <= window_size,
            calculates(*f),
            k == quotient(*f, Num { bits: TWO_BITS }, sum(*f, count(*f, period as int), Num { bits: ONE_BITS })),
            want == decay(*f, window_size, period),
            v@ == want.take(i as int),
        decreases window_size - i,
    {
        if period == 0 {
            v.push(Num::zero());
        } else {
            v.push(decay_by(f, k, window_size - 1 - i));
        }
        i += 1;
        assert(v@ =~= want.take(i as int));
    }
    assert(v@ =~= want);
    v
}

/// Simple average weights over the last `period` entries.
pub fn sma_weights<F: Fn(Calculation) -> Num>(window_size: usize, period: usize, f: &F) -> (r: Vec<Num>)
    requires
        calculates(*f),
    ensures
        r@ == average(*f, window_size, period),
{
    let p = calculate(f, Calculation::Count(period as u128));
    let w = calculate(f, Calculation::Quotient(Num { bits: ONE_BITS }, p));
    let start = window_size.saturating_sub(period);
    let ghost want = average(*f, window_size, period);
    let mut v: Vec<Num> = Vec::new();
    let mut i: usize = 0;
    while i < window_size
        invariant
            i <= window_size,
            start == (if window_size >= period { window_size - period } else { 0 }),
            w == quotient(*f, Num { bits: ONE_BITS }, count(*f, period as int)),
            want == average(*f, window_size, period),
            v@ == want.take(i as int),
        decreases window_size - i,
    {
        if period == 0 || i < start {
            v.push(Num::zero());
        } else {
            v.push(w);
        }
        i += 1;
        assert(v@ =~= want.take(i as int));
    }
    assert(v@ =~= want);
    v
}

/// Wilder's smoothing weights.
pub fn rsi_weights<F: Fn(Calculation) -> Num>(window_size: usize, period: usize, f: &F) -> (r: Vec<Num>)
    requires
        calculates(*f),
    ensures
        r@ == smoothing(*f, window_size, period),
{
    let one = Num { bits: ONE_BITS };
    let p = calculate(f, Calculation::Count(period as u128));
    let k = calculate(f, Calculation::Quotient(one, p));
    let n = window_size.saturating_sub(1);
    let c = calculate(f, Calculation::Count(n as u128));
    let mean = calculate(f, Calculation::Quotient(one, c));
    let ghost want = smoothing(*f, window_size, period);
    let mut v: Vec<Num> = Vec::new();
    let mut i: usize = 0;
    while i < window_size
        invariant
            i <= window_size,
            calculates(*f),
            window_size > 0 ==> n == window_size - 1,
            k == quotient(*f, Num { bits: ONE_BITS }, count(*f, period as int)),
            mean == quotient(*f, Num { bits: ONE_BITS }, count(*f, n as int)),
            want == smoothing(*f, window_size, period),
            v@ == want.take(i as int),
        decreases window_size - i,
    {
        let w = if period == 0 || i == 0 {
            Num::zero()
        } else if n <= period {
            mean
        } else if i <= period {
            decay_by(f, k, n - period)
        } else {
            decay_by(f, k, n - i)
        };
        v.push(w);
        i += 1;
        assert(v@ =~= want.take(i as int));
    }
    assert(v@ =~= want);
    v
}

} // verus!
