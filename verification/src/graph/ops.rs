//! The operators a genome is made of, and the ONNX nodes each one becomes.
//!
//! An operator writes its nodes and constants after those already in the
//! context. Every name it introduces carries the name of the value it
//! computes, so two applications of one operator never share a name.
use vstd::prelude::*;
use vstd::string::*;

use super::ctx::OnnxEmitCtx;
use super::onnx::{
    init_view, join2, one, onnx_initializer, onnx_node, onnx_reduce, plain_node, reduce_node, two, Attr, AttrView,
    DataView, InitView, NodeView, OnnxNode, TensorData,
};
use super::GraphError;
use crate::text::texts;

verus! {

/// Entries that are `inside` from position `from` up to `to`, `outside`
/// elsewhere.
pub open spec fn banded(ws: nat, from: int, to: int, inside: i64, outside: i64) -> Seq<i64> {
    Seq::new(ws, |i: int| if from <= i < to { inside } else { outside })
}

/// Entries that are `inside` from position `from` up to `to`, `outside`
/// elsewhere.
pub fn band(ws: usize, from: usize, to: usize, inside: i64, outside: i64) -> (r: Vec<i64>)
    ensures
        r@ == banded(ws as nat, from as int, to as int, inside, outside),
{
    let mut v: Vec<i64> = Vec::new();
    let mut i: usize = 0;
    while i < ws
        invariant
            i <= ws,
            v@ == banded(ws as nat, from as int, to as int, inside, outside).take(i as int),
        decreases ws - i,
    {
        v.push(if from <= i && i < to { inside } else { outside });
        i += 1;
    }
    assert(v@ =~= banded(ws as nat, from as int, to as int, inside, outside));
    v
}

/// Weights that pick the last entry of a window.
pub open spec fn last_weights(ws: int) -> Seq<i64> {
    banded(ws as nat, ws - 1, ws, 1, 0)
}

/// Weights that pick the entry `period` steps before the last; none where the
/// window is too short.
pub open spec fn lag_weights(ws: int, period: int) -> Seq<i64> {
    banded(ws as nat, ws - 1 - period, ws - period, 1, 0)
}

/// 1 on the last `period` entries, 0 before them.
pub open spec fn tail_mask(ws: int, period: int) -> Seq<i64> {
    banded(ws as nat, ws - period, ws, 1, 0)
}

/// 0 on the last `period` entries, a value above every price before them.
pub open spec fn tail_complement(ws: int, period: int) -> Seq<i64> {
    banded(ws as nat, ws - period, ws, 0, 1_000_000_000)
}

/// Weights that pick the last entry of a window.
pub fn extract_w(ws: usize) -> (r: Vec<i64>)
    ensures
        r@ == last_weights(ws as int),
{
    let r = if ws == 0 { band(0, 0, 0, 1, 0) } else { band(ws, ws - 1, ws, 1, 0) };
    assert(r@ =~= last_weights(ws as int));
    r
}

/// Weights that pick the entry `period` steps before the last.
pub fn roc_prev_w(ws: usize, period: usize) -> (r: Vec<i64>)
    ensures
        r@ == lag_weights(ws as int, period as int),
{
    let r = if period < ws { band(ws, ws - 1 - period, ws - period, 1, 0) } else { band(ws, 0, 0, 1, 0) };
    assert(r@ =~= lag_weights(ws as int, period as int));
    r
}

/// 1 on the last `period` entries, 0 before them.
pub fn mask_donchian(ws: usize, period: usize) -> (r: Vec<i64>)
    ensures
        r@ == tail_mask(ws as int, period as int),
{
    let r = band(ws, ws.saturating_sub(period), ws, 1, 0);
    assert(r@ =~= tail_mask(ws as int, period as int));
    r
}

/// 0 on the last `period` entries, a value above every price before them.
pub fn mask_min_complement(ws: usize, period: usize) -> (r: Vec<i64>)
    ensures
        r@ == tail_complement(ws as int, period as int),
{
    let r = band(ws, ws.saturating_sub(period), ws, 0, 1_000_000_000);
    assert(r@ =~= tail_complement(ws as int, period as int));
    r
}

/// `prefix` before the name `out`.
pub open spec fn named(prefix: &str, out: Seq<char>) -> Seq<char> {
    prefix@ + out
}

/// What emitting an operator does to the context.
pub open spec fn emitted(
    before: OnnxEmitCtx,
    after: OnnxEmitCtx,
    inits: Seq<InitView>,
    nodes: Seq<NodeView>,
) -> bool {
    &&& after.window_size == before.window_size
    &&& after.graph@ == before.graph@.plus(inits, nodes)
}

/// Sum of two values.
#[derive(Clone, Copy, Debug, PartialEq, Eq, Structural)]
pub struct Add;

impl Add {
    /// The constants that the operator adds.
    pub open spec fn inits(self, ws: int, out: Seq<char>) -> Seq<InitView> {
        Seq::empty()
    }

    /// The nodes that the operator adds.
    pub open spec fn nodes(self, x: Seq<Seq<char>>, out: Seq<char>) -> Seq<NodeView> {
        seq![plain_node("Add"@, named("add_", out), seq![x[0], x[1]], out)]
    }

    /// Writes the operator's constants and nodes to the context.
    pub fn emit(&self, ctx: &mut OnnxEmitCtx, inputs: &Vec<String>, outputs: &Vec<String>) -> (r: Result<(), GraphError>)
        requires
            inputs@.len() >= 2,
            outputs@.len() >= 1,
            old(ctx).window_size <= i64::MAX,
        ensures
            r is Ok,
            emitted(
                *old(ctx),
                *final(ctx),
                self.inits(old(ctx).window_size as int, outputs@[0]@),
                self.nodes(texts(inputs@), outputs@[0]@),
            ),
    {
        let ghost g0 = ctx.graph@;
        let out: &str = outputs[0].as_str();
        ctx.push_node(onnx_node("Add", join2("add_", out), two(inputs[0].clone(), inputs[1].clone()), out.to_owned()));
        assert(ctx.graph@ =~= g0.plus(
            self.inits(old(ctx).window_size as int, outputs@[0]@),
            self.nodes(texts(inputs@), outputs@[0]@),
        ));
        Ok(())
    }
}

/// Difference of two values.
#[derive(Clone, Copy, Debug, PartialEq, Eq, Structural)]
pub struct Sub;

impl Sub {
    /// The constants that the operator adds.
    pub open spec fn inits(self, ws: int, out: Seq<char>) -> Seq<InitView> {
        Seq::empty()
    }

    /// The nodes that the operator adds.
    pub open spec fn nodes(self, x: Seq<Seq<char>>, out: Seq<char>) -> Seq<NodeView> {
        seq![plain_node("Sub"@, named("sub_", out), seq![x[0], x[1]], out)]
    }

    /// Writes the operator's constants and nodes to the context.
    pub fn emit(&self, ctx: &mut OnnxEmitCtx, inputs: &Vec<String>, outputs: &Vec<String>) -> (r: Result<(), GraphError>)
        requires
            inputs@.len() >= 2,
            outputs@.len() >= 1,
            old(ctx).window_size <= i64::MAX,
        ensures
            r is Ok,
            emitted(
                *old(ctx),
                *final(ctx),
                self.inits(old(ctx).window_size as int, outputs@[0]@),
                self.nodes(texts(inputs@), outputs@[0]@),
            ),
    {
        let ghost g0 = ctx.graph@;
        let out: &str = outputs[0].as_str();
        ctx.push_node(onnx_node("Sub", join2("sub_", out), two(inputs[0].clone(), inputs[1].clone()), out.to_owned()));
        assert(ctx.graph@ =~= g0.plus(
            self.inits(old(ctx).window_size as int, outputs@[0]@),
            self.nodes(texts(inputs@), outputs@[0]@),
        ));
        Ok(())
    }
}

/// Product of two values.
#[derive(Clone, Copy, Debug, PartialEq, Eq, Structural)]
pub struct Mul;

impl Mul {
    /// The constants that the operator adds.
    pub open spec fn inits(self, ws: int, out: Seq<char>) -> Seq<InitView> {
        Seq::empty()
    }

    /// The nodes that the operator adds.
    pub open spec fn nodes(self, x: Seq<Seq<char>>, out: Seq<char>) -> Seq<NodeView> {
        seq![plain_node("Mul"@, named("mul_", out), seq![x[0], x[1]], out)]
    }

    /// Writes the operator's constants and nodes to the context.
    pub fn emit(&self, ctx: &mut OnnxEmitCtx, inputs: &Vec<String>, outputs: &Vec<String>) -> (r: Result<(), GraphError>)
        requires
            inputs@.len() >= 2,
            outputs@.len() >= 1,
            old(ctx).window_size <= i64::MAX,
        ensures
            r is Ok,
            emitted(
                *old(ctx),
                *final(ctx),
                self.inits(old(ctx).window_size as int, outputs@[0]@),
                self.nodes(texts(inputs@), outputs@[0]@),
            ),
    {
        let ghost g0 = ctx.graph@;
        let out: &str = outputs[0].as_str();
        ctx.push_node(onnx_node("Mul", join2("mul_", out), two(inputs[0].clone(), inputs[1].clone()), out.to_owned()));
        assert(ctx.graph@ =~= g0.plus(
            self.inits(old(ctx).window_size as int, outputs@[0]@),
            self.nodes(texts(inputs@), outputs@[0]@),
        ));
        Ok(())
    }
}

/// Quotient of two values.
#[derive(Clone, Copy, Debug, PartialEq, Eq, Structural)]
pub struct Div;

impl Div {
    /// The constants that the operator adds.
    pub open spec fn inits(self, ws: int, out: Seq<char>) -> Seq<InitView> {
        Seq::empty()
    }

    /// The nodes that the operator adds.
    pub open spec fn nodes(self, x: Seq<Seq<char>>, out: Seq<char>) -> Seq<NodeView> {
        seq![plain_node("Div"@, named("div_", out), seq![x[0], x[1]], out)]
    }

    /// Writes the operator's constants and nodes to the context.
    pub fn emit(&self, ctx: &mut OnnxEmitCtx, inputs: &Vec<String>, outputs: &Vec<String>) -> (r: Result<(), GraphError>)
        requires
            inputs@.len() >= 2,
            outputs@.len() >= 1,
            old(ctx).window_size <= i64::MAX,
        ensures
            r is Ok,
            emitted(
                *old(ctx),
                *final(ctx),
                self.inits(old(ctx).window_size as int, outputs@[0]@),
                self.nodes(texts(inputs@), outputs@[0]@),
            ),
    {
        let ghost g0 = ctx.graph@;
        let out: &str = outputs[0].as_str();
        ctx.push_node(onnx_node("Div", join2("div_", out), two(inputs[0].clone(), inputs[1].clone()), out.to_owned()));
        assert(ctx.graph@ =~= g0.plus(
            self.inits(old(ctx).window_size as int, outputs@[0]@),
            self.nodes(texts(inputs@), outputs@[0]@),
        ));
        Ok(())
    }
}

/// Greater of two values, entry by entry.
#[derive(Clone, Copy, Debug, PartialEq, Eq, Structural)]
pub struct Max;

impl Max {
    /// The constants that the operator adds.
    pub open spec fn inits(self, ws: int, out: Seq<char>) -> Seq<InitView> {
        Seq::empty()
    }

    /// The nodes that the operator adds.
    pub open spec fn nodes(self, x: Seq<Seq<char>>, out: Seq<char>) -> Seq<NodeView> {
        seq![plain_node("Max"@, named("max_", out), seq![x[0], x[1]], out)]
    }

    /// Writes the operator's constants and nodes to the context.
    pub fn emit(&self, ctx: &mut OnnxEmitCtx, inputs: &Vec<String>, outputs: &Vec<String>) -> (r: Result<(), GraphError>)
        requires
            inputs@.len() >= 2,
            outputs@.len() >= 1,
            old(ctx).window_size <= i64::MAX,
        ensures
            r is Ok,
            emitted(
                *old(ctx),
                *final(ctx),
                self.inits(old(ctx).window_size as int, outputs@[0]@),
                self.nodes(texts(inputs@), outputs@[0]@),
            ),
    {
        let ghost g0 = ctx.graph@;
        let out: &str = outputs[0].as_str();
        ctx.push_node(onnx_node("Max", join2("max_", out), two(inputs[0].clone(), inputs[1].clone()), out.to_owned()));
        assert(ctx.graph@ =~= g0.plus(
            self.inits(old(ctx).window_size as int, outputs@[0]@),
            self.nodes(texts(inputs@), outputs@[0]@),
        ));
        Ok(())
    }
}

/// Lesser of two values, entry by entry.
#[derive(Clone, Copy, Debug, PartialEq, Eq, Structural)]
pub struct Min;

impl Min {
    /// The constants that the operator adds.
    pub open spec fn inits(self, ws: int, out: Seq<char>) -> Seq<InitView> {
        Seq::empty()
    }

    /// The nodes that the operator adds.
    pub open spec fn nodes(self, x: Seq<Seq<char>>, out: Seq<char>) -> Seq<NodeView> {
        seq![plain_node("Min"@, named("min_", out), seq![x[0], x[1]], out)]
    }

    /// Writes the operator's constants and nodes to the context.
    pub fn emit(&self, ctx: &mut OnnxEmitCtx, inputs: &Vec<String>, outputs: &Vec<String>) -> (r: Result<(), GraphError>)
        requires
            inputs@.len() >= 2,
            outputs@.len() >= 1,
            old(ctx).window_size <= i64::MAX,
        ensures
            r is Ok,
            emitted(
                *old(ctx),
                *final(ctx),
                self.inits(old(ctx).window_size as int, outputs@[0]@),
                self.nodes(texts(inputs@), outputs@[0]@),
            ),
    {
        let ghost g0 = ctx.graph@;
        let out: &str = outputs[0].as_str();
        ctx.push_node(onnx_node("Min", join2("min_", out), two(inputs[0].clone(), inputs[1].clone()), out.to_owned()));
        assert(ctx.graph@ =~= g0.plus(
            self.inits(old(ctx).window_size as int, outputs@[0]@),
            self.nodes(texts(inputs@), outputs@[0]@),
        ));
        Ok(())
    }
}

/// Absolute value.
#[derive(Clone, Copy, Debug, PartialEq, Eq, Structural)]
pub struct Abs;

impl Abs {
    /// The constants that the operator adds.
    pub open spec fn inits(self, ws: int, out: Seq<char>) -> Seq<InitView> {
        Seq::empty()
    }

    /// The nodes that the operator adds.
    pub open spec fn nodes(self, x: Seq<Seq<char>>, out: Seq<char>) -> Seq<NodeView> {
        seq![plain_node("Abs"@, named("abs_", out), seq![x[0]], out)]
    }

    /// Writes the operator's constants and nodes to the context.
    pub fn emit(&self, ctx: &mut OnnxEmitCtx, inputs: &Vec<String>, outputs: &Vec<String>) -> (r: Result<(), GraphError>)
        requires
            inputs@.len() >= 1,
            outputs@.len() >= 1,
            old(ctx).window_size <= i64::MAX,
        ensures
            r is Ok,
            emitted(
                *old(ctx),
                *final(ctx),
                self.inits(old(ctx).window_size as int, outputs@[0]@),
                self.nodes(texts(inputs@), outputs@[0]@),
            ),
    {
        let ghost g0 = ctx.graph@;
        let out: &str = outputs[0].as_str();
        ctx.push_node(onnx_node("Abs", join2("abs_", out), one(inputs[0].clone()), out.to_owned()));
        assert(ctx.graph@ =~= g0.plus(
            self.inits(old(ctx).window_size as int, outputs@[0]@),
            self.nodes(texts(inputs@), outputs@[0]@),
        ));
        Ok(())
    }
}

/// Negated value.
#[derive(Clone, Copy, Debug, PartialEq, Eq, Structural)]
pub struct Neg;

impl Neg {
    /// The constants that the operator adds.
    pub open spec fn inits(self, ws: int, out: Seq<char>) -> Seq<InitView> {
        Seq::empty()
    }

    /// The nodes that the operator adds.
    pub open spec fn nodes(self, x: Seq<Seq<char>>, out: Seq<char>) -> Seq<NodeView> {
        seq![plain_node("Neg"@, named("neg_", out), seq![x[0]], out)]
    }

    /// Writes the operator's constants and nodes to the context.
    pub fn emit(&self, ctx: &mut OnnxEmitCtx, inputs: &Vec<String>, outputs: &Vec<String>) -> (r: Result<(), GraphError>)
        requires
            inputs@.len() >= 1,
            outputs@.len() >= 1,
            old(ctx).window_size <= i64::MAX,
        ensures
            r is Ok,
            emitted(
                *old(ctx),
                *final(ctx),
                self.inits(old(ctx).window_size as int, outputs@[0]@),
                self.nodes(texts(inputs@), outputs@[0]@),
            ),
    {
        let ghost g0 = ctx.graph@;
        let out: &str = outputs[0].as_str();
        ctx.push_node(onnx_node("Neg", join2("neg_", out), one(inputs[0].clone()), out.to_owned()));
        assert(ctx.graph@ =~= g0.plus(
            self.inits(old(ctx).window_size as int, outputs@[0]@),
            self.nodes(texts(inputs@), outputs@[0]@),
        ));
        Ok(())
    }
}

/// Logistic function.
#[derive(Clone, Copy, Debug, PartialEq, Eq, Structural)]
pub struct Sigmoid;

impl Sigmoid {
    /// The constants that the operator adds.
    pub open spec fn inits(self, ws: int, out: Seq<char>) -> Seq<InitView> {
        Seq::empty()
    }

    /// The nodes that the operator adds.
    pub open spec fn nodes(self, x: Seq<Seq<char>>, out: Seq<char>) -> Seq<NodeView> {
        seq![plain_node("Sigmoid"@, named("sig_", out), seq![x[0]], out)]
    }

    /// Writes the operator's constants and nodes to the context.
    pub fn emit(&self, ctx: &mut OnnxEmitCtx, inputs: &Vec<String>, outputs: &Vec<String>) -> (r: Result<(), GraphError>)
        requires
            inputs@.len() >= 1,
            outputs@.len() >= 1,
            old(ctx).window_size <= i64::MAX,
        ensures
            r is Ok,
            emitted(
                *old(ctx),
                *final(ctx),
                self.inits(old(ctx).window_size as int, outputs@[0]@),
                self.nodes(texts(inputs@), outputs@[0]@),
            ),
    {
        let ghost g0 = ctx.graph@;
        let out: &str = outputs[0].as_str();
        ctx.push_node(onnx_node("Sigmoid", join2("sig_", out), one(inputs[0].clone()), out.to_owned()));
        assert(ctx.graph@ =~= g0.plus(
            self.inits(old(ctx).window_size as int, outputs@[0]@),
            self.nodes(texts(inputs@), outputs@[0]@),
        ));
        Ok(())
    }
}

/// The last entry of a series.
#[derive(Clone, Copy, Debug, PartialEq, Eq, Structural)]
pub struct Last;

impl Last {
    /// The constants that the operator adds.
    pub open spec fn inits(self, ws: int, out: Seq<char>) -> Seq<InitView> {
        seq![init_view(named("w_last_", out), ws, 1, DataView::Whole(last_weights(ws)))]
    }

    /// The nodes that the operator adds.
    pub open spec fn nodes(self, x: Seq<Seq<char>>, out: Seq<char>) -> Seq<NodeView> {
        seq![plain_node("MatMul"@, named("mm_last_", out), seq![x[0], named("w_last_", out)], out)]
    }

    /// Writes the operator's constants and nodes to the context.
    pub fn emit(&self, ctx: &mut OnnxEmitCtx, inputs: &Vec<String>, outputs: &Vec<String>) -> (r: Result<(), GraphError>)
        requires
            inputs@.len() >= 1,
            outputs@.len() >= 1,
            old(ctx).window_size <= i64::MAX,
        ensures
            r is Ok,
            emitted(
                *old(ctx),
                *final(ctx),
                self.inits(old(ctx).window_size as int, outputs@[0]@),
                self.nodes(texts(inputs@), outputs@[0]@),
            ),
    {
        let ghost g0 = ctx.graph@;
        let out: &str = outputs[0].as_str();
        let ws: usize = ctx.window_size();
        ctx.push_initializer(onnx_initializer(join2("w_last_", out), ws as i64, 1, TensorData::Whole(extract_w(ws))));
        ctx.push_node(onnx_node("MatMul", join2("mm_last_", out), two(inputs[0].clone(), join2("w_last_", out)), out.to_owned()));
        assert(ctx.graph@ =~= g0.plus(
            self.inits(old(ctx).window_size as int, outputs@[0]@),
            self.nodes(texts(inputs@), outputs@[0]@),
        ));
        Ok(())
    }
}

/// Rate of change of a series: `(last - ago) / ago`.
#[derive(Clone, Copy, Debug, PartialEq, Eq, Structural)]
pub struct Roc {
    pub period: usize,
}

impl Roc {
    /// The constants that the operator adds.
    pub open spec fn inits(self, ws: int, out: Seq<char>) -> Seq<InitView> {
        seq![
            init_view(named("w_last_", out), ws, 1, DataView::Whole(last_weights(ws))),
            init_view(named("w_roc_", out), ws, 1, DataView::Whole(lag_weights(ws, self.period as int))),
        ]
    }

    /// The nodes that the operator adds.
    pub open spec fn nodes(self, x: Seq<Seq<char>>, out: Seq<char>) -> Seq<NodeView> {
        seq![
            plain_node("MatMul"@, named("rl_", out), seq![x[0], named("w_last_", out)], named("rl_", out)),
            plain_node("MatMul"@, named("ra_", out), seq![x[0], named("w_roc_", out)], named("ra_", out)),
            plain_node("Sub"@, named("rd_", out), seq![named("rl_", out), named("ra_", out)], named("rd_", out)),
            plain_node("Div"@, named("rdiv_", out), seq![named("rd_", out), named("ra_", out)], out),
        ]
    }

    /// Writes the operator's constants and nodes to the context.
    pub fn emit(&self, ctx: &mut OnnxEmitCtx, inputs: &Vec<String>, outputs: &Vec<String>) -> (r: Result<(), GraphError>)
        requires
            inputs@.len() >= 1,
            outputs@.len() >= 1,
            old(ctx).window_size <= i64::MAX,
        ensures
            r is Ok,
            emitted(
                *old(ctx),
                *final(ctx),
                self.inits(old(ctx).window_size as int, outputs@[0]@),
                self.nodes(texts(inputs@), outputs@[0]@),
            ),
    {
        let ghost g0 = ctx.graph@;
        let out: &str = outputs[0].as_str();
        let ws: usize = ctx.window_size();
        ctx.push_initializer(onnx_initializer(join2("w_last_", out), ws as i64, 1, TensorData::Whole(extract_w(ws))));
        ctx.push_initializer(onnx_initializer(join2("w_roc_", out), ws as i64, 1, TensorData::Whole(roc_prev_w(ws, self.period))));
        ctx.push_node(onnx_node("MatMul", join2("rl_", out), two(inputs[0].clone(), join2("w_last_", out)), join2("rl_", out)));
        ctx.push_node(onnx_node("MatMul", join2("ra_", out), two(inputs[0].clone(), join2("w_roc_", out)), join2("ra_", out)));
        ctx.push_node(onnx_node("Sub", join2("rd_", out), two(join2("rl_", out), join2("ra_", out)), join2("rd_", out)));
        ctx.push_node(onnx_node("Div", join2("rdiv_", out), two(join2("rd_", out), join2("ra_", out)), out.to_owned()));
        assert(ctx.graph@ =~= g0.plus(
            self.inits(old(ctx).window_size as int, outputs@[0]@),
            self.nodes(texts(inputs@), outputs@[0]@),
        ));
        Ok(())
    }
}

/// Exponential moving average of a series.
#[derive(Clone, Copy, Debug, PartialEq, Eq, Structural)]
pub struct Ema {
    pub period: usize,
}

impl Ema {
    /// The constants that the operator adds.
    pub open spec fn inits(self, ws: int, out: Seq<char>) -> Seq<InitView> {
        seq![init_view(named("w_ema_", out), ws, 1, DataView::Ema(self.period))]
    }

    /// The nodes that the operator adds.
    pub open spec fn nodes(self, x: Seq<Seq<char>>, out: Seq<char>) -> Seq<NodeView> {
        seq![plain_node("MatMul"@, named("ema_", out), seq![x[0], named("w_ema_", out)], out)]
    }

    /// Writes the operator's constants and nodes to the context.
    pub fn emit(&self, ctx: &mut OnnxEmitCtx, inputs: &Vec<String>, outputs: &Vec<String>) -> (r: Result<(), GraphError>)
        requires
            inputs@.len() >= 1,
            outputs@.len() >= 1,
            old(ctx).window_size <= i64::MAX,
        ensures
            r is Ok,
            emitted(
                *old(ctx),
                *final(ctx),
                self.inits(old(ctx).window_size as int, outputs@[0]@),
                self.nodes(texts(inputs@), outputs@[0]@),
            ),
    {
        let ghost g0 = ctx.graph@;
        let out: &str = outputs[0].as_str();
        let ws: usize = ctx.window_size();
        ctx.push_initializer(onnx_initializer(join2("w_ema_", out), ws as i64, 1, TensorData::Ema(self.period)));
        ctx.push_node(onnx_node("MatMul", join2("ema_", out), two(inputs[0].clone(), join2("w_ema_", out)), out.to_owned()));
        assert(ctx.graph@ =~= g0.plus(
            self.inits(old(ctx).window_size as int, outputs@[0]@),
            self.nodes(texts(inputs@), outputs@[0]@),
        ));
        Ok(())
    }
}

/// Simple moving average of a series.
#[derive(Clone, Copy, Debug, PartialEq, Eq, Structural)]
pub struct Ma {
    pub period: usize,
}

impl Ma {
    /// The constants that the operator adds.
    pub open spec fn inits(self, ws: int, out: Seq<char>) -> Seq<InitView> {
        seq![init_view(named("w_ma_", out), ws, 1, DataView::Sma(self.period))]
    }

    /// The nodes that the operator adds.
    pub open spec fn nodes(self, x: Seq<Seq<char>>, out: Seq<char>) -> Seq<NodeView> {
        seq![plain_node("MatMul"@, named("ma_", out), seq![x[0], named("w_ma_", out)], out)]
    }

    /// Writes the operator's constants and nodes to the context.
    pub fn emit(&self, ctx: &mut OnnxEmitCtx, inputs: &Vec<String>, outputs: &Vec<String>) -> (r: Result<(), GraphError>)
        requires
            inputs@.len() >= 1,
            outputs@.len() >= 1,
            old(ctx).window_size <= i64::MAX,
        ensures
            r is Ok,
            emitted(
                *old(ctx),
                *final(ctx),
                self.inits(old(ctx).window_size as int, outputs@[0]@),
                self.nodes(texts(inputs@), outputs@[0]@),
            ),
    {
        let ghost g0 = ctx.graph@;
        let out: &str = outputs[0].as_str();
        let ws: usize = ctx.window_size();
        ctx.push_initializer(onnx_initializer(join2("w_ma_", out), ws as i64, 1, TensorData::Sma(self.period)));
        ctx.push_node(onnx_node("MatMul", join2("ma_", out), two(inputs[0].clone(), join2("w_ma_", out)), out.to_owned()));
        assert(ctx.graph@ =~= g0.plus(
            self.inits(old(ctx).window_size as int, outputs@[0]@),
            self.nodes(texts(inputs@), outputs@[0]@),
        ));
        Ok(())
    }
}

/// Relative strength index of closes against previous closes, in `[0, 1]`.
#[derive(Clone, Copy, Debug, PartialEq, Eq, Structural)]
pub struct Rsi {
    pub period: usize,
}

impl Rsi {
    /// The constants that the operator adds.
    pub open spec fn inits(self, ws: int, out: Seq<char>) -> Seq<InitView> {
        seq![
            init_view(named("w_rsi_", out), ws, 1, DataView::Rsi(self.period)),
            init_view(named("zero_", out), 1, ws, DataView::Whole(banded(ws as nat, 0, 0, 0, 0))),
        ]
    }

    /// The nodes that the operator adds.
    pub open spec fn nodes(self, x: Seq<Seq<char>>, out: Seq<char>) -> Seq<NodeView> {
        seq![
            plain_node("Sub"@, named("rsi_diff_", out), seq![x[0], x[1]], named("rsi_diff_", out)),
            plain_node("Max"@, named("rsi_gains_", out), seq![named("rsi_diff_", out), named("zero_", out)], named("rsi_gains_", out)),
            plain_node("Neg"@, named("rsi_neg_", out), seq![named("rsi_diff_", out)], named("rsi_neg_", out)),
            plain_node("Max"@, named("rsi_loss_", out), seq![named("rsi_neg_", out), named("zero_", out)], named("rsi_loss_", out)),
            plain_node("MatMul"@, named("rsi_ag_", out), seq![named("rsi_gains_", out), named("w_rsi_", out)], named("rsi_ag_", out)),
            plain_node("MatMul"@, named("rsi_al_", out), seq![named("rsi_loss_", out), named("w_rsi_", out)], named("rsi_al_", out)),
            plain_node("Add"@, named("rsi_den_", out), seq![named("rsi_ag_", out), named("rsi_al_", out)], named("rsi_den_", out)),
            plain_node("Div"@, named("rsi_raw_", out), seq![named("rsi_ag_", out), named("rsi_den_", out)], out),
        ]
    }

    /// Writes the operator's constants and nodes to the context.
    pub fn emit(&self, ctx: &mut OnnxEmitCtx, inputs: &Vec<String>, outputs: &Vec<String>) -> (r: Result<(), GraphError>)
        requires
            inputs@.len() >= 2,
            outputs@.len() >= 1,
            old(ctx).window_size <= i64::MAX,
        ensures
            r is Ok,
            emitted(
                *old(ctx),
                *final(ctx),
                self.inits(old(ctx).window_size as int, outputs@[0]@),
                self.nodes(texts(inputs@), outputs@[0]@),
            ),
    {
        let ghost g0 = ctx.graph@;
        let out: &str = outputs[0].as_str();
        let ws: usize = ctx.window_size();
        ctx.push_initializer(onnx_initializer(join2("w_rsi_", out), ws as i64, 1, TensorData::Rsi(self.period)));
        ctx.push_initializer(onnx_initializer(join2("zero_", out), 1, ws as i64, TensorData::Whole(band(ws, 0, 0, 0, 0))));
        ctx.push_node(onnx_node("Sub", join2("rsi_diff_", out), two(inputs[0].clone(), inputs[1].clone()), join2("rsi_diff_", out)));
        ctx.push_node(onnx_node("Max", join2("rsi_gains_", out), two(join2("rsi_diff_", out), join2("zero_", out)), join2("rsi_gains_", out)));
        ctx.push_node(onnx_node("Neg", join2("rsi_neg_", out), one(join2("rsi_diff_", out)), join2("rsi_neg_", out)));
        ctx.push_node(onnx_node("Max", join2("rsi_loss_", out), two(join2("rsi_neg_", out), join2("zero_", out)), join2("rsi_loss_", out)));
        ctx.push_node(onnx_node("MatMul", join2("rsi_ag_", out), two(join2("rsi_gains_", out), join2("w_rsi_", out)), join2("rsi_ag_", out)));
        ctx.push_node(onnx_node("MatMul", join2("rsi_al_", out), two(join2("rsi_loss_", out), join2("w_rsi_", out)), join2("rsi_al_", out)));
        ctx.push_node(onnx_node("Add", join2("rsi_den_", out), two(join2("rsi_ag_", out), join2("rsi_al_", out)), join2("rsi_den_", out)));
        ctx.push_node(onnx_node("Div", join2("rsi_raw_", out), two(join2("rsi_ag_", out), join2("rsi_den_", out)), out.to_owned()));
        assert(ctx.graph@ =~= g0.plus(
            self.inits(old(ctx).window_size as int, outputs@[0]@),
            self.nodes(texts(inputs@), outputs@[0]@),
        ));
        Ok(())
    }
}

/// Average true range of highs, lows and previous closes.
#[derive(Clone, Copy, Debug, PartialEq, Eq, Structural)]
pub struct Atr {
    pub period: usize,
}

impl Atr {
    /// The constants that the operator adds.
    pub open spec fn inits(self, ws: int, out: Seq<char>) -> Seq<InitView> {
        seq![init_view(named("w_atr_", out), ws, 1, DataView::Ema(self.period))]
    }

    /// The nodes that the operator adds.
    pub open spec fn nodes(self, x: Seq<Seq<char>>, out: Seq<char>) -> Seq<NodeView> {
        seq![
            plain_node("Sub"@, named("ahl_", out), seq![x[0], x[1]], named("ahl_", out)),
            plain_node("Sub"@, named("ahmpc_", out), seq![x[0], x[2]], named("ahmpc_", out)),
            plain_node("Abs"@, named("aahmpc_", out), seq![named("ahmpc_", out)], named("aahmpc_", out)),
            plain_node("Sub"@, named("almpc_", out), seq![x[1], x[2]], named("almpc_", out)),
            plain_node("Abs"@, named("aalmpc_", out), seq![named("almpc_", out)], named("aalmpc_", out)),
            plain_node("Max"@, named("am1_", out), seq![named("ahl_", out), named("aahmpc_", out)], named("am1_", out)),
            plain_node("Max"@, named("atr_tr_", out), seq![named("am1_", out), named("aalmpc_", out)], named("atr_tr_", out)),
            plain_node("MatMul"@, named("amm_", out), seq![named("atr_tr_", out), named("w_atr_", out)], out),
        ]
    }

    /// Writes the operator's constants and nodes to the context.
    pub fn emit(&self, ctx: &mut OnnxEmitCtx, inputs: &Vec<String>, outputs: &Vec<String>) -> (r: Result<(), GraphError>)
        requires
            inputs@.len() >= 3,
            outputs@.len() >= 1,
            old(ctx).window_size <= i64::MAX,
        ensures
            r is Ok,
            emitted(
                *old(ctx),
                *final(ctx),
                self.inits(old(ctx).window_size as int, outputs@[0]@),
                self.nodes(texts(inputs@), outputs@[0]@),
            ),
    {
        let ghost g0 = ctx.graph@;
        let out: &str = outputs[0].as_str();
        let ws: usize = ctx.window_size();
        ctx.push_initializer(onnx_initializer(join2("w_atr_", out), ws as i64, 1, TensorData::Ema(self.period)));
        ctx.push_node(onnx_node("Sub", join2("ahl_", out), two(inputs[0].clone(), inputs[1].clone()), join2("ahl_", out)));
        ctx.push_node(onnx_node("Sub", join2("ahmpc_", out), two(inputs[0].clone(), inputs[2].clone()), join2("ahmpc_", out)));
        ctx.push_node(onnx_node("Abs", join2("aahmpc_", out), one(join2("ahmpc_", out)), join2("aahmpc_", out)));
        ctx.push_node(onnx_node("Sub", join2("almpc_", out), two(inputs[1].clone(), inputs[2].clone()), join2("almpc_", out)));
        ctx.push_node(onnx_node("Abs", join2("aalmpc_", out), one(join2("almpc_", out)), join2("aalmpc_", out)));
        ctx.push_node(onnx_node("Max", join2("am1_", out), two(join2("ahl_", out), join2("aahmpc_", out)), join2("am1_", out)));
        ctx.push_node(onnx_node("Max", join2("atr_tr_", out), two(join2("am1_", out), join2("aalmpc_", out)), join2("atr_tr_", out)));
        ctx.push_node(onnx_node("MatMul", join2("amm_", out), two(join2("atr_tr_", out), join2("w_atr_", out)), out.to_owned()));
        assert(ctx.graph@ =~= g0.plus(
            self.inits(old(ctx).window_size as int, outputs@[0]@),
            self.nodes(texts(inputs@), outputs@[0]@),
        ));
        Ok(())
    }
}

/// Highest of the last `period` entries.
#[derive(Clone, Copy, Debug, PartialEq, Eq, Structural)]
pub struct DonchianHigh {
    pub period: usize,
}

impl DonchianHigh {
    /// The constants that the operator adds.
    pub open spec fn inits(self, ws: int, out: Seq<char>) -> Seq<InitView> {
        seq![init_view(named("mh_", out), 1, ws, DataView::Whole(tail_mask(ws, self.period as int)))]
    }

    /// The nodes that the operator adds.
    pub open spec fn nodes(self, x: Seq<Seq<char>>, out: Seq<char>) -> Seq<NodeView> {
        seq![
            plain_node("Mul"@, named("mhm_", out), seq![x[0], named("mh_", out)], named("mhm_", out)),
            reduce_node("ReduceMax"@, named("rmax_", out), seq![named("mhm_", out)], out),
        ]
    }

    /// Writes the operator's constants and nodes to the context.
    pub fn emit(&self, ctx: &mut OnnxEmitCtx, inputs: &Vec<String>, outputs: &Vec<String>) -> (r: Result<(), GraphError>)
        requires
            inputs@.len() >= 1,
            outputs@.len() >= 1,
            old(ctx).window_size <= i64::MAX,
        ensures
            r is Ok,
            emitted(
                *old(ctx),
                *final(ctx),
                self.inits(old(ctx).window_size as int, outputs@[0]@),
                self.nodes(texts(inputs@), outputs@[0]@),
            ),
    {
        let ghost g0 = ctx.graph@;
        let out: &str = outputs[0].as_str();
        let ws: usize = ctx.window_size();
        ctx.push_initializer(onnx_initializer(join2("mh_", out), 1, ws as i64, TensorData::Whole(mask_donchian(ws, self.period))));
        ctx.push_node(onnx_node("Mul", join2("mhm_", out), two(inputs[0].clone(), join2("mh_", out)), join2("mhm_", out)));
        ctx.push_node(onnx_reduce("ReduceMax", join2("rmax_", out), one(join2("mhm_", out)), out.to_owned()));
        assert(ctx.graph@ =~= g0.plus(
            self.inits(old(ctx).window_size as int, outputs@[0]@),
            self.nodes(texts(inputs@), outputs@[0]@),
        ));
        Ok(())
    }
}

/// Lowest of the last `period` entries.
#[derive(Clone, Copy, Debug, PartialEq, Eq, Structural)]
pub struct DonchianLow {
    pub period: usize,
}

impl DonchianLow {
    /// The constants that the operator adds.
    pub open spec fn inits(self, ws: int, out: Seq<char>) -> Seq<InitView> {
        seq![init_view(named("ml_", out), 1, ws, DataView::Whole(tail_complement(ws, self.period as int)))]
    }

    /// The nodes that the operator adds.
    pub open spec fn nodes(self, x: Seq<Seq<char>>, out: Seq<char>) -> Seq<NodeView> {
        seq![
            plain_node("Add"@, named("mlm_", out), seq![x[0], named("ml_", out)], named("mlm_", out)),
            reduce_node("ReduceMin"@, named("rmin_", out), seq![named("mlm_", out)], out),
        ]
    }

    /// Writes the operator's constants and nodes to the context.
    pub fn emit(&self, ctx: &mut OnnxEmitCtx, inputs: &Vec<String>, outputs: &Vec<String>) -> (r: Result<(), GraphError>)
        requires
            inputs@.len() >= 1,
            outputs@.len() >= 1,
            old(ctx).window_size <= i64::MAX,
        ensures
            r is Ok,
            emitted(
                *old(ctx),
                *final(ctx),
                self.inits(old(ctx).window_size as int, outputs@[0]@),
                self.nodes(texts(inputs@), outputs@[0]@),
            ),
    {
        let ghost g0 = ctx.graph@;
        let out: &str = outputs[0].as_str();
        let ws: usize = ctx.window_size();
        ctx.push_initializer(onnx_initializer(join2("ml_", out), 1, ws as i64, TensorData::Whole(mask_min_complement(ws, self.period))));
        ctx.push_node(onnx_node("Add", join2("mlm_", out), two(inputs[0].clone(), join2("ml_", out)), join2("mlm_", out)));
        ctx.push_node(onnx_reduce("ReduceMin", join2("rmin_", out), one(join2("mlm_", out)), out.to_owned()));
        assert(ctx.graph@ =~= g0.plus(
            self.inits(old(ctx).window_size as int, outputs@[0]@),
            self.nodes(texts(inputs@), outputs@[0]@),
        ));
        Ok(())
    }
}

/// Joins values along an axis.
#[derive(Clone, Copy, Debug, PartialEq, Eq, Structural)]
pub struct Concat {
    pub axis: i64,
}

impl Concat {
    /// The constants that the operator adds.
    pub open spec fn inits(self, ws: int, out: Seq<char>) -> Seq<InitView> {
        Seq::empty()
    }

    /// The nodes that the operator adds.
    pub open spec fn nodes(self, x: Seq<Seq<char>>, out: Seq<char>) -> Seq<NodeView> {
        seq![
            NodeView {
                op_type: "Concat"@,
                name: named("concat_", out),
                input: x,
                output: seq![out],
                attribute: seq![AttrView::Int { name: "axis"@, value: self.axis }],
            },
        ]
    }

    /// Writes the operator's constants and nodes to the context.
    pub fn emit(&self, ctx: &mut OnnxEmitCtx, inputs: &Vec<String>, outputs: &Vec<String>) -> (r: Result<(), GraphError>)
        requires
            inputs@.len() >= 0,
            outputs@.len() >= 1,
            old(ctx).window_size <= i64::MAX,
        ensures
            r is Ok,
            emitted(
                *old(ctx),
                *final(ctx),
                self.inits(old(ctx).window_size as int, outputs@[0]@),
                self.nodes(texts(inputs@), outputs@[0]@),
            ),
    {
        let ghost g0 = ctx.graph@;
        let out: &str = outputs[0].as_str();
        let mut attribute: Vec<Attr> = Vec::new();
        attribute.push(Attr::Int { name: "axis".to_owned(), value: self.axis });
        let mut input: Vec<String> = Vec::new();
        let mut i: usize = 0;
        while i < inputs.len()
            invariant
                i <= inputs@.len(),
                texts(input@) == texts(inputs@).take(i as int),
            decreases inputs@.len() - i,
        {
            let ghost before = input@;
            input.push(inputs[i].clone());
            assert(texts(input@) =~= texts(before).push(inputs@[i as int]@));
            i += 1;
            assert(texts(inputs@).take(i as int) =~= texts(inputs@).take(i - 1).push(inputs@[i - 1]@));
        }
        assert(texts(inputs@).take(i as int) =~= texts(inputs@));
        let node = OnnxNode {
            op_type: "Concat".to_owned(),
            name: join2("concat_", out),
            input,
            output: one(out.to_owned()),
            attribute,
        };
        assert(node@.attribute =~= seq![AttrView::Int { name: "axis"@, value: self.axis }]);
        ctx.push_node(node);
        assert(ctx.graph@ =~= g0.plus(
            self.inits(old(ctx).window_size as int, outputs@[0]@),
            self.nodes(texts(inputs@), outputs@[0]@),
        ));
        Ok(())
    }
}

/// Prediction head: the features times learned weights plus learned biases,
/// through the logistic function. The graph compiler writes it, because it
/// adds graph inputs too.
#[derive(Clone, Copy, Debug, PartialEq, Eq, Structural)]
pub struct Head {
    pub n_feat: usize,
    pub n_out: usize,
}

} // verus!
