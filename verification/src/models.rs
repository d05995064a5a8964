//! The three hand-written models: each an ONNX graph over closes, highs, lows
//! and previous closes, ending in the prediction head.
use vstd::prelude::*;
use vstd::string::*;

use crate::arith::{calculate, calculates, difference, logarithm, quotient, Calculation, ONE_BITS};
use crate::extractor::OhlcvExtractor;
use crate::graph::ctx::OnnxEmitCtx;
use crate::graph::onnx::{
    init_view, one, onnx_initializer, onnx_node, onnx_reduce, onnx_value_info, plain_node, reduce_node, two, value_views,
    Attr, AttrView, DataView, GraphView, InitView, Initializer, NodeView, OnnxGraph, OnnxNode, TensorData, ValueInfo,
    ValueView,
};
use crate::graph::ops::{band, banded, extract_w, last_weights};
use crate::num::Num;
use crate::text::texts;

verus! {

/// The number of grid parameters that every model puts out.
pub const NUM_GRID_PARAMS: usize = 8;

/// Version of the intermediate representation that the models are written in.
pub const IR_VERSION: i64 = 9;

/// Version of the operator set that the models use.
pub const OPSET_VERSION: i64 = 21;

/// Bit pattern of the largest single-precision number.
pub const LARGEST_SINGLE: u32 = 0x7F7F_FFFF;

/// A model: its graph and the weights and biases it was made with.
#[derive(Debug)]
pub struct OnnxModel {
    pub graph: OnnxGraph,
    pub default_w: Vec<Num>,
    pub default_b: Vec<Num>,
}

/// A node named after the one value it computes.
pub open spec fn op_node(op: Seq<char>, input: Seq<Seq<char>>, out: Seq<char>) -> NodeView {
    plain_node(op, out, input, out)
}

/// A concatenation along axis 1, named after the value it computes.
pub open spec fn concat_node(input: Seq<Seq<char>>, out: Seq<char>) -> NodeView {
    NodeView {
        op_type: "Concat"@,
        name: out,
        input,
        output: seq![out],
        attribute: seq![AttrView::Int { name: "axis"@, value: 1 }],
    }
}

/// The graph inputs of every model.
pub open spec fn model_inputs(ws: usize, n_feat: int) -> Seq<ValueView> {
    seq![
        ValueView { name: "closes"@, batch: 1, width: ws as i64 },
        ValueView { name: "highs"@, batch: 1, width: ws as i64 },
        ValueView { name: "lows"@, batch: 1, width: ws as i64 },
        ValueView { name: "prev_closes"@, batch: 1, width: ws as i64 },
        ValueView { name: "W_pred_flat"@, batch: 1, width: (n_feat * NUM_GRID_PARAMS) as i64 },
        ValueView { name: "B_pred"@, batch: 1, width: NUM_GRID_PARAMS as i64 },
    ]
}

/// The shape of the head's weights.
pub open spec fn head_shape(n_feat: int) -> InitView {
    InitView {
        name: "reshape_shape"@,
        dims: seq![2i64],
        data: DataView::Shape(seq![n_feat as i64, NUM_GRID_PARAMS as i64]),
    }
}

/// Single-precision patterns: zero from `from` up to `to`, the largest number
/// elsewhere.
pub open spec fn zero_band(ws: nat, from: int, to: int) -> Seq<u32> {
    Seq::new(ws, |i: int| if from <= i < to { 0u32 } else { LARGEST_SINGLE })
}

fn zero_band_of(ws: usize, from: usize, to: usize) -> (r: Vec<u32>)
    ensures
        r@ == zero_band(ws as nat, from as int, to as int),
{
    let mut v: Vec<u32> = Vec::new();
    let mut i: usize = 0;
    while i < ws
        invariant
            i <= ws,
            v@ == zero_band(ws as nat, from as int, to as int).take(i as int),
        decreases ws - i,
    {
        v.push(if from <= i && i < to { 0 } else { LARGEST_SINGLE });
        i += 1;
    }
    assert(v@ =~= zero_band(ws as nat, from as int, to as int));
    v
}

/// A graph with the inputs of every model and nothing else.
fn start(name: &str, ws: usize, n_feat: usize) -> (r: OnnxEmitCtx)
    requires
        ws <= i64::MAX,
        n_feat <= 64,
    ensures
        r.window_size == ws,
        r.graph@ == (GraphView {
            name: name@,
            input: model_inputs(ws, n_feat as int),
            initializer: Seq::empty(),
            node: Seq::empty(),
            output: Seq::empty(),
        }),
{
    let mut input: Vec<ValueInfo> = Vec::new();
    input.push(onnx_value_info("closes".to_owned(), 1, ws as i64));
    input.push(onnx_value_info("highs".to_owned(), 1, ws as i64));
    input.push(onnx_value_info("lows".to_owned(), 1, ws as i64));
    input.push(onnx_value_info("prev_closes".to_owned(), 1, ws as i64));
    input.push(onnx_value_info("W_pred_flat".to_owned(), 1, (n_feat * NUM_GRID_PARAMS) as i64));
    input.push(onnx_value_info("B_pred".to_owned(), 1, NUM_GRID_PARAMS as i64));
    let graph = OnnxGraph {
        name: name.to_owned(),
        input,
        initializer: Vec::new(),
        node: Vec::new(),
        output: Vec::new(),
    };
    assert(graph@ =~= (GraphView {
        name: name@,
        input: model_inputs(ws, n_feat as int),
        initializer: Seq::empty(),
        node: Seq::empty(),
        output: Seq::empty(),
    }));
    OnnxEmitCtx::new(graph, ws)
}

fn shape_init(n_feat: usize) -> (r: Initializer)
    requires
        n_feat <= 64,
    ensures
        r@ == head_shape(n_feat as int),
{
    let mut shape: Vec<i64> = Vec::new();
    shape.push(n_feat as i64);
    shape.push(NUM_GRID_PARAMS as i64);
    let mut dims: Vec<i64> = Vec::new();
    dims.push(2);
    assert(shape@ =~= seq![n_feat as i64, NUM_GRID_PARAMS as i64]);
    assert(dims@ =~= seq![2i64]);
    Initializer { name: "reshape_shape".to_owned(), dims, data: TensorData::Shape(shape) }
}

fn unary(ctx: &mut OnnxEmitCtx, op: &str, a: &str, out: &str)
    ensures
        final(ctx).graph@ == old(ctx).graph@.plus(Seq::empty(), seq![op_node(op@, seq![a@], out@)]),
        final(ctx).window_size == old(ctx).window_size,
{
    ctx.push_node(onnx_node(op, out.to_owned(), one(a.to_owned()), out.to_owned()));
}

fn binary(ctx: &mut OnnxEmitCtx, op: &str, a: &str, b: &str, out: &str)
    ensures
        final(ctx).graph@ == old(ctx).graph@.plus(Seq::empty(), seq![op_node(op@, seq![a@, b@], out@)]),
        final(ctx).window_size == old(ctx).window_size,
{
    ctx.push_node(onnx_node(op, out.to_owned(), two(a.to_owned(), b.to_owned()), out.to_owned()));
}

fn reduce(ctx: &mut OnnxEmitCtx, op: &str, a: &str, out: &str)
    ensures
        final(ctx).graph@ == old(ctx).graph@.plus(Seq::empty(), seq![reduce_node(op@, out@, seq![a@], out@)]),
        final(ctx).window_size == old(ctx).window_size,
{
    ctx.push_node(onnx_reduce(op, out.to_owned(), one(a.to_owned()), out.to_owned()));
}

fn concat(ctx: &mut OnnxEmitCtx, input: Vec<String>, out: &str)
    ensures
        final(ctx).graph@ == old(ctx).graph@.plus(Seq::empty(), seq![concat_node(texts(input@), out@)]),
        final(ctx).window_size == old(ctx).window_size,
{
    let mut attribute: Vec<Attr> = Vec::new();
    attribute.push(Attr::Int { name: "axis".to_owned(), value: 1 });
    let node = OnnxNode {
        op_type: "Concat".to_owned(),
        name: out.to_owned(),
        input,
        output: one(out.to_owned()),
        attribute,
    };
    assert(node@.attribute =~= seq![AttrView::Int { name: "axis"@, value: 1 }]);
    ctx.push_node(node);
}

fn declare_output(ctx: &mut OnnxEmitCtx, name: &str, width: i64)
    ensures
        final(ctx).graph@ == (GraphView {
            output: old(ctx).graph@.output.push(ValueView { name: name@, batch: 1, width }),
            ..old(ctx).graph@
        }),
        final(ctx).window_size == old(ctx).window_size,
{
    ctx.graph.output.push(onnx_value_info(name.to_owned(), 1, width));
    assert(value_views(ctx.graph.output@) =~= value_views(old(ctx).graph.output@).push(
        ValueView { name: name@, batch: 1, width },
    ));
    assert(ctx.graph@ =~= (GraphView {
        output: old(ctx).graph@.output.push(ValueView { name: name@, batch: 1, width }),
        ..old(ctx).graph@
    }));
}

/// The weights given, at the start, as many of them as there are features, and
/// zero everywhere else.
pub open spec fn first_output_weights(pred: Seq<Num>, n_feat: int) -> Seq<Num> {
    Seq::new(
        (n_feat * NUM_GRID_PARAMS) as nat,
        |i: int| if i < n_feat && i < pred.len() { pred[i] } else { Num { bits: 0 } },
    )
}

fn default_weights(pred: &Vec<Num>, n_feat: usize) -> (r: Vec<Num>)
    requires
        n_feat <= 64,
    ensures
        r@ == first_output_weights(pred@, n_feat as int),
{
    let mut w: Vec<Num> = Vec::new();
    let total: usize = n_feat * NUM_GRID_PARAMS;
    let mut i: usize = 0;
    while i < total
        invariant
            i <= total,
            total == n_feat * NUM_GRID_PARAMS,
            w@ == first_output_weights(pred@, n_feat as int).take(i as int),
        decreases total - i,
    {
        w.push(if i < n_feat && i < pred.len() { pred[i] } else { Num { bits: 0 } });
        i += 1;
    }
    assert(w@ =~= first_output_weights(pred@, n_feat as int));
    w
}

/// Single-precision 0.22
pub const P22_BITS: u64 = 0x3FCC_28F5_C000_0000;

/// Single-precision 0.05
pub const P05_BITS: u64 = 0x3FA9_9999_A000_0000;

/// Single-precision 0.78
pub const P78_BITS: u64 = 0x3FE8_F5C2_8000_0000;

/// Single-precision 0.35
pub const P35_BITS: u64 = 0x3FD6_6666_6000_0000;

/// Single-precision 0.65
pub const P65_BITS: u64 = 0x3FE4_CCCC_C000_0000;

/// What a sigmoid makes a probability of.
pub open spec fn sigmoid_inverse<F: Fn(Calculation) -> Num>(f: F, p: Num) -> Num {
    logarithm(f, quotient(f, p, difference(f, Num { bits: ONE_BITS }, p)))
}

/// The biases that make a model answer its usual grid parameters.
pub open spec fn usual_biases<F: Fn(Calculation) -> Num>(f: F, pred_bias: Num) -> Seq<Num> {
    seq![
        pred_bias,
        Num { bits: 0 },
        sigmoid_inverse(f, Num { bits: P22_BITS }),
        sigmoid_inverse(f, Num { bits: P05_BITS }),
        sigmoid_inverse(f, Num { bits: P78_BITS }),
        sigmoid_inverse(f, Num { bits: P35_BITS }),
        sigmoid_inverse(f, Num { bits: P65_BITS }),
        sigmoid_inverse(f, Num { bits: P22_BITS }),
    ]
}

fn sigmoid_inv<F: Fn(Calculation) -> Num>(f: &F, p: u64) -> (r: Num)
    requires
        calculates(*f),
    ensures
        r == sigmoid_inverse(*f, Num { bits: p }),
{
    let q = calculate(f, Calculation::Difference(Num { bits: ONE_BITS }, Num { bits: p }));
    let odds = calculate(f, Calculation::Quotient(Num { bits: p }, q));
    calculate(f, Calculation::Logarithm(odds))
}

fn default_biases<F: Fn(Calculation) -> Num>(f: &F, pred_bias: Num) -> (r: Vec<Num>)
    requires
        calculates(*f),
    ensures
        r@ == usual_biases(*f, pred_bias),
{
    let mut b: Vec<Num> = Vec::new();
    b.push(pred_bias);
    b.push(Num::zero());
    b.push(sigmoid_inv(f, P22_BITS));
    b.push(sigmoid_inv(f, P05_BITS));
    b.push(sigmoid_inv(f, P78_BITS));
    b.push(sigmoid_inv(f, P35_BITS));
    b.push(sigmoid_inv(f, P65_BITS));
    b.push(sigmoid_inv(f, P22_BITS));
    assert(b@ =~= usual_biases(*f, pred_bias));
    b
}

fn copy_of(v: &Vec<Num>) -> (r: Vec<Num>)
    ensures
        r@ == v@,
{
    let mut out: Vec<Num> = Vec::new();
    let mut i: usize = 0;
    while i < v.len()
        invariant
            i <= v@.len(),
            out@ == v@.take(i as int),
        decreases v@.len() - i,
    {
        out.push(v[i]);
        i += 1;
    }
    assert(out@ =~= v@);
    out
}

fn ohlcv(window: usize) -> (r: Vec<OhlcvExtractor>)
    ensures
        r@ == seq![OhlcvExtractor { window }],
{
    let mut v: Vec<OhlcvExtractor> = Vec::new();
    v.push(OhlcvExtractor { window });
    assert(v@ =~= seq![OhlcvExtractor { window }]);
    v
}

/// Exponential averages of two periods, the average true range and their difference, into the prediction head.
pub open spec fn trend_follower_graph(ema_fast_period: usize, ema_slow_period: usize, atr_period: usize, ws: usize) -> GraphView {
    GraphView {
        name: "TrendFollower"@,
        input: model_inputs(ws, 4),
        initializer: seq![
            init_view("W_ema_fast"@, ws as int, 1, DataView::Ema(ema_fast_period)),
            init_view("W_ema_slow"@, ws as int, 1, DataView::Ema(ema_slow_period)),
            init_view("W_atr"@, ws as int, 1, DataView::Ema(atr_period)),
            head_shape(4),
        ],
        node: seq![
            op_node("Reshape"@, seq!["W_pred_flat"@, "reshape_shape"@], "W_pred"@),
            op_node("MatMul"@, seq!["closes"@, "W_ema_fast"@], "ema_fast"@),
            op_node("MatMul"@, seq!["closes"@, "W_ema_slow"@], "ema_slow"@),
            op_node("Sub"@, seq!["highs"@, "lows"@], "hl"@),
            op_node("Sub"@, seq!["highs"@, "prev_closes"@], "hmpc"@),
            op_node("Abs"@, seq!["hmpc"@], "ahmpc"@),
            op_node("Sub"@, seq!["lows"@, "prev_closes"@], "lmpc"@),
            op_node("Abs"@, seq!["lmpc"@], "almpc"@),
            op_node("Max"@, seq!["hl"@, "ahmpc"@], "m1"@),
            op_node("Max"@, seq!["m1"@, "almpc"@], "tr"@),
            op_node("MatMul"@, seq!["tr"@, "W_atr"@], "atr_val"@),
            op_node("Sub"@, seq!["ema_fast"@, "ema_slow"@], "diff"@),
            concat_node(seq!["ema_fast"@, "ema_slow"@, "atr_val"@, "diff"@], "features"@),
            op_node("MatMul"@, seq!["features"@, "W_pred"@], "dot"@),
            op_node("Add"@, seq!["dot"@, "B_pred"@], "biased"@),
            op_node("Sigmoid"@, seq!["biased"@], "grid_params"@),
        ],
        output: seq![
            ValueView { name: "grid_params"@, batch: 1, width: 8 },
            ValueView { name: "atr_val"@, batch: 1, width: 1 },
        ],
    }
}

/// Exponential averages of two periods, the average true range and their difference, into the prediction head. The model keeps the weights `w` and biases `b` that it was made
/// with.
pub fn build_trend_follower_onnx_bytes(ema_fast_period: usize, ema_slow_period: usize, atr_period: usize, window_size: usize, w: &Vec<Num>, b: &Vec<Num>) -> (r: (OnnxModel, Vec<OhlcvExtractor>))
    requires
        w@.len() == 4 * NUM_GRID_PARAMS,
        b@.len() == NUM_GRID_PARAMS,
        window_size <= i64::MAX,
    ensures
        r.0.graph@ == trend_follower_graph(ema_fast_period, ema_slow_period, atr_period, window_size),
        r.0.default_w@ == w@,
        r.0.default_b@ == b@,
        r.1@ == seq![OhlcvExtractor { window: window_size }],
{
    let ws = window_size;
    let mut ctx = start("TrendFollower", ws, 4);
    ctx.push_initializer(onnx_initializer("W_ema_fast".to_owned(), ws as i64, 1, TensorData::Ema(ema_fast_period)));
    ctx.push_initializer(onnx_initializer("W_ema_slow".to_owned(), ws as i64, 1, TensorData::Ema(ema_slow_period)));
    ctx.push_initializer(onnx_initializer("W_atr".to_owned(), ws as i64, 1, TensorData::Ema(atr_period)));
    ctx.push_initializer(shape_init(4));
    binary(&mut ctx, "Reshape", "W_pred_flat", "reshape_shape", "W_pred");
    binary(&mut ctx, "MatMul", "closes", "W_ema_fast", "ema_fast");
    binary(&mut ctx, "MatMul", "closes", "W_ema_slow", "ema_slow");
    binary(&mut ctx, "Sub", "highs", "lows", "hl");
    binary(&mut ctx, "Sub", "highs", "prev_closes", "hmpc");
    unary(&mut ctx, "Abs", "hmpc", "ahmpc");
    binary(&mut ctx, "Sub", "lows", "prev_closes", "lmpc");
    unary(&mut ctx, "Abs", "lmpc", "almpc");
    binary(&mut ctx, "Max", "hl", "ahmpc", "m1");
    binary(&mut ctx, "Max", "m1", "almpc", "tr");
    binary(&mut ctx, "MatMul", "tr", "W_atr", "atr_val");
    binary(&mut ctx, "Sub", "ema_fast", "ema_slow", "diff");
    let mut joined: Vec<String> = Vec::new();
    joined.push("ema_fast".to_owned());
    joined.push("ema_slow".to_owned());
    joined.push("atr_val".to_owned());
    joined.push("diff".to_owned());
    assert(texts(joined@) =~= seq!["ema_fast"@, "ema_slow"@, "atr_val"@, "diff"@]);
    concat(&mut ctx, joined, "features");
    binary(&mut ctx, "MatMul", "features", "W_pred", "dot");
    binary(&mut ctx, "Add", "dot", "B_pred", "biased");
    unary(&mut ctx, "Sigmoid", "biased", "grid_params");
    declare_output(&mut ctx, "grid_params", 8);
    declare_output(&mut ctx, "atr_val", 1);
    assert(ctx.graph@ =~= trend_follower_graph(ema_fast_period, ema_slow_period, atr_period, window_size));
    (OnnxModel { graph: ctx.graph, default_w: copy_of(w), default_b: copy_of(b) }, ohlcv(window_size))
}

/// The model with one weight per feature and a bias for its first output, and the
/// usual biases for the others.
pub fn build_trend_follower_onnx_default<F: Fn(Calculation) -> Num>(ema_fast_period: usize, ema_slow_period: usize, atr_period: usize, window_size: usize, pred_weights: &Vec<Num>, pred_bias: Num, f: &F) -> (r: (OnnxModel, Vec<OhlcvExtractor>))
    requires
        calculates(*f),
        window_size <= i64::MAX,
    ensures
        r.0.graph@ == trend_follower_graph(ema_fast_period, ema_slow_period, atr_period, window_size),
        r.0.default_w@ == first_output_weights(pred_weights@, 4),
        r.0.default_b@ == usual_biases(*f, pred_bias),
        r.1@ == seq![OhlcvExtractor { window: window_size }],
{
    let w = default_weights(pred_weights, 4);
    let b = default_biases(f, pred_bias);
    build_trend_follower_onnx_bytes(ema_fast_period, ema_slow_period, atr_period, window_size, &w, &b)
}

/// The trend follower graph reads nothing before it is defined.
pub proof fn trend_follower_is_well_defined(ema_fast_period: usize, ema_slow_period: usize, atr_period: usize, ws: usize)
    ensures
        trend_follower_graph(ema_fast_period, ema_slow_period, atr_period, ws).defined_before_use(),
        trend_follower_graph(ema_fast_period, ema_slow_period, atr_period, ws).outputs_computed(),
{
    let g = trend_follower_graph(ema_fast_period, ema_slow_period, atr_period, ws);
    assert forall|k: int| 0 <= k < g.node.len() implies (#[trigger] g.node[k]).output.len() == 1
        && g.node[k].output.contains(g.node[k].output[0]) by {
    }
    assert forall|i: int, j: int| 0 <= i < g.node.len() && 0 <= j < g.node[i].input.len() implies ({
        let name = #[trigger] g.node[i].input[j];
        g.is_given(name) || g.is_computed(name, i)
    }) by {
        if i == 0 {
            assert(g.input[4].name == "W_pred_flat"@);
            assert(g.initializer[3].name == "reshape_shape"@);
        } else if i == 1 {
            assert(g.input[0].name == "closes"@);
            assert(g.initializer[0].name == "W_ema_fast"@);
        } else if i == 2 {
            assert(g.input[0].name == "closes"@);
            assert(g.initializer[1].name == "W_ema_slow"@);
        } else if i == 3 {
            assert(g.input[1].name == "highs"@);
            assert(g.input[2].name == "lows"@);
        } else if i == 4 {
            assert(g.input[1].name == "highs"@);
            assert(g.input[3].name == "prev_closes"@);
        } else if i == 5 {
            assert(g.node[4].output[0] == "hmpc"@);
        } else if i == 6 {
            assert(g.input[2].name == "lows"@);
            assert(g.input[3].name == "prev_closes"@);
        } else if i == 7 {
            assert(g.node[6].output[0] == "lmpc"@);
        } else if i == 8 {
            assert(g.node[3].output[0] == "hl"@);
            assert(g.node[5].output[0] == "ahmpc"@);
        } else if i == 9 {
            assert(g.node[8].output[0] == "m1"@);
            assert(g.node[7].output[0] == "almpc"@);
        } else if i == 10 {
            assert(g.node[9].output[0] == "tr"@);
            assert(g.initializer[2].name == "W_atr"@);
        } else if i == 11 {
            assert(g.node[1].output[0] == "ema_fast"@);
            assert(g.node[2].output[0] == "ema_slow"@);
        } else if i == 12 {
            assert(g.node[1].output[0] == "ema_fast"@);
            assert(g.node[2].output[0] == "ema_slow"@);
            assert(g.node[10].output[0] == "atr_val"@);
            assert(g.node[11].output[0] == "diff"@);
        } else if i == 13 {
            assert(g.node[12].output[0] == "features"@);
            assert(g.node[0].output[0] == "W_pred"@);
        } else if i == 14 {
            assert(g.node[13].output[0] == "dot"@);
            assert(g.input[5].name == "B_pred"@);
        } else {
            assert(g.node[14].output[0] == "biased"@);
        }
    }
    assert(g.node[15].output[0] == "grid_params"@);
    assert(g.node[10].output[0] == "atr_val"@);
}

/// The simple average, the relative strength index and the average true range, into the prediction head.
pub open spec fn mean_reversion_graph(ma_period: usize, rsi_period: usize, atr_period: usize, ws: usize) -> GraphView {
    GraphView {
        name: "MeanReversion"@,
        input: model_inputs(ws, 4),
        initializer: seq![
            init_view("W_sma"@, ws as int, 1, DataView::Sma(ma_period)),
            init_view("W_rsi"@, ws as int, 1, DataView::Rsi(rsi_period)),
            init_view("W_atr"@, ws as int, 1, DataView::Ema(atr_period)),
            init_view("W_extract"@, ws as int, 1, DataView::Whole(last_weights(ws as int))),
            head_shape(4),
            init_view("zero"@, 1, ws as int, DataView::Whole(banded(ws as nat, 0, 0, 0, 0))),
            init_view("hundred"@, 1, 1, DataView::Whole(banded(1, 0, 0, 0, 100))),
        ],
        node: seq![
            op_node("Reshape"@, seq!["W_pred_flat"@, "reshape_shape"@], "W_pred"@),
            op_node("MatMul"@, seq!["closes"@, "W_sma"@], "sma"@),
            op_node("MatMul"@, seq!["closes"@, "W_extract"@], "last_close"@),
            op_node("Sub"@, seq!["closes"@, "prev_closes"@], "diffs"@),
            op_node("Max"@, seq!["diffs"@, "zero"@], "gains"@),
            op_node("Neg"@, seq!["diffs"@], "neg_diffs"@),
            op_node("Max"@, seq!["neg_diffs"@, "zero"@], "losses"@),
            op_node("MatMul"@, seq!["gains"@, "W_rsi"@], "avg_gain"@),
            op_node("MatMul"@, seq!["losses"@, "W_rsi"@], "avg_loss"@),
            op_node("Add"@, seq!["avg_gain"@, "avg_loss"@], "denom"@),
            op_node("Div"@, seq!["avg_gain"@, "denom"@], "rsi_raw"@),
            op_node("Mul"@, seq!["rsi_raw"@, "hundred"@], "rsi"@),
            op_node("Sub"@, seq!["highs"@, "lows"@], "hl"@),
            op_node("Sub"@, seq!["highs"@, "prev_closes"@], "hmpc"@),
            op_node("Abs"@, seq!["hmpc"@], "ahmpc"@),
            op_node("Sub"@, seq!["lows"@, "prev_closes"@], "lmpc"@),
            op_node("Abs"@, seq!["lmpc"@], "almpc"@),
            op_node("Max"@, seq!["hl"@, "ahmpc"@], "m1"@),
            op_node("Max"@, seq!["m1"@, "almpc"@], "tr"@),
            op_node("MatMul"@, seq!["tr"@, "W_atr"@], "atr_val"@),
            op_node("Div"@, seq!["sma"@, "last_close"@], "sma_ratio"@),
            op_node("Div"@, seq!["rsi"@, "hundred"@], "rsi_norm"@),
            op_node("Div"@, seq!["atr_val"@, "last_close"@], "atr_norm"@),
            concat_node(seq!["sma_ratio"@, "rsi_norm"@, "atr_norm"@, "rsi_norm"@], "features"@),
            op_node("MatMul"@, seq!["features"@, "W_pred"@], "dot"@),
            op_node("Add"@, seq!["dot"@, "B_pred"@], "biased"@),
            op_node("Sigmoid"@, seq!["biased"@], "grid_params"@),
        ],
        output: seq![
            ValueView { name: "grid_params"@, batch: 1, width: 8 },
            ValueView { name: "atr_val"@, batch: 1, width: 1 },
            ValueView { name: "sma"@, batch: 1, width: 1 },
        ],
    }
}

/// The simple average, the relative strength index and the average true range, into the prediction head. The model keeps the weights `w` and biases `b` that it was made
/// with.
#[verifier::rlimit(40)]
pub fn build_mean_reversion_onnx_bytes(ma_period: usize, rsi_period: usize, atr_period: usize, window_size: usize, w: &Vec<Num>, b: &Vec<Num>) -> (r: (OnnxModel, Vec<OhlcvExtractor>))
    requires
        w@.len() == 4 * NUM_GRID_PARAMS,
        b@.len() == NUM_GRID_PARAMS,
        0 < window_size <= i64::MAX,
    ensures
        r.0.graph@ == mean_reversion_graph(ma_period, rsi_period, atr_period, window_size),
        r.0.default_w@ == w@,
        r.0.default_b@ == b@,
        r.1@ == seq![OhlcvExtractor { window: window_size }],
{
    let ws = window_size;
    let mut ctx = start("MeanReversion", ws, 4);
    ctx.push_initializer(onnx_initializer("W_sma".to_owned(), ws as i64, 1, TensorData::Sma(ma_period)));
    ctx.push_initializer(onnx_initializer("W_rsi".to_owned(), ws as i64, 1, TensorData::Rsi(rsi_period)));
    ctx.push_initializer(onnx_initializer("W_atr".to_owned(), ws as i64, 1, TensorData::Ema(atr_period)));
    ctx.push_initializer(onnx_initializer("W_extract".to_owned(), ws as i64, 1, TensorData::Whole(extract_w(ws))));
    ctx.push_initializer(shape_init(4));
    ctx.push_initializer(onnx_initializer("zero".to_owned(), 1, ws as i64, TensorData::Whole(band(ws, 0, 0, 0, 0))));
    ctx.push_initializer(onnx_initializer("hundred".to_owned(), 1, 1, TensorData::Whole(band(1, 0, 0, 0, 100))));
    assert(ctx.graph@.initializer =~= mean_reversion_graph(ma_period, rsi_period, atr_period, window_size).initializer);
    binary(&mut ctx, "Reshape", "W_pred_flat", "reshape_shape", "W_pred");
    binary(&mut ctx, "MatMul", "closes", "W_sma", "sma");
    binary(&mut ctx, "MatMul", "closes", "W_extract", "last_close");
    binary(&mut ctx, "Sub", "closes", "prev_closes", "diffs");
    binary(&mut ctx, "Max", "diffs", "zero", "gains");
    unary(&mut ctx, "Neg", "diffs", "neg_diffs");
    binary(&mut ctx, "Max", "neg_diffs", "zero", "losses");
    assert(ctx.graph@.node =~= mean_reversion_graph(ma_period, rsi_period, atr_period, window_size).node.take(7));
    binary(&mut ctx, "MatMul", "gains", "W_rsi", "avg_gain");
    binary(&mut ctx, "MatMul", "losses", "W_rsi", "avg_loss");
    binary(&mut ctx, "Add", "avg_gain", "avg_loss", "denom");
    binary(&mut ctx, "Div", "avg_gain", "denom", "rsi_raw");
    binary(&mut ctx, "Mul", "rsi_raw", "hundred", "rsi");
    binary(&mut ctx, "Sub", "highs", "lows", "hl");
    binary(&mut ctx, "Sub", "highs", "prev_closes", "hmpc");
    assert(ctx.graph@.node =~= mean_reversion_graph(ma_period, rsi_period, atr_period, window_size).node.take(14));
    unary(&mut ctx, "Abs", "hmpc", "ahmpc");
    binary(&mut ctx, "Sub", "lows", "prev_closes", "lmpc");
    unary(&mut ctx, "Abs", "lmpc", "almpc");
    binary(&mut ctx, "Max", "hl", "ahmpc", "m1");
    binary(&mut ctx, "Max", "m1", "almpc", "tr");
    binary(&mut ctx, "MatMul", "tr", "W_atr", "atr_val");
    binary(&mut ctx, "Div", "sma", "last_close", "sma_ratio");
    assert(ctx.graph@.node =~= mean_reversion_graph(ma_period, rsi_period, atr_period, window_size).node.take(21));
    binary(&mut ctx, "Div", "rsi", "hundred", "rsi_norm");
    binary(&mut ctx, "Div", "atr_val", "last_close", "atr_norm");
    let mut joined: Vec<String> = Vec::new();
    joined.push("sma_ratio".to_owned());
    joined.push("rsi_norm".to_owned());
    joined.push("atr_norm".to_owned());
    joined.push("rsi_norm".to_owned());
    assert(texts(joined@) =~= seq!["sma_ratio"@, "rsi_norm"@, "atr_norm"@, "rsi_norm"@]);
    concat(&mut ctx, joined, "features");
    binary(&mut ctx, "MatMul", "features", "W_pred", "dot");
    binary(&mut ctx, "Add", "dot", "B_pred", "biased");
    unary(&mut ctx, "Sigmoid", "biased", "grid_params");
    declare_output(&mut ctx, "grid_params", 8);
    declare_output(&mut ctx, "atr_val", 1);
    declare_output(&mut ctx, "sma", 1);
    assert(ctx.graph@ =~= mean_reversion_graph(ma_period, rsi_period, atr_period, window_size));
    (OnnxModel { graph: ctx.graph, default_w: copy_of(w), default_b: copy_of(b) }, ohlcv(window_size))
}

/// The model with one weight per feature and a bias for its first output, and the
/// usual biases for the others.
pub fn build_mean_reversion_onnx_default<F: Fn(Calculation) -> Num>(ma_period: usize, rsi_period: usize, atr_period: usize, window_size: usize, pred_weights: &Vec<Num>, pred_bias: Num, f: &F) -> (r: (OnnxModel, Vec<OhlcvExtractor>))
    requires
        calculates(*f),
        0 < window_size <= i64::MAX,
    ensures
        r.0.graph@ == mean_reversion_graph(ma_period, rsi_period, atr_period, window_size),
        r.0.default_w@ == first_output_weights(pred_weights@, 4),
        r.0.default_b@ == usual_biases(*f, pred_bias),
        r.1@ == seq![OhlcvExtractor { window: window_size }],
{
    let w = default_weights(pred_weights, 4);
    let b = default_biases(f, pred_bias);
    build_mean_reversion_onnx_bytes(ma_period, rsi_period, atr_period, window_size, &w, &b)
}

/// The mean reversion graph reads nothing before it is defined.
pub proof fn mean_reversion_is_well_defined(ma_period: usize, rsi_period: usize, atr_period: usize, ws: usize)
    ensures
        mean_reversion_graph(ma_period, rsi_period, atr_period, ws).defined_before_use(),
        mean_reversion_graph(ma_period, rsi_period, atr_period, ws).outputs_computed(),
{
    let g = mean_reversion_graph(ma_period, rsi_period, atr_period, ws);
    assert forall|k: int| 0 <= k < g.node.len() implies (#[trigger] g.node[k]).output.len() == 1
        && g.node[k].output.contains(g.node[k].output[0]) by {
    }
    assert forall|i: int, j: int| 0 <= i < g.node.len() && 0 <= j < g.node[i].input.len() implies ({
        let name = #[trigger] g.node[i].input[j];
        g.is_given(name) || g.is_computed(name, i)
    }) by {
        if i == 0 {
            assert(g.input[4].name == "W_pred_flat"@);
            assert(g.initializer[4].name == "reshape_shape"@);
        } else if i == 1 {
            assert(g.input[0].name == "closes"@);
            assert(g.initializer[0].name == "W_sma"@);
        } else if i == 2 {
            assert(g.input[0].name == "closes"@);
            assert(g.initializer[3].name == "W_extract"@);
        } else if i == 3 {
            assert(g.input[0].name == "closes"@);
            assert(g.input[3].name == "prev_closes"@);
        } else if i == 4 {
            assert(g.node[3].output[0] == "diffs"@);
            assert(g.initializer[5].name == "zero"@);
        } else if i == 5 {
            assert(g.node[3].output[0] == "diffs"@);
        } else if i == 6 {
            assert(g.node[5].output[0] == "neg_diffs"@);
            assert(g.initializer[5].name == "zero"@);
        } else if i == 7 {
            assert(g.node[4].output[0] == "gains"@);
            assert(g.initializer[1].name == "W_rsi"@);
        } else if i == 8 {
            assert(g.node[6].output[0] == "losses"@);
            assert(g.initializer[1].name == "W_rsi"@);
        } else if i == 9 {
            assert(g.node[7].output[0] == "avg_gain"@);
            assert(g.node[8].output[0] == "avg_loss"@);
        } else if i == 10 {
            assert(g.node[7].output[0] == "avg_gain"@);
            assert(g.node[9].output[0] == "denom"@);
        } else if i == 11 {
            assert(g.node[10].output[0] == "rsi_raw"@);
            assert(g.initializer[6].name == "hundred"@);
        } else if i == 12 {
            assert(g.input[1].name == "highs"@);
            assert(g.input[2].name == "lows"@);
        } else if i == 13 {
            assert(g.input[1].name == "highs"@);
            assert(g.input[3].name == "prev_closes"@);
        } else if i == 14 {
            assert(g.node[13].output[0] == "hmpc"@);
        } else if i == 15 {
            assert(g.input[2].name == "lows"@);
            assert(g.input[3].name == "prev_closes"@);
        } else if i == 16 {
            assert(g.node[15].output[0] == "lmpc"@);
        } else if i == 17 {
            assert(g.node[12].output[0] == "hl"@);
            assert(g.node[14].output[0] == "ahmpc"@);
        } else if i == 18 {
            assert(g.node[17].output[0] == "m1"@);
            assert(g.node[16].output[0] == "almpc"@);
        } else if i == 19 {
            assert(g.node[18].output[0] == "tr"@);
            assert(g.initializer[2].name == "W_atr"@);
        } else if i == 20 {
            assert(g.node[1].output[0] == "sma"@);
            assert(g.node[2].output[0] == "last_close"@);
        } else if i == 21 {
            assert(g.node[11].output[0] == "rsi"@);
            assert(g.initializer[6].name == "hundred"@);
        } else if i == 22 {
            assert(g.node[19].output[0] == "atr_val"@);
            assert(g.node[2].output[0] == "last_close"@);
        } else if i == 23 {
            assert(g.node[20].output[0] == "sma_ratio"@);
            assert(g.node[21].output[0] == "rsi_norm"@);
            assert(g.node[22].output[0] == "atr_norm"@);
            assert(g.node[21].output[0] == "rsi_norm"@);
        } else if i == 24 {
            assert(g.node[23].output[0] == "features"@);
            assert(g.node[0].output[0] == "W_pred"@);
        } else if i == 25 {
            assert(g.node[24].output[0] == "dot"@);
            assert(g.input[5].name == "B_pred"@);
        } else {
            assert(g.node[25].output[0] == "biased"@);
        }
    }
    assert(g.node[26].output[0] == "grid_params"@);
    assert(g.node[19].output[0] == "atr_val"@);
    assert(g.node[1].output[0] == "sma"@);
}

/// Position `period + 1` entries before the end of a window, or its start.
pub open spec fn before_last(ws: usize, period: usize) -> int {
    if ws >= period + 1 {
        ws - period - 1
    } else {
        0
    }
}

/// The Donchian channel, the rate of change and the average true range, into the
/// prediction head. The weights `w` and the biases `b` of the head are inputs with
/// these values as defaults.
pub open spec fn momentum_breakout_graph(
    donchian_period: usize,
    momentum_period: usize,
    atr_period: usize,
    ws: usize,
    w: Seq<Num>,
    b: Seq<Num>,
) -> GraphView {
    GraphView {
        name: "MomentumBreakout"@,
        input: model_inputs(ws, 2),
        initializer: seq![
            init_view("W_extract"@, ws as int, 1, DataView::Whole(last_weights(ws as int))),
            init_view("W_atr"@, ws as int, 1, DataView::Ema(atr_period)),
            init_view("W_roc_prev"@, ws as int, 1, DataView::Whole(banded(ws as nat, before_last(ws, momentum_period), before_last(ws, momentum_period) + 1, 1, 0))),
            init_view("mask_donchian"@, 1, ws as int, DataView::Whole(banded(ws as nat, before_last(ws, donchian_period), ws - 1, 1, 0))),
            init_view("mask_min_complement"@, 1, ws as int, DataView::Bits(zero_band(ws as nat, before_last(ws, donchian_period), ws - 1))),
            head_shape(2),
            init_view("W_pred_flat"@, 1, 2 * NUM_GRID_PARAMS, DataView::Nums(w)),
            init_view("B_pred"@, 1, NUM_GRID_PARAMS as int, DataView::Nums(b)),
        ],
        node: seq![
            op_node("Reshape"@, seq!["W_pred_flat"@, "reshape_shape"@], "W_pred"@),
            op_node("MatMul"@, seq!["closes"@, "W_extract"@], "last_close"@),
            op_node("Mul"@, seq!["highs"@, "mask_donchian"@], "masked_highs"@),
            reduce_node("ReduceMax"@, "prev_hh"@, seq!["masked_highs"@], "prev_hh"@),
            op_node("Add"@, seq!["lows"@, "mask_min_complement"@], "masked_lows"@),
            reduce_node("ReduceMin"@, "prev_ll"@, seq!["masked_lows"@], "prev_ll"@),
            op_node("MatMul"@, seq!["closes"@, "W_roc_prev"@], "close_roc_ago"@),
            op_node("Sub"@, seq!["last_close"@, "close_roc_ago"@], "roc_diff"@),
            op_node("Div"@, seq!["roc_diff"@, "close_roc_ago"@], "roc_val"@),
            op_node("Sub"@, seq!["highs"@, "lows"@], "hl"@),
            op_node("Sub"@, seq!["highs"@, "prev_closes"@], "hmpc"@),
            op_node("Abs"@, seq!["hmpc"@], "ahmpc"@),
            op_node("Sub"@, seq!["lows"@, "prev_closes"@], "lmpc"@),
            op_node("Abs"@, seq!["lmpc"@], "almpc"@),
            op_node("Max"@, seq!["hl"@, "ahmpc"@], "m1"@),
            op_node("Max"@, seq!["m1"@, "almpc"@], "tr"@),
            op_node("MatMul"@, seq!["tr"@, "W_atr"@], "atr_val"@),
            op_node("Div"@, seq!["atr_val"@, "last_close"@], "atr_norm"@),
            concat_node(seq!["roc_val"@, "atr_norm"@], "features"@),
            op_node("MatMul"@, seq!["features"@, "W_pred"@], "dot"@),
            op_node("Add"@, seq!["dot"@, "B_pred"@], "biased"@),
            op_node("Sigmoid"@, seq!["biased"@], "grid_params"@),
        ],
        output: seq![
            ValueView { name: "grid_params"@, batch: 1, width: 8 },
            ValueView { name: "atr_val"@, batch: 1, width: 1 },
            ValueView { name: "prev_hh"@, batch: 1, width: 1 },
            ValueView { name: "prev_ll"@, batch: 1, width: 1 },
            ValueView { name: "roc_val"@, batch: 1, width: 1 },
        ],
    }
}

/// The Donchian channel, the rate of change and the average true range, into the
/// prediction head. The model keeps the weights `w` and biases `b` that it was made
/// with, and goes by them where it is given no others.
#[verifier::rlimit(40)]
pub fn build_momentum_breakout_onnx_bytes(donchian_period: usize, momentum_period: usize, atr_period: usize, window_size: usize, w: &Vec<Num>, b: &Vec<Num>) -> (r: (OnnxModel, Vec<OhlcvExtractor>))
    requires
        w@.len() == 2 * NUM_GRID_PARAMS,
        b@.len() == NUM_GRID_PARAMS,
        0 < window_size <= i64::MAX,
        donchian_period < usize::MAX,
        momentum_period < usize::MAX,
    ensures
        r.0.graph@ == momentum_breakout_graph(donchian_period, momentum_period, atr_period, window_size, w@, b@),
        r.0.default_w@ == w@,
        r.0.default_b@ == b@,
        r.1@ == seq![OhlcvExtractor { window: window_size }],
{
    let ws = window_size;
    let mut ctx = start("MomentumBreakout", ws, 2);
    let lag = ws.saturating_sub(momentum_period + 1);
    let from = ws.saturating_sub(donchian_period + 1);
    ctx.push_initializer(onnx_initializer("W_extract".to_owned(), ws as i64, 1, TensorData::Whole(extract_w(ws))));
    ctx.push_initializer(onnx_initializer("W_atr".to_owned(), ws as i64, 1, TensorData::Ema(atr_period)));
    ctx.push_initializer(onnx_initializer("W_roc_prev".to_owned(), ws as i64, 1, TensorData::Whole(band(ws, lag, lag + 1, 1, 0))));
    ctx.push_initializer(onnx_initializer("mask_donchian".to_owned(), 1, ws as i64, TensorData::Whole(band(ws, from, ws - 1, 1, 0))));
    ctx.push_initializer(onnx_initializer("mask_min_complement".to_owned(), 1, ws as i64, TensorData::Bits(zero_band_of(ws, from, ws - 1))));
    ctx.push_initializer(shape_init(2));
    ctx.push_initializer(onnx_initializer("W_pred_flat".to_owned(), 1, 2 * NUM_GRID_PARAMS as i64, TensorData::Nums(copy_of(w))));
    ctx.push_initializer(onnx_initializer("B_pred".to_owned(), 1, NUM_GRID_PARAMS as i64, TensorData::Nums(copy_of(b))));
    assert(ctx.graph@.initializer =~= momentum_breakout_graph(donchian_period, momentum_period, atr_period, window_size, w@, b@).initializer);
    binary(&mut ctx, "Reshape", "W_pred_flat", "reshape_shape", "W_pred");
    binary(&mut ctx, "MatMul", "closes", "W_extract", "last_close");
    binary(&mut ctx, "Mul", "highs", "mask_donchian", "masked_highs");
    reduce(&mut ctx, "ReduceMax", "masked_highs", "prev_hh");
    binary(&mut ctx, "Add", "lows", "mask_min_complement", "masked_lows");
    reduce(&mut ctx, "ReduceMin", "masked_lows", "prev_ll");
    binary(&mut ctx, "MatMul", "closes", "W_roc_prev", "close_roc_ago");
    assert(ctx.graph@.node =~= momentum_breakout_graph(donchian_period, momentum_period, atr_period, window_size, w@, b@).node.take(7));
    binary(&mut ctx, "Sub", "last_close", "close_roc_ago", "roc_diff");
    binary(&mut ctx, "Div", "roc_diff", "close_roc_ago", "roc_val");
    binary(&mut ctx, "Sub", "highs", "lows", "hl");
    binary(&mut ctx, "Sub", "highs", "prev_closes", "hmpc");
    unary(&mut ctx, "Abs", "hmpc", "ahmpc");
    binary(&mut ctx, "Sub", "lows", "prev_closes", "lmpc");
    unary(&mut ctx, "Abs", "lmpc", "almpc");
    assert(ctx.graph@.node =~= momentum_breakout_graph(donchian_period, momentum_period, atr_period, window_size, w@, b@).node.take(14));
    binary(&mut ctx, "Max", "hl", "ahmpc", "m1");
    binary(&mut ctx, "Max", "m1", "almpc", "tr");
    binary(&mut ctx, "MatMul", "tr", "W_atr", "atr_val");
    binary(&mut ctx, "Div", "atr_val", "last_close", "atr_norm");
    let mut joined: Vec<String> = Vec::new();
    joined.push("roc_val".to_owned());
    joined.push("atr_norm".to_owned());
    assert(texts(joined@) =~= seq!["roc_val"@, "atr_norm"@]);
    concat(&mut ctx, joined, "features");
    binary(&mut ctx, "MatMul", "features", "W_pred", "dot");
    binary(&mut ctx, "Add", "dot", "B_pred", "biased");
    assert(ctx.graph@.node =~= momentum_breakout_graph(donchian_period, momentum_period, atr_period, window_size, w@, b@).node.take(21));
    unary(&mut ctx, "Sigmoid", "biased", "grid_params");
    declare_output(&mut ctx, "grid_params", 8);
    declare_output(&mut ctx, "atr_val", 1);
    declare_output(&mut ctx, "prev_hh", 1);
    declare_output(&mut ctx, "prev_ll", 1);
    declare_output(&mut ctx, "roc_val", 1);
    assert(ctx.graph@ =~= momentum_breakout_graph(donchian_period, momentum_period, atr_period, window_size, w@, b@));
    (OnnxModel { graph: ctx.graph, default_w: copy_of(w), default_b: copy_of(b) }, ohlcv(window_size))
}

/// The model with one weight per feature and a bias for its first output, and the
/// usual biases for the others.
pub fn build_momentum_breakout_onnx_default<F: Fn(Calculation) -> Num>(donchian_period: usize, momentum_period: usize, atr_period: usize, window_size: usize, pred_weights: &Vec<Num>, pred_bias: Num, f: &F) -> (r: (OnnxModel, Vec<OhlcvExtractor>))
    requires
        calculates(*f),
        0 < window_size <= i64::MAX,
        donchian_period < usize::MAX,
        momentum_period < usize::MAX,
    ensures
        r.0.graph@ == momentum_breakout_graph(
            donchian_period,
            momentum_period,
            atr_period,
            window_size,
            first_output_weights(pred_weights@, 2),
            usual_biases(*f, pred_bias),
        ),
        r.0.default_w@ == first_output_weights(pred_weights@, 2),
        r.0.default_b@ == usual_biases(*f, pred_bias),
        r.1@ == seq![OhlcvExtractor { window: window_size }],
{
    let w = default_weights(pred_weights, 2);
    let b = default_biases(f, pred_bias);
    build_momentum_breakout_onnx_bytes(donchian_period, momentum_period, atr_period, window_size, &w, &b)
}

/// The momentum breakout graph reads nothing before it is defined.
pub proof fn momentum_breakout_is_well_defined(donchian_period: usize, momentum_period: usize, atr_period: usize, ws: usize, w: Seq<Num>, b: Seq<Num>)
    ensures
        momentum_breakout_graph(donchian_period, momentum_period, atr_period, ws, w, b).defined_before_use(),
        momentum_breakout_graph(donchian_period, momentum_period, atr_period, ws, w, b).outputs_computed(),
{
    let g = momentum_breakout_graph(donchian_period, momentum_period, atr_period, ws, w, b);
    assert forall|k: int| 0 <= k < g.node.len() implies (#[trigger] g.node[k]).output.len() == 1
        && g.node[k].output.contains(g.node[k].output[0]) by {
    }
    assert forall|i: int, j: int| 0 <= i < g.node.len() && 0 <= j < g.node[i].input.len() implies ({
        let name = #[trigger] g.node[i].input[j];
        g.is_given(name) || g.is_computed(name, i)
    }) by {
        if i == 0 {
            assert(g.input[4].name == "W_pred_flat"@);
            assert(g.initializer[5].name == "reshape_shape"@);
        } else if i == 1 {
            assert(g.input[0].name == "closes"@);
            assert(g.initializer[0].name == "W_extract"@);
        } else if i == 2 {
            assert(g.input[1].name == "highs"@);
            assert(g.initializer[3].name == "mask_donchian"@);
        } else if i == 3 {
            assert(g.node[2].output[0] == "masked_highs"@);
        } else if i == 4 {
            assert(g.input[2].name == "lows"@);
            assert(g.initializer[4].name == "mask_min_complement"@);
        } else if i == 5 {
            assert(g.node[4].output[0] == "masked_lows"@);
        } else if i == 6 {
            assert(g.input[0].name == "closes"@);
            assert(g.initializer[2].name == "W_roc_prev"@);
        } else if i == 7 {
            assert(g.node[1].output[0] == "last_close"@);
            assert(g.node[6].output[0] == "close_roc_ago"@);
        } else if i == 8 {
            assert(g.node[7].output[0] == "roc_diff"@);
            assert(g.node[6].output[0] == "close_roc_ago"@);
        } else if i == 9 {
            assert(g.input[1].name == "highs"@);
            assert(g.input[2].name == "lows"@);
        } else if i == 10 {
            assert(g.input[1].name == "highs"@);
            assert(g.input[3].name == "prev_closes"@);
        } else if i == 11 {
            assert(g.node[10].output[0] == "hmpc"@);
        } else if i == 12 {
            assert(g.input[2].name == "lows"@);
            assert(g.input[3].name == "prev_closes"@);
        } else if i == 13 {
            assert(g.node[12].output[0] == "lmpc"@);
        } else if i == 14 {
            assert(g.node[9].output[0] == "hl"@);
            assert(g.node[11].output[0] == "ahmpc"@);
        } else if i == 15 {
            assert(g.node[14].output[0] == "m1"@);
            assert(g.node[13].output[0] == "almpc"@);
        } else if i == 16 {
            assert(g.node[15].output[0] == "tr"@);
            assert(g.initializer[1].name == "W_atr"@);
        } else if i == 17 {
            assert(g.node[16].output[0] == "atr_val"@);
            assert(g.node[1].output[0] == "last_close"@);
        } else if i == 18 {
            assert(g.node[8].output[0] == "roc_val"@);
            assert(g.node[17].output[0] == "atr_norm"@);
        } else if i == 19 {
            assert(g.node[18].output[0] == "features"@);
            assert(g.node[0].output[0] == "W_pred"@);
        } else if i == 20 {
            assert(g.node[19].output[0] == "dot"@);
            assert(g.input[5].name == "B_pred"@);
        } else {
            assert(g.node[20].output[0] == "biased"@);
        }
    }
    assert(g.node[21].output[0] == "grid_params"@);
    assert(g.node[16].output[0] == "atr_val"@);
    assert(g.node[3].output[0] == "prev_hh"@);
    assert(g.node[5].output[0] == "prev_ll"@);
    assert(g.node[8].output[0] == "roc_val"@);
}

} // verus!
