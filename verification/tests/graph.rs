//! Genomes, the models they compile to, and what the models answer.
use opsense::arith::Calculation;
use opsense::candle::CandleStick;
use opsense::extractor::OhlcvExtractor;
use opsense::graph::cache::{CompiledPredictorCache, PREDICTOR_CACHE_CAPACITY};
use opsense::graph::compile::Op;
use opsense::graph::ctx::{ema_weights, rsi_weights, sma_weights, OnnxEmitCtx};
use opsense::graph::genome::Graph;
use opsense::graph::onnx::{Attr, Initializer, OnnxGraph, OnnxNode, TensorData, ValueInfo};
use opsense::graph::ops::{
    extract_w, mask_donchian, mask_min_complement, roc_prev_w, Abs, Add, Atr, Concat, Div, DonchianHigh, DonchianLow, Ema,
    Head, Last, Ma, Max, Min, Mul, Neg, Roc, Rsi, Sigmoid, Sub,
};
use opsense::graph::schedule::{levels, schedule};
use opsense::graph::strategy::{
    finite_or, read_market, Direction, P_CAPITAL, P_GRID_LEVELS, P_KELLY, P_LOOKBACK, P_SL_PCT,
};
use opsense::graph::{GraphError, In, Node};
use opsense::grid::TradingGrid;
use opsense::models::{
    build_mean_reversion_onnx_bytes, build_mean_reversion_onnx_default, build_momentum_breakout_onnx_bytes,
    build_momentum_breakout_onnx_default, build_trend_follower_onnx_bytes, build_trend_follower_onnx_default,
    IR_VERSION, NUM_GRID_PARAMS, OPSET_VERSION,
};
use opsense::num::Num;
use prost::Message;
use tract_onnx::pb::{
    tensor_proto, tensor_shape_proto, type_proto, AttributeProto, GraphProto, ModelProto, NodeProto, OperatorSetIdProto,
    TensorProto, TensorShapeProto, TypeProto, ValueInfoProto,
};
use tract_onnx::prelude::{tract_ndarray, Framework, InferenceModelExt, TValue, Tensor};

fn n(x: f64) -> Num {
    Num::from_bits(x.to_bits())
}

fn f(x: Num) -> f64 {
    f64::from_bits(x.bits)
}

/// The floating-point steps of the library's formulas.
fn calc(c: Calculation) -> Num {
    n(match c {
        Calculation::Sum(a, b) => f(a) + f(b),
        Calculation::Difference(a, b) => f(a) - f(b),
        Calculation::Product(a, b) => f(a) * f(b),
        Calculation::Quotient(a, b) => f(a) / f(b),
        Calculation::Root(a) => f(a).sqrt(),
        Calculation::Power(a, b) => f(a).powf(f(b)),
        Calculation::Exponential(a) => f(a).exp(),
        Calculation::Logarithm(a) => f(a).ln(),
        Calculation::Count(k) => k as f64,
    })
}

// ---- writing a described graph as a model ---------------------------------

/// The same steps in single precision.
fn single(c: Calculation) -> Num {
    let f = |x: Num| f(x) as f32;
    n(f64::from(match c {
        Calculation::Sum(a, b) => f(a) + f(b),
        Calculation::Difference(a, b) => f(a) - f(b),
        Calculation::Product(a, b) => f(a) * f(b),
        Calculation::Quotient(a, b) => f(a) / f(b),
        Calculation::Root(a) => f(a).sqrt(),
        Calculation::Power(a, b) => f(a).powi(f(b) as i32),
        Calculation::Exponential(a) => f(a).exp(),
        Calculation::Logarithm(a) => f(a).ln(),
        Calculation::Count(k) => k as f32,
    }))
}

fn single_bytes(v: Vec<Num>) -> Vec<u8> {
    v.into_iter().flat_map(|x| (f(x) as f32).to_le_bytes()).collect()
}

#[test]
fn indicators_weigh_their_windows() {
    let floats = |v: Vec<Num>| v.into_iter().map(f).collect::<Vec<f64>>();
    assert_eq!(floats(ema_weights(3, 3, &single)), [0.125, 0.25, 0.5]);
    assert_eq!(floats(ema_weights(2, 0, &single)), [0.0, 0.0]);
    assert_eq!(floats(sma_weights(4, 2, &single)), [0.0, 0.0, 0.5, 0.5]);
    assert_eq!(floats(sma_weights(2, 4, &single)), [0.25, 0.25]);
    assert_eq!(floats(rsi_weights(5, 4, &single)), [0.0, 0.25, 0.25, 0.25, 0.25]);
    assert_eq!(floats(rsi_weights(5, 2, &single)), [0.0, 0.125, 0.125, 0.25, 0.5]);
    assert_eq!(floats(rsi_weights(1, 2, &single)), [0.0]);
    let ctx = OnnxEmitCtx::new(OnnxGraph { name: "g".to_string(), node: vec![], initializer: vec![], input: vec![], output: vec![] }, 3);
    assert_eq!(ctx.ema_weights(3, &single), ema_weights(3, 3, &single));
    assert_eq!(ctx.sma_weights(2, &single), sma_weights(3, 2, &single));
    assert_eq!(ctx.rsi_weights(2, &single), rsi_weights(3, 2, &single));
}

fn tensor(i: &Initializer) -> TensorProto {
    let ws = i.dims.iter().product::<i64>() as usize;
    let (kind, raw_data): (i32, Vec<u8>) = match &i.data {
        TensorData::Whole(v) => (1, v.iter().flat_map(|x| (*x as f32).to_le_bytes()).collect()),
        TensorData::Bits(v) => (1, v.iter().flat_map(|x| x.to_le_bytes()).collect()),
        TensorData::Nums(v) => (1, single_bytes(v.clone())),
        TensorData::Shape(v) => (7, v.iter().flat_map(|x| x.to_le_bytes()).collect()),
        TensorData::Ema(p) => (1, single_bytes(ema_weights(ws, *p, &single))),
        TensorData::Sma(p) => (1, single_bytes(sma_weights(ws, *p, &single))),
        TensorData::Rsi(p) => (1, single_bytes(rsi_weights(ws, *p, &single))),
    };
    assert_eq!(tensor_proto::DataType::Float as i32, 1);
    assert_eq!(tensor_proto::DataType::Int64 as i32, 7);
    TensorProto { dims: i.dims.clone(), data_type: kind, raw_data, name: i.name.clone(), ..Default::default() }
}

fn value_info(v: &ValueInfo) -> ValueInfoProto {
    let dim = |x: i64| tensor_shape_proto::Dimension {
        denotation: String::new(),
        value: Some(tensor_shape_proto::dimension::Value::DimValue(x)),
    };
    let typed = TypeProto {
        denotation: String::new(),
        value: Some(type_proto::Value::TensorType(type_proto::Tensor {
            elem_type: 1,
            shape: Some(TensorShapeProto { dim: vec![dim(v.batch), dim(v.width)] }),
        })),
    };
    // The type is the second field of the message.
    let mut bytes = vec![0x12];
    bytes.extend(typed.encode_length_delimited_to_vec());
    ValueInfoProto { name: v.name.clone(), ..ValueInfoProto::decode(bytes.as_slice()).unwrap() }
}

/// An attribute without a name or a value, of this type.
fn attribute_of(kind: u8) -> AttributeProto {
    // The type is field 20 of the message.
    AttributeProto::decode([0xa0, 0x01, kind].as_slice()).unwrap()
}

fn node_proto(x: &OnnxNode) -> NodeProto {
    let attribute = x
        .attribute
        .iter()
        .map(|a| match a {
            Attr::Int { name, value } => AttributeProto { name: name.clone(), i: *value, ..attribute_of(2) },
            Attr::Ints { name, values } => AttributeProto { name: name.clone(), ints: values.clone(), ..attribute_of(7) },
        })
        .collect();
    NodeProto {
        op_type: x.op_type.clone(),
        name: x.name.clone(),
        input: x.input.clone(),
        output: x.output.clone(),
        attribute,
        ..Default::default()
    }
}

fn encode(g: &OnnxGraph) -> Vec<u8> {
    ModelProto {
        ir_version: IR_VERSION,
        opset_import: vec![OperatorSetIdProto { domain: String::new(), version: OPSET_VERSION }],
        graph: Some(GraphProto {
            name: g.name.clone(),
            node: g.node.iter().map(node_proto).collect(),
            initializer: g.initializer.iter().map(tensor).collect(),
            input: g.input.iter().map(value_info).collect(),
            output: g.output.iter().map(value_info).collect(),
            ..Default::default()
        }),
        ..Default::default()
    }
    .encode_to_vec()
}

fn infer(g: &OnnxGraph, inputs: &[Vec<f32>]) -> Vec<Vec<f32>> {
    let bytes = encode(g);
    let model = tract_onnx::onnx()
        .model_for_read(&mut std::io::Cursor::new(&bytes))
        .and_then(|m| m.into_optimized())
        .and_then(|m| m.into_runnable())
        .expect("compile");
    let tensors: Vec<TValue> = inputs
        .iter()
        .map(|v| {
            let a = tract_ndarray::Array2::from_shape_vec((1, v.len()), v.clone()).unwrap();
            Tensor::from(a).into()
        })
        .collect();
    let outputs = model.run(tensors.into()).expect("run");
    outputs.iter().map(|o| o.to_array_view::<f32>().unwrap().iter().copied().collect()).collect()
}

fn predict(g: &Graph, inputs: &[Vec<f32>]) -> Vec<Vec<f32>> {
    assert!(g.is_wired());
    infer(&g.compile().expect("compile"), inputs)
}

// ---- genomes ---------------------------------------------------------------

fn ex(k: usize) -> In {
    In::FromExtractor(k)
}

fn op(k: usize) -> In {
    In::FromOperator(k)
}

fn node(op: usize, inputs: Vec<In>) -> Node {
    Node { op, inputs }
}

fn default_ops() -> Vec<Op> {
    vec![
        Op::Last(Last),
        Op::Last(Last),
        Op::Atr(Atr { period: 14 }),
        Op::Last(Last),
        Op::Last(Last),
        Op::Div(Div),
        Op::Concat(Concat { axis: 1 }),
        Op::Head(Head { n_feat: 2, n_out: 8 }),
    ]
}

fn default_nodes() -> Vec<Node> {
    vec![
        node(0, vec![ex(0)]),
        node(1, vec![ex(0)]),
        node(2, vec![ex(1), ex(2), ex(3)]),
        node(3, vec![ex(1)]),
        node(4, vec![ex(2)]),
        node(5, vec![op(2), op(0)]),
        node(6, vec![op(1), op(5)]),
        node(7, vec![op(6)]),
    ]
}

fn graph(ops: Vec<Op>, nodes: Vec<Node>, bias: usize) -> Graph {
    Graph::new(200, ops, nodes, vec![], vec![n(0.0); bias], vec![n(0.0); 8], 8, 200, 60)
}

fn default_graph() -> Graph {
    graph(default_ops(), default_nodes(), 16)
}

fn flat_inputs(w: usize) -> Vec<Vec<f32>> {
    let mut inputs: Vec<Vec<f32>> = vec![vec![1.0; 200]; 4];
    inputs.push(vec![0.0; w]);
    inputs.push(vec![0.0; 8]);
    inputs
}

fn check_even_answer(out: &[Vec<f32>]) {
    assert_eq!(out.len(), 2);
    assert_eq!(out[0].len(), 8);
    assert_eq!(out[1].len(), 1);
    for v in &out[0] {
        assert!((v - 0.5).abs() < 1e-4);
    }
}

#[test]
fn graph_model_builds_and_infers() {
    let g = default_graph();
    assert_eq!(g.num_features().expect("num_features"), 2);
    check_even_answer(&predict(&g, &flat_inputs(16)));
}

#[test]
fn tests_model_builds_and_infers() {
    let g = default_graph();
    assert_eq!(g.num_features().expect("num_features"), 2);
    assert_eq!(g.num_grids(), 8);
    check_even_answer(&predict(&g, &flat_inputs(16)));
}

fn trend_genome() -> Graph {
    let ops = vec![
        Op::Ema(Ema { period: 9 }),
        Op::Ema(Ema { period: 21 }),
        Op::Atr(Atr { period: 14 }),
        Op::Sub(Sub),
        Op::Concat(Concat { axis: 1 }),
        Op::Head(Head { n_feat: 4, n_out: 8 }),
    ];
    let nodes = vec![
        node(0, vec![ex(0)]),
        node(1, vec![ex(0)]),
        node(2, vec![ex(1), ex(2), ex(3)]),
        node(3, vec![op(0), op(1)]),
        node(4, vec![op(0), op(1), op(2), op(3)]),
        node(5, vec![op(4)]),
    ];
    graph(ops, nodes, 32)
}

#[test]
fn graph_trend_follower_genotype_compiles() {
    let g = trend_genome();
    assert_eq!(g.num_features().expect("num_features"), 4);
    check_even_answer(&predict(&g, &flat_inputs(32)));
}

#[test]
fn tests_trend_follower_genotype_compiles() {
    let g = trend_genome();
    assert_eq!(g.num_features().expect("num_features"), 4);
    check_even_answer(&predict(&g, &flat_inputs(32)));
}

#[test]
fn a_mean_reversion_genome_answers() {
    let ops = vec![
        Op::Ma(Ma { period: 20 }),
        Op::Last(Last),
        Op::Div(Div),
        Op::Rsi(Rsi { period: 14 }),
        Op::Atr(Atr { period: 14 }),
        Op::Div(Div),
        Op::Concat(Concat { axis: 1 }),
        Op::Head(Head { n_feat: 4, n_out: 8 }),
    ];
    let nodes = vec![
        node(0, vec![ex(0)]),
        node(1, vec![ex(0)]),
        node(2, vec![op(0), op(1)]),
        node(3, vec![ex(0), ex(3)]),
        node(4, vec![ex(1), ex(2), ex(3)]),
        node(5, vec![op(4), op(1)]),
        node(6, vec![op(2), op(3), op(5), op(3)]),
        node(7, vec![op(6)]),
    ];
    let g = graph(ops, nodes, 32);
    assert_eq!(g.num_features().expect("num_features"), 4);
    let ramp: Vec<f32> = (0..200).map(|v| 1.0 + v as f32 * 0.1).collect();
    let before: Vec<f32> = ramp.iter().map(|v| v - 0.1).collect();
    let mut inputs: Vec<Vec<f32>> = vec![ramp.clone(), ramp.clone(), ramp, before];
    inputs.push(vec![0.0; 32]);
    inputs.push(vec![0.0; 8]);
    check_even_answer(&predict(&g, &inputs));
}

#[test]
fn init_gives_trading_params_not_zeros() {
    let g = default_graph();
    let params = g.init(&calc);
    assert!(f(params[P_KELLY]) > 0.0);
    assert!(f(params[P_CAPITAL]) > 0.0);
    assert!(f(params[P_GRID_LEVELS]) >= 2.0);
    assert!(f(params[P_SL_PCT]) > 0.0);
    assert!(f(params[P_LOOKBACK]) > 0.0);
    let n_feat = g.num_features().expect("num_features");
    assert_eq!(params.len(), 6 + n_feat * 8 + 8);
    assert_eq!(f(params[P_KELLY]), 0.25);
    assert_eq!(f(params[P_CAPITAL]), 100_000.0);
    assert_eq!(f(params[P_SL_PCT]), 0.008);
}

#[test]
fn broken_genomes_are_refused() {
    let mut g = default_graph();
    g.nodes[0].inputs = vec![op(7)];
    assert!(matches!(g.compile(), Err(GraphError::Cycle)));
    let mut g = default_graph();
    g.nodes.push(node(7, vec![op(6)]));
    // Of two heads on one level the one with the lower number comes last, and the
    // last one is put out.
    assert_eq!(g.compile().unwrap().output[0].name, "n7");
    let mut g = default_graph();
    g.nodes.pop();
    assert!(matches!(g.compile(), Err(GraphError::MissingHead)));
    assert!(matches!(g.num_features(), Err(GraphError::MissingHead)));
    g.nodes[0].op = 99;
    assert!(!g.is_wired());
}

#[test]
fn nodes_follow_what_they_read() {
    // A chain that is listed backwards.
    let nodes = vec![node(0, vec![op(1)]), node(0, vec![op(2)]), node(0, vec![ex(0)])];
    let lv = levels(&nodes).unwrap();
    assert_eq!(lv, vec![2, 1, 0]);
    assert_eq!(schedule(&lv), vec![2, 1, 0]);
    // On one level the larger number comes first.
    assert_eq!(schedule(&vec![0, 1, 0]), vec![2, 0, 1]);
    assert!(levels(&vec![node(0, vec![op(0)])]).is_err());
}

#[test]
fn indicators_answer_what_they_mean() {
    // One indicator a time, shown by the head's sum of it.
    let ramp: Vec<f32> = (0..10).map(|v| v as f32 + 1.0).collect();
    let answer = |feature: Op, inputs: Vec<In>| -> f32 {
        let ops = vec![feature, Op::Head(Head { n_feat: 1, n_out: 1 })];
        let nodes = vec![node(0, inputs), node(1, vec![op(0)])];
        let g = Graph::new(10, ops, nodes, vec![], vec![n(0.0)], vec![n(0.01)], 1, 200, 60);
        let got = infer(&g.compile().unwrap(), &[ramp.clone(), vec![0.01], vec![0.0]])[0][0];
        // The sigmoid undone.
        (got / (1.0 - got)).ln() * 100.0
    };
    let near = |x: f32, y: f32| assert!((x - y).abs() < 0.01, "{x} {y}");
    near(answer(Op::Last(Last), vec![ex(0)]), 10.0);
    near(answer(Op::Ma(Ma { period: 4 }), vec![ex(0)]), 8.5);
    near(answer(Op::Roc(Roc { period: 5 }), vec![ex(0)]), 1.0);
    near(answer(Op::DonchianHigh(DonchianHigh { period: 3 }), vec![ex(0)]), 10.0);
    near(answer(Op::DonchianLow(DonchianLow { period: 3 }), vec![ex(0)]), 8.0);
    near(answer(Op::Ema(Ema { period: 1 }), vec![ex(0)]), 10.0);
}

#[test]
fn element_operators_answer_what_they_mean() {
    let answer = |middle: Op, inputs: Vec<In>| -> f32 {
        let ops = vec![
            Op::Last(Last),
            Op::DonchianLow(DonchianLow { period: 3 }),
            middle,
            Op::Head(Head { n_feat: 1, n_out: 1 }),
        ];
        let nodes = vec![node(0, vec![ex(0)]), node(1, vec![ex(0)]), node(2, inputs), node(3, vec![op(2)])];
        let g = Graph::new(4, ops, nodes, vec![], vec![], vec![], 1, 200, 60);
        let got = infer(&g.compile().unwrap(), &[vec![1.0, 2.0, 3.0, 4.0], vec![0.1], vec![0.0]])[0][0];
        (got / (1.0 - got)).ln() * 10.0
    };
    let near = |x: f32, y: f32| assert!((x - y).abs() < 0.01, "{x} {y}");
    let both = || vec![op(0), op(1)];
    near(answer(Op::Add(Add), both()), 6.0);
    near(answer(Op::Sub(Sub), both()), 2.0);
    near(answer(Op::Mul(Mul), both()), 8.0);
    near(answer(Op::Div(Div), both()), 2.0);
    near(answer(Op::Max(Max), both()), 4.0);
    near(answer(Op::Min(Min), both()), 2.0);
    near(answer(Op::Neg(Neg), vec![op(0)]), -4.0);
    near(answer(Op::Abs(Abs), vec![op(0)]), 4.0);
    near(answer(Op::Sigmoid(Sigmoid), vec![op(0)]), 0.982);
}

#[test]
fn masks_pick_the_last_candles() {
    assert_eq!(extract_w(3), vec![0, 0, 1]);
    assert_eq!(roc_prev_w(4, 2), vec![0, 1, 0, 0]);
    assert_eq!(roc_prev_w(4, 4), vec![0, 0, 0, 0]);
    assert_eq!(mask_donchian(4, 2), vec![0, 0, 1, 1]);
    assert_eq!(mask_donchian(2, 9), vec![1, 1]);
    assert_eq!(mask_min_complement(3, 1), vec![1_000_000_000, 1_000_000_000, 0]);
}

#[test]
fn predictors_are_kept_by_their_structure() {
    let mut cache: CompiledPredictorCache<u64> = CompiledPredictorCache::new();
    for k in 0..(PREDICTOR_CACHE_CAPACITY as u64) {
        cache.put(k, k * 10);
    }
    cache.put(0, 7);
    cache.put(99, 8);
    assert_eq!(cache.get(0), Some(&7));
    assert_eq!(cache.get(1), None);
    assert_eq!(cache.get(99), Some(&8));
    assert_eq!(cache.entries.len(), PREDICTOR_CACHE_CAPACITY);
}

#[test]
fn model_inputs_end_with_weights_and_biases() {
    let mut g = default_graph();
    g.extractors = vec![OhlcvExtractor { window: 200 }];
    assert_eq!(g.next(100), 160);
    assert_eq!(g.rebuild_span(500), (300, 500));
    assert_eq!(g.rebuild_span(50), (0, 50));
    let candles = vec![CandleStick::new(1, n(1.0), n(2.0), n(0.5), n(1.5), n(9.0))];
    let mut params = g.init(&calc);
    params[6] = n(0.25);
    params[7] = n(f64::NAN);
    let rows = g.model_inputs(&candles, &params).unwrap();
    assert_eq!(rows.len(), 6);
    assert_eq!((rows[4].len(), rows[5].len()), (16, 8));
    assert_eq!((f(rows[0][0]), f(rows[4][0]), f(rows[4][1])), (1.5, 0.25, 0.0));
    assert!(g.model_inputs(&vec![], &params).is_err());
}

#[test]
fn heads_say_what_they_put_out() {
    assert_eq!(Op::Head(Head { n_feat: 3, n_out: 8 }).head_n_out(), 8);
    assert_eq!(Op::Concat(Concat { axis: 1 }).head_n_out(), 0);
}

#[test]
fn answers_are_read_as_a_market() {
    let row = |v: &[f64]| v.iter().map(|x| n(*x)).collect::<Vec<Num>>();
    let m = read_market(n(100.0), &vec![row(&[0.7, 0.6, 0.2, 0.1, 0.3, 0.8, 0.2, 0.6]), row(&[2.0])]).unwrap();
    assert_eq!(m.direction, Direction::Up);
    assert_eq!((f(m.long_low), f(m.long_high)), (0.3, 0.8));
    assert_eq!((f(m.short_low), f(m.short_high)), (0.2, 0.6));
    assert_eq!((f(m.prob_base), f(m.bias_scale), f(m.level_trend), f(m.atr)), (0.6, 0.2, 0.1, 2.0));
    let m = read_market(n(100.0), &vec![row(&[0.2]), row(&[2.0])]).unwrap();
    assert_eq!(m.direction, Direction::Down);
    assert_eq!((f(m.prob_base), f(m.bias_scale)), (0.5, f64::from(0.22f32)));
    let m = read_market(n(100.0), &vec![row(&[0.5 + 1e-10]), row(&[2.0])]).unwrap();
    assert_eq!(m.direction, Direction::Flat);
    assert!(read_market(n(100.0), &vec![row(&[0.5]), row(&[0.0])]).is_none());
    assert!(read_market(n(f64::NAN), &vec![row(&[0.5]), row(&[1.0])]).is_none());
    assert!(read_market(n(100.0), &vec![row(&[0.5])]).is_none());
    assert_eq!(f(finite_or(n(f64::INFINITY), n(3.0))), 3.0);
}

#[test]
fn an_answer_sets_up_one_grid() {
    let row = |v: &[f64]| v.iter().map(|x| n(*x)).collect::<Vec<Num>>();
    let set_up = |answer: Vec<Vec<Num>>, grids: Vec<TradingGrid>| Graph::setup(n(100.0), &answer, &grids, &calc);
    let close = |a: &Vec<Num>, b: &[f64]| a.iter().zip(b).all(|(x, y)| (f(*x) - y).abs() < 1e-12);
    // Up: tilted, within the bounds of each side.
    let head = [0.75, 0.5, 0.5, 0.25, 0.875, 0.25, 0.625, 0.125];
    let plan = set_up(vec![row(&head), row(&[2.0])], vec![]);
    assert_eq!(plan.len(), 1);
    let g = &plan[0];
    assert_eq!(g.levels, row(&[98.0, 99.0, 100.0, 101.0, 102.0]));
    // Half a strength times half: 0.75, and a quarter less from level to level.
    assert!(close(&g.long_win_p, &[0.875, 0.875, 0.875, 0.8125, 0.75]));
    assert!(close(&g.short_win_p, &[0.25, 0.1875, 0.125, 0.125, 0.125]));
    assert_eq!((f(g.stoploss_pct()), g.max_candles), (0.008, 48));
    assert_eq!(f(g.weight(0, 47)), f(g.weights_trend(n(1.0), n(0.5), &calc)[0]));
    let down = set_up(vec![row(&[0.25]), row(&[2.0])], vec![]);
    assert_eq!(f(down[0].weight(4, 0)), f(g.weights_trend(n(-1.0), n(0.5), &calc)[4]));

    // Flat: the base everywhere.
    let plan = set_up(vec![row(&[0.5, 0.5]), row(&[2.0])], vec![]);
    assert_eq!(plan[0].long_win_p, row(&[0.5; 5]));
    assert_eq!(f(plan[0].weight(1, 0)), f(g.weights_normal(n(4.0), &calc)[1]));

    // Five outcomes of a side pull its probabilities.
    let mut seen = plan;
    for pnl in [1.0, 1.0, 1.0, -1.0] {
        seen[0].record_trade_outcome(0, true, n(pnl));
        seen[0].record_trade_outcome(2, false, n(pnl));
    }
    seen[0].record_trade_outcome(1, true, n(1.0));
    let plan = set_up(vec![row(&[0.5, 0.5]), row(&[2.0])], seen);
    assert!(close(&plan[0].long_win_p, &[0.8 * 0.5 + 0.2 * 0.8; 5]));
    assert_eq!(plan[0].short_win_p, row(&[0.5; 5]));

    // No range, or nothing to read.
    assert!(set_up(vec![row(&[0.5]), row(&[1e-20])], vec![]).is_empty());
    assert!(set_up(vec![row(&[0.5])], vec![]).is_empty());
}

// ---- ready-made models -----------------------------------------------------

/// The answer to zero weights on rising prices.
fn run_model(g: &OnnxGraph, ws: usize, w: usize) -> Vec<Vec<f32>> {
    let inputs: Vec<Vec<f32>> = g
        .input
        .iter()
        .filter(|i| g.initializer.iter().all(|d| d.name != i.name))
        .map(|i| match i.name.as_str() {
            "W_pred_flat" => vec![0.0; w],
            "B_pred" => vec![0.0; NUM_GRID_PARAMS],
            "prev_closes" => (0..ws).map(|v| 9.9 + v as f32 * 0.1).collect(),
            _ => (0..ws).map(|v| 10.0 + v as f32 * 0.1).collect(),
        })
        .collect();
    infer(g, &inputs)
}

#[test]
fn trend_follower_answers() {
    let (m, ex) = build_trend_follower_onnx_bytes(9, 21, 14, 50, &vec![n(0.5); 32], &vec![n(0.1); 8]);
    assert_eq!((m.default_w.len(), m.default_b.len(), ex.len()), (32, 8, 1));
    assert_eq!(ex[0].window, 50);
    assert_eq!(f(m.default_b[7]), 0.1);
    check_even_answer(&run_model(&m.graph, 50, 32));
    let (m, _) = build_trend_follower_onnx_default(9, 21, 14, 50, &vec![n(0.3); 4], n(0.1), &single);
    assert_eq!((f(m.default_b[0]), f(m.default_b[1])), (0.1, 0.0));
    let odds: Vec<f32> = [0.22f32, 0.05, 0.78, 0.35, 0.65, 0.22].iter().map(|p| (p / (1.0 - p)).ln()).collect();
    assert_eq!(m.default_b[2..].iter().map(|x| f(*x) as f32).collect::<Vec<f32>>(), odds);
    assert_eq!((f(m.default_w[3]), f(m.default_w[4])), (0.3, 0.0));
}

#[test]
fn mean_reversion_answers() {
    let (m, ex) = build_mean_reversion_onnx_bytes(20, 14, 14, 50, &vec![n(0.5); 32], &vec![n(0.1); 8]);
    assert_eq!((m.default_w.len(), ex[0].window), (32, 50));
    let out = run_model(&m.graph, 50, 32);
    check_even_answer(&out[..2]);
    // The average of the last twenty closes.
    assert!((out[2][0] - 13.95).abs() < 1e-3);
    let (m, _) = build_mean_reversion_onnx_default(20, 14, 14, 50, &vec![n(0.3); 4], n(0.1), &single);
    assert_eq!(m.default_w.len(), 32);
}

#[test]
fn momentum_breakout_answers() {
    let (m, ex) = build_momentum_breakout_onnx_bytes(20, 10, 14, 50, &vec![n(0.5); 16], &vec![n(0.1); 8]);
    assert_eq!((m.default_w.len(), ex[0].window), (16, 50));
    // The head's weights and biases are inputs, and have defaults.
    let given = |name: &str| m.graph.input.iter().any(|i| i.name == name);
    assert!(given("W_pred_flat") && given("B_pred"));
    let default = |name: &str| &m.graph.initializer.iter().find(|i| i.name == name).unwrap().data;
    assert!(matches!(default("W_pred_flat"), TensorData::Nums(v) if *v == vec![n(0.5); 16]));
    assert!(matches!(default("B_pred"), TensorData::Nums(v) if *v == vec![n(0.1); 8]));
    // A bias of 0.1 and features of both signs, through the sigmoid.
    let leaning = run_model(&m.graph, 50, 16);
    assert_eq!(leaning.len(), m.graph.output.len());
    let (roc, atr_norm) = (leaning[4][0], leaning[1][0] / 14.9);
    let expected = 1.0 / (1.0 + (-(0.5 * roc + 0.5 * atr_norm + 0.1)).exp());
    assert!(leaning[0].iter().all(|p| (p - expected).abs() < 1e-5));
    let (even, _) = build_momentum_breakout_onnx_bytes(20, 10, 14, 50, &vec![n(0.0); 16], &vec![n(0.0); 8]);
    check_even_answer(&run_model(&even.graph, 50, 16)[..2]);
    let (m, _) = build_momentum_breakout_onnx_default(20, 10, 14, 50, &vec![n(0.3); 2], n(0.1), &single);
    assert_eq!(m.default_w.len(), 16);
}
