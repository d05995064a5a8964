//! The genome as a strategy: its parameter vector, the tensors it feeds the
//! compiled model, and how the model's outputs are read.
use vstd::prelude::*;

use super::compile::Op;
use super::genome::Graph;
use super::onnx::OnnxGraph;
use super::schedule::is_dag;
use super::{GraphError, Node};
use crate::arith::{calculate, calculates, count, Calculation};
use crate::candle::CandleStick;
use crate::extractor::{series_views, ExtractError, OhlcvExtractor};
use crate::num::Num;

verus! {

/// Place of the Kelly fraction in the parameter vector.
pub const P_KELLY: usize = 0;

/// Place of the base capital.
pub const P_CAPITAL: usize = 1;

/// Place of the number of grid levels.
pub const P_GRID_LEVELS: usize = 2;

/// Place of the stop-loss fraction.
pub const P_SL_PCT: usize = 3;

/// Place of the lookback.
pub const P_LOOKBACK: usize = 4;

/// Trading parameters in front of the learned weights.
pub const TRADING_PARAMS: usize = 6;

/// 0.25
pub const KELLY_BITS: u64 = 0x3FD0_0000_0000_0000;

/// 100000.0
pub const CAPITAL_BITS: u64 = 0x40F8_6A00_0000_0000;

/// 5.0
pub const GRID_LEVELS_BITS: u64 = 0x4014_0000_0000_0000;

/// 0.008
pub const SL_PCT_BITS: u64 = 0x3F80_624D_D2F1_A9FC;

/// `v` where it is finite, `default` otherwise.
pub open spec fn finite_or_spec(v: Num, default: Num) -> Num {
    if v.finite() {
        v
    } else {
        default
    }
}

/// `v` where it is finite, `default` otherwise.
pub fn finite_or(v: Num, default: Num) -> (r: Num)
    ensures
        r == finite_or_spec(v, default),
{
    if v.is_finite() {
        v
    } else {
        default
    }
}

/// Entry `i` of `v`, or zero past its end.
pub open spec fn entry_or_zero(v: Seq<Num>, i: int) -> Num {
    if i < v.len() {
        v[i]
    } else {
        Num { bits: 0 }
    }
}

/// The features of every extractor, one after the other.
pub open spec fn all_features(extractors: Seq<OhlcvExtractor>, candles: Seq<CandleStick>, n: nat) -> Seq<Seq<Num>>
    decreases n,
{
    if n == 0 {
        Seq::empty()
    } else {
        all_features(extractors, candles, (n - 1) as nat) + extractors[n - 1].features(candles)
    }
}

/// The features that the first prediction head among `nodes` reads.
pub open spec fn first_head(g: Graph, from: nat) -> Option<usize>
    decreases g.nodes@.len() - from,
{
    if from >= g.nodes@.len() {
        None
    } else {
        match g.op_at(from as int) {
            Op::Head(h) => Some(h.n_feat),
            _ => first_head(g, from + 1),
        }
    }
}

proof fn lemma_first_head(g: Graph, from: nat, head: int)
    requires
        from <= head < g.nodes@.len(),
        g.is_only_head(head),
    ensures
        g.op_at(head) matches Op::Head(h) && first_head(g, from) == Some(h.n_feat),
    decreases head - from,
{
    if from < head {
        if g.op_at(from as int) is Head {
            assert(g.is_head(from as int));
        }
        lemma_first_head(g, from + 1, head);
    }
}

/// The feature count of a genome with one head is the count that compiling it
/// gives.
pub proof fn feature_count_is_the_heads(g: Graph, head: int)
    requires
        g.is_only_head(head),
    ensures
        g.op_at(head) matches Op::Head(h) && first_head(g, 0) == Some(h.n_feat),
{
    lemma_first_head(g, 0, head);
}

impl Graph {
    /// A genome from its parts.
    pub fn new(
        window_size: usize,
        ops: Vec<Op>,
        nodes: Vec<Node>,
        extractors: Vec<OhlcvExtractor>,
        inited_bias: Vec<Num>,
        inited_weights: Vec<Num>,
        num_of_grids: usize,
        lookback_time_to_rebuild: usize,
        interval_time_to_rebuild: usize,
    ) -> (r: Graph)
        ensures
            r == (Graph {
                ops,
                nodes,
                extractors,
                inited_bias,
                inited_weights,
                window_size,
                num_of_grids,
                lookback_time_to_rebuild,
                interval_time_to_rebuild,
            }),
    {
        Graph {
            ops,
            nodes,
            extractors,
            inited_bias,
            inited_weights,
            window_size,
            num_of_grids,
            lookback_time_to_rebuild,
            interval_time_to_rebuild,
        }
    }

    /// Whether the genome can be handed to the compiler.
    pub fn is_wired(&self) -> (r: bool)
        ensures
            r == self.wired(),
    {
        if self.window_size as u64 > i64::MAX as u64 {
            return false;
        }
        let mut i: usize = 0;
        while i < self.nodes.len()
            invariant
                i <= self.nodes@.len(),
                self.window_size <= i64::MAX,
                forall|k: int| #![trigger self.nodes@[k]]
                    0 <= k < i ==> {
                        &&& self.nodes@[k].op < self.ops@.len()
                        &&& self.nodes@[k].inputs@.len() >= self.op_at(k).arity()
                        &&& self.op_at(k) matches Op::Head(h) ==> h.n_feat <= i64::MAX && h.n_out <= i64::MAX && h.n_feat
                            * h.n_out <= i64::MAX
                    },
            decreases self.nodes@.len() - i,
        {
            let node = &self.nodes[i];
            assert(*node == self.nodes@[i as int]);
            if node.op >= self.ops.len() {
                return false;
            }
            let op = self.ops[node.op];
            let needed: usize = match op {
                Op::Concat(_) => 0,
                Op::Atr(_) => 3,
                Op::Rsi(_) => 2,
                Op::Add(_) => 2,
                Op::Sub(_) => 2,
                Op::Mul(_) => 2,
                Op::Div(_) => 2,
                Op::Max(_) => 2,
                Op::Min(_) => 2,
                _ => 1,
            };
            if node.inputs.len() < needed {
                return false;
            }
            if let Op::Head(h) = op {
                let top: u64 = i64::MAX as u64;
                let a = h.n_feat as u64;
                let b = h.n_out as u64;
                if a > top || b > top {
                    return false;
                }
                match a.checked_mul(b) {
                    Some(m) if m <= top => {},
                    _ => {
                        return false;
                    },
                }
            }
            i += 1;
        }
        true
    }

    /// The number of features that the prediction head reads.
    pub fn head_features(&self) -> (r: Result<usize, GraphError>)
        requires
            forall|i: int| 0 <= i < self.nodes@.len() ==> (#[trigger] self.nodes@[i]).op < self.ops@.len(),
        ensures
            r == (match first_head(*self, 0) {
                Some(n) => Ok::<usize, GraphError>(n),
                None => Err(GraphError::MissingHead),
            }),
    {
        let mut i: usize = 0;
        while i < self.nodes.len()
            invariant
                i <= self.nodes@.len(),
                forall|k: int| 0 <= k < self.nodes@.len() ==> (#[trigger] self.nodes@[k]).op < self.ops@.len(),
                first_head(*self, 0) == first_head(*self, i as nat),
            decreases self.nodes@.len() - i,
        {
            assert(self.nodes@[i as int].op < self.ops@.len());
            if let Some(n) = self.ops[self.nodes[i].op].head_features() {
                return Ok(n);
            }
            i += 1;
        }
        Err(GraphError::MissingHead)
    }

    /// The number of features that the prediction head reads.
    pub fn num_features(&self) -> (r: Result<usize, GraphError>)
        requires
            forall|i: int| 0 <= i < self.nodes@.len() ==> (#[trigger] self.nodes@[i]).op < self.ops@.len(),
        ensures
            r == (match first_head(*self, 0) {
                Some(n) => Ok::<usize, GraphError>(n),
                None => Err(GraphError::MissingHead),
            }),
    {
        self.head_features()
    }

    /// The number of values that the prediction head puts out.
    pub fn num_grids(&self) -> (r: usize)
        ensures
            r == self.num_of_grids,
    {
        self.num_of_grids
    }

    /// Compiles the genome to an ONNX description.
    pub fn compile(&self) -> (r: Result<OnnxGraph, GraphError>)
        requires
            self.wired(),
        ensures
            r is Ok <==> is_dag(self.nodes@) && exists|h: int| self.is_head(h),
            r matches Ok(c) ==> exists|ids: Seq<usize>, order: Seq<usize>, h: int| #[trigger]
                self.is_plan(ids, order, h) && c@ == self.compiled(ids, order, h),
            r == Err::<OnnxGraph, GraphError>(GraphError::Cycle) <==> !is_dag(self.nodes@),
            r == Err::<OnnxGraph, GraphError>(GraphError::MissingHead) <==> is_dag(self.nodes@) && forall|i: int|
                !self.is_head(i),
    {
        match self.build_onnx() {
            Ok(built) => Ok(built.0),
            Err(e) => Err(e),
        }
    }

    /// The head's features, or 0 without a head.
    pub open spec fn features_or_zero(self) -> nat {
        match first_head(self, 0) {
            Some(n) => n as nat,
            None => 0,
        }
    }

    /// The learned weights in the parameter vector.
    pub open spec fn weight_len(self) -> nat {
        self.features_or_zero() * self.num_of_grids as nat
    }

    /// The starting parameters: the trading parameters, the initial weights,
    /// the initial biases; zero where an initial value is missing.
    pub open spec fn initial_params(self, lookback: Num) -> Seq<Num> {
        let w = self.weight_len();
        seq![
            Num { bits: KELLY_BITS },
            Num { bits: CAPITAL_BITS },
            Num { bits: GRID_LEVELS_BITS },
            Num { bits: SL_PCT_BITS },
            lookback,
            Num { bits: 0 },
        ] + Seq::new(w, |i: int| entry_or_zero(self.inited_weights@, i)) + Seq::new(
            self.num_of_grids as nat,
            |i: int| entry_or_zero(self.inited_bias@, i),
        )
    }

    /// The starting parameters.
    pub fn init<F: Fn(Calculation) -> Num>(&self, f: &F) -> (r: Vec<Num>)
        requires
            calculates(*f),
            forall|i: int| 0 <= i < self.nodes@.len() ==> (#[trigger] self.nodes@[i]).op < self.ops@.len(),
            TRADING_PARAMS + self.weight_len() + self.num_of_grids <= usize::MAX,
        ensures
            r@ == self.initial_params(count(*f, self.lookback_time_to_rebuild as int)),
    {
        let lookback = calculate(f, Calculation::Count(self.lookback_time_to_rebuild as u128));
        let n_feat: usize = match self.head_features() {
            Ok(n) => n,
            Err(_) => 0,
        };
        let w_len: usize = n_feat * self.num_of_grids;
        let mut params: Vec<Num> = Vec::new();
        params.push(Num { bits: KELLY_BITS });
        params.push(Num { bits: CAPITAL_BITS });
        params.push(Num { bits: GRID_LEVELS_BITS });
        params.push(Num { bits: SL_PCT_BITS });
        params.push(lookback);
        params.push(Num { bits: 0 });
        let ghost all = self.initial_params(lookback);
        assert(params@ =~= all.take(6));
        let mut i: usize = 0;
        while i < w_len
            invariant
                i <= w_len == self.weight_len(),
                all == self.initial_params(lookback),
                params@ == all.take(6 + i),
            decreases w_len - i,
        {
            params.push(if i < self.inited_weights.len() { self.inited_weights[i] } else { Num { bits: 0 } });
            i += 1;
            assert(params@ =~= all.take(6 + i));
        }
        let mut k: usize = 0;
        while k < self.num_of_grids
            invariant
                k <= self.num_of_grids,
                w_len == self.weight_len(),
                all == self.initial_params(lookback),
                params@ == all.take(6 + w_len + k),
            decreases self.num_of_grids - k,
        {
            params.push(if k < self.inited_bias.len() { self.inited_bias[k] } else { Num { bits: 0 } });
            k += 1;
            assert(params@ =~= all.take(6 + w_len + k));
        }
        assert(params@ =~= all);
        params
    }

    /// When the genome is to be rebuilt next.
    pub fn next(&self, current: u64) -> (r: u64)
        requires
            current + self.interval_time_to_rebuild <= u64::MAX,
        ensures
            r == current + self.interval_time_to_rebuild,
    {
        current + self.interval_time_to_rebuild as u64
    }

    /// The span of candles that a rebuild at `current` reads.
    pub fn rebuild_span(&self, current: u64) -> (r: (u64, u64))
        ensures
            r.0 == (if current >= self.lookback_time_to_rebuild { current - self.lookback_time_to_rebuild } else { 0 }),
            r.1 == current,
    {
        (current.saturating_sub(self.lookback_time_to_rebuild as u64), current)
    }

    /// The tensors that a rebuild feeds the model: the features of every
    /// extractor, the weights and the biases. A parameter that is not finite
    /// gives way to the initial value.
    pub open spec fn feed(self, candles: Seq<CandleStick>, params: Seq<Num>) -> Seq<Seq<Num>> {
        let w = self.weight_len();
        all_features(self.extractors@, candles, self.extractors@.len()) + seq![
            Seq::new(w, |i: int| finite_or_spec(params[TRADING_PARAMS + i], entry_or_zero(self.inited_weights@, i))),
            Seq::new(
                self.num_of_grids as nat,
                |i: int| finite_or_spec(params[TRADING_PARAMS + w + i], entry_or_zero(self.inited_bias@, i)),
            ),
        ]
    }

    /// The tensors that a rebuild feeds the model.
    pub fn model_inputs(&self, candles: &Vec<CandleStick>, params: &Vec<Num>) -> (r: Result<Vec<Vec<Num>>, ExtractError>)
        requires
            forall|i: int| 0 <= i < self.nodes@.len() ==> (#[trigger] self.nodes@[i]).op < self.ops@.len(),
            forall|i: int| 0 <= i < self.extractors@.len() ==> (#[trigger] self.extractors@[i]).window > 0,
            TRADING_PARAMS + self.weight_len() + self.num_of_grids <= params@.len(),
        ensures
            r is Err <==> candles@.len() == 0 && self.extractors@.len() > 0,
            r matches Ok(v) ==> series_views(v@) == self.feed(candles@, params@),
    {
        let n_feat: usize = match self.head_features() {
            Ok(n) => n,
            Err(_) => 0,
        };
        let total: usize = params.len();
        let w_len: usize = n_feat * self.num_of_grids;
        let mut out: Vec<Vec<Num>> = Vec::new();
        let mut e: usize = 0;
        assert(series_views(out@) =~= all_features(self.extractors@, candles@, 0));
        while e < self.extractors.len()
            invariant
                e <= self.extractors@.len(),
                forall|i: int| 0 <= i < self.extractors@.len() ==> (#[trigger] self.extractors@[i]).window > 0,
                series_views(out@) == all_features(self.extractors@, candles@, e as nat),
                e > 0 ==> candles@.len() > 0,
            decreases self.extractors@.len() - e,
        {
            assert(self.extractors@[e as int].window > 0);
            match self.extractors[e].extract(candles) {
                Ok(mut more) => {
                    let ghost before = out@;
                    let ghost added = more@;
                    out.append(&mut more);
                    assert(series_views(out@) =~= series_views(before) + series_views(added));
                },
                Err(x) => {
                    return Err(x);
                },
            }
            e += 1;
        }
        let mut weights: Vec<Num> = Vec::new();
        let ghost want = Seq::new(
            self.weight_len(),
            |i: int| finite_or_spec(params@[TRADING_PARAMS + i], entry_or_zero(self.inited_weights@, i)),
        );
        let mut i: usize = 0;
        while i < w_len
            invariant
                i <= w_len == self.weight_len(),
                total == params@.len(),
                TRADING_PARAMS + w_len + self.num_of_grids <= total,
                want == Seq::new(
                    self.weight_len(),
                    |i: int| finite_or_spec(params@[TRADING_PARAMS + i], entry_or_zero(self.inited_weights@, i)),
                ),
                weights@ == want.take(i as int),
            decreases w_len - i,
        {
            let default = if i < self.inited_weights.len() { self.inited_weights[i] } else { Num { bits: 0 } };
            weights.push(finite_or(params[TRADING_PARAMS + i], default));
            i += 1;
            assert(weights@ =~= want.take(i as int));
        }
        assert(weights@ =~= want);
        let mut biases: Vec<Num> = Vec::new();
        let ghost want_b = Seq::new(
            self.num_of_grids as nat,
            |i: int| finite_or_spec(params@[TRADING_PARAMS + self.weight_len() + i], entry_or_zero(self.inited_bias@, i)),
        );
        let mut k: usize = 0;
        while k < self.num_of_grids
            invariant
                k <= self.num_of_grids,
                w_len == self.weight_len(),
                total == params@.len(),
                TRADING_PARAMS + w_len + self.num_of_grids <= total,
                want_b == Seq::new(
                    self.num_of_grids as nat,
                    |i: int|
                        finite_or_spec(params@[TRADING_PARAMS + self.weight_len() + i], entry_or_zero(self.inited_bias@, i)),
                ),
                biases@ == want_b.take(k as int),
            decreases self.num_of_grids - k,
        {
            let default = if k < self.inited_bias.len() { self.inited_bias[k] } else { Num { bits: 0 } };
            biases.push(finite_or(params[TRADING_PARAMS + w_len + k], default));
            k += 1;
            assert(biases@ =~= want_b.take(k as int));
        }
        assert(biases@ =~= want_b);
        let ghost before = out@;
        out.push(weights);
        out.push(biases);
        assert(series_views(out@) =~= series_views(before) + seq![want, want_b]);
        Ok(out)
    }
}

/// Which way the model expects the market to go.
#[derive(Clone, Copy, Debug, PartialEq, Eq, Structural)]
pub enum Direction {
    Up,
    Down,
    Flat,
}

/// The bit patterns that stand in for a head output: first where the output is
/// missing, second where it is not finite.
pub open spec fn head_defaults(i: int) -> (u64, u64) {
    if i == 2 || i == 7 {
        (0x3FCC_28F5_C000_0000, 0x3FCC_28F5_C28F_5C29)
    } else if i == 3 {
        (0x3FA9_9999_A000_0000, 0x3FA9_9999_9999_999A)
    } else if i == 4 {
        (0x3FE8_F5C2_8000_0000, 0x3FE8_F5C2_8F5C_28F6)
    } else if i == 5 {
        (0x3FD6_6666_6000_0000, 0x3FD6_6666_6666_6666)
    } else if i == 6 {
        (0x3FE4_CCCC_C000_0000, 0x3FE4_CCCC_CCCC_CCCD)
    } else {
        (0x3FE0_0000_0000_0000, 0x3FE0_0000_0000_0000)
    }
}

/// Output `i` of the prediction head.
pub open spec fn head_value(gp: Seq<Num>, i: int) -> Num {
    let given = if i < gp.len() {
        gp[i]
    } else {
        Num { bits: head_defaults(i).0 }
    };
    finite_or_spec(given, Num { bits: head_defaults(i).1 })
}

/// What the model's outputs say about the grid to set up.
#[derive(Clone, Copy, Debug, PartialEq, Eq, Structural)]
pub struct MarketRead {
    pub atr: Num,
    pub market_bias: Num,
    pub direction: Direction,
    pub prob_base: Num,
    pub bias_scale: Num,
    pub level_trend: Num,
    pub long_low: Num,
    pub long_high: Num,
    pub short_low: Num,
    pub short_high: Num,
}

/// Just above one half: 0.500000001.
pub const UP_ABOVE_BITS: u64 = 0x3FE0_0000_0089_705F;

/// Just below one half: 0.499999999.
pub const DOWN_BELOW_BITS: u64 = 0x3FDF_FFFF_FEED_1F41;

/// The direction that a market bias stands for.
pub open spec fn direction_of(bias: Num) -> Direction {
    if (Num { bits: UP_ABOVE_BITS }).below(bias) {
        Direction::Up
    } else if bias.below(Num { bits: DOWN_BELOW_BITS }) {
        Direction::Down
    } else {
        Direction::Flat
    }
}

/// Model output `k`, empty where the model has fewer outputs.
pub open spec fn output_or_empty(outputs: Seq<Vec<Num>>, k: int) -> Seq<Num> {
    if k < outputs.len() {
        outputs[k]@
    } else {
        Seq::empty()
    }
}

/// The average true range among the model's outputs: the first entry of the
/// second one, zero where it is missing or not finite.
pub open spec fn model_atr(outputs: Seq<Vec<Num>>) -> Num {
    finite_or_spec(entry_or_zero(output_or_empty(outputs, 1), 0), Num { bits: 0 })
}

/// How the model's outputs are read; nothing where the range is not above zero
/// or the last close is not a positive finite price.
pub open spec fn market_read(last_close: Num, outputs: Seq<Vec<Num>>) -> Option<MarketRead> {
    let gp = output_or_empty(outputs, 0);
    let atr = model_atr(outputs);
    if atr.at_most(Num { bits: 0 }) || !last_close.finite() || last_close.at_most(Num { bits: 0 }) {
        None
    } else {
        Some(
            MarketRead {
                atr,
                market_bias: head_value(gp, 0),
                direction: direction_of(head_value(gp, 0)),
                prob_base: head_value(gp, 1),
                bias_scale: head_value(gp, 2),
                level_trend: head_value(gp, 3),
                long_low: head_value(gp, 5).lesser(head_value(gp, 4)),
                long_high: head_value(gp, 5).greater(head_value(gp, 4)),
                short_low: head_value(gp, 7).lesser(head_value(gp, 6)),
                short_high: head_value(gp, 7).greater(head_value(gp, 6)),
            },
        )
    }
}

fn read_head(gp: &Vec<Num>, i: usize) -> (r: Num)
    ensures
        r == head_value(gp@, i as int),
{
    let (missing, broken): (u64, u64) = if i == 2 || i == 7 {
        (0x3FCC_28F5_C000_0000, 0x3FCC_28F5_C28F_5C29)
    } else if i == 3 {
        (0x3FA9_9999_A000_0000, 0x3FA9_9999_9999_999A)
    } else if i == 4 {
        (0x3FE8_F5C2_8000_0000, 0x3FE8_F5C2_8F5C_28F6)
    } else if i == 5 {
        (0x3FD6_6666_6000_0000, 0x3FD6_6666_6666_6666)
    } else if i == 6 {
        (0x3FE4_CCCC_C000_0000, 0x3FE4_CCCC_CCCC_CCCD)
    } else {
        (0x3FE0_0000_0000_0000, 0x3FE0_0000_0000_0000)
    };
    let given = if i < gp.len() { gp[i] } else { Num { bits: missing } };
    finite_or(given, Num { bits: broken })
}

/// Reads the model's outputs, the head first and the average true range
/// second.
pub fn read_market(last_close: Num, outputs: &Vec<Vec<Num>>) -> (r: Option<MarketRead>)
    ensures
        r == market_read(last_close, outputs@),
{
    let empty: Vec<Num> = Vec::new();
    let gp = if outputs.len() > 0 { &outputs[0] } else { &empty };
    assert(gp@ =~= output_or_empty(outputs@, 0));
    let zero = Num { bits: 0 };
    let raw = if outputs.len() > 1 && outputs[1].len() > 0 { outputs[1][0] } else { zero };
    let atr = finite_or(raw, zero);
    if atr.le(zero) || !last_close.is_finite() || last_close.le(zero) {
        return None;
    }
    let bias = read_head(gp, 0);
    let direction = if (Num { bits: UP_ABOVE_BITS }).lt(bias) {
        Direction::Up
    } else if bias.lt(Num { bits: DOWN_BELOW_BITS }) {
        Direction::Down
    } else {
        Direction::Flat
    };
    let high = read_head(gp, 4);
    let low = read_head(gp, 5);
    let short_high = read_head(gp, 6);
    let short_low = read_head(gp, 7);
    Some(
        MarketRead {
            atr,
            market_bias: bias,
            direction,
            prob_base: read_head(gp, 1),
            bias_scale: read_head(gp, 2),
            level_trend: read_head(gp, 3),
            long_low: low.min(high),
            long_high: low.max(high),
            short_low: short_low.min(short_high),
            short_high: short_low.max(short_high),
        },
    )
}

} // verus!
