//! The genome: operators, nodes and learned parameters, compiled as a whole.
use vstd::prelude::*;
use vstd::string::*;

use super::compile::{input_names, is_series_list, name_inputs, node_name, series_list, series_name, Op};
use super::ctx::OnnxEmitCtx;
use super::onnx::{
    join2, one, onnx_node, onnx_value_info, plain_node, two, value_views, DataView, GraphView, InitView, Initializer,
    NodeView, OnnxGraph, TensorData, ValueInfo, ValueView,
};
use super::ops::Head;
use super::schedule::{is_dag, is_leveling, is_schedule, levels, nats, schedule};
use super::{GraphError, Node};
use crate::extractor::OhlcvExtractor;
use crate::num::Num;
use crate::text::{decimal, decimal_text, texts};

verus! {

/// A trading strategy as a DAG of operators.
#[derive(Debug)]
pub struct Graph {
    pub ops: Vec<Op>,
    pub nodes: Vec<Node>,
    pub extractors: Vec<OhlcvExtractor>,
    pub inited_bias: Vec<Num>,
    pub inited_weights: Vec<Num>,
    pub window_size: usize,
    pub num_of_grids: usize,
    pub lookback_time_to_rebuild: usize,
    pub interval_time_to_rebuild: usize,
}

/// The constants of the prediction head that node `i` applies.
pub open spec fn head_inits(h: Head, i: nat) -> Seq<InitView> {
    seq![InitView { name: "rsh_"@ + decimal(i), dims: seq![2i64], data: DataView::Shape(seq![h.n_feat as i64, h.n_out as i64]) }]
}

/// The graph inputs of the prediction head.
pub open spec fn head_inputs(h: Head) -> Seq<ValueView> {
    seq![
        ValueView { name: "W_pred_flat"@, batch: 1, width: (h.n_feat * h.n_out) as i64 },
        ValueView { name: "B_pred"@, batch: 1, width: h.n_out as i64 },
    ]
}

/// The nodes of the prediction head that node `i` applies to `features`.
pub open spec fn head_nodes(features: Seq<char>, i: nat, out: Seq<char>) -> Seq<NodeView> {
    seq![
        plain_node("Reshape"@, "w_reshape"@, seq!["W_pred_flat"@, "rsh_"@ + decimal(i)], "W_pred"@),
        plain_node("MatMul"@, "pred_matmul"@, seq![features, "W_pred"@], "dot"@),
        plain_node("Add"@, "pred_add"@, seq!["dot"@, "B_pred"@], "biased"@),
        plain_node("Sigmoid"@, "pred_sigmoid"@, seq!["biased"@], out),
    ]
}

/// The graph inputs for the raw series `ids`.
pub open spec fn series_inputs(ids: Seq<usize>, ws: usize) -> Seq<ValueView> {
    Seq::new(ids.len(), |a: int| ValueView { name: series_name(ids[a] as nat), batch: 1, width: ws as i64 })
}

impl Graph {
    /// The operator that node `i` applies.
    pub open spec fn op_at(self, i: int) -> Op {
        self.ops@[self.nodes@[i].op as int]
    }

    /// Whether every node names an operator that exists and has the inputs it
    /// reads, and every tensor size is a size that ONNX can write.
    pub open spec fn wired(self) -> bool {
        &&& self.window_size <= i64::MAX
        &&& forall|i: int| #![trigger self.nodes@[i]]
            0 <= i < self.nodes@.len() ==> {
                &&& self.nodes@[i].op < self.ops@.len()
                &&& self.nodes@[i].inputs@.len() >= self.op_at(i).arity()
                &&& self.op_at(i) matches Op::Head(h) ==> h.n_feat <= i64::MAX && h.n_out <= i64::MAX && h.n_feat * h.n_out
                    <= i64::MAX
            }
    }

    /// Whether node `i` is a prediction head.
    pub open spec fn is_head(self, i: int) -> bool {
        0 <= i < self.nodes@.len() && self.op_at(i) is Head
    }

    /// Whether node `i` is the only prediction head.
    pub open spec fn is_only_head(self, i: int) -> bool {
        self.is_head(i) && forall|k: int| #[trigger] self.is_head(k) ==> k == i
    }

    /// The graph `g` after node `i` is written to it.
    pub open spec fn step(self, g: GraphView, i: int) -> GraphView {
        let x = input_names(self.nodes@[i].inputs@);
        let out = node_name(i as nat);
        match self.op_at(i) {
            Op::Head(h) => GraphView {
                input: g.input + head_inputs(h),
                ..g.plus(head_inits(h, i as nat), head_nodes(x[0], i as nat, out))
            },
            op => g.plus(op.inits(self.window_size as int, out), op.nodes(x, out)),
        }
    }

    /// The graph before any node is written.
    pub open spec fn start(self, ids: Seq<usize>) -> GraphView {
        GraphView {
            name: "DagGenome"@,
            input: series_inputs(ids, self.window_size),
            initializer: Seq::empty(),
            node: Seq::empty(),
            output: Seq::empty(),
        }
    }

    /// The graph after the first `k` nodes of `order` are written.
    pub open spec fn written(self, ids: Seq<usize>, order: Seq<usize>, k: nat) -> GraphView
        decreases k,
    {
        if k == 0 {
            self.start(ids)
        } else {
            self.step(self.written(ids, order, (k - 1) as nat), order[k - 1] as int)
        }
    }

    /// The last of the first `k` nodes of `order` that computes the average
    /// true range.
    pub open spec fn last_atr(self, order: Seq<usize>, k: nat) -> Option<usize>
        decreases k,
    {
        if k == 0 {
            None
        } else if self.op_at(order[k - 1] as int) is Atr {
            Some(order[k - 1])
        } else {
            self.last_atr(order, (k - 1) as nat)
        }
    }

    /// The last prediction head among the first `k` nodes of `order`.
    pub open spec fn last_head(self, order: Seq<usize>, k: nat) -> Option<usize>
        decreases k,
    {
        if k == 0 {
            None
        } else if self.is_head(order[k - 1] as int) {
            Some(order[k - 1])
        } else {
            self.last_head(order, (k - 1) as nat)
        }
    }

    /// The outputs of the compiled graph: the head, then the average true
    /// range where there is one.
    pub open spec fn outputs(self, head: int, order: Seq<usize>) -> Seq<ValueView> {
        let first = seq![
            ValueView {
                name: node_name(head as nat),
                batch: 1,
                width: (match self.op_at(head) {
                    Op::Head(h) => h.n_out as i64,
                    _ => 0,
                }),
            },
        ];
        match self.last_atr(order, order.len()) {
            Some(a) => first + seq![ValueView { name: node_name(a as nat), batch: 1, width: 1 }],
            None => first,
        }
    }

    /// The compiled graph, with the raw series `ids` and the nodes in `order`.
    pub open spec fn compiled(self, ids: Seq<usize>, order: Seq<usize>, head: int) -> GraphView {
        GraphView { output: self.outputs(head, order), ..self.written(ids, order, order.len()) }
    }

    /// Whether `ids` are the raw series that the nodes read, `order` is the
    /// schedule of the nodes and `head` the prediction head, the last one in the
    /// schedule where there are several.
    pub open spec fn is_plan(self, ids: Seq<usize>, order: Seq<usize>, head: int) -> bool {
        &&& is_series_list(self.nodes@, ids)
        &&& exists|lv: Seq<nat>| is_leveling(self.nodes@, lv) && is_schedule(lv, order)
        &&& self.last_head(order, order.len()) matches Some(h) && h == head
    }

    /// Compiles the genome: the ONNX description and the number of features
    /// that its head reads.
    pub fn build_onnx(&self) -> (r: Result<(OnnxGraph, usize), GraphError>)
        requires
            self.wired(),
        ensures
            r is Ok <==> is_dag(self.nodes@) && exists|h: int| self.is_head(h),
            r matches Ok(c) ==> exists|ids: Seq<usize>, order: Seq<usize>, h: int|
                {
                    &&& #[trigger] self.is_plan(ids, order, h)
                    &&& c.0@ == self.compiled(ids, order, h)
                    &&& self.op_at(h) matches Op::Head(o) && c.1 == o.n_feat
                },
            r == Err::<(OnnxGraph, usize), GraphError>(GraphError::Cycle) <==> !is_dag(self.nodes@),
            r == Err::<(OnnxGraph, usize), GraphError>(GraphError::MissingHead) <==> is_dag(self.nodes@) && forall|i: int|
                !self.is_head(i),
    {
        let lv = match levels(&self.nodes) {
            Ok(v) => v,
            Err(e) => {
                return Err(e);
            },
        };
        let order = schedule(&lv);
        let ids = series_list(&self.nodes);
        let ws: i64 = self.window_size as i64;
        let mut input: Vec<ValueInfo> = Vec::new();
        let mut a: usize = 0;
        while a < ids.len()
            invariant
                a <= ids@.len(),
                ws == self.window_size,
                value_views(input@) == series_inputs(ids@, self.window_size).take(a as int),
            decreases ids@.len() - a,
        {
            let ghost before = input@;
            let info = onnx_value_info(join2("in", &decimal_text(ids[a] as u64)), 1, ws);
            input.push(info);
            assert(value_views(input@) =~= value_views(before).push(info@));
            a += 1;
            assert(series_inputs(ids@, self.window_size).take(a as int) =~= series_inputs(ids@, self.window_size).take(
                a - 1,
            ).push(info@));
        }
        assert(series_inputs(ids@, self.window_size).take(a as int) =~= series_inputs(ids@, self.window_size));
        let graph = OnnxGraph {
            name: "DagGenome".to_owned(),
            input,
            initializer: Vec::new(),
            node: Vec::new(),
            output: Vec::new(),
        };
        let mut ctx = OnnxEmitCtx::new(graph, self.window_size);
        assert(ctx.graph@ =~= self.start(ids@));
        let mut head: Option<(usize, Head)> = None;
        let mut atr: Option<usize> = None;
        let mut p: usize = 0;
        while p < order.len()
            invariant
                p <= order@.len(),
                self.wired(),
                nats(lv@).len() == self.nodes@.len(),
                is_leveling(self.nodes@, nats(lv@)),
                is_schedule(nats(lv@), order@),
                ctx.window_size == self.window_size,
                ctx.graph@ == self.written(ids@, order@, p as nat),
                atr == self.last_atr(order@, p as nat),
                head is Some <==> self.last_head(order@, p as nat) is Some,
                head matches Some(h) ==> {
                    &&& self.last_head(order@, p as nat) == Some(h.0)
                    &&& self.is_head(h.0 as int)
                    &&& self.op_at(h.0 as int) == Op::Head(h.1)
                },
                forall|q: int| 0 <= q < p && self.is_head((#[trigger] order@[q]) as int) ==> head is Some,
            decreases order@.len() - p,
        {
            let i: usize = order[p];
            assert(i < nats(lv@).len());
            let node = &self.nodes[i];
            assert(*node == self.nodes@[i as int]);
            let op = self.ops[node.op];
            let out = join2("n", &decimal_text(i as u64));
            let inputs = name_inputs(&node.inputs);
            match op {
                Op::Head(h) => {
                    self.write_head(&mut ctx, h, i, inputs[0].as_str(), out.as_str());
                    assert(inputs@[0]@ == texts(inputs@)[0]);
                    head = Some((i, h));
                },
                _ => {
                    if op.is_atr() {
                        atr = Some(i);
                    }
                    let outputs = one(out);
                    let _ = op.emit(&mut ctx, &inputs, &outputs);
                    assert(outputs@[0]@ == texts(outputs@)[0]);
                },
            }
            assert(order@[p as int] == i);
            p += 1;
        }
        proof {
            assert(is_dag(self.nodes@));
            assert forall|i: int| self.is_head(i) implies head is Some by {
                assert(i < nats(lv@).len());
                assert(order@.contains(i as usize));
                let q = choose|q: int| 0 <= q < order@.len() && order@[q] == i as usize;
                assert(order@[q] as int == i);
            }
        }
        match head {
            None => Err(GraphError::MissingHead),
            Some((hi, h)) => {
                let ghost g = ctx.graph@;
                let mut graph = ctx.graph;
                graph.output.push(onnx_value_info(join2("n", &decimal_text(hi as u64)), 1, h.n_out as i64));
                if let Some(a) = atr {
                    graph.output.push(onnx_value_info(join2("n", &decimal_text(a as u64)), 1, 1));
                }
                proof {
                    self.lemma_no_output(ids@, order@, order@.len());
                    assert(self.is_head(hi as int));
                    assert(self.is_plan(ids@, order@, hi as int));
                    assert(graph@.output =~= self.outputs(hi as int, order@));
                    assert(graph@ =~= self.compiled(ids@, order@, hi as int));
                }
                Ok((graph, h.n_feat))
            },
        }
    }

    proof fn lemma_no_output(self, ids: Seq<usize>, order: Seq<usize>, k: nat)
        ensures
            self.written(ids, order, k).output == Seq::<ValueView>::empty(),
        decreases k,
    {
        if k > 0 {
            self.lemma_no_output(ids, order, (k - 1) as nat);
        }
    }

    fn write_head(&self, ctx: &mut OnnxEmitCtx, h: Head, i: usize, features: &str, out: &str)
        requires
            h.n_feat <= i64::MAX,
            h.n_out <= i64::MAX,
            h.n_feat * h.n_out <= i64::MAX,
        ensures
            final(ctx).window_size == old(ctx).window_size,
            final(ctx).graph@ == (GraphView {
                input: old(ctx).graph@.input + head_inputs(h),
                ..old(ctx).graph@.plus(head_inits(h, i as nat), head_nodes(features@, i as nat, out@))
            }),
    {
        let ghost g0 = ctx.graph@;
        let shape_name = join2("rsh_", &decimal_text(i as u64));
        let mut shape: Vec<i64> = Vec::new();
        shape.push(h.n_feat as i64);
        shape.push(h.n_out as i64);
        let mut dims: Vec<i64> = Vec::new();
        dims.push(2);
        assert(shape@ =~= seq![h.n_feat as i64, h.n_out as i64]);
        assert(dims@ =~= seq![2i64]);
        ctx.push_initializer(Initializer { name: shape_name.clone(), dims, data: TensorData::Shape(shape) });
        let weights: u64 = h.n_feat as u64 * h.n_out as u64;
        ctx.graph.input.push(onnx_value_info("W_pred_flat".to_owned(), 1, weights as i64));
        ctx.graph.input.push(onnx_value_info("B_pred".to_owned(), 1, h.n_out as i64));
        assert(value_views(ctx.graph.input@) =~= g0.input + head_inputs(h));
        ctx.push_node(
            onnx_node("Reshape", "w_reshape".to_owned(), two("W_pred_flat".to_owned(), shape_name), "W_pred".to_owned()),
        );
        ctx.push_node(
            onnx_node("MatMul", "pred_matmul".to_owned(), two(features.to_owned(), "W_pred".to_owned()), "dot".to_owned()),
        );
        ctx.push_node(
            onnx_node("Add", "pred_add".to_owned(), two("dot".to_owned(), "B_pred".to_owned()), "biased".to_owned()),
        );
        ctx.push_node(onnx_node("Sigmoid", "pred_sigmoid".to_owned(), one("biased".to_owned()), out.to_owned()));
        assert(ctx.graph@ =~= (GraphView {
            input: g0.input + head_inputs(h),
            ..g0.plus(head_inits(h, i as nat), head_nodes(features@, i as nat, out@))
        }));
    }
}

} // verus!
