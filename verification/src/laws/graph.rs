//! What a compiled genome computes.
use vstd::prelude::*;

use super::ops::{an_operator_computes_what_it_means, means};
use crate::graph::compile::{input_names, node_name, Op};
use crate::graph::genome::{head_inits, head_nodes, Graph};
use crate::graph::meaning::{
    column, computed, constant, dot, kinds_are_told_apart, row, solves_inits, solves_nodes, Sense, Tensor,
};
use crate::graph::onnx::{InitView, NodeView};
use crate::graph::ops::Head;
use crate::graph::schedule::{is_leveling, is_schedule};

verus! {

/// What a prediction head makes of features: for each output its weights' share of every
/// feature, added up with its bias and put through the logistic function. The weights
/// stand feature by feature.
pub open spec fn predicted(sense: Sense, n_feat: int, n_out: int, features: Seq<real>, w: Seq<real>, b: Seq<real>) -> Seq<real> {
    Seq::new(
        n_out as nat,
        |j: int|
            (sense.squash)(dot(features, Seq::new(n_feat as nat, |k: int| w[k * n_out + j]), n_feat as nat) + b[j]),
    )
}

/// Whether a prediction head makes `y` of features, weights and biases of its sizes.
pub open spec fn head_means(sense: Sense, h: Head, features: Tensor, w: Tensor, b: Tensor, y: Tensor) -> bool {
    features == row(features.data) && features.data.len() == h.n_feat && b == row(b.data) && b.data.len() == h.n_out
        ==> y == row(predicted(sense, h.n_feat as int, h.n_out as int, features.data, w.data, b.data))
}

/// The four nodes of a prediction head compute the prediction.
pub proof fn lemma_prediction(
    sense: Sense,
    v: spec_fn(Seq<char>) -> Tensor,
    n_feat: int,
    n_out: int,
    shape: NodeView,
    times: NodeView,
    plus: NodeView,
    through: NodeView,
)
    requires
        shape.op_type == "Reshape"@ && times.op_type == "MatMul"@ && plus.op_type == "Add"@ && through.op_type == "Sigmoid"@,
        shape.output.len() == 1 && times.output.len() == 1 && plus.output.len() == 1 && through.output.len() == 1,
        times.input[1] == shape.output[0],
        plus.input[0] == times.output[0],
        through.input[0] == plus.output[0],
        v(shape.output[0]) == computed(sense, shape, v),
        v(times.output[0]) == computed(sense, times, v),
        v(plus.output[0]) == computed(sense, plus, v),
        v(through.output[0]) == computed(sense, through, v),
        0 <= n_feat,
        0 <= n_out,
        v(shape.input[1]).data == seq![n_feat as real, n_out as real],
        v(times.input[0]) == row(v(times.input[0]).data),
        v(times.input[0]).data.len() == n_feat,
        v(plus.input[1]) == row(v(plus.input[1]).data),
        v(plus.input[1]).data.len() == n_out,
    ensures
        v(through.output[0]) == row(
            predicted(sense, n_feat, n_out, v(times.input[0]).data, v(shape.input[0]).data, v(plus.input[1]).data),
        ),
{
    kinds_are_told_apart();
    let w = v(shape.output[0]);
    let flat = v(shape.input[0]).data;
    let features = v(times.input[0]).data;
    let b = v(plus.input[1]).data;
    assert(v(shape.input[1]).data[0] == n_feat as real);
    assert(v(shape.input[1]).data[1] == n_out as real);
    assert(w == (Tensor { rows: n_feat, cols: n_out, data: flat }));
    let d = v(times.output[0]);
    assert forall|j: int| 0 <= j < n_out implies #[trigger] d.data[j] == dot(
        features,
        Seq::new(n_feat as nat, |k: int| flat[k * n_out + j]),
        n_feat as nat,
    ) by {
        assert(column(w, j) =~= Seq::new(n_feat as nat, |k: int| flat[k * n_out + j]));
    }
    let y = v(through.output[0]);
    assert(y.data =~= predicted(sense, n_feat, n_out, features, flat, b));
}

/// What solves a graph solves every part of it.
pub proof fn lemma_parts_solved(
    sense: Sense,
    v: spec_fn(Seq<char>) -> Tensor,
    a: Seq<InitView>,
    b: Seq<InitView>,
    m: Seq<NodeView>,
    n: Seq<NodeView>,
)
    requires
        solves_inits(sense, a + b, v),
        solves_nodes(sense, m + n, v),
    ensures
        solves_inits(sense, a, v),
        solves_inits(sense, b, v),
        solves_nodes(sense, m, v),
        solves_nodes(sense, n, v),
{
    assert forall|i: int| 0 <= i < a.len() implies v((#[trigger] a[i]).name) == constant(sense, a[i]) by {
        assert((a + b)[i] == a[i]);
    }
    assert forall|i: int| 0 <= i < b.len() implies v((#[trigger] b[i]).name) == constant(sense, b[i]) by {
        assert((a + b)[a.len() + i] == b[i]);
    }
    assert forall|i: int| 0 <= i < m.len() implies v((#[trigger] m[i]).output[0]) == computed(sense, m[i], v) by {
        assert((m + n)[i] == m[i]);
    }
    assert forall|i: int| 0 <= i < n.len() implies v((#[trigger] n[i]).output[0]) == computed(sense, n[i], v) by {
        assert((m + n)[m.len() + i] == n[i]);
    }
}

impl Graph {
    /// Whether node `i` of the genome makes its value of its inputs' values as its
    /// operator says.
    pub open spec fn node_holds(self, sense: Sense, v: spec_fn(Seq<char>) -> Tensor, i: int) -> bool {
        let x = input_names(self.nodes@[i].inputs@);
        match self.op_at(i) {
            Op::Head(h) => head_means(sense, h, v(x[0]), v("W_pred_flat"@), v("B_pred"@), v(node_name(i as nat))),
            op => means(
                sense,
                op,
                self.window_size as int,
                Seq::new(x.len(), |j: int| v(x[j])),
                v(node_name(i as nat)),
            ),
        }
    }

    proof fn lemma_written_computes(
        self,
        sense: Sense,
        v: spec_fn(Seq<char>) -> Tensor,
        ids: Seq<usize>,
        order: Seq<usize>,
        k: nat,
    )
        requires
            self.wired(),
            k <= order.len(),
            forall|q: int| 0 <= q < order.len() ==> (#[trigger] order[q]) < self.nodes@.len(),
            solves_inits(sense, self.written(ids, order, k).initializer, v),
            solves_nodes(sense, self.written(ids, order, k).node, v),
        ensures
            forall|q: int| 0 <= q < k ==> self.node_holds(sense, v, (#[trigger] order[q]) as int),
        decreases k,
    {
        if k > 0 {
            let g = self.written(ids, order, (k - 1) as nat);
            let i = order[k - 1] as int;
            let node = self.nodes@[i];
            let x = input_names(node.inputs@);
            let out = node_name(i as nat);
            let ws = self.window_size as int;
            assert(i < self.nodes@.len());
            assert(x.len() >= self.op_at(i).arity());
            match self.op_at(i) {
                Op::Head(h) => {
                    let inits = head_inits(h, i as nat);
                    let nodes = head_nodes(x[0], i as nat, out);
                    lemma_parts_solved(sense, v, g.initializer, inits, g.node, nodes);
                    assert(v(inits[0].name) == constant(sense, inits[0]));
                    assert(v(inits[0].name).data =~= seq![h.n_feat as real, h.n_out as real]);
                    assert(v(nodes[0].output[0]) == computed(sense, nodes[0], v));
                    assert(v(nodes[1].output[0]) == computed(sense, nodes[1], v));
                    assert(v(nodes[2].output[0]) == computed(sense, nodes[2], v));
                    assert(v(nodes[3].output[0]) == computed(sense, nodes[3], v));
                    let f = v(x[0]);
                    let b = v("B_pred"@);
                    if f == row(f.data) && f.data.len() == h.n_feat && b == row(b.data) && b.data.len() == h.n_out {
                        lemma_prediction(
                            sense,
                            v,
                            h.n_feat as int,
                            h.n_out as int,
                            nodes[0],
                            nodes[1],
                            nodes[2],
                            nodes[3],
                        );
                    }
                },
                op => {
                    lemma_parts_solved(sense, v, g.initializer, op.inits(ws, out), g.node, op.nodes(x, out));
                    an_operator_computes_what_it_means(sense, op, ws, x, out, v);
                },
            }
            assert(self.node_holds(sense, v, i));
            self.lemma_written_computes(sense, v, ids, order, (k - 1) as nat);
        }
    }

    /// A compiled genome computes what its operators mean: under every valuation that
    /// solves the compiled graph, each node's value comes of the values of its inputs
    /// as its operator says, and the head's prediction of the features, the weights and
    /// the biases.
    pub proof fn a_compiled_genome_computes_its_operators(
        self,
        sense: Sense,
        v: spec_fn(Seq<char>) -> Tensor,
        ids: Seq<usize>,
        order: Seq<usize>,
        head: int,
    )
        requires
            self.wired(),
            self.is_plan(ids, order, head),
            solves_inits(sense, self.compiled(ids, order, head).initializer, v),
            solves_nodes(sense, self.compiled(ids, order, head).node, v),
        ensures
            forall|i: int| 0 <= i < self.nodes@.len() ==> #[trigger] self.node_holds(sense, v, i),
    {
        let lv = choose|lv: Seq<nat>| is_leveling(self.nodes@, lv) && is_schedule(lv, order);
        assert(lv.len() == self.nodes@.len());
        assert forall|q: int| 0 <= q < order.len() implies (#[trigger] order[q]) < self.nodes@.len() by {
            assert(order[q] < lv.len());
        }
        self.lemma_written_computes(sense, v, ids, order, order.len());
        assert forall|i: int| 0 <= i < self.nodes@.len() implies #[trigger] self.node_holds(sense, v, i) by {
            assert(i < lv.len() == self.nodes.len());
            assert(order.contains(i as usize));
            let q = choose|q: int| 0 <= q < order.len() && order[q] == i as usize;
            assert(self.node_holds(sense, v, order[q] as int));
        }
    }
}

} // verus!
