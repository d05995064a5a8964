//! What holds of every compiled genome.
use vstd::prelude::*;
use super::compile::{input_names, is_series_list, node_name, reads_series, series_name, Op};
use super::genome::{head_inits, head_inputs, head_nodes, Graph};
use super::onnx::{GraphView, InitView, NodeView, ValueView};
use super::schedule::{is_leveling, is_schedule, leveling_unique, schedule_is_topological, schedule_unique};
use super::{In, Node};

verus! {

/// Whether `name` is one of `x`, a constant of `inits`, or an output of one of
/// the first `a` nodes.
spec fn known_at(inits: Seq<InitView>, x: Seq<Seq<char>>, nodes: Seq<NodeView>, a: int, name: Seq<char>) -> bool {
    ||| x.contains(name)
    ||| exists|c: int| 0 <= c < inits.len() && (#[trigger] inits[c]).name == name
    ||| exists|b: int| 0 <= b < a && b < nodes.len() && (#[trigger] nodes[b]).output.contains(name)
}

/// Whether `nodes` read only `x`, the constants `inits` and each other's
/// earlier outputs.
spec fn closed(inits: Seq<InitView>, x: Seq<Seq<char>>, nodes: Seq<NodeView>) -> bool {
    forall|a: int, j: int|
        0 <= a < nodes.len() && 0 <= j < nodes[a].input.len() ==> known_at(
            inits,
            x,
            nodes,
            a,
            #[trigger] nodes[a].input[j],
        )
}

proof fn lemma_op_closed(op: Op, ws: int, x: Seq<Seq<char>>, out: Seq<char>)
    requires
        op !is Head,
        x.len() >= op.arity(),
    ensures
        closed(op.inits(ws, out), x, op.nodes(x, out)),
        op.nodes(x, out).len() > 0,
        op.nodes(x, out).last().output == seq![out],
{
    let inits = op.inits(ws, out);
    let nodes = op.nodes(x, out);
    assert forall|b: int| 0 <= b < nodes.len() implies (#[trigger] nodes[b]).output.len() == 1 && nodes[b].output.contains(
        nodes[b].output[0],
    ) by {
    }
    assert forall|j: int| 0 <= j < x.len() implies x.contains(#[trigger] x[j]) by {}
    assert forall|a: int, j: int| 0 <= a < nodes.len() && 0 <= j < nodes[a].input.len() implies known_at(
        inits,
        x,
        nodes,
        a,
        #[trigger] nodes[a].input[j],
    ) by {
        let name = nodes[a].input[j];
        match op {
            Op::Concat(_) => {
                assert(name == x[j]);
            },
            Op::Rsi(_) => {
                if a == 0 {
                    assert(name == x[j]);
                } else if a == 1 {
                    if j == 0 {
                        assert(name == nodes[0].output[0]);
                    } else {
                        assert(name == inits[1].name);
                    }
                } else if a == 2 {
                    assert(name == nodes[0].output[0]);
                } else if a == 3 {
                    if j == 0 {
                        assert(name == nodes[2].output[0]);
                    } else {
                        assert(name == inits[1].name);
                    }
                } else if a == 4 {
                    if j == 0 {
                        assert(name == nodes[1].output[0]);
                    } else {
                        assert(name == inits[0].name);
                    }
                } else if a == 5 {
                    if j == 0 {
                        assert(name == nodes[3].output[0]);
                    } else {
                        assert(name == inits[0].name);
                    }
                } else if a == 6 {
                    if j == 0 {
                        assert(name == nodes[4].output[0]);
                    } else {
                        assert(name == nodes[5].output[0]);
                    }
                } else {
                    if j == 0 {
                        assert(name == nodes[4].output[0]);
                    } else {
                        assert(name == nodes[6].output[0]);
                    }
                }
            },
            Op::Atr(_) => {
                if a == 0 {
                    assert(name == x[j]);
                } else if a == 1 {
                    assert(name == x[2 * j]);
                } else if a == 2 {
                    assert(name == nodes[1].output[0]);
                } else if a == 3 {
                    assert(name == x[j + 1]);
                } else if a == 4 {
                    assert(name == nodes[3].output[0]);
                } else if a == 5 {
                    if j == 0 {
                        assert(name == nodes[0].output[0]);
                    } else {
                        assert(name == nodes[2].output[0]);
                    }
                } else if a == 6 {
                    if j == 0 {
                        assert(name == nodes[5].output[0]);
                    } else {
                        assert(name == nodes[4].output[0]);
                    }
                } else {
                    if j == 0 {
                        assert(name == nodes[6].output[0]);
                    } else {
                        assert(name == inits[0].name);
                    }
                }
            },
            Op::Roc(_) => {
                if a == 0 {
                    if j == 0 {
                        assert(name == x[0]);
                    } else {
                        assert(name == inits[0].name);
                    }
                } else if a == 1 {
                    if j == 0 {
                        assert(name == x[0]);
                    } else {
                        assert(name == inits[1].name);
                    }
                } else if a == 2 {
                    if j == 0 {
                        assert(name == nodes[0].output[0]);
                    } else {
                        assert(name == nodes[1].output[0]);
                    }
                } else {
                    if j == 0 {
                        assert(name == nodes[2].output[0]);
                    } else {
                        assert(name == nodes[1].output[0]);
                    }
                }
            },
            Op::DonchianHigh(_) | Op::DonchianLow(_) => {
                if a == 0 {
                    if j == 0 {
                        assert(name == x[0]);
                    } else {
                        assert(name == inits[0].name);
                    }
                } else {
                    assert(name == nodes[0].output[0]);
                }
            },
            Op::Last(_) | Op::Ema(_) | Op::Ma(_) => {
                if j == 0 {
                    assert(name == x[0]);
                } else {
                    assert(name == inits[0].name);
                }
            },
            _ => {
                assert(name == x[j]);
            },
        }
    }
}

proof fn lemma_given_grows(g: GraphView, h: GraphView, name: Seq<char>)
    requires
        g.is_given(name),
        exists|i: Seq<ValueView>| h.input == g.input + i,
        exists|i: Seq<InitView>| h.initializer == g.initializer + i,
    ensures
        h.is_given(name),
{
    if exists|i: int| 0 <= i < g.input.len() && (#[trigger] g.input[i]).name == name {
        let i = choose|i: int| 0 <= i < g.input.len() && (#[trigger] g.input[i]).name == name;
        assert(h.input[i].name == name);
    } else {
        let i = choose|i: int| 0 <= i < g.initializer.len() && (#[trigger] g.initializer[i]).name == name;
        assert(h.initializer[i].name == name);
    }
}

proof fn lemma_computed_grows(g: GraphView, h: GraphView, name: Seq<char>, a: int, b: int)
    requires
        g.is_computed(name, a),
        a <= b,
        exists|i: Seq<NodeView>| h.node == g.node + i,
    ensures
        h.is_computed(name, b),
{
    let i = choose|i: int| 0 <= i < a && i < g.node.len() && (#[trigger] g.node[i]).output.contains(name);
    assert(h.node[i].output.contains(name));
}

/// Adding nodes that read only what is known keeps the graph well defined.
proof fn lemma_defined_step(
    g: GraphView,
    h: GraphView,
    inputs: Seq<ValueView>,
    inits: Seq<InitView>,
    nodes: Seq<NodeView>,
    x: Seq<Seq<char>>,
)
    requires
        g.defined_before_use(),
        h.input == g.input + inputs,
        h.initializer == g.initializer + inits,
        h.node == g.node + nodes,
        closed(inits, x, nodes),
        forall|j: int| 0 <= j < x.len() ==> h.is_given(#[trigger] x[j]) || g.is_computed(x[j], g.node.len() as int),
    ensures
        h.defined_before_use(),
{
    assert forall|i: int, j: int| 0 <= i < h.node.len() && 0 <= j < h.node[i].input.len() implies ({
        let name = #[trigger] h.node[i].input[j];
        h.is_given(name) || h.is_computed(name, i)
    }) by {
        let name = h.node[i].input[j];
        if i < g.node.len() {
            assert(g.node[i].input[j] == name);
            if g.is_given(name) {
                lemma_given_grows(g, h, name);
            } else {
                lemma_computed_grows(g, h, name, i, i);
            }
        } else {
            let a = i - g.node.len();
            assert(nodes[a].input[j] == name);
            assert(known_at(inits, x, nodes, a, name));
            if x.contains(name) {
                let q = choose|q: int| 0 <= q < x.len() && x[q] == name;
                assert(h.is_given(x[q]) || g.is_computed(x[q], g.node.len() as int));
                if !h.is_given(name) {
                    lemma_computed_grows(g, h, name, g.node.len() as int, i);
                }
            } else if exists|c: int| 0 <= c < inits.len() && (#[trigger] inits[c]).name == name {
                let c = choose|c: int| 0 <= c < inits.len() && (#[trigger] inits[c]).name == name;
                assert(h.initializer[g.initializer.len() + c].name == name);
            } else {
                let b = choose|b: int| 0 <= b < a && b < nodes.len() && (#[trigger] nodes[b]).output.contains(name);
                assert(h.node[g.node.len() + b].output.contains(name));
            }
        }
    }
}

proof fn lemma_head_closed(g: Graph, i: int, x: Seq<Seq<char>>, out: Seq<char>)
    requires
        g.is_head(i),
        x.len() >= 1,
    ensures
        ({
            let h = g.op_at(i)->Head_0;
            let wide = seq![x[0], "W_pred_flat"@, "B_pred"@];
            &&& closed(head_inits(h, i as nat), wide, head_nodes(x[0], i as nat, out))
            &&& head_nodes(x[0], i as nat, out).last().output == seq![out]
        }),
{
    let h = g.op_at(i)->Head_0;
    let wide = seq![x[0], "W_pred_flat"@, "B_pred"@];
    let inits = head_inits(h, i as nat);
    let nodes = head_nodes(x[0], i as nat, out);
    assert forall|b: int| 0 <= b < nodes.len() implies (#[trigger] nodes[b]).output.len() == 1 && nodes[b].output.contains(
        nodes[b].output[0],
    ) by {
    }
    assert forall|a: int, j: int| 0 <= a < nodes.len() && 0 <= j < nodes[a].input.len() implies known_at(
        inits,
        wide,
        nodes,
        a,
        #[trigger] nodes[a].input[j],
    ) by {
        let name = nodes[a].input[j];
        if a == 0 {
            if j == 0 {
                assert(name == wide[1]);
            } else {
                assert(name == inits[0].name);
            }
        } else if a == 1 {
            if j == 0 {
                assert(name == wide[0]);
            } else {
                assert(name == nodes[0].output[0]);
            }
        } else if a == 2 {
            if j == 0 {
                assert(name == nodes[1].output[0]);
            } else {
                assert(name == wide[2]);
            }
        } else {
            assert(name == nodes[2].output[0]);
        }
    }
}

impl Graph {
    proof fn lemma_written(self, ids: Seq<usize>, order: Seq<usize>, lv: Seq<nat>, k: nat)
        requires
            self.wired(),
            is_series_list(self.nodes@, ids),
            is_leveling(self.nodes@, lv),
            is_schedule(lv, order),
            k <= order.len(),
        ensures
            ({
                let g = self.written(ids, order, k);
                &&& g.defined_before_use()
                &&& forall|a: int| 0 <= a < ids.len() ==> g.is_given(series_name((#[trigger] ids[a]) as nat))
                &&& forall|q: int| 0 <= q < k ==> g.is_computed(node_name((#[trigger] order[q]) as nat), g.node.len() as int)
            }),
        decreases k,
    {
        let h = self.written(ids, order, k);
        if k == 0 {
            assert forall|a: int| 0 <= a < ids.len() implies h.is_given(series_name((#[trigger] ids[a]) as nat)) by {
                assert(h.input[a].name == series_name(ids[a] as nat));
            }
        } else {
            let p = k - 1;
            self.lemma_written(ids, order, lv, p as nat);
            let g = self.written(ids, order, p as nat);
            let i = order[p] as int;
            let node = self.nodes@[i];
            let x = input_names(node.inputs@);
            let out = node_name(i as nat);
            assert forall|j: int| 0 <= j < x.len() implies g.is_given(#[trigger] x[j]) || g.is_computed(
                x[j],
                g.node.len() as int,
            ) by {
                match node.inputs@[j] {
                    In::FromExtractor(s) => {
                        assert(reads_series(self.nodes@, s)) by {
                            assert(self.nodes@[i].inputs@[j] == In::FromExtractor(s));
                        }
                        assert(ids.contains(s));
                        let a = choose|a: int| 0 <= a < ids.len() && ids[a] == s;
                        assert(g.is_given(series_name(ids[a] as nat)));
                    },
                    In::FromOperator(n) => {
                        schedule_is_topological(self.nodes@, lv, order, p, j);
                        let q = choose|q: int| 0 <= q < p && #[trigger] order[q] == n;
                        assert(g.is_computed(node_name(order[q] as nat), g.node.len() as int));
                    },
                }
            }
            let (inputs, inits, nodes) = match self.op_at(i) {
                Op::Head(hd) => (head_inputs(hd), head_inits(hd, i as nat), head_nodes(x[0], i as nat, out)),
                op => (Seq::empty(), op.inits(self.window_size as int, out), op.nodes(x, out)),
            };
            assert(h.input =~= g.input + inputs);
            assert(h.initializer =~= g.initializer + inits);
            assert(h.node =~= g.node + nodes);
            if self.op_at(i) is Head {
                lemma_head_closed(self, i, x, out);
                let wide = seq![x[0], "W_pred_flat"@, "B_pred"@];
                assert forall|j: int| 0 <= j < wide.len() implies h.is_given(#[trigger] wide[j]) || g.is_computed(
                    wide[j],
                    g.node.len() as int,
                ) by {
                    if j == 0 {
                        if g.is_given(x[0]) {
                            lemma_given_grows(g, h, x[0]);
                        }
                    } else {
                        assert(h.input[g.input.len() + (j - 1)].name == wide[j]);
                    }
                }
                lemma_defined_step(g, h, inputs, inits, nodes, wide);
            } else {
                lemma_op_closed(self.op_at(i), self.window_size as int, x, out);
                assert forall|j: int| 0 <= j < x.len() implies h.is_given(#[trigger] x[j]) || g.is_computed(
                    x[j],
                    g.node.len() as int,
                ) by {
                    if g.is_given(x[j]) {
                        lemma_given_grows(g, h, x[j]);
                    }
                }
                lemma_defined_step(g, h, inputs, inits, nodes, x);
            }
            assert forall|a: int| 0 <= a < ids.len() implies h.is_given(series_name((#[trigger] ids[a]) as nat)) by {
                lemma_given_grows(g, h, series_name(ids[a] as nat));
            }
            assert forall|q: int| 0 <= q < k implies h.is_computed(
                node_name((#[trigger] order[q]) as nat),
                h.node.len() as int,
            ) by {
                if q < p {
                    lemma_computed_grows(g, h, node_name(order[q] as nat), g.node.len() as int, h.node.len() as int);
                } else {
                    let last = h.node.len() - 1;
                    assert(h.node[last] == nodes.last());
                    assert(nodes.last().output[0] == out);
                    assert(h.node[last].output.contains(out));
                }
            }
        }
    }

    proof fn lemma_last_atr(self, order: Seq<usize>, k: nat)
        requires
            k <= order.len(),
        ensures
            self.last_atr(order, k) matches Some(a) ==> exists|q: int| 0 <= q < k && #[trigger] order[q] == a,
        decreases k,
    {
        if k > 0 {
            self.lemma_last_atr(order, (k - 1) as nat);
            assert(order[k - 1] == order[k - 1]);
        }
    }

    proof fn lemma_last_head(self, order: Seq<usize>, k: nat)
        requires
            k <= order.len(),
        ensures
            self.last_head(order, k) matches Some(h) ==> self.is_head(h as int) && exists|q: int|
                0 <= q < k && #[trigger] order[q] == h,
        decreases k,
    {
        if k > 0 {
            self.lemma_last_head(order, (k - 1) as nat);
            assert(order[k - 1] == order[k - 1]);
        }
    }

    /// In a compiled genome every node reads only graph inputs, constants and
    /// what earlier nodes compute, and every graph output is computed.
    pub proof fn compiled_is_well_defined(self, ids: Seq<usize>, order: Seq<usize>, head: int)
        requires
            self.wired(),
            self.is_plan(ids, order, head),
        ensures
            self.compiled(ids, order, head).defined_before_use(),
            self.compiled(ids, order, head).outputs_computed(),
    {
        let lv = choose|lv: Seq<nat>| is_leveling(self.nodes@, lv) && is_schedule(lv, order);
        self.lemma_written(ids, order, lv, order.len());
        self.lemma_last_atr(order, order.len());
        let g = self.written(ids, order, order.len());
        let c = self.compiled(ids, order, head);
        assert forall|i: int, j: int| 0 <= i < c.node.len() && 0 <= j < c.node[i].input.len() implies ({
            let name = #[trigger] c.node[i].input[j];
            c.is_given(name) || c.is_computed(name, i)
        }) by {
            let name = g.node[i].input[j];
            if g.is_given(name) {
                assert(g.input =~= g.input + Seq::empty());
                assert(g.initializer =~= g.initializer + Seq::empty());
                lemma_given_grows(g, c, name);
            } else {
                assert(g.node =~= g.node + Seq::empty());
                lemma_computed_grows(g, c, name, i, i);
            }
        }
        self.lemma_last_head(order, order.len());
        assert(head < lv.len() == self.nodes.len());
        assert(order.contains(head as usize));
        let hq = choose|q: int| 0 <= q < order.len() && order[q] == head as usize;
        assert(g.node =~= g.node + Seq::empty());
        assert forall|i: int| 0 <= i < c.output.len() implies c.is_computed(
            (#[trigger] c.output[i]).name,
            c.node.len() as int,
        ) by {
            if i == 0 {
                assert(g.is_computed(node_name(order[hq] as nat), g.node.len() as int));
                lemma_computed_grows(g, c, c.output[i].name, g.node.len() as int, c.node.len() as int);
            } else {
                let a = self.last_atr(order, order.len())->0;
                let q = choose|q: int| 0 <= q < order.len() && #[trigger] order[q] == a;
                assert(g.is_computed(node_name(order[q] as nat), g.node.len() as int));
                lemma_computed_grows(g, c, c.output[i].name, g.node.len() as int, c.node.len() as int);
            }
        }
    }

    /// A genome compiles to one graph only.
    pub proof fn plan_is_unique(
        self,
        ids: Seq<usize>,
        order: Seq<usize>,
        head: int,
        ids2: Seq<usize>,
        order2: Seq<usize>,
        head2: int,
    )
        requires
            self.is_plan(ids, order, head),
            self.is_plan(ids2, order2, head2),
        ensures
            ids == ids2,
            order == order2,
            head == head2,
    {
        let lv = choose|lv: Seq<nat>| is_leveling(self.nodes@, lv) && is_schedule(lv, order);
        let lv2 = choose|lv: Seq<nat>| is_leveling(self.nodes@, lv) && is_schedule(lv, order2);
        leveling_unique(self.nodes@, lv, lv2);
        assert(lv.len() == self.nodes.len());
        schedule_unique(lv, order, order2);
        lemma_series_list_unique(self.nodes@, ids, ids2);
    }
}

proof fn lemma_series_list_unique(nodes: Seq<Node>, a: Seq<usize>, b: Seq<usize>)
    requires
        is_series_list(nodes, a),
        is_series_list(nodes, b),
    ensures
        a == b,
{
    lemma_series_prefix(nodes, a, b, a.len() as int);
    lemma_series_prefix(nodes, b, a, b.len() as int);
    assert(a =~= b);
}

proof fn lemma_series_prefix(nodes: Seq<Node>, a: Seq<usize>, b: Seq<usize>, n: int)
    requires
        is_series_list(nodes, a),
        is_series_list(nodes, b),
        0 <= n <= a.len(),
    ensures
        n <= b.len(),
        forall|i: int| 0 <= i < n ==> a[i] == b[i],
    decreases n,
{
    if n > 0 {
        lemma_series_prefix(nodes, a, b, n - 1);
        let p = n - 1;
        assert(a.contains(a[p]));
        assert(b.contains(a[p]));
        let y = choose|y: int| 0 <= y < b.len() && b[y] == a[p];
        if y < p {
            assert(a[y] == b[y]);
            assert(a[y] < a[p]);
        }
        assert(b.contains(b[p]));
        assert(a.contains(b[p]));
        let x = choose|x: int| 0 <= x < a.len() && a[x] == b[p];
        if x < p {
            assert(b[x] == a[x]);
            assert(b[x] < b[p]);
        }
        if a[p] != b[p] {
            assert(b[p] < b[y]);
            assert(a[p] < a[x]);
        }
    }
}

} // verus!
