//! Compiling a genome to an ONNX description.
use vstd::prelude::*;
use vstd::string::*;

use super::ctx::OnnxEmitCtx;
use super::onnx::{join2, one, InitView, NodeView};
use super::ops::{
    Abs, Add, Atr, Concat, Div, DonchianHigh, DonchianLow, Ema, Head, Last, Ma, Max, Min, Mul, Neg, Roc, Rsi, Sigmoid, Sub,
};
use super::{GraphError, In, Node};
use crate::text::{decimal, decimal_text, texts};

verus! {

/// An operator of the genome alphabet.
#[derive(Clone, Copy, Debug, PartialEq, Eq, Structural)]
pub enum Op {
    Last(Last),
    Roc(Roc),
    Atr(Atr),
    DonchianHigh(DonchianHigh),
    DonchianLow(DonchianLow),
    Ema(Ema),
    Ma(Ma),
    Rsi(Rsi),
    Concat(Concat),
    Head(Head),
    Add(Add),
    Sub(Sub),
    Mul(Mul),
    Div(Div),
    Abs(Abs),
    Max(Max),
    Min(Min),
    Neg(Neg),
    Sigmoid(Sigmoid),
}

impl Op {
    /// How many inputs the operator reads at least.
    pub open spec fn arity(self) -> nat {
        match self {
            Op::Concat(_) => 0,
            Op::Atr(_) => 3,
            Op::Rsi(_) | Op::Add(_) | Op::Sub(_) | Op::Mul(_) | Op::Div(_) | Op::Max(_) | Op::Min(_) => 2,
            _ => 1,
        }
    }

    /// The constants that the operator adds.
    pub open spec fn inits(self, ws: int, out: Seq<char>) -> Seq<InitView> {
        match self {
            Op::Last(o) => o.inits(ws, out),
            Op::Roc(o) => o.inits(ws, out),
            Op::Atr(o) => o.inits(ws, out),
            Op::DonchianHigh(o) => o.inits(ws, out),
            Op::DonchianLow(o) => o.inits(ws, out),
            Op::Ema(o) => o.inits(ws, out),
            Op::Ma(o) => o.inits(ws, out),
            Op::Rsi(o) => o.inits(ws, out),
            _ => Seq::empty(),
        }
    }

    /// The nodes that the operator adds.
    pub open spec fn nodes(self, x: Seq<Seq<char>>, out: Seq<char>) -> Seq<NodeView> {
        match self {
            Op::Last(o) => o.nodes(x, out),
            Op::Roc(o) => o.nodes(x, out),
            Op::Atr(o) => o.nodes(x, out),
            Op::DonchianHigh(o) => o.nodes(x, out),
            Op::DonchianLow(o) => o.nodes(x, out),
            Op::Ema(o) => o.nodes(x, out),
            Op::Ma(o) => o.nodes(x, out),
            Op::Rsi(o) => o.nodes(x, out),
            Op::Concat(o) => o.nodes(x, out),
            Op::Head(_) => Seq::empty(),
            Op::Add(o) => o.nodes(x, out),
            Op::Sub(o) => o.nodes(x, out),
            Op::Mul(o) => o.nodes(x, out),
            Op::Div(o) => o.nodes(x, out),
            Op::Abs(o) => o.nodes(x, out),
            Op::Max(o) => o.nodes(x, out),
            Op::Min(o) => o.nodes(x, out),
            Op::Neg(o) => o.nodes(x, out),
            Op::Sigmoid(o) => o.nodes(x, out),
        }
    }

    /// Writes the operator's constants and nodes; nothing for a head.
    pub fn emit(&self, ctx: &mut OnnxEmitCtx, inputs: &Vec<String>, outputs: &Vec<String>) -> (r: Result<(), GraphError>)
        requires
            inputs@.len() >= self.arity(),
            outputs@.len() >= 1,
            old(ctx).window_size <= i64::MAX,
        ensures
            r is Ok,
            final(ctx).window_size == old(ctx).window_size,
            final(ctx).graph@ == old(ctx).graph@.plus(
                self.inits(old(ctx).window_size as int, outputs@[0]@),
                self.nodes(texts(inputs@), outputs@[0]@),
            ),
    {
        match self {
            Op::Last(o) => o.emit(ctx, inputs, outputs),
            Op::Roc(o) => o.emit(ctx, inputs, outputs),
            Op::Atr(o) => o.emit(ctx, inputs, outputs),
            Op::DonchianHigh(o) => o.emit(ctx, inputs, outputs),
            Op::DonchianLow(o) => o.emit(ctx, inputs, outputs),
            Op::Ema(o) => o.emit(ctx, inputs, outputs),
            Op::Ma(o) => o.emit(ctx, inputs, outputs),
            Op::Rsi(o) => o.emit(ctx, inputs, outputs),
            Op::Concat(o) => o.emit(ctx, inputs, outputs),
            Op::Head(_) => {
                assert(ctx.graph@ =~= ctx.graph@.plus(Seq::empty(), Seq::empty()));
                Ok(())
            },
            Op::Add(o) => o.emit(ctx, inputs, outputs),
            Op::Sub(o) => o.emit(ctx, inputs, outputs),
            Op::Mul(o) => o.emit(ctx, inputs, outputs),
            Op::Div(o) => o.emit(ctx, inputs, outputs),
            Op::Abs(o) => o.emit(ctx, inputs, outputs),
            Op::Max(o) => o.emit(ctx, inputs, outputs),
            Op::Min(o) => o.emit(ctx, inputs, outputs),
            Op::Neg(o) => o.emit(ctx, inputs, outputs),
            Op::Sigmoid(o) => o.emit(ctx, inputs, outputs),
        }
    }

    /// The number of features that a prediction head reads.
    pub fn head_features(&self) -> (r: Option<usize>)
        ensures
            r == (match *self {
                Op::Head(h) => Some(h.n_feat),
                _ => None::<usize>,
            }),
    {
        match self {
            Op::Head(h) => Some(h.n_feat),
            _ => None,
        }
    }

    /// Whether the operator computes the average true range.
    pub fn is_atr(&self) -> (r: bool)
        ensures
            r == (*self is Atr),
    {
        match self {
            Op::Atr(_) => true,
            _ => false,
        }
    }

    /// The number of values that a prediction head puts out; 0 for any other
    /// operator.
    pub fn head_n_out(&self) -> (r: usize)
        ensures
            r == (match *self {
                Op::Head(h) => h.n_out,
                _ => 0usize,
            }),
    {
        match self {
            Op::Head(h) => h.n_out,
            _ => 0,
        }
    }
}

/// The name of the value that node `i` computes.
pub open spec fn node_name(i: nat) -> Seq<char> {
    "n"@ + decimal(i)
}

/// The name of raw series `k`.
pub open spec fn series_name(k: nat) -> Seq<char> {
    "in"@ + decimal(k)
}

/// The name of what an input reads.
pub open spec fn input_name(input: In) -> Seq<char> {
    match input {
        In::FromExtractor(k) => series_name(k as nat),
        In::FromOperator(k) => node_name(k as nat),
    }
}

/// The names of what a node reads.
pub open spec fn input_names(inputs: Seq<In>) -> Seq<Seq<char>> {
    Seq::new(inputs.len(), |j: int| input_name(inputs[j]))
}

pub(crate) fn name_inputs(inputs: &Vec<In>) -> (r: Vec<String>)
    ensures
        texts(r@) == input_names(inputs@),
        r@.len() == inputs@.len(),
{
    let mut v: Vec<String> = Vec::new();
    let mut j: usize = 0;
    while j < inputs.len()
        invariant
            j <= inputs@.len(),
            v@.len() == j,
            texts(v@) == input_names(inputs@).take(j as int),
        decreases inputs@.len() - j,
    {
        let ghost before = v@;
        let name = match inputs[j] {
            In::FromExtractor(k) => join2("in", &decimal_text(k as u64)),
            In::FromOperator(k) => join2("n", &decimal_text(k as u64)),
        };
        v.push(name);
        assert(texts(v@) =~= texts(before).push(name@));
        j += 1;
        assert(input_names(inputs@).take(j as int) =~= input_names(inputs@).take(j - 1).push(
            input_name(inputs@[j - 1]),
        ));
    }
    assert(input_names(inputs@).take(j as int) =~= input_names(inputs@));
    v
}

/// Whether some node reads raw series `k`.
pub open spec fn reads_series(nodes: Seq<Node>, k: usize) -> bool {
    exists|i: int, j: int|
        0 <= i < nodes.len() && 0 <= j < nodes[i].inputs@.len() && #[trigger] nodes[i].inputs@[j] == In::FromExtractor(k)
}

/// Whether `ids` lists the raw series that the nodes read, each once, in
/// ascending order.
pub open spec fn is_series_list(nodes: Seq<Node>, ids: Seq<usize>) -> bool {
    &&& forall|a: int, b: int| 0 <= a < b < ids.len() ==> #[trigger] ids[a] < #[trigger] ids[b]
    &&& forall|k: usize| ids.contains(k) <==> reads_series(nodes, k)
}

fn insert_sorted(ids: &mut Vec<usize>, k: usize)
    requires
        forall|a: int, b: int| 0 <= a < b < old(ids)@.len() ==> #[trigger] old(ids)@[a] < #[trigger] old(ids)@[b],
    ensures
        forall|a: int, b: int| 0 <= a < b < final(ids)@.len() ==> #[trigger] final(ids)@[a] < #[trigger] final(ids)@[b],
        forall|x: usize| final(ids)@.contains(x) <==> old(ids)@.contains(x) || x == k,
{
    let mut p: usize = 0;
    while p < ids.len() && ids[p] < k
        invariant
            p <= ids@.len(),
            ids@ == old(ids)@,
            forall|a: int| 0 <= a < p ==> ids@[a] < k,
        decreases ids@.len() - p,
    {
        p += 1;
    }
    if p < ids.len() && ids[p] == k {
        assert(ids@[p as int] == k);
        return;
    }
    ids.insert(p, k);
    proof {
        assert forall|x: usize| ids@.contains(x) <==> old(ids)@.contains(x) || x == k by {
            if old(ids)@.contains(x) {
                let q = choose|q: int| 0 <= q < old(ids)@.len() && old(ids)@[q] == x;
                if q < p {
                    assert(ids@[q] == x);
                } else {
                    assert(ids@[q + 1] == x);
                }
            }
            if x == k {
                assert(ids@[p as int] == x);
            }
            if ids@.contains(x) {
                let q = choose|q: int| 0 <= q < ids@.len() && ids@[q] == x;
                if q < p {
                    assert(old(ids)@[q] == x);
                } else if q > p {
                    assert(old(ids)@[q - 1] == x);
                }
            }
        }
    }
}

/// Whether one of the first `upto` inputs reads raw series `k`.
spec fn names_series(inputs: Seq<In>, upto: int, k: usize) -> bool {
    exists|x: int| 0 <= x < upto && #[trigger] inputs[x] == In::FromExtractor(k)
}

proof fn lemma_names_series_step(inputs: Seq<In>, j: int, k: usize)
    requires
        0 <= j < inputs.len(),
    ensures
        names_series(inputs, j + 1, k) <==> names_series(inputs, j, k) || inputs[j] == In::FromExtractor(k),
{
    if names_series(inputs, j, k) {
        let x = choose|x: int| 0 <= x < j && #[trigger] inputs[x] == In::FromExtractor(k);
        assert(0 <= x < j + 1 && inputs[x] == In::FromExtractor(k));
    }
    if inputs[j] == In::FromExtractor(k) {
        assert(0 <= j < j + 1 && inputs[j] == In::FromExtractor(k));
    }
}

/// The raw series that the nodes read, in ascending order.
pub(crate) fn series_list(nodes: &Vec<Node>) -> (ids: Vec<usize>)
    ensures
        is_series_list(nodes@, ids@),
{
    let mut ids: Vec<usize> = Vec::new();
    let mut i: usize = 0;
    while i < nodes.len()
        invariant
            i <= nodes@.len(),
            forall|a: int, b: int| 0 <= a < b < ids@.len() ==> #[trigger] ids@[a] < #[trigger] ids@[b],
            forall|k: usize| ids@.contains(k) <==> reads_series(nodes@.take(i as int), k),
        decreases nodes@.len() - i,
    {
        let inputs = &nodes[i].inputs;
        let ghost past = nodes@.take(i as int);
        let mut j: usize = 0;
        while j < inputs.len()
            invariant
                j <= inputs@.len(),
                i < nodes@.len(),
                past == nodes@.take(i as int),
                inputs == nodes@[i as int].inputs,
                forall|a: int, b: int| 0 <= a < b < ids@.len() ==> #[trigger] ids@[a] < #[trigger] ids@[b],
                forall|k: usize| #[trigger]
                    ids@.contains(k) <==> reads_series(past, k) || names_series(inputs@, j as int, k),
            decreases inputs@.len() - j,
        {
            let ghost ids0 = ids@;
            match inputs[j] {
                In::FromExtractor(k) => {
                    insert_sorted(&mut ids, k);
                },
                In::FromOperator(_) => {},
            }
            let ghost was = j as int;
            j += 1;
            proof {
                assert forall|k: usize| #[trigger]
                    ids@.contains(k) <==> reads_series(past, k) || names_series(inputs@, j as int, k) by {
                    lemma_names_series_step(inputs@, was, k);
                    assert(ids0.contains(k) <==> reads_series(past, k) || names_series(inputs@, was, k));
                }
            }
        }
        proof {
            let now = nodes@.take(i + 1);
            assert forall|k: usize| ids@.contains(k) <==> reads_series(now, k) by {
                if reads_series(past, k) {
                    let (a, b) = choose|a: int, b: int|
                        0 <= a < past.len() && 0 <= b < past[a].inputs@.len() && #[trigger] past[a].inputs@[b]
                            == In::FromExtractor(k);
                    assert(now[a].inputs@[b] == In::FromExtractor(k));
                }
                if names_series(inputs@, inputs@.len() as int, k) {
                    let x = choose|x: int| 0 <= x < inputs@.len() && #[trigger] inputs@[x] == In::FromExtractor(k);
                    assert(now[i as int].inputs@[x] == In::FromExtractor(k));
                }
                if reads_series(now, k) {
                    let (a, b) = choose|a: int, b: int|
                        0 <= a < now.len() && 0 <= b < now[a].inputs@.len() && #[trigger] now[a].inputs@[b]
                            == In::FromExtractor(k);
                    if a < i {
                        assert(past[a].inputs@[b] == In::FromExtractor(k));
                    } else {
                        assert(inputs@[b] == In::FromExtractor(k));
                        assert(names_series(inputs@, inputs@.len() as int, k));
                    }
                }
            }
        }
        i += 1;
    }
    assert(nodes@.take(i as int) =~= nodes@);
    ids
}

} // verus!
