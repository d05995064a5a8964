//! What a graph computes: the meaning of its nodes over real numbers.
//!
//! A valuation gives every name of a graph a tensor. It solves the graph where the
//! constants have their entries and every node's output is what the node's operator
//! makes of its inputs. What an operator computes is said of every valuation that
//! solves the nodes it was written as.
use vstd::prelude::*;

use super::onnx::{DataView, InitView, NodeView};
use crate::exact::{raised, without};
use crate::num::Num;

verus! {

/// Rows of real numbers, one after the other.
#[verifier::ext_equal]
pub struct Tensor {
    pub rows: int,
    pub cols: int,
    pub data: Seq<real>,
}

/// How numbers are read, and what the logistic function makes of one.
pub struct Sense {
    pub num: spec_fn(Num) -> real,
    pub single: spec_fn(u32) -> real,
    pub squash: spec_fn(real) -> real,
}

/// One row.
pub open spec fn row(data: Seq<real>) -> Tensor {
    Tensor { rows: 1, cols: data.len() as int, data }
}

/// The greater of two real numbers.
pub open spec fn greater_of(a: real, b: real) -> real {
    if a < b {
        b
    } else {
        a
    }
}

/// The lesser of two real numbers.
pub open spec fn lesser_of(a: real, b: real) -> real {
    if b < a {
        b
    } else {
        a
    }
}

/// The sum of the products of the first `n` entries.
pub open spec fn dot(a: Seq<real>, b: Seq<real>, n: nat) -> real
    decreases n,
{
    if n == 0 {
        0 as real
    } else {
        dot(a, b, (n - 1) as nat) + a[n - 1] * b[n - 1]
    }
}

/// The sum of the entries from `from` up to `to`.
pub open spec fn sum_between(a: Seq<real>, from: int, to: int) -> real
    decreases to - from,
{
    if to <= from {
        0 as real
    } else {
        sum_between(a, from, to - 1) + a[to - 1]
    }
}

/// The greatest of the first `n` entries.
pub open spec fn greatest(a: Seq<real>, n: nat) -> real
    decreases n,
{
    if n <= 1 {
        a[0]
    } else {
        greater_of(greatest(a, (n - 1) as nat), a[n - 1])
    }
}

/// The least of the first `n` entries.
pub open spec fn least(a: Seq<real>, n: nat) -> real
    decreases n,
{
    if n <= 1 {
        a[0]
    } else {
        lesser_of(least(a, (n - 1) as nat), a[n - 1])
    }
}

/// Column `j`.
pub open spec fn column(t: Tensor, j: int) -> Seq<real> {
    Seq::new(t.rows as nat, |k: int| t.data[k * t.cols + j])
}

/// An operator of the graph format.
pub enum Kind {
    Add,
    Sub,
    Mul,
    Div,
    Max,
    Min,
    Abs,
    Neg,
    Sigmoid,
    MatMul,
    ReduceMax,
    ReduceMin,
    Concat,
    Reshape,
    Other,
}

/// The operator of this name.
pub open spec fn kind_of(op: Seq<char>) -> Kind {
    if op == "Add"@ {
        Kind::Add
    } else if op == "Sub"@ {
        Kind::Sub
    } else if op == "Mul"@ {
        Kind::Mul
    } else if op == "Div"@ {
        Kind::Div
    } else if op == "Max"@ {
        Kind::Max
    } else if op == "Min"@ {
        Kind::Min
    } else if op == "Abs"@ {
        Kind::Abs
    } else if op == "Neg"@ {
        Kind::Neg
    } else if op == "Sigmoid"@ {
        Kind::Sigmoid
    } else if op == "MatMul"@ {
        Kind::MatMul
    } else if op == "ReduceMax"@ {
        Kind::ReduceMax
    } else if op == "ReduceMin"@ {
        Kind::ReduceMin
    } else if op == "Concat"@ {
        Kind::Concat
    } else if op == "Reshape"@ {
        Kind::Reshape
    } else {
        Kind::Other
    }
}

/// Every operator has a name of its own.
pub proof fn kinds_are_told_apart()
    ensures
        kind_of("Add"@) is Add,
        kind_of("Sub"@) is Sub,
        kind_of("Mul"@) is Mul,
        kind_of("Div"@) is Div,
        kind_of("Max"@) is Max,
        kind_of("Min"@) is Min,
        kind_of("Abs"@) is Abs,
        kind_of("Neg"@) is Neg,
        kind_of("Sigmoid"@) is Sigmoid,
        kind_of("MatMul"@) is MatMul,
        kind_of("ReduceMax"@) is ReduceMax,
        kind_of("ReduceMin"@) is ReduceMin,
        kind_of("Concat"@) is Concat,
        kind_of("Reshape"@) is Reshape,
{
    reveal_strlit("Add");
    reveal_strlit("Sub");
    reveal_strlit("Mul");
    reveal_strlit("Div");
    reveal_strlit("Max");
    reveal_strlit("Min");
    reveal_strlit("Abs");
    reveal_strlit("Neg");
    reveal_strlit("Sigmoid");
    reveal_strlit("MatMul");
    reveal_strlit("ReduceMax");
    reveal_strlit("ReduceMin");
    reveal_strlit("Concat");
    reveal_strlit("Reshape");
    assert("Add"@.len() == 3 && "Add"@[0] == 'A' && "Add"@[1] == 'd');
    assert("Sub"@.len() == 3 && "Sub"@[0] == 'S');
    assert("Mul"@.len() == 3 && "Mul"@[0] == 'M' && "Mul"@[1] == 'u');
    assert("Div"@.len() == 3 && "Div"@[0] == 'D');
    assert("Max"@.len() == 3 && "Max"@[0] == 'M' && "Max"@[1] == 'a');
    assert("Min"@.len() == 3 && "Min"@[0] == 'M' && "Min"@[1] == 'i');
    assert("Abs"@.len() == 3 && "Abs"@[0] == 'A' && "Abs"@[1] == 'b');
    assert("Neg"@.len() == 3 && "Neg"@[0] == 'N');
    assert("Sigmoid"@.len() == 7 && "Sigmoid"@[0] == 'S');
    assert("MatMul"@.len() == 6 && "MatMul"@[0] == 'M');
    assert("ReduceMax"@.len() == 9 && "ReduceMax"@[8] == 'x');
    assert("ReduceMin"@.len() == 9 && "ReduceMin"@[8] == 'n');
    assert("Concat"@.len() == 6 && "Concat"@[0] == 'C');
    assert("Reshape"@.len() == 7 && "Reshape"@[0] == 'R');
}

/// What comes of two tensors of one shape, entry by entry.
pub open spec fn zipped(a: Tensor, b: Tensor, h: spec_fn(real, real) -> real) -> Tensor {
    Tensor { data: Seq::new(a.data.len(), |i: int| h(a.data[i], b.data[i])), ..a }
}

/// What comes of a tensor, entry by entry.
pub open spec fn mapped(a: Tensor, h: spec_fn(real) -> real) -> Tensor {
    Tensor { data: Seq::new(a.data.len(), |i: int| h(a.data[i])), ..a }
}

/// The rows of the named tensors, side by side.
pub open spec fn joined(v: spec_fn(Seq<char>) -> Tensor, names: Seq<Seq<char>>, n: nat) -> Seq<real>
    decreases n,
{
    if n == 0 {
        Seq::empty()
    } else {
        joined(v, names, (n - 1) as nat) + v(names[n - 1]).data
    }
}

/// What a node computes of the tensors it reads. A product is that of a row with a
/// matrix, a reduction that of a row to one entry, and what is joined are rows.
pub open spec fn computed(sense: Sense, node: NodeView, v: spec_fn(Seq<char>) -> Tensor) -> Tensor {
    let a = v(node.input[0]);
    let b = v(node.input[1]);
    match kind_of(node.op_type) {
        Kind::Add => zipped(a, b, |x: real, y: real| x + y),
        Kind::Sub => zipped(a, b, |x: real, y: real| x - y),
        Kind::Mul => zipped(a, b, |x: real, y: real| x * y),
        Kind::Div => zipped(a, b, |x: real, y: real| x / y),
        Kind::Max => zipped(a, b, |x: real, y: real| greater_of(x, y)),
        Kind::Min => zipped(a, b, |x: real, y: real| lesser_of(x, y)),
        Kind::Abs => mapped(a, |x: real| without(x)),
        Kind::Neg => mapped(a, |x: real| -x),
        Kind::Sigmoid => mapped(a, sense.squash),
        Kind::MatMul => row(Seq::new(b.cols as nat, |j: int| dot(a.data, column(b, j), a.cols as nat))),
        Kind::ReduceMax => row(seq![greatest(a.data, a.data.len())]),
        Kind::ReduceMin => row(seq![least(a.data, a.data.len())]),
        Kind::Concat => row(joined(v, node.input, node.input.len())),
        Kind::Reshape => Tensor { rows: b.data[0].floor(), cols: b.data[1].floor(), data: a.data },
        Kind::Other => a,
    }
}

/// The weights of an exponential average over a window: each step back keeps all but
/// `2 / (period + 1)` of the weight.
pub open spec fn ema_weights(ws: int, period: usize) -> Seq<real> {
    let k = 2 as real / (period as real + 1 as real);
    Seq::new(
        ws as nat,
        |i: int|
            if period == 0 {
                0 as real
            } else {
                k * raised(1 as real - k, (ws - 1 - i) as nat)
            },
    )
}

/// The weights of a simple average of the last `period` entries of a window.
pub open spec fn sma_weights(ws: int, period: usize) -> Seq<real> {
    Seq::new(
        ws as nat,
        |i: int|
            if period == 0 || i < ws - period {
                0 as real
            } else {
                1 as real / period as real
            },
    )
}

/// The weights of Wilder's average over a window whose first entry is no move: the
/// mean of the first `period` moves, of which each later step keeps all but one part in
/// `period`; the mean of all moves where there are no more than `period`.
pub open spec fn wilder_weights(ws: int, period: usize) -> Seq<real> {
    let k = 1 as real / period as real;
    let n = ws - 1;
    Seq::new(
        ws as nat,
        |i: int|
            if period == 0 || i == 0 {
                0 as real
            } else if n <= period {
                1 as real / n as real
            } else if i <= period {
                k * raised(1 as real - k, (n - period) as nat)
            } else {
                k * raised(1 as real - k, (n - i) as nat)
            },
    )
}

/// The entries of a constant, `ws` being the length of its window where it has one.
pub open spec fn entries(sense: Sense, data: DataView, ws: int) -> Seq<real> {
    match data {
        DataView::Whole(s) => Seq::new(s.len(), |i: int| s[i] as real),
        DataView::Bits(s) => Seq::new(s.len(), |i: int| (sense.single)(s[i])),
        DataView::Nums(s) => Seq::new(s.len(), |i: int| (sense.num)(s[i])),
        DataView::Shape(s) => Seq::new(s.len(), |i: int| s[i] as real),
        DataView::Ema(period) => ema_weights(ws, period),
        DataView::Sma(period) => sma_weights(ws, period),
        DataView::Rsi(period) => wilder_weights(ws, period),
    }
}

/// The tensor of a constant.
pub open spec fn constant(sense: Sense, init: InitView) -> Tensor {
    if init.dims.len() == 2 {
        Tensor {
            rows: init.dims[0] as int,
            cols: init.dims[1] as int,
            data: entries(sense, init.data, init.dims[0] as int),
        }
    } else {
        row(entries(sense, init.data, 0))
    }
}

/// Whether the constants have their entries.
pub open spec fn solves_inits(sense: Sense, inits: Seq<InitView>, v: spec_fn(Seq<char>) -> Tensor) -> bool {
    forall|i: int| 0 <= i < inits.len() ==> v((#[trigger] inits[i]).name) == constant(sense, inits[i])
}

/// Whether every node's output is what its operator makes of its inputs.
pub open spec fn solves_nodes(sense: Sense, nodes: Seq<NodeView>, v: spec_fn(Seq<char>) -> Tensor) -> bool {
    forall|i: int| 0 <= i < nodes.len() ==> v((#[trigger] nodes[i]).output[0]) == computed(sense, nodes[i], v)
}

/// A matrix of one column is that column.
pub proof fn lemma_one_column(t: Tensor)
    requires
        t.cols == 1,
        t.data.len() == t.rows,
    ensures
        column(t, 0) == t.data,
{
    assert forall|k: int| 0 <= k < t.rows implies #[trigger] column(t, 0)[k] == t.data[k] by {
        assert(k * t.cols + 0 == k) by (nonlinear_arith)
            requires
                t.cols == 1,
        ;
    }
    assert(column(t, 0) =~= t.data);
}

/// A row times one column is one entry.
pub proof fn lemma_row_times_column(sense: Sense, node: NodeView, v: spec_fn(Seq<char>) -> Tensor, a: Seq<real>, w: Seq<real>)
    requires
        kind_of(node.op_type) is MatMul,
        v(node.input[0]) == row(a),
        v(node.input[1]) == (Tensor { rows: a.len() as int, cols: 1, data: w }),
        w.len() == a.len(),
    ensures
        computed(sense, node, v) == row(seq![dot(a, w, a.len())]),
{
    lemma_one_column(v(node.input[1]));
    assert(computed(sense, node, v).data =~= seq![dot(a, w, a.len())]);
}

/// Weights that pick one entry pick it.
pub proof fn lemma_dot_picks(a: Seq<real>, w: Seq<real>, at: int, n: nat)
    requires
        forall|i: int| 0 <= i < n ==> #[trigger] w[i] == (if i == at { 1 as real } else { 0 as real }),
    ensures
        dot(a, w, n) == (if 0 <= at < n { a[at] } else { 0 as real }),
    decreases n,
{
    if n > 0 {
        lemma_dot_picks(a, w, at, (n - 1) as nat);
        let x = a[n - 1];
        assert(w[n - 1] == (if n - 1 == at { 1 as real } else { 0 as real }));
        assert(x * 1 as real == x) by (nonlinear_arith);
        assert(x * 0 as real == 0 as real) by (nonlinear_arith);
    }
}

/// Equal weights on the last entries give their sum, weighted.
pub proof fn lemma_dot_of_band(a: Seq<real>, w: Seq<real>, from: int, c: real, n: nat)
    requires
        0 <= from,
        forall|i: int| 0 <= i < n ==> #[trigger] w[i] == (if i < from { 0 as real } else { c }),
    ensures
        dot(a, w, n) == c * sum_between(a, from, n as int),
    decreases n,
{
    if n > 0 {
        lemma_dot_of_band(a, w, from, c, (n - 1) as nat);
        let x = a[n - 1];
        let s = sum_between(a, from, n - 1);
        assert(w[n - 1] == (if n - 1 < from { 0 as real } else { c }));
        assert(x * 0 as real == 0 as real) by (nonlinear_arith);
        assert(c * 0 as real == 0 as real) by (nonlinear_arith);
        assert(c * s + x * c == c * (s + x)) by (nonlinear_arith);
    } else {
        assert(c * 0 as real == 0 as real) by (nonlinear_arith);
    }
}

/// The sum of products is no less than zero where no product is.
pub proof fn lemma_dot_not_negative(a: Seq<real>, w: Seq<real>, n: nat)
    requires
        forall|i: int| 0 <= i < n ==> #[trigger] a[i] >= 0 as real,
        forall|i: int| 0 <= i < n ==> #[trigger] w[i] >= 0 as real,
    ensures
        dot(a, w, n) >= 0 as real,
    decreases n,
{
    if n > 0 {
        lemma_dot_not_negative(a, w, (n - 1) as nat);
        let x = a[n - 1];
        let y = w[n - 1];
        assert(x * y >= 0 as real) by (nonlinear_arith)
            requires
                x >= 0 as real,
                y >= 0 as real,
        ;
    }
}

/// The sum of products is above zero where no product is below it and one is above.
pub proof fn lemma_dot_positive(a: Seq<real>, w: Seq<real>, at: int, n: nat)
    requires
        0 <= at < n,
        forall|i: int| 0 <= i < n ==> #[trigger] a[i] >= 0 as real,
        forall|i: int| 0 <= i < n ==> #[trigger] w[i] >= 0 as real,
        a[at] > 0 as real,
        w[at] > 0 as real,
    ensures
        dot(a, w, n) > 0 as real,
    decreases n,
{
    let x = a[n - 1];
    let y = w[n - 1];
    assert(x * y >= 0 as real) by (nonlinear_arith)
        requires
            x >= 0 as real,
            y >= 0 as real,
    ;
    if at == n - 1 {
        lemma_dot_not_negative(a, w, (n - 1) as nat);
        assert(x * y > 0 as real) by (nonlinear_arith)
            requires
                x > 0 as real,
                y > 0 as real,
        ;
    } else {
        lemma_dot_positive(a, w, at, (n - 1) as nat);
    }
}

/// The greatest entry is one of them, and none is greater.
pub proof fn lemma_greatest(a: Seq<real>, n: nat)
    requires
        0 < n <= a.len(),
    ensures
        forall|i: int| 0 <= i < n ==> #[trigger] a[i] <= greatest(a, n),
        exists|i: int| 0 <= i < n && #[trigger] a[i] == greatest(a, n),
    decreases n,
{
    if n > 1 {
        lemma_greatest(a, (n - 1) as nat);
        let k = choose|i: int| 0 <= i < n - 1 && #[trigger] a[i] == greatest(a, (n - 1) as nat);
        assert(a[k] == a[k] && a[n - 1] == a[n - 1]);
    } else {
        assert(a[0] == greatest(a, n));
    }
}

/// The least entry is one of them, and none is less.
pub proof fn lemma_least(a: Seq<real>, n: nat)
    requires
        0 < n <= a.len(),
    ensures
        forall|i: int| 0 <= i < n ==> #[trigger] a[i] >= least(a, n),
        exists|i: int| 0 <= i < n && #[trigger] a[i] == least(a, n),
    decreases n,
{
    if n > 1 {
        lemma_least(a, (n - 1) as nat);
        let k = choose|i: int| 0 <= i < n - 1 && #[trigger] a[i] == least(a, (n - 1) as nat);
        assert(a[k] == a[k] && a[n - 1] == a[n - 1]);
    } else {
        assert(a[0] == least(a, n));
    }
}

} // verus!
