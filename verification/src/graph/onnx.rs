//! A plain description of an ONNX graph: inputs, initializers, nodes and
//! outputs by name.
//!
//! Tensors are described rather than filled in where their entries are
//! fractions: `ctx` has the formulas of those weights.
use vstd::prelude::*;
use vstd::string::*;

use crate::num::Num;
use crate::text::texts;

verus! {

/// An attribute of a node.
#[derive(Debug)]
pub enum Attr {
    Int { name: String, value: i64 },
    Ints { name: String, values: Vec<i64> },
}

#[verifier::ext_equal]
pub enum AttrView {
    Int { name: Seq<char>, value: i64 },
    Ints { name: Seq<char>, values: Seq<i64> },
}

impl View for Attr {
    type V = AttrView;

    open spec fn view(&self) -> AttrView {
        match self {
            Attr::Int { name, value } => AttrView::Int { name: name@, value: *value },
            Attr::Ints { name, values } => AttrView::Ints { name: name@, values: values@ },
        }
    }
}

/// One operator application of the graph.
#[derive(Debug)]
pub struct OnnxNode {
    pub op_type: String,
    pub name: String,
    pub input: Vec<String>,
    pub output: Vec<String>,
    pub attribute: Vec<Attr>,
}

#[verifier::ext_equal]
pub struct NodeView {
    pub op_type: Seq<char>,
    pub name: Seq<char>,
    pub input: Seq<Seq<char>>,
    pub output: Seq<Seq<char>>,
    pub attribute: Seq<AttrView>,
}

impl View for OnnxNode {
    type V = NodeView;

    open spec fn view(&self) -> NodeView {
        NodeView {
            op_type: self.op_type@,
            name: self.name@,
            input: texts(self.input@),
            output: texts(self.output@),
            attribute: Seq::new(self.attribute@.len(), |i: int| self.attribute@[i]@),
        }
    }
}

/// The entries of a constant tensor.
#[derive(Debug)]
pub enum TensorData {
    /// Floating-point entries that are whole numbers.
    Whole(Vec<i64>),
    /// Floating-point entries by their single-precision bit patterns.
    Bits(Vec<u32>),
    /// Floating-point entries as numbers.
    Nums(Vec<Num>),
    /// Integer entries, as a tensor shape has them.
    Shape(Vec<i64>),
    /// Exponential decay weights of the given period.
    Ema(usize),
    /// Simple average weights of the given period.
    Sma(usize),
    /// Wilder smoothing weights of the given period.
    Rsi(usize),
}

#[verifier::ext_equal]
pub enum DataView {
    Whole(Seq<i64>),
    Bits(Seq<u32>),
    Nums(Seq<Num>),
    Shape(Seq<i64>),
    Ema(usize),
    Sma(usize),
    Rsi(usize),
}

impl View for TensorData {
    type V = DataView;

    open spec fn view(&self) -> DataView {
        match self {
            TensorData::Whole(v) => DataView::Whole(v@),
            TensorData::Bits(v) => DataView::Bits(v@),
            TensorData::Nums(v) => DataView::Nums(v@),
            TensorData::Shape(v) => DataView::Shape(v@),
            TensorData::Ema(p) => DataView::Ema(*p),
            TensorData::Sma(p) => DataView::Sma(*p),
            TensorData::Rsi(p) => DataView::Rsi(*p),
        }
    }
}

/// A named constant tensor.
#[derive(Debug)]
pub struct Initializer {
    pub name: String,
    pub dims: Vec<i64>,
    pub data: TensorData,
}

#[verifier::ext_equal]
pub struct InitView {
    pub name: Seq<char>,
    pub dims: Seq<i64>,
    pub data: DataView,
}

impl View for Initializer {
    type V = InitView;

    open spec fn view(&self) -> InitView {
        InitView { name: self.name@, dims: self.dims@, data: self.data@ }
    }
}

/// The name and shape of a floating-point input or output.
#[derive(Debug)]
pub struct ValueInfo {
    pub name: String,
    pub batch: i64,
    pub width: i64,
}

#[verifier::ext_equal]
pub struct ValueView {
    pub name: Seq<char>,
    pub batch: i64,
    pub width: i64,
}

impl View for ValueInfo {
    type V = ValueView;

    open spec fn view(&self) -> ValueView {
        ValueView { name: self.name@, batch: self.batch, width: self.width }
    }
}

/// A whole graph.
#[derive(Debug)]
pub struct OnnxGraph {
    pub name: String,
    pub input: Vec<ValueInfo>,
    pub initializer: Vec<Initializer>,
    pub node: Vec<OnnxNode>,
    pub output: Vec<ValueInfo>,
}

#[verifier::ext_equal]
pub struct GraphView {
    pub name: Seq<char>,
    pub input: Seq<ValueView>,
    pub initializer: Seq<InitView>,
    pub node: Seq<NodeView>,
    pub output: Seq<ValueView>,
}

pub open spec fn value_views(v: Seq<ValueInfo>) -> Seq<ValueView> {
    Seq::new(v.len(), |i: int| v[i]@)
}

pub open spec fn init_views(v: Seq<Initializer>) -> Seq<InitView> {
    Seq::new(v.len(), |i: int| v[i]@)
}

pub open spec fn node_views(v: Seq<OnnxNode>) -> Seq<NodeView> {
    Seq::new(v.len(), |i: int| v[i]@)
}

impl View for OnnxGraph {
    type V = GraphView;

    open spec fn view(&self) -> GraphView {
        GraphView {
            name: self.name@,
            input: value_views(self.input@),
            initializer: init_views(self.initializer@),
            node: node_views(self.node@),
            output: value_views(self.output@),
        }
    }
}

impl GraphView {
    /// The graph with more initializers and nodes at the end.
    pub open spec fn plus(self, inits: Seq<InitView>, nodes: Seq<NodeView>) -> GraphView {
        GraphView { initializer: self.initializer + inits, node: self.node + nodes, ..self }
    }

    /// Whether `name` is a graph input or an initializer.
    pub open spec fn is_given(self, name: Seq<char>) -> bool {
        ||| exists|i: int| 0 <= i < self.input.len() && (#[trigger] self.input[i]).name == name
        ||| exists|i: int| 0 <= i < self.initializer.len() && (#[trigger] self.initializer[i]).name == name
    }

    /// Whether one of the first `upto` nodes puts out `name`.
    pub open spec fn is_computed(self, name: Seq<char>, upto: int) -> bool {
        exists|i: int| 0 <= i < upto && i < self.node.len() && (#[trigger] self.node[i]).output.contains(name)
    }

    /// Every node reads only what is given or what an earlier node computes.
    pub open spec fn defined_before_use(self) -> bool {
        forall|i: int, j: int|
            0 <= i < self.node.len() && 0 <= j < self.node[i].input.len() ==> {
                let name = #[trigger] self.node[i].input[j];
                self.is_given(name) || self.is_computed(name, i)
            }
    }

    /// Every graph output is computed by some node.
    pub open spec fn outputs_computed(self) -> bool {
        forall|i: int| 0 <= i < self.output.len() ==> self.is_computed((#[trigger] self.output[i]).name, self.node.len() as int)
    }
}

/// A node without attributes that computes one value.
pub open spec fn plain_node(op: Seq<char>, name: Seq<char>, input: Seq<Seq<char>>, out: Seq<char>) -> NodeView {
    NodeView { op_type: op, name, input, output: seq![out], attribute: Seq::empty() }
}

/// A reduction over axis 1 that keeps its dimension.
pub open spec fn reduce_node(op: Seq<char>, name: Seq<char>, input: Seq<Seq<char>>, out: Seq<char>) -> NodeView {
    NodeView {
        op_type: op,
        name,
        input,
        output: seq![out],
        attribute: seq![
            AttrView::Ints { name: "axes"@, values: seq![1i64] },
            AttrView::Int { name: "keepdims"@, value: 1 },
        ],
    }
}

/// A constant tensor of two dimensions.
pub open spec fn init_view(name: Seq<char>, rows: int, cols: int, data: DataView) -> InitView {
    InitView { name, dims: seq![rows as i64, cols as i64], data }
}

/// `a` followed by `b`.
pub fn join2(a: &str, b: &str) -> (r: String)
    ensures
        r@ == a@ + b@,
{
    let mut s = String::new();
    s.append(a);
    s.append(b);
    assert(s@ =~= a@ + b@);
    s
}

/// A list of one name.
pub fn one(a: String) -> (r: Vec<String>)
    ensures
        texts(r@) == seq![a@],
        r@.len() == 1,
{
    let mut v: Vec<String> = Vec::new();
    v.push(a);
    assert(texts(v@) =~= seq![a@]);
    v
}

/// A list of two names.
pub fn two(a: String, b: String) -> (r: Vec<String>)
    ensures
        texts(r@) == seq![a@, b@],
        r@.len() == 2,
{
    let mut v: Vec<String> = Vec::new();
    v.push(a);
    v.push(b);
    assert(texts(v@) =~= seq![a@, b@]);
    v
}

/// A node without attributes that computes one value.
pub fn onnx_node(op: &str, name: String, input: Vec<String>, out: String) -> (r: OnnxNode)
    ensures
        r@ == plain_node(op@, name@, texts(input@), out@),
{
    let r = OnnxNode { op_type: op.to_owned(), name, input, output: one(out), attribute: Vec::new() };
    assert(r@.attribute =~= Seq::empty());
    r
}

/// A reduction over axis 1 that keeps its dimension.
pub fn onnx_reduce(op: &str, name: String, input: Vec<String>, out: String) -> (r: OnnxNode)
    ensures
        r@ == reduce_node(op@, name@, texts(input@), out@),
{
    let mut axes: Vec<i64> = Vec::new();
    axes.push(1);
    let mut attribute: Vec<Attr> = Vec::new();
    attribute.push(Attr::Ints { name: "axes".to_owned(), values: axes });
    attribute.push(Attr::Int { name: "keepdims".to_owned(), value: 1 });
    let r = OnnxNode { op_type: op.to_owned(), name, input, output: one(out), attribute };
    assert(axes@ =~= seq![1i64]);
    assert(r@.attribute =~= seq![
        AttrView::Ints { name: "axes"@, values: seq![1i64] },
        AttrView::Int { name: "keepdims"@, value: 1 },
    ]);
    r
}

/// A constant tensor of two dimensions.
pub fn onnx_initializer(name: String, rows: i64, cols: i64, data: TensorData) -> (r: Initializer)
    ensures
        r@ == init_view(name@, rows as int, cols as int, data@),
{
    let mut dims: Vec<i64> = Vec::new();
    dims.push(rows);
    dims.push(cols);
    assert(dims@ =~= seq![rows, cols]);
    Initializer { name, dims, data }
}

/// The name and shape of a graph input or output.
pub fn onnx_value_info(name: String, batch: i64, width: i64) -> (r: ValueInfo)
    ensures
        r@ == (ValueView { name: name@, batch, width }),
{
    ValueInfo { name, batch, width }
}

} // verus!
