//! Genome graphs: a DAG of operators compiled to an ONNX description.
use vstd::prelude::*;

pub mod cache;
pub mod compile;
pub mod ctx;
pub mod genome;
pub mod laws;
pub mod meaning;
pub mod onnx;
pub mod ops;
pub mod schedule;
pub mod setup;
pub mod strategy;

verus! {

/// Where a node reads an input from.
#[derive(Clone, Copy, Debug, PartialEq, Eq, Structural)]
pub enum In {
    /// The raw series with this number.
    FromExtractor(usize),
    /// The output of the node with this number.
    FromOperator(usize),
}

/// A node of the genome: an operator, by its place in the operator list, and
/// its inputs.
#[derive(Debug)]
pub struct Node {
    pub op: usize,
    pub inputs: Vec<In>,
}

/// Why a genome cannot be compiled.
#[derive(Clone, Copy, Debug, PartialEq, Eq, Structural)]
pub enum GraphError {
    /// The nodes do not form a DAG fed by the extractors.
    Cycle,
    /// No prediction head.
    MissingHead,
}

} // verus!
