//! Graph nodes, the node graph, and the compilation error kinds.

use vstd::prelude::*;
use crate::ops::OpKind;
use crate::tensor::Tensor;
use crate::tensor::clone_flat;

verus! {

/// The kinds of unrecoverable compilation failure.
#[derive(Clone, Copy, Debug, PartialEq, Eq, Structural)]
pub enum GraphError {
    /// A referenced dependency has no recorded bucket or result.
    MissingNode(usize),
    /// A node's kind does not match the configuration path it was routed
    /// into; carries the node index and the offending kind.
    WrongMethod(usize, OpKind),
    /// A node expected to request a lookup configuration is not a lookup.
    OpMismatch(usize, OpKind),
    /// A lookup configuration was given other than exactly one input.
    InvalidLookupInputs,
    /// An operation kind present in the graph has no circuit realization.
    UnsupportedOp,
    /// The source graph could not be ingested.
    ModelLoad,
    /// Tensor shapes disagree with what a region expects.
    InvalidDims,
    /// A witness value left the representable fixed-point range.
    Overflow,
}

/// One input edge: the producing node and which of its output slots.
#[derive(Clone, Copy, Debug, PartialEq, Eq, Structural)]
pub struct Outlet {
    /// Index of the producing node.
    pub node: usize,
    /// Output slot of the producing node.
    pub slot: usize,
}

/// An operation node, fully annotated by ingestion; its `bucket` field is
/// written exactly once by the bucket scheduler.
#[derive(Debug)]
pub struct Node {
    /// Identity of the node within the graph.
    pub idx: usize,
    /// The operation the node performs.
    pub opkind: OpKind,
    /// Input edges, in operand order.
    pub inputs: Vec<Outlet>,
    /// Shapes of the node's inputs.
    pub in_dims: Vec<Vec<usize>>,
    /// Shape of the node's output.
    pub out_dims: Vec<usize>,
    /// Fixed-point scale of the node's output.
    pub out_scale: u32,
    /// The embedded constant, for `Const` nodes.
    pub const_value: Option<Tensor>,
    /// Execution bucket, absent for constants; assigned by the scheduler.
    pub bucket: Option<usize>,
}

/// Two tensors hold the same shape and values.
pub open spec fn tensor_eqv(a: Tensor, b: Tensor) -> bool {
    a.dims@ == b.dims@ && a.inner@ == b.inner@
}

/// Two optional tensors agree.
pub open spec fn opt_tensor_eqv(a: Option<Tensor>, b: Option<Tensor>) -> bool {
    match (a, b) {
        (Option::None, Option::None) => true,
        (Option::Some(x), Option::Some(y)) => tensor_eqv(x, y),
        _ => false,
    }
}

impl Node {
    /// Two nodes agree on every annotation except possibly the bucket.
    pub open spec fn same_except_bucket(self, other: Node) -> bool {
        &&& self.idx == other.idx
        &&& self.opkind == other.opkind
        &&& self.inputs@ == other.inputs@
        &&& self.in_dims.deep_view() == other.in_dims.deep_view()
        &&& self.out_dims@ == other.out_dims@
        &&& self.out_scale == other.out_scale
        &&& opt_tensor_eqv(self.const_value, other.const_value)
    }

    /// Two nodes agree on every annotation, bucket included.
    pub open spec fn eqv(self, other: Node) -> bool {
        self.same_except_bucket(other) && self.bucket == other.bucket
    }
}

/// Copies a list of shapes.
pub fn clone_shapes(v: &Vec<Vec<usize>>) -> (r: Vec<Vec<usize>>)
    ensures
        r.deep_view() == v.deep_view(),
{
    let mut r: Vec<Vec<usize>> = Vec::new();
    let mut i: usize = 0;
    while i < v.len()
        invariant
            i <= v@.len(),
            r@.len() == i,
            forall|j: int| 0 <= j < i ==> r@[j]@ == #[trigger] v@[j]@,
        decreases v@.len() - i,
    {
        r.push(clone_flat(&v[i]));
        i = i + 1;
    }
    proof {
        assert(r.deep_view() =~~= v.deep_view());
    }
    r
}

impl Clone for Node {
    /// Copies the node, keeping every annotation.
    fn clone(&self) -> (r: Self)
        ensures
            r.eqv(*self),
    {
        Node {
            idx: self.idx,
            opkind: self.opkind,
            inputs: clone_flat(&self.inputs),
            in_dims: clone_shapes(&self.in_dims),
            out_dims: clone_flat(&self.out_dims),
            out_scale: self.out_scale,
            const_value: match &self.const_value {
                Some(t) => Some(t.clone()),
                None => None,
            },
            bucket: self.bucket,
        }
    }
}

/// The node graph: nodes in ascending index order, the node of index `i`
/// at position `i`. The mapping from execution bucket to member nodes is
/// read off it by ordered iteration over bucket identifiers.
#[derive(Debug)]
pub struct NodeGraph {
    /// The nodes, position equal to index.
    pub nodes: Vec<Node>,
}

impl NodeGraph {
    /// Every node sits at the position named by its index.
    pub open spec fn wf(self) -> bool {
        forall|i: int| 0 <= i < self.nodes@.len() ==> (#[trigger] self.nodes@[i]).idx == i
    }

    /// Lookup of a node by index.
    pub open spec fn spec_find(self, idx: usize) -> Option<Node> {
        if idx < self.nodes@.len() {
            Option::Some(self.nodes@[idx as int])
        } else {
            Option::None
        }
    }

    /// Retrieves a copy of the node with the given index, if present.
    pub fn filter(&self, idx: usize) -> (r: Option<Node>)
        ensures
            match (r, self.spec_find(idx)) {
                (Option::Some(a), Option::Some(b)) => a.eqv(b),
                (Option::None, Option::None) => true,
                _ => false,
            },
    {
        if idx < self.nodes.len() {
            Some(self.nodes[idx].clone())
        } else {
            None
        }
    }

    /// Number of nodes in the graph.
    pub fn len(&self) -> (r: usize)
        ensures
            r == self.nodes@.len(),
    {
        self.nodes.len()
    }
}

} // verus!
