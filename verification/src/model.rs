//! The model: a scheduled node graph together with its compilation passes.

use vstd::prelude::*;
use crate::node::GraphError;
use crate::node::Node;
use crate::node::NodeGraph;
use crate::node::Outlet;
use crate::ops::OpKind;
use crate::vars::VarVisibility;

verus! {

/// Mode the model is being used in.
#[derive(Clone, Debug)]
pub enum Mode {
    /// Initialize the model and display the operations table / graph.
    Table,
    /// Initialize the model and generate a mock proof.
    Mock,
    /// Initialize the model and generate a proof.
    Prove,
    /// Initialize the model, generate a proof, and verify.
    FullProve,
    /// Initialize the model and verify an already generated proof.
    Verify,
}

/// Compilation parameters: quantization scale, lookup bit width, range-check
/// tolerance, output packing base, and the lookup column-reuse switch.
#[derive(Clone, Copy, Debug, PartialEq, Eq, Structural)]
pub struct RunArgs {
    /// Fixed-point scale applied during ingestion.
    pub scale: u32,
    /// Bit width of lookup tables.
    pub bits: usize,
    /// Numeric tolerance of output range checks.
    pub tolerance: u32,
    /// Radix for packing public outputs; packing is off at 1 or below.
    pub pack_base: u32,
    /// When set, lookup nodes reuse a matching earlier region's columns.
    pub single_lookup: bool,
}

/// The model: a scheduled node graph, compilation parameters, and the
/// visibility policy, plus the graph's designated input and output nodes.
#[derive(Debug)]
pub struct Model {
    /// The bucketed node graph.
    pub nodes: NodeGraph,
    /// Compilation parameters.
    pub run_args: RunArgs,
    /// Mode the model is used in.
    pub mode: Mode,
    /// Which of inputs, parameters and outputs are public.
    pub visibility: VarVisibility,
    /// Indices of the graph's input nodes, in input order.
    pub inputs: Vec<usize>,
    /// Indices of the graph's output nodes, in output order.
    pub outputs: Vec<usize>,
}

/// The ingestion data model's guarantee for input nodes: an input is an
/// external witness and has no producers.
pub open spec fn inputs_are_roots(graph: Seq<Node>) -> bool {
    forall|j: int|
        0 <= j < graph.len() && (#[trigger] graph[j]).opkind is Input ==> graph[j].inputs@.len()
            == 0
}

/// Maximum of two optional bucket identifiers; `None` is the identity.
pub open spec fn max_opt(a: Option<usize>, b: Option<usize>) -> Option<usize> {
    match (a, b) {
        (Option::None, x) => x,
        (Option::Some(x), Option::None) => Option::Some(x),
        (Option::Some(x), Option::Some(y)) => Option::Some(if x >= y { x } else { y }),
    }
}

/// First of the first `k` input edges of node `i` that names a node not yet
/// scheduled (index not strictly below `i`), if any.
pub open spec fn spec_first_missing(inputs: Seq<Outlet>, i: int, k: int) -> Option<usize>
    decreases k,
{
    if k <= 0 {
        Option::None
    } else {
        match spec_first_missing(inputs, i, k - 1) {
            Option::Some(d) => Option::Some(d),
            Option::None => if inputs[k - 1].node >= i {
                Option::Some(inputs[k - 1].node)
            } else {
                Option::None
            },
        }
    }
}

/// Maximum bucket among the non-constant dependencies named by the first
/// `k` input edges of node `i`.
pub open spec fn spec_prev_bucket(nodes: Seq<Node>, i: int, k: int) -> Option<usize>
    decreases i, k,
{
    if k <= 0 {
        Option::None
    } else {
        let rest = spec_prev_bucket(nodes, i, k - 1);
        let d = nodes[i].inputs@[k - 1].node;
        if d < i && !(nodes[d as int].opkind is Const) {
            max_opt(rest, spec_bucket_of(nodes, d as int))
        } else {
            rest
        }
    }
}

/// The execution bucket the scheduler assigns to node `i`: inputs are
/// roots at bucket zero, constants are bucket-exempt, polynomial nodes
/// join their latest-arriving dependency's bucket, and lookups start a
/// fresh bucket one past it.
pub open spec fn spec_bucket_of(nodes: Seq<Node>, i: int) -> Option<usize>
    decreases i, nodes[i].inputs@.len() + 1,
{
    match nodes[i].opkind {
        OpKind::Input => Option::Some(0usize),
        OpKind::Const => Option::None,
        OpKind::Poly(_) => spec_prev_bucket(nodes, i, nodes[i].inputs@.len() as int),
        OpKind::Lookup(_) => match spec_prev_bucket(nodes, i, nodes[i].inputs@.len() as int) {
            Option::Some(b) => Option::Some((b + 1) as usize),
            Option::None => Option::None,
        },
        OpKind::Unknown => Option::None,
    }
}

/// The error, if any, scheduling raises at node `i`: a dependency not yet
/// scheduled, an operation with no bucket rule, or a polynomial or lookup
/// node with no bucketed dependency to anchor it.
pub open spec fn spec_node_err(nodes: Seq<Node>, i: int) -> Option<GraphError> {
    match spec_first_missing(nodes[i].inputs@, i, nodes[i].inputs@.len() as int) {
        Option::Some(d) => Option::Some(GraphError::MissingNode(d)),
        Option::None => match nodes[i].opkind {
            OpKind::Input => Option::None,
            OpKind::Const => Option::None,
            OpKind::Poly(_) => if spec_prev_bucket(nodes, i, nodes[i].inputs@.len() as int)
                is None {
                Option::Some(GraphError::MissingNode(nodes[i].idx))
            } else {
                Option::None
            },
            OpKind::Lookup(_) => if spec_prev_bucket(nodes, i, nodes[i].inputs@.len() as int)
                is None {
                Option::Some(GraphError::MissingNode(nodes[i].idx))
            } else {
                Option::None
            },
            OpKind::Unknown => Option::Some(
                GraphError::WrongMethod(nodes[i].idx, nodes[i].opkind),
            ),
        },
    }
}

/// A dependency-derived bucket is strictly below the dependent's index.
pub proof fn lemma_prev_bucket_bound(nodes: Seq<Node>, i: int, k: int)
    ensures
        spec_prev_bucket(nodes, i, k) matches Some(b) ==> b < i,
    decreases i, k,
{
    if k > 0 {
        lemma_prev_bucket_bound(nodes, i, k - 1);
        let d = nodes[i].inputs@[k - 1].node;
        if d < i && !(nodes[d as int].opkind is Const) {
            lemma_bucket_of_bound(nodes, d as int);
        }
    }
}

/// An assigned bucket never exceeds the node's own index.
pub proof fn lemma_bucket_of_bound(nodes: Seq<Node>, i: int)
    requires
        i >= 0,
    ensures
        spec_bucket_of(nodes, i) matches Some(b) ==> b <= i,
    decreases i, nodes[i].inputs@.len() + 1,
{
    match nodes[i].opkind {
        OpKind::Poly(_) => {
            lemma_prev_bucket_bound(nodes, i, nodes[i].inputs@.len() as int);
        },
        OpKind::Lookup(_) => {
            lemma_prev_bucket_bound(nodes, i, nodes[i].inputs@.len() as int);
        },
        _ => {},
    }
}

/// If a prefix scan has already found a missing dependency, longer scans
/// agree on it.
proof fn lemma_first_missing_extends(inputs: Seq<Outlet>, i: int, k0: int, k: int)
    requires
        0 <= k0 <= k,
        spec_first_missing(inputs, i, k0) is Some,
    ensures
        spec_first_missing(inputs, i, k) == spec_first_missing(inputs, i, k0),
    decreases k - k0,
{
    if k > k0 {
        lemma_first_missing_extends(inputs, i, k0, k - 1);
    }
}

impl Model {
    /// Assigns every node its execution bucket, or fails at the first node
    /// whose dependencies are not already scheduled, that has an
    /// unsupported kind, or that has no bucketed dependency to anchor a
    /// polynomial or lookup stage.
    pub fn assign_execution_buckets(nodes: Vec<Node>) -> (r: Result<NodeGraph, GraphError>)
        requires
            forall|i: int| 0 <= i < nodes@.len() ==> (#[trigger] nodes@[i]).idx == i,
        ensures
            (r is Ok) <==> (forall|i: int|
                0 <= i < nodes@.len() ==> spec_node_err(nodes@, i) is None),
            r matches Ok(g) ==> {
                &&& g.wf()
                &&& g.nodes@.len() == nodes@.len()
                &&& forall|i: int|
                    0 <= i < nodes@.len() ==> (#[trigger] g.nodes@[i]).same_except_bucket(
                        nodes@[i],
                    )
                &&& forall|i: int|
                    0 <= i < nodes@.len() ==> (#[trigger] g.nodes@[i]).bucket == spec_bucket_of(
                        nodes@,
                        i,
                    )
            },
            r matches Err(e) ==> exists|i: int|
                0 <= i < nodes@.len() && #[trigger] spec_node_err(nodes@, i) == Some(e) && (
                forall|j: int| 0 <= j < i ==> spec_node_err(nodes@, j) is None),
    {
        let ghost nv = nodes@;
        let mut out: Vec<Node> = Vec::new();
        let mut i: usize = 0;
        while i < nodes.len()
            invariant
                i <= nv.len(),
                nodes@ == nv,
                forall|j: int| 0 <= j < nv.len() ==> (#[trigger] nv[j]).idx == j,
                out@.len() == i,
                forall|j: int| 0 <= j < i ==> (#[trigger] out@[j]).same_except_bucket(nv[j]),
                forall|j: int| 0 <= j < i ==> (#[trigger] out@[j]).bucket == spec_bucket_of(nv, j),
                forall|j: int| 0 <= j < i ==> spec_node_err(nv, j) is None,
            decreases nv.len() - i,
        {
            let node = &nodes[i];
            let mut prev: Option<usize> = None;
            let mut k: usize = 0;
            while k < node.inputs.len()
                invariant
                    k <= node.inputs@.len(),
                    i < nv.len(),
                    nodes@ == nv,
                    *node == nv[i as int],
                    forall|j: int| 0 <= j < nv.len() ==> (#[trigger] nv[j]).idx == j,
                    out@.len() == i,
                    forall|j: int| 0 <= j < i ==> (#[trigger] out@[j]).same_except_bucket(nv[j]),
                    forall|j: int|
                        0 <= j < i ==> (#[trigger] out@[j]).bucket == spec_bucket_of(nv, j),
                    forall|j: int| 0 <= j < i ==> spec_node_err(nv, j) is None,
                    spec_first_missing(node.inputs@, i as int, k as int) is None,
                    prev == spec_prev_bucket(nv, i as int, k as int),
                decreases node.inputs@.len() - k,
            {
                let d = node.inputs[k].node;
                if d >= i {
                    proof {
                        assert(spec_first_missing(node.inputs@, i as int, k as int + 1) == Some(
                            d,
                        ));
                        lemma_first_missing_extends(
                            node.inputs@,
                            i as int,
                            k as int + 1,
                            node.inputs@.len() as int,
                        );
                        assert(spec_node_err(nv, i as int) == Some(GraphError::MissingNode(d)));
                    }
                    return Err(GraphError::MissingNode(d));
                }
                if !out[d].opkind.is_const() {
                    match out[d].bucket {
                        Some(b) => {
                            prev = match prev {
                                Some(p) => Some(if p >= b { p } else { b }),
                                None => Some(b),
                            };
                        },
                        None => {
                            proof {
                                assert(out@[d as int].bucket == spec_bucket_of(nv, d as int));
                                assert(spec_node_err(nv, d as int) is None);
                                assert(false);
                            }
                            return Err(GraphError::MissingNode(d));
                        },
                    }
                }
                k = k + 1;
            }
            let bucket: Option<usize> = match &node.opkind {
                OpKind::Input => Some(0),
                OpKind::Const => None,
                OpKind::Poly(_) => match prev {
                    Some(b) => Some(b),
                    None => {
                        proof {
                            assert(spec_node_err(nv, i as int) == Some(
                                GraphError::MissingNode(node.idx),
                            ));
                        }
                        return Err(GraphError::MissingNode(node.idx));
                    },
                },
                OpKind::Lookup(_) => match prev {
                    Some(b) => {
                        proof {
                            lemma_prev_bucket_bound(nv, i as int, node.inputs@.len() as int);
                        }
                        Some(b + 1)
                    },
                    None => {
                        proof {
                            assert(spec_node_err(nv, i as int) == Some(
                                GraphError::MissingNode(node.idx),
                            ));
                        }
                        return Err(GraphError::MissingNode(node.idx));
                    },
                },
                OpKind::Unknown => {
                    proof {
                        assert(spec_node_err(nv, i as int) == Some(
                            GraphError::WrongMethod(node.idx, node.opkind),
                        ));
                    }
                    return Err(GraphError::WrongMethod(node.idx, node.opkind));
                },
            };
            let mut scheduled = node.clone();
            scheduled.bucket = bucket;
            out.push(scheduled);
            i = i + 1;
        }
        Ok(NodeGraph { nodes: out })
    }
}

} // verus!
