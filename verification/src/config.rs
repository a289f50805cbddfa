//! Configured circuit regions: the compiled artifact the layout pass
//! consumes. Shared lookup regions live in an arena and are referred to
//! by handle.

use vstd::prelude::*;
use crate::ops::LookupOp;
use crate::ops::PolyOp;
use crate::vars::ModelVars;
use crate::vars::VarTensor;
use crate::vars::var_eqv;

verus! {

/// A reference inside a fused polynomial region: either one of the
/// region's external input columns or an intermediate result produced
/// earlier within the same region.
#[derive(Clone, Copy, Debug, PartialEq, Eq, Structural)]
pub enum PolyInputRef {
    /// The k-th external input slot of the fused region.
    Input(usize),
    /// The j-th intermediate result of the fused region, in production
    /// order (a running counter, not a node index).
    Inter(usize),
}

/// One fused instruction: an operator and the ordered references it reads.
#[derive(Debug)]
pub struct PolyNode {
    /// The polynomial operator.
    pub op: PolyOp,
    /// Where each operand comes from.
    pub input_order: Vec<PolyInputRef>,
}

/// A fused polynomial region: external input columns, one output column,
/// and the instruction list the single underlying gate must respect.
#[derive(Debug)]
pub struct PolyRegion {
    /// External input columns, in first-seen dependency order.
    pub inputs: Vec<VarTensor>,
    /// The region's single output column.
    pub output: VarTensor,
    /// The fused instructions, in ascending node order.
    pub nodes: Vec<PolyNode>,
}

/// A precomputed lookup table, identified by the operators it tabulates.
#[derive(Debug)]
pub struct LookupTable {
    /// The operators the table realizes.
    pub nonlinearities: Vec<LookupOp>,
}

/// A lookup region: a table handle plus input and output columns.
#[derive(Debug)]
pub struct LookupRegion {
    /// Handle into the table arena.
    pub table: usize,
    /// Input column.
    pub input: VarTensor,
    /// Output column.
    pub output: VarTensor,
    /// Bit width the table is built for.
    pub bits: usize,
}

/// The configuration a node (or fused group of nodes) received.
#[derive(Debug)]
pub enum NodeConfig {
    /// A model input: no circuit region.
    Input,
    /// An embedded constant: no circuit region.
    Const,
    /// A lookup region (possibly shared), plus the consuming node's
    /// dependency indices.
    Lookup { region: usize, inputs: Vec<usize> },
    /// A fused polynomial region, plus the group's external dependency
    /// indices.
    Poly { region: PolyRegion, inputs: Vec<usize> },
}

/// An output range-check region: an input column, the compared output
/// column, and the accepted tolerance.
#[derive(Debug)]
pub struct RangeCheckRegion {
    /// Column carrying the value under check.
    pub input: VarTensor,
    /// Column carrying the committed value it is checked against.
    pub output: VarTensor,
    /// Accepted absolute difference.
    pub tolerance: u32,
}

/// The full compiled artifact: per-representative-node configurations in
/// ascending index order, the lookup region and table arenas, output
/// range-check and packing regions, and a snapshot of the variable pool.
#[derive(Debug)]
pub struct ModelConfig {
    /// Configuration of each representative node index, dense over the
    /// graph: position `i` holds node `i`'s configuration, or nothing for
    /// nodes folded into another representative or left unconfigured.
    pub configs: Vec<Option<NodeConfig>>,
    /// Arena of lookup regions; `NodeConfig::Lookup` holds handles into it.
    pub regions: Vec<LookupRegion>,
    /// Arena of lookup tables; regions hold handles into it.
    pub tables: Vec<LookupTable>,
    /// Range-check regions of the model outputs, in output order.
    pub range_checks: Vec<RangeCheckRegion>,
    /// Packing regions of the model outputs, in output order.
    pub packed_outputs: Vec<PolyRegion>,
    /// Snapshot of the variable pool the regions were allocated from.
    pub vars: ModelVars,
}

/// Two fused instructions agree.
pub open spec fn poly_node_eqv(a: PolyNode, b: PolyNode) -> bool {
    a.op == b.op && a.input_order@ == b.input_order@
}

/// Two fused polynomial regions agree.
pub open spec fn poly_region_eqv(a: PolyRegion, b: PolyRegion) -> bool {
    &&& a.inputs@.len() == b.inputs@.len()
    &&& forall|i: int| 0 <= i < a.inputs@.len() ==> var_eqv(#[trigger] a.inputs@[i], b.inputs@[i])
    &&& var_eqv(a.output, b.output)
    &&& a.nodes@.len() == b.nodes@.len()
    &&& forall|i: int| 0 <= i < a.nodes@.len() ==> poly_node_eqv(#[trigger] a.nodes@[i], b.nodes@[i])
}

/// Two node configurations agree.
pub open spec fn node_config_eqv(a: NodeConfig, b: NodeConfig) -> bool {
    match (a, b) {
        (NodeConfig::Input, NodeConfig::Input) => true,
        (NodeConfig::Const, NodeConfig::Const) => true,
        (
            NodeConfig::Lookup { region: ra, inputs: ia },
            NodeConfig::Lookup { region: rb, inputs: ib },
        ) => ra == rb && ia@ == ib@,
        (
            NodeConfig::Poly { region: ra, inputs: ia },
            NodeConfig::Poly { region: rb, inputs: ib },
        ) => poly_region_eqv(ra, rb) && ia@ == ib@,
        _ => false,
    }
}

} // verus!
