//! The layout engine: walks configured regions in representative order,
//! resolves each region's inputs from earlier results, evaluates the
//! region, packs public outputs and pairs them with their instance slots.
//! The forward pass evaluates the graph the same way, without regions.

use vstd::prelude::*;
use crate::config::ModelConfig;
use crate::config::NodeConfig;
use crate::config::PolyInputRef;
use crate::config::PolyNode;
use crate::config::PolyRegion;
use crate::eval::apply_lookup;
use crate::eval::apply_poly;
use crate::eval::spec_lookup_apply;
use crate::eval::spec_poly_apply;
use crate::eval::tview;
use crate::eval::tviews;
use crate::model::Model;
use crate::node::GraphError;
use crate::node::Node;
use crate::ops::OpKind;
use crate::tensor::Tensor;
use crate::tensor::clone_flat;
use crate::tensor::dims_product;

verus! {

/// A tensor option at the specification level.
pub open spec fn opt_tview(t: Option<Tensor>) -> Option<(Seq<usize>, Seq<i128>)> {
    match t {
        Option::Some(t) => Option::Some(tview(t)),
        Option::None => Option::None,
    }
}

/// Resolves the first `k` dependencies of a node against earlier results;
/// the first unresolved dependency is the error.
pub open spec fn spec_resolve(
    ids: Seq<usize>,
    results: Seq<Option<(Seq<usize>, Seq<i128>)>>,
    k: int,
) -> Result<Seq<(Seq<usize>, Seq<i128>)>, GraphError>
    decreases k,
{
    if k <= 0 {
        Result::Ok(Seq::empty())
    } else {
        match spec_resolve(ids, results, k - 1) {
            Result::Err(e) => Result::Err(e),
            Result::Ok(vs) => {
                let d = ids[k - 1];
                if d < results.len() && results[d as int] is Some {
                    Result::Ok(vs.push(results[d as int]->0))
                } else {
                    Result::Err(GraphError::MissingNode(d))
                }
            },
        }
    }
}

/// What one graph node evaluates to, given its resolved operands.
pub open spec fn spec_node_eval(
    node: Node,
    inputs: Seq<(Seq<usize>, Seq<i128>)>,
    operands: Seq<(Seq<usize>, Seq<i128>)>,
    i: int,
) -> Result<(Seq<usize>, Seq<i128>), GraphError> {
    match node.opkind {
        OpKind::Input => {
            if i >= inputs.len() {
                Result::Err(GraphError::MissingNode(node.idx))
            } else if dims_product(node.out_dims@) != inputs[i].1.len() {
                Result::Err(GraphError::InvalidDims)
            } else {
                Result::Ok((node.out_dims@, inputs[i].1))
            }
        },
        OpKind::Const => match node.const_value {
            Option::Some(t) => Result::Ok(tview(t)),
            Option::None => Result::Err(GraphError::MissingNode(node.idx)),
        },
        OpKind::Poly(op) => spec_poly_apply(op, operands),
        OpKind::Lookup(op) => {
            if operands.len() != 1 {
                Result::Err(GraphError::InvalidLookupInputs)
            } else {
                spec_lookup_apply(op, operands[0])
            }
        },
        OpKind::Unknown => Result::Err(GraphError::UnsupportedOp),
    }
}

/// Results of the forward pass over the first `k` nodes.
pub open spec fn spec_forward_upto(
    graph: Seq<Node>,
    inputs: Seq<(Seq<usize>, Seq<i128>)>,
    k: int,
) -> Result<Seq<Option<(Seq<usize>, Seq<i128>)>>, GraphError>
    decreases k,
{
    if k <= 0 {
        Result::Ok(Seq::new(graph.len(), |j: int| Option::None))
    } else {
        match spec_forward_upto(graph, inputs, k - 1) {
            Result::Err(e) => Result::Err(e),
            Result::Ok(rs) => {
                let node = graph[k - 1];
                match spec_resolve(
                    crate::fuse::deps_of(node),
                    rs,
                    crate::fuse::deps_of(node).len() as int,
                ) {
                    Result::Err(e) => Result::Err(e),
                    Result::Ok(ops) => match spec_node_eval(node, inputs, ops, k - 1) {
                        Result::Err(e) => Result::Err(e),
                        Result::Ok(v) => Result::Ok(rs.update(k - 1, Option::Some(v))),
                    },
                }
            },
        }
    }
}

/// The model outputs gathered from the results, in output order.
pub open spec fn spec_collect(
    outs: Seq<usize>,
    results: Seq<Option<(Seq<usize>, Seq<i128>)>>,
    k: int,
) -> Result<Seq<(Seq<usize>, Seq<i128>)>, GraphError>
    decreases k,
{
    spec_resolve(outs, results, k)
}

/// The whole forward pass: every node in index order, then the outputs.
pub open spec fn spec_forward(m: Model, inputs: Seq<(Seq<usize>, Seq<i128>)>) -> Result<
    Seq<(Seq<usize>, Seq<i128>)>,
    GraphError,
> {
    let graph = m.nodes.nodes@;
    match spec_forward_upto(graph, inputs, graph.len() as int) {
        Result::Err(e) => Result::Err(e),
        Result::Ok(rs) => spec_collect(m.outputs@, rs, m.outputs@.len() as int),
    }
}

/// Resolves the first `k` operand references of a fused instruction.
pub open spec fn spec_resolve_refs(
    order: Seq<PolyInputRef>,
    ext: Seq<(Seq<usize>, Seq<i128>)>,
    inters: Seq<(Seq<usize>, Seq<i128>)>,
    k: int,
) -> Result<Seq<(Seq<usize>, Seq<i128>)>, GraphError>
    decreases k,
{
    if k <= 0 {
        Result::Ok(Seq::empty())
    } else {
        match spec_resolve_refs(order, ext, inters, k - 1) {
            Result::Err(e) => Result::Err(e),
            Result::Ok(vs) => match order[k - 1] {
                PolyInputRef::Input(t) => {
                    if t < ext.len() {
                        Result::Ok(vs.push(ext[t as int]))
                    } else {
                        Result::Err(GraphError::InvalidDims)
                    }
                },
                PolyInputRef::Inter(t) => {
                    if t < inters.len() {
                        Result::Ok(vs.push(inters[t as int]))
                    } else {
                        Result::Err(GraphError::InvalidDims)
                    }
                },
            },
        }
    }
}

/// The intermediates a fused region produces over its first `p`
/// instructions.
pub open spec fn spec_region_upto(
    pnodes: Seq<PolyNode>,
    ext: Seq<(Seq<usize>, Seq<i128>)>,
    p: int,
) -> Result<Seq<(Seq<usize>, Seq<i128>)>, GraphError>
    decreases p,
{
    if p <= 0 {
        Result::Ok(Seq::empty())
    } else {
        match spec_region_upto(pnodes, ext, p - 1) {
            Result::Err(e) => Result::Err(e),
            Result::Ok(inters) => {
                let pn = pnodes[p - 1];
                match spec_resolve_refs(pn.input_order@, ext, inters, pn.input_order@.len() as int) {
                    Result::Err(e) => Result::Err(e),
                    Result::Ok(ops) => match spec_poly_apply(pn.op, ops) {
                        Result::Err(e) => Result::Err(e),
                        Result::Ok(v) => Result::Ok(inters.push(v)),
                    },
                }
            },
        }
    }
}

/// A fused region's output: its last intermediate.
pub open spec fn spec_region_eval(pnodes: Seq<PolyNode>, ext: Seq<(Seq<usize>, Seq<i128>)>) -> Result<
    (Seq<usize>, Seq<i128>),
    GraphError,
> {
    if pnodes.len() == 0 {
        Result::Err(GraphError::InvalidDims)
    } else {
        match spec_region_upto(pnodes, ext, pnodes.len() as int) {
            Result::Err(e) => Result::Err(e),
            Result::Ok(inters) => Result::Ok(inters.last()),
        }
    }
}

/// Lays out one fused polynomial region on resolved external inputs.
pub fn poly_region_layout(region: &PolyRegion, ext: &Vec<Tensor>) -> (r: Result<
    Tensor,
    GraphError,
>)
    ensures
        match (r, spec_region_eval(region.nodes@, tviews(ext@))) {
            (Result::Ok(out), Result::Ok(sv)) => tview(out) == sv,
            (Result::Err(e1), Result::Err(e2)) => e1 == e2,
            _ => false,
        },
{
    let ghost ev = tviews(ext@);
    if region.nodes.len() == 0 {
        return Err(GraphError::InvalidDims);
    }
    let mut inters: Vec<Tensor> = Vec::new();
    proof {
        assert(tviews(inters@) =~= Seq::<(Seq<usize>, Seq<i128>)>::empty());
    }
    let mut p: usize = 0;
    while p < region.nodes.len()
        invariant
            p <= region.nodes@.len(),
            ev == tviews(ext@),
            region.nodes@.len() > 0,
            spec_region_upto(region.nodes@, ev, p as int) == Result::<
                Seq<(Seq<usize>, Seq<i128>)>,
                GraphError,
            >::Ok(tviews(inters@)),
            inters@.len() == p,
        decreases region.nodes@.len() - p,
    {
        let pn = &region.nodes[p];
        let mut ops: Vec<Tensor> = Vec::new();
        proof {
            assert(tviews(ops@) =~= Seq::<(Seq<usize>, Seq<i128>)>::empty());
        }
        let mut k: usize = 0;
        while k < pn.input_order.len()
            invariant
                k <= pn.input_order@.len(),
                ev == tviews(ext@),
                *pn == region.nodes@[p as int],
                p < region.nodes@.len(),
                region.nodes@.len() > 0,
                spec_region_upto(region.nodes@, ev, p as int) == Result::<
                    Seq<(Seq<usize>, Seq<i128>)>,
                    GraphError,
                >::Ok(tviews(inters@)),
                spec_resolve_refs(pn.input_order@, ev, tviews(inters@), k as int) == Result::<
                    Seq<(Seq<usize>, Seq<i128>)>,
                    GraphError,
                >::Ok(tviews(ops@)),
                ops@.len() == k,
            decreases pn.input_order@.len() - k,
        {
            match pn.input_order[k] {
                PolyInputRef::Input(t) => {
                    if t < ext.len() {
                        let ghost pre = ops@;
                        ops.push(ext[t].clone());
                        proof {
                            assert(ev[t as int] == tview(ext@[t as int]));
                            assert(tviews(ops@) =~= tviews(pre).push(ev[t as int]));
                        }
                    } else {
                        proof {
                            assert(spec_resolve_refs(
                                pn.input_order@,
                                ev,
                                tviews(inters@),
                                k as int + 1,
                            ) is Err);
                            lemma_resolve_refs_err(
                                pn.input_order@,
                                ev,
                                tviews(inters@),
                                k as int + 1,
                                pn.input_order@.len() as int,
                            );
                            assert(spec_region_upto(region.nodes@, ev, p as int + 1) == Result::<
                                Seq<(Seq<usize>, Seq<i128>)>,
                                GraphError,
                            >::Err(GraphError::InvalidDims));
                            lemma_region_upto_err(
                                region.nodes@,
                                ev,
                                p as int + 1,
                                region.nodes@.len() as int,
                            );
                        }
                        return Err(GraphError::InvalidDims);
                    }
                },
                PolyInputRef::Inter(t) => {
                    if t < inters.len() {
                        let ghost pre = ops@;
                        ops.push(inters[t].clone());
                        proof {
                            assert(tviews(inters@)[t as int] == tview(inters@[t as int]));
                            assert(tviews(ops@) =~= tviews(pre).push(tviews(inters@)[t as int]));
                        }
                    } else {
                        proof {
                            assert(spec_resolve_refs(
                                pn.input_order@,
                                ev,
                                tviews(inters@),
                                k as int + 1,
                            ) is Err);
                            lemma_resolve_refs_err(
                                pn.input_order@,
                                ev,
                                tviews(inters@),
                                k as int + 1,
                                pn.input_order@.len() as int,
                            );
                            assert(spec_region_upto(region.nodes@, ev, p as int + 1) == Result::<
                                Seq<(Seq<usize>, Seq<i128>)>,
                                GraphError,
                            >::Err(GraphError::InvalidDims));
                            lemma_region_upto_err(
                                region.nodes@,
                                ev,
                                p as int + 1,
                                region.nodes@.len() as int,
                            );
                        }
                        return Err(GraphError::InvalidDims);
                    }
                },
            }
            k = k + 1;
        }
        match apply_poly(pn.op, &ops) {
            Ok(v) => {
                let ghost vv = tview(v);
                let ghost pre = inters@;
                inters.push(v);
                proof {
                    assert(tviews(inters@) =~= tviews(pre).push(vv));
                }
            },
            Err(e) => {
                proof {
                    lemma_region_upto_err(region.nodes@, ev, p as int + 1, region.nodes@.len() as int);
                }
                return Err(e);
            },
        }
        p = p + 1;
    }
    let ghost full = inters@;
    let out = match inters.pop() {
        Some(t) => t,
        None => {
            proof {
                assert(false);
            }
            return Err(GraphError::InvalidDims);
        },
    };
    proof {
        assert(tviews(full)[full.len() - 1] == tview(full.last()));
    }
    Ok(out)
}

/// Once reference resolution has failed, longer scans report the same.
proof fn lemma_resolve_refs_err(
    order: Seq<PolyInputRef>,
    ext: Seq<(Seq<usize>, Seq<i128>)>,
    inters: Seq<(Seq<usize>, Seq<i128>)>,
    k0: int,
    k: int,
)
    requires
        0 <= k0 <= k,
        spec_resolve_refs(order, ext, inters, k0) is Err,
    ensures
        spec_resolve_refs(order, ext, inters, k) == spec_resolve_refs(order, ext, inters, k0),
    decreases k - k0,
{
    if k > k0 {
        lemma_resolve_refs_err(order, ext, inters, k0, k - 1);
    }
}

/// Once an instruction has failed, the whole region reports its error.
proof fn lemma_region_upto_err(
    pnodes: Seq<PolyNode>,
    ext: Seq<(Seq<usize>, Seq<i128>)>,
    p0: int,
    p: int,
)
    requires
        0 <= p0 <= p,
        spec_region_upto(pnodes, ext, p0) is Err,
    ensures
        spec_region_upto(pnodes, ext, p) == spec_region_upto(pnodes, ext, p0),
    decreases p - p0,
{
    if p > p0 {
        lemma_region_upto_err(pnodes, ext, p0, p - 1);
    }
}

/// Once a dependency has failed to resolve, longer scans report the same.
proof fn lemma_resolve_err(
    ids: Seq<usize>,
    results: Seq<Option<(Seq<usize>, Seq<i128>)>>,
    k0: int,
    k: int,
)
    requires
        0 <= k0 <= k,
        spec_resolve(ids, results, k0) is Err,
    ensures
        spec_resolve(ids, results, k) == spec_resolve(ids, results, k0),
    decreases k - k0,
{
    if k > k0 {
        lemma_resolve_err(ids, results, k0, k - 1);
    }
}


/// Resolution of a fused group's external inputs at layout time:
/// constants re-embed their literal value; anything else must already
/// stand in the results.
pub open spec fn spec_resolve_cfg(
    graph: Seq<Node>,
    ids: Seq<usize>,
    results: Seq<Option<(Seq<usize>, Seq<i128>)>>,
    k: int,
) -> Result<Seq<(Seq<usize>, Seq<i128>)>, GraphError>
    decreases k,
{
    if k <= 0 {
        Result::Ok(Seq::empty())
    } else {
        match spec_resolve_cfg(graph, ids, results, k - 1) {
            Result::Err(e) => Result::Err(e),
            Result::Ok(vs) => {
                let d = ids[k - 1];
                if d < graph.len() && graph[d as int].opkind is Const {
                    match graph[d as int].const_value {
                        Option::Some(t) => Result::Ok(vs.push(tview(t))),
                        Option::None => Result::Err(GraphError::MissingNode(d)),
                    }
                } else if d < results.len() && results[d as int] is Some {
                    Result::Ok(vs.push(results[d as int]->0))
                } else {
                    Result::Err(GraphError::MissingNode(d))
                }
            },
        }
    }
}

/// What laying out one configured entry produces: a fused region's
/// output, a lookup region's output, or nothing for trivial entries.
pub open spec fn spec_layout_entry(
    graph: Seq<Node>,
    regions: Seq<crate::config::LookupRegion>,
    tables: Seq<crate::config::LookupTable>,
    entry: NodeConfig,
    results: Seq<Option<(Seq<usize>, Seq<i128>)>>,
) -> Result<Option<(Seq<usize>, Seq<i128>)>, GraphError> {
    match entry {
        NodeConfig::Poly { region, inputs } => {
            match spec_resolve_cfg(graph, inputs@, results, inputs@.len() as int) {
                Result::Err(e) => Result::Err(e),
                Result::Ok(vs) => match spec_region_eval(region.nodes@, vs) {
                    Result::Err(e) => Result::Err(e),
                    Result::Ok(v) => Result::Ok(Option::Some(v)),
                },
            }
        },
        NodeConfig::Lookup { region, inputs } => {
            if inputs@.len() != 1 {
                Result::Err(GraphError::InvalidLookupInputs)
            } else {
                let d = inputs@[0];
                if !(d < results.len() && results[d as int] is Some) {
                    Result::Err(GraphError::MissingNode(d))
                } else if region < regions.len() && regions[region as int].table < tables.len()
                    && tables[regions[region as int].table as int].nonlinearities@.len() >= 1 {
                    match spec_lookup_apply(
                        tables[regions[region as int].table as int].nonlinearities@[0],
                        results[d as int]->0,
                    ) {
                        Result::Err(e) => Result::Err(e),
                        Result::Ok(v) => Result::Ok(Option::Some(v)),
                    }
                } else {
                    Result::Err(GraphError::UnsupportedOp)
                }
            }
        },
        NodeConfig::Input => Result::Ok(Option::None),
        NodeConfig::Const => Result::Ok(Option::None),
    }
}

/// Results after laying out the first `k` configured entries, from the
/// seeded results.
pub open spec fn spec_layout_upto(
    graph: Seq<Node>,
    regions: Seq<crate::config::LookupRegion>,
    tables: Seq<crate::config::LookupTable>,
    configs: Seq<Option<NodeConfig>>,
    seed: Seq<Option<(Seq<usize>, Seq<i128>)>>,
    k: int,
) -> Result<Seq<Option<(Seq<usize>, Seq<i128>)>>, GraphError>
    decreases k,
{
    if k <= 0 {
        Result::Ok(seed)
    } else {
        match spec_layout_upto(graph, regions, tables, configs, seed, k - 1) {
            Result::Err(e) => Result::Err(e),
            Result::Ok(rs) => match configs[k - 1] {
                Option::None => Result::Ok(rs),
                Option::Some(entry) => match spec_layout_entry(graph, regions, tables, entry, rs) {
                    Result::Err(e) => Result::Err(e),
                    Result::Ok(Option::None) => Result::Ok(rs),
                    Result::Ok(Option::Some(v)) => Result::Ok(rs.update(k - 1, Option::Some(v))),
                },
            },
        }
    }
}

/// The values layout binds to the input nodes: the public instance
/// columns when inputs are public — a private witness value never
/// touches a public column, and a public input's consumers read the
/// committed instance — else the raw witness tensors.
pub open spec fn spec_bound_inputs(
    input_public: bool,
    inputs: Seq<(Seq<usize>, Seq<i128>)>,
    instances: Seq<(Seq<usize>, Seq<i128>)>,
) -> Seq<(Seq<usize>, Seq<i128>)> {
    if input_public {
        instances.take(inputs.len() as int)
    } else {
        inputs
    }
}

/// The seeded results: each bound input tensor at its node index.
pub open spec fn spec_seed(
    n: int,
    inputs: Seq<(Seq<usize>, Seq<i128>)>,
) -> Seq<Option<(Seq<usize>, Seq<i128>)>> {
    Seq::new(n as nat, |i: int| if i < inputs.len() { Option::Some(inputs[i]) } else { Option::None })
}

/// Outputs after applying the first `k` packing regions.
pub open spec fn spec_pack_fold(
    packed: Seq<PolyRegion>,
    outs: Seq<(Seq<usize>, Seq<i128>)>,
    k: int,
) -> Result<Seq<(Seq<usize>, Seq<i128>)>, GraphError>
    decreases k,
{
    if k <= 0 {
        Result::Ok(outs)
    } else {
        match spec_pack_fold(packed, outs, k - 1) {
            Result::Err(e) => Result::Err(e),
            Result::Ok(os) => match spec_region_eval(packed[k - 1].nodes@, seq![os[k - 1]]) {
                Result::Err(e) => Result::Err(e),
                Result::Ok(v) => Result::Ok(os.update(k - 1, v)),
            },
        }
    }
}

/// Two buffers agree elementwise within the tolerance.
pub open spec fn spec_in_tol(
    a: (Seq<usize>, Seq<i128>),
    b: (Seq<usize>, Seq<i128>),
    tol: u32,
) -> bool {
    a.1.len() == b.1.len() && forall|j: int|
        0 <= j < a.1.len() ==> -(tol as int) <= (#[trigger] a.1[j]) - b.1[j] <= tol as int
}

/// The outcome of the layout pass: the final (possibly packed) output
/// tensors, and one verdict per range-check region.
#[derive(Debug)]
pub struct LayoutOutcome {
    /// The model's output tensors after packing.
    pub outputs: Vec<Tensor>,
    /// Whether each range-checked output lies within tolerance of its
    /// public instance.
    pub checks: Vec<bool>,
}

/// Compares a tensor against its committed instance within a tolerance.
pub fn in_tolerance(a: &Tensor, b: &Tensor, tol: u32) -> (r: bool)
    ensures
        r == spec_in_tol(tview(*a), tview(*b), tol),
{
    if a.inner.len() != b.inner.len() {
        return false;
    }
    let mut j: usize = 0;
    while j < a.inner.len()
        invariant
            j <= a.inner@.len(),
            a.inner@.len() == b.inner@.len(),
            forall|x: int|
                0 <= x < j ==> -(tol as int) <= (#[trigger] a.inner@[x]) - b.inner@[x] <= tol as int,
        decreases a.inner@.len() - j,
    {
        match a.inner[j].checked_sub(b.inner[j]) {
            Some(d) => {
                if d > tol as i128 || d < -(tol as i128) {
                    return false;
                }
            },
            None => {
                return false;
            },
        }
        j = j + 1;
    }
    true
}

/// Once an entry has failed, the whole layout reports its error.
proof fn lemma_layout_upto_err(
    graph: Seq<Node>,
    regions: Seq<crate::config::LookupRegion>,
    tables: Seq<crate::config::LookupTable>,
    configs: Seq<Option<NodeConfig>>,
    seed: Seq<Option<(Seq<usize>, Seq<i128>)>>,
    k0: int,
    k: int,
)
    requires
        0 <= k0 <= k,
        spec_layout_upto(graph, regions, tables, configs, seed, k0) is Err,
    ensures
        spec_layout_upto(graph, regions, tables, configs, seed, k) == spec_layout_upto(
            graph,
            regions,
            tables,
            configs,
            seed,
            k0,
        ),
    decreases k - k0,
{
    if k > k0 {
        lemma_layout_upto_err(graph, regions, tables, configs, seed, k0, k - 1);
    }
}

/// Once packing has failed, the whole packing pass reports its error.
proof fn lemma_pack_fold_err(
    packed: Seq<PolyRegion>,
    outs: Seq<(Seq<usize>, Seq<i128>)>,
    k0: int,
    k: int,
)
    requires
        0 <= k0 <= k,
        spec_pack_fold(packed, outs, k0) is Err,
    ensures
        spec_pack_fold(packed, outs, k) == spec_pack_fold(packed, outs, k0),
    decreases k - k0,
{
    if k > k0 {
        lemma_pack_fold_err(packed, outs, k0, k - 1);
    }
}

impl Model {
    /// Resolves dependencies against the dense results, cloning tensors.
    fn resolve_results(&self, ids: &Vec<usize>, results: &Vec<Option<Tensor>>) -> (r: Result<
        Vec<Tensor>,
        GraphError,
    >)
        ensures
            match (r, spec_resolve(
                ids@,
                Seq::new(results@.len(), |j: int| opt_tview(results@[j])),
                ids@.len() as int,
            )) {
                (Result::Ok(vs), Result::Ok(sv)) => tviews(vs@) == sv && vs@.len() == ids@.len(),
                (Result::Err(e1), Result::Err(e2)) => e1 == e2,
                _ => false,
            },
    {
        let ghost rsv = Seq::new(results@.len(), |j: int| opt_tview(results@[j]));
        let mut vs: Vec<Tensor> = Vec::new();
        proof {
            assert(tviews(vs@) =~= Seq::<(Seq<usize>, Seq<i128>)>::empty());
        }
        let mut k: usize = 0;
        while k < ids.len()
            invariant
                k <= ids@.len(),
                rsv == Seq::new(results@.len(), |j: int| opt_tview(results@[j])),
                spec_resolve(ids@, rsv, k as int) == Result::<
                    Seq<(Seq<usize>, Seq<i128>)>,
                    GraphError,
                >::Ok(tviews(vs@)),
                vs@.len() == k,
            decreases ids@.len() - k,
        {
            let d = ids[k];
            if d < results.len() {
                match &results[d] {
                    Some(t) => {
                        let ghost pre = vs@;
                        vs.push(t.clone());
                        proof {
                            assert(rsv[d as int] == opt_tview(results@[d as int]));
                            assert(tviews(vs@) =~= tviews(pre).push(rsv[d as int]->0));
                        }
                    },
                    None => {
                        proof {
                            assert(rsv[d as int] == opt_tview(results@[d as int]));
                            lemma_resolve_err(ids@, rsv, k as int + 1, ids@.len() as int);
                        }
                        return Err(GraphError::MissingNode(d));
                    },
                }
            } else {
                proof {
                    lemma_resolve_err(ids@, rsv, k as int + 1, ids@.len() as int);
                }
                return Err(GraphError::MissingNode(d));
            }
            k = k + 1;
        }
        Ok(vs)
    }

    /// Runs a forward pass: evaluates every node in index order on the
    /// given input tensors and returns the model outputs.
    pub fn forward(&self, model_inputs: &Vec<Tensor>) -> (r: Result<Vec<Tensor>, GraphError>)
        ensures
            match (r, spec_forward(*self, tviews(model_inputs@))) {
                (Result::Ok(outs), Result::Ok(sv)) => tviews(outs@) == sv,
                (Result::Err(e1), Result::Err(e2)) => e1 == e2,
                _ => false,
            },
    {
        let ghost iv = tviews(model_inputs@);
        let ghost graph = self.nodes.nodes@;
        let n = self.nodes.nodes.len();
        let mut results: Vec<Option<Tensor>> = Vec::new();
        let mut i: usize = 0;
        while i < n
            invariant
                i <= n,
                results@.len() == i,
                forall|j: int| 0 <= j < i ==> (#[trigger] results@[j]) is None,
            decreases n - i,
        {
            results.push(None);
            i = i + 1;
        }
        proof {
            assert(spec_forward_upto(graph, iv, 0) == Result::<
                Seq<Option<(Seq<usize>, Seq<i128>)>>,
                GraphError,
            >::Ok(Seq::new(graph.len(), |j: int| Option::<(Seq<usize>, Seq<i128>)>::None)));
            assert(Seq::new(results@.len(), |j: int| opt_tview(results@[j])) =~= Seq::new(
                graph.len(),
                |j: int| Option::<(Seq<usize>, Seq<i128>)>::None,
            ));
        }
        let mut i: usize = 0;
        while i < n
            invariant
                i <= n,
                n == graph.len(),
                self.nodes.nodes@ == graph,
                iv == tviews(model_inputs@),
                results@.len() == n,
                spec_forward_upto(graph, iv, i as int) == Result::<
                    Seq<Option<(Seq<usize>, Seq<i128>)>>,
                    GraphError,
                >::Ok(Seq::new(results@.len(), |j: int| opt_tview(results@[j]))),
            decreases n - i,
        {
            let ghost rsv = Seq::new(results@.len(), |j: int| opt_tview(results@[j]));
            let node = &self.nodes.nodes[i];
            let ids = crate::lookup::node_input_indices(node);
            let operands = match self.resolve_results(&ids, &results) {
                Ok(vs) => vs,
                Err(e) => {
                    proof {
                        lemma_forward_upto_err(graph, iv, i as int + 1, graph.len() as int);
                    }
                    return Err(e);
                },
            };
            let value: Tensor = match &node.opkind {
                OpKind::Input => {
                    if i >= model_inputs.len() {
                        proof {
                            lemma_forward_upto_err(graph, iv, i as int + 1, graph.len() as int);
                        }
                        return Err(GraphError::MissingNode(node.idx));
                    }
                    let want = crate::tensor::checked_dims_product(&node.out_dims);
                    let have = model_inputs[i].inner.len();
                    let fits = match want {
                        Some(p) => p == have,
                        None => false,
                    };
                    if !fits {
                        proof {
                            assert(iv[i as int] == tview(model_inputs@[i as int]));
                            lemma_forward_upto_err(graph, iv, i as int + 1, graph.len() as int);
                        }
                        return Err(GraphError::InvalidDims);
                    }
                    proof {
                        assert(iv[i as int] == tview(model_inputs@[i as int]));
                    }
                    Tensor {
                        dims: clone_flat(&node.out_dims),
                        inner: clone_flat(&model_inputs[i].inner),
                    }
                },
                OpKind::Const => match &node.const_value {
                    Some(t) => t.clone(),
                    None => {
                        proof {
                            lemma_forward_upto_err(graph, iv, i as int + 1, graph.len() as int);
                        }
                        return Err(GraphError::MissingNode(node.idx));
                    },
                },
                OpKind::Poly(op) => match apply_poly(*op, &operands) {
                    Ok(v) => v,
                    Err(e) => {
                        proof {
                            lemma_forward_upto_err(graph, iv, i as int + 1, graph.len() as int);
                        }
                        return Err(e);
                    },
                },
                OpKind::Lookup(op) => {
                    if operands.len() != 1 {
                        proof {
                            lemma_forward_upto_err(graph, iv, i as int + 1, graph.len() as int);
                        }
                        return Err(GraphError::InvalidLookupInputs);
                    }
                    match apply_lookup(*op, &operands[0]) {
                        Ok(v) => {
                            proof {
                                assert(tviews(operands@)[0] == tview(operands@[0]));
                            }
                            v
                        },
                        Err(e) => {
                            proof {
                                assert(tviews(operands@)[0] == tview(operands@[0]));
                                lemma_forward_upto_err(graph, iv, i as int + 1, graph.len() as int);
                            }
                            return Err(e);
                        },
                    }
                },
                OpKind::Unknown => {
                    proof {
                        lemma_forward_upto_err(graph, iv, i as int + 1, graph.len() as int);
                    }
                    return Err(GraphError::UnsupportedOp);
                },
            };
            let ghost vv = tview(value);
            proof {
                assert(spec_node_eval(graph[i as int], iv, tviews(operands@), i as int)
                    == Result::<(Seq<usize>, Seq<i128>), GraphError>::Ok(vv));
                assert(spec_forward_upto(graph, iv, i as int + 1) == Result::<
                    Seq<Option<(Seq<usize>, Seq<i128>)>>,
                    GraphError,
                >::Ok(rsv.update(i as int, Option::Some(vv))));
            }
            results.set(i, Some(value));
            proof {
                assert(Seq::new(results@.len(), |j: int| opt_tview(results@[j])) =~= rsv.update(
                    i as int,
                    Option::Some(vv),
                ));
            }
            i = i + 1;
        }
        let outs = match self.resolve_results(&self.outputs, &results) {
            Ok(vs) => vs,
            Err(e) => {
                return Err(e);
            },
        };
        Ok(outs)
    }

    /// Resolves a fused group's external inputs, re-embedding constants.
    fn resolve_cfg_inputs(&self, ids: &Vec<usize>, results: &Vec<Option<Tensor>>) -> (r: Result<
        Vec<Tensor>,
        GraphError,
    >)
        ensures
            match (r, spec_resolve_cfg(
                self.nodes.nodes@,
                ids@,
                Seq::new(results@.len(), |j: int| opt_tview(results@[j])),
                ids@.len() as int,
            )) {
                (Result::Ok(vs), Result::Ok(sv)) => tviews(vs@) == sv,
                (Result::Err(e1), Result::Err(e2)) => e1 == e2,
                _ => false,
            },
    {
        let ghost graph = self.nodes.nodes@;
        let ghost rsv = Seq::new(results@.len(), |j: int| opt_tview(results@[j]));
        let mut vs: Vec<Tensor> = Vec::new();
        proof {
            assert(tviews(vs@) =~= Seq::<(Seq<usize>, Seq<i128>)>::empty());
        }
        let mut k: usize = 0;
        while k < ids.len()
            invariant
                k <= ids@.len(),
                self.nodes.nodes@ == graph,
                rsv == Seq::new(results@.len(), |j: int| opt_tview(results@[j])),
                spec_resolve_cfg(graph, ids@, rsv, k as int) == Result::<
                    Seq<(Seq<usize>, Seq<i128>)>,
                    GraphError,
                >::Ok(tviews(vs@)),
                vs@.len() == k,
            decreases ids@.len() - k,
        {
            let d = ids[k];
            let is_const_node = d < self.nodes.nodes.len() && self.nodes.nodes[d].opkind.is_const();
            if is_const_node {
                match &self.nodes.nodes[d].const_value {
                    Some(t) => {
                        let ghost pre = vs@;
                        vs.push(t.clone());
                        proof {
                            assert(tviews(vs@) =~= tviews(pre).push(
                                tview(graph[d as int].const_value->0),
                            ));
                        }
                    },
                    None => {
                        proof {
                            lemma_resolve_cfg_err(graph, ids@, rsv, k as int + 1, ids@.len() as int);
                        }
                        return Err(GraphError::MissingNode(d));
                    },
                }
            } else if d < results.len() {
                match &results[d] {
                    Some(t) => {
                        let ghost pre = vs@;
                        vs.push(t.clone());
                        proof {
                            assert(rsv[d as int] == opt_tview(results@[d as int]));
                            assert(tviews(vs@) =~= tviews(pre).push(rsv[d as int]->0));
                        }
                    },
                    None => {
                        proof {
                            assert(rsv[d as int] == opt_tview(results@[d as int]));
                            lemma_resolve_cfg_err(graph, ids@, rsv, k as int + 1, ids@.len() as int);
                        }
                        return Err(GraphError::MissingNode(d));
                    },
                }
            } else {
                proof {
                    lemma_resolve_cfg_err(graph, ids@, rsv, k as int + 1, ids@.len() as int);
                }
                return Err(GraphError::MissingNode(d));
            }
            k = k + 1;
        }
        Ok(vs)
    }

    /// Assigns values to a single configured region: fused regions get
    /// their resolved inputs and produce their output; lookup regions get
    /// their single input; trivial entries produce nothing.
    pub fn layout_config(
        &self,
        entry: &NodeConfig,
        results: &Vec<Option<Tensor>>,
        config: &ModelConfig,
    ) -> (r: Result<Option<Tensor>, GraphError>)
        ensures
            match (r, spec_layout_entry(
                self.nodes.nodes@,
                config.regions@,
                config.tables@,
                *entry,
                Seq::new(results@.len(), |j: int| opt_tview(results@[j])),
            )) {
                (Result::Ok(out), Result::Ok(sv)) => opt_tview(out) == sv,
                (Result::Err(e1), Result::Err(e2)) => e1 == e2,
                _ => false,
            },
    {
        let ghost rsv = Seq::new(results@.len(), |j: int| opt_tview(results@[j]));
        match entry {
            NodeConfig::Poly { region, inputs } => {
                let vs = match self.resolve_cfg_inputs(inputs, results) {
                    Ok(vs) => vs,
                    Err(e) => {
                        return Err(e);
                    },
                };
                match poly_region_layout(region, &vs) {
                    Ok(v) => Ok(Some(v)),
                    Err(e) => Err(e),
                }
            },
            NodeConfig::Lookup { region, inputs } => {
                if inputs.len() != 1 {
                    return Err(GraphError::InvalidLookupInputs);
                }
                let d = inputs[0];
                if !(d < results.len()) {
                    return Err(GraphError::MissingNode(d));
                }
                let value = match &results[d] {
                    Some(t) => t,
                    None => {
                        proof {
                            assert(rsv[d as int] == opt_tview(results@[d as int]));
                        }
                        return Err(GraphError::MissingNode(d));
                    },
                };
                proof {
                    assert(rsv[d as int] == opt_tview(results@[d as int]));
                }
                if *region < config.regions.len() && config.regions[*region].table
                    < config.tables.len() && config.tables[config.regions[*region].table].nonlinearities.len()
                    >= 1 {
                    let op = config.tables[config.regions[*region].table].nonlinearities[0];
                    match apply_lookup(op, value) {
                        Ok(v) => Ok(Some(v)),
                        Err(e) => Err(e),
                    }
                } else {
                    Err(GraphError::UnsupportedOp)
                }
            },
            NodeConfig::Input => Ok(None),
            NodeConfig::Const => Ok(None),
        }
    }

    /// Lays the whole model out: seeds the results with the input
    /// tensors, walks configured entries in ascending representative
    /// order, collects and packs the outputs, and pairs each with its
    /// public instance slot, shifted past the inputs when those are
    /// public too.
    pub fn layout(
        &self,
        config: &ModelConfig,
        inputs: &Vec<Tensor>,
        instances: &Vec<Tensor>,
    ) -> (r: Result<LayoutOutcome, GraphError>)
        requires
            inputs@.len() <= self.nodes.nodes@.len(),
            config.configs@.len() == self.nodes.nodes@.len(),
            config.packed_outputs@.len() <= self.outputs@.len(),
            config.range_checks@.len() <= self.outputs@.len(),
            instances@.len() >= (if self.visibility.input.spec_is_public() {
                inputs@.len()
            } else {
                0
            }) + config.range_checks@.len(),
        ensures
            ({
                let graph = self.nodes.nodes@;
                let seed = spec_seed(
                    graph.len() as int,
                    spec_bound_inputs(
                        self.visibility.input.spec_is_public(),
                        tviews(inputs@),
                        tviews(instances@),
                    ),
                );
                let offset: int = if self.visibility.input.spec_is_public() {
                    inputs@.len() as int
                } else {
                    0
                };
                match spec_layout_upto(
                    graph,
                    config.regions@,
                    config.tables@,
                    config.configs@,
                    seed,
                    config.configs@.len() as int,
                ) {
                    Result::Err(e) => r == Result::<LayoutOutcome, GraphError>::Err(e),
                    Result::Ok(rs) => match spec_collect(
                        self.outputs@,
                        rs,
                        self.outputs@.len() as int,
                    ) {
                        Result::Err(e) => r == Result::<LayoutOutcome, GraphError>::Err(e),
                        Result::Ok(outs0) => match spec_pack_fold(
                            config.packed_outputs@,
                            outs0,
                            config.packed_outputs@.len() as int,
                        ) {
                            Result::Err(e) => r == Result::<LayoutOutcome, GraphError>::Err(e),
                            Result::Ok(outs) => (r matches Ok(oc) && tviews(oc.outputs@) == outs
                                && oc.checks@.len() == config.range_checks@.len() && (forall|
                                k: int,
                            |
                                0 <= k < config.range_checks@.len() ==> (#[trigger] oc.checks@[k])
                                    == spec_in_tol(
                                    outs[k],
                                    tview(instances@[offset + k]),
                                    config.range_checks@[k].tolerance,
                                ))),
                        },
                    },
                }
            }),
    {
        let ghost graph = self.nodes.nodes@;
        let ghost bound = spec_bound_inputs(
            self.visibility.input.spec_is_public(),
            tviews(inputs@),
            tviews(instances@),
        );
        let ghost seed = spec_seed(graph.len() as int, bound);
        let input_public = self.visibility.input.is_public();
        let n = self.nodes.nodes.len();
        let mut results: Vec<Option<Tensor>> = Vec::new();
        let mut i: usize = 0;
        while i < n
            invariant
                i <= n,
                n == graph.len(),
                self.nodes.nodes@ == graph,
                inputs@.len() <= n,
                input_public == self.visibility.input.spec_is_public(),
                input_public ==> instances@.len() >= inputs@.len(),
                bound == spec_bound_inputs(
                    self.visibility.input.spec_is_public(),
                    tviews(inputs@),
                    tviews(instances@),
                ),
                results@.len() == i,
                forall|j: int|
                    0 <= j < i ==> opt_tview(#[trigger] results@[j]) == spec_seed(
                        graph.len() as int,
                        bound,
                    )[j],
            decreases n - i,
        {
            if i < inputs.len() {
                if input_public {
                    results.push(Some(instances[i].clone()));
                    proof {
                        assert(tviews(instances@)[i as int] == tview(instances@[i as int]));
                        assert(bound[i as int] == tviews(instances@)[i as int]);
                    }
                } else {
                    results.push(Some(inputs[i].clone()));
                    proof {
                        assert(tviews(inputs@)[i as int] == tview(inputs@[i as int]));
                        assert(bound[i as int] == tviews(inputs@)[i as int]);
                    }
                }
            } else {
                results.push(None);
            }
            i = i + 1;
        }
        proof {
            assert(Seq::new(results@.len(), |j: int| opt_tview(results@[j])) =~= seed);
        }
        let mut i: usize = 0;
        while i < n
            invariant
                i <= n,
                n == graph.len(),
                self.nodes.nodes@ == graph,
                seed == spec_seed(graph.len() as int, spec_bound_inputs(
                    self.visibility.input.spec_is_public(),
                    tviews(inputs@),
                    tviews(instances@),
                )),
                config.configs@.len() == n,
                results@.len() == n,
                spec_layout_upto(
                    graph,
                    config.regions@,
                    config.tables@,
                    config.configs@,
                    seed,
                    i as int,
                ) == Result::<Seq<Option<(Seq<usize>, Seq<i128>)>>, GraphError>::Ok(
                    Seq::new(results@.len(), |j: int| opt_tview(results@[j])),
                ),
            decreases n - i,
        {
            let ghost rsv = Seq::new(results@.len(), |j: int| opt_tview(results@[j]));
            match &config.configs[i] {
                None => {},
                Some(entry) => {
                    match self.layout_config(entry, &results, config) {
                        Ok(None) => {},
                        Ok(Some(v)) => {
                            let ghost vv = tview(v);
                            results.set(i, Some(v));
                            proof {
                                assert(Seq::new(results@.len(), |j: int| opt_tview(results@[j]))
                                    =~= rsv.update(i as int, Option::Some(vv)));
                            }
                        },
                        Err(e) => {
                            proof {
                                lemma_layout_upto_err(
                                    graph,
                                    config.regions@,
                                    config.tables@,
                                    config.configs@,
                                    seed,
                                    i as int + 1,
                                    config.configs@.len() as int,
                                );
                            }
                            return Err(e);
                        },
                    }
                },
            }
            i = i + 1;
        }
        proof {
            let rs = spec_layout_upto(
                graph,
                config.regions@,
                config.tables@,
                config.configs@,
                seed,
                config.configs@.len() as int,
            );
            assert(rs is Ok);
            assert(rs->Ok_0 == Seq::new(results@.len(), |j: int| opt_tview(results@[j])));
        }
        let ghost rsv_final = Seq::new(results@.len(), |j: int| opt_tview(results@[j]));
        let ghost sc = spec_collect(self.outputs@, rsv_final, self.outputs@.len() as int);
        let mut outputs = match self.resolve_results(&self.outputs, &results) {
            Ok(vs) => vs,
            Err(e) => {
                proof {
                    assert(sc == Result::<Seq<(Seq<usize>, Seq<i128>)>, GraphError>::Err(e));
                }
                return Err(e);
            },
        };
        proof {
            assert(sc == Result::<Seq<(Seq<usize>, Seq<i128>)>, GraphError>::Ok(tviews(outputs@)));
        }
        let ilen = instances.len();
        let ghost outs0 = tviews(outputs@);
        let mut k: usize = 0;
        while k < config.packed_outputs.len()
            invariant
                k <= config.packed_outputs@.len(),
                self.nodes.nodes@ == graph,
                seed == spec_seed(graph.len() as int, spec_bound_inputs(
                    self.visibility.input.spec_is_public(),
                    tviews(inputs@),
                    tviews(instances@),
                )),
                ({
                    let u = spec_layout_upto(
                        graph,
                        config.regions@,
                        config.tables@,
                        config.configs@,
                        seed,
                        config.configs@.len() as int,
                    );
                    u is Ok && spec_collect(self.outputs@, u->Ok_0, self.outputs@.len() as int)
                        == Result::<Seq<(Seq<usize>, Seq<i128>)>, GraphError>::Ok(outs0)
                }),
                outs0 == spec_pack_fold(config.packed_outputs@, outs0, 0)->Ok_0,
                config.packed_outputs@.len() <= outputs@.len(),
                outputs@.len() == self.outputs@.len(),
                spec_pack_fold(config.packed_outputs@, outs0, k as int) == Result::<
                    Seq<(Seq<usize>, Seq<i128>)>,
                    GraphError,
                >::Ok(tviews(outputs@)),
            decreases config.packed_outputs@.len() - k,
        {
            let mut single: Vec<Tensor> = Vec::new();
            single.push(outputs[k].clone());
            proof {
                assert(tviews(single@) =~= seq![tviews(outputs@)[k as int]]);
            }
            match poly_region_layout(&config.packed_outputs[k], &single) {
                Ok(v) => {
                    let ghost vv = tview(v);
                    let ghost pre = tviews(outputs@);
                    outputs.set(k, v);
                    proof {
                        assert(tviews(outputs@) =~= pre.update(k as int, vv));
                    }
                },
                Err(e) => {
                    proof {
                        lemma_pack_fold_err(
                            config.packed_outputs@,
                            outs0,
                            k as int + 1,
                            config.packed_outputs@.len() as int,
                        );
                    }
                    return Err(e);
                },
            }
            k = k + 1;
        }
        let mut offset: usize = 0;
        if self.visibility.input.is_public() {
            offset = inputs.len();
        }
        let mut checks: Vec<bool> = Vec::new();
        let mut k: usize = 0;
        while k < config.range_checks.len()
            invariant
                k <= config.range_checks@.len(),
                self.nodes.nodes@ == graph,
                seed == spec_seed(graph.len() as int, spec_bound_inputs(
                    self.visibility.input.spec_is_public(),
                    tviews(inputs@),
                    tviews(instances@),
                )),
                ({
                    let u = spec_layout_upto(
                        graph,
                        config.regions@,
                        config.tables@,
                        config.configs@,
                        seed,
                        config.configs@.len() as int,
                    );
                    u is Ok && spec_collect(self.outputs@, u->Ok_0, self.outputs@.len() as int)
                        == Result::<Seq<(Seq<usize>, Seq<i128>)>, GraphError>::Ok(outs0)
                }),
                spec_pack_fold(
                    config.packed_outputs@,
                    outs0,
                    config.packed_outputs@.len() as int,
                ) == Result::<Seq<(Seq<usize>, Seq<i128>)>, GraphError>::Ok(tviews(outputs@)),
                config.range_checks@.len() <= outputs@.len(),
                instances@.len() >= offset + config.range_checks@.len(),
                instances@.len() <= usize::MAX,
                offset as int == (if self.visibility.input.spec_is_public() {
                    inputs@.len() as int
                } else {
                    0int
                }),
                checks@.len() == k,
                forall|x: int|
                    0 <= x < k ==> (#[trigger] checks@[x]) == spec_in_tol(
                        tviews(outputs@)[x],
                        tview(instances@[offset + x]),
                        config.range_checks@[x].tolerance,
                    ),
            decreases config.range_checks@.len() - k,
        {
            proof {
                assert(offset + k < instances@.len());
            }
            let slot = offset + k;
            let ok = in_tolerance(&outputs[k], &instances[slot], config.range_checks[k].tolerance);
            proof {
                assert(tviews(outputs@)[k as int] == tview(outputs@[k as int]));
            }
            checks.push(ok);
            k = k + 1;
        }
        Ok(LayoutOutcome { outputs, checks })
    }
}

/// Once a constant-aware resolution has failed, longer scans agree.
proof fn lemma_resolve_cfg_err(
    graph: Seq<Node>,
    ids: Seq<usize>,
    results: Seq<Option<(Seq<usize>, Seq<i128>)>>,
    k0: int,
    k: int,
)
    requires
        0 <= k0 <= k,
        spec_resolve_cfg(graph, ids, results, k0) is Err,
    ensures
        spec_resolve_cfg(graph, ids, results, k) == spec_resolve_cfg(graph, ids, results, k0),
    decreases k - k0,
{
    if k > k0 {
        lemma_resolve_cfg_err(graph, ids, results, k0, k - 1);
    }
}

/// Once a node has failed, the whole forward pass reports its error.
proof fn lemma_forward_upto_err(
    graph: Seq<Node>,
    inputs: Seq<(Seq<usize>, Seq<i128>)>,
    k0: int,
    k: int,
)
    requires
        0 <= k0 <= k,
        spec_forward_upto(graph, inputs, k0) is Err,
    ensures
        spec_forward_upto(graph, inputs, k) == spec_forward_upto(graph, inputs, k0),
    decreases k - k0,
{
    if k > k0 {
        lemma_forward_upto_err(graph, inputs, k0, k - 1);
    }
}

} // verus!
