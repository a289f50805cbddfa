//! The configuration pass: walks the graph bucket by bucket, giving
//! trivial nodes placeholder configurations, lookup nodes deduplicated or
//! reused regions, and each bucket's polynomial nodes one fused region.

use vstd::prelude::*;
use crate::config::LookupRegion;
use crate::config::LookupTable;
use crate::config::ModelConfig;
use crate::config::NodeConfig;
use crate::config::PolyInputRef;
use crate::config::PolyNode;
use crate::config::PolyRegion;
use crate::config::RangeCheckRegion;
use crate::ops::PolyOp;
use crate::fuse::all_deps;
use crate::fuse::count_fixed;
use crate::fuse::deps_of;
use crate::fuse::fused_ok;
use crate::fuse::poly_group_err;
use crate::fuse::spec_externals;
use crate::lookup::lookup_op_sizes;
use crate::lookup::regions_wf;
use crate::lookup::registry_wf;
use crate::lookup::reuse_scan;
use crate::model::Model;
use crate::node::GraphError;
use crate::node::Node;
use crate::ops::LookupOp;
use crate::ops::OpKind;
use crate::tensor::dims_product;
use crate::vars::ModelVars;
use crate::vars::VarKind;

verus! {

/// The polynomial nodes of bucket `b` among the first `k` graph nodes, in
/// index order.
pub open spec fn poly_group_upto(graph: Seq<Node>, b: Option<usize>, k: int) -> Seq<Node>
    decreases k,
{
    if k <= 0 {
        Seq::empty()
    } else {
        let prev = poly_group_upto(graph, b, k - 1);
        if graph[k - 1].bucket == b && graph[k - 1].opkind is Poly {
            prev.push(graph[k - 1])
        } else {
            prev
        }
    }
}

/// The polynomial nodes of bucket `b`, in index order.
pub open spec fn poly_group(graph: Seq<Node>, b: Option<usize>) -> Seq<Node> {
    poly_group_upto(graph, b, graph.len() as int)
}

/// The column length a lookup node's region is sized to: the operator's
/// whole declared footprint under column reuse, the node's own input
/// footprint otherwise.
pub open spec fn spec_lookup_len(m: Model, node: Node) -> usize {
    if m.run_args.single_lookup {
        lookup_op_sizes(m.graph(), node.opkind->Lookup_0, m.graph().len() as int) as usize
    } else {
        dims_product(node.in_dims@[0]@) as usize
    }
}

/// The lookup configuration a node is owed: the node's dependency list,
/// and a region over the first two advice columns, sized to the node's
/// footprint, whose table tabulates exactly the node's operator.
pub open spec fn lookup_entry_ok(
    m: Model,
    c: NodeConfig,
    node: Node,
    regions: Seq<LookupRegion>,
    tables: Seq<LookupTable>,
) -> bool {
    c matches NodeConfig::Lookup { region, inputs } && {
        let op = node.opkind->Lookup_0;
        &&& inputs@ == deps_of(node)
        &&& region < regions.len()
        &&& regions[region as int].table < tables.len()
        &&& tables[regions[region as int].table as int].nonlinearities@ == seq![op]
        &&& regions[region as int].input.kind == VarKind::Advice
        &&& regions[region as int].input.index == 0
        &&& regions[region as int].output.kind == VarKind::Advice
        &&& regions[region as int].output.index == 1
        &&& regions[region as int].input.dims@ == regions[region as int].output.dims@
        &&& regions[region as int].input.dims@ == seq![spec_lookup_len(m, node)]
        &&& regions[region as int].bits == m.run_args.bits
    }
}

/// With column reuse on, two lookup nodes carrying the same operator
/// share one region.
pub open spec fn lookup_sharing_ok(
    m: Model,
    configs: Seq<Option<NodeConfig>>,
) -> bool {
    forall|i1: int, i2: int|
        (0 <= i1 < m.graph().len() && 0 <= i2 < m.graph().len() && ((#[trigger] configs[i1])
            matches Some(NodeConfig::Lookup { .. })) && ((#[trigger] configs[i2]) matches Some(
            NodeConfig::Lookup { .. },
        )) && m.graph()[i1].opkind == m.graph()[i2].opkind)
            ==> configs[i1]->Some_0->Lookup_region == configs[i2]->Some_0->Lookup_region
}

/// What the configuration map owes one node once its bucket is
/// processed: trivial and lookup nodes an entry, a polynomial group's
/// representative the fused entry, everything else nothing.
pub open spec fn bucket_covered(m: Model, node: Node, c: Option<NodeConfig>) -> bool {
    match node.opkind {
        OpKind::Input => c is Some,
        OpKind::Const => c is Some,
        OpKind::Lookup(_) => c is Some,
        OpKind::Poly(_) => {
            let g = poly_group(m.graph(), node.bucket);
            if g.len() > 0 && g.last().idx == node.idx {
                c is Some
            } else {
                c is None
            }
        },
        OpKind::Unknown => c is None,
    }
}

/// A list of single-element shapes.
fn ones_shapes(count: usize) -> (r: Vec<Vec<usize>>)
    ensures
        r@.len() == count,
        forall|k: int| 0 <= k < count ==> (#[trigger] r@[k])@ == seq![1usize],
{
    let mut r: Vec<Vec<usize>> = Vec::new();
    let mut k: usize = 0;
    while k < count
        invariant
            k <= count,
            r@.len() == k,
            forall|j: int| 0 <= j < k ==> (#[trigger] r@[j])@ == seq![1usize],
        decreases count - k,
    {
        let mut one: Vec<usize> = Vec::new();
        one.push(1);
        proof {
            assert(one@ =~= seq![1usize]);
        }
        r.push(one);
        k = k + 1;
    }
    r
}

/// Compares two optional bucket identifiers.
fn opt_bucket_eq(a: Option<usize>, b: Option<usize>) -> (r: bool)
    ensures
        r == (a == b),
{
    match (a, b) {
        (Option::None, Option::None) => true,
        (Option::Some(x), Option::Some(y)) => x == y,
        _ => false,
    }
}

/// Every member of a bucket's polynomial group is one of the graph's
/// nodes, carries the bucket, and is a polynomial node.
proof fn lemma_poly_group_upto_members(graph: Seq<Node>, b: Option<usize>, k: int, t: int)
    requires
        0 <= k <= graph.len(),
        0 <= t < poly_group_upto(graph, b, k).len(),
    ensures
        poly_group_upto(graph, b, k)[t].bucket == b,
        poly_group_upto(graph, b, k)[t].opkind is Poly,
        exists|j: int| 0 <= j < k && graph[j] == poly_group_upto(graph, b, k)[t],
    decreases k,
{
    if k > 0 {
        let prev = poly_group_upto(graph, b, k - 1);
        if t < prev.len() {
            lemma_poly_group_upto_members(graph, b, k - 1, t);
            let j = choose|j: int| 0 <= j < k - 1 && graph[j] == prev[t];
            assert(graph[j] == poly_group_upto(graph, b, k)[t]);
        } else {
            assert(graph[k - 1] == poly_group_upto(graph, b, k)[t]);
        }
    }
}

/// Under the index-ordered graph, every member of a prefix's polynomial
/// group carries an index below the prefix length.
proof fn lemma_poly_group_upto_idx_lt(graph: Seq<Node>, b: Option<usize>, k: int, t: int)
    requires
        forall|j: int| 0 <= j < graph.len() ==> (#[trigger] graph[j]).idx == j,
        0 <= k <= graph.len(),
        0 <= t < poly_group_upto(graph, b, k).len(),
    ensures
        poly_group_upto(graph, b, k)[t].idx < k,
    decreases k,
{
    if k > 0 {
        let prev = poly_group_upto(graph, b, k - 1);
        if t < prev.len() {
            lemma_poly_group_upto_idx_lt(graph, b, k - 1, t);
        } else {
            assert(poly_group_upto(graph, b, k)[t] == graph[k - 1]);
        }
    }
}

/// Under the index-ordered graph, a bucket's polynomial group ascends
/// strictly by node index.
pub proof fn lemma_poly_group_sorted(graph: Seq<Node>, b: Option<usize>, p: int, q: int)
    requires
        forall|j: int| 0 <= j < graph.len() ==> (#[trigger] graph[j]).idx == j,
        0 <= p < q < poly_group(graph, b).len(),
    ensures
        poly_group(graph, b)[p].idx < poly_group(graph, b)[q].idx,
{
    lemma_poly_group_sorted_upto(graph, b, graph.len() as int, p, q);
}

/// Sortedness of the prefix groups, by induction on the prefix.
proof fn lemma_poly_group_sorted_upto(graph: Seq<Node>, b: Option<usize>, k: int, p: int, q: int)
    requires
        forall|j: int| 0 <= j < graph.len() ==> (#[trigger] graph[j]).idx == j,
        0 <= k <= graph.len(),
        0 <= p < q < poly_group_upto(graph, b, k).len(),
    ensures
        poly_group_upto(graph, b, k)[p].idx < poly_group_upto(graph, b, k)[q].idx,
    decreases k,
{
    if k > 0 {
        let prev = poly_group_upto(graph, b, k - 1);
        if q < prev.len() {
            lemma_poly_group_sorted_upto(graph, b, k - 1, p, q);
        } else {
            lemma_poly_group_upto_idx_lt(graph, b, k - 1, p);
            assert(poly_group_upto(graph, b, k)[q] == graph[k - 1]);
        }
    }
}

/// Every member of a bucket's polynomial group is one of the graph's
/// nodes, carries the bucket, and is a polynomial node.
pub proof fn lemma_poly_group_members(graph: Seq<Node>, b: Option<usize>, t: int)
    requires
        0 <= t < poly_group(graph, b).len(),
    ensures
        poly_group(graph, b)[t].bucket == b,
        poly_group(graph, b)[t].opkind is Poly,
        exists|j: int| 0 <= j < graph.len() && graph[j] == poly_group(graph, b)[t],
{
    lemma_poly_group_upto_members(graph, b, graph.len() as int, t);
}

/// Configured entries stay the configurations their nodes are owed when
/// the region and table arenas grow by appending.
proof fn lemma_entry_ok_grow(
    m: Model,
    configs: Seq<Option<NodeConfig>>,
    old_regions: Seq<LookupRegion>,
    old_tables: Seq<LookupTable>,
    regions: Seq<LookupRegion>,
    tables: Seq<LookupTable>,
)
    requires
        m.configs_wf(configs, old_regions, old_tables),
        forall|h: int| 0 <= h < old_regions.len() ==> regions[h] == old_regions[h],
        old_regions.len() <= regions.len(),
        forall|t: int| 0 <= t < old_tables.len() ==> tables[t] == old_tables[t],
        old_tables.len() <= tables.len(),
    ensures
        m.configs_wf(configs, regions, tables),
{
    let graph = m.graph();
    assert forall|i: int|
        0 <= i < graph.len() && (#[trigger] configs[i]) is Some implies match graph[i].opkind {
        OpKind::Input => configs[i]->Some_0 is Input,
        OpKind::Const => configs[i]->Some_0 is Const,
        OpKind::Lookup(_) => lookup_entry_ok(m, configs[i]->Some_0, graph[i], regions, tables),
        OpKind::Poly(_) => {
            let g = poly_group(graph, graph[i].bucket);
            &&& configs[i]->Some_0 matches NodeConfig::Poly { region, inputs } && fused_ok(
                graph,
                m.visibility.params.spec_is_public(),
                g,
                region,
                inputs,
            )
            &&& g.len() > 0
            &&& g.last().idx == i
        },
        OpKind::Unknown => false,
    } by {
        match graph[i].opkind {
            OpKind::Lookup(_) => {
                assert(lookup_entry_ok(m, configs[i]->Some_0, graph[i], old_regions, old_tables));
                let h = configs[i]->Some_0->Lookup_region;
                assert(regions[h as int] == old_regions[h as int]);
                assert(tables[old_regions[h as int].table as int]
                    == old_tables[old_regions[h as int].table as int]);
            },
            _ => {},
        }
    };
}

/// A configured entry in lookup shape belongs to a lookup node.
proof fn lemma_entry_is_lookup(
    m: Model,
    configs: Seq<Option<NodeConfig>>,
    regions: Seq<LookupRegion>,
    tables: Seq<LookupTable>,
    j: int,
)
    requires
        m.configs_wf(configs, regions, tables),
        0 <= j < m.graph().len(),
        configs[j] matches Some(NodeConfig::Lookup { .. }),
    ensures
        m.graph()[j].opkind is Lookup,
        lookup_entry_ok(m, configs[j]->Some_0, m.graph()[j], regions, tables),
{
    let graph = m.graph();
    match graph[j].opkind {
        OpKind::Input => {
            assert(configs[j]->Some_0 is Input);
        },
        OpKind::Const => {
            assert(configs[j]->Some_0 is Const);
        },
        OpKind::Poly(_) => {
            assert(configs[j]->Some_0 matches NodeConfig::Poly { .. });
        },
        OpKind::Lookup(_) => {},
        OpKind::Unknown => {},
    }
}

/// A successful reuse scan names some configured entry's region, whose
/// table matches the operator.
proof fn lemma_reuse_scan_some(
    configs: Seq<Option<NodeConfig>>,
    regions: Seq<LookupRegion>,
    tables: Seq<LookupTable>,
    op: LookupOp,
    k: int,
)
    requires
        k <= configs.len(),
        reuse_scan(configs, regions, tables, op, k) is Some,
    ensures
        ({
            let h = reuse_scan(configs, regions, tables, op, k).unwrap();
            exists|j: int|
                0 <= j < k && ((#[trigger] configs[j]) matches Some(NodeConfig::Lookup { .. }))
                    && configs[j]->Some_0->Lookup_region == h && h < regions.len()
                    && regions[h as int].table < tables.len()
                    && tables[regions[h as int].table as int].nonlinearities@ == seq![op]
        }),
    decreases k,
{
    if k > 0 {
        let c = configs[k - 1];
        match c {
            Option::Some(NodeConfig::Lookup { region, .. }) => {
                if region < regions.len() && regions[region as int].table < tables.len()
                    && tables[regions[region as int].table as int].nonlinearities@ == seq![op] {
                    assert(configs[k - 1] matches Some(NodeConfig::Lookup { .. }));
                } else {
                    lemma_reuse_scan_some(configs, regions, tables, op, k - 1);
                }
            },
            _ => {
                lemma_reuse_scan_some(configs, regions, tables, op, k - 1);
            },
        }
    }
}

/// A failed reuse scan certifies that no configured entry's region table
/// matches the operator.
proof fn lemma_reuse_scan_none(
    configs: Seq<Option<NodeConfig>>,
    regions: Seq<LookupRegion>,
    tables: Seq<LookupTable>,
    op: LookupOp,
    k: int,
)
    requires
        k <= configs.len(),
        reuse_scan(configs, regions, tables, op, k) is None,
    ensures
        forall|j: int|
            0 <= j < k && ((#[trigger] configs[j]) matches Some(NodeConfig::Lookup { .. })) ==> {
                let h = configs[j]->Some_0->Lookup_region;
                !(h < regions.len() && regions[h as int].table < tables.len()
                    && tables[regions[h as int].table as int].nonlinearities@ == seq![op])
            },
    decreases k,
{
    if k > 0 {
        lemma_reuse_scan_none(configs, regions, tables, op, k - 1);
    }
}

/// Updating one entry with a region already shared by its operator, or
/// with a region for an operator seen for the first time, keeps the
/// sharing discipline.
proof fn lemma_sharing_after_set(
    m: Model,
    pre: Seq<Option<NodeConfig>>,
    configs: Seq<Option<NodeConfig>>,
    i: int,
)
    requires
        lookup_sharing_ok(m, pre),
        pre.len() == m.graph().len(),
        configs.len() == pre.len(),
        0 <= i < pre.len(),
        forall|j: int| 0 <= j < pre.len() && j != i ==> configs[j] == pre[j],
        configs[i] matches Some(NodeConfig::Lookup { .. }),
        (exists|jj: int|
            0 <= jj < pre.len() && ((#[trigger] pre[jj]) matches Some(
                NodeConfig::Lookup { .. },
            )) && m.graph()[jj].opkind == m.graph()[i].opkind && pre[jj]->Some_0->Lookup_region
                == configs[i]->Some_0->Lookup_region) || (forall|jj: int|
            0 <= jj < pre.len() && ((#[trigger] pre[jj]) matches Some(NodeConfig::Lookup { .. }))
                ==> m.graph()[jj].opkind != m.graph()[i].opkind),
    ensures
        lookup_sharing_ok(m, configs),
{
    let graph = m.graph();
    assert forall|i1: int, i2: int|
        (0 <= i1 < graph.len() && 0 <= i2 < graph.len() && ((#[trigger] configs[i1]) matches Some(
            NodeConfig::Lookup { .. },
        )) && ((#[trigger] configs[i2]) matches Some(NodeConfig::Lookup { .. }))
            && graph[i1].opkind == graph[i2].opkind) implies configs[i1]->Some_0->Lookup_region
        == configs[i2]->Some_0->Lookup_region by {
        if i1 != i && i2 != i {
            assert(pre[i1] == configs[i1]);
            assert(pre[i2] == configs[i2]);
        } else if i1 == i && i2 != i {
            let jj = choose|jj: int|
                0 <= jj < pre.len() && ((#[trigger] pre[jj]) matches Some(
                    NodeConfig::Lookup { .. },
                )) && graph[jj].opkind == graph[i].opkind && pre[jj]->Some_0->Lookup_region
                    == configs[i]->Some_0->Lookup_region;
            assert(pre[i2] == configs[i2]);
        } else if i2 == i && i1 != i {
            let jj = choose|jj: int|
                0 <= jj < pre.len() && ((#[trigger] pre[jj]) matches Some(
                    NodeConfig::Lookup { .. },
                )) && graph[jj].opkind == graph[i].opkind && pre[jj]->Some_0->Lookup_region
                    == configs[i]->Some_0->Lookup_region;
            assert(pre[i1] == configs[i1]);
        }
    };
}

impl Model {
    /// The graph's node sequence.
    pub open spec fn graph(self) -> Seq<Node> {
        self.nodes.nodes@
    }

    /// Everything configured so far is the configuration its node is owed.
    pub open spec fn configs_wf(
        self,
        configs: Seq<Option<NodeConfig>>,
        regions: Seq<LookupRegion>,
        tables: Seq<LookupTable>,
    ) -> bool {
        let graph = self.graph();
        let pp = self.visibility.params.spec_is_public();
        &&& configs.len() == graph.len()
        &&& forall|i: int|
            0 <= i < graph.len() && (#[trigger] configs[i]) is Some ==> match graph[i].opkind {
                OpKind::Input => configs[i]->Some_0 is Input,
                OpKind::Const => configs[i]->Some_0 is Const,
                OpKind::Lookup(_) => lookup_entry_ok(
                    self,
                    configs[i]->Some_0,
                    graph[i],
                    regions,
                    tables,
                ),
                OpKind::Poly(_) => {
                    let g = poly_group(graph, graph[i].bucket);
                    &&& configs[i]->Some_0 matches NodeConfig::Poly { region, inputs }
                        && fused_ok(graph, pp, g, region, inputs)
                    &&& g.len() > 0
                    &&& g.last().idx == i
                },
                OpKind::Unknown => false,
            }
        &&& self.run_args.single_lookup ==> lookup_sharing_ok(self, configs)
    }

    /// The variable pool is large enough for every fused group, and for
    /// the two columns lookup, packing and range-check regions use.
    pub open spec fn pools_ok(self, vars: ModelVars) -> bool {
        let graph = self.graph();
        let pp = self.visibility.params.spec_is_public();
        &&& vars.num_advices >= 2
        &&& forall|b: Option<usize>|
            #[trigger] poly_group(graph, b).len() > 0 ==> {
                let g = poly_group(graph, b);
                let ext = spec_externals(g);
                let nf = count_fixed(graph, pp, ext, ext.len() as int);
                &&& all_deps(g).len() <= usize::MAX
                &&& vars.num_advices >= ext.len() - nf + 1
                &&& vars.num_fixed >= nf
            }
    }

    /// Every lookup node's sizing arithmetic stays within machine bounds.
    pub open spec fn lookup_sizes_ok(self) -> bool {
        let graph = self.graph();
        &&& forall|i: int|
            0 <= i < graph.len() && (#[trigger] graph[i].opkind) is Lookup ==> {
                &&& graph[i].in_dims@.len() >= 1
                &&& dims_product(graph[i].in_dims@[0]@) <= usize::MAX
            }
        &&& forall|op: LookupOp|
            #[trigger] lookup_op_sizes(graph, op, graph.len() as int) <= usize::MAX
    }

    /// Configures every node of one bucket, in three passes: trivial
    /// nodes first, then lookup nodes, then the bucket's polynomial
    /// nodes fused into a single configuration keyed by their maximum
    /// index.
    pub fn conf_bucket(
        &self,
        b: Option<usize>,
        vars: &ModelVars,
        configs: &mut Vec<Option<NodeConfig>>,
        regions: &mut Vec<LookupRegion>,
        tables: &mut Vec<LookupTable>,
        registry: &mut Vec<(LookupOp, usize)>,
    ) -> (r: Result<(), GraphError>)
        requires
            self.nodes.wf(),
            self.pools_ok(*vars),
            self.lookup_sizes_ok(),
            old(configs)@.len() == self.graph().len(),
            self.configs_wf(old(configs)@, old(regions)@, old(tables)@),
            registry_wf(old(registry)@, old(tables)@),
            regions_wf(old(regions)@, old(tables)@),
        ensures
            registry_wf(final(registry)@, final(tables)@),
            regions_wf(final(regions)@, final(tables)@),
            final(configs)@.len() == self.graph().len(),
            self.configs_wf(final(configs)@, final(regions)@, final(tables)@),
            forall|h: int|
                0 <= h < old(regions)@.len() ==> final(regions)@[h] == old(regions)@[h],
            old(regions)@.len() <= final(regions)@.len(),
            forall|t: int| 0 <= t < old(tables)@.len() ==> final(tables)@[t] == old(tables)@[t],
            old(tables)@.len() <= final(tables)@.len(),
            forall|i: int|
                0 <= i < self.graph().len() && (#[trigger] self.graph()[i]).bucket != b
                    ==> final(configs)@[i] == old(configs)@[i],
            (r is Ok) <==> poly_group_err(
                self.graph().len() as int,
                poly_group(self.graph(), b),
            ) is None,
            r matches Err(e) ==> poly_group_err(
                self.graph().len() as int,
                poly_group(self.graph(), b),
            ) == Some(e),
            r is Ok ==> forall|i: int|
                0 <= i < self.graph().len() && (#[trigger] self.graph()[i]).bucket == b
                    ==> match self.graph()[i].opkind {
                    OpKind::Input => final(configs)@[i] is Some,
                    OpKind::Const => final(configs)@[i] is Some,
                    OpKind::Lookup(_) => final(configs)@[i] is Some,
                    OpKind::Poly(_) => {
                        let g = poly_group(self.graph(), b);
                        if g.len() > 0 && g.last().idx == i {
                            final(configs)@[i] is Some
                        } else {
                            final(configs)@[i] == old(configs)@[i]
                        }
                    },
                    OpKind::Unknown => final(configs)@[i] == old(configs)@[i],
                },
    {
        let ghost graph = self.graph();
        let ghost old_configs = configs@;
        let n = self.nodes.nodes.len();

        // Trivial pass: inputs and constants get placeholder configurations.
        let mut i: usize = 0;
        while i < n
            invariant
                i <= n,
                n == graph.len(),
                self.graph() == graph,
                self.nodes.wf(),
                configs@.len() == graph.len(),
                regions@ == old(regions)@,
                tables@ == old(tables)@,
                registry@ == old(registry)@,
                registry_wf(registry@, tables@),
                regions_wf(regions@, tables@),
                self.configs_wf(configs@, regions@, tables@),
                forall|j: int|
                    0 <= j < graph.len() && !((#[trigger] graph[j]).bucket == b && (
                    graph[j].opkind is Const || graph[j].opkind is Input)) ==> configs@[j]
                        == old_configs[j],
                forall|j: int|
                    0 <= j < i && (#[trigger] graph[j]).bucket == b && (graph[j].opkind is Const
                        || graph[j].opkind is Input) ==> configs@[j] is Some,
            decreases n - i,
        {
            let node = &self.nodes.nodes[i];
            let selected = opt_bucket_eq(node.bucket, b) && (node.opkind.is_const()
                || node.opkind.is_input());
            if selected {
                let cfg = match self.conf_non_op_node(node) {
                    Ok(c) => c,
                    Err(e) => {
                        proof {
                            assert(false);
                        }
                        return Err(e);
                    },
                };
                configs.set(i, Some(cfg));
            }
            i = i + 1;
        }

        // Lookup pass: each lookup node allocates or reuses a region.
        let mut i: usize = 0;
        while i < n
            invariant
                i <= n,
                n == graph.len(),
                self.graph() == graph,
                self.nodes.wf(),
                self.pools_ok(*vars),
                self.lookup_sizes_ok(),
                configs@.len() == graph.len(),
                registry_wf(registry@, tables@),
                regions_wf(regions@, tables@),
                self.configs_wf(configs@, regions@, tables@),
                forall|h: int|
                    0 <= h < old(regions)@.len() ==> regions@[h] == old(regions)@[h],
                old(regions)@.len() <= regions@.len(),
                forall|t: int| 0 <= t < old(tables)@.len() ==> tables@[t] == old(tables)@[t],
                old(tables)@.len() <= tables@.len(),
                forall|j: int|
                    0 <= j < graph.len() && !((#[trigger] graph[j]).bucket == b && (
                    graph[j].opkind is Const || graph[j].opkind is Input || graph[j].opkind
                        is Lookup)) ==> configs@[j] == old_configs[j],
                forall|j: int|
                    0 <= j < graph.len() && (#[trigger] graph[j]).bucket == b && (
                    graph[j].opkind is Const || graph[j].opkind is Input) ==> configs@[j]
                        is Some,
                forall|j: int|
                    0 <= j < i && (#[trigger] graph[j]).bucket == b && graph[j].opkind is Lookup
                        ==> configs@[j] is Some,
            decreases n - i,
        {
            let node = &self.nodes.nodes[i];
            let selected = opt_bucket_eq(node.bucket, b) && node.opkind.is_lookup();
            if selected {
                let ghost pre_regions = regions@;
                let ghost pre_tables = tables@;
                let ghost pre_configs = configs@;
                let cfg = if !self.run_args.single_lookup {
                    let input_len = match crate::tensor::checked_dims_product(&node.in_dims[0]) {
                        Some(l) => l,
                        None => {
                            proof {
                                assert(false);
                            }
                            0
                        },
                    };
                    match self.conf_lookup(node, input_len, vars, regions, tables, registry) {
                        Ok(c) => c,
                        Err(e) => {
                            proof {
                                assert(false);
                            }
                            return Err(e);
                        },
                    }
                } else {
                    match self.reuse_lookup_conf(i, node, configs, vars, regions, tables, registry) {
                        Ok(c) => c,
                        Err(e) => {
                            proof {
                                assert(false);
                            }
                            return Err(e);
                        },
                    }
                };
                proof {
                    lemma_entry_ok_grow(
                        *self,
                        pre_configs,
                        pre_regions,
                        pre_tables,
                        regions@,
                        tables@,
                    );
                }
                configs.set(i, Some(cfg));
                proof {
                    if self.run_args.single_lookup {
                        let gi = i as int;
                        let op = graph[gi].opkind->Lookup_0;
                        let scan = reuse_scan(
                            pre_configs,
                            pre_regions,
                            pre_tables,
                            op,
                            pre_configs.len() as int,
                        );
                        let hnew = configs@[gi]->Some_0->Lookup_region;
                        if scan is Some {
                            lemma_reuse_scan_some(
                                pre_configs,
                                pre_regions,
                                pre_tables,
                                op,
                                pre_configs.len() as int,
                            );
                            let h = scan.unwrap();
                            let jj = choose|j: int|
                                0 <= j < pre_configs.len() && ((#[trigger] pre_configs[j])
                                    matches Some(NodeConfig::Lookup { .. }))
                                    && pre_configs[j]->Some_0->Lookup_region == h && h
                                    < pre_regions.len() && pre_regions[h as int].table
                                    < pre_tables.len()
                                    && pre_tables[pre_regions[h as int].table as int].nonlinearities@
                                    == seq![op];
                            lemma_entry_is_lookup(*self, pre_configs, pre_regions, pre_tables, jj);
                            let opjj = graph[jj].opkind->Lookup_0;
                            assert(lookup_entry_ok(
                                *self,
                                pre_configs[jj]->Some_0,
                                graph[jj],
                                pre_regions,
                                pre_tables,
                            ));
                            assert(pre_tables[pre_regions[h as int].table as int].nonlinearities@
                                == seq![opjj]);
                            assert(seq![opjj][0] == opjj);
                            assert(seq![op][0] == op);
                            assert(graph[jj].opkind == graph[gi].opkind);
                            assert(hnew == h);
                            assert(exists|j2: int|
                                0 <= j2 < pre_configs.len() && ((#[trigger] pre_configs[j2])
                                    matches Some(NodeConfig::Lookup { .. }))
                                    && self.graph()[j2].opkind == self.graph()[gi].opkind
                                    && pre_configs[j2]->Some_0->Lookup_region == hnew) by {
                                assert(pre_configs[jj] matches Some(NodeConfig::Lookup { .. })
                                    && self.graph()[jj].opkind == self.graph()[gi].opkind
                                    && pre_configs[jj]->Some_0->Lookup_region == hnew);
                            };
                        } else {
                            lemma_reuse_scan_none(
                                pre_configs,
                                pre_regions,
                                pre_tables,
                                op,
                                pre_configs.len() as int,
                            );
                            assert forall|jj: int|
                                0 <= jj < pre_configs.len() && ((#[trigger] pre_configs[jj])
                                    matches Some(NodeConfig::Lookup { .. })) implies self.graph()[jj].opkind
                                != self.graph()[gi].opkind by {
                                lemma_entry_is_lookup(
                                    *self,
                                    pre_configs,
                                    pre_regions,
                                    pre_tables,
                                    jj,
                                );
                                assert(lookup_entry_ok(
                                    *self,
                                    pre_configs[jj]->Some_0,
                                    graph[jj],
                                    pre_regions,
                                    pre_tables,
                                ));
                                let opjj = graph[jj].opkind->Lookup_0;
                                if graph[jj].opkind == graph[gi].opkind {
                                    let hjj = pre_configs[jj]->Some_0->Lookup_region;
                                    assert(pre_tables[pre_regions[hjj as int].table as int].nonlinearities@
                                        == seq![opjj]);
                                    assert(seq![opjj] =~= seq![op]);
                                    assert(false);
                                }
                            };
                        }
                        lemma_sharing_after_set(*self, pre_configs, configs@, i as int);
                    }
                }
            }
            i = i + 1;
        }

        // Fusion pass: the bucket's polynomial nodes become one region.
        let mut group_pos: Vec<usize> = Vec::new();
        let mut i: usize = 0;
        proof {
            assert(crate::fuse::group_view(graph, group_pos@) =~= poly_group_upto(graph, b, 0));
        }
        while i < n
            invariant
                i <= n,
                n == graph.len(),
                self.graph() == graph,
                crate::fuse::group_view(graph, group_pos@) == poly_group_upto(graph, b, i as int),
                forall|t: int| 0 <= t < group_pos@.len() ==> (#[trigger] group_pos@[t]) < n,
            decreases n - i,
        {
            let node = &self.nodes.nodes[i];
            if opt_bucket_eq(node.bucket, b) && node.opkind.is_poly() {
                group_pos.push(i);
                proof {
                    assert(crate::fuse::group_view(graph, group_pos@) =~= poly_group_upto(
                        graph,
                        b,
                        i as int + 1,
                    ));
                }
            } else {
                proof {
                    assert(poly_group_upto(graph, b, i as int + 1) == poly_group_upto(
                        graph,
                        b,
                        i as int,
                    ));
                }
            }
            i = i + 1;
        }
        proof {
            assert(crate::fuse::group_view(graph, group_pos@) == poly_group(graph, b));
        }
        if group_pos.len() > 0 {
            let ghost g = poly_group(graph, b);
            proof {
                assert(g.len() > 0);
                assert(self.pools_ok(*vars));
                assert forall|a: int, b2: int|
                    0 <= a < b2 < group_pos@.len() implies graph[(#[trigger] group_pos@[a]) as int].idx
                    < graph[(#[trigger] group_pos@[b2]) as int].idx by {
                    assert(g[a] == graph[group_pos@[a] as int]);
                    assert(g[b2] == graph[group_pos@[b2] as int]);
                    lemma_poly_group_sorted(graph, b, a, b2);
                };
            }
            let cfg = match self.conf_poly_ops(&group_pos, vars) {
                Ok(c) => c,
                Err(e) => {
                    return Err(e);
                },
            };
            let rep = self.nodes.nodes[group_pos[group_pos.len() - 1]].idx;
            proof {
                assert(g[g.len() - 1] == graph[group_pos@[group_pos@.len() - 1] as int]);
                assert(g.last().idx == rep);
                lemma_poly_group_members(graph, b, g.len() - 1);
                assert(rep < n);
            }
            configs.set(rep, Some(cfg));
            proof {
                assert(graph[rep as int].opkind is Poly);
                assert(graph[rep as int].bucket == b);
            }
        }
        Ok(())
    }

    /// Shapes of the model's outputs, in output order.
    pub fn output_shapes(&self) -> (r: Vec<Vec<usize>>)
        requires
            forall|o: int|
                0 <= o < self.outputs@.len() ==> (#[trigger] self.outputs@[o])
                    < self.graph().len(),
        ensures
            r@.len() == self.outputs@.len(),
            forall|k: int|
                0 <= k < r@.len() ==> (#[trigger] r@[k])@ == self.graph()[self.outputs@[k] as int].out_dims@,
    {
        let mut r: Vec<Vec<usize>> = Vec::new();
        let mut k: usize = 0;
        while k < self.outputs.len()
            invariant
                k <= self.outputs@.len(),
                forall|o: int|
                    0 <= o < self.outputs@.len() ==> (#[trigger] self.outputs@[o])
                        < self.graph().len(),
                r@.len() == k,
                forall|j: int|
                    0 <= j < k ==> (#[trigger] r@[j])@
                        == self.graph()[self.outputs@[j] as int].out_dims@,
            decreases self.outputs@.len() - k,
        {
            r.push(crate::tensor::clone_flat(&self.nodes.nodes[self.outputs[k]].out_dims));
            k = k + 1;
        }
        r
    }

    /// One packing region per output: a single fused pack instruction
    /// folding the shaped output into one element.
    pub fn pack_outputs(&self, vars: &ModelVars, output_shapes: &Vec<Vec<usize>>) -> (r: Vec<
        PolyRegion,
    >)
        requires
            vars.num_advices >= 2,
        ensures
            r@.len() == output_shapes@.len(),
            forall|k: int|
                0 <= k < r@.len() ==> {
                    let pr = #[trigger] r@[k];
                    &&& pr.inputs@.len() == 1
                    &&& pr.inputs@[0].kind == VarKind::Advice
                    &&& pr.inputs@[0].index == 0
                    &&& pr.inputs@[0].dims@ == output_shapes@[k]@
                    &&& pr.output.kind == VarKind::Advice
                    &&& pr.output.index == 1
                    &&& pr.output.dims@ == seq![1usize]
                    &&& pr.nodes@.len() == 1
                    &&& pr.nodes@[0].op == PolyOp::Pack(
                        self.run_args.pack_base,
                        self.run_args.scale,
                    )
                    &&& pr.nodes@[0].input_order@ == seq![PolyInputRef::Input(0usize)]
                },
    {
        let mut r: Vec<PolyRegion> = Vec::new();
        let mut k: usize = 0;
        while k < output_shapes.len()
            invariant
                k <= output_shapes@.len(),
                vars.num_advices >= 2,
                r@.len() == k,
                forall|j: int|
                    0 <= j < k ==> {
                        let pr = #[trigger] r@[j];
                        &&& pr.inputs@.len() == 1
                        &&& pr.inputs@[0].kind == VarKind::Advice
                        &&& pr.inputs@[0].index == 0
                        &&& pr.inputs@[0].dims@ == output_shapes@[j]@
                        &&& pr.output.kind == VarKind::Advice
                        &&& pr.output.index == 1
                        &&& pr.output.dims@ == seq![1usize]
                        &&& pr.nodes@.len() == 1
                        &&& pr.nodes@[0].op == PolyOp::Pack(
                            self.run_args.pack_base,
                            self.run_args.scale,
                        )
                        &&& pr.nodes@[0].input_order@ == seq![PolyInputRef::Input(0usize)]
                    },
            decreases output_shapes@.len() - k,
        {
            let input = vars.advice(0, &output_shapes[k]);
            let mut one: Vec<usize> = Vec::new();
            one.push(1);
            let output = vars.advice(1, &one);
            let mut order: Vec<PolyInputRef> = Vec::new();
            order.push(PolyInputRef::Input(0));
            let mut nodes: Vec<PolyNode> = Vec::new();
            nodes.push(
                PolyNode {
                    op: PolyOp::Pack(self.run_args.pack_base, self.run_args.scale),
                    input_order: order,
                },
            );
            let mut inputs: Vec<crate::vars::VarTensor> = Vec::new();
            inputs.push(input);
            proof {
                assert(one@ =~= seq![1usize]);
            }
            r.push(PolyRegion { inputs, output, nodes });
            proof {
                assert(r@[k as int].nodes@[0].input_order@ =~= seq![PolyInputRef::Input(0usize)]);
            }
            k = k + 1;
        }
        r
    }

    /// One range-check region per output, comparing the output buffer
    /// against its public commitment within the configured tolerance.
    pub fn range_check_outputs(&self, vars: &ModelVars, output_shapes: &Vec<Vec<usize>>) -> (r:
        Vec<RangeCheckRegion>)
        requires
            vars.num_advices >= 2,
        ensures
            r@.len() == output_shapes@.len(),
            forall|k: int|
                0 <= k < r@.len() ==> {
                    let rc = #[trigger] r@[k];
                    &&& rc.input.kind == VarKind::Advice
                    &&& rc.input.index == 0
                    &&& rc.input.dims@ == output_shapes@[k]@
                    &&& rc.output.kind == VarKind::Advice
                    &&& rc.output.index == 1
                    &&& rc.output.dims@ == output_shapes@[k]@
                    &&& rc.tolerance == self.run_args.tolerance
                },
    {
        let mut r: Vec<RangeCheckRegion> = Vec::new();
        let mut k: usize = 0;
        while k < output_shapes.len()
            invariant
                k <= output_shapes@.len(),
                vars.num_advices >= 2,
                r@.len() == k,
                forall|j: int|
                    0 <= j < k ==> {
                        let rc = #[trigger] r@[j];
                        &&& rc.input.kind == VarKind::Advice
                        &&& rc.input.index == 0
                        &&& rc.input.dims@ == output_shapes@[j]@
                        &&& rc.output.kind == VarKind::Advice
                        &&& rc.output.index == 1
                        &&& rc.output.dims@ == output_shapes@[j]@
                        &&& rc.tolerance == self.run_args.tolerance
                    },
            decreases output_shapes@.len() - k,
        {
            let input = vars.advice(0, &output_shapes[k]);
            let output = vars.advice(1, &output_shapes[k]);
            r.push(RangeCheckRegion { input, output, tolerance: self.run_args.tolerance });
            k = k + 1;
        }
        r
    }

    /// Compiles the model into a full circuit configuration: every bucket
    /// in ascending order (the constant bucket first), then the output
    /// packing and range-check regions demanded by the visibility policy.
    pub fn configure(&self, vars: &ModelVars) -> (r: Result<ModelConfig, GraphError>)
        requires
            self.nodes.wf(),
            self.pools_ok(*vars),
            self.lookup_sizes_ok(),
            forall|o: int|
                0 <= o < self.outputs@.len() ==> (#[trigger] self.outputs@[o])
                    < self.graph().len(),
        ensures
            (r is Ok) <==> (forall|b: Option<usize>|
                poly_group_err(self.graph().len() as int, #[trigger] poly_group(self.graph(), b))
                    is None),
            r matches Err(e) ==> exists|b: Option<usize>|
                poly_group_err(self.graph().len() as int, #[trigger] poly_group(self.graph(), b))
                    == Some(e),
            r matches Ok(mc) ==> {
                let graph = self.graph();
                &&& self.configs_wf(mc.configs@, mc.regions@, mc.tables@)
                &&& mc.configs@.len() == graph.len()
                &&& forall|i: int|
                    0 <= i < graph.len() ==> (((#[trigger] mc.configs@[i]) is Some)
                        <==> match graph[i].opkind {
                        OpKind::Input => true,
                        OpKind::Const => true,
                        OpKind::Lookup(_) => true,
                        OpKind::Poly(_) => {
                            let g = poly_group(graph, graph[i].bucket);
                            g.len() > 0 && g.last().idx == i
                        },
                        OpKind::Unknown => false,
                    })
                &&& forall|t1: int, t2: int|
                    0 <= t1 < t2 < mc.tables@.len() ==> (#[trigger] mc.tables@[t1]).nonlinearities@
                        != (#[trigger] mc.tables@[t2]).nonlinearities@
                &&& mc.vars == *vars
                &&& (self.visibility.output.spec_is_public() && self.run_args.pack_base > 1 ==> {
                    &&& mc.packed_outputs@.len() == self.outputs@.len()
                    &&& forall|k: int|
                        0 <= k < mc.packed_outputs@.len() ==> {
                            let pr = #[trigger] mc.packed_outputs@[k];
                            &&& pr.inputs@.len() == 1
                            &&& pr.inputs@[0].dims@ == graph[self.outputs@[k] as int].out_dims@
                            &&& pr.output.dims@ == seq![1usize]
                            &&& pr.nodes@.len() == 1
                            &&& pr.nodes@[0].op == PolyOp::Pack(
                                self.run_args.pack_base,
                                self.run_args.scale,
                            )
                            &&& pr.nodes@[0].input_order@ == seq![PolyInputRef::Input(0usize)]
                        }
                    &&& mc.range_checks@.len() == self.outputs@.len()
                    &&& forall|k: int|
                        0 <= k < mc.range_checks@.len() ==> (
                        #[trigger] mc.range_checks@[k]).input.dims@ == seq![1usize]
                            && mc.range_checks@[k].tolerance == self.run_args.tolerance
                })
                &&& (self.visibility.output.spec_is_public() && self.run_args.pack_base <= 1 ==> {
                    &&& mc.packed_outputs@.len() == 0
                    &&& mc.range_checks@.len() == self.outputs@.len()
                    &&& forall|k: int|
                        0 <= k < mc.range_checks@.len() ==> (
                        #[trigger] mc.range_checks@[k]).input.dims@
                            == graph[self.outputs@[k] as int].out_dims@
                            && mc.range_checks@[k].output.dims@
                            == graph[self.outputs@[k] as int].out_dims@
                            && mc.range_checks@[k].tolerance == self.run_args.tolerance
                })
                &&& (!self.visibility.output.spec_is_public() ==> mc.packed_outputs@.len() == 0
                    && mc.range_checks@.len() == 0)
            },
    {
        let ghost graph = self.graph();
        let n = self.nodes.nodes.len();

        let mut configs: Vec<Option<NodeConfig>> = Vec::new();
        let mut i: usize = 0;
        while i < n
            invariant
                i <= n,
                configs@.len() == i,
                forall|j: int| 0 <= j < i ==> (#[trigger] configs@[j]) is None,
            decreases n - i,
        {
            configs.push(None);
            i = i + 1;
        }
        let mut regions: Vec<LookupRegion> = Vec::new();
        let mut tables: Vec<LookupTable> = Vec::new();
        let mut registry: Vec<(LookupOp, usize)> = Vec::new();

        let mut maxb: usize = 0;
        let mut i: usize = 0;
        while i < n
            invariant
                i <= n,
                n == graph.len(),
                self.graph() == graph,
                forall|j: int|
                    0 <= j < i && (#[trigger] graph[j]).bucket is Some ==> graph[j].bucket->0
                        <= maxb,
            decreases n - i,
        {
            match self.nodes.nodes[i].bucket {
                Some(v) => {
                    if v > maxb {
                        maxb = v;
                    }
                },
                None => {},
            }
            i = i + 1;
        }

        match self.conf_bucket(None, vars, &mut configs, &mut regions, &mut tables, &mut registry) {
            Ok(()) => {},
            Err(e) => {
                return Err(e);
            },
        }
        let mut bg: usize = 0;
        loop
            invariant
                bg <= maxb,
                n == graph.len(),
                self.graph() == graph,
                self.nodes.wf(),
                self.pools_ok(*vars),
                self.lookup_sizes_ok(),
                forall|j: int|
                    0 <= j < n && (#[trigger] graph[j]).bucket is Some ==> graph[j].bucket->0
                        <= maxb,
                configs@.len() == n,
                registry_wf(registry@, tables@),
                regions_wf(regions@, tables@),
                self.configs_wf(configs@, regions@, tables@),
                poly_group_err(n as int, poly_group(graph, Option::None)) is None,
                forall|v: usize|
                    v < bg ==> poly_group_err(n as int, #[trigger] poly_group(graph, Some(v)))
                        is None,
                forall|i2: int|
                    0 <= i2 < n && ((#[trigger] graph[i2]).bucket is None || graph[i2].bucket->0
                        < bg) ==> bucket_covered(*self, graph[i2], configs@[i2]),
            ensures
                configs@.len() == n,
                registry_wf(registry@, tables@),
                regions_wf(regions@, tables@),
                self.configs_wf(configs@, regions@, tables@),
                poly_group_err(n as int, poly_group(graph, Option::None)) is None,
                forall|v: usize|
                    v <= maxb ==> poly_group_err(n as int, #[trigger] poly_group(graph, Some(v)))
                        is None,
                forall|i2: int|
                    0 <= i2 < n && ((#[trigger] graph[i2]).bucket is None || graph[i2].bucket->0
                        <= maxb) ==> bucket_covered(*self, graph[i2], configs@[i2]),
            decreases maxb - bg,
        {
            let ghost pre = configs@;
            match self.conf_bucket(
                Some(bg),
                vars,
                &mut configs,
                &mut regions,
                &mut tables,
                &mut registry,
            ) {
                Ok(()) => {},
                Err(e) => {
                    return Err(e);
                },
            }
            proof {
                assert forall|i2: int|
                    0 <= i2 < n && ((#[trigger] graph[i2]).bucket is None || graph[i2].bucket->0
                        < bg + 1) implies bucket_covered(*self, graph[i2], configs@[i2]) by {
                    if graph[i2].bucket == Some(bg) {
                    } else {
                        assert(configs@[i2] == pre[i2]);
                    }
                };
            }
            if bg == maxb {
                break;
            }
            bg = bg + 1;
        }
        proof {
            assert forall|i2: int| 0 <= i2 < n implies bucket_covered(
                *self,
                graph[i2],
                configs@[i2],
            ) by {
                if graph[i2].bucket is Some {
                    assert(graph[i2].bucket->0 <= maxb);
                }
            };
            assert forall|b: Option<usize>| poly_group_err(
                n as int,
                #[trigger] poly_group(graph, b),
            ) is None by {
                if poly_group(graph, b).len() > 0 {
                    lemma_poly_group_members(graph, b, 0);
                    let j = choose|j: int|
                        0 <= j < graph.len() && graph[j] == poly_group(graph, b)[0];
                    assert(graph[j].bucket == b);
                }
            };
            assert forall|i2: int|
                0 <= i2 < n implies (((#[trigger] configs@[i2]) is Some) <==> match graph[i2].opkind {
                OpKind::Input => true,
                OpKind::Const => true,
                OpKind::Lookup(_) => true,
                OpKind::Poly(_) => {
                    let g = poly_group(graph, graph[i2].bucket);
                    g.len() > 0 && g.last().idx == i2
                },
                OpKind::Unknown => false,
            }) by {
                assert(bucket_covered(*self, graph[i2], configs@[i2]));
            };
            assert forall|t1: int, t2: int|
                0 <= t1 < t2 < tables@.len() implies (#[trigger] tables@[t1]).nonlinearities@ != (
                #[trigger] tables@[t2]).nonlinearities@ by {
                assert(tables@[t1].nonlinearities@ == seq![registry@[t1].0]);
                assert(tables@[t2].nonlinearities@ == seq![registry@[t2].0]);
                assert(seq![registry@[t1].0][0] == registry@[t1].0);
                assert(seq![registry@[t2].0][0] == registry@[t2].0);
            };
        }

        let mut range_checks: Vec<RangeCheckRegion> = Vec::new();
        let mut packed_outputs: Vec<PolyRegion> = Vec::new();
        if self.visibility.output.is_public() {
            if self.run_args.pack_base > 1 {
                let shapes = self.output_shapes();
                packed_outputs = self.pack_outputs(vars, &shapes);
                let ones = ones_shapes(self.outputs.len());
                range_checks = self.range_check_outputs(vars, &ones);
            } else {
                let shapes = self.output_shapes();
                range_checks = self.range_check_outputs(vars, &shapes);
            }
        }

        Ok(
            ModelConfig {
                configs,
                regions,
                tables,
                range_checks,
                packed_outputs,
                vars: *vars,
            },
        )
    }

    /// Configures a node that performs no operation: inputs and constants
    /// get placeholder configurations; anything else does not belong here.
    pub fn conf_non_op_node(&self, node: &Node) -> (r: Result<NodeConfig, GraphError>)
        ensures
            node.opkind is Const ==> (r matches Ok(c) && c is Const),
            node.opkind is Input ==> (r matches Ok(c) && c is Input),
            node.opkind is Unknown ==> r == Err::<NodeConfig, GraphError>(
                GraphError::UnsupportedOp,
            ),
            !(node.opkind is Const) && !(node.opkind is Input) && !(node.opkind is Unknown)
                ==> r == Err::<NodeConfig, GraphError>(
                GraphError::WrongMethod(node.idx, node.opkind),
            ),
    {
        match &node.opkind {
            OpKind::Const => Ok(NodeConfig::Const),
            OpKind::Input => Ok(NodeConfig::Input),
            OpKind::Unknown => Err(GraphError::UnsupportedOp),
            _ => Err(GraphError::WrongMethod(node.idx, node.opkind)),
        }
    }
}

} // verus!
