//! The library's global guarantees, stated and proved once: bucket
//! ordering along dependency edges, and determinism of scheduling and
//! fusion.

use vstd::prelude::*;
use crate::config::LookupRegion;
use crate::config::LookupTable;
use crate::config::NodeConfig;
use crate::config::PolyInputRef;
use crate::config::PolyRegion;
use crate::config::poly_region_eqv;
use crate::fuse::deps_of;
use crate::fuse::deps_offset;
use crate::fuse::fused_ok;
use crate::fuse::group_contains;
use crate::fuse::group_index_of;
use crate::fuse::spec_input_ref;
use crate::configure::bucket_covered;
use crate::configure::lookup_entry_ok;
use crate::configure::spec_lookup_len;
use crate::model::Model;
use crate::model::inputs_are_roots;
use crate::model::spec_bucket_of;
use crate::model::spec_first_missing;
use crate::model::spec_node_err;
use crate::model::spec_prev_bucket;
use crate::node::Node;
use crate::node::NodeGraph;
use crate::node::Outlet;
use crate::ops::OpKind;
use crate::vars::var_eqv;

verus! {

/// A clean missing-dependency scan certifies every dependency earlier.
proof fn lemma_first_missing_none(inputs: Seq<Outlet>, i: int, k: int)
    requires
        spec_first_missing(inputs, i, k) is None,
    ensures
        forall|e: int| 0 <= e < k ==> (#[trigger] inputs[e]).node < i,
    decreases k,
{
    if k > 0 {
        lemma_first_missing_none(inputs, i, k - 1);
    }
}

/// The running dependency-bucket maximum dominates the bucket of every
/// non-constant dependency already scanned.
proof fn lemma_prev_bucket_ge(nodes: Seq<Node>, i: int, k: int, e: int)
    requires
        0 <= e < k,
        nodes[i].inputs@[e].node < i,
        !(nodes[nodes[i].inputs@[e].node as int].opkind is Const),
    ensures
        spec_bucket_of(nodes, nodes[i].inputs@[e].node as int) matches Some(bd)
            ==> spec_prev_bucket(nodes, i, k) matches Some(p) && p >= bd,
    decreases k,
{
    let d = nodes[i].inputs@[e].node;
    if e == k - 1 {
    } else {
        lemma_prev_bucket_ge(nodes, i, k - 1, e);
    }
}

/// Law: on a well-ordered graph whose input nodes are roots (the data
/// model's ingestion guarantee), every node except constants receives
/// exactly one bucket, and along every dependency edge the dependency's
/// bucket is at most the dependent's — strictly below it when the
/// dependent is a lookup.
pub proof fn lemma_bucket_order(nodes: Seq<Node>, i: int, e: int)
    requires
        nodes.len() <= usize::MAX,
        forall|j: int| 0 <= j < nodes.len() ==> (#[trigger] nodes[j]).idx == j,
        forall|j: int| 0 <= j < nodes.len() ==> spec_node_err(nodes, j) is None,
        inputs_are_roots(nodes),
        0 <= i < nodes.len(),
        0 <= e < nodes[i].inputs@.len(),
    ensures
        !(nodes[i].opkind is Const) ==> spec_bucket_of(nodes, i) is Some,
        nodes[i].opkind is Const ==> spec_bucket_of(nodes, i) is None,
        ({
            let d = nodes[i].inputs@[e].node;
            &&& d < i
            &&& (!(nodes[d as int].opkind is Const) && !(nodes[i].opkind is Const) ==> {
                let bd = spec_bucket_of(nodes, d as int)->0;
                let bi = spec_bucket_of(nodes, i)->0;
                &&& spec_bucket_of(nodes, d as int) is Some
                &&& spec_bucket_of(nodes, i) is Some
                &&& bd <= bi
                &&& (nodes[i].opkind is Lookup ==> bd < bi)
            })
        }),
{
    assert(spec_node_err(nodes, i) is None);
    lemma_first_missing_none(nodes[i].inputs@, i, nodes[i].inputs@.len() as int);
    let d = nodes[i].inputs@[e].node;
    assert(d < i);
    assert(spec_node_err(nodes, d as int) is None);
    if !(nodes[d as int].opkind is Const) && !(nodes[i].opkind is Const) {
        match nodes[d as int].opkind {
            OpKind::Input => {},
            OpKind::Const => {},
            OpKind::Poly(_) => {},
            OpKind::Lookup(_) => {},
            OpKind::Unknown => {
                assert(spec_first_missing(
                    nodes[d as int].inputs@,
                    d as int,
                    nodes[d as int].inputs@.len() as int,
                ) is None ==> spec_node_err(nodes, d as int) is Some);
            },
        }
        assert(spec_bucket_of(nodes, d as int) is Some);
        lemma_prev_bucket_ge(nodes, i, nodes[i].inputs@.len() as int, e);
        crate::model::lemma_bucket_of_bound(nodes, i);
        crate::model::lemma_prev_bucket_bound(nodes, i, nodes[i].inputs@.len() as int);
        match nodes[i].opkind {
            OpKind::Input => {
                assert(nodes[i].inputs@.len() == 0);
            },
            OpKind::Poly(_) => {},
            OpKind::Lookup(_) => {},
            _ => {},
        }
    }
}

/// Law: scheduling is deterministic. Two scheduled graphs that each
/// carry the buckets the scheduler assigns to the same node list agree
/// node for node.
pub proof fn lemma_schedule_idempotent(nodes: Seq<Node>, g1: NodeGraph, g2: NodeGraph)
    requires
        g1.nodes@.len() == nodes.len(),
        g2.nodes@.len() == nodes.len(),
        forall|i: int|
            0 <= i < nodes.len() ==> (#[trigger] g1.nodes@[i]).same_except_bucket(nodes[i]),
        forall|i: int|
            0 <= i < nodes.len() ==> (#[trigger] g2.nodes@[i]).same_except_bucket(nodes[i]),
        forall|i: int|
            0 <= i < nodes.len() ==> (#[trigger] g1.nodes@[i]).bucket == spec_bucket_of(nodes, i),
        forall|i: int|
            0 <= i < nodes.len() ==> (#[trigger] g2.nodes@[i]).bucket == spec_bucket_of(nodes, i),
    ensures
        forall|i: int| 0 <= i < nodes.len() ==> (#[trigger] g1.nodes@[i]).eqv(g2.nodes@[i]),
{
    assert forall|i: int| 0 <= i < nodes.len() implies (#[trigger] g1.nodes@[i]).eqv(
        g2.nodes@[i],
    ) by {
        assert(g1.nodes@[i].same_except_bucket(nodes[i]));
        assert(g2.nodes@[i].same_except_bucket(nodes[i]));
    };
}

/// Law: fusion is deterministic. Two fused regions both owed to the same
/// polynomial group have identical column assignments and identical
/// instruction orderings.
pub proof fn lemma_fusion_idempotent(
    graph: Seq<Node>,
    pp: bool,
    gv: Seq<Node>,
    r1: PolyRegion,
    in1: Vec<usize>,
    r2: PolyRegion,
    in2: Vec<usize>,
)
    requires
        fused_ok(graph, pp, gv, r1, in1),
        fused_ok(graph, pp, gv, r2, in2),
    ensures
        in1@ == in2@,
        poly_region_eqv(r1, r2),
{
    assert forall|t: int| 0 <= t < r1.inputs@.len() implies var_eqv(
        #[trigger] r1.inputs@[t],
        r2.inputs@[t],
    ) by {
        assert(r1.inputs@[t].kind == r2.inputs@[t].kind);
    };
    assert forall|p: int| 0 <= p < r1.nodes@.len() implies crate::config::poly_node_eqv(
        #[trigger] r1.nodes@[p],
        r2.nodes@[p],
    ) by {
        assert(gv[p].opkind == OpKind::Poly(r1.nodes@[p].op));
        assert(gv[p].opkind == OpKind::Poly(r2.nodes@[p].op));
        assert(r1.nodes@[p].input_order@ =~= r2.nodes@[p].input_order@);
    };
}


/// Law: compilation is idempotent. Two full configurations of the same
/// model that each carry the configurations their nodes are owed agree
/// entry for entry: the same nodes are configured, fused regions have
/// identical columns and instruction orderings, and lookup entries have
/// identical dependency lists and, dereferencing the region handles,
/// identical columns, bit widths and table contents.
pub proof fn lemma_configure_idempotent(
    m: Model,
    cfgs1: Seq<Option<NodeConfig>>,
    regs1: Seq<LookupRegion>,
    tabs1: Seq<LookupTable>,
    cfgs2: Seq<Option<NodeConfig>>,
    regs2: Seq<LookupRegion>,
    tabs2: Seq<LookupTable>,
)
    requires
        m.configs_wf(cfgs1, regs1, tabs1),
        m.configs_wf(cfgs2, regs2, tabs2),
        forall|i: int|
            0 <= i < m.graph().len() ==> bucket_covered(m, m.graph()[i], #[trigger] cfgs1[i]),
        forall|i: int|
            0 <= i < m.graph().len() ==> bucket_covered(m, m.graph()[i], #[trigger] cfgs2[i]),
    ensures
        forall|i: int|
            0 <= i < m.graph().len() ==> ((#[trigger] cfgs1[i]) is Some <==> cfgs2[i] is Some),
        forall|i: int|
            0 <= i < m.graph().len() && (#[trigger] cfgs1[i]) is Some && m.graph()[i].opkind
                is Poly ==> crate::config::node_config_eqv(cfgs1[i]->0, cfgs2[i]->0),
        forall|i: int|
            0 <= i < m.graph().len() && (#[trigger] cfgs1[i]) is Some && m.graph()[i].opkind
                is Lookup ==> {
                let h1 = cfgs1[i]->0->Lookup_region;
                let h2 = cfgs2[i]->0->Lookup_region;
                &&& cfgs1[i]->0->Lookup_inputs@ == cfgs2[i]->0->Lookup_inputs@
                &&& var_eqv(regs1[h1 as int].input, regs2[h2 as int].input)
                &&& var_eqv(regs1[h1 as int].output, regs2[h2 as int].output)
                &&& regs1[h1 as int].bits == regs2[h2 as int].bits
                &&& tabs1[regs1[h1 as int].table as int].nonlinearities@
                    == tabs2[regs2[h2 as int].table as int].nonlinearities@
            },
{
    let graph = m.graph();
    assert forall|i: int|
        0 <= i < graph.len() implies ((#[trigger] cfgs1[i]) is Some <==> cfgs2[i] is Some) by {
        assert(bucket_covered(m, graph[i], cfgs1[i]));
        assert(bucket_covered(m, graph[i], cfgs2[i]));
    };
    assert forall|i: int|
        0 <= i < graph.len() && (#[trigger] cfgs1[i]) is Some && graph[i].opkind
            is Poly implies crate::config::node_config_eqv(cfgs1[i]->0, cfgs2[i]->0) by {
        assert(bucket_covered(m, graph[i], cfgs2[i]));
        let g = crate::configure::poly_group(graph, graph[i].bucket);
        let pp = m.visibility.params.spec_is_public();
        match (cfgs1[i]->0, cfgs2[i]->0) {
            (
                NodeConfig::Poly { region: r1, inputs: in1 },
                NodeConfig::Poly { region: r2, inputs: in2 },
            ) => {
                assert(fused_ok(graph, pp, g, r1, in1));
                assert(fused_ok(graph, pp, g, r2, in2));
                lemma_fusion_idempotent(graph, pp, g, r1, in1, r2, in2);
            },
            _ => {
                assert(false);
            },
        }
    };
    assert forall|i: int|
        0 <= i < graph.len() && (#[trigger] cfgs1[i]) is Some && graph[i].opkind
            is Lookup implies {
        let h1 = cfgs1[i]->0->Lookup_region;
        let h2 = cfgs2[i]->0->Lookup_region;
        &&& cfgs1[i]->0->Lookup_inputs@ == cfgs2[i]->0->Lookup_inputs@
        &&& var_eqv(regs1[h1 as int].input, regs2[h2 as int].input)
        &&& var_eqv(regs1[h1 as int].output, regs2[h2 as int].output)
        &&& regs1[h1 as int].bits == regs2[h2 as int].bits
        &&& tabs1[regs1[h1 as int].table as int].nonlinearities@
            == tabs2[regs2[h2 as int].table as int].nonlinearities@
    } by {
        assert(bucket_covered(m, graph[i], cfgs2[i]));
        assert(lookup_entry_ok(m, cfgs1[i]->0, graph[i], regs1, tabs1));
        assert(lookup_entry_ok(m, cfgs2[i]->0, graph[i], regs2, tabs2));
        let h1 = cfgs1[i]->0->Lookup_region;
        let h2 = cfgs2[i]->0->Lookup_region;
        assert(regs1[h1 as int].input.dims@ == seq![spec_lookup_len(m, graph[i])]);
        assert(regs2[h2 as int].input.dims@ == seq![spec_lookup_len(m, graph[i])]);
    };
}


/// Law: a fused region's intra-gate dataflow is well ordered. In a
/// region owed to an index-ascending group whose members' dependencies
/// all point strictly below their own node index, every intermediate
/// reference of an instruction reads an intermediate produced by an
/// earlier instruction — so the region's layout never reads ahead.
pub proof fn lemma_intra_gate_dataflow(
    graph: Seq<Node>,
    pp: bool,
    gv: Seq<Node>,
    region: PolyRegion,
    inputs: Vec<usize>,
    p: int,
    e: int,
)
    requires
        fused_ok(graph, pp, gv, region, inputs),
        forall|a: int, b: int|
            0 <= a < b < gv.len() ==> (#[trigger] gv[a]).idx < (#[trigger] gv[b]).idx,
        forall|m: int, e2: int|
            0 <= m < gv.len() && 0 <= e2 < deps_of(gv[m]).len() ==> #[trigger] deps_of(
                gv[m],
            )[e2] < gv[m].idx,
        0 <= p < gv.len(),
        0 <= e < gv[p].inputs@.len(),
    ensures
        region.nodes@[p].input_order@[e] matches PolyInputRef::Inter(t) ==> t < p,
{
    crate::fuse::lemma_deps_offset_index(gv, p, e);
    let q = deps_offset(gv, p) + e;
    let d = crate::fuse::all_deps(gv)[q];
    assert(d == deps_of(gv[p])[e]);
    assert(region.nodes@[p].input_order@[e] == spec_input_ref(gv, q));
    if group_contains(gv, d) {
        crate::fuse::lemma_group_index_of_found(gv, d);
        let t = group_index_of(gv, d);
        assert(gv[t].idx == d);
        assert(d < gv[p].idx);
        if t > p {
            assert(gv[p].idx < gv[t].idx);
            assert(false);
        } else if t == p {
            assert(false);
        }
    }
}

} // verus!
