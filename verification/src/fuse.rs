//! Fusion of a bucket's polynomial nodes into a single region: external
//! inputs are deduplicated first-seen-wins and allocated columns, while
//! in-group dependencies become intermediate references.

use vstd::prelude::*;
use crate::config::NodeConfig;
use crate::config::PolyInputRef;
use crate::config::PolyNode;
use crate::config::PolyRegion;
use crate::model::Model;
use crate::node::GraphError;
use crate::node::Node;
use crate::node::Outlet;
use crate::ops::OpKind;
use crate::vars::ModelVars;
use crate::vars::VarKind;
use crate::vars::VarTensor;

verus! {

/// A node with the given index is a member of the fused group.
pub open spec fn group_contains(group: Seq<Node>, idx: usize) -> bool {
    exists|p: int| 0 <= p < group.len() && (#[trigger] group[p]).idx == idx
}

/// The group a position list selects out of the graph, in list order.
pub open spec fn group_view(graph: Seq<Node>, pos: Seq<usize>) -> Seq<Node> {
    Seq::new(pos.len(), |t: int| graph[pos[t] as int])
}

/// The producing node index of each input edge of `n`, in operand order.
pub open spec fn deps_of(n: Node) -> Seq<usize> {
    n.inputs@.map_values(|o: Outlet| o.node)
}

/// Dependency indices of the whole group: group order, then operand order.
pub open spec fn all_deps(group: Seq<Node>) -> Seq<usize>
    decreases group.len(),
{
    if group.len() == 0 {
        Seq::empty()
    } else {
        all_deps(group.drop_last()) + deps_of(group.last())
    }
}

/// Flat position of the first dependency of group member `p`.
pub open spec fn deps_offset(group: Seq<Node>, p: int) -> int {
    all_deps(group.take(p)).len() as int
}

/// External inputs among the first `k` dependencies: dependencies that are
/// not group members, deduplicated first-seen-wins.
pub open spec fn ext_upto(group: Seq<Node>, deps: Seq<usize>, k: int) -> Seq<usize>
    decreases k,
{
    if k <= 0 {
        Seq::empty()
    } else {
        let p = ext_upto(group, deps, k - 1);
        let d = deps[k - 1];
        if group_contains(group, d) || p.contains(d) {
            p
        } else {
            p.push(d)
        }
    }
}

/// The fused group's external input list.
pub open spec fn spec_externals(group: Seq<Node>) -> Seq<usize> {
    ext_upto(group, all_deps(group), all_deps(group).len() as int)
}

/// An external dependency routes to the fixed pool when it is a constant
/// and parameters are public; otherwise to the advice pool.
pub open spec fn routes_fixed(graph: Seq<Node>, params_public: bool, d: usize) -> bool {
    &&& params_public
    &&& d < graph.len()
    &&& graph[d as int].opkind is Const
}

/// How many of the first `t` externals route to the fixed pool.
pub open spec fn count_fixed(graph: Seq<Node>, params_public: bool, ext: Seq<usize>, t: int) -> int
    decreases t,
{
    if t <= 0 {
        0
    } else {
        count_fixed(graph, params_public, ext, t - 1) + if routes_fixed(
            graph,
            params_public,
            ext[t - 1],
        ) {
            1int
        } else {
            0int
        }
    }
}

/// Position of the first occurrence of `d` in `s`; meaningful only when
/// `d` is present.
pub open spec fn pos_of(s: Seq<usize>, d: usize) -> int
    decreases s.len(),
{
    if s.len() == 0 {
        0
    } else if s[0] == d {
        0
    } else {
        1 + pos_of(s.skip(1), d)
    }
}

/// Position within the group of the member carrying the given node
/// index; meaningful only when such a member is present. Since the
/// group's instructions run in member order, this is also the index of
/// the intermediate result that member produces.
pub open spec fn group_index_of(group: Seq<Node>, idx: usize) -> int
    decreases group.len(),
{
    if group.len() == 0 {
        0
    } else if group[0].idx == idx {
        0
    } else {
        1 + group_index_of(group.skip(1), idx)
    }
}

/// The reference recorded at flat dependency position `q`: for an
/// in-group producer, the index of the intermediate result it produces
/// (its position in the group's instruction order); for anything else,
/// the external slot of the producer.
pub open spec fn spec_input_ref(group: Seq<Node>, q: int) -> PolyInputRef {
    let deps = all_deps(group);
    let d = deps[q];
    if group_contains(group, d) {
        PolyInputRef::Inter(group_index_of(group, d) as usize)
    } else {
        PolyInputRef::Input(pos_of(spec_externals(group), d) as usize)
    }
}

/// First of the first `k` dependencies that is not a graph node, if any.
pub open spec fn first_unresolved(deps: Seq<usize>, n: int, k: int) -> Option<usize>
    decreases k,
{
    if k <= 0 {
        Option::None
    } else {
        match first_unresolved(deps, n, k - 1) {
            Option::Some(d) => Option::Some(d),
            Option::None => if deps[k - 1] >= n {
                Option::Some(deps[k - 1])
            } else {
                Option::None
            },
        }
    }
}

/// The error, if any, fusing raises at group member `p`: a member that is
/// not a polynomial node, or a dependency outside the graph.
pub open spec fn poly_node_err(n: int, group: Seq<Node>, p: int) -> Option<GraphError> {
    if !(group[p].opkind is Poly) {
        Option::Some(GraphError::WrongMethod(group[p].idx, group[p].opkind))
    } else {
        match first_unresolved(deps_of(group[p]), n, deps_of(group[p]).len() as int) {
            Option::Some(d) => Option::Some(GraphError::MissingNode(d)),
            Option::None => Option::None,
        }
    }
}

/// First error over the first `k` group members.
pub open spec fn poly_err_upto(n: int, group: Seq<Node>, k: int) -> Option<GraphError>
    decreases k,
{
    if k <= 0 {
        Option::None
    } else {
        match poly_err_upto(n, group, k - 1) {
            Option::Some(e) => Option::Some(e),
            Option::None => poly_node_err(n, group, k - 1),
        }
    }
}

/// The error, if any, fusing the whole group raises.
pub open spec fn poly_group_err(n: int, group: Seq<Node>) -> Option<GraphError> {
    poly_err_upto(n, group, group.len() as int)
}

/// The column assignment owed to external slot `t`: its pool and its
/// position within that pool.
pub open spec fn ext_col(graph: Seq<Node>, params_public: bool, ext: Seq<usize>, t: int) -> (
    VarKind,
    int,
) {
    if routes_fixed(graph, params_public, ext[t]) {
        (VarKind::Fixed, count_fixed(graph, params_public, ext, t))
    } else {
        (VarKind::Advice, t - count_fixed(graph, params_public, ext, t))
    }
}

/// The fused region a polynomial group is owed: its external input list,
/// the column each external slot receives, the output column shaped to
/// the group's maximum-index node, and the instruction list with its
/// intra-gate dataflow references.
pub open spec fn fused_ok(
    graph: Seq<Node>,
    pp: bool,
    gv: Seq<Node>,
    region: PolyRegion,
    inputs: Vec<usize>,
) -> bool {
    let ext = spec_externals(gv);
    let nf = count_fixed(graph, pp, ext, ext.len() as int);
    &&& inputs@ == ext
    &&& region.inputs@.len() == ext.len()
    &&& forall|t: int|
        0 <= t < ext.len() ==> {
            let (kind, index) = ext_col(graph, pp, ext, t);
            (#[trigger] region.inputs@[t]).kind == kind && region.inputs@[t].index == index
                && region.inputs@[t].dims@ == graph[ext[t] as int].out_dims@
        }
    &&& region.output.kind == VarKind::Advice
    &&& region.output.index == ext.len() - nf
    &&& region.output.dims@ == gv.last().out_dims@
    &&& region.nodes@.len() == gv.len()
    &&& forall|p: int|
        0 <= p < gv.len() ==> gv[p].opkind == OpKind::Poly((#[trigger] region.nodes@[p]).op)
    &&& forall|p: int|
        0 <= p < gv.len() ==> (#[trigger] region.nodes@[p]).input_order@.len()
            == gv[p].inputs@.len()
    &&& forall|p: int, e: int|
        0 <= p < gv.len() && 0 <= e < gv[p].inputs@.len() ==> (
        #[trigger] region.nodes@[p].input_order@[e]) == spec_input_ref(
            gv,
            deps_offset(gv, p) + e,
        )
}

/// Appending a member appends its dependencies.
pub proof fn lemma_all_deps_step(group: Seq<Node>, p: int)
    requires
        0 <= p < group.len(),
    ensures
        all_deps(group.take(p + 1)) == all_deps(group.take(p)) + deps_of(group[p]),
    decreases group.len(),
{
    assert(group.take(p + 1).drop_last() =~= group.take(p));
    assert(group.take(p + 1).last() == group[p]);
}

/// The whole dependency list is the offset of the one-past-last member.
pub proof fn lemma_all_deps_whole(group: Seq<Node>)
    ensures
        deps_offset(group, group.len() as int) == all_deps(group).len(),
{
    assert(group.take(group.len() as int) =~= group);
}

/// Dependency counts never shrink along the flat order.
pub proof fn lemma_deps_offset_index(group: Seq<Node>, p: int, e: int)
    requires
        0 <= p < group.len(),
        0 <= e < deps_of(group[p]).len(),
    ensures
        deps_offset(group, p) + e < all_deps(group).len(),
        all_deps(group)[deps_offset(group, p) + e] == deps_of(group[p])[e],
{
    lemma_all_deps_step(group, p);
    lemma_prefix_deps(group, p + 1);
    let s1 = all_deps(group.take(p + 1));
    assert(s1[deps_offset(group, p) + e] == deps_of(group[p])[e]);
    assert(s1 =~= all_deps(group).subrange(0, s1.len() as int));
    assert(all_deps(group)[deps_offset(group, p) + e] == all_deps(group).subrange(
        0,
        s1.len() as int,
    )[deps_offset(group, p) + e]);
}

/// For a present index, the group position found is in range and names
/// a member carrying that index.
pub proof fn lemma_group_index_of_found(group: Seq<Node>, idx: usize)
    requires
        group_contains(group, idx),
    ensures
        0 <= group_index_of(group, idx) < group.len(),
        group[group_index_of(group, idx)].idx == idx,
    decreases group.len(),
{
    if group.len() > 0 {
        if group[0].idx == idx {
        } else {
            assert(group_contains(group.skip(1), idx)) by {
                let w = choose|j: int| 0 <= j < group.len() && (#[trigger] group[j]).idx == idx;
                assert(group.skip(1)[w - 1].idx == idx);
            };
            lemma_group_index_of_found(group.skip(1), idx);
            assert(group.skip(1)[group_index_of(group.skip(1), idx)] == group[1 + group_index_of(
                group.skip(1),
                idx,
            )]);
        }
    }
}

/// The first group member carrying an index sits exactly where nothing
/// before it carries it.
proof fn lemma_group_index_first(group: Seq<Node>, idx: usize, m: int)
    requires
        0 <= m < group.len(),
        group[m].idx == idx,
        forall|j: int| 0 <= j < m ==> group[j].idx != idx,
    ensures
        group_index_of(group, idx) == m,
    decreases m,
{
    if m > 0 {
        lemma_group_index_first(group.skip(1), idx, m - 1);
    }
}

/// The dependencies of a prefix form a prefix of the whole list.
proof fn lemma_prefix_deps(group: Seq<Node>, p: int)
    requires
        0 <= p <= group.len(),
    ensures
        all_deps(group.take(p)).is_prefix_of(all_deps(group)),
    decreases group.len() - p,
{
    if p == group.len() {
        assert(group.take(p) =~= group);
    } else {
        lemma_all_deps_step(group, p);
        lemma_prefix_deps(group, p + 1);
    }
}

/// The flat offset is monotone in the member position.
proof fn lemma_offset_le(group: Seq<Node>, p1: int, p2: int)
    requires
        0 <= p1 <= p2 <= group.len(),
    ensures
        deps_offset(group, p1) <= deps_offset(group, p2),
    decreases p2 - p1,
{
    if p1 < p2 {
        lemma_all_deps_step(group, p1);
        lemma_offset_le(group, p1 + 1, p2);
    }
}

/// The external list of a longer scan extends that of a shorter one.
proof fn lemma_ext_prefix(group: Seq<Node>, deps: Seq<usize>, k1: int, k2: int)
    requires
        0 <= k1 <= k2,
    ensures
        ext_upto(group, deps, k1).is_prefix_of(ext_upto(group, deps, k2)),
    decreases k2 - k1,
{
    if k1 < k2 {
        lemma_ext_prefix(group, deps, k1, k2 - 1);
    }
}

/// The fixed count reads only the first `t` slots.
proof fn lemma_count_fixed_agree(
    graph: Seq<Node>,
    params_public: bool,
    s1: Seq<usize>,
    s2: Seq<usize>,
    t: int,
)
    requires
        s1.is_prefix_of(s2),
        t <= s1.len(),
    ensures
        count_fixed(graph, params_public, s1, t) == count_fixed(graph, params_public, s2, t),
    decreases t,
{
    if t > 0 {
        lemma_count_fixed_agree(graph, params_public, s1, s2, t - 1);
    }
}

/// The fixed count lies between zero and `t`, and is monotone.
proof fn lemma_count_fixed_bounds(graph: Seq<Node>, params_public: bool, s: Seq<usize>, t: int)
    requires
        t >= 0,
    ensures
        0 <= count_fixed(graph, params_public, s, t) <= t,
        t <= s.len() ==> count_fixed(graph, params_public, s, t) <= count_fixed(
            graph,
            params_public,
            s,
            s.len() as int,
        ),
        t <= s.len() ==> t - count_fixed(graph, params_public, s, t) <= s.len() - count_fixed(
            graph,
            params_public,
            s,
            s.len() as int,
        ),
    decreases s.len() + t,
{
    if t > 0 {
        lemma_count_fixed_bounds(graph, params_public, s, t - 1);
    }
    if t < s.len() {
        lemma_count_fixed_bounds_up(graph, params_public, s, t);
    }
}

/// One step of monotonicity for the fixed count.
proof fn lemma_count_fixed_bounds_up(graph: Seq<Node>, params_public: bool, s: Seq<usize>, t: int)
    requires
        0 <= t <= s.len(),
    ensures
        count_fixed(graph, params_public, s, t) <= count_fixed(
            graph,
            params_public,
            s,
            s.len() as int,
        ),
        t - count_fixed(graph, params_public, s, t) <= s.len() - count_fixed(
            graph,
            params_public,
            s,
            s.len() as int,
        ),
    decreases s.len() - t,
{
    if t < s.len() {
        lemma_count_fixed_bounds_up(graph, params_public, s, t + 1);
    }
}

/// The first occurrence of `d` sits exactly where nothing before it is `d`.
proof fn lemma_pos_of_first(s: Seq<usize>, d: usize, m: int)
    requires
        0 <= m < s.len(),
        s[m] == d,
        forall|j: int| 0 <= j < m ==> s[j] != d,
    ensures
        pos_of(s, d) == m,
    decreases m,
{
    if m > 0 {
        lemma_pos_of_first(s.skip(1), d, m - 1);
    }
}

/// Whatever a prefix scan missed, no member of the prefix equals it.
proof fn lemma_not_contains_all(s: Seq<usize>, d: usize)
    requires
        !s.contains(d),
    ensures
        forall|j: int| 0 <= j < s.len() ==> s[j] != d,
{
}

/// Once a member scan has failed, longer scans report the same error.
proof fn lemma_poly_err_extends(n: int, group: Seq<Node>, k0: int, k: int)
    requires
        0 <= k0 <= k,
        poly_err_upto(n, group, k0) is Some,
    ensures
        poly_err_upto(n, group, k) == poly_err_upto(n, group, k0),
    decreases k - k0,
{
    if k > k0 {
        lemma_poly_err_extends(n, group, k0, k - 1);
    }
}

/// Once a dependency scan has failed, longer scans report the same index.
proof fn lemma_unresolved_extends(deps: Seq<usize>, n: int, k0: int, k: int)
    requires
        0 <= k0 <= k,
        first_unresolved(deps, n, k0) is Some,
    ensures
        first_unresolved(deps, n, k) == first_unresolved(deps, n, k0),
    decreases k - k0,
{
    if k > k0 {
        lemma_unresolved_extends(deps, n, k0, k - 1);
    }
}

/// A clean dependency scan certifies every dependency resolvable.
proof fn lemma_unresolved_none(deps: Seq<usize>, n: int, k: int)
    requires
        first_unresolved(deps, n, k) is None,
    ensures
        forall|e: int| 0 <= e < k ==> deps[e] < n,
    decreases k,
{
    if k > 0 {
        lemma_unresolved_none(deps, n, k - 1);
    }
}

/// Finds the group position of the member carrying the given node
/// index, if any.
pub(crate) fn group_position_of(nodes: &Vec<Node>, group_pos: &Vec<usize>, idx: usize) -> (r:
    Option<usize>)
    requires
        forall|t: int| 0 <= t < group_pos@.len() ==> (#[trigger] group_pos@[t]) < nodes@.len(),
    ensures
        r matches Some(p) ==> {
            &&& group_contains(group_view(nodes@, group_pos@), idx)
            &&& p == group_index_of(group_view(nodes@, group_pos@), idx)
            &&& p < group_pos@.len()
        },
        r is None <==> !group_contains(group_view(nodes@, group_pos@), idx),
{
    let ghost gv = group_view(nodes@, group_pos@);
    let mut p: usize = 0;
    while p < group_pos.len()
        invariant
            p <= group_pos@.len(),
            gv == group_view(nodes@, group_pos@),
            forall|t: int| 0 <= t < group_pos@.len() ==> (#[trigger] group_pos@[t]) < nodes@.len(),
            forall|j: int| 0 <= j < p ==> (#[trigger] gv[j]).idx != idx,
        decreases group_pos@.len() - p,
    {
        if nodes[group_pos[p]].idx == idx {
            proof {
                assert(gv[p as int].idx == idx);
                lemma_group_index_first(gv, idx, p as int);
            }
            return Some(p);
        }
        proof {
            assert(gv[p as int] == nodes@[group_pos@[p as int] as int]);
        }
        p = p + 1;
    }
    None
}

/// Tests whether a node with the given index belongs to the group.
pub(crate) fn group_contains_exec(nodes: &Vec<Node>, group_pos: &Vec<usize>, idx: usize) -> (r: bool)
    requires
        forall|t: int| 0 <= t < group_pos@.len() ==> (#[trigger] group_pos@[t]) < nodes@.len(),
    ensures
        r == group_contains(group_view(nodes@, group_pos@), idx),
{
    let ghost gv = group_view(nodes@, group_pos@);
    let mut p: usize = 0;
    while p < group_pos.len()
        invariant
            p <= group_pos@.len(),
            gv == group_view(nodes@, group_pos@),
            forall|t: int| 0 <= t < group_pos@.len() ==> (#[trigger] group_pos@[t]) < nodes@.len(),
            forall|j: int| 0 <= j < p ==> (#[trigger] gv[j]).idx != idx,
        decreases group_pos@.len() - p,
    {
        if nodes[group_pos[p]].idx == idx {
            proof {
                assert(gv[p as int].idx == idx);
            }
            return true;
        }
        proof {
            assert(gv[p as int] == nodes@[group_pos@[p as int] as int]);
        }
        p = p + 1;
    }
    false
}

/// Finds the position of `d` in the list, if present.
pub(crate) fn position_of(v: &Vec<usize>, d: usize) -> (r: Option<usize>)
    ensures
        r matches Some(t) ==> v@.contains(d) && t == pos_of(v@, d) && t < v@.len(),
        r is None <==> !v@.contains(d),
{
    let mut t: usize = 0;
    while t < v.len()
        invariant
            t <= v@.len(),
            forall|j: int| 0 <= j < t ==> v@[j] != d,
        decreases v@.len() - t,
    {
        if v[t] == d {
            proof {
                lemma_pos_of_first(v@, d, t as int);
            }
            return Some(t);
        }
        t = t + 1;
    }
    None
}

impl Model {
    /// Fuses a bucket's polynomial nodes into one region configuration:
    /// external dependencies get columns first-seen-wins (constants route
    /// to the fixed pool when parameters are public), in-group
    /// dependencies become intermediate references, and the region's
    /// output takes the shape of the group's maximum-index node — the
    /// group arrives in ascending node-index order, so that is its last
    /// member.
    pub fn conf_poly_ops(&self, group_pos: &Vec<usize>, vars: &ModelVars) -> (r: Result<
        NodeConfig,
        GraphError,
    >)
        requires
            forall|t: int|
                0 <= t < group_pos@.len() ==> (#[trigger] group_pos@[t]) < self.nodes.nodes@.len(),
            forall|a: int, b: int|
                0 <= a < b < group_pos@.len()
                    ==> self.nodes.nodes@[(#[trigger] group_pos@[a]) as int].idx
                    < self.nodes.nodes@[(#[trigger] group_pos@[b]) as int].idx,
            group_pos@.len() > 0,
            all_deps(group_view(self.nodes.nodes@, group_pos@)).len() <= usize::MAX,
            ({
                let ext = spec_externals(group_view(self.nodes.nodes@, group_pos@));
                let nf = count_fixed(
                    self.nodes.nodes@,
                    self.visibility.params.spec_is_public(),
                    ext,
                    ext.len() as int,
                );
                vars.num_advices >= ext.len() - nf + 1 && vars.num_fixed >= nf
            }),
        ensures
            (r is Ok) <==> poly_group_err(
                self.nodes.nodes@.len() as int,
                group_view(self.nodes.nodes@, group_pos@),
            ) is None,
            r matches Err(e) ==> poly_group_err(
                self.nodes.nodes@.len() as int,
                group_view(self.nodes.nodes@, group_pos@),
            ) == Some(e),
            r matches Ok(c) ==> (c matches NodeConfig::Poly { region, inputs } && fused_ok(
                self.nodes.nodes@,
                self.visibility.params.spec_is_public(),
                group_view(self.nodes.nodes@, group_pos@),
                region,
                inputs,
            )),
    {
        let ghost gv = group_view(self.nodes.nodes@, group_pos@);
        let ghost graph = self.nodes.nodes@;
        let ghost n = graph.len() as int;
        let ghost deps = all_deps(gv);
        let pp = self.visibility.params.is_public();

        // Validation pass: every member must be a polynomial node and every
        // dependency must resolve to a graph node.
        let mut p: usize = 0;
        while p < group_pos.len()
            invariant
                p <= gv.len(),
                gv == group_view(self.nodes.nodes@, group_pos@),
                forall|t: int|
                    0 <= t < group_pos@.len() ==> (#[trigger] group_pos@[t])
                        < self.nodes.nodes@.len(),
                self.nodes.nodes@ == graph,
                n == graph.len(),
                forall|j: int| 0 <= j < p ==> poly_node_err(n, gv, j) is None,
                poly_err_upto(n, gv, p as int) is None,
            decreases gv.len() - p,
        {
            let node = &self.nodes.nodes[group_pos[p]];
            proof {
                assert(*node == gv[p as int]);
            }
            if !node.opkind.is_poly() {
                proof {
                    assert(poly_node_err(n, gv, p as int) == Some(
                        GraphError::WrongMethod(node.idx, node.opkind),
                    ));
                    lemma_poly_err_extends(n, gv, p as int + 1, gv.len() as int);
                }
                return Err(GraphError::WrongMethod(node.idx, node.opkind));
            }
            let mut e: usize = 0;
            while e < node.inputs.len()
                invariant
                    e <= node.inputs@.len(),
                    gv == group_view(self.nodes.nodes@, group_pos@),
                    forall|t: int|
                        0 <= t < group_pos@.len() ==> (#[trigger] group_pos@[t])
                            < self.nodes.nodes@.len(),
                    self.nodes.nodes@ == graph,
                    n == graph.len(),
                    p < gv.len(),
                    *node == gv[p as int],
                    node.opkind is Poly,
                    forall|j: int| 0 <= j < p ==> poly_node_err(n, gv, j) is None,
                    poly_err_upto(n, gv, p as int) is None,
                    first_unresolved(deps_of(gv[p as int]), n, e as int) is None,
                decreases node.inputs@.len() - e,
            {
                let d = node.inputs[e].node;
                if d >= self.nodes.nodes.len() {
                    proof {
                        assert(deps_of(gv[p as int])[e as int] == d);
                        assert(first_unresolved(deps_of(gv[p as int]), n, e as int + 1) == Some(
                            d,
                        ));
                        lemma_unresolved_extends(
                            deps_of(gv[p as int]),
                            n,
                            e as int + 1,
                            deps_of(gv[p as int]).len() as int,
                        );
                        assert(poly_node_err(n, gv, p as int) == Some(GraphError::MissingNode(d)));
                        lemma_poly_err_extends(n, gv, p as int + 1, gv.len() as int);
                    }
                    return Err(GraphError::MissingNode(d));
                }
                proof {
                    assert(deps_of(gv[p as int])[e as int] == d);
                }
                e = e + 1;
            }
            p = p + 1;
        }
        proof {
            assert(forall|j: int| 0 <= j < gv.len() ==> poly_node_err(n, gv, j) is None);
            assert(forall|j: int, e: int|
                0 <= j < gv.len() && 0 <= e < deps_of(gv[j]).len() ==> deps_of(gv[j])[e] < n) by {
                assert forall|j: int, e: int|
                    0 <= j < gv.len() && 0 <= e < deps_of(gv[j]).len() implies deps_of(gv[j])[e]
                    < n by {
                    assert(poly_node_err(n, gv, j) is None);
                    lemma_unresolved_none(deps_of(gv[j]), n, deps_of(gv[j]).len() as int);
                };
            };
        }

        // Fusion pass: allocate external columns and build the fused
        // instruction list.
        let mut ext_v: Vec<usize> = Vec::new();
        let mut cols: Vec<VarTensor> = Vec::new();
        let mut fixed_ct: usize = 0;
        let mut advice_ct: usize = 0;
        let mut fused: Vec<PolyNode> = Vec::new();
        let ghost ext = spec_externals(gv);
        let ghost q0: int = 0;
        let mut p: usize = 0;
        proof {
            assert(gv.take(0) =~= Seq::<Node>::empty());
        }
        while p < group_pos.len()
            invariant
                p <= gv.len(),
                gv == group_view(self.nodes.nodes@, group_pos@),
                forall|t: int|
                    0 <= t < group_pos@.len() ==> (#[trigger] group_pos@[t])
                        < self.nodes.nodes@.len(),
                self.nodes.nodes@ == graph,
                n == graph.len(),
                deps == all_deps(gv),
                ext == spec_externals(gv),
                pp == self.visibility.params.spec_is_public(),
                deps.len() <= usize::MAX,
                forall|j: int| 0 <= j < gv.len() ==> poly_node_err(n, gv, j) is None,
                forall|j: int, e: int|
                    0 <= j < gv.len() && 0 <= e < deps_of(gv[j]).len() ==> deps_of(gv[j])[e] < n,
                ({
                    let ext2 = count_fixed(graph, pp, ext, ext.len() as int);
                    vars.num_advices >= ext.len() - ext2 + 1 && vars.num_fixed >= ext2
                }),
                ext_v@ == ext_upto(gv, deps, deps_offset(gv, p as int)),
                ext_v@.is_prefix_of(ext),
                forall|j: int| 0 <= j < ext_v@.len() ==> ext[j] == #[trigger] ext_v@[j],
                cols@.len() == ext_v@.len(),
                forall|t: int|
                    0 <= t < ext_v@.len() ==> {
                        let (kind, index) = ext_col(graph, pp, ext, t);
                        (#[trigger] cols@[t]).kind == kind && cols@[t].index == index
                            && cols@[t].dims@ == graph[ext[t] as int].out_dims@
                    },
                forall|t: int| 0 <= t < ext_v@.len() ==> (#[trigger] ext_v@[t]) < n,
                fixed_ct == count_fixed(graph, pp, ext, ext_v@.len() as int),
                advice_ct == ext_v@.len() - fixed_ct,
                0 <= deps_offset(gv, p as int) <= deps.len(),
                fused@.len() == p,
                forall|j: int|
                    0 <= j < p ==> gv[j].opkind == OpKind::Poly((#[trigger] fused@[j]).op),
                forall|j: int|
                    0 <= j < p ==> (#[trigger] fused@[j]).input_order@.len() == gv[j].inputs@.len(),
                forall|j: int, e: int|
                    0 <= j < p && 0 <= e < gv[j].inputs@.len() ==> (
                    #[trigger] fused@[j].input_order@[e]) == spec_input_ref(
                        gv,
                        deps_offset(gv, j) + e,
                    ),
            decreases gv.len() - p,
        {
            let node = &self.nodes.nodes[group_pos[p]];
            proof {
                assert(*node == gv[p as int]);
            }
            let op = match &node.opkind {
                OpKind::Poly(op) => *op,
                _ => {
                    proof {
                        assert(poly_node_err(n, gv, p as int) is None);
                        assert(false);
                    }
                    return Err(GraphError::WrongMethod(node.idx, node.opkind));
                },
            };
            let mut order: Vec<PolyInputRef> = Vec::new();
            let mut e: usize = 0;
            proof {
                lemma_offset_le(gv, p as int, p as int);
            }
            while e < node.inputs.len()
                invariant
                    e <= node.inputs@.len(),
                    gv == group_view(self.nodes.nodes@, group_pos@),
                    forall|t: int|
                        0 <= t < group_pos@.len() ==> (#[trigger] group_pos@[t])
                            < self.nodes.nodes@.len(),
                    self.nodes.nodes@ == graph,
                    n == graph.len(),
                    deps == all_deps(gv),
                    ext == spec_externals(gv),
                    pp == self.visibility.params.spec_is_public(),
                    deps.len() <= usize::MAX,
                    p < gv.len(),
                    *node == gv[p as int],
                    gv[p as int].opkind == OpKind::Poly(op),
                    forall|j: int, e2: int|
                        0 <= j < gv.len() && 0 <= e2 < deps_of(gv[j]).len() ==> deps_of(gv[j])[e2]
                            < n,
                    ({
                        let ext2 = count_fixed(graph, pp, ext, ext.len() as int);
                        vars.num_advices >= ext.len() - ext2 + 1 && vars.num_fixed >= ext2
                    }),
                    ext_v@ == ext_upto(gv, deps, deps_offset(gv, p as int) + e),
                    ext_v@.is_prefix_of(ext),
                    forall|j: int| 0 <= j < ext_v@.len() ==> ext[j] == #[trigger] ext_v@[j],
                    cols@.len() == ext_v@.len(),
                    forall|t: int|
                        0 <= t < ext_v@.len() ==> {
                            let (kind, index) = ext_col(graph, pp, ext, t);
                            (#[trigger] cols@[t]).kind == kind && cols@[t].index == index
                                && cols@[t].dims@ == graph[ext[t] as int].out_dims@
                        },
                    forall|t: int| 0 <= t < ext_v@.len() ==> (#[trigger] ext_v@[t]) < n,
                    fixed_ct == count_fixed(graph, pp, ext, ext_v@.len() as int),
                    advice_ct == ext_v@.len() - fixed_ct,
                    0 <= deps_offset(gv, p as int) + e <= deps.len(),
                    order@.len() == e,
                    forall|e2: int|
                        0 <= e2 < e ==> (#[trigger] order@[e2]) == spec_input_ref(
                            gv,
                            deps_offset(gv, p as int) + e2,
                        ),
                decreases node.inputs@.len() - e,
            {
                let ghost q = deps_offset(gv, p as int) + e;
                proof {
                    lemma_deps_offset_index(gv, p as int, e as int);
                    assert(deps[q] == deps_of(gv[p as int])[e as int]);
                }
                let d = node.inputs[e].node;
                proof {
                    assert(deps_of(gv[p as int])[e as int] == d);
                }
                if let Some(p2) = group_position_of(&self.nodes.nodes, group_pos, d) {
                    order.push(PolyInputRef::Inter(p2));
                    proof {
                        assert(ext_upto(gv, deps, q + 1) == ext_upto(gv, deps, q));
                        assert(spec_input_ref(gv, q) == PolyInputRef::Inter(p2));
                    }
                } else {
                    match position_of(&ext_v, d) {
                        Some(t) => {
                            order.push(PolyInputRef::Input(t));
                            proof {
                                assert(ext_upto(gv, deps, q + 1) == ext_upto(gv, deps, q));
                                lemma_ext_prefix(gv, deps, q + 1, deps.len() as int);
                                assert(ext_v@.is_prefix_of(ext));
                                assert(ext[pos_of(ext_v@, d)] == ext_v@[pos_of(ext_v@, d)]);
                                lemma_pos_agree(ext_v@, ext, d);
                                assert(spec_input_ref(gv, q) == PolyInputRef::Input(t));
                            }
                        },
                        None => {
                            let dep = &self.nodes.nodes[d];
                            let is_f = dep.opkind.is_const() && pp;
                            proof {
                                assert(ext_upto(gv, deps, q + 1) == ext_upto(gv, deps, q).push(d));
                                lemma_ext_prefix(gv, deps, q + 1, deps.len() as int);
                                let s1 = ext_upto(gv, deps, q + 1);
                                assert(s1.is_prefix_of(ext));
                                assert(s1 =~= ext.subrange(0, s1.len() as int));
                                assert(s1[ext_v@.len() as int] == d);
                                assert(ext[ext_v@.len() as int] == ext.subrange(
                                    0,
                                    s1.len() as int,
                                )[ext_v@.len() as int]);
                                assert(ext[ext_v@.len() as int] == d);
                                lemma_not_contains_all(ext_v@, d);
                                assert forall|j: int| 0 <= j < ext_v@.len() implies ext[j]
                                    != d by {
                                    assert(ext[j] == ext_v@[j]);
                                    if ext_v@[j] == d {
                                        assert(ext_v@.contains(d));
                                    }
                                };
                                lemma_pos_of_first(ext, d, ext_v@.len() as int);
                                lemma_count_fixed_agree(
                                    graph,
                                    pp,
                                    ext_upto(gv, deps, q + 1),
                                    ext,
                                    ext_v@.len() as int + 1,
                                );
                                lemma_count_fixed_agree(
                                    graph,
                                    pp,
                                    ext_v@,
                                    ext_upto(gv, deps, q + 1),
                                    ext_v@.len() as int,
                                );
                                lemma_count_fixed_bounds(graph, pp, ext, ext_v@.len() as int + 1);
                            }
                            let col = if is_f {
                                proof {
                                    lemma_count_fixed_bounds_up(
                                        graph,
                                        pp,
                                        ext,
                                        ext_v@.len() as int + 1,
                                    );
                                }
                                let c = vars.fixed(fixed_ct, &dep.out_dims);
                                fixed_ct = fixed_ct + 1;
                                c
                            } else {
                                proof {
                                    lemma_count_fixed_bounds_up(
                                        graph,
                                        pp,
                                        ext,
                                        ext_v@.len() as int + 1,
                                    );
                                }
                                let c = vars.advice(advice_ct, &dep.out_dims);
                                advice_ct = advice_ct + 1;
                                c
                            };
                            order.push(PolyInputRef::Input(ext_v.len()));
                            ext_v.push(d);
                            cols.push(col);
                            proof {
                                assert(spec_input_ref(gv, q) == PolyInputRef::Input(
                                    (ext_v@.len() - 1) as usize,
                                ));
                            }
                        },
                    }
                }
                e = e + 1;
            }
            fused.push(PolyNode { op, input_order: order });
            proof {
                lemma_all_deps_step(gv, p as int);
            }
            p = p + 1;
        }
        proof {
            lemma_all_deps_whole(gv);
            assert(ext_v@ == ext);
        }
        let out_node = &self.nodes.nodes[group_pos[group_pos.len() - 1]];
        proof {
            assert(*out_node == gv[gv.len() - 1]);
            assert(gv[gv.len() - 1] == gv.last());
            lemma_count_fixed_bounds(graph, pp, ext, ext.len() as int);
        }
        let output = vars.advice(advice_ct, &out_node.out_dims);
        Ok(
            NodeConfig::Poly {
                region: PolyRegion { inputs: cols, output, nodes: fused },
                inputs: ext_v,
            },
        )
    }
}

/// In a longer list extending a prefix, the first occurrence of a prefix
/// member stays where it was.
proof fn lemma_pos_agree(s1: Seq<usize>, s2: Seq<usize>, d: usize)
    requires
        s1.is_prefix_of(s2),
        s1.contains(d),
    ensures
        pos_of(s2, d) == pos_of(s1, d),
        0 <= pos_of(s1, d) < s1.len(),
    decreases s1.len(),
{
    if s1.len() > 0 {
        if s1[0] == d {
        } else {
            assert(s1.skip(1).is_prefix_of(s2.skip(1)));
            assert(s1.skip(1).contains(d)) by {
                let w = choose|j: int| 0 <= j < s1.len() && s1[j] == d;
                assert(s1.skip(1)[w - 1] == d);
            };
            lemma_pos_agree(s1.skip(1), s2.skip(1), d);
        }
    }
}

} // verus!
