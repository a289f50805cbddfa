//! Read-only sizing queries: input and output shapes and scales, and the
//! column-size requirements callers use to size the variable pool before
//! configuration.

use vstd::prelude::*;
use crate::configure::poly_group;
use crate::configure::poly_group_upto;
use crate::fuse::all_deps;
use crate::fuse::deps_of;
use crate::fuse::deps_offset;
use crate::fuse::group_contains;
use crate::fuse::group_view;
use crate::lookup::lookup_op_sizes;
use crate::model::Model;
use crate::node::Node;
use crate::ops::LookupOp;
use crate::ops::OpKind;
use crate::tensor::dims_product;

verus! {

/// Every input edge in the graph names an existing node.
pub open spec fn deps_ok(graph: Seq<Node>) -> bool {
    forall|i: int, e: int|
        0 <= i < graph.len() && 0 <= e < deps_of(graph[i]).len() ==> #[trigger] deps_of(
            graph[i],
        )[e] < graph.len()
}

/// Every node's output footprint is machine-representable.
pub open spec fn sizes_ok(graph: Seq<Node>) -> bool {
    forall|i: int|
        0 <= i < graph.len() ==> dims_product((#[trigger] graph[i]).out_dims@) <= usize::MAX
}

/// The greatest bucket identifier among the first `k` nodes, zero if none.
pub open spec fn spec_max_bucket(graph: Seq<Node>, k: int) -> usize
    decreases k,
{
    if k <= 0 {
        0usize
    } else {
        let prev = spec_max_bucket(graph, k - 1);
        match graph[k - 1].bucket {
            Option::Some(v) => if v > prev {
                v
            } else {
                prev
            },
            Option::None => prev,
        }
    }
}

/// Whether an external dependency is selected: constants when
/// `sel_const`, everything else when `sel_other`.
pub open spec fn sel_ok(graph: Seq<Node>, sel_const: bool, sel_other: bool, d: usize) -> bool {
    if d < graph.len() && graph[d as int].opkind is Const {
        sel_const
    } else {
        sel_other
    }
}

/// Merges one size into the running elementwise maxima at slot `t`.
pub open spec fn merge_at(acc: Seq<usize>, t: int, size: usize) -> Seq<usize> {
    if t == acc.len() {
        acc.push(size)
    } else if 0 <= t < acc.len() {
        acc.update(t, if acc[t] >= size { acc[t] } else { size })
    } else {
        acc
    }
}

/// Folds the selected, first-seen-deduplicated external dependencies of
/// a group over the running maxima: the seen list and the maxima after
/// the first `k` flat dependencies.
pub open spec fn bucket_fold(
    graph: Seq<Node>,
    g: Seq<Node>,
    deps: Seq<usize>,
    sel_const: bool,
    sel_other: bool,
    k: int,
    seen0: Seq<usize>,
    acc0: Seq<usize>,
) -> (Seq<usize>, Seq<usize>)
    decreases k,
{
    if k <= 0 {
        (seen0, acc0)
    } else {
        let (seen, acc) = bucket_fold(graph, g, deps, sel_const, sel_other, k - 1, seen0, acc0);
        let d = deps[k - 1];
        if group_contains(g, d) || seen.contains(d) || !sel_ok(graph, sel_const, sel_other, d) {
            (seen, acc)
        } else {
            let size = dims_product(graph[d as int].out_dims@) as usize;
            (seen.push(d), merge_at(acc, seen.len() as int, size))
        }
    }
}

/// One bucket's contribution to the running maxima: its selected
/// externals, then (when asked) the group output at the next slot.
pub open spec fn bucket_sizes_step(
    graph: Seq<Node>,
    sel_const: bool,
    sel_other: bool,
    incl_out: bool,
    b: Option<usize>,
    acc: Seq<usize>,
) -> Seq<usize> {
    let g = poly_group(graph, b);
    let deps = all_deps(g);
    let (seen, acc1) = bucket_fold(
        graph,
        g,
        deps,
        sel_const,
        sel_other,
        deps.len() as int,
        Seq::empty(),
        acc,
    );
    if incl_out && g.len() > 0 {
        merge_at(acc1, seen.len() as int, dims_product(g.last().out_dims@) as usize)
    } else {
        acc1
    }
}

/// The maxima after the constant bucket and buckets up to `upto`.
pub open spec fn sizes_fold(
    graph: Seq<Node>,
    sel_const: bool,
    sel_other: bool,
    incl_out: bool,
    upto: int,
) -> Seq<usize>
    decreases upto + 1,
{
    if upto < 0 {
        bucket_sizes_step(graph, sel_const, sel_other, incl_out, Option::None, Seq::empty())
    } else {
        bucket_sizes_step(
            graph,
            sel_const,
            sel_other,
            incl_out,
            Option::Some(upto as usize),
            sizes_fold(graph, sel_const, sel_other, incl_out, upto - 1),
        )
    }
}

/// The elementwise maxima the polynomial buckets demand, over the whole
/// bucket range.
pub open spec fn spec_poly_sizes(
    graph: Seq<Node>,
    sel_const: bool,
    sel_other: bool,
    incl_out: bool,
) -> Seq<usize> {
    sizes_fold(
        graph,
        sel_const,
        sel_other,
        incl_out,
        spec_max_bucket(graph, graph.len() as int) as int,
    )
}


/// Every lookup input shape's footprint is machine-representable.
pub open spec fn in_sizes_ok(graph: Seq<Node>) -> bool {
    forall|i: int, j: int|
        0 <= i < graph.len() && 0 <= j < graph[i].in_dims@.len() ==> dims_product(
            #[trigger] graph[i].in_dims@[j]@,
        ) <= usize::MAX
}

/// Merges a lookup node's first `j` input footprints into the maxima.
pub open spec fn in_dims_fold(n: Node, j: int, acc: Seq<usize>) -> Seq<usize>
    decreases j,
{
    if j <= 0 {
        acc
    } else {
        merge_at(in_dims_fold(n, j - 1, acc), j - 1, dims_product(n.in_dims@[j - 1]@) as usize)
    }
}

/// Merges one lookup node's input footprints and its output footprint.
pub open spec fn lookup_node_merge(n: Node, acc: Seq<usize>) -> Seq<usize> {
    merge_at(
        in_dims_fold(n, n.in_dims@.len() as int, acc),
        n.in_dims@.len() as int,
        dims_product(n.out_dims@) as usize,
    )
}

/// The lookup-column maxima over the first `k` nodes.
pub open spec fn lookup_sizes_fold(graph: Seq<Node>, k: int) -> Seq<usize>
    decreases k,
{
    if k <= 0 {
        Seq::empty()
    } else {
        let a = lookup_sizes_fold(graph, k - 1);
        if graph[k - 1].opkind is Lookup {
            lookup_node_merge(graph[k - 1], a)
        } else {
            a
        }
    }
}

/// Elementwise maxima of two size lists, the longer one's tail kept.
pub open spec fn combine_max(a: Seq<usize>, b: Seq<usize>) -> Seq<usize> {
    if a.len() >= b.len() {
        Seq::new(a.len(), |i: int| if i < b.len() && b[i] > a[i] { b[i] } else { a[i] })
    } else {
        Seq::new(b.len(), |i: int| if i < a.len() && a[i] > b[i] { a[i] } else { b[i] })
    }
}

impl Model {
    /// Number of the computational graph's inputs.
    pub fn num_inputs(&self) -> (r: usize)
        ensures
            r == self.inputs@.len(),
    {
        self.inputs.len()
    }

    /// Number of the computational graph's outputs.
    pub fn num_outputs(&self) -> (r: usize)
        ensures
            r == self.outputs@.len(),
    {
        self.outputs.len()
    }

    /// Shapes of the computational graph's inputs.
    pub fn input_shapes(&self) -> (r: Vec<Vec<usize>>)
        requires
            forall|o: int|
                0 <= o < self.inputs@.len() ==> (#[trigger] self.inputs@[o]) < self.graph().len(),
        ensures
            r@.len() == self.inputs@.len(),
            forall|k: int|
                0 <= k < r@.len() ==> (#[trigger] r@[k])@
                    == self.graph()[self.inputs@[k] as int].out_dims@,
    {
        let mut r: Vec<Vec<usize>> = Vec::new();
        let mut k: usize = 0;
        while k < self.inputs.len()
            invariant
                k <= self.inputs@.len(),
                forall|o: int|
                    0 <= o < self.inputs@.len() ==> (#[trigger] self.inputs@[o])
                        < self.graph().len(),
                r@.len() == k,
                forall|j: int|
                    0 <= j < k ==> (#[trigger] r@[j])@
                        == self.graph()[self.inputs@[j] as int].out_dims@,
            decreases self.inputs@.len() - k,
        {
            r.push(crate::tensor::clone_flat(&self.nodes.nodes[self.inputs[k]].out_dims));
            k = k + 1;
        }
        r
    }

    /// Fixed-point scales of the computational graph's outputs.
    pub fn get_output_scales(&self) -> (r: Vec<u32>)
        requires
            forall|o: int|
                0 <= o < self.outputs@.len() ==> (#[trigger] self.outputs@[o])
                    < self.graph().len(),
        ensures
            r@.len() == self.outputs@.len(),
            forall|k: int|
                0 <= k < r@.len() ==> (#[trigger] r@[k])
                    == self.graph()[self.outputs@[k] as int].out_scale,
    {
        let mut r: Vec<u32> = Vec::new();
        let mut k: usize = 0;
        while k < self.outputs.len()
            invariant
                k <= self.outputs@.len(),
                forall|o: int|
                    0 <= o < self.outputs@.len() ==> (#[trigger] self.outputs@[o])
                        < self.graph().len(),
                r@.len() == k,
                forall|j: int|
                    0 <= j < k ==> (#[trigger] r@[j])
                        == self.graph()[self.outputs@[j] as int].out_scale,
            decreases self.outputs@.len() - k,
        {
            r.push(self.nodes.nodes[self.outputs[k]].out_scale);
            k = k + 1;
        }
        r
    }

    /// Shapes of the public commitments the circuit needs: the public
    /// inputs first, then the public outputs.
    pub fn instance_shapes(&self) -> (r: Vec<Vec<usize>>)
        requires
            forall|o: int|
                0 <= o < self.inputs@.len() ==> (#[trigger] self.inputs@[o]) < self.graph().len(),
            forall|o: int|
                0 <= o < self.outputs@.len() ==> (#[trigger] self.outputs@[o])
                    < self.graph().len(),
        ensures
            ({
                let ni: int = if self.visibility.input.spec_is_public() {
                    self.inputs@.len() as int
                } else {
                    0
                };
                let no: int = if self.visibility.output.spec_is_public() {
                    self.outputs@.len() as int
                } else {
                    0
                };
                &&& r@.len() == ni + no
                &&& forall|k: int|
                    0 <= k < ni ==> (#[trigger] r@[k])@
                        == self.graph()[self.inputs@[k] as int].out_dims@
                &&& forall|k: int|
                    ni <= k < ni + no ==> (#[trigger] r@[k])@
                        == self.graph()[self.outputs@[k - ni] as int].out_dims@
            }),
    {
        let mut r: Vec<Vec<usize>> = Vec::new();
        if self.visibility.input.is_public() {
            let mut ins = self.input_shapes();
            r.append(&mut ins);
        }
        let ghost ni = r@.len() as int;
        if self.visibility.output.is_public() {
            let mut outs = self.output_shapes();
            r.append(&mut outs);
        }
        r
    }

    /// Shared-region sizes under column reuse: the greatest per-operator
    /// footprint sum, reported for input and output columns alike.
    pub fn num_vars_lookup(&self) -> (r: Vec<usize>)
        requires
            forall|op: LookupOp|
                #[trigger] lookup_op_sizes(self.graph(), op, self.graph().len() as int)
                    <= usize::MAX,
        ensures
            r@.len() == 2,
            ({
                let n = self.graph().len() as int;
                let m1 = lookup_op_sizes(self.graph(), LookupOp::ReLU, n);
                let m2 = lookup_op_sizes(self.graph(), LookupOp::Abs, n);
                r@[0] == if m1 >= m2 {
                    m1
                } else {
                    m2
                } && r@[1] == r@[0]
            }),
    {
        proof {
            assert(self.graph() == self.nodes.nodes@);
            assert(lookup_op_sizes(self.graph(), LookupOp::ReLU, self.graph().len() as int)
                <= usize::MAX);
            assert(lookup_op_sizes(self.graph(), LookupOp::Abs, self.graph().len() as int)
                <= usize::MAX);
        }
        let a = self.num_vars_lookup_op(LookupOp::ReLU);
        let b = self.num_vars_lookup_op(LookupOp::Abs);
        let m = if a[0] >= b[0] {
            a[0]
        } else {
            b[0]
        };
        let mut r: Vec<usize> = Vec::new();
        r.push(m);
        r.push(m);
        r
    }

    /// Folds one bucket's polynomial group into the running maxima.
    fn bucket_sizes(
        &self,
        b: Option<usize>,
        sel_const: bool,
        sel_other: bool,
        incl_out: bool,
        acc: &mut Vec<usize>,
    )
        requires
            deps_ok(self.graph()),
            sizes_ok(self.graph()),
        ensures
            final(acc)@ == bucket_sizes_step(
                self.graph(),
                sel_const,
                sel_other,
                incl_out,
                b,
                old(acc)@,
            ),
    {
        let ghost graph = self.graph();
        let ghost acc0 = acc@;
        let n = self.nodes.nodes.len();
        let mut group_pos: Vec<usize> = Vec::new();
        let mut i: usize = 0;
        proof {
            assert(group_view(graph, group_pos@) =~= poly_group_upto(graph, b, 0));
        }
        while i < n
            invariant
                i <= n,
                n == graph.len(),
                self.graph() == graph,
                group_view(graph, group_pos@) == poly_group_upto(graph, b, i as int),
                forall|t: int| 0 <= t < group_pos@.len() ==> (#[trigger] group_pos@[t]) < n,
            decreases n - i,
        {
            let node = &self.nodes.nodes[i];
            let selected = match (&node.bucket, &b) {
                (Some(x), Some(y)) => *x == *y,
                (None, None) => true,
                _ => false,
            };
            if selected && node.opkind.is_poly() {
                group_pos.push(i);
                proof {
                    assert(group_view(graph, group_pos@) =~= poly_group_upto(
                        graph,
                        b,
                        i as int + 1,
                    ));
                }
            } else {
                proof {
                    assert(poly_group_upto(graph, b, i as int + 1) == poly_group_upto(
                        graph,
                        b,
                        i as int,
                    ));
                }
            }
            i = i + 1;
        }
        let ghost g = poly_group(graph, b);
        proof {
            assert(group_view(graph, group_pos@) == g);
        }
        let ghost deps = all_deps(g);
        let mut seen: Vec<usize> = Vec::new();
        let mut p: usize = 0;
        proof {
            assert(g.take(0) =~= Seq::<Node>::empty());
            assert(seen@ =~= Seq::<usize>::empty());
        }
        while p < group_pos.len()
            invariant
                p <= group_pos@.len(),
                n == graph.len(),
                self.graph() == graph,
                deps_ok(graph),
                sizes_ok(graph),
                g == poly_group(graph, b),
                g == group_view(graph, group_pos@),
                deps == all_deps(g),
                g.len() == group_pos@.len(),
                forall|t: int| 0 <= t < group_pos@.len() ==> (#[trigger] group_pos@[t]) < n,
                seen@.len() <= acc@.len(),
                (seen@, acc@) == bucket_fold(
                    graph,
                    g,
                    deps,
                    sel_const,
                    sel_other,
                    deps_offset(g, p as int),
                    Seq::empty(),
                    acc0,
                ),
            decreases group_pos@.len() - p,
        {
            let node = &self.nodes.nodes[group_pos[p]];
            proof {
                assert(*node == g[p as int]);
            }
            let mut e: usize = 0;
            while e < node.inputs.len()
                invariant
                    e <= node.inputs@.len(),
                    n == graph.len(),
                    self.graph() == graph,
                    deps_ok(graph),
                    sizes_ok(graph),
                    g == poly_group(graph, b),
                    g == group_view(graph, group_pos@),
                    deps == all_deps(g),
                    g.len() == group_pos@.len(),
                    p < group_pos@.len(),
                    *node == g[p as int],
                    forall|t: int| 0 <= t < group_pos@.len() ==> (#[trigger] group_pos@[t]) < n,
                    seen@.len() <= acc@.len(),
                    (seen@, acc@) == bucket_fold(
                        graph,
                        g,
                        deps,
                        sel_const,
                        sel_other,
                        deps_offset(g, p as int) + e,
                        Seq::empty(),
                        acc0,
                    ),
                decreases node.inputs@.len() - e,
            {
                let ghost q = deps_offset(g, p as int) + e;
                proof {
                    crate::fuse::lemma_deps_offset_index(g, p as int, e as int);
                    assert(deps[q] == deps_of(g[p as int])[e as int]);
                }
                let d = node.inputs[e].node;
                proof {
                    assert(deps_of(g[p as int])[e as int] == d);
                    assert(exists|j: int| 0 <= j < graph.len() && graph[j] == g[p as int]) by {
                        crate::configure::lemma_poly_group_members(graph, b, p as int);
                    };
                    let j = choose|j: int| 0 <= j < graph.len() && graph[j] == g[p as int];
                    assert(deps_of(graph[j])[e as int] < graph.len());
                    assert(d < n);
                }
                let in_group = crate::fuse::group_contains_exec(&self.nodes.nodes, &group_pos, d);
                if !in_group {
                    let seen_before = match crate::fuse::position_of(&seen, d) {
                        Some(_) => true,
                        None => false,
                    };
                    if !seen_before {
                        let is_c = self.nodes.nodes[d].opkind.is_const();
                        let selected = if is_c {
                            sel_const
                        } else {
                            sel_other
                        };
                        proof {
                            assert(sel_ok(graph, sel_const, sel_other, d) == selected);
                        }
                        if selected {
                            let size = match crate::tensor::checked_dims_product(
                                &self.nodes.nodes[d].out_dims,
                            ) {
                                Some(s) => s,
                                None => {
                                    proof {
                                        assert(false);
                                    }
                                    0
                                },
                            };
                            let t = seen.len();
                            if t == acc.len() {
                                acc.push(size);
                            } else {
                                let cur = acc[t];
                                acc.set(t, if cur >= size {
                                    cur
                                } else {
                                    size
                                });
                            }
                            seen.push(d);
                            proof {
                                assert(acc@ =~= merge_at(
                                    bucket_fold(
                                        graph,
                                        g,
                                        deps,
                                        sel_const,
                                        sel_other,
                                        q,
                                        Seq::empty(),
                                        acc0,
                                    ).1,
                                    seen@.len() - 1,
                                    size,
                                ));
                            }
                        }
                    }
                }
                e = e + 1;
            }
            proof {
                crate::fuse::lemma_all_deps_step(g, p as int);
            }
            p = p + 1;
        }
        proof {
            crate::fuse::lemma_all_deps_whole(g);
        }
        if incl_out && group_pos.len() > 0 {
            let out_node = &self.nodes.nodes[group_pos[group_pos.len() - 1]];
            proof {
                assert(*out_node == g[g.len() - 1]);
                assert(g[g.len() - 1] == g.last());
            }
            let size = match crate::tensor::checked_dims_product(&out_node.out_dims) {
                Some(s) => s,
                None => {
                    proof {
                        assert(exists|j: int| 0 <= j < graph.len() && graph[j] == g.last()) by {
                            crate::configure::lemma_poly_group_members(graph, b, g.len() - 1);
                        };
                        let j = choose|j: int| 0 <= j < graph.len() && graph[j] == g.last();
                        assert(dims_product(graph[j].out_dims@) <= usize::MAX);
                        assert(false);
                    }
                    0
                },
            };
            let t = seen.len();
            if t == acc.len() {
                acc.push(size);
            } else {
                let cur = acc[t];
                acc.set(t, if cur >= size {
                    cur
                } else {
                    size
                });
            }
            proof {
                assert(exists|j: int| 0 <= j < graph.len() && graph[j] == g.last()) by {
                    crate::configure::lemma_poly_group_members(graph, b, g.len() - 1);
                };
                let j = choose|j: int| 0 <= j < graph.len() && graph[j] == g.last();
                assert(size == dims_product(g.last().out_dims@) as usize);
                assert(acc@ =~= merge_at(
                    bucket_fold(
                        graph,
                        g,
                        deps,
                        sel_const,
                        sel_other,
                        deps.len() as int,
                        Seq::empty(),
                        acc0,
                    ).1,
                    seen@.len() as int,
                    size,
                ));
            }
        }
    }

    /// The elementwise column maxima over every bucket's polynomial group.
    fn max_poly_sizes(&self, sel_const: bool, sel_other: bool, incl_out: bool) -> (r: Vec<usize>)
        requires
            deps_ok(self.graph()),
            sizes_ok(self.graph()),
        ensures
            r@ == spec_poly_sizes(self.graph(), sel_const, sel_other, incl_out),
    {
        let ghost graph = self.graph();
        let n = self.nodes.nodes.len();
        let mut maxb: usize = 0;
        let mut i: usize = 0;
        while i < n
            invariant
                i <= n,
                n == graph.len(),
                self.graph() == graph,
                maxb == spec_max_bucket(graph, i as int),
            decreases n - i,
        {
            match self.nodes.nodes[i].bucket {
                Some(v) => {
                    if v > maxb {
                        maxb = v;
                    }
                },
                None => {},
            }
            i = i + 1;
        }
        let mut acc: Vec<usize> = Vec::new();
        proof {
            assert(acc@ =~= Seq::<usize>::empty());
        }
        self.bucket_sizes(None, sel_const, sel_other, incl_out, &mut acc);
        let mut bg: usize = 0;
        loop
            invariant_except_break
                bg > 0 ==> acc@ == sizes_fold(
                    graph,
                    sel_const,
                    sel_other,
                    incl_out,
                    bg as int - 1,
                ),
                bg == 0 ==> acc@ == sizes_fold(graph, sel_const, sel_other, incl_out, -1),
            invariant
                bg <= maxb,
                n == graph.len(),
                self.graph() == graph,
                deps_ok(graph),
                sizes_ok(graph),
                maxb == spec_max_bucket(graph, n as int),
            ensures
                acc@ == sizes_fold(graph, sel_const, sel_other, incl_out, maxb as int),
            decreases maxb - bg,
        {
            self.bucket_sizes(Some(bg), sel_const, sel_other, incl_out, &mut acc);
            if bg == maxb {
                break;
            }
            bg = bg + 1;
        }
        acc
    }

    /// Greatest parameter (trainable-constant) sizes across the
    /// computational graph's fused layers.
    pub fn max_params_poly(&self) -> (r: Vec<usize>)
        requires
            deps_ok(self.graph()),
            sizes_ok(self.graph()),
        ensures
            r@ == spec_poly_sizes(self.graph(), true, false, false),
    {
        self.max_poly_sizes(true, false, false)
    }

    /// Greatest non-parameter variable sizes in fused layers, the layer
    /// output column included.
    pub fn max_vars_poly(&self) -> (r: Vec<usize>)
        requires
            deps_ok(self.graph()),
            sizes_ok(self.graph()),
        ensures
            r@ == spec_poly_sizes(self.graph(), false, true, true),
    {
        self.max_poly_sizes(false, true, true)
    }

    /// Greatest variable-and-parameter sizes in fused layers, the layer
    /// output column included.
    pub fn max_vars_and_params_poly(&self) -> (r: Vec<usize>)
        requires
            deps_ok(self.graph()),
            sizes_ok(self.graph()),
        ensures
            r@ == spec_poly_sizes(self.graph(), true, true, true),
    {
        self.max_poly_sizes(true, true, true)
    }

    /// Greatest per-column variable sizes across the lookup layers.
    pub fn max_vars_lookup(&self) -> (r: Vec<usize>)
        requires
            sizes_ok(self.graph()),
            in_sizes_ok(self.graph()),
        ensures
            r@ == lookup_sizes_fold(self.graph(), self.graph().len() as int),
    {
        let ghost graph = self.graph();
        let n = self.nodes.nodes.len();
        let mut acc: Vec<usize> = Vec::new();
        proof {
            assert(acc@ =~= Seq::<usize>::empty());
        }
        let mut i: usize = 0;
        while i < n
            invariant
                i <= n,
                n == graph.len(),
                self.graph() == graph,
                sizes_ok(graph),
                in_sizes_ok(graph),
                acc@ == lookup_sizes_fold(graph, i as int),
            decreases n - i,
        {
            let node = &self.nodes.nodes[i];
            if node.opkind.is_lookup() {
                let mut j: usize = 0;
                while j < node.in_dims.len()
                    invariant
                        j <= node.in_dims@.len(),
                        i < n,
                        n == graph.len(),
                        self.graph() == graph,
                        sizes_ok(graph),
                        in_sizes_ok(graph),
                        *node == graph[i as int],
                        acc@ == in_dims_fold(graph[i as int], j as int, lookup_sizes_fold(
                            graph,
                            i as int,
                        )),
                        acc@.len() >= j,
                    decreases node.in_dims@.len() - j,
                {
                    let size = match crate::tensor::checked_dims_product(&node.in_dims[j]) {
                        Some(s) => s,
                        None => {
                            proof {
                                assert(false);
                            }
                            0
                        },
                    };
                    if j == acc.len() {
                        acc.push(size);
                    } else {
                        let cur = acc[j];
                        acc.set(j, if cur >= size {
                            cur
                        } else {
                            size
                        });
                    }
                    j = j + 1;
                }
                let out_size = match crate::tensor::checked_dims_product(&node.out_dims) {
                    Some(s) => s,
                    None => {
                        proof {
                            assert(false);
                        }
                        0
                    },
                };
                let t = node.in_dims.len();
                if t == acc.len() {
                    acc.push(out_size);
                } else {
                    let cur = acc[t];
                    acc.set(t, if cur >= out_size {
                        cur
                    } else {
                        out_size
                    });
                }
            }
            i = i + 1;
        }
        acc
    }

    /// Column sizes the advice pool must offer: the elementwise maxima of
    /// what the polynomial layers and the lookup layers each demand.
    pub fn advice_shapes(&self) -> (r: Vec<usize>)
        requires
            deps_ok(self.graph()),
            sizes_ok(self.graph()),
            in_sizes_ok(self.graph()),
            forall|op: LookupOp|
                #[trigger] lookup_op_sizes(self.graph(), op, self.graph().len() as int)
                    <= usize::MAX,
        ensures
            ({
                let ml = if self.run_args.single_lookup {
                    let n = self.graph().len() as int;
                    let m1 = lookup_op_sizes(self.graph(), LookupOp::ReLU, n);
                    let m2 = lookup_op_sizes(self.graph(), LookupOp::Abs, n);
                    let m = if m1 >= m2 {
                        m1
                    } else {
                        m2
                    };
                    seq![m as usize, m as usize]
                } else {
                    lookup_sizes_fold(self.graph(), self.graph().len() as int)
                };
                let mp = if self.visibility.params.spec_is_public() {
                    spec_poly_sizes(self.graph(), false, true, true)
                } else {
                    spec_poly_sizes(self.graph(), true, true, true)
                };
                r@ == combine_max(mp, ml)
            }),
    {
        let ml = if self.run_args.single_lookup {
            let v = self.num_vars_lookup();
            proof {
                assert(v@ =~= seq![v@[0], v@[0]]);
            }
            v
        } else {
            self.max_vars_lookup()
        };
        let mp = if self.visibility.params.is_public() {
            self.max_vars_poly()
        } else {
            self.max_vars_and_params_poly()
        };
        let ghost mpv = mp@;
        let ghost mlv = ml@;
        let (mut base, other) = if mp.len() >= ml.len() {
            (mp, ml)
        } else {
            (ml, mp)
        };
        let mut i: usize = 0;
        while i < other.len()
            invariant
                i <= other@.len(),
                other@.len() <= base@.len(),
                base@.len() == (if mpv.len() >= mlv.len() {
                    mpv.len()
                } else {
                    mlv.len()
                }),
                combine_max(mpv, mlv).len() == base@.len(),
                forall|j: int|
                    0 <= j < i ==> (#[trigger] base@[j]) == combine_max(mpv, mlv)[j],
                forall|j: int|
                    i <= j < base@.len() ==> (#[trigger] base@[j]) == (if mpv.len() >= mlv.len() {
                        mpv[j]
                    } else {
                        mlv[j]
                    }),
                other@ == (if mpv.len() >= mlv.len() {
                    mlv
                } else {
                    mpv
                }),
            decreases other@.len() - i,
        {
            let a = base[i];
            let b = other[i];
            base.set(i, if a >= b {
                a
            } else {
                b
            });
            i = i + 1;
        }
        proof {
            assert(base@ =~= combine_max(mpv, mlv));
        }
        base
    }

    /// Column sizes the fixed pool must offer: the parameter maxima when
    /// parameters are public, nothing otherwise.
    pub fn fixed_shapes(&self) -> (r: Vec<usize>)
        requires
            deps_ok(self.graph()),
            sizes_ok(self.graph()),
        ensures
            self.visibility.params.spec_is_public() ==> r@ == spec_poly_sizes(
                self.graph(),
                true,
                false,
                false,
            ),
            !self.visibility.params.spec_is_public() ==> r@ == Seq::<usize>::empty(),
    {
        if self.visibility.params.is_public() {
            self.max_params_poly()
        } else {
            let r: Vec<usize> = Vec::new();
            proof {
                assert(r@ =~= Seq::<usize>::empty());
            }
            r
        }
    }
}

} // verus!
