//! Lookup-table configuration: fresh regions sized to their input, a
//! registry that deduplicates table contents by operator, and the
//! column-reuse scan over previously configured regions.

use vstd::prelude::*;
use crate::config::LookupRegion;
use crate::config::LookupTable;
use crate::config::NodeConfig;
use crate::model::Model;
use crate::node::GraphError;
use crate::node::Node;
use crate::ops::LookupOp;
use crate::ops::OpKind;
use crate::tensor::dims_product;
use crate::tensor::lemma_dims_product_nonneg;
use crate::vars::ModelVars;
use crate::vars::VarKind;

verus! {

/// The table registry is sound: tables and registry entries are created
/// in lockstep, the entry at position `r` owns table `r` and records the
/// one operator that table tabulates, and keys are unique. Together these
/// make table contents unique.
pub open spec fn registry_wf(reg: Seq<(LookupOp, usize)>, tables: Seq<LookupTable>) -> bool {
    &&& reg.len() == tables.len()
    &&& forall|r: int|
        0 <= r < reg.len() ==> (#[trigger] reg[r]).1 == r && tables[r].nonlinearities@ == seq![
            reg[r].0,
        ]
    &&& forall|r1: int, r2: int|
        0 <= r1 < r2 < reg.len() ==> (#[trigger] reg[r1]).0 != (#[trigger] reg[r2]).0
}

/// The registered table for an operator, if any.
pub open spec fn registry_find(reg: Seq<(LookupOp, usize)>, op: LookupOp) -> Option<usize>
    decreases reg.len(),
{
    if reg.len() == 0 {
        Option::None
    } else if reg[0].0 == op {
        Option::Some(reg[0].1)
    } else {
        registry_find(reg.skip(1), op)
    }
}

/// Every lookup region names an existing table.
pub open spec fn regions_wf(regions: Seq<LookupRegion>, tables: Seq<LookupTable>) -> bool {
    forall|h: int| 0 <= h < regions.len() ==> (#[trigger] regions[h]).table < tables.len()
}

/// Sum over the first `k` nodes of the output footprint of those carrying
/// exactly the given lookup operator.
pub open spec fn lookup_op_sizes(graph: Seq<Node>, op: LookupOp, k: int) -> int
    decreases k,
{
    if k <= 0 {
        0
    } else {
        lookup_op_sizes(graph, op, k - 1) + if graph[k - 1].opkind == OpKind::Lookup(op) {
            dims_product(graph[k - 1].out_dims@)
        } else {
            0
        }
    }
}

/// The footprint sum is nonnegative and monotone in the scan length.
pub proof fn lemma_lookup_sizes_mono(graph: Seq<Node>, op: LookupOp, k1: int, k2: int)
    requires
        0 <= k1 <= k2,
    ensures
        0 <= lookup_op_sizes(graph, op, k1) <= lookup_op_sizes(graph, op, k2),
    decreases k2 + k1,
{
    if k1 > 0 {
        lemma_lookup_sizes_mono(graph, op, 0, k1 - 1);
        lemma_dims_product_nonneg(graph[k1 - 1].out_dims@);
    }
    if k1 < k2 {
        lemma_lookup_sizes_mono(graph, op, k1, k2 - 1);
        lemma_dims_product_nonneg(graph[k2 - 1].out_dims@);
    }
}

/// Looks an operator up in the registry.
fn registry_lookup(reg: &Vec<(LookupOp, usize)>, op: LookupOp) -> (r: Option<usize>)
    ensures
        r == registry_find(reg@, op),
{
    let mut i: usize = 0;
    proof {
        assert(reg@.skip(0) =~= reg@);
    }
    while i < reg.len()
        invariant
            i <= reg@.len(),
            registry_find(reg@, op) == registry_find(reg@.skip(i as int), op),
        decreases reg@.len() - i,
    {
        if reg[i].0 == op {
            proof {
                assert(reg@.skip(i as int)[0] == reg@[i as int]);
            }
            return Some(reg[i].1);
        }
        proof {
            assert(reg@.skip(i as int)[0] == reg@[i as int]);
            assert(reg@.skip(i as int).skip(1) =~= reg@.skip(i as int + 1));
        }
        i = i + 1;
    }
    None
}

/// A found registry entry is a sound table handle.
pub proof fn lemma_registry_find_sound(reg: Seq<(LookupOp, usize)>, tables: Seq<LookupTable>, op: LookupOp)
    requires
        registry_wf(reg, tables),
    ensures
        registry_find(reg, op) matches Some(h) ==> h < tables.len()
            && tables[h as int].nonlinearities@ == seq![op],
        registry_find(reg, op) is None ==> forall|t: int|
            0 <= t < tables.len() ==> tables[t].nonlinearities@ != seq![op],
    decreases reg.len(),
{
    if registry_find(reg, op) is Some {
        lemma_registry_find_entry(reg, op);
    } else {
        assert forall|t: int|
            0 <= t < tables.len() implies tables[t].nonlinearities@ != seq![op] by {
            lemma_registry_none_misses(reg, op, t);
            assert(tables[t].nonlinearities@ == seq![reg[t].0]);
            assert(seq![reg[t].0][0] == reg[t].0);
            assert(seq![op][0] == op);
        };
    }
}

/// A failed registry search means no entry carries the operator.
proof fn lemma_registry_none_misses(reg: Seq<(LookupOp, usize)>, op: LookupOp, r: int)
    requires
        registry_find(reg, op) is None,
        0 <= r < reg.len(),
    ensures
        reg[r].0 != op,
    decreases r,
{
    if r > 0 {
        lemma_registry_none_misses(reg.skip(1), op, r - 1);
        assert(reg.skip(1)[r - 1] == reg[r]);
    }
}

/// A successful registry search returns some entry's table.
proof fn lemma_registry_find_entry(reg: Seq<(LookupOp, usize)>, op: LookupOp)
    requires
        registry_find(reg, op) is Some,
    ensures
        exists|r: int|
            0 <= r < reg.len() && (#[trigger] reg[r]).0 == op && reg[r].1 == registry_find(
                reg,
                op,
            ).unwrap(),
    decreases reg.len(),
{
    if reg.len() > 0 {
        if reg[0].0 == op {
            assert(reg[0] == reg.skip(0)[0]);
        } else {
            lemma_registry_find_entry(reg.skip(1), op);
            let r = choose|r: int|
                0 <= r < reg.skip(1).len() && (#[trigger] reg.skip(1)[r]).0 == op
                    && reg.skip(1)[r].1 == registry_find(reg.skip(1), op).unwrap();
            assert(reg[r + 1] == reg.skip(1)[r]);
        }
    }
}

impl Model {
    /// Configures one lookup node: allocates a region over the first two
    /// advice columns sized to `input_len`, creating the operator's table
    /// on first sight and reusing its contents afterwards.
    pub fn conf_lookup(
        &self,
        node: &Node,
        input_len: usize,
        vars: &ModelVars,
        regions: &mut Vec<LookupRegion>,
        tables: &mut Vec<LookupTable>,
        registry: &mut Vec<(LookupOp, usize)>,
    ) -> (r: Result<NodeConfig, GraphError>)
        requires
            vars.num_advices >= 2,
            registry_wf(old(registry)@, old(tables)@),
            regions_wf(old(regions)@, old(tables)@),
        ensures
            registry_wf(final(registry)@, final(tables)@),
            regions_wf(final(regions)@, final(tables)@),
            forall|h: int| 0 <= h < old(regions)@.len() ==> final(regions)@[h] == old(regions)@[h],
            old(regions)@.len() <= final(regions)@.len(),
            forall|t: int| 0 <= t < old(tables)@.len() ==> final(tables)@[t] == old(tables)@[t],
            old(tables)@.len() <= final(tables)@.len(),
            (r is Ok) <==> node.opkind is Lookup,
            r matches Err(e) ==> {
                &&& e == GraphError::WrongMethod(node.idx, node.opkind)
                &&& final(regions)@ == old(regions)@
                &&& final(tables)@ == old(tables)@
                &&& final(registry)@ == old(registry)@
            },
            r matches Ok(c) ==> (c matches NodeConfig::Lookup { region, inputs } && {
                let op = node.opkind->Lookup_0;
                &&& inputs@ == crate::fuse::deps_of(*node)
                &&& region == old(regions)@.len()
                &&& final(regions)@.len() == old(regions)@.len() + 1
                &&& forall|h: int|
                    0 <= h < old(regions)@.len() ==> final(regions)@[h] == old(regions)@[h]
                &&& ({
                    let fresh = final(regions)@.last();
                    &&& fresh.table < final(tables)@.len()
                    &&& final(tables)@[fresh.table as int].nonlinearities@ == seq![op]
                    &&& fresh.input.kind == VarKind::Advice
                    &&& fresh.input.index == 0
                    &&& fresh.input.dims@ == seq![input_len]
                    &&& fresh.output.kind == VarKind::Advice
                    &&& fresh.output.index == 1
                    &&& fresh.output.dims@ == seq![input_len]
                    &&& fresh.bits == self.run_args.bits
                })
                &&& (registry_find(old(registry)@, op) matches Some(h) ==> {
                    &&& final(tables)@ == old(tables)@
                    &&& final(registry)@ == old(registry)@
                    &&& final(regions)@.last().table == h
                })
                &&& (registry_find(old(registry)@, op) is None ==> {
                    &&& final(tables)@.len() == old(tables)@.len() + 1
                    &&& final(regions)@.last().table == old(tables)@.len()
                })
            }),
    {
        let ghost old_tables = tables@;
        let ghost old_registry = registry@;
        let mut dims: Vec<usize> = Vec::new();
        dims.push(input_len);
        let input = vars.advice(0, &dims);
        let output = vars.advice(1, &dims);
        let node_inputs = node_input_indices(node);

        let op = match &node.opkind {
            OpKind::Lookup(l) => *l,
            _ => {
                return Err(GraphError::WrongMethod(node.idx, node.opkind));
            },
        };

        let table_handle: usize = match registry_lookup(registry, op) {
            Some(h) => {
                proof {
                    lemma_registry_find_sound(registry@, tables@, op);
                }
                h
            },
            None => {
                let mut nl: Vec<LookupOp> = Vec::new();
                nl.push(op);
                let h = tables.len();
                tables.push(LookupTable { nonlinearities: nl });
                registry.push((op, h));
                proof {
                    assert(registry@.last() == (op, h));
                    assert forall|r1: int, r2: int|
                        0 <= r1 < r2 < registry@.len() implies (#[trigger] registry@[r1]).0 != (
                        #[trigger] registry@[r2]).0 by {
                        if r2 == registry@.len() - 1 {
                            lemma_registry_none_misses(old_registry, op, r1);
                        }
                    };
                }
                h
            },
        };
        let region = LookupRegion { table: table_handle, input, output, bits: self.run_args.bits };
        let handle = regions.len();
        regions.push(region);
        Ok(NodeConfig::Lookup { region: handle, inputs: node_inputs })
    }

    /// Sizes a lookup operator's shared region: the total output footprint
    /// of every node carrying exactly that operator, reported for the
    /// input and the output column alike.
    pub fn num_vars_lookup_op(&self, lookup_op: LookupOp) -> (r: Vec<usize>)
        requires
            lookup_op_sizes(self.nodes.nodes@, lookup_op, self.nodes.nodes@.len() as int)
                <= usize::MAX,
        ensures
            r@.len() == 2,
            r@[0] == lookup_op_sizes(self.nodes.nodes@, lookup_op, self.nodes.nodes@.len() as int),
            r@[1] == r@[0],
    {
        let ghost graph = self.nodes.nodes@;
        let mut acc: usize = 0;
        let mut i: usize = 0;
        while i < self.nodes.nodes.len()
            invariant
                i <= graph.len(),
                self.nodes.nodes@ == graph,
                lookup_op_sizes(graph, lookup_op, graph.len() as int) <= usize::MAX,
                acc == lookup_op_sizes(graph, lookup_op, i as int),
            decreases graph.len() - i,
        {
            let n = &self.nodes.nodes[i];
            let matches_op = match &n.opkind {
                OpKind::Lookup(op) => *op == lookup_op,
                _ => false,
            };
            if matches_op {
                proof {
                    lemma_lookup_sizes_mono(graph, lookup_op, i as int + 1, graph.len() as int);
                    lemma_lookup_sizes_mono(graph, lookup_op, 0, i as int);
                    lemma_dims_product_nonneg(n.out_dims@);
                }
                let size = match crate::tensor::checked_dims_product(&n.out_dims) {
                    Some(s) => s,
                    None => {
                        proof {
                            assert(false);
                        }
                        0
                    },
                };
                acc = acc + size;
            }
            i = i + 1;
        }
        let mut r: Vec<usize> = Vec::new();
        r.push(acc);
        r.push(acc);
        r
    }
}

/// The region handle the column-reuse scan settles on: candidates are
/// inspected in reverse configuration order and the first lookup region
/// whose table matches the operator exactly wins.
pub open spec fn reuse_scan(
    configs: Seq<Option<NodeConfig>>,
    regions: Seq<LookupRegion>,
    tables: Seq<LookupTable>,
    op: LookupOp,
    k: int,
) -> Option<usize>
    decreases k,
{
    if k <= 0 {
        Option::None
    } else {
        match configs[k - 1] {
            Option::Some(NodeConfig::Lookup { region, .. }) => {
                if region < regions.len() && regions[region as int].table < tables.len()
                    && tables[regions[region as int].table as int].nonlinearities@ == seq![op] {
                    Option::Some(region)
                } else {
                    reuse_scan(configs, regions, tables, op, k - 1)
                }
            },
            _ => reuse_scan(configs, regions, tables, op, k - 1),
        }
    }
}

impl Model {
    /// Configures a lookup node under column reuse: scans previously
    /// configured regions in reverse order for one whose table matches the
    /// operator and shares it outright; otherwise allocates a fresh region
    /// sized to the operator's whole declared footprint.
    pub fn reuse_lookup_conf(
        &self,
        i: usize,
        node: &Node,
        prev_configs: &Vec<Option<NodeConfig>>,
        vars: &ModelVars,
        regions: &mut Vec<LookupRegion>,
        tables: &mut Vec<LookupTable>,
        registry: &mut Vec<(LookupOp, usize)>,
    ) -> (r: Result<NodeConfig, GraphError>)
        requires
            vars.num_advices >= 2,
            registry_wf(old(registry)@, old(tables)@),
            regions_wf(old(regions)@, old(tables)@),
            node.opkind matches OpKind::Lookup(op) ==> lookup_op_sizes(
                self.nodes.nodes@,
                op,
                self.nodes.nodes@.len() as int,
            ) <= usize::MAX,
        ensures
            registry_wf(final(registry)@, final(tables)@),
            regions_wf(final(regions)@, final(tables)@),
            forall|h: int| 0 <= h < old(regions)@.len() ==> final(regions)@[h] == old(regions)@[h],
            old(regions)@.len() <= final(regions)@.len(),
            forall|t: int| 0 <= t < old(tables)@.len() ==> final(tables)@[t] == old(tables)@[t],
            old(tables)@.len() <= final(tables)@.len(),
            (r is Ok) <==> node.opkind is Lookup,
            r matches Err(e) ==> {
                &&& e == GraphError::OpMismatch(i, node.opkind)
                &&& final(regions)@ == old(regions)@
                &&& final(tables)@ == old(tables)@
                &&& final(registry)@ == old(registry)@
            },
            r matches Ok(c) ==> (c matches NodeConfig::Lookup { region, inputs } && {
                let op = node.opkind->Lookup_0;
                let scan = reuse_scan(
                    prev_configs@,
                    old(regions)@,
                    old(tables)@,
                    op,
                    prev_configs@.len() as int,
                );
                &&& inputs@ == crate::fuse::deps_of(*node)
                &&& (scan matches Some(h) ==> {
                    &&& region == h
                    &&& final(regions)@ == old(regions)@
                    &&& final(tables)@ == old(tables)@
                    &&& final(registry)@ == old(registry)@
                })
                &&& (scan is None ==> {
                    let len = lookup_op_sizes(
                        self.nodes.nodes@,
                        op,
                        self.nodes.nodes@.len() as int,
                    ) as usize;
                    &&& region == old(regions)@.len()
                    &&& final(regions)@.len() == old(regions)@.len() + 1
                    &&& forall|h: int|
                        0 <= h < old(regions)@.len() ==> final(regions)@[h] == old(regions)@[h]
                    &&& ({
                        let fresh = final(regions)@.last();
                        &&& fresh.table < final(tables)@.len()
                        &&& final(tables)@[fresh.table as int].nonlinearities@ == seq![op]
                        &&& fresh.input.kind == VarKind::Advice
                        &&& fresh.input.index == 0
                        &&& fresh.input.dims@ == seq![len]
                        &&& fresh.output.kind == VarKind::Advice
                        &&& fresh.output.index == 1
                        &&& fresh.output.dims@ == seq![len]
                        &&& fresh.bits == self.run_args.bits
                    })
                })
            }),
    {
        let op = match &node.opkind {
            OpKind::Lookup(l) => *l,
            _ => {
                return Err(GraphError::OpMismatch(i, node.opkind));
            },
        };
        let mut k: usize = prev_configs.len();
        while k > 0
            invariant
                k <= prev_configs@.len(),
                node.opkind == OpKind::Lookup(op),
                regions@ == old(regions)@,
                tables@ == old(tables)@,
                registry@ == old(registry)@,
                registry_wf(registry@, tables@),
                regions_wf(regions@, tables@),
                reuse_scan(prev_configs@, regions@, tables@, op, prev_configs@.len() as int)
                    == reuse_scan(prev_configs@, regions@, tables@, op, k as int),
            decreases k,
        {
            k = k - 1;
            match &prev_configs[k] {
                Some(NodeConfig::Lookup { region, .. }) => {
                    if *region < regions.len() && regions[*region].table < tables.len() {
                        let nl = &tables[regions[*region].table].nonlinearities;
                        if nl.len() == 1 && nl[0] == op {
                            proof {
                                assert(nl@ =~= seq![op]);
                                assert(reuse_scan(
                                    prev_configs@,
                                    regions@,
                                    tables@,
                                    op,
                                    k as int + 1,
                                ) == Some(prev_configs@[k as int]->Some_0->Lookup_region));
                            }
                            return Ok(
                                NodeConfig::Lookup {
                                    region: *region,
                                    inputs: node_input_indices(node),
                                },
                            );
                        }
                    }
                },
                _ => {},
            }
        }
        let sizes = self.num_vars_lookup_op(op);
        let input_len = sizes[0];
        self.conf_lookup(node, input_len, vars, regions, tables, registry)
    }
}

/// The producing node index of each input edge, as a vector.
pub fn node_input_indices(node: &Node) -> (r: Vec<usize>)
    ensures
        r@ == crate::fuse::deps_of(*node),
{
    let mut r: Vec<usize> = Vec::new();
    let mut e: usize = 0;
    while e < node.inputs.len()
        invariant
            e <= node.inputs@.len(),
            r@.len() == e,
            forall|j: int| 0 <= j < e ==> r@[j] == node.inputs@[j].node,
        decreases node.inputs@.len() - e,
    {
        r.push(node.inputs[e].node);
        e = e + 1;
    }
    proof {
        assert(r@ =~= crate::fuse::deps_of(*node));
    }
    r
}

} // verus!
