use zkgraph::config::NodeConfig;
use zkgraph::config::PolyInputRef;
use zkgraph::eval::apply_lookup;
use zkgraph::eval::apply_poly;
use zkgraph::eval::unpack;
use zkgraph::model::Mode;
use zkgraph::model::Model;
use zkgraph::model::RunArgs;
use zkgraph::node::GraphError;
use zkgraph::node::Node;
use zkgraph::node::NodeGraph;
use zkgraph::node::Outlet;
use zkgraph::ops::LookupOp;
use zkgraph::ops::OpKind;
use zkgraph::ops::PolyOp;
use zkgraph::tensor::Tensor;
use zkgraph::vars::ModelVars;
use zkgraph::vars::VarKind;
use zkgraph::vars::VarVisibility;
use zkgraph::vars::Visibility;

fn node(idx: usize, opkind: OpKind, deps: &[usize], out_dims: &[usize]) -> Node {
    Node {
        idx,
        opkind,
        inputs: deps.iter().map(|d| Outlet { node: *d, slot: 0 }).collect(),
        in_dims: vec![out_dims.to_vec()],
        out_dims: out_dims.to_vec(),
        out_scale: 0,
        const_value: None,
        bucket: None,
    }
}

fn const_node(idx: usize, vals: &[i128]) -> Node {
    let mut n = node(idx, OpKind::Const, &[], &[vals.len()]);
    n.const_value = Some(Tensor { dims: vec![vals.len()], inner: vals.to_vec() });
    n
}

fn run_args(pack_base: u32, single_lookup: bool) -> RunArgs {
    RunArgs { scale: 0, bits: 8, tolerance: 0, pack_base, single_lookup }
}

fn visibility(output_public: bool) -> VarVisibility {
    VarVisibility {
        input: Visibility::Private,
        params: Visibility::Private,
        output: if output_public { Visibility::Public } else { Visibility::Private },
    }
}

fn model_from(nodes: Vec<Node>, inputs: Vec<usize>, outputs: Vec<usize>, args: RunArgs, vis: VarVisibility) -> Model {
    let graph = Model::assign_execution_buckets(nodes).expect("scheduling");
    Model { nodes: graph, run_args: args, mode: Mode::Mock, visibility: vis, inputs, outputs }
}

fn scenario_nodes() -> Vec<Node> {
    // Input(0) -> Poly(Add) with Const(1) -> Lookup(ReLU)
    vec![
        node(0, OpKind::Input, &[], &[1]),
        const_node(1, &[5]),
        node(2, OpKind::Poly(PolyOp::Add), &[0, 1], &[1]),
        node(3, OpKind::Lookup(LookupOp::ReLU), &[2], &[1]),
    ]
}

#[test]
fn bucket_assignment_scenario() {
    let graph = Model::assign_execution_buckets(scenario_nodes()).expect("scheduling");
    assert_eq!(graph.nodes[0].bucket, Some(0));
    assert_eq!(graph.nodes[1].bucket, None);
    assert_eq!(graph.nodes[2].bucket, Some(0));
    assert_eq!(graph.nodes[3].bucket, Some(1));
}

#[test]
fn lookup_after_lookup_advances_bucket() {
    let nodes = vec![
        node(0, OpKind::Input, &[], &[2]),
        node(1, OpKind::Lookup(LookupOp::ReLU), &[0], &[2]),
        node(2, OpKind::Lookup(LookupOp::Abs), &[1], &[2]),
        node(3, OpKind::Poly(PolyOp::Add), &[2, 2], &[2]),
    ];
    let graph = Model::assign_execution_buckets(nodes).expect("scheduling");
    assert_eq!(graph.nodes[1].bucket, Some(1));
    assert_eq!(graph.nodes[2].bucket, Some(2));
    assert_eq!(graph.nodes[3].bucket, Some(2));
}

#[test]
fn missing_node_failure() {
    // Node 5 references node 7, which has a greater index.
    let mut nodes: Vec<Node> = (0..5).map(|i| node(i, OpKind::Input, &[], &[1])).collect();
    nodes.push(node(5, OpKind::Poly(PolyOp::Add), &[7], &[1]));
    let r = Model::assign_execution_buckets(nodes);
    match r {
        Err(GraphError::MissingNode(7)) => {}
        other => panic!("expected MissingNode(7), got {:?}", other),
    }
}

#[test]
fn unknown_kind_is_rejected() {
    let nodes = vec![node(0, OpKind::Unknown, &[], &[1])];
    let r = Model::assign_execution_buckets(nodes);
    match r {
        Err(GraphError::WrongMethod(0, OpKind::Unknown)) => {}
        other => panic!("expected WrongMethod, got {:?}", other),
    }
}

fn pool() -> ModelVars {
    ModelVars { num_advices: 16, num_fixed: 16, num_instances: 16 }
}

#[test]
fn fusion_two_externals() {
    // {A -> C, B -> C}: two Input references, zero Inter references.
    let nodes = vec![
        node(0, OpKind::Input, &[], &[2]),
        node(1, OpKind::Input, &[], &[2]),
        node(2, OpKind::Poly(PolyOp::Add), &[0, 1], &[2]),
    ];
    let m = model_from(nodes, vec![0, 1], vec![2], run_args(1, false), visibility(false));
    let mc = m.configure(&pool()).expect("configure");
    match &mc.configs[2] {
        Some(NodeConfig::Poly { region, inputs }) => {
            assert_eq!(inputs, &vec![0usize, 1]);
            assert_eq!(region.nodes.len(), 1);
            assert_eq!(
                region.nodes[0].input_order,
                vec![PolyInputRef::Input(0), PolyInputRef::Input(1)]
            );
            assert_eq!(region.inputs.len(), 2);
            assert!(matches!(region.inputs[0].kind, VarKind::Advice));
            assert_eq!(region.output.index, 2);
        }
        other => panic!("expected fused Poly config, got {:?}", other),
    }
}

#[test]
fn fusion_chain_uses_inter() {
    // {A -> B -> C} fused in one bucket: B's reference to A is Inter.
    let nodes = vec![
        node(0, OpKind::Input, &[], &[2]),
        node(1, OpKind::Poly(PolyOp::Add), &[0, 0], &[2]),
        node(2, OpKind::Poly(PolyOp::Mult), &[1, 1], &[2]),
        node(3, OpKind::Poly(PolyOp::Add), &[2, 0], &[2]),
    ];
    let m = model_from(nodes, vec![0], vec![3], run_args(1, false), visibility(false));
    let mc = m.configure(&pool()).expect("configure");
    match &mc.configs[3] {
        Some(NodeConfig::Poly { region, inputs }) => {
            assert_eq!(inputs, &vec![0usize]);
            assert_eq!(region.nodes.len(), 3);
            assert_eq!(
                region.nodes[0].input_order,
                vec![PolyInputRef::Input(0), PolyInputRef::Input(0)]
            );
            // Node 2 reads member 1's intermediate twice; node 3 reads
            // member 2's intermediate and the external input.
            assert_eq!(
                region.nodes[1].input_order,
                vec![PolyInputRef::Inter(0), PolyInputRef::Inter(0)]
            );
            assert_eq!(
                region.nodes[2].input_order,
                vec![PolyInputRef::Inter(1), PolyInputRef::Input(0)]
            );
        }
        other => panic!("expected fused Poly config, got {:?}", other),
    }
    assert!(mc.configs[1].is_none());
    assert!(mc.configs[2].is_none());
}

#[test]
fn lookup_table_content_dedup() {
    // Two lookup nodes with the same operator share one table, not one
    // region.
    let nodes = vec![
        node(0, OpKind::Input, &[], &[2]),
        node(1, OpKind::Lookup(LookupOp::ReLU), &[0], &[2]),
        node(2, OpKind::Lookup(LookupOp::ReLU), &[1], &[2]),
    ];
    let m = model_from(nodes, vec![0], vec![2], run_args(1, false), visibility(false));
    let mc = m.configure(&pool()).expect("configure");
    let (r1, r2) = match (&mc.configs[1], &mc.configs[2]) {
        (
            Some(NodeConfig::Lookup { region: r1, .. }),
            Some(NodeConfig::Lookup { region: r2, .. }),
        ) => (*r1, *r2),
        other => panic!("expected two lookup configs, got {:?}", other),
    };
    assert_ne!(r1, r2);
    assert_eq!(mc.regions[r1].table, mc.regions[r2].table);
    assert_eq!(mc.tables.len(), 1);
    assert_eq!(mc.tables[0].nonlinearities, vec![LookupOp::ReLU]);
}

#[test]
fn lookup_column_reuse() {
    // With the single-lookup switch on, the later node's region is
    // exactly the earlier node's region.
    let nodes = vec![
        node(0, OpKind::Input, &[], &[2]),
        node(1, OpKind::Lookup(LookupOp::ReLU), &[0], &[2]),
        node(2, OpKind::Lookup(LookupOp::ReLU), &[1], &[2]),
    ];
    let m = model_from(nodes, vec![0], vec![2], run_args(1, true), visibility(false));
    let mc = m.configure(&pool()).expect("configure");
    let (r1, r2) = match (&mc.configs[1], &mc.configs[2]) {
        (
            Some(NodeConfig::Lookup { region: r1, .. }),
            Some(NodeConfig::Lookup { region: r2, .. }),
        ) => (*r1, *r2),
        other => panic!("expected two lookup configs, got {:?}", other),
    };
    assert_eq!(r1, r2);
    assert_eq!(mc.regions.len(), 1);
}

#[test]
fn no_packing_when_base_is_one() {
    let m = model_from(scenario_nodes(), vec![0], vec![3], run_args(1, false), visibility(true));
    let mc = m.configure(&pool()).expect("configure");
    assert_eq!(mc.packed_outputs.len(), 0);
    assert_eq!(mc.range_checks.len(), 1);
    assert_eq!(mc.range_checks[0].input.dims, vec![1]);
}

#[test]
fn packing_regions_when_base_above_one() {
    let m = model_from(scenario_nodes(), vec![0], vec![3], run_args(4, false), visibility(true));
    let mc = m.configure(&pool()).expect("configure");
    assert_eq!(mc.packed_outputs.len(), 1);
    assert_eq!(mc.packed_outputs[0].nodes.len(), 1);
    assert!(matches!(mc.packed_outputs[0].nodes[0].op, PolyOp::Pack(4, 0)));
    assert_eq!(mc.range_checks.len(), 1);
    assert_eq!(mc.range_checks[0].input.dims, vec![1]);
}

#[test]
fn private_output_skips_post_processing() {
    let m = model_from(scenario_nodes(), vec![0], vec![3], run_args(4, false), visibility(false));
    let mc = m.configure(&pool()).expect("configure");
    assert_eq!(mc.packed_outputs.len(), 0);
    assert_eq!(mc.range_checks.len(), 0);
}

#[test]
fn pack_round_trip() {
    let t = Tensor { dims: vec![3], inner: vec![2, 1, 0] };
    let packed = apply_poly(PolyOp::Pack(3, 0), &vec![t]).expect("pack");
    assert_eq!(packed.dims, vec![1]);
    assert_eq!(packed.inner, vec![2 + 3 * 1 + 9 * 0]);
    let digits = unpack(packed.inner[0], 3, 3);
    assert_eq!(digits, vec![2, 1, 0]);
}

#[test]
fn pack_round_trip_larger_base() {
    let t = Tensor { dims: vec![4], inner: vec![7, 0, 9, 3] };
    let packed = apply_poly(PolyOp::Pack(10, 0), &vec![t]).expect("pack");
    assert_eq!(packed.inner, vec![7 + 9 * 100 + 3 * 1000]);
    let digits = unpack(packed.inner[0], 10, 4);
    assert_eq!(digits, vec![7, 0, 9, 3]);
}

#[test]
fn lookup_ops_elementwise() {
    let t = Tensor { dims: vec![4], inner: vec![-3, 0, 5, -1] };
    let relu = apply_lookup(LookupOp::ReLU, &t).expect("relu");
    assert_eq!(relu.inner, vec![0, 0, 5, 0]);
    let abs = apply_lookup(LookupOp::Abs, &t).expect("abs");
    assert_eq!(abs.inner, vec![3, 0, 5, 1]);
}

#[test]
fn abs_overflow_is_reported() {
    let t = Tensor { dims: vec![1], inner: vec![i128::MIN] };
    match apply_lookup(LookupOp::Abs, &t) {
        Err(GraphError::Overflow) => {}
        other => panic!("expected Overflow, got {:?}", other),
    }
}

#[test]
fn add_overflow_is_reported() {
    let a = Tensor { dims: vec![1], inner: vec![i128::MAX] };
    let b = Tensor { dims: vec![1], inner: vec![1] };
    match apply_poly(PolyOp::Add, &vec![a, b]) {
        Err(GraphError::Overflow) => {}
        other => panic!("expected Overflow, got {:?}", other),
    }
}

#[test]
fn mismatched_shapes_are_reported() {
    let a = Tensor { dims: vec![2], inner: vec![1, 2] };
    let b = Tensor { dims: vec![3], inner: vec![1, 2, 3] };
    match apply_poly(PolyOp::Add, &vec![a, b]) {
        Err(GraphError::InvalidDims) => {}
        other => panic!("expected InvalidDims, got {:?}", other),
    }
}

#[test]
fn forward_scenario_values() {
    let m = model_from(scenario_nodes(), vec![0], vec![3], run_args(1, false), visibility(false));
    let neg = m.forward(&vec![Tensor { dims: vec![1], inner: vec![-10] }]).expect("forward");
    assert_eq!(neg[0].inner, vec![0]);
    let pos = m.forward(&vec![Tensor { dims: vec![1], inner: vec![7] }]).expect("forward");
    assert_eq!(pos[0].inner, vec![12]);
}

#[test]
fn layout_matches_forward() {
    let m = model_from(scenario_nodes(), vec![0], vec![3], run_args(1, false), visibility(true));
    let mc = m.configure(&pool()).expect("configure");
    let inputs = vec![Tensor { dims: vec![1], inner: vec![7] }];
    let instances = vec![Tensor { dims: vec![1], inner: vec![12] }];
    let outcome = m.layout(&mc, &inputs, &instances).expect("layout");
    assert_eq!(outcome.outputs.len(), 1);
    assert_eq!(outcome.outputs[0].inner, vec![12]);
    assert_eq!(outcome.checks, vec![true]);
}

#[test]
fn layout_range_check_fails_outside_tolerance() {
    let m = model_from(scenario_nodes(), vec![0], vec![3], run_args(1, false), visibility(true));
    let mc = m.configure(&pool()).expect("configure");
    let inputs = vec![Tensor { dims: vec![1], inner: vec![7] }];
    let instances = vec![Tensor { dims: vec![1], inner: vec![13] }];
    let outcome = m.layout(&mc, &inputs, &instances).expect("layout");
    assert_eq!(outcome.checks, vec![false]);
}

#[test]
fn layout_packs_public_outputs() {
    // Two-element output packed in radix 10: 4 + 10 * 7.
    let nodes = vec![
        node(0, OpKind::Input, &[], &[2]),
        node(1, OpKind::Poly(PolyOp::Add), &[0, 0], &[2]),
    ];
    let m = model_from(nodes, vec![0], vec![1], run_args(10, false), visibility(true));
    let mc = m.configure(&pool()).expect("configure");
    let inputs = vec![Tensor { dims: vec![2], inner: vec![2, 35] }];
    // doubled: [4, 70]; packed: 4 + 10 * 70 = 704.
    let instances = vec![Tensor { dims: vec![1], inner: vec![704] }];
    let outcome = m.layout(&mc, &inputs, &instances).expect("layout");
    assert_eq!(outcome.outputs[0].inner, vec![704]);
    assert_eq!(outcome.checks, vec![true]);
}

#[test]
fn conf_non_op_node_rejects_unknown() {
    let m = model_from(scenario_nodes(), vec![0], vec![3], run_args(1, false), visibility(false));
    let bad = node(9, OpKind::Unknown, &[], &[1]);
    match m.conf_non_op_node(&bad) {
        Err(GraphError::UnsupportedOp) => {}
        other => panic!("expected UnsupportedOp, got {:?}", other),
    }
}

#[test]
fn reuse_lookup_conf_rejects_non_lookup() {
    let m = model_from(scenario_nodes(), vec![0], vec![3], run_args(1, true), visibility(false));
    let bad = node(9, OpKind::Poly(PolyOp::Add), &[], &[1]);
    let configs: Vec<Option<NodeConfig>> = Vec::new();
    let mut regions = Vec::new();
    let mut tables = Vec::new();
    let mut registry = Vec::new();
    match m.reuse_lookup_conf(9, &bad, &configs, &pool(), &mut regions, &mut tables, &mut registry)
    {
        Err(GraphError::OpMismatch(9, OpKind::Poly(PolyOp::Add))) => {}
        other => panic!("expected OpMismatch, got {:?}", other),
    }
}

#[test]
fn tensor_new_checks_shape() {
    assert!(Tensor::new(vec![2, 3], vec![0; 6]).is_some());
    assert!(Tensor::new(vec![2, 3], vec![0; 5]).is_none());
    assert!(Tensor::new(vec![0, 3], vec![]).is_some());
}

#[test]
fn sizing_queries() {
    let m = model_from(scenario_nodes(), vec![0], vec![3], run_args(1, false), visibility(false));
    assert_eq!(m.num_inputs(), 1);
    assert_eq!(m.num_outputs(), 1);
    assert_eq!(m.input_shapes(), vec![vec![1]]);
    assert_eq!(m.output_shapes(), vec![vec![1]]);
    assert_eq!(m.get_output_scales(), vec![0]);
    // The fused bucket has two externals (input and constant) plus the
    // group output; the lookup layers need two unit columns.
    assert_eq!(m.max_vars_and_params_poly(), vec![1, 1, 1]);
    assert_eq!(m.max_vars_poly(), vec![1, 1]);
    assert_eq!(m.max_params_poly(), vec![1]);
    assert_eq!(m.num_vars_lookup_op(LookupOp::ReLU), vec![1, 1]);
    assert_eq!(m.num_vars_lookup(), vec![1, 1]);
    assert_eq!(m.max_vars_lookup(), vec![1, 1]);
    assert_eq!(m.advice_shapes(), vec![1, 1, 1]);
    assert_eq!(m.fixed_shapes(), Vec::<usize>::new());
}

#[test]
fn instance_shapes_follow_visibility() {
    let vis = VarVisibility {
        input: Visibility::Public,
        params: Visibility::Private,
        output: Visibility::Public,
    };
    let m = model_from(scenario_nodes(), vec![0], vec![3], run_args(1, false), vis);
    assert_eq!(m.instance_shapes(), vec![vec![1], vec![1]]);
    let m2 = model_from(scenario_nodes(), vec![0], vec![3], run_args(1, false), visibility(false));
    assert_eq!(m2.instance_shapes(), Vec::<Vec<usize>>::new());
}

#[test]
fn configure_twice_is_identical() {
    // Idempotence at the observable level: compiling the same graph twice
    // yields structurally identical configurations.
    let m = model_from(scenario_nodes(), vec![0], vec![3], run_args(4, false), visibility(true));
    let mc1 = m.configure(&pool()).expect("configure");
    let mc2 = m.configure(&pool()).expect("configure");
    assert_eq!(format!("{:?}", mc1), format!("{:?}", mc2));
}

#[test]
fn lookup_with_two_inputs_is_invalid() {
    let m = model_from(scenario_nodes(), vec![0], vec![3], run_args(1, false), visibility(false));
    let mc = m.configure(&pool()).expect("configure");
    let bad_entry = NodeConfig::Lookup { region: 0, inputs: vec![0, 1] };
    let results: Vec<Option<Tensor>> = vec![
        Some(Tensor { dims: vec![1], inner: vec![1] }),
        Some(Tensor { dims: vec![1], inner: vec![2] }),
    ];
    match m.layout_config(&bad_entry, &results, &mc) {
        Err(GraphError::InvalidLookupInputs) => {}
        other => panic!("expected InvalidLookupInputs, got {:?}", other),
    }
}

#[test]
fn graph_lookup_by_index() {
    let graph: NodeGraph = Model::assign_execution_buckets(scenario_nodes()).expect("scheduling");
    let n = graph.filter(2).expect("node 2");
    assert!(matches!(n.opkind, OpKind::Poly(PolyOp::Add)));
    assert_eq!(n.bucket, Some(0));
    assert!(graph.filter(9).is_none());
}

#[test]
fn forward_without_inputs_fails() {
    let m = model_from(scenario_nodes(), vec![0], vec![3], run_args(1, false), visibility(false));
    match m.forward(&Vec::new()) {
        Err(GraphError::MissingNode(0)) => {}
        other => panic!("expected MissingNode(0), got {:?}", other),
    }
}

#[test]
fn public_inputs_bind_to_instances() {
    // With inputs public, consumers read the committed instance, not the
    // raw witness tensor: the witness value 7 is ignored in favor of the
    // instance value 100.
    let vis = VarVisibility {
        input: Visibility::Public,
        params: Visibility::Private,
        output: Visibility::Public,
    };
    let m = model_from(scenario_nodes(), vec![0], vec![3], run_args(1, false), vis);
    let mc = m.configure(&pool()).expect("configure");
    let inputs = vec![Tensor { dims: vec![1], inner: vec![7] }];
    let instances = vec![
        Tensor { dims: vec![1], inner: vec![100] },
        Tensor { dims: vec![1], inner: vec![105] },
    ];
    let outcome = m.layout(&mc, &inputs, &instances).expect("layout");
    assert_eq!(outcome.outputs[0].inner, vec![105]);
    assert_eq!(outcome.checks, vec![true]);
}

#[test]
fn private_inputs_bind_to_witness() {
    // With inputs private, the raw witness tensor feeds the consumers and
    // never routes through an instance column.
    let m = model_from(scenario_nodes(), vec![0], vec![3], run_args(1, false), visibility(true));
    let mc = m.configure(&pool()).expect("configure");
    let inputs = vec![Tensor { dims: vec![1], inner: vec![7] }];
    let instances = vec![Tensor { dims: vec![1], inner: vec![12] }];
    let outcome = m.layout(&mc, &inputs, &instances).expect("layout");
    assert_eq!(outcome.outputs[0].inner, vec![12]);
    assert_eq!(outcome.checks, vec![true]);
}

#[test]
fn constant_routes_by_params_visibility() {
    // The fused constant's column comes from the fixed pool exactly when
    // parameters are public.
    let vis_pub = VarVisibility {
        input: Visibility::Private,
        params: Visibility::Public,
        output: Visibility::Private,
    };
    let m = model_from(scenario_nodes(), vec![0], vec![3], run_args(1, false), vis_pub);
    let mc = m.configure(&pool()).expect("configure");
    match &mc.configs[2] {
        Some(NodeConfig::Poly { region, inputs }) => {
            assert_eq!(inputs, &vec![0usize, 1]);
            assert!(matches!(region.inputs[0].kind, VarKind::Advice));
            assert!(matches!(region.inputs[1].kind, VarKind::Fixed));
            assert_eq!(region.inputs[1].index, 0);
        }
        other => panic!("expected fused Poly config, got {:?}", other),
    }
    let m2 = model_from(scenario_nodes(), vec![0], vec![3], run_args(1, false), visibility(false));
    let mc2 = m2.configure(&pool()).expect("configure");
    match &mc2.configs[2] {
        Some(NodeConfig::Poly { region, .. }) => {
            assert!(matches!(region.inputs[1].kind, VarKind::Advice));
            assert_eq!(region.inputs[1].index, 1);
        }
        other => panic!("expected fused Poly config, got {:?}", other),
    }
}

#[test]
fn fused_group_lays_out_end_to_end() {
    // A fused group with a repeated intra-group reference (node 2 reads
    // node 1 twice) and a skipping one (node 3 reaches past node 2's
    // intermediate back to node 1): configure, then lay the region out,
    // and the witness must match the plain forward evaluation.
    let nodes = vec![
        node(0, OpKind::Input, &[], &[1]),
        node(1, OpKind::Poly(PolyOp::Add), &[0, 0], &[1]),
        node(2, OpKind::Poly(PolyOp::Mult), &[1, 1], &[1]),
        node(3, OpKind::Poly(PolyOp::Add), &[2, 1], &[1]),
    ];
    let m = model_from(nodes, vec![0], vec![3], run_args(1, false), visibility(true));
    let mc = m.configure(&pool()).expect("configure");
    match &mc.configs[3] {
        Some(NodeConfig::Poly { region, .. }) => {
            assert_eq!(
                region.nodes[0].input_order,
                vec![PolyInputRef::Input(0), PolyInputRef::Input(0)]
            );
            assert_eq!(
                region.nodes[1].input_order,
                vec![PolyInputRef::Inter(0), PolyInputRef::Inter(0)]
            );
            assert_eq!(
                region.nodes[2].input_order,
                vec![PolyInputRef::Inter(1), PolyInputRef::Inter(0)]
            );
        }
        other => panic!("expected fused Poly config, got {:?}", other),
    }
    // x = 3: node 1 = 6, node 2 = 36, node 3 = 42.
    let inputs = vec![Tensor { dims: vec![1], inner: vec![3] }];
    let instances = vec![Tensor { dims: vec![1], inner: vec![42] }];
    let outcome = m.layout(&mc, &inputs, &instances).expect("layout");
    assert_eq!(outcome.outputs[0].inner, vec![42]);
    assert_eq!(outcome.checks, vec![true]);
    let fwd = m.forward(&inputs).expect("forward");
    assert_eq!(fwd[0].inner, vec![42]);
}
