use bismillah::graph::{
    node_step, topological_sort, GraphConfig, GraphError, GraphNode, ModelPlan, NodeParams, NodeStep,
    ParamInit,
};
use bismillah::metadata::model_metadata;
use bismillah::topo::kahn_order;

fn node(name: &str, op: &str, inputs: &[&str], params: Option<NodeParams>) -> GraphNode {
    GraphNode {
        name: name.to_string(),
        op: Some(op.to_string()),
        inputs: Some(inputs.iter().map(|s| s.to_string()).collect()),
        inputs_cut: false,
        params,
    }
}

fn linear(i: u64, o: u64) -> Option<NodeParams> {
    Some(NodeParams { in_features: Some(i), out_features: Some(o), normalized_shape: None, shape: None })
}

fn strings(v: &[&str]) -> Vec<String> {
    v.iter().map(|s| s.to_string()).collect()
}

fn position(order: &[String], name: &str) -> usize {
    order.iter().position(|s| s == name).unwrap()
}

fn mlp_config() -> GraphConfig {
    GraphConfig {
        nodes: Some(vec![
            node("act", "ReLU", &["fc1"], None),
            node("fc1", "Linear", &["x"], linear(4, 8)),
            node("fc2", "Linear", &["act"], linear(8, 2)),
        ]),
        inputs: Some(strings(&["x"])),
        output_node: Some(Some("fc2".to_string())),
    }
}

#[test]
fn kahn_orders_predecessors_first() {
    // 0 <- 1 <- 2, and 3 reads 0 and 2.
    let preds = vec![vec![1], vec![2], vec![], vec![0, 2]];
    let (order, _) = kahn_order(&preds);
    let order = order.unwrap();
    assert_eq!(order.len(), 4);
    let pos = |x: usize| order.iter().position(|&y| y == x).unwrap();
    assert!(pos(2) < pos(1));
    assert!(pos(1) < pos(0));
    assert!(pos(0) < pos(3));
    assert!(pos(2) < pos(3));
}

#[test]
fn kahn_reports_a_cycle() {
    let preds = vec![vec![1], vec![0], vec![]];
    let (order, _) = kahn_order(&preds);
    assert!(order.is_none());
}

#[test]
fn topological_sort_orders_a_chain() {
    let config = mlp_config();
    let order = topological_sort(config.nodes.as_ref().unwrap(), config.inputs.as_ref().unwrap()).unwrap();
    assert_eq!(order, strings(&["fc1", "act", "fc2"]));
}

#[test]
fn topological_sort_unknown_input() {
    let nodes = vec![node("a", "ReLU", &["x"], None), node("b", "ReLU", &["ghost"], None)];
    match topological_sort(&nodes, &strings(&["x"])) {
        Err(GraphError::UnknownInput { input, node }) => {
            assert_eq!(input, "ghost");
            assert_eq!(node, "b");
        }
        other => panic!("unexpected {:?}", other),
    }
}

#[test]
fn topological_sort_cycle() {
    let nodes = vec![node("a", "ReLU", &["b"], None), node("b", "ReLU", &["a"], None)];
    match topological_sort(&nodes, &strings(&["x"])) {
        Err(e) => assert_eq!(e.message(), "Graph contains a cycle"),
        Ok(o) => panic!("unexpected order {:?}", o),
    }
}

#[test]
fn topological_sort_diamond() {
    let nodes = vec![
        node("out", "Add", &["l", "r"], None),
        node("l", "ReLU", &["x"], None),
        node("r", "Tanh", &["x"], None),
    ];
    let order = topological_sort(&nodes, &strings(&["x"])).unwrap();
    assert_eq!(order.len(), 3);
    assert!(position(&order, "l") < position(&order, "out"));
    assert!(position(&order, "r") < position(&order, "out"));
}

#[test]
fn plan_from_config_lists_parameters() {
    let plan = ModelPlan::from_config(&mlp_config()).unwrap();
    assert_eq!(plan.topo_order, strings(&["fc1", "act", "fc2"]));
    let names: Vec<&str> = plan.params.iter().map(|p| p.name.as_str()).collect();
    assert_eq!(names, vec!["fc1_w", "fc1_b", "fc2_w", "fc2_b"]);
    assert_eq!(plan.params[0].shape, vec![4, 8]);
    assert!(plan.params[0].init == ParamInit::Uniform);
    assert_eq!(plan.params[1].shape, vec![8]);
    assert!(plan.params[1].init == ParamInit::Zeros);
    assert_eq!(plan.params[2].shape, vec![8, 2]);
}

#[test]
fn plan_layer_norm_parameters() {
    let config = GraphConfig {
        nodes: Some(vec![node(
            "ln",
            "LayerNorm",
            &["x"],
            Some(NodeParams { in_features: None, out_features: None, normalized_shape: Some(3), shape: None }),
        )]),
        inputs: Some(strings(&["x"])),
        output_node: None,
    };
    let plan = ModelPlan::from_config(&config).unwrap();
    assert_eq!(plan.params.len(), 2);
    assert_eq!(plan.params[0].name, "ln_gamma");
    assert!(plan.params[0].init == ParamInit::Ones);
    assert_eq!(plan.params[1].name, "ln_beta");
    assert_eq!(plan.params[1].shape, vec![3]);
}

#[test]
fn plan_errors_and_messages() {
    let missing = GraphConfig { nodes: None, inputs: None, output_node: None };
    let e = ModelPlan::from_config(&missing).unwrap_err();
    assert_eq!(e.message(), "Graph config must have a 'nodes' object");

    let no_params = GraphConfig {
        nodes: Some(vec![node("fc", "Linear", &["x"], None)]),
        inputs: Some(strings(&["x"])),
        output_node: None,
    };
    let e = ModelPlan::from_config(&no_params).unwrap_err();
    assert_eq!(e.message(), "Node 'fc' of type 'Linear' is missing 'params'");

    let bad_param = GraphConfig {
        nodes: Some(vec![node(
            "fc",
            "Linear",
            &["x"],
            Some(NodeParams { in_features: Some(2), out_features: None, normalized_shape: None, shape: None }),
        )]),
        inputs: Some(strings(&["x"])),
        output_node: None,
    };
    let e = ModelPlan::from_config(&bad_param).unwrap_err();
    assert_eq!(e.message(), "Linear node 'fc' is missing or has invalid 'out_features'");

    let zero = GraphConfig {
        nodes: Some(vec![node("fc", "Linear", &["x"], linear(0, 3))]),
        inputs: Some(strings(&["x"])),
        output_node: None,
    };
    let e = ModelPlan::from_config(&zero).unwrap_err();
    assert_eq!(e.message(), "Linear node 'fc' cannot have zero-sized dimensions.");

    let zero_norm = GraphConfig {
        nodes: Some(vec![node(
            "ln",
            "LayerNorm",
            &["x"],
            Some(NodeParams { in_features: None, out_features: None, normalized_shape: Some(0), shape: None }),
        )]),
        inputs: Some(strings(&["x"])),
        output_node: None,
    };
    let e = ModelPlan::from_config(&zero_norm).unwrap_err();
    assert_eq!(e.message(), "LayerNorm node 'ln' cannot have a zero-sized shape.");

    let unknown = GraphConfig {
        nodes: Some(vec![node("a", "ReLU", &["y"], None)]),
        inputs: Some(strings(&["x"])),
        output_node: None,
    };
    let e = ModelPlan::from_config(&unknown).unwrap_err();
    assert_eq!(e.message(), "Input node 'y' for node 'a' not found in graph");
}

#[test]
fn parameters_checked_before_inputs() {
    // The node's parameters are refused before its unknown input is noticed.
    let config = GraphConfig {
        nodes: Some(vec![node("fc", "Linear", &["nowhere"], linear(1, 0))]),
        inputs: Some(strings(&["x"])),
        output_node: None,
    };
    let e = ModelPlan::from_config(&config).unwrap_err();
    assert_eq!(e.message(), "Linear node 'fc' cannot have zero-sized dimensions.");
}

#[test]
fn metadata_of_a_network() {
    let config = mlp_config();
    let m = model_metadata(&config, &vec![32, 8, 16, 2]);
    assert_eq!(m.model_type, "Neural Network");
    assert_eq!(m.total_layers, 3);
    assert_eq!(m.total_parameters, 58);
    assert!(m.has_linear && m.has_activation && !m.has_normalization);
    assert!(m.is_classifier && !m.is_regressor);
    assert_eq!(m.input_nodes, 1);
    assert_eq!(m.output_nodes, 1);
    assert_eq!(m.hidden_layers, 1);
    let mut types = m.layer_types.clone();
    types.sort();
    assert_eq!(types, vec![("Linear".to_string(), 2), ("ReLU".to_string(), 1)]);
}

#[test]
fn metadata_model_types() {
    let linear_only = GraphConfig {
        nodes: Some(vec![node("fc", "Linear", &["x"], linear(1, 1))]),
        inputs: Some(strings(&["x"])),
        output_node: None,
    };
    let m = model_metadata(&linear_only, &vec![1, 1]);
    assert_eq!(m.model_type, "Linear Model");
    assert!(m.is_regressor);
    assert_eq!(m.output_nodes, 0);
    assert_eq!(m.hidden_layers, 0);

    let act_only = GraphConfig {
        nodes: Some(vec![node("s", "Softmax", &["x"], None)]),
        inputs: None,
        output_node: None,
    };
    let m = model_metadata(&act_only, &vec![]);
    assert_eq!(m.model_type, "Activation Model");
    assert_eq!(m.input_nodes, 0);

    let none = GraphConfig { nodes: None, inputs: None, output_node: None };
    let m = model_metadata(&none, &vec![]);
    assert_eq!(m.model_type, "Unknown");
    assert_eq!(m.total_layers, 0);
}

#[test]
fn building_stops_where_inputs_are_missing() {
    let no_graph_inputs = GraphConfig {
        nodes: Some(vec![node("a", "ReLU", &["x"], None)]),
        inputs: None,
        output_node: None,
    };
    assert!(!ModelPlan::orderable(&no_graph_inputs));
    assert!(ModelPlan::build(&no_graph_inputs).is_none());

    // Parameters are refused before the inputs are read.
    let bad_params = GraphConfig {
        nodes: Some(vec![node("fc", "Linear", &["x"], None)]),
        inputs: None,
        output_node: None,
    };
    assert!(ModelPlan::orderable(&bad_params));
    let e = ModelPlan::build(&bad_params).unwrap().unwrap_err();
    assert_eq!(e.message(), "Node 'fc' of type 'Linear' is missing 'params'");

    let mut no_list = node("b", "ReLU", &[], None);
    no_list.inputs = None;
    let reached = GraphConfig {
        nodes: Some(vec![node("a", "ReLU", &["x"], None), no_list]),
        inputs: Some(strings(&["x"])),
        output_node: None,
    };
    assert!(ModelPlan::build(&reached).is_none());

    // An unknown input before the node stops the ordering first.
    let mut no_list = node("b", "ReLU", &[], None);
    no_list.inputs = None;
    let stopped = GraphConfig {
        nodes: Some(vec![node("a", "ReLU", &["ghost"], None), no_list]),
        inputs: Some(strings(&["x"])),
        output_node: None,
    };
    let e = ModelPlan::build(&stopped).unwrap().unwrap_err();
    assert_eq!(e.message(), "Input node 'ghost' for node 'a' not found in graph");

    let plan = ModelPlan::build(&mlp_config()).unwrap().unwrap();
    assert_eq!(plan.topo_order, strings(&["fc1", "act", "fc2"]));
}

#[test]
fn nodes_run_the_step_their_op_names() {
    use_step(&node("fc", "Linear", &["x"], linear(2, 3)), "Linear fc_w fc_b");
    use_step(&node("ln", "LayerNorm", &["x"], None), "LayerNorm ln_gamma ln_beta");
    use_step(&node("r", "ReLU", &["x"], None), "ReLU");
    use_step(&node("m", "MatMul", &["x", "y"], None), "MatMul");
    use_step(
        &node(
            "rs",
            "Reshape",
            &["x"],
            Some(NodeParams { in_features: None, out_features: None, normalized_shape: None, shape: Some(vec![2, 2]) }),
        ),
        "Reshape [2, 2]",
    );
    use_step(&node("rs", "Reshape", &["x"], None), "Reshape none");
    use_step(&node("q", "Quantum", &["x"], None), "Unknown");
}

fn use_step(n: &GraphNode, expected: &str) {
    let described = match node_step(n) {
        NodeStep::Linear { weight, bias } => format!("Linear {} {}", weight, bias),
        NodeStep::LayerNorm { gamma, beta } => format!("LayerNorm {} {}", gamma, beta),
        NodeStep::ReLU => "ReLU".to_string(),
        NodeStep::MatMul => "MatMul".to_string(),
        NodeStep::Reshape(Some(s)) => format!("Reshape {:?}", s),
        NodeStep::Reshape(None) => "Reshape none".to_string(),
        NodeStep::Unknown => "Unknown".to_string(),
        _ => "other".to_string(),
    };
    assert_eq!(described, expected);
}

#[test]
fn inputs_are_read_up_to_an_element_that_is_not_a_string() {
    // ["ghost", 5]: the unknown input is read first.
    let mut unknown_first = node("a", "ReLU", &["ghost"], None);
    unknown_first.inputs_cut = true;
    let config = GraphConfig {
        nodes: Some(vec![unknown_first]),
        inputs: Some(strings(&["x"])),
        output_node: None,
    };
    let e = ModelPlan::build(&config).unwrap().unwrap_err();
    assert_eq!(e.message(), "Input node 'ghost' for node 'a' not found in graph");

    // [5, "ghost"]: the element that is not a string is read first.
    let mut cut_first = node("a", "ReLU", &[], None);
    cut_first.inputs_cut = true;
    let config = GraphConfig {
        nodes: Some(vec![cut_first]),
        inputs: Some(strings(&["x"])),
        output_node: None,
    };
    assert!(!ModelPlan::orderable(&config));
    assert!(ModelPlan::build(&config).is_none());

    // ["x", 5] with every string known.
    let mut known_then_cut = node("a", "ReLU", &["x"], None);
    known_then_cut.inputs_cut = true;
    let config = GraphConfig {
        nodes: Some(vec![known_then_cut]),
        inputs: Some(strings(&["x"])),
        output_node: None,
    };
    assert!(ModelPlan::build(&config).is_none());
}
