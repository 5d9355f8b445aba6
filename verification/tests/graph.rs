use wonnx::ir::{Node, NodeDefinition};
use wonnx::ir::IrError;
use wonnx::model::{ModelProto, NodeProto, ShapeTable, TensorProto, ValueInfoProto};

fn s(x: &str) -> String {
    x.to_string()
}

fn names(xs: &[&str]) -> Vec<String> {
    xs.iter().map(|x| s(x)).collect()
}

fn op(ty: &str, inputs: &[&str], outputs: &[&str]) -> NodeProto {
    NodeProto {
        name: s(""),
        op_type: s(ty),
        input: names(inputs),
        output: names(outputs),
        attribute: Vec::new(),
    }
}

fn vi(name: &str, dims: &[u64]) -> ValueInfoProto {
    ValueInfoProto { name: s(name), shape: dims.to_vec() }
}

fn table(entries: &[(&str, &[u64])]) -> ShapeTable {
    let mut t = ShapeTable::new();
    for (n, d) in entries {
        t.insert(s(n), d.to_vec());
    }
    t
}

#[test]
fn shared_ancestor_is_one_node() {
    // b and c both consume a, which is produced by one operator.
    let model = ModelProto {
        node: vec![
            op("Exp", &["x"], &["a"]),
            op("Exp", &["a"], &["b"]),
            op("Exp", &["a"], &["c"]),
        ],
        initializer: vec![],
        input: vec![vi("x", &[4])],
        output: vec![vi("b", &[4]), vi("c", &[4])],
        value_info: vec![],
    };
    let shapes = table(&[("x", &[4]), ("a", &[4]), ("b", &[4]), ("c", &[4])]);
    let g = Node::from_model(&model, &shapes, None).unwrap();
    let root = g.get(g.len() - 1);
    assert_eq!(root.inputs.len(), 2);
    let b_node = root.inputs[0].source_node;
    let c_node = root.inputs[1].source_node;
    assert_ne!(b_node, c_node);
    let b_src = g.get(b_node).inputs[0].source_node;
    let c_src = g.get(c_node).inputs[0].source_node;
    assert_eq!(b_src, c_src);
    assert!(g.identifier(b_src) == g.identifier(c_src));
    assert!(g.identifier(b_node) != g.identifier(c_node));
    // the shared producer was built exactly once: four operator or leaf
    // nodes plus the terminal one
    assert_eq!(g.len(), 5);
}

#[test]
fn constant_propagation() {
    // c is built purely from a constant tensor; d mixes in a dynamic input.
    let model = ModelProto {
        node: vec![op("Exp", &["w"], &["c"]), op("Add", &["x", "c"], &["d"])],
        initializer: vec![TensorProto { name: s("w") }],
        input: vec![vi("x", &[4])],
        output: vec![vi("c", &[4]), vi("d", &[4])],
        value_info: vec![],
    };
    let shapes = table(&[("x", &[4]), ("c", &[4]), ("d", &[4])]);
    let g = Node::from_model(&model, &shapes, None).unwrap();
    let root = g.get(g.len() - 1);
    let c_node = root.inputs[0].source_node;
    let d_node = root.inputs[1].source_node;
    assert!(g.is_constant(c_node));
    assert!(!g.is_constant(d_node));
    // the tensor leaf itself is constant and not dynamic, while the
    // operator node is dynamic yet constant
    let w_leaf = g.get(c_node).inputs[0].source_node;
    assert!(g.is_constant(w_leaf));
    assert!(g.get(c_node).is_dynamic());
    assert!(!g.get(w_leaf).is_dynamic());
}

#[test]
fn missing_optional_input_is_sentinel() {
    let model = ModelProto {
        node: vec![op("Exp", &["nowhere"], &["y"])],
        initializer: vec![],
        input: vec![],
        output: vec![vi("y", &[4])],
        value_info: vec![],
    };
    let shapes = table(&[("y", &[4])]);
    let g = Node::from_model(&model, &shapes, None).unwrap();
    let root = g.get(g.len() - 1);
    let y_node = root.inputs[0].source_node;
    let leaf = g.get(y_node).inputs[0].source_node;
    assert!(matches!(g.get(leaf).definition, NodeDefinition::Missing));
    assert_eq!(g.get(y_node).inputs[0].output_index, 0);
}

#[test]
fn requested_output_not_found() {
    let model = ModelProto {
        node: vec![op("Exp", &["x"], &["a"])],
        initializer: vec![],
        input: vec![vi("x", &[4])],
        output: vec![vi("a", &[4])],
        value_info: vec![],
    };
    let shapes = table(&[("x", &[4]), ("a", &[4])]);
    let requested = names(&["zzz"]);
    let r = Node::from_model(&model, &shapes, Some(&requested));
    match r {
        Err(IrError::OutputNodeNotFound(n)) => assert_eq!(n, "zzz"),
        _ => panic!("expected a missing-output error"),
    }
}

#[test]
fn missing_shape_reported() {
    let model = ModelProto {
        node: vec![op("Exp", &["x"], &["a"])],
        initializer: vec![],
        input: vec![vi("x", &[4])],
        output: vec![vi("a", &[4])],
        value_info: vec![],
    };
    let shapes = table(&[("x", &[4])]);
    let r = Node::from_model(&model, &shapes, None);
    match r {
        Err(IrError::OutputNodeNotFound(n)) => assert_eq!(n, "a"),
        _ => panic!("expected a missing-shape error"),
    }
}

#[test]
fn cyclic_description_detected() {
    let model = ModelProto {
        node: vec![op("Exp", &["a"], &["a"])],
        initializer: vec![],
        input: vec![],
        output: vec![vi("a", &[4])],
        value_info: vec![],
    };
    let shapes = table(&[("a", &[4])]);
    let r = Node::from_model(&model, &shapes, None);
    assert!(matches!(r, Err(IrError::CycleDetected(_))));
}

#[test]
fn output_index_resolves_secondary_output() {
    // y2 is the producer's second output; the edge records index 1.
    let model = ModelProto {
        node: vec![op("Exp", &["x"], &["y1", "y2"]), op("Exp", &["y2"], &["z"])],
        initializer: vec![],
        input: vec![vi("x", &[4])],
        output: vec![vi("z", &[4])],
        value_info: vec![],
    };
    let shapes = table(&[("x", &[4]), ("y1", &[4]), ("y2", &[4]), ("z", &[4])]);
    let g = Node::from_model(&model, &shapes, None).unwrap();
    let root = g.get(g.len() - 1);
    let z_node = root.inputs[0].source_node;
    assert_eq!(g.get(z_node).inputs[0].output_index, 1);
}

#[test]
fn shape_table_lookup_and_override() {
    let mut t = ShapeTable::new();
    t.insert(s("a"), vec![1, 2]);
    t.insert(s("a"), vec![3]);
    t.insert(s("b"), vec![7]);
    assert_eq!(t.lookup("a"), Some(&vec![3]));
    assert_eq!(t.lookup("b"), Some(&vec![7]));
    assert_eq!(t.lookup("c"), None);
}

#[test]
fn shape_table_for_model_prefers_outputs() {
    let model = ModelProto {
        node: vec![],
        initializer: vec![],
        input: vec![],
        output: vec![vi("t", &[3]), vi("", &[9])],
        value_info: vec![vi("t", &[2]), vi("u", &[5])],
    };
    let t = ShapeTable::for_model(&model);
    assert_eq!(t.lookup("t"), Some(&vec![3]));
    assert_eq!(t.lookup("u"), Some(&vec![5]));
    assert_eq!(t.lookup(""), None);
}

#[test]
fn unique_name_is_first_output() {
    let rec = op("Exp", &["x"], &["first", "second"]);
    assert_eq!(rec.unique_name(), "first");
}

#[test]
fn definition_names() {
    let model = ModelProto {
        node: vec![op("Exp", &["x"], &["a"])],
        initializer: vec![TensorProto { name: s("w") }],
        input: vec![vi("x", &[4])],
        output: vec![vi("a", &[4])],
        value_info: vec![],
    };
    assert_eq!(NodeDefinition::Tensor(0).get_name(&model), "w");
    assert_eq!(NodeDefinition::Input(0).get_name(&model), "x");
    assert_eq!(NodeDefinition::Missing.get_name(&model), "");
    assert_eq!(NodeDefinition::Outputs { names: names(&["a"]) }.get_name(&model), " ");
    let node = wonnx::ir::Node::new(NodeDefinition::Missing);
    assert!(node.inputs.is_empty());
    assert!(!node.is_dynamic());
    assert!(matches!(node.definition(), NodeDefinition::Missing));
}
