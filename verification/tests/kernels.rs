use wonnx::compiler::{compile, CompileError, CompiledKernel, ContextValue};
use wonnx::model::{AttributeProto, AttributeValue, NodeProto, ShapeTable};
use wonnx::text::sanitize;

fn s(x: &str) -> String {
    x.to_string()
}

fn names(xs: &[&str]) -> Vec<String> {
    xs.iter().map(|x| s(x)).collect()
}

fn op(ty: &str, inputs: &[&str], outputs: &[&str]) -> NodeProto {
    NodeProto {
        name: s(""),
        op_type: s(ty),
        input: names(inputs),
        output: names(outputs),
        attribute: Vec::new(),
    }
}

fn attr(name: &str, value: AttributeValue) -> AttributeProto {
    AttributeProto { name: s(name), value }
}

fn table(entries: &[(&str, &[u64])]) -> ShapeTable {
    let mut t = ShapeTable::new();
    for (n, d) in entries {
        t.insert(s(n), d.to_vec());
    }
    t
}

fn ctx_get<'a>(k: &'a CompiledKernel, key: &str) -> Option<&'a ContextValue> {
    let mut found = None;
    for e in &k.context {
        if e.key == key {
            found = Some(&e.value);
        }
    }
    found
}

#[test]
fn unary_dispatch() {
    let node = op("Cosh", &["i"], &["o"]);
    let shapes = table(&[("i", &[4096]), ("o", &[4096])]);
    let k = compile(&node, &shapes).unwrap();
    assert_eq!(k.template, "endomorphism/map.wgsl");
    assert_eq!((k.x, k.y, k.z), (1024, 1, 1));
    match ctx_get(&k, "op_type") {
        Some(ContextValue::Text(t)) => assert_eq!(t, "cosh"),
        _ => panic!("op_type missing"),
    }
    match ctx_get(&k, "o_len_0") {
        Some(ContextValue::UInt(l)) => assert_eq!(*l, 4096),
        _ => panic!("o_len_0 missing"),
    }
    match ctx_get(&k, "i_dims_0") {
        Some(ContextValue::UIntList(d)) => assert_eq!(d, &vec![4096]),
        _ => panic!("i_dims_0 missing"),
    }
}

#[test]
fn copy_dispatch() {
    let node = op("Reshape", &["i"], &["o"]);
    let shapes = table(&[("i", &[4096]), ("o", &[4096])]);
    let k = compile(&node, &shapes).unwrap();
    assert_eq!(k.template, "endomorphism/copy.wgsl");
    assert_eq!((k.x, k.y, k.z), (256, 1, 1));
}

#[test]
fn concat_dispatch_rounds_up() {
    let node = op("Concat", &["i", "j"], &["o"]);
    let shapes = table(&[("i", &[500]), ("j", &[500]), ("o", &[1000])]);
    let k = compile(&node, &shapes).unwrap();
    assert_eq!(k.template, "matrix/concat.wgsl");
    assert_eq!((k.x, k.y, k.z), (4, 1, 1));
}

#[test]
fn arithmetic_symbol_substituted() {
    let node = op("Mul", &["a", "b"], &["o"]);
    let shapes = table(&[("a", &[64]), ("b", &[64]), ("o", &[64])]);
    let k = compile(&node, &shapes).unwrap();
    assert_eq!(k.template, "endomorphism/arithmetic.wgsl");
    assert_eq!(k.x, 16);
    match ctx_get(&k, "op_type") {
        Some(ContextValue::Text(t)) => assert_eq!(t, "*"),
        _ => panic!("op_type missing"),
    }
}

#[test]
fn fixed_activation_dispatches_one_group() {
    let node = op("Relu", &["i"], &["o"]);
    let shapes = table(&[("i", &[4096]), ("o", &[4096])]);
    let k = compile(&node, &shapes).unwrap();
    assert_eq!(k.template, "endomorphism/activation.wgsl");
    assert_eq!((k.x, k.y, k.z), (1, 1, 1));
    assert!(ctx_get(&k, "alpha").is_none());
}

#[test]
fn parametric_activation_reads_alpha() {
    let mut node = op("Elu", &["i"], &["o"]);
    node.attribute.push(attr("alpha", AttributeValue::FloatBits(0.5f32.to_bits())));
    let shapes = table(&[("i", &[16]), ("o", &[16])]);
    let k = compile(&node, &shapes).unwrap();
    assert_eq!(k.template, "endomorphism/activation.wgsl");
    assert_eq!(k.x, 4);
    match ctx_get(&k, "alpha") {
        Some(ContextValue::FloatBits(b)) => assert_eq!(f32::from_bits(*b), 0.5),
        _ => panic!("alpha missing"),
    }
}

#[test]
fn parametric_activation_alpha_defaults_to_one() {
    let node = op("Celu", &["i"], &["o"]);
    let shapes = table(&[("i", &[16]), ("o", &[16])]);
    let k = compile(&node, &shapes).unwrap();
    match ctx_get(&k, "alpha") {
        Some(ContextValue::FloatBits(b)) => assert_eq!(f32::from_bits(*b), 1.0),
        _ => panic!("alpha missing"),
    }
}

#[test]
fn transpose_dispatch() {
    let node = op("Transpose", &["i"], &["o"]);
    let shapes = table(&[("i", &[16, 4]), ("o", &[4, 16])]);
    let k = compile(&node, &shapes).unwrap();
    assert_eq!(k.template, "matrix/transpose.wgsl");
    assert_eq!(k.x, 16);
}

#[test]
fn same_upper_pads() {
    let mut node = op("Conv", &["x", "w"], &["y"]);
    node.attribute.push(attr("auto_pad", AttributeValue::Text(s("SAME_UPPER"))));
    node.attribute.push(attr("kernel_shape", AttributeValue::Ints(vec![3, 3])));
    let shapes = table(&[("x", &[1, 16, 8, 8]), ("w", &[4, 16, 3, 3]), ("y", &[1, 4, 8, 8])]);
    let k = compile(&node, &shapes).unwrap();
    match ctx_get(&k, "pad") {
        Some(ContextValue::IntList(p)) => assert_eq!(p, &vec![1, 1, 1, 1]),
        _ => panic!("pad missing"),
    }
    // kernel 3x3, stride 1, out channels divisible by four: the
    // three-by-three fast path
    assert_eq!(k.template, "pool/conv_kernel_3.wgsl");
    assert_eq!(k.x, 1);
}

#[test]
fn same_lower_pads_swap_sides() {
    let mut node = op("MaxPool", &["x"], &["y"]);
    node.attribute.push(attr("auto_pad", AttributeValue::Text(s("SAME_LOWER"))));
    node.attribute.push(attr("kernel_shape", AttributeValue::Ints(vec![2, 2])));
    let shapes = table(&[("x", &[1, 3, 8, 8]), ("y", &[1, 3, 8, 8])]);
    let k = compile(&node, &shapes).unwrap();
    // slack one per axis: the odd unit goes to the low side
    match ctx_get(&k, "pad") {
        Some(ContextValue::IntList(p)) => assert_eq!(p, &vec![1, 1, 0, 0]),
        _ => panic!("pad missing"),
    }
    assert_eq!(k.template, "pool/aggregate.wgsl");
    assert_eq!(k.x, 1);
}

#[test]
fn conv_fast_path_boundary() {
    let mut node = op("Conv", &["x", "w"], &["y"]);
    node.attribute.push(attr("kernel_shape", AttributeValue::Ints(vec![1, 1])));
    let shapes = table(&[("x", &[1, 16, 4, 4]), ("w", &[4, 16, 1, 1]), ("y", &[1, 4, 4, 4])]);
    let k = compile(&node, &shapes).unwrap();
    assert_eq!(k.template, "pool/conv_kernel_1.wgsl");

    let mut node15 = op("Conv", &["x", "w"], &["y"]);
    node15.attribute.push(attr("kernel_shape", AttributeValue::Ints(vec![1, 1])));
    let shapes15 = table(&[("x", &[1, 15, 4, 4]), ("w", &[4, 15, 1, 1]), ("y", &[1, 4, 4, 4])]);
    let k15 = compile(&node15, &shapes15).unwrap();
    assert_eq!(k15.template, "pool/conv.wgsl");
}

#[test]
fn conv_relu_sets_fused_flag() {
    let mut node = op("ConvRelu", &["x", "w"], &["y"]);
    node.attribute.push(attr("kernel_shape", AttributeValue::Ints(vec![2, 2])));
    let shapes = table(&[("x", &[1, 3, 8, 8]), ("w", &[3, 3, 2, 2]), ("y", &[1, 3, 7, 7])]);
    let k = compile(&node, &shapes).unwrap();
    assert!(matches!(ctx_get(&k, "conv_relu"), Some(ContextValue::Bool(true))));
    assert_eq!(k.template, "pool/conv.wgsl");
    match ctx_get(&k, "kernel_channel_len") {
        Some(ContextValue::Int(v)) => assert_eq!(*v, 2 * 2 * 3),
        _ => panic!("kernel_channel_len missing"),
    }
    match ctx_get(&k, "M_x_H_x_W") {
        Some(ContextValue::UInt(v)) => assert_eq!(*v, 3 * 7 * 7),
        _ => panic!("M_x_H_x_W missing"),
    }
}

#[test]
fn gemm_single_row() {
    let node = op("MatMul", &["a", "b"], &["y"]);
    let shapes = table(&[("a", &[1, 4]), ("b", &[4, 8]), ("y", &[1, 8])]);
    let k = compile(&node, &shapes).unwrap();
    assert_eq!(k.template, "matrix/gemm_1.wgsl");
    assert_eq!(k.x, 8);
    match ctx_get(&k, "left_columns") {
        Some(ContextValue::UInt(v)) => assert_eq!(*v, 4),
        _ => panic!("left_columns missing"),
    }
    match ctx_get(&k, "right_columns") {
        Some(ContextValue::UInt(v)) => assert_eq!(*v, 8),
        _ => panic!("right_columns missing"),
    }
}

#[test]
fn gemm_tiled() {
    let node = op("Gemm", &["a", "b"], &["y"]);
    let shapes = table(&[("a", &[8, 4]), ("b", &[4, 8]), ("y", &[8, 8])]);
    let k = compile(&node, &shapes).unwrap();
    assert_eq!(k.template, "matrix/gemm.wgsl");
    assert_eq!(k.x, 4);
    match ctx_get(&k, "beta") {
        Some(ContextValue::FloatBits(b)) => assert_eq!(f32::from_bits(*b), 1.0),
        _ => panic!("beta missing"),
    }
}

#[test]
fn unimplemented_operators_fail() {
    let shapes = table(&[("i", &[16]), ("o", &[16])]);
    for ty in ["Sum", "BatchNormalization", "Frobnicate"] {
        let node = op(ty, &["i"], &["o"]);
        match compile(&node, &shapes) {
            Err(CompileError::Unimplemented(n)) => assert_eq!(n, ty),
            _ => panic!("expected an unimplemented failure for {}", ty),
        }
    }
}

#[test]
fn unknown_auto_pad_fails() {
    let mut node = op("Conv", &["x", "w"], &["y"]);
    node.attribute.push(attr("auto_pad", AttributeValue::Text(s("VALID_ISH"))));
    node.attribute.push(attr("kernel_shape", AttributeValue::Ints(vec![1, 1])));
    let shapes = table(&[("x", &[1, 16, 4, 4]), ("w", &[4, 16, 1, 1]), ("y", &[1, 4, 4, 4])]);
    match compile(&node, &shapes) {
        Err(CompileError::Unimplemented(n)) => assert_eq!(n, "VALID_ISH"),
        _ => panic!("expected an unimplemented auto_pad failure"),
    }
}

#[test]
fn missing_shape_fails() {
    let node = op("Cosh", &["i"], &["o"]);
    let shapes = table(&[("o", &[16])]);
    match compile(&node, &shapes) {
        Err(CompileError::ShapeNotFound(n)) => assert_eq!(n, "i"),
        _ => panic!("expected a missing-shape failure"),
    }
}

#[test]
fn oversize_length_fails() {
    let node = op("Cosh", &["i"], &["o"]);
    let shapes = table(&[("i", &[u64::MAX, 2]), ("o", &[16])]);
    assert!(matches!(compile(&node, &shapes), Err(CompileError::OutOfRange(_))));
}

#[test]
fn missing_kernel_shape_fails() {
    let node = op("MaxPool", &["x"], &["y"]);
    let shapes = table(&[("x", &[1, 3, 8, 8]), ("y", &[1, 3, 8, 8])]);
    match compile(&node, &shapes) {
        Err(CompileError::MissingAttribute(n)) => assert_eq!(n, "kernel_shape"),
        _ => panic!("expected a missing-attribute failure"),
    }
}

#[test]
fn wrongly_typed_alpha_fails() {
    let mut node = op("Elu", &["i"], &["o"]);
    node.attribute.push(attr("alpha", AttributeValue::Ints(vec![1])));
    let shapes = table(&[("i", &[16]), ("o", &[16])]);
    match compile(&node, &shapes) {
        Err(CompileError::InvalidAttribute(n)) => assert_eq!(n, "alpha"),
        _ => panic!("expected an invalid-attribute failure"),
    }
}

#[test]
fn non_four_dimensional_conv_fails() {
    let mut node = op("Conv", &["x", "w"], &["y"]);
    node.attribute.push(attr("kernel_shape", AttributeValue::Ints(vec![1, 1])));
    let shapes = table(&[("x", &[16, 4]), ("w", &[4, 16]), ("y", &[16, 4])]);
    assert!(matches!(compile(&node, &shapes), Err(CompileError::UnsupportedShape(_))));
}

#[test]
fn gemm_without_second_input_fails() {
    let node = op("Gemm", &["a"], &["y"]);
    let shapes = table(&[("a", &[8, 4]), ("y", &[8, 8])]);
    assert!(matches!(compile(&node, &shapes), Err(CompileError::UnsupportedShape(_))));
}

#[test]
fn sanitization_strips_illegal_characters() {
    assert_eq!(sanitize("a.b/c"), "abc");
    assert_eq!(sanitize("x(1),y:z;'\"w"), "x1yzw");
    assert_eq!(sanitize("plain_name-42"), "plain_name-42");
}

#[test]
fn sanitization_is_idempotent() {
    for name in ["a.b/c", "weird:(name);", "already_clean", ""] {
        let once = sanitize(name);
        let twice = sanitize(&once);
        assert_eq!(once, twice);
    }
}

#[test]
fn names_are_sanitized_in_context() {
    let node = op("Cosh", &["in.put/0"], &["out:put;1"]);
    let shapes = table(&[("in.put/0", &[16]), ("out:put;1", &[16])]);
    let k = compile(&node, &shapes).unwrap();
    match ctx_get(&k, "input") {
        Some(ContextValue::TextList(l)) => assert_eq!(l, &vec![s("input0")]),
        _ => panic!("input list missing"),
    }
    match ctx_get(&k, "output") {
        Some(ContextValue::TextList(l)) => assert_eq!(l, &vec![s("output1")]),
        _ => panic!("output list missing"),
    }
}

#[test]
fn explicit_pads_used_verbatim() {
    let mut node = op("AveragePool", &["x"], &["y"]);
    node.attribute.push(attr("kernel_shape", AttributeValue::Ints(vec![2, 2])));
    node.attribute.push(attr("strides", AttributeValue::Ints(vec![2, 2])));
    node.attribute.push(attr("pads", AttributeValue::Ints(vec![0, 1, 2, 3])));
    let shapes = table(&[("x", &[1, 3, 8, 8]), ("y", &[1, 3, 5, 6])]);
    let k = compile(&node, &shapes).unwrap();
    match ctx_get(&k, "pad") {
        Some(ContextValue::IntList(p)) => assert_eq!(p, &vec![0, 1, 2, 3]),
        _ => panic!("pad missing"),
    }
    match ctx_get(&k, "stride") {
        Some(ContextValue::IntList(p)) => assert_eq!(p, &vec![2, 2]),
        _ => panic!("stride missing"),
    }
}

#[test]
fn missing_input_shape_reported_before_output() {
    let node = op("Cosh", &["i"], &["o"]);
    let shapes = ShapeTable::new();
    match compile(&node, &shapes) {
        Err(CompileError::ShapeNotFound(n)) => assert_eq!(n, "i"),
        _ => panic!("expected the input's missing shape first"),
    }
}
