//! Kernel compilation: maps one operator record plus the shapes of its
//! tensors to a shader template identifier, a rendering context and a
//! three-dimensional dispatch size.

use vstd::prelude::*;

use crate::groups_for;
use crate::model::{AttributeValue, NodeProto, ShapeTable};
use crate::text::{ascii_lowercase, dec_str, lowercased, sanitize, sanitized, str_eq, u64_to_string};

verus! {

/// A value of the rendering context. Real numbers are carried as 32-bit
/// float bit patterns; the compiler only moves them, never computes with
/// them.
pub enum ContextValue {
    UInt(u64),
    Int(i64),
    UIntList(Vec<u64>),
    IntList(Vec<i64>),
    Text(String),
    TextList(Vec<String>),
    Bool(bool),
    FloatBits(u32),
}

/// One key-value pair of the rendering context.
pub struct ContextEntry {
    pub key: String,
    pub value: ContextValue,
}

/// The result of compiling one operator node: the template to render, the
/// context to render it with, and the dispatch grid.
pub struct CompiledKernel {
    pub template: String,
    pub context: Vec<ContextEntry>,
    pub x: u32,
    pub y: u32,
    pub z: u32,
}

/// Kernel compilation errors.
#[derive(Debug)]
pub enum CompileError {
    /// A named tensor has no shape in the table.
    ShapeNotFound(String),
    /// The operator type, or an attribute combination such as an unknown
    /// `auto_pad` policy, is not covered by the decision table.
    Unimplemented(String),
    /// A required attribute is absent.
    MissingAttribute(String),
    /// An attribute has the wrong type, length, or an out-of-range value.
    InvalidAttribute(String),
    /// A tensor shape violates a structural precondition, such as a
    /// non-4-dimensional input to pooling or convolution.
    UnsupportedShape(String),
    /// A length, derived quantity or dispatch size exceeds its
    /// representable range.
    OutOfRange(String),
}

/// The mathematical value of a context entry.
pub enum CtxVal {
    UInt(u64),
    Int(i64),
    UIntList(Seq<u64>),
    IntList(Seq<i64>),
    Text(Seq<char>),
    TextList(Seq<Seq<char>>),
    Bool(bool),
    FloatBits(u32),
}

pub open spec fn val_view(v: ContextValue) -> CtxVal {
    match v {
        ContextValue::UInt(u) => CtxVal::UInt(u),
        ContextValue::Int(i) => CtxVal::Int(i),
        ContextValue::UIntList(l) => CtxVal::UIntList(l@),
        ContextValue::IntList(l) => CtxVal::IntList(l@),
        ContextValue::Text(s) => CtxVal::Text(s@),
        ContextValue::TextList(l) => CtxVal::TextList(l@.map_values(|x: String| x@)),
        ContextValue::Bool(b) => CtxVal::Bool(b),
        ContextValue::FloatBits(b) => CtxVal::FloatBits(b),
    }
}

/// The context as a sequence of (key, value) pairs.
pub open spec fn ctx_view(s: Seq<ContextEntry>) -> Seq<(Seq<char>, CtxVal)> {
    s.map_values(|e: ContextEntry| (e.key@, val_view(e.value)))
}

/// The flattened element count of a shape, computed front to back with the
/// running product checked against the 64-bit range at every step; `None`
/// when any prefix product exceeds it.
pub open spec fn checked_prod(dims: Seq<u64>) -> Option<int>
    decreases dims.len(),
{
    if dims.len() == 0 {
        Some(1)
    } else {
        match checked_prod(dims.drop_last()) {
            Option::None => Option::None,
            Option::Some(p) => {
                if p * dims.last() > u64::MAX {
                    Option::None
                } else {
                    Option::Some(p * dims.last())
                }
            },
        }
    }
}

/// The flattened element count of the tensor named `name`.
pub open spec fn tensor_len(shapes: ShapeTable, name: Seq<char>) -> Option<int> {
    checked_prod(shapes.shape_spec(name))
}

/// The flattened element count, or zero when it overflows.
pub open spec fn tensor_len_or0(shapes: ShapeTable, name: Seq<char>) -> int {
    match checked_prod(shapes.shape_spec(name)) {
        Option::Some(l) => l,
        Option::None => 0,
    }
}

/// The first of `names`, front to back, that has no shape in the table.
pub open spec fn first_missing(names: Seq<Seq<char>>, shapes: ShapeTable) -> Option<Seq<char>>
    decreases names.len(),
{
    if names.len() == 0 {
        Option::None
    } else if !shapes.contains_spec(names[0]) {
        Option::Some(names[0])
    } else {
        first_missing(names.drop_first(), shapes)
    }
}

/// The first of `names` whose flattened length overflows.
pub open spec fn first_oversize(names: Seq<Seq<char>>, shapes: ShapeTable) -> Option<Seq<char>>
    decreases names.len(),
{
    if names.len() == 0 {
        Option::None
    } else if tensor_len(shapes, names[0]) is None {
        Option::Some(names[0])
    } else {
        first_oversize(names.drop_first(), shapes)
    }
}

/// The views of a list of names.
pub open spec fn name_views(names: Seq<String>) -> Seq<Seq<char>> {
    names.map_values(|s: String| s@)
}

/// Positional context key: a prefix followed by a decimal index.
pub open spec fn pos_key(prefix: Seq<char>, i: int) -> Seq<char> {
    prefix + dec_str(i as nat)
}

/// The per-tensor part of the context for one name list: the shape under
/// `<prefix>dims_<i>` for each position.
pub open spec fn dims_group(
    names: Seq<Seq<char>>,
    shapes: ShapeTable,
    prefix: Seq<char>,
    n: int,
) -> Seq<(Seq<char>, CtxVal)> {
    Seq::new(n as nat, |i: int| (pos_key(prefix, i), CtxVal::UIntList(shapes.shape_spec(names[i]))))
}

/// The per-tensor length part of the context: the flattened element count
/// under `<prefix>len_<i>` for each position.
pub open spec fn lens_group(
    names: Seq<Seq<char>>,
    shapes: ShapeTable,
    prefix: Seq<char>,
    n: int,
) -> Seq<(Seq<char>, CtxVal)> {
    Seq::new(
        n as nat,
        |i: int|
            (
                pos_key(prefix, i),
                CtxVal::UInt(tensor_len_or0(shapes, names[i]) as u64),
            ),
    )
}

/// The context every operator starts from: per-tensor shapes and lengths
/// under positional keys, the sanitized input and output name lists, and
/// the operator type text (lower-cased, or an overriding symbol).
pub open spec fn base_ctx(node: NodeProto, shapes: ShapeTable, opty: Seq<char>) -> Seq<
    (Seq<char>, CtxVal),
> {
    let ins = name_views(node.input@);
    let outs = name_views(node.output@);
    dims_group(ins, shapes, "i_dims_"@, ins.len() as int) + dims_group(
        outs,
        shapes,
        "o_dims_"@,
        outs.len() as int,
    ) + lens_group(ins, shapes, "i_len_"@, ins.len() as int) + lens_group(
        outs,
        shapes,
        "o_len_"@,
        outs.len() as int,
    ) + seq![
        ("input"@, CtxVal::TextList(ins.map_values(|s: Seq<char>| sanitized(s)))),
        ("output"@, CtxVal::TextList(outs.map_values(|s: Seq<char>| sanitized(s)))),
        ("op_type"@, CtxVal::Text(opty)),
    ]
}

/// Resolves each name to its shape and flattened length. Fails with the
/// first name that has no shape, then with the first whose length
/// overflows.
fn resolve_tensors(names: &Vec<String>, shapes: &ShapeTable) -> (r: Result<
    (Vec<Vec<u64>>, Vec<u64>),
    CompileError,
>)
    requires
        shapes.wf(),
    ensures
        match r {
            Ok(p) => {
                &&& first_missing(name_views(names@), *shapes) is None
                &&& first_oversize(name_views(names@), *shapes) is None
                &&& p.0@.len() == names@.len()
                &&& p.1@.len() == names@.len()
                &&& forall|i: int|
                    0 <= i < names@.len() ==> (#[trigger] p.0@[i])@ == shapes.shape_spec(
                        names@[i]@,
                    )
                &&& forall|i: int|
                    0 <= i < names@.len() ==> tensor_len(*shapes, names@[i]@) == Some(
                        (#[trigger] p.1@[i]) as int,
                    )
            },
            Err(e) => match e {
                CompileError::ShapeNotFound(n) => first_missing(name_views(names@), *shapes)
                    == Some(n@),
                CompileError::OutOfRange(n) => first_missing(name_views(names@), *shapes) is None
                    && first_oversize(name_views(names@), *shapes) == Some(n@),
                _ => false,
            },
        },
{
    let count = names.len();
    let mut dims_list: Vec<Vec<u64>> = Vec::new();
    let mut i: usize = 0;
    proof {
        assert(name_views(names@).skip(0) =~= name_views(names@));
    }
    while i < count
        invariant
            shapes.wf(),
            count == names@.len(),
            i <= count,
            dims_list@.len() == i,
            forall|j: int|
                0 <= j < i ==> (#[trigger] dims_list@[j])@ == shapes.shape_spec(names@[j]@),
            first_missing(name_views(names@), *shapes) == first_missing(
                name_views(names@).skip(i as int),
                *shapes,
            ),
        decreases count - i,
    {
        proof {
            reveal_with_fuel(first_missing, 2);
            assert(name_views(names@).skip(i as int).drop_first() =~= name_views(names@).skip(
                i + 1,
            ));
            assert(name_views(names@).skip(i as int)[0] == names@[i as int]@);
        }
        match shapes.lookup(names[i].as_str()) {
            Some(d) => {
                dims_list.push(crate::ir::copy_dims(d));
            },
            None => {
                return Err(CompileError::ShapeNotFound(names[i].clone()));
            },
        }
        i += 1;
    }
    proof {
        reveal_with_fuel(first_missing, 1);
        assert(name_views(names@).skip(count as int) =~= Seq::<Seq<char>>::empty());
    }
    let mut lens: Vec<u64> = Vec::new();
    let mut i: usize = 0;
    proof {
        assert(name_views(names@).skip(0) =~= name_views(names@));
    }
    while i < count
        invariant
            shapes.wf(),
            count == names@.len(),
            i <= count,
            dims_list@.len() == count,
            lens@.len() == i,
            forall|j: int|
                0 <= j < count ==> (#[trigger] dims_list@[j])@ == shapes.shape_spec(names@[j]@),
            forall|j: int|
                0 <= j < i ==> tensor_len(*shapes, names@[j]@) == Some((#[trigger] lens@[j]) as int),
            first_missing(name_views(names@), *shapes) is None,
            first_oversize(name_views(names@), *shapes) == first_oversize(
                name_views(names@).skip(i as int),
                *shapes,
            ),
        decreases count - i,
    {
        proof {
            reveal_with_fuel(first_oversize, 2);
            assert(name_views(names@).skip(i as int).drop_first() =~= name_views(names@).skip(
                i + 1,
            ));
            assert(name_views(names@).skip(i as int)[0] == names@[i as int]@);
        }
        match flat_len(&dims_list[i]) {
            Some(l) => {
                lens.push(l);
            },
            None => {
                return Err(CompileError::OutOfRange(names[i].clone()));
            },
        }
        i += 1;
    }
    proof {
        reveal_with_fuel(first_oversize, 1);
        assert(name_views(names@).skip(count as int) =~= Seq::<Seq<char>>::empty());
    }
    Ok((dims_list, lens))
}

/// The flattened element count of a shape, or `None` on overflow of any
/// front-to-back prefix product.
fn flat_len(dims: &Vec<u64>) -> (r: Option<u64>)
    ensures
        match r {
            Some(l) => checked_prod(dims@) == Some(l as int),
            None => checked_prod(dims@) is None,
        },
{
    let mut acc: u64 = 1;
    let n = dims.len();
    let mut i: usize = 0;
    proof {
        assert(dims@.take(0) =~= Seq::<u64>::empty());
    }
    while i < n
        invariant
            n == dims@.len(),
            i <= n,
            checked_prod(dims@.take(i as int)) == Some(acc as int),
        decreases n - i,
    {
        proof {
            assert(dims@.take(i + 1).drop_last() =~= dims@.take(i as int));
            assert(dims@.take(i + 1).last() == dims@[i as int]);
        }
        match acc.checked_mul(dims[i]) {
            Some(next) => {
                acc = next;
            },
            None => {
                proof {
                    lemma_checked_prod_extend_none(dims@, i as int);
                }
                return None;
            },
        }
        i += 1;
    }
    proof {
        assert(dims@.take(n as int) =~= dims@);
    }
    Some(acc)
}

/// Once a prefix product overflows, the whole product is `None`.
proof fn lemma_checked_prod_extend_none(dims: Seq<u64>, i: int)
    requires
        0 <= i < dims.len(),
        checked_prod(dims.take(i + 1)) is None,
    ensures
        checked_prod(dims) is None,
    decreases dims.len() - i,
{
    if i + 1 == dims.len() {
        assert(dims.take(i + 1) =~= dims);
    } else {
        assert(dims.take(i + 2).drop_last() =~= dims.take(i + 1));
        lemma_checked_prod_extend_none(dims, i + 1);
    }
}

/// Sanitizes each name of a list.
fn sanitize_names(names: &Vec<String>) -> (r: Vec<String>)
    ensures
        r@.map_values(|s: String| s@) == name_views(names@).map_values(
            |s: Seq<char>| sanitized(s),
        ),
{
    let mut r: Vec<String> = Vec::new();
    let n = names.len();
    let mut i: usize = 0;
    while i < n
        invariant
            n == names@.len(),
            i <= n,
            r@.len() == i,
            forall|j: int| 0 <= j < i ==> (#[trigger] r@[j])@ == sanitized(names@[j]@),
        decreases n - i,
    {
        r.push(sanitize(names[i].as_str()));
        i += 1;
    }
    proof {
        assert(r@.map_values(|s: String| s@) =~= name_views(names@).map_values(
            |s: Seq<char>| sanitized(s),
        ));
    }
    r
}

/// Builds `<prefix><i>` as a key.
fn make_pos_key(prefix: &str, i: usize) -> (r: String)
    ensures
        r@ == pos_key(prefix@, i as int),
{
    let mut s = String::from_str(prefix);
    let num = u64_to_string(i as u64);
    s.append(num.as_str());
    s
}


/// Upper bound accepted for spatial attribute values (kernel extents,
/// strides, dilations, explicit pads); larger or non-positive values are
/// rejected as malformed rather than silently overflowed.
pub const SPATIAL_LIMIT: i64 = 1048576;

/// Bit pattern of the 32-bit float one, the default for `alpha` and
/// `beta`.
pub const FLOAT_ONE_BITS: u32 = 0x3F800000;

pub open spec fn is_unary_map_op(t: Seq<char>) -> bool {
    ||| t == "Abs"@
    ||| t == "Acos"@
    ||| t == "Asin"@
    ||| t == "Atan"@
    ||| t == "Ceil"@
    ||| t == "Cos"@
    ||| t == "Cosh"@
    ||| t == "Exp"@
    ||| t == "Floor"@
    ||| t == "Log"@
    ||| t == "Round"@
    ||| t == "Sign"@
    ||| t == "Sin"@
    ||| t == "Sinh"@
    ||| t == "Sqrt"@
    ||| t == "Tan"@
    ||| t == "Tanh"@
}

pub open spec fn is_copy_op(t: Seq<char>) -> bool {
    ||| t == "Reshape"@
    ||| t == "Dropout"@
    ||| t == "Flatten"@
    ||| t == "Squeeze"@
    ||| t == "Softmax"@
}

pub open spec fn is_arith_op(t: Seq<char>) -> bool {
    ||| t == "Add"@
    ||| t == "And"@
    ||| t == "Div"@
    ||| t == "Equal"@
    ||| t == "Greater"@
    ||| t == "GreaterOrEqual"@
    ||| t == "Less"@
    ||| t == "LessOrEqual"@
    ||| t == "Mod"@
    ||| t == "Mul"@
    ||| t == "Or"@
    ||| t == "Sub"@
}

/// The operator symbol substituted for an arithmetic operator's type.
pub open spec fn arith_symbol(t: Seq<char>) -> Seq<char> {
    if t == "Add"@ {
        "+"@
    } else if t == "And"@ {
        "&"@
    } else if t == "Div"@ {
        "/"@
    } else if t == "Equal"@ {
        "=="@
    } else if t == "Greater"@ {
        ">"@
    } else if t == "GreaterOrEqual"@ {
        ">="@
    } else if t == "Less"@ {
        "<"@
    } else if t == "LessOrEqual"@ {
        "<="@
    } else if t == "Mod"@ {
        "%"@
    } else if t == "Mul"@ {
        "*"@
    } else if t == "Or"@ {
        "|"@
    } else {
        "-"@
    }
}

pub open spec fn is_param_activation_op(t: Seq<char>) -> bool {
    t == "Celu"@ || t == "Elu"@
}

pub open spec fn is_fixed_activation_op(t: Seq<char>) -> bool {
    ||| t == "Relu"@
    ||| t == "Sigmoid"@
    ||| t == "Softsign"@
    ||| t == "Softplus"@
    ||| t == "Clip"@
}

pub open spec fn is_pool_op(t: Seq<char>) -> bool {
    t == "MaxPool"@ || t == "AveragePool"@
}

pub open spec fn is_conv_op(t: Seq<char>) -> bool {
    t == "Conv"@ || t == "ConvRelu"@
}

pub open spec fn is_gemm_op(t: Seq<char>) -> bool {
    t == "Gemm"@ || t == "MatMul"@
}

/// The `alpha` or `beta` attribute as float bits, defaulting to one.
pub open spec fn float_attr_bits(node: NodeProto, name: Seq<char>) -> u32 {
    match node.attr_spec(name) {
        Option::None => FLOAT_ONE_BITS,
        Option::Some(AttributeValue::FloatBits(b)) => b,
        Option::Some(_) => FLOAT_ONE_BITS,
    }
}

/// The attribute is absent or carries float bits.
pub open spec fn float_attr_ok(node: NodeProto, name: Seq<char>) -> bool {
    match node.attr_spec(name) {
        Option::None => true,
        Option::Some(AttributeValue::FloatBits(_)) => true,
        Option::Some(_) => false,
    }
}

/// An integer-list attribute with a default.
pub open spec fn ints_attr(node: NodeProto, name: Seq<char>, deflt: Seq<i64>) -> Seq<i64> {
    match node.attr_spec(name) {
        Option::None => deflt,
        Option::Some(AttributeValue::Ints(v)) => v@,
        Option::Some(_) => deflt,
    }
}

/// The `auto_pad` policy text, defaulting to `NOTSET`.
pub open spec fn autopad_text(node: NodeProto) -> Seq<char> {
    match node.attr_spec("auto_pad"@) {
        Option::None => "NOTSET"@,
        Option::Some(AttributeValue::Text(s)) => s@,
        Option::Some(_) => "NOTSET"@,
    }
}

/// Every value of the list lies in `[lo, SPATIAL_LIMIT]` and the list has
/// the expected length.
pub open spec fn ints_in_range(v: Seq<i64>, len: int, lo: i64) -> bool {
    v.len() == len && forall|i: int| 0 <= i < v.len() ==> lo <= #[trigger] v[i] <= SPATIAL_LIMIT
}

/// The spatial attributes are well-typed, well-sized and in range:
/// `kernel_shape` is required with two entries, `dilations` and `strides`
/// default to `[1, 1]`, `pads` defaults to `[0, 0, 0, 0]`, and `auto_pad`
/// is a string.
pub open spec fn spatial_attrs_ok(node: NodeProto) -> bool {
    &&& match node.attr_spec("auto_pad"@) {
        Option::None => true,
        Option::Some(AttributeValue::Text(_)) => true,
        Option::Some(_) => false,
    }
    &&& match node.attr_spec("dilations"@) {
        Option::None => true,
        Option::Some(AttributeValue::Ints(v)) => ints_in_range(v@, 2, 1),
        Option::Some(_) => false,
    }
    &&& match node.attr_spec("kernel_shape"@) {
        Option::None => false,
        Option::Some(AttributeValue::Ints(v)) => ints_in_range(v@, 2, 1),
        Option::Some(_) => false,
    }
    &&& match node.attr_spec("strides"@) {
        Option::None => true,
        Option::Some(AttributeValue::Ints(v)) => ints_in_range(v@, 2, 1),
        Option::Some(_) => false,
    }
    &&& match node.attr_spec("pads"@) {
        Option::None => true,
        Option::Some(AttributeValue::Ints(v)) => ints_in_range(v@, 4, 0),
        Option::Some(_) => false,
    }
}

/// Truncating division by two, as the padding formula uses it.
pub open spec fn tdiv2(x: int) -> int {
    if x >= 0 {
        x / 2
    } else {
        -((-x) / 2)
    }
}

/// Truncating remainder by two.
pub open spec fn tmod2(x: int) -> int {
    x - 2 * tdiv2(x)
}

/// The automatic padding of one spatial axis: the total slack
/// `(kernel - 1) * dilation + 1 - stride`, split into a half and a
/// remainder by truncating division.
pub open spec fn axis_slack(kernel: i64, stride: i64, dilation: i64) -> int {
    -stride + (kernel - 1) * dilation + 1
}

/// The four resolved pads `[low0, low1, high0, high1]` for the SAME
/// policies: SAME_UPPER puts the odd unit on the high side, SAME_LOWER on
/// the low side.
pub open spec fn same_pads(ks: Seq<i64>, ss: Seq<i64>, ds: Seq<i64>, upper: bool) -> Seq<i64> {
    let s0 = axis_slack(ks[0], ss[0], ds[0]);
    let s1 = axis_slack(ks[1], ss[1], ds[1]);
    let h0 = tdiv2(s0);
    let h1 = tdiv2(s1);
    let r0 = tmod2(s0);
    let r1 = tmod2(s1);
    if upper {
        seq![h0 as i64, h1 as i64, (h0 + r0) as i64, (h1 + r1) as i64]
    } else {
        seq![(h0 + r0) as i64, (h1 + r1) as i64, h0 as i64, h1 as i64]
    }
}

/// The pads an operator runs with: the explicit `pads` under `NOTSET`, the
/// computed ones under the SAME policies.
pub open spec fn resolved_pads(node: NodeProto) -> Seq<i64> {
    let ap = autopad_text(node);
    if ap == "NOTSET"@ {
        ints_attr(node, "pads"@, seq![0i64, 0i64, 0i64, 0i64])
    } else {
        same_pads(
            ints_attr(node, "kernel_shape"@, seq![1i64, 1i64]),
            ints_attr(node, "strides"@, seq![1i64, 1i64]),
            ints_attr(node, "dilations"@, seq![1i64, 1i64]),
            ap == "SAME_UPPER"@,
        )
    }
}

/// The derived spatial quantities fit their context types.
pub open spec fn spatial_products_fit(node: NodeProto, shapes: ShapeTable) -> bool {
    let in0 = shapes.shape_spec(node.input@[0]@);
    let out0 = shapes.shape_spec(node.output@[0]@);
    let ks = ints_attr(node, "kernel_shape"@, seq![1i64, 1i64]);
    &&& out0[1] * out0[2] <= u64::MAX
    &&& out0[1] * out0[2] * out0[3] <= u64::MAX
    &&& out0[2] * out0[3] <= u64::MAX
    &&& in0[1] * in0[2] <= u64::MAX
    &&& in0[1] * in0[2] * in0[3] <= u64::MAX
    &&& in0[2] * in0[3] <= u64::MAX
    &&& ks[0] * ks[1] * in0[1] <= i64::MAX
}

/// The extra context entries of pooling and convolution operators.
pub open spec fn spatial_extras(node: NodeProto, shapes: ShapeTable, conv: bool) -> Seq<
    (Seq<char>, CtxVal),
> {
    let in0 = shapes.shape_spec(node.input@[0]@);
    let out0 = shapes.shape_spec(node.output@[0]@);
    let ks = ints_attr(node, "kernel_shape"@, seq![1i64, 1i64]);
    let ss = ints_attr(node, "strides"@, seq![1i64, 1i64]);
    let ds = ints_attr(node, "dilations"@, seq![1i64, 1i64]);
    let shared = seq![
        ("M_x_H_x_W"@, CtxVal::UInt((out0[1] * out0[2] * out0[3]) as u64)),
        ("H_x_W"@, CtxVal::UInt((out0[2] * out0[3]) as u64)),
        ("original_C_x_H_x_W"@, CtxVal::UInt((in0[1] * in0[2] * in0[3]) as u64)),
        ("original_H_x_W"@, CtxVal::UInt((in0[2] * in0[3]) as u64)),
        ("original_width"@, CtxVal::UInt(in0[3])),
        ("width"@, CtxVal::UInt(out0[3])),
        ("original_height"@, CtxVal::UInt(in0[2])),
        ("channel"@, CtxVal::UInt(in0[1])),
        ("stride"@, CtxVal::IntList(ss)),
        ("kernel_shape"@, CtxVal::IntList(ks)),
        ("kernel_len"@, CtxVal::Int((ks[0] * ks[1]) as i64)),
        ("kernel_channel_len"@, CtxVal::Int((ks[0] * ks[1] * in0[1]) as i64)),
        ("pad"@, CtxVal::IntList(resolved_pads(node))),
        ("dilation"@, CtxVal::IntList(ds)),
    ];
    let with_dims = if conv {
        seq![
            ("output_dims"@, CtxVal::UIntList(out0)),
            ("input_dims"@, CtxVal::UIntList(in0)),
        ] + shared
    } else {
        shared
    };
    if node.op_type@ == "ConvRelu"@ {
        with_dims + seq![("conv_relu"@, CtxVal::Bool(true))]
    } else {
        with_dims
    }
}

/// The convolution template and work-group granularity: the specialized
/// one-by-one kernel, the specialized three-by-three kernel, or the
/// generic one.
pub open spec fn conv_template(node: NodeProto, shapes: ShapeTable) -> (Seq<char>, int) {
    let in0 = shapes.shape_spec(node.input@[0]@);
    let out0 = shapes.shape_spec(node.output@[0]@);
    let ks = ints_attr(node, "kernel_shape"@, seq![1i64, 1i64]);
    let ss = ints_attr(node, "strides"@, seq![1i64, 1i64]);
    let ds = ints_attr(node, "dilations"@, seq![1i64, 1i64]);
    let pads = resolved_pads(node);
    if ss == seq![1i64, 1i64] && ks == seq![1i64, 1i64] && ds == seq![1i64, 1i64] && pads
        == seq![0i64, 0i64, 0i64, 0i64] && in0[1] % 16 == 0 && out0[1] % 4 == 0 {
        ("pool/conv_kernel_1.wgsl"@, 1024int)
    } else if ss == seq![1i64, 1i64] && ks == seq![3i64, 3i64] && ds == seq![1i64, 1i64] && out0[1]
        % 4 == 0 {
        ("pool/conv_kernel_3.wgsl"@, 1024int)
    } else {
        ("pool/conv.wgsl"@, 256int)
    }
}

/// The successful outcome: the given template, dispatch `(x, 1, 1)`, and
/// the base context followed by the category's extra entries — unless `x`
/// overflows the dispatch range.
pub open spec fn ok_kernel(
    r: Result<CompiledKernel, CompileError>,
    node: NodeProto,
    shapes: ShapeTable,
    opty: Seq<char>,
    template: Seq<char>,
    x: int,
    extras: Seq<(Seq<char>, CtxVal)>,
) -> bool {
    if 0 <= x <= u32::MAX {
        r matches Ok(k) && k.template@ == template && k.x == x as u32 && k.y == 1 && k.z == 1
            && ctx_view(k.context@) == base_ctx(node, shapes, opty) + extras
    } else {
        r matches Err(e) && e is OutOfRange
    }
}

/// What `compile` returns for an operator whose tensors all resolved:
/// the decision table keyed by operator type.
pub open spec fn dispatch_post(
    node: NodeProto,
    shapes: ShapeTable,
    r: Result<CompiledKernel, CompileError>,
) -> bool {
    let t = node.op_type@;
    let low = lowercased(t);
    let no_extras = Seq::<(Seq<char>, CtxVal)>::empty();
    let len0 = tensor_len_or0(shapes, node.output@[0]@);
    if is_unary_map_op(t) {
        ok_kernel(r, node, shapes, low, "endomorphism/map.wgsl"@, len0 / 4, no_extras)
    } else if is_copy_op(t) {
        ok_kernel(r, node, shapes, low, "endomorphism/copy.wgsl"@, len0 / 16, no_extras)
    } else if is_arith_op(t) {
        ok_kernel(
            r,
            node,
            shapes,
            arith_symbol(t),
            "endomorphism/arithmetic.wgsl"@,
            len0 / 4,
            no_extras,
        )
    } else if is_param_activation_op(t) {
        if !float_attr_ok(node, "alpha"@) {
            r matches Err(CompileError::InvalidAttribute(n)) && n@ == "alpha"@
        } else {
            ok_kernel(
                r,
                node,
                shapes,
                low,
                "endomorphism/activation.wgsl"@,
                len0 / 4,
                seq![("alpha"@, CtxVal::FloatBits(float_attr_bits(node, "alpha"@)))],
            )
        }
    } else if is_fixed_activation_op(t) {
        ok_kernel(r, node, shapes, low, "endomorphism/activation.wgsl"@, 1int, no_extras)
    } else if t == "Concat"@ {
        ok_kernel(
            r,
            node,
            shapes,
            low,
            "matrix/concat.wgsl"@,
            groups_for(len0 as nat, 256),
            no_extras,
        )
    } else if t == "Transpose"@ {
        ok_kernel(r, node, shapes, low, "matrix/transpose.wgsl"@, len0 / 4, no_extras)
    } else if is_pool_op(t) || is_conv_op(t) {
        pool_conv_post(node, shapes, r)
    } else if is_gemm_op(t) {
        gemm_post(node, shapes, r)
    } else {
        r matches Err(CompileError::Unimplemented(n)) && n@ == t
    }
}

/// The pooling and convolution part of the decision table.
pub open spec fn pool_conv_post(
    node: NodeProto,
    shapes: ShapeTable,
    r: Result<CompiledKernel, CompileError>,
) -> bool {
    let t = node.op_type@;
    let low = lowercased(t);
    let len0 = tensor_len_or0(shapes, node.output@[0]@);
    let ins = name_views(node.input@);
    {
        if ins.len() == 0 || shapes.shape_spec(ins[0]).len() != 4 || shapes.shape_spec(
            node.output@[0]@,
        ).len() != 4 {
            r matches Err(e) && e is UnsupportedShape
        } else if !spatial_attrs_ok(node) {
            r matches Err(e) && (e is MissingAttribute || e is InvalidAttribute)
        } else if autopad_text(node) != "NOTSET"@ && autopad_text(node) != "SAME_UPPER"@
            && autopad_text(node) != "SAME_LOWER"@ {
            r matches Err(CompileError::Unimplemented(n)) && n@ == autopad_text(node)
        } else if !spatial_products_fit(node, shapes) {
            r matches Err(e) && e is OutOfRange
        } else if is_pool_op(t) {
            ok_kernel(
                r,
                node,
                shapes,
                low,
                "pool/aggregate.wgsl"@,
                groups_for(len0 as nat, 1024),
                spatial_extras(node, shapes, false),
            )
        } else {
            let sel = conv_template(node, shapes);
            ok_kernel(
                r,
                node,
                shapes,
                low,
                sel.0,
                groups_for(len0 as nat, sel.1 as nat),
                spatial_extras(node, shapes, true),
            )
        }
    }
}

/// The matrix-product part of the decision table.
pub open spec fn gemm_post(
    node: NodeProto,
    shapes: ShapeTable,
    r: Result<CompiledKernel, CompileError>,
) -> bool {
    let t = node.op_type@;
    let low = lowercased(t);
    {
        if !float_attr_ok(node, "alpha"@) {
            r matches Err(CompileError::InvalidAttribute(n)) && n@ == "alpha"@
        } else if !float_attr_ok(node, "beta"@) {
            r matches Err(CompileError::InvalidAttribute(n)) && n@ == "beta"@
        } else {
            let ins = name_views(node.input@);
            if ins.len() < 2 || shapes.shape_spec(ins[0]).len() < 2 || shapes.shape_spec(
                ins[1],
            ).len() < 2 || shapes.shape_spec(node.output@[0]@).len() < 2 {
                r matches Err(e) && e is UnsupportedShape
            } else {
                let in0 = shapes.shape_spec(ins[0]);
                let in1 = shapes.shape_spec(ins[1]);
                let out0 = shapes.shape_spec(node.output@[0]@);
                let extras = seq![
                    ("alpha"@, CtxVal::FloatBits(float_attr_bits(node, "alpha"@))),
                    ("beta"@, CtxVal::FloatBits(float_attr_bits(node, "beta"@))),
                    ("left_columns"@, CtxVal::UInt(in0[1])),
                    ("right_columns"@, CtxVal::UInt(in1[1])),
                ];
                if in0[0] == 1 {
                    ok_kernel(
                        r,
                        node,
                        shapes,
                        low,
                        "matrix/gemm_1.wgsl"@,
                        out0[1] as int,
                        extras,
                    )
                } else {
                    ok_kernel(
                        r,
                        node,
                        shapes,
                        low,
                        "matrix/gemm.wgsl"@,
                        ((in0[0] / 4) * in1[1]) / 4,
                        extras,
                    )
                }
            }
        }
    }
}

/// The full contract of `compile`: tensor resolution errors in order
/// (missing input shape, oversize input, missing output shape, oversize
/// output, operator without outputs), then the decision table.
pub open spec fn compile_post(
    node: NodeProto,
    shapes: ShapeTable,
    r: Result<CompiledKernel, CompileError>,
) -> bool {
    let ins = name_views(node.input@);
    let outs = name_views(node.output@);
    if first_missing(ins, shapes) is Some {
        r matches Err(CompileError::ShapeNotFound(n)) && Some(n@) == first_missing(ins, shapes)
    } else if first_oversize(ins, shapes) is Some {
        r matches Err(CompileError::OutOfRange(n)) && Some(n@) == first_oversize(ins, shapes)
    } else if first_missing(outs, shapes) is Some {
        r matches Err(CompileError::ShapeNotFound(n)) && Some(n@) == first_missing(outs, shapes)
    } else if first_oversize(outs, shapes) is Some {
        r matches Err(CompileError::OutOfRange(n)) && Some(n@) == first_oversize(outs, shapes)
    } else if outs.len() == 0 {
        r matches Err(e) && e is UnsupportedShape
    } else {
        dispatch_post(node, shapes, r)
    }
}


/// Resolution errors of the base context, in the order they are found:
/// missing input shape, oversize input, missing output shape, oversize
/// output.
pub open spec fn resolution_err(node: NodeProto, shapes: ShapeTable, e: CompileError) -> bool {
    let ins = name_views(node.input@);
    let outs = name_views(node.output@);
    if first_missing(ins, shapes) is Some {
        e matches CompileError::ShapeNotFound(n) && Some(n@) == first_missing(ins, shapes)
    } else if first_oversize(ins, shapes) is Some {
        e matches CompileError::OutOfRange(n) && Some(n@) == first_oversize(ins, shapes)
    } else if first_missing(outs, shapes) is Some {
        e matches CompileError::ShapeNotFound(n) && Some(n@) == first_missing(outs, shapes)
    } else if first_oversize(outs, shapes) is Some {
        e matches CompileError::OutOfRange(n) && Some(n@) == first_oversize(outs, shapes)
    } else {
        false
    }
}

fn push_entry(ctx: &mut Vec<ContextEntry>, key: String, value: ContextValue)
    ensures
        ctx_view(final(ctx)@) == ctx_view(old(ctx)@).push((key@, val_view(value))),
{
    let ghost prev = ctx@;
    let ghost k = key@;
    let ghost v = val_view(value);
    ctx.push(ContextEntry { key, value });
    proof {
        assert(ctx_view(ctx@) =~= ctx_view(prev).push((k, v)));
    }
}

/// The resolved tensors of one operator: its rendering context so far and
/// the shape and flattened length of every input and output.
pub struct TensorInfo {
    pub ctx: Vec<ContextEntry>,
    pub in_dims: Vec<Vec<u64>>,
    pub in_lens: Vec<u64>,
    pub out_dims: Vec<Vec<u64>>,
    pub out_lens: Vec<u64>,
}

/// Every tensor of the node resolved against the table.
pub open spec fn tensors_resolved(node: NodeProto, shapes: ShapeTable, info: TensorInfo) -> bool {
    let ins = name_views(node.input@);
    let outs = name_views(node.output@);
    &&& first_missing(ins, shapes) is None
    &&& first_oversize(ins, shapes) is None
    &&& first_missing(outs, shapes) is None
    &&& first_oversize(outs, shapes) is None
    &&& info.in_dims@.len() == ins.len()
    &&& info.in_lens@.len() == ins.len()
    &&& info.out_dims@.len() == outs.len()
    &&& info.out_lens@.len() == outs.len()
    &&& forall|i: int|
        0 <= i < ins.len() ==> (#[trigger] info.in_dims@[i])@ == shapes.shape_spec(ins[i])
    &&& forall|i: int|
        0 <= i < ins.len() ==> tensor_len(shapes, ins[i]) == Some((#[trigger] info.in_lens@[i]) as int)
    &&& forall|i: int|
        0 <= i < outs.len() ==> (#[trigger] info.out_dims@[i])@ == shapes.shape_spec(outs[i])
    &&& forall|i: int|
        0 <= i < outs.len() ==> tensor_len(shapes, outs[i]) == Some(
            (#[trigger] info.out_lens@[i]) as int,
        )
}

/// Resolves every tensor and assembles the context every operator starts
/// from.
fn build_base_context(node: &NodeProto, shapes: &ShapeTable, opty: String) -> (r: Result<
    TensorInfo,
    CompileError,
>)
    requires
        shapes.wf(),
    ensures
        match r {
            Ok(info) => tensors_resolved(*node, *shapes, info) && ctx_view(info.ctx@) == base_ctx(
                *node,
                *shapes,
                opty@,
            ),
            Err(e) => resolution_err(*node, *shapes, e),
        },
{
    let ghost ins = name_views(node.input@);
    let ghost outs = name_views(node.output@);
    let (in_dims, in_lens) = match resolve_tensors(&node.input, shapes) {
        Ok(p) => p,
        Err(e) => {
            return Err(e);
        },
    };
    let (out_dims, out_lens) = match resolve_tensors(&node.output, shapes) {
        Ok(p) => p,
        Err(e) => {
            return Err(e);
        },
    };
    let mut ctx: Vec<ContextEntry> = Vec::new();
    let ni = node.input.len();
    let no = node.output.len();
    let mut i: usize = 0;
    proof {
        assert(ctx_view(ctx@) =~= dims_group(ins, *shapes, "i_dims_"@, 0));
    }
    while i < ni
        invariant
            shapes.wf(),
            ins == name_views(node.input@),
            ni == node.input@.len(),
            i <= ni,
            in_dims@.len() == ni,
            forall|j: int|
                0 <= j < ni ==> (#[trigger] in_dims@[j])@ == shapes.shape_spec(ins[j]),
            ctx_view(ctx@) == dims_group(ins, *shapes, "i_dims_"@, i as int),
        decreases ni - i,
    {
        let key = make_pos_key("i_dims_", i);
        push_entry(&mut ctx, key, ContextValue::UIntList(crate::ir::copy_dims(&in_dims[i])));
        proof {
            assert(dims_group(ins, *shapes, "i_dims_"@, i + 1) =~= dims_group(
                ins,
                *shapes,
                "i_dims_"@,
                i as int,
            ).push((pos_key("i_dims_"@, i as int), CtxVal::UIntList(shapes.shape_spec(ins[i as int])))));
        }
        i += 1;
    }
    let ghost g1 = dims_group(ins, *shapes, "i_dims_"@, ni as int);
    let mut i: usize = 0;
    proof {
        assert(ctx_view(ctx@) =~= g1 + dims_group(outs, *shapes, "o_dims_"@, 0));
    }
    while i < no
        invariant
            shapes.wf(),
            outs == name_views(node.output@),
            no == node.output@.len(),
            i <= no,
            out_dims@.len() == no,
            forall|j: int|
                0 <= j < no ==> (#[trigger] out_dims@[j])@ == shapes.shape_spec(outs[j]),
            ctx_view(ctx@) == g1 + dims_group(outs, *shapes, "o_dims_"@, i as int),
        decreases no - i,
    {
        let key = make_pos_key("o_dims_", i);
        push_entry(&mut ctx, key, ContextValue::UIntList(crate::ir::copy_dims(&out_dims[i])));
        proof {
            assert(g1 + dims_group(outs, *shapes, "o_dims_"@, i + 1) =~= (g1 + dims_group(
                outs,
                *shapes,
                "o_dims_"@,
                i as int,
            )).push((pos_key("o_dims_"@, i as int), CtxVal::UIntList(shapes.shape_spec(outs[i as int])))));
        }
        i += 1;
    }
    let ghost g2 = g1 + dims_group(outs, *shapes, "o_dims_"@, no as int);
    let mut i: usize = 0;
    proof {
        assert(ctx_view(ctx@) =~= g2 + lens_group(ins, *shapes, "i_len_"@, 0));
    }
    while i < ni
        invariant
            shapes.wf(),
            ins == name_views(node.input@),
            ni == node.input@.len(),
            i <= ni,
            in_lens@.len() == ni,
            forall|j: int|
                0 <= j < ni ==> tensor_len(*shapes, ins[j]) == Some(
                    (#[trigger] in_lens@[j]) as int,
                ),
            ctx_view(ctx@) == g2 + lens_group(ins, *shapes, "i_len_"@, i as int),
        decreases ni - i,
    {
        let key = make_pos_key("i_len_", i);
        push_entry(&mut ctx, key, ContextValue::UInt(in_lens[i]));
        proof {
            assert(g2 + lens_group(ins, *shapes, "i_len_"@, i + 1) =~= (g2 + lens_group(
                ins,
                *shapes,
                "i_len_"@,
                i as int,
            )).push(
                (
                    pos_key("i_len_"@, i as int),
                    CtxVal::UInt(tensor_len_or0(*shapes, ins[i as int]) as u64),
                ),
            ));
        }
        i += 1;
    }
    let ghost g3 = g2 + lens_group(ins, *shapes, "i_len_"@, ni as int);
    let mut i: usize = 0;
    proof {
        assert(ctx_view(ctx@) =~= g3 + lens_group(outs, *shapes, "o_len_"@, 0));
    }
    while i < no
        invariant
            shapes.wf(),
            outs == name_views(node.output@),
            no == node.output@.len(),
            i <= no,
            out_lens@.len() == no,
            forall|j: int|
                0 <= j < no ==> tensor_len(*shapes, outs[j]) == Some(
                    (#[trigger] out_lens@[j]) as int,
                ),
            ctx_view(ctx@) == g3 + lens_group(outs, *shapes, "o_len_"@, i as int),
        decreases no - i,
    {
        let key = make_pos_key("o_len_", i);
        push_entry(&mut ctx, key, ContextValue::UInt(out_lens[i]));
        proof {
            assert(g3 + lens_group(outs, *shapes, "o_len_"@, i + 1) =~= (g3 + lens_group(
                outs,
                *shapes,
                "o_len_"@,
                i as int,
            )).push(
                (
                    pos_key("o_len_"@, i as int),
                    CtxVal::UInt(tensor_len_or0(*shapes, outs[i as int]) as u64),
                ),
            ));
        }
        i += 1;
    }
    let ghost g4 = g3 + lens_group(outs, *shapes, "o_len_"@, no as int);
    let sin = sanitize_names(&node.input);
    let sout = sanitize_names(&node.output);
    push_entry(&mut ctx, String::from_str("input"), ContextValue::TextList(sin));
    push_entry(&mut ctx, String::from_str("output"), ContextValue::TextList(sout));
    push_entry(&mut ctx, String::from_str("op_type"), ContextValue::Text(opty));
    proof {
        assert(ctx_view(ctx@) =~= base_ctx(*node, *shapes, opty@));
    }
    Ok(
        TensorInfo {
            ctx,
            in_dims,
            in_lens,
            out_dims,
            out_lens,
        },
    )
}


fn copy_ints(v: &Vec<i64>) -> (r: Vec<i64>)
    ensures
        r@ == v@,
{
    let mut r: Vec<i64> = Vec::new();
    let n = v.len();
    let mut i: usize = 0;
    while i < n
        invariant
            n == v@.len(),
            i <= n,
            r@ == v@.take(i as int),
        decreases n - i,
    {
        r.push(v[i]);
        proof {
            assert(v@.take(i + 1) =~= v@.take(i as int).push(v@[i as int]));
        }
        i += 1;
    }
    proof {
        assert(v@.take(n as int) =~= v@);
    }
    r
}

/// Reads a real-valued attribute as float bits, defaulting to one.
fn float_attr(node: &NodeProto, name: &str) -> (r: Result<u32, CompileError>)
    ensures
        match r {
            Ok(b) => float_attr_ok(*node, name@) && b == float_attr_bits(*node, name@),
            Err(e) => !float_attr_ok(*node, name@) && (e matches CompileError::InvalidAttribute(
                n,
            ) && n@ == name@),
        },
{
    match node.get_attribute(name) {
        Option::None => Ok(FLOAT_ONE_BITS),
        Option::Some(AttributeValue::FloatBits(b)) => Ok(*b),
        Option::Some(_) => Err(CompileError::InvalidAttribute(String::from_str(name))),
    }
}

/// Reads an integer-list spatial attribute, enforcing its expected length
/// and value range; `required` attributes may not be absent.
fn spatial_list(
    node: &NodeProto,
    name: &str,
    len_expected: usize,
    lo: i64,
    deflt: Vec<i64>,
    required: bool,
) -> (r: Result<Vec<i64>, CompileError>)
    requires
        ints_in_range(deflt@, len_expected as int, lo),
    ensures
        match r {
            Ok(v) => {
                &&& v@ == ints_attr(*node, name@, deflt@)
                &&& ints_in_range(v@, len_expected as int, lo)
                &&& match node.attr_spec(name@) {
                    Option::None => !required,
                    Option::Some(AttributeValue::Ints(w)) => ints_in_range(
                        w@,
                        len_expected as int,
                        lo,
                    ),
                    Option::Some(_) => false,
                }
            },
            Err(e) => match e {
                CompileError::MissingAttribute(n) => required && node.attr_spec(name@) is None
                    && n@ == name@,
                CompileError::InvalidAttribute(n) => n@ == name@ && match node.attr_spec(name@) {
                    Option::None => false,
                    Option::Some(AttributeValue::Ints(w)) => !ints_in_range(
                        w@,
                        len_expected as int,
                        lo,
                    ),
                    Option::Some(_) => true,
                },
                _ => false,
            },
        },
{
    match node.get_attribute(name) {
        Option::None => {
            if required {
                Err(CompileError::MissingAttribute(String::from_str(name)))
            } else {
                Ok(deflt)
            }
        },
        Option::Some(AttributeValue::Ints(w)) => {
            if w.len() != len_expected {
                return Err(CompileError::InvalidAttribute(String::from_str(name)));
            }
            let n = w.len();
            let mut i: usize = 0;
            while i < n
                invariant
                    n == w@.len(),
                    n == len_expected,
                    node.attr_spec(name@) == Some(AttributeValue::Ints(*w)),
                    i <= n,
                    forall|j: int| 0 <= j < i ==> lo <= #[trigger] w@[j] <= SPATIAL_LIMIT,
                decreases n - i,
            {
                if w[i] < lo || w[i] > SPATIAL_LIMIT {
                    return Err(CompileError::InvalidAttribute(String::from_str(name)));
                }
                i += 1;
            }
            Ok(copy_ints(w))
        },
        Option::Some(_) => Err(CompileError::InvalidAttribute(String::from_str(name))),
    }
}

/// Reads the `auto_pad` policy text, defaulting to `NOTSET`.
fn autopad_attr(node: &NodeProto) -> (r: Result<String, CompileError>)
    ensures
        match r {
            Ok(s) => s@ == autopad_text(*node) && match node.attr_spec("auto_pad"@) {
                Option::None => true,
                Option::Some(AttributeValue::Text(_)) => true,
                Option::Some(_) => false,
            },
            Err(e) => e matches CompileError::InvalidAttribute(n) && n@ == "auto_pad"@
                && match node.attr_spec("auto_pad"@) {
                Option::None => false,
                Option::Some(AttributeValue::Text(_)) => false,
                Option::Some(_) => true,
            },
        },
{
    match node.get_attribute("auto_pad") {
        Option::None => Ok(String::from_str("NOTSET")),
        Option::Some(AttributeValue::Text(s)) => Ok(s.clone()),
        Option::Some(_) => Err(CompileError::InvalidAttribute(String::from_str("auto_pad"))),
    }
}

/// Splits a slack into its truncated half and remainder.
fn trunc_half(x: i64) -> (r: (i64, i64))
    requires
        -0x4000_0000_0000_0000 < x < 0x4000_0000_0000_0000,
    ensures
        r.0 == tdiv2(x as int),
        r.1 == tmod2(x as int),
{
    if x >= 0 {
        let h = ((x as u64) / 2) as i64;
        let m = ((x as u64) % 2) as i64;
        proof {
            assert((x as u64) / 2 == (x as int) / 2);
            assert(tmod2(x as int) == x - 2 * ((x as int) / 2));
        }
        (h, m)
    } else {
        let mag = (-x) as u64;
        let h = -((mag / 2) as i64);
        let m = -((mag % 2) as i64);
        proof {
            assert(mag == -(x as int));
            assert(tdiv2(x as int) == -((-(x as int)) / 2));
            assert(tmod2(x as int) == x as int + 2 * ((-(x as int)) / 2));
            assert(-(x as int) == ((-(x as int)) / 2) * 2 + (-(x as int)) % 2);
        }
        (h, m)
    }
}

/// Computes the SAME_UPPER or SAME_LOWER pads from the spatial attributes.
fn compute_same_pads(ks: &Vec<i64>, ss: &Vec<i64>, ds: &Vec<i64>, upper: bool) -> (r: Vec<i64>)
    requires
        ints_in_range(ks@, 2, 1),
        ints_in_range(ss@, 2, 1),
        ints_in_range(ds@, 2, 1),
    ensures
        r@ == same_pads(ks@, ss@, ds@, upper),
{
    proof {
        assert((ks@[0] - 1) * ds@[0] <= 0x1_0000_0000_0000i64) by (nonlinear_arith)
            requires 1 <= ks@[0] <= SPATIAL_LIMIT, 1 <= ds@[0] <= SPATIAL_LIMIT;
        assert((ks@[0] - 1) * ds@[0] >= 0) by (nonlinear_arith)
            requires 1 <= ks@[0] <= SPATIAL_LIMIT, 1 <= ds@[0] <= SPATIAL_LIMIT;
        assert((ks@[1] - 1) * ds@[1] <= 0x1_0000_0000_0000i64) by (nonlinear_arith)
            requires 1 <= ks@[1] <= SPATIAL_LIMIT, 1 <= ds@[1] <= SPATIAL_LIMIT;
        assert((ks@[1] - 1) * ds@[1] >= 0) by (nonlinear_arith)
            requires 1 <= ks@[1] <= SPATIAL_LIMIT, 1 <= ds@[1] <= SPATIAL_LIMIT;
    }
    let s0: i64 = -ss[0] + (ks[0] - 1) * ds[0] + 1;
    let s1: i64 = -ss[1] + (ks[1] - 1) * ds[1] + 1;
    let (h0, r0) = trunc_half(s0);
    let (h1, r1) = trunc_half(s1);
    let mut out: Vec<i64> = Vec::new();
    if upper {
        out.push(h0);
        out.push(h1);
        out.push(h0 + r0);
        out.push(h1 + r1);
    } else {
        out.push(h0 + r0);
        out.push(h1 + r1);
        out.push(h0);
        out.push(h1);
    }
    proof {
        assert(out@ =~= same_pads(ks@, ss@, ds@, upper));
    }
    out
}

/// Checks a dispatch count against the 32-bit grid limit.
fn dispatch_x(x64: u64, err_name: &String) -> (r: Result<u32, CompileError>)
    ensures
        match r {
            Ok(x) => x == x64 && x64 <= u32::MAX,
            Err(e) => e is OutOfRange && x64 > u32::MAX,
        },
{
    if x64 > 0xFFFF_FFFFu64 {
        Err(CompileError::OutOfRange(err_name.clone()))
    } else {
        Ok(x64 as u32)
    }
}


fn op_is_unary(t: &str) -> (r: bool)
    ensures
        r == is_unary_map_op(t@),
{
    str_eq(t, "Abs") || str_eq(t, "Acos") || str_eq(t, "Asin") || str_eq(t, "Atan") || str_eq(
        t,
        "Ceil",
    ) || str_eq(t, "Cos") || str_eq(t, "Cosh") || str_eq(t, "Exp") || str_eq(t, "Floor") || str_eq(
        t,
        "Log",
    ) || str_eq(t, "Round") || str_eq(t, "Sign") || str_eq(t, "Sin") || str_eq(t, "Sinh")
        || str_eq(t, "Sqrt") || str_eq(t, "Tan") || str_eq(t, "Tanh")
}

fn op_is_copy(t: &str) -> (r: bool)
    ensures
        r == is_copy_op(t@),
{
    str_eq(t, "Reshape") || str_eq(t, "Dropout") || str_eq(t, "Flatten") || str_eq(t, "Squeeze")
        || str_eq(t, "Softmax")
}

fn op_is_arith(t: &str) -> (r: bool)
    ensures
        r == is_arith_op(t@),
{
    str_eq(t, "Add") || str_eq(t, "And") || str_eq(t, "Div") || str_eq(t, "Equal") || str_eq(
        t,
        "Greater",
    ) || str_eq(t, "GreaterOrEqual") || str_eq(t, "Less") || str_eq(t, "LessOrEqual") || str_eq(
        t,
        "Mod",
    ) || str_eq(t, "Mul") || str_eq(t, "Or") || str_eq(t, "Sub")
}

fn arith_sym(t: &str) -> (r: String)
    ensures
        r@ == arith_symbol(t@),
{
    if str_eq(t, "Add") {
        String::from_str("+")
    } else if str_eq(t, "And") {
        String::from_str("&")
    } else if str_eq(t, "Div") {
        String::from_str("/")
    } else if str_eq(t, "Equal") {
        String::from_str("==")
    } else if str_eq(t, "Greater") {
        String::from_str(">")
    } else if str_eq(t, "GreaterOrEqual") {
        String::from_str(">=")
    } else if str_eq(t, "Less") {
        String::from_str("<")
    } else if str_eq(t, "LessOrEqual") {
        String::from_str("<=")
    } else if str_eq(t, "Mod") {
        String::from_str("%")
    } else if str_eq(t, "Mul") {
        String::from_str("*")
    } else if str_eq(t, "Or") {
        String::from_str("|")
    } else {
        String::from_str("-")
    }
}

/// The two-element list equals `[a, b]`.
fn is_pair(v: &Vec<i64>, a: i64, b: i64) -> (r: bool)
    requires
        v@.len() == 2,
    ensures
        r == (v@ == seq![a, b]),
{
    let r = v[0] == a && v[1] == b;
    proof {
        if r {
            assert(v@ =~= seq![a, b]);
        } else {
            if v@ == seq![a, b] {
                assert(v@[0] == a && v@[1] == b);
            }
        }
    }
    r
}

/// The four-element list equals `[a, a, a, a]`.
fn is_quad(v: &Vec<i64>, a: i64) -> (r: bool)
    requires
        v@.len() == 4,
    ensures
        r == (v@ == seq![a, a, a, a]),
{
    let r = v[0] == a && v[1] == a && v[2] == a && v[3] == a;
    proof {
        if r {
            assert(v@ =~= seq![a, a, a, a]);
        } else {
            if v@ == seq![a, a, a, a] {
                assert(v@[0] == a && v@[1] == a && v@[2] == a && v@[3] == a);
            }
        }
    }
    r
}

/// Compiles one operator record against the shapes of its tensors,
/// producing the template identifier, the rendering context, and the
/// dispatch grid `(x, y, z)`; `y` and `z` are one for every supported
/// operator. Every operator type, shape or attribute combination outside
/// the decision table is an explicit failure, never a fallback kernel.
pub fn compile(node: &NodeProto, dims_infos: &ShapeTable) -> (r: Result<
    CompiledKernel,
    CompileError,
>)
    requires
        dims_infos.wf(),
    ensures
        compile_post(*node, *dims_infos, r),
{
    let t_unary = op_is_unary(node.op_type.as_str());
    let t_copy = op_is_copy(node.op_type.as_str());
    let t_is_arith = op_is_arith(node.op_type.as_str());
    let use_symbol = t_is_arith && !t_unary && !t_copy;
    let opty: String = if use_symbol {
        arith_sym(node.op_type.as_str())
    } else {
        ascii_lowercase(node.op_type.as_str())
    };
    let mut info = match build_base_context(node, dims_infos, opty) {
        Ok(info) => info,
        Err(e) => {
            return Err(e);
        },
    };
    if node.output.len() == 0 {
        return Err(CompileError::UnsupportedShape(node.op_type.clone()));
    }
    let l0: u64 = info.out_lens[0];
    let t = &node.op_type;
    if t_unary {
        let x = match dispatch_x(l0 / 4, &node.output[0]) {
            Ok(x) => x,
            Err(e) => {
                return Err(e);
            },
        };
        proof {
            assert(base_ctx(*node, *dims_infos, lowercased(node.op_type@))
                + Seq::<(Seq<char>, CtxVal)>::empty() =~= base_ctx(
                *node,
                *dims_infos,
                lowercased(node.op_type@),
            ));
        }
        return Ok(
            CompiledKernel {
                template: String::from_str("endomorphism/map.wgsl"),
                context: info.ctx,
                x,
                y: 1,
                z: 1,
            },
        );
    }
    if t_copy {
        let x = match dispatch_x(l0 / 16, &node.output[0]) {
            Ok(x) => x,
            Err(e) => {
                return Err(e);
            },
        };
        proof {
            assert(base_ctx(*node, *dims_infos, lowercased(node.op_type@))
                + Seq::<(Seq<char>, CtxVal)>::empty() =~= base_ctx(
                *node,
                *dims_infos,
                lowercased(node.op_type@),
            ));
        }
        return Ok(
            CompiledKernel {
                template: String::from_str("endomorphism/copy.wgsl"),
                context: info.ctx,
                x,
                y: 1,
                z: 1,
            },
        );
    }
    if t_is_arith {
        let x = match dispatch_x(l0 / 4, &node.output[0]) {
            Ok(x) => x,
            Err(e) => {
                return Err(e);
            },
        };
        proof {
            assert(base_ctx(*node, *dims_infos, arith_symbol(node.op_type@))
                + Seq::<(Seq<char>, CtxVal)>::empty() =~= base_ctx(
                *node,
                *dims_infos,
                arith_symbol(node.op_type@),
            ));
        }
        return Ok(
            CompiledKernel {
                template: String::from_str("endomorphism/arithmetic.wgsl"),
                context: info.ctx,
                x,
                y: 1,
                z: 1,
            },
        );
    }
    if str_eq(t.as_str(), "Celu") || str_eq(t.as_str(), "Elu") {
        let alpha = match float_attr(node, "alpha") {
            Ok(b) => b,
            Err(e) => {
                return Err(e);
            },
        };
        let x = match dispatch_x(l0 / 4, &node.output[0]) {
            Ok(x) => x,
            Err(e) => {
                return Err(e);
            },
        };
        let ghost base = ctx_view(info.ctx@);
        push_entry(&mut info.ctx, String::from_str("alpha"), ContextValue::FloatBits(alpha));
        proof {
            assert(ctx_view(info.ctx@) =~= base + seq![
                ("alpha"@, CtxVal::FloatBits(float_attr_bits(*node, "alpha"@))),
            ]);
        }
        return Ok(
            CompiledKernel {
                template: String::from_str("endomorphism/activation.wgsl"),
                context: info.ctx,
                x,
                y: 1,
                z: 1,
            },
        );
    }
    if str_eq(t.as_str(), "Relu") || str_eq(t.as_str(), "Sigmoid") || str_eq(t.as_str(), "Softsign")
        || str_eq(t.as_str(), "Softplus") || str_eq(t.as_str(), "Clip") {
        proof {
            assert(base_ctx(*node, *dims_infos, lowercased(node.op_type@))
                + Seq::<(Seq<char>, CtxVal)>::empty() =~= base_ctx(
                *node,
                *dims_infos,
                lowercased(node.op_type@),
            ));
        }
        return Ok(
            CompiledKernel {
                template: String::from_str("endomorphism/activation.wgsl"),
                context: info.ctx,
                x: 1,
                y: 1,
                z: 1,
            },
        );
    }
    if str_eq(t.as_str(), "Concat") {
        let x = match dispatch_x(crate::ceil_div(l0, 256), &node.output[0]) {
            Ok(x) => x,
            Err(e) => {
                return Err(e);
            },
        };
        proof {
            assert(base_ctx(*node, *dims_infos, lowercased(node.op_type@))
                + Seq::<(Seq<char>, CtxVal)>::empty() =~= base_ctx(
                *node,
                *dims_infos,
                lowercased(node.op_type@),
            ));
        }
        return Ok(
            CompiledKernel {
                template: String::from_str("matrix/concat.wgsl"),
                context: info.ctx,
                x,
                y: 1,
                z: 1,
            },
        );
    }
    if str_eq(t.as_str(), "Transpose") {
        let x = match dispatch_x(l0 / 4, &node.output[0]) {
            Ok(x) => x,
            Err(e) => {
                return Err(e);
            },
        };
        proof {
            assert(base_ctx(*node, *dims_infos, lowercased(node.op_type@))
                + Seq::<(Seq<char>, CtxVal)>::empty() =~= base_ctx(
                *node,
                *dims_infos,
                lowercased(node.op_type@),
            ));
        }
        return Ok(
            CompiledKernel {
                template: String::from_str("matrix/transpose.wgsl"),
                context: info.ctx,
                x,
                y: 1,
                z: 1,
            },
        );
    }
    let t_is_pool = str_eq(t.as_str(), "MaxPool") || str_eq(t.as_str(), "AveragePool");
    let t_is_conv = str_eq(t.as_str(), "Conv") || str_eq(t.as_str(), "ConvRelu");
    if t_is_pool || t_is_conv {
        return compile_spatial(node, dims_infos, info, t_is_conv && !t_is_pool);
    }
    if str_eq(t.as_str(), "Gemm") || str_eq(t.as_str(), "MatMul") {
        return compile_gemm(node, dims_infos, info);
    }
    Err(CompileError::Unimplemented(node.op_type.clone()))
}


fn two_ints(a: i64, b: i64) -> (r: Vec<i64>)
    ensures
        r@ == seq![a, b],
{
    let mut r: Vec<i64> = Vec::new();
    r.push(a);
    r.push(b);
    proof {
        assert(r@ =~= seq![a, b]);
    }
    r
}

fn four_ints(a: i64) -> (r: Vec<i64>)
    ensures
        r@ == seq![a, a, a, a],
{
    let mut r: Vec<i64> = Vec::new();
    r.push(a);
    r.push(a);
    r.push(a);
    r.push(a);
    proof {
        assert(r@ =~= seq![a, a, a, a]);
    }
    r
}

/// Compiles the pooling and convolution operators: resolves the spatial
/// attributes and automatic padding, derives the spatial context
/// quantities, and selects the generic or a specialized fast-path kernel.
fn compile_spatial(node: &NodeProto, shapes: &ShapeTable, info: TensorInfo, conv: bool) -> (r:
    Result<CompiledKernel, CompileError>)
    requires
        shapes.wf(),
        tensors_resolved(*node, *shapes, info),
        node.output@.len() > 0,
        ctx_view(info.ctx@) == base_ctx(*node, *shapes, lowercased(node.op_type@)),
        conv ==> is_conv_op(node.op_type@) && !is_pool_op(node.op_type@),
        !conv ==> is_pool_op(node.op_type@),
    ensures
        pool_conv_post(*node, *shapes, r),
{
    let mut info = info;
    if node.input.len() == 0 {
        return Err(CompileError::UnsupportedShape(node.op_type.clone()));
    }
    if info.in_dims[0].len() != 4 {
        return Err(CompileError::UnsupportedShape(node.op_type.clone()));
    }
    if info.out_dims[0].len() != 4 {
        return Err(CompileError::UnsupportedShape(node.op_type.clone()));
    }
    let ap = match autopad_attr(node) {
        Ok(s) => s,
        Err(e) => {
            return Err(e);
        },
    };
    let dils = match spatial_list(node, "dilations", 2, 1, two_ints(1, 1), false) {
        Ok(v) => v,
        Err(e) => {
            return Err(e);
        },
    };
    let ks = match spatial_list(node, "kernel_shape", 2, 1, two_ints(1, 1), true) {
        Ok(v) => v,
        Err(e) => {
            return Err(e);
        },
    };
    let ss = match spatial_list(node, "strides", 2, 1, two_ints(1, 1), false) {
        Ok(v) => v,
        Err(e) => {
            return Err(e);
        },
    };
    let pads0 = match spatial_list(node, "pads", 4, 0, four_ints(0), false) {
        Ok(v) => v,
        Err(e) => {
            return Err(e);
        },
    };
    let pads: Vec<i64> = if str_eq(ap.as_str(), "NOTSET") {
        pads0
    } else if str_eq(ap.as_str(), "SAME_UPPER") {
        compute_same_pads(&ks, &ss, &dils, true)
    } else if str_eq(ap.as_str(), "SAME_LOWER") {
        compute_same_pads(&ks, &ss, &dils, false)
    } else {
        return Err(CompileError::Unimplemented(ap));
    };
    proof {
        assert(pads@ == resolved_pads(*node));
    }
    let l0: u64 = info.out_lens[0];
    let o1: u64 = info.out_dims[0][1];
    let o2: u64 = info.out_dims[0][2];
    let o3: u64 = info.out_dims[0][3];
    let i1: u64 = info.in_dims[0][1];
    let i2: u64 = info.in_dims[0][2];
    let i3: u64 = info.in_dims[0][3];
    let m12 = match o1.checked_mul(o2) {
        Some(v) => v,
        None => {
            return Err(CompileError::OutOfRange(node.output[0].clone()));
        },
    };
    let m_h_w = match m12.checked_mul(o3) {
        Some(v) => v,
        None => {
            return Err(CompileError::OutOfRange(node.output[0].clone()));
        },
    };
    let h_w = match o2.checked_mul(o3) {
        Some(v) => v,
        None => {
            return Err(CompileError::OutOfRange(node.output[0].clone()));
        },
    };
    let c12 = match i1.checked_mul(i2) {
        Some(v) => v,
        None => {
            return Err(CompileError::OutOfRange(node.input[0].clone()));
        },
    };
    let c_h_w = match c12.checked_mul(i3) {
        Some(v) => v,
        None => {
            return Err(CompileError::OutOfRange(node.input[0].clone()));
        },
    };
    let o_h_w = match i2.checked_mul(i3) {
        Some(v) => v,
        None => {
            return Err(CompileError::OutOfRange(node.input[0].clone()));
        },
    };
    proof {
        assert(1 <= ks@[0] <= SPATIAL_LIMIT && 1 <= ks@[1] <= SPATIAL_LIMIT);
        assert(ks@[0] * ks@[1] <= 0x10_0000_0000_0000i64) by (nonlinear_arith)
            requires 1 <= ks@[0] <= SPATIAL_LIMIT, 1 <= ks@[1] <= SPATIAL_LIMIT;
        assert(ks@[0] * ks@[1] >= 1) by (nonlinear_arith)
            requires 1 <= ks@[0] <= SPATIAL_LIMIT, 1 <= ks@[1] <= SPATIAL_LIMIT;
    }
    let kernel_len: i64 = ks[0] * ks[1];
    proof {
        assert((kernel_len as u128) * (i1 as u128) <= u128::MAX) by (nonlinear_arith)
            requires 1 <= kernel_len <= 0x10_0000_0000_0000i64, i1 <= u64::MAX;
    }
    let kcl_wide: u128 = (kernel_len as u128) * (i1 as u128);
    if kcl_wide > 0x7FFF_FFFF_FFFF_FFFFu128 {
        return Err(CompileError::OutOfRange(node.input[0].clone()));
    }
    let kernel_channel_len: i64 = kcl_wide as i64;
    let ghost base = ctx_view(info.ctx@);
    if conv {
        let od = crate::ir::copy_dims(&info.out_dims[0]);
        let id = crate::ir::copy_dims(&info.in_dims[0]);
        push_entry(&mut info.ctx, String::from_str("output_dims"), ContextValue::UIntList(od));
        push_entry(&mut info.ctx, String::from_str("input_dims"), ContextValue::UIntList(id));
    }
    push_entry(&mut info.ctx, String::from_str("M_x_H_x_W"), ContextValue::UInt(m_h_w));
    push_entry(&mut info.ctx, String::from_str("H_x_W"), ContextValue::UInt(h_w));
    push_entry(&mut info.ctx, String::from_str("original_C_x_H_x_W"), ContextValue::UInt(c_h_w));
    push_entry(&mut info.ctx, String::from_str("original_H_x_W"), ContextValue::UInt(o_h_w));
    push_entry(&mut info.ctx, String::from_str("original_width"), ContextValue::UInt(i3));
    push_entry(&mut info.ctx, String::from_str("width"), ContextValue::UInt(o3));
    push_entry(&mut info.ctx, String::from_str("original_height"), ContextValue::UInt(i2));
    push_entry(&mut info.ctx, String::from_str("channel"), ContextValue::UInt(i1));
    push_entry(&mut info.ctx, String::from_str("stride"), ContextValue::IntList(copy_ints(&ss)));
    push_entry(
        &mut info.ctx,
        String::from_str("kernel_shape"),
        ContextValue::IntList(copy_ints(&ks)),
    );
    push_entry(&mut info.ctx, String::from_str("kernel_len"), ContextValue::Int(kernel_len));
    push_entry(
        &mut info.ctx,
        String::from_str("kernel_channel_len"),
        ContextValue::Int(kernel_channel_len),
    );
    push_entry(&mut info.ctx, String::from_str("pad"), ContextValue::IntList(copy_ints(&pads)));
    push_entry(
        &mut info.ctx,
        String::from_str("dilation"),
        ContextValue::IntList(copy_ints(&dils)),
    );
    let is_conv_relu = str_eq(node.op_type.as_str(), "ConvRelu");
    if is_conv_relu {
        push_entry(&mut info.ctx, String::from_str("conv_relu"), ContextValue::Bool(true));
    }
    proof {
        assert(ctx_view(info.ctx@) =~= base + spatial_extras(*node, *shapes, conv));
    }
    let granularity: u64 = if !conv {
        1024
    } else {
        let fast1 = is_pair(&ss, 1, 1) && is_pair(&ks, 1, 1) && is_pair(&dils, 1, 1) && is_quad(
            &pads,
            0,
        ) && i1 % 16 == 0 && o1 % 4 == 0;
        let fast3 = is_pair(&ss, 1, 1) && is_pair(&ks, 3, 3) && is_pair(&dils, 1, 1) && o1 % 4
            == 0;
        if fast1 {
            1024
        } else if fast3 {
            1024
        } else {
            256
        }
    };
    let template: String = if !conv {
        String::from_str("pool/aggregate.wgsl")
    } else {
        let fast1 = is_pair(&ss, 1, 1) && is_pair(&ks, 1, 1) && is_pair(&dils, 1, 1) && is_quad(
            &pads,
            0,
        ) && i1 % 16 == 0 && o1 % 4 == 0;
        let fast3 = is_pair(&ss, 1, 1) && is_pair(&ks, 3, 3) && is_pair(&dils, 1, 1) && o1 % 4
            == 0;
        if fast1 {
            String::from_str("pool/conv_kernel_1.wgsl")
        } else if fast3 {
            String::from_str("pool/conv_kernel_3.wgsl")
        } else {
            String::from_str("pool/conv.wgsl")
        }
    };
    let x = match dispatch_x(crate::ceil_div(l0, granularity), &node.output[0]) {
        Ok(x) => x,
        Err(e) => {
            return Err(e);
        },
    };
    Ok(CompiledKernel { template, context: info.ctx, x, y: 1, z: 1 })
}

/// Compiles the matrix-product operators: the single-row kernel when the
/// first input has one row, the tiled kernel otherwise.
fn compile_gemm(node: &NodeProto, shapes: &ShapeTable, info: TensorInfo) -> (r: Result<
    CompiledKernel,
    CompileError,
>)
    requires
        shapes.wf(),
        tensors_resolved(*node, *shapes, info),
        node.output@.len() > 0,
        ctx_view(info.ctx@) == base_ctx(*node, *shapes, lowercased(node.op_type@)),
        is_gemm_op(node.op_type@),
    ensures
        gemm_post(*node, *shapes, r),
{
    let mut info = info;
    let alpha = match float_attr(node, "alpha") {
        Ok(b) => b,
        Err(e) => {
            return Err(e);
        },
    };
    let beta = match float_attr(node, "beta") {
        Ok(b) => b,
        Err(e) => {
            return Err(e);
        },
    };
    if node.input.len() < 2 || info.in_dims[0].len() < 2 || info.in_dims[1].len() < 2
        || info.out_dims[0].len() < 2 {
        return Err(CompileError::UnsupportedShape(node.op_type.clone()));
    }
    let rows: u64 = info.in_dims[0][0];
    let left_columns: u64 = info.in_dims[0][1];
    let right_columns: u64 = info.in_dims[1][1];
    let out_cols: u64 = info.out_dims[0][1];
    let ghost base = ctx_view(info.ctx@);
    push_entry(&mut info.ctx, String::from_str("alpha"), ContextValue::FloatBits(alpha));
    push_entry(&mut info.ctx, String::from_str("beta"), ContextValue::FloatBits(beta));
    push_entry(&mut info.ctx, String::from_str("left_columns"), ContextValue::UInt(left_columns));
    push_entry(
        &mut info.ctx,
        String::from_str("right_columns"),
        ContextValue::UInt(right_columns),
    );
    proof {
        assert(ctx_view(info.ctx@) =~= base + seq![
            ("alpha"@, CtxVal::FloatBits(float_attr_bits(*node, "alpha"@))),
            ("beta"@, CtxVal::FloatBits(float_attr_bits(*node, "beta"@))),
            ("left_columns"@, CtxVal::UInt(left_columns)),
            ("right_columns"@, CtxVal::UInt(right_columns)),
        ]);
    }
    if rows == 1 {
        let x = match dispatch_x(out_cols, &node.output[0]) {
            Ok(x) => x,
            Err(e) => {
                return Err(e);
            },
        };
        Ok(
            CompiledKernel {
                template: String::from_str("matrix/gemm_1.wgsl"),
                context: info.ctx,
                x,
                y: 1,
                z: 1,
            },
        )
    } else {
        let quarter: u64 = rows / 4;
        proof {
            assert((quarter as u128) * (right_columns as u128) <= u128::MAX) by (nonlinear_arith)
                requires quarter <= u64::MAX, right_columns <= u64::MAX;
        }
        let wide: u128 = (quarter as u128) * (right_columns as u128);
        let xq: u128 = wide / 4;
        if xq > 0xFFFF_FFFFu128 {
            return Err(CompileError::OutOfRange(node.output[0].clone()));
        }
        let x: u32 = xq as u32;
        Ok(
            CompiledKernel {
                template: String::from_str("matrix/gemm.wgsl"),
                context: info.ctx,
                x,
                y: 1,
                z: 1,
            },
        )
    }
}

} // verus!
