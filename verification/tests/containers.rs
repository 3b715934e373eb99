use lapligence::codegen::Codegen;
use lapligence::design::{
    IrModel, LifetimeQualifier, Node, NodeKind, TypeInfo, TypeKind, VariableLifetime,
};

fn node(name: &str, parent: Option<usize>, kind: NodeKind) -> Node {
    Node {
        name: name.to_string(),
        parent,
        children: Vec::new(),
        kind,
        file: None,
        line: 0,
        col: 0,
        instance_path: String::new(),
        lifetime: VariableLifetime::Automatic,
        lifetime_qualifier: LifetimeQualifier::Unqualified,
        initializer: None,
        two_state: false,
        body: None,
        program: false,
        clocking_var: false,
        clocking_block: false,
        packed_dims: Vec::new(),
    }
}

fn ty(kind: TypeKind, label: Option<&str>, width: Option<u32>, signed: bool) -> TypeInfo {
    TypeInfo { kind, type_label: label.map(|s| s.to_string()), width, signed }
}

fn empty_model() -> IrModel {
    IrModel { signals: Vec::new(), processes: Vec::new(), objects: Vec::new(), net_groups: Vec::new(), containers: Vec::new(), virtual_interfaces: Vec::new() }
}

/// Fill in every node's children from the parent links, in index order.
fn build(mut nodes: Vec<Node>) -> Codegen {
    for i in 0..nodes.len() {
        if let Some(p) = nodes[i].parent {
            nodes[p].children.push(i);
        }
    }
    Codegen::new(nodes, empty_model())
}
use lapligence::codegen::ContainerInfo;
use lapligence::design::{ArrayInfo, ExprKind, IrAssocKey, IrContainer, IrContainerElement, IrContainerKind};
use lapligence::ir::IrExprKind;
use lapligence::patterns::{parse_pattern_i128, pattern_key_expr};

#[test]
fn pattern_keys_parse_plain_and_based_integers() {
    assert_eq!(parse_pattern_i128("42"), Some(42));
    assert_eq!(parse_pattern_i128("  [ -7 ]  "), Some(-7));
    assert_eq!(parse_pattern_i128("+1_000"), Some(1000));
    assert_eq!(parse_pattern_i128("8'hFF"), Some(255));
    assert_eq!(parse_pattern_i128("8'HfF"), Some(255));
    assert_eq!(parse_pattern_i128("4'b1_0_1_0"), Some(10));
    assert_eq!(parse_pattern_i128("6'o17"), Some(15));
    assert_eq!(parse_pattern_i128("32'd-3"), Some(-3));
    assert_eq!(parse_pattern_i128("32'd--3"), Some(-3));
    assert_eq!(parse_pattern_i128("-170141183460469231731687303715884105728"), Some(i128::MIN));
    assert_eq!(parse_pattern_i128("170141183460469231731687303715884105727"), Some(i128::MAX));
    assert_eq!(parse_pattern_i128("170141183460469231731687303715884105728"), None);
    assert_eq!(parse_pattern_i128("8'q1"), None);
    assert_eq!(parse_pattern_i128("x'h1"), None);
    assert_eq!(parse_pattern_i128("8'h"), None);
    assert_eq!(parse_pattern_i128("8'hG"), None);
    assert_eq!(parse_pattern_i128("abc"), None);
    assert_eq!(parse_pattern_i128(""), None);
    assert_eq!(parse_pattern_i128("-"), None);
}

#[test]
fn pattern_key_constants_keep_the_low_bits() {
    let e = pattern_key_expr(-1, 8, true, false);
    assert_eq!(e.width, 8);
    assert!(e.signed && !e.real && e.fill.is_none());
    assert!(matches!(e.kind, IrExprKind::Const { raw: 0xff, fill: None }));
    let e = pattern_key_expr(5, 32, false, false);
    assert!(matches!(e.kind, IrExprKind::Const { raw: 5, fill: None }));
    let e = pattern_key_expr(-2, 200, true, false);
    assert!(matches!(e.kind, IrExprKind::Const { raw, .. } if raw == u128::MAX - 1));
}

fn queue() -> IrContainer {
    IrContainer {
        kind: IrContainerKind::Queue,
        element: IrContainerElement::Container {
            kind: IrContainerKind::Dynamic,
            element: Box::new(IrContainerElement::Packed { width: 8, signed: false }),
        },
    }
}

#[test]
fn containers_and_element_paths() {
    let mut cg = build(vec![
        node("top", None, NodeKind::Other),
        node("q", Some(0), NodeKind::Array { ty: ty(TypeKind::Logic, None, Some(8), false) }),
        node("aa", Some(0), NodeKind::Array { ty: ty(TypeKind::Logic, None, Some(8), false) }),
        node("sel", Some(0), NodeKind::Expr(ExprKind::ArraySelect { base: 4, indices: vec![6] })),
        node("sel2", Some(3), NodeKind::Expr(ExprKind::BitSelect { base: 5, index: 7 })),
        node("q", Some(4), NodeKind::Expr(ExprKind::Ref { target: Some(1) })),
        node("i", Some(3), NodeKind::Expr(ExprKind::Constant { value: Some(1), null: false })),
        node("j", Some(4), NodeKind::Expr(ExprKind::Constant { value: Some(2), null: false })),
        node("ak", Some(0), NodeKind::Expr(ExprKind::BitSelect { base: 9, index: 10 })),
        node("aa", Some(8), NodeKind::Expr(ExprKind::Ref { target: Some(2) })),
        node("k", Some(8), NodeKind::Expr(ExprKind::Constant { value: Some(3), null: false })),
        node("$", Some(0), NodeKind::Expr(ExprKind::Unbounded)),
    ]);
    cg.model.containers.push(queue());
    cg.model.containers.push(IrContainer {
        kind: IrContainerKind::Associative { key: IrAssocKey::String },
        element: IrContainerElement::Real,
    });
    cg.containers[1] = Some(ContainerInfo { ir: 0 });
    cg.containers[2] = Some(ContainerInfo { ir: 1 });
    assert_eq!(cg.container_of(1).map(|c| c.ir), Some(0));
    assert_eq!(cg.container_of(5).map(|c| c.ir), Some(0));
    assert!(cg.container_of(3).is_none());
    // q[j][i]: the queue element path lists the indices outermost first.
    assert_eq!(cg.container_element_path(3), Some((0, vec![7, 6])));
    assert_eq!(cg.container_element_path(4), Some((0, vec![7])));
    // A string-keyed associative array has no integral element path.
    assert_eq!(cg.container_element_path(8), None);
    assert_eq!(cg.associative_string_element(8), Some((1, 10)));
    assert_eq!(cg.associative_integral_element(8), None);
    assert!(matches!(cg.container_element_type(0, 1), Some(IrContainerElement::Container { .. })));
    assert!(matches!(cg.container_element_type(0, 2), Some(IrContainerElement::Packed { width: 8, signed: false })));
    assert!(cg.container_element_type(0, 3).is_none());
    assert!(cg.is_unbounded_node(11));
    assert!(!cg.is_unbounded_node(10));
}

#[test]
fn fixed_array_prefixes() {
    let mut cg = build(vec![
        node("top", None, NodeKind::Other),
        node("m", Some(0), NodeKind::Array { ty: ty(TypeKind::Logic, None, Some(8), false) }),
        node("sel", Some(0), NodeKind::Expr(ExprKind::ArraySelect { base: 3, indices: vec![4] })),
        node("m", Some(2), NodeKind::Expr(ExprKind::Ref { target: Some(1) })),
        node("i", Some(2), NodeKind::Expr(ExprKind::Constant { value: Some(0), null: false })),
        node("full", Some(0), NodeKind::Expr(ExprKind::ArraySelect { base: 6, indices: vec![7, 8] })),
        node("m", Some(5), NodeKind::Expr(ExprKind::Ref { target: Some(1) })),
        node("i", Some(5), NodeKind::Expr(ExprKind::Constant { value: Some(0), null: false })),
        node("j", Some(5), NodeKind::Expr(ExprKind::Constant { value: Some(1), null: false })),
    ]);
    cg.arrays[1] = Some(ArrayInfo { dims: vec![(0, 3), (1, 0)], elem_width: 8, real: false, is_net: false, ir: 0 });
    assert!(cg.p30_fixed_array_assignment_candidate(1));
    assert!(cg.p30_fixed_array_assignment_candidate(2));
    assert!(!cg.p30_fixed_array_assignment_candidate(5));
    let (array, consumed) = cg.p30_array_prefix_base(2).unwrap();
    assert_eq!(consumed, 1);
    assert_eq!(array.dims, vec![(0, 3), (1, 0)]);
    assert!(cg.p30_array_prefix_base(5).is_none());
    assert_eq!(cg.p30_unwrap_cast(2), 2);
}

#[test]
fn port_array_actuals_keep_the_unselected_dimensions() {
    let mut cg = build(vec![
        node("top", None, NodeKind::Other),
        node("m", Some(0), NodeKind::Array { ty: ty(TypeKind::Logic, None, Some(8), false) }),
        node("sel", Some(0), NodeKind::Expr(ExprKind::ArraySelect { base: 3, indices: vec![4] })),
        node("m", Some(2), NodeKind::Expr(ExprKind::Ref { target: Some(1) })),
        node("i", Some(2), NodeKind::Expr(ExprKind::Constant { value: Some(0), null: false })),
        node("full", Some(0), NodeKind::Expr(ExprKind::ArraySelect { base: 6, indices: vec![7, 8] })),
        node("m", Some(5), NodeKind::Expr(ExprKind::Ref { target: Some(1) })),
        node("i", Some(5), NodeKind::Expr(ExprKind::Constant { value: Some(0), null: false })),
        node("j", Some(5), NodeKind::Expr(ExprKind::Constant { value: Some(1), null: false })),
        node("x", Some(0), NodeKind::Var { ty: ty(TypeKind::Logic, None, Some(8), false) }),
    ]);
    cg.arrays[1] = Some(ArrayInfo { dims: vec![(0, 3), (1, 0)], elem_width: 8, real: false, is_net: true, ir: 4 });
    let (whole, idx) = cg.port_array_actual(3).unwrap();
    assert_eq!(whole.dims, vec![(0, 3), (1, 0)]);
    assert!(idx.is_empty());
    let (sub, idx) = cg.port_array_actual(2).unwrap();
    assert_eq!(sub.dims, vec![(1, 0)]);
    assert_eq!((sub.elem_width, sub.is_net, sub.ir), (8, true, 4));
    assert_eq!(idx, vec![4]);
    // Selecting every dimension leaves an element, no array.
    assert!(cg.port_array_actual(5).is_none());
    assert!(cg.port_array_actual(9).is_none());
}

#[test]
fn container_reads_of_strings_and_chandles() {
    let mut cg = build(vec![
        node("top", None, NodeKind::Other),
        node("names", Some(0), NodeKind::Array { ty: ty(TypeKind::String, None, None, false) }),
        node("handles", Some(0), NodeKind::Array { ty: ty(TypeKind::Chandle, None, None, false) }),
        node("s", Some(0), NodeKind::Expr(ExprKind::BitSelect { base: 4, index: 5 })),
        node("names", Some(3), NodeKind::Expr(ExprKind::Ref { target: Some(1) })),
        node("k", Some(3), NodeKind::Expr(ExprKind::Constant { value: None, null: false })),
        node("h", Some(0), NodeKind::Expr(ExprKind::BitSelect { base: 7, index: 8 })),
        node("handles", Some(6), NodeKind::Expr(ExprKind::Ref { target: Some(2) })),
        node("i", Some(6), NodeKind::Expr(ExprKind::Constant { value: Some(0), null: false })),
    ]);
    cg.model.containers.push(IrContainer {
        kind: IrContainerKind::Associative { key: IrAssocKey::String },
        element: IrContainerElement::String,
    });
    cg.model.containers.push(IrContainer { kind: IrContainerKind::Queue, element: IrContainerElement::Chandle });
    cg.containers[1] = Some(ContainerInfo { ir: 0 });
    cg.containers[2] = Some(ContainerInfo { ir: 1 });
    assert!(cg.is_container_string_expr(3));
    assert!(!cg.is_container_chandle_expr(3));
    assert!(cg.is_container_chandle_expr(6));
    assert!(!cg.is_container_string_expr(6));
    assert!(!cg.is_container_string_expr(4));
}

#[test]
fn streaming_targets_holding_containers() {
    let mut cg = build(vec![
        node("top", None, NodeKind::Other),
        node("q", Some(0), NodeKind::Array { ty: ty(TypeKind::Logic, None, Some(8), false) }),
        node("v", Some(0), NodeKind::Var { ty: ty(TypeKind::Logic, None, Some(8), false) }),
        node("s", Some(0), NodeKind::Expr(ExprKind::Streaming { streams: vec![4, 5] })),
        node("v", Some(3), NodeKind::Expr(ExprKind::Ref { target: Some(2) })),
        node("c", Some(3), NodeKind::Expr(ExprKind::Concat { operands: vec![6], reordered: false })),
        node("q", Some(5), NodeKind::Expr(ExprKind::Ref { target: Some(1) })),
        node("t", Some(0), NodeKind::Expr(ExprKind::Streaming { streams: vec![8] })),
        node("v", Some(7), NodeKind::Expr(ExprKind::Ref { target: Some(2) })),
    ]);
    cg.model.containers.push(queue());
    cg.containers[1] = Some(ContainerInfo { ir: 0 });
    assert!(cg.stream_target_contains_container(3));
    assert!(cg.stream_target_contains_container(6));
    assert!(!cg.stream_target_contains_container(7));
    assert!(!cg.stream_target_contains_container(4));
}

#[test]
fn container_method_arguments_drop_the_receiver() {
    let cg = build(vec![
        node("top", None, NodeKind::Other),
        node("call", Some(0), NodeKind::Other),
        node("a", Some(1), NodeKind::Other),
        node("q", Some(1), NodeKind::Other),
        node("b", Some(1), NodeKind::Other),
    ]);
    assert_eq!(cg.container_method_arguments("top", 1, 3), Ok(vec![2, 4]));
    assert_eq!(cg.container_method_arguments("top", 1, 2), Ok(vec![3, 4]));
    assert_eq!(cg.container_method_arguments("top", 1, 0),
        Err("container method in `top` has no receiver child".to_string()));
}
