use lapligence::codegen::Codegen;
use lapligence::design::{
    IrModel, LifetimeQualifier, Node, NodeKind, TypeInfo, TypeKind, VariableLifetime,
};

fn node(name: &str, parent: Option<usize>, kind: NodeKind) -> Node {
    Node {
        name: name.to_string(),
        parent,
        children: Vec::new(),
        kind,
        file: None,
        line: 0,
        col: 0,
        instance_path: String::new(),
        lifetime: VariableLifetime::Automatic,
        lifetime_qualifier: LifetimeQualifier::Unqualified,
        initializer: None,
        two_state: false,
        body: None,
        program: false,
        clocking_var: false,
        clocking_block: false,
        packed_dims: Vec::new(),
    }
}

fn ty(kind: TypeKind, label: Option<&str>, width: Option<u32>, signed: bool) -> TypeInfo {
    TypeInfo { kind, type_label: label.map(|s| s.to_string()), width, signed }
}

fn empty_model() -> IrModel {
    IrModel { signals: Vec::new(), processes: Vec::new(), objects: Vec::new(), net_groups: Vec::new(), containers: Vec::new(), virtual_interfaces: Vec::new() }
}

/// Fill in every node's children from the parent links, in index order.
fn build(mut nodes: Vec<Node>) -> Codegen {
    for i in 0..nodes.len() {
        if let Some(p) = nodes[i].parent {
            nodes[p].children.push(i);
        }
    }
    Codegen::new(nodes, empty_model())
}
use lapligence::design::{ArrayInfo, ExprKind};

fn tag(key: Option<&str>, value: Option<usize>, parent: usize) -> Node {
    node("", Some(parent), NodeKind::Expr(ExprKind::TaggedPattern { key: key.map(|k| k.to_string()), value }))
}

fn leaf(name: &str, parent: usize) -> Node {
    node(name, Some(parent), NodeKind::Expr(ExprKind::Constant { value: Some(1), null: false }))
}

fn pattern(operands: Vec<usize>, reordered: bool) -> NodeKind {
    NodeKind::Expr(ExprKind::AssignmentPattern { operands, reordered })
}

#[test]
fn positional_patterns_cover_the_dimension_in_source_order() {
    let cg = build(vec![
        node("top", None, NodeKind::Other),
        node("p", Some(0), pattern(vec![2, 3, 4], false)),
        leaf("a", 1),
        leaf("b", 1),
        leaf("c", 1),
        node("q", Some(0), pattern(vec![6, 7, 8], true)),
        leaf("a", 5),
        leaf("b", 5),
        leaf("c", 5),
    ]);
    assert_eq!(cg.p30_pattern_level("top", 1, (2, 0)), Ok(vec![2, 3, 4]));
    assert_eq!(cg.p30_pattern_level("top", 5, (0, 2)), Ok(vec![8, 7, 6]));
    assert_eq!(cg.p30_pattern_level("top", 1, (0, 3)), Err(
        "fixed unpacked-array assignment pattern in `top` has 3 positional values; expected 4".to_string()));
    assert_eq!(cg.p30_pattern_level("top", 2, (0, 3)), Err(
        "fixed unpacked-array assignment pattern in `top` is not an assignment pattern".to_string()));
}

fn keyed(keys: Vec<Option<&str>>) -> Codegen {
    let n = keys.len();
    let mut nodes = vec![
        node("top", None, NodeKind::Other),
        node("p", Some(0), pattern((2..2 + n).collect(), false)),
    ];
    for (i, k) in keys.iter().enumerate() {
        nodes.push(tag(*k, Some(2 + n + i), 1));
    }
    for i in 0..n {
        nodes.push(leaf(&format!("v{i}"), 2 + i));
    }
    build(nodes)
}

#[test]
fn keyed_patterns_place_items_by_index_and_default() {
    // [3:0]: index 3 is offset 0, index 0 is offset 3.
    let cg = keyed(vec![Some("0"), Some("default"), Some("3")]);
    assert_eq!(cg.p30_pattern_level("top", 1, (3, 0)), Ok(vec![7, 6, 6, 5]));
    // [0:3]: index 0 is offset 0.
    assert_eq!(cg.p30_pattern_level("top", 1, (0, 3)), Ok(vec![5, 6, 6, 7]));
    // Based literal keys.
    let cg = keyed(vec![Some("2'b01"), Some("32'd0")]);
    assert_eq!(cg.p30_pattern_level("top", 1, (0, 1)), Ok(vec![5, 4]));
}

#[test]
fn keyed_patterns_report_each_refusal() {
    let cg = keyed(vec![Some("0")]);
    assert_eq!(cg.p30_pattern_level("top", 1, (0, 1)),
        Err("fixed unpacked-array pattern does not cover offset 1 in `top`".to_string()));
    let cg = keyed(vec![Some("5")]);
    assert_eq!(cg.p30_pattern_level("top", 1, (0, 1)),
        Err("duplicate fixed unpacked-array pattern index `5` in `top`".to_string()));
    assert_eq!(cg.p30_pattern_level("top", 1, (1, 0)),
        Err("fixed unpacked-array pattern index `5` is outside [1:0] in `top`".to_string()));
    let cg = keyed(vec![Some("1"), Some("1")]);
    assert_eq!(cg.p30_pattern_level("top", 1, (0, 1)),
        Err("duplicate fixed unpacked-array pattern index `1` in `top`".to_string()));
    let cg = keyed(vec![Some("default"), Some("default")]);
    assert_eq!(cg.p30_pattern_level("top", 1, (0, 1)),
        Err("duplicate default key in fixed unpacked-array pattern in `top`".to_string()));
    let cg = keyed(vec![Some("x")]);
    assert_eq!(cg.p30_pattern_level("top", 1, (0, 1)),
        Err("fixed unpacked-array pattern key `x` is not a constant index in `top`".to_string()));
    let cg = keyed(vec![Some("4294967296")]);
    assert_eq!(cg.p30_pattern_level("top", 1, (0, 1)),
        Err("fixed unpacked-array pattern index `4294967296` is out of range in `top`".to_string()));
    let cg = keyed(vec![None]);
    assert_eq!(cg.p30_pattern_level("top", 1, (0, 1)),
        Err("fixed unpacked-array pattern key is unavailable in `top`".to_string()));
    let cg = build(vec![
        node("top", None, NodeKind::Other),
        node("p", Some(0), pattern(vec![2, 3], false)),
        tag(Some("0"), None, 1),
        leaf("b", 1),
    ]);
    assert_eq!(cg.p30_pattern_level("top", 1, (0, 1)),
        Err("mixed positional and keyed fixed unpacked-array assignment pattern in `top` is not supported".to_string()));
    let cg = build(vec![
        node("top", None, NodeKind::Other),
        node("p", Some(0), pattern(vec![2], false)),
        tag(Some("0"), None, 1),
    ]);
    assert_eq!(cg.p30_pattern_level("top", 1, (0, 1)),
        Err("fixed unpacked-array pattern key `0` has no value in `top`".to_string()));
}

#[test]
fn nested_patterns_flatten_first_dimension_slowest() {
    let cg = build(vec![
        node("top", None, NodeKind::Other),
        node("outer", Some(0), pattern(vec![2, 5], false)),
        node("row0", Some(1), pattern(vec![3, 4], false)),
        leaf("a", 2),
        leaf("b", 2),
        leaf("row1", 1),
    ]);
    // Row 1 is a single item that fills both of its elements.
    assert_eq!(cg.p30_pattern_values("top", 1, &[(0, 1), (1, 0)]), Ok(vec![3, 4, 5, 5]));
    // A non-pattern item fills the whole array.
    assert_eq!(cg.p30_pattern_values("top", 5, &[(0, 1), (0, 2)]), Ok(vec![5; 6]));
    assert_eq!(cg.p30_pattern_values("top", 5, &[]), Ok(vec![5]));
    assert_eq!(cg.p30_pattern_values("top", 1, &[(0, 2), (1, 0)]), Err(
        "fixed unpacked-array assignment pattern in `top` has 2 positional values; expected 3".to_string()));
    assert_eq!(cg.p30_pattern_values("top", 5, &[(0, 1), (i32::MIN, i32::MAX), (i32::MIN, i32::MAX), (i32::MIN, i32::MAX)]),
        Err("fixed unpacked-array pattern is too large in `top`".to_string()));
}

#[test]
fn pattern_targets_keep_the_dimensions_they_select() {
    let mut cg = build(vec![
        node("top", None, NodeKind::Other),
        node("m", Some(0), NodeKind::Array { ty: ty(TypeKind::Logic, None, Some(8), false) }),
        node("ps", Some(0), NodeKind::Expr(ExprKind::PartSelect { base: 3, left: 4, right: 5 })),
        node("m", Some(2), NodeKind::Expr(ExprKind::Ref { target: Some(1) })),
        node("l", Some(2), NodeKind::Expr(ExprKind::Constant { value: Some(2), null: false })),
        node("r", Some(2), NodeKind::Expr(ExprKind::Constant { value: Some(1), null: false })),
        node("sel", Some(0), NodeKind::Expr(ExprKind::ArraySelect { base: 7, indices: vec![8] })),
        node("m", Some(6), NodeKind::Expr(ExprKind::Ref { target: Some(1) })),
        node("i", Some(6), NodeKind::Expr(ExprKind::Constant { value: Some(0), null: false })),
    ]);
    let array = ArrayInfo { dims: vec![(0, 3), (1, 0), (7, 0)], elem_width: 8, real: false, is_net: false, ir: 0 };
    cg.arrays[1] = Some(ArrayInfo { dims: array.dims.clone(), elem_width: 8, real: false, is_net: false, ir: 0 });
    assert_eq!(cg.p30_target_pattern_dims(2, &array), vec![(2, 1), (1, 0), (7, 0)]);
    assert_eq!(cg.p30_target_pattern_dims(6, &array), vec![(1, 0), (7, 0)]);
    assert_eq!(cg.p30_target_pattern_dims(1, &array), vec![(0, 3), (1, 0), (7, 0)]);
}
