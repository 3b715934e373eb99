use lapligence::codegen::Codegen;
use lapligence::design::{
    IrModel, LifetimeQualifier, Node, NodeKind, TypeInfo, TypeKind, VariableLifetime,
};

fn node(name: &str, parent: Option<usize>, kind: NodeKind) -> Node {
    Node {
        name: name.to_string(),
        parent,
        children: Vec::new(),
        kind,
        file: None,
        line: 0,
        col: 0,
        instance_path: String::new(),
        lifetime: VariableLifetime::Automatic,
        lifetime_qualifier: LifetimeQualifier::Unqualified,
        initializer: None,
        two_state: false,
        body: None,
        program: false,
        clocking_var: false,
        clocking_block: false,
        packed_dims: Vec::new(),
    }
}

fn ty(kind: TypeKind, label: Option<&str>, width: Option<u32>, signed: bool) -> TypeInfo {
    TypeInfo { kind, type_label: label.map(|s| s.to_string()), width, signed }
}

fn empty_model() -> IrModel {
    IrModel { signals: Vec::new(), processes: Vec::new(), objects: Vec::new(), net_groups: Vec::new(), containers: Vec::new(), virtual_interfaces: Vec::new() }
}

/// Fill in every node's children from the parent links, in index order.
fn build(mut nodes: Vec<Node>) -> Codegen {
    for i in 0..nodes.len() {
        if let Some(p) = nodes[i].parent {
            nodes[p].children.push(i);
        }
    }
    Codegen::new(nodes, empty_model())
}
use lapligence::design::{ArrayInfo, ExprKind, NetType, SignalInfo};
use lapligence::initialization::NetDeclTarget;
use lapligence::ir::{IrExpr, IrExprKind};
use lapligence::structural::IrLhs;

fn coordinate(e: &IrExpr) -> i128 {
    match e.kind {
        IrExprKind::Const { raw, .. } => (raw as u32) as i32 as i128,
        _ => panic!("not a constant coordinate"),
    }
}

#[test]
fn coordinates_walk_each_dimension_from_left_to_right() {
    let mut out = Vec::new();
    Codegen::p30_append_coordinates(&[(1, 0), (2, 4)], &[], &mut out).unwrap();
    let got: Vec<Vec<i128>> = out.iter().map(|c| c.iter().map(coordinate).collect()).collect();
    assert_eq!(
        got,
        vec![vec![1, 2], vec![1, 3], vec![1, 4], vec![0, 2], vec![0, 3], vec![0, 4]]
    );
    let c = Codegen::p30_const_index(-3);
    assert_eq!(c.width, 32);
    assert!(c.signed);
    assert_eq!(coordinate(&c), -3);
}

#[test]
fn array_views_under_a_prefix() {
    let array = ArrayInfo { dims: vec![(0, 1), (3, 2)], elem_width: 4, real: false, is_net: false, ir: 0 };
    let prefix = vec![Codegen::p30_const_index(1)];
    let view = Codegen::p30_view_from_prefix(array, &prefix).unwrap();
    let got: Vec<Vec<i128>> = view.coordinates.iter().map(|c| c.iter().map(coordinate).collect()).collect();
    assert_eq!(got, vec![vec![1, 3], vec![1, 2]]);
    let array = ArrayInfo { dims: vec![(0, 1)], elem_width: 4, real: false, is_net: false, ir: 0 };
    let prefix = vec![Codegen::p30_const_index(0), Codegen::p30_const_index(1)];
    assert_eq!(Codegen::p30_view_from_prefix(array, &prefix).err(),
        Some("fixed unpacked-array index rank exceeds the declared rank".to_string()));
}

fn bound(name: &str, v: Option<i128>) -> Node {
    node(name, Some(0), NodeKind::Expr(ExprKind::Constant { value: v, null: false }))
}

fn slice_rows(cg: &Codegen, array: &ArrayInfo, prefix: &[IrExpr], l: usize, r: usize) -> Result<Vec<Vec<i128>>, String> {
    let array = ArrayInfo { dims: array.dims.clone(), elem_width: array.elem_width, real: false, is_net: false, ir: 0 };
    cg.p30_slice_view_with_prefix("top", array, prefix, l, r)
        .map(|v| v.coordinates.iter().map(|c| c.iter().map(coordinate).collect()).collect())
}

#[test]
fn array_slices_include_both_bounds() {
    let cg = build(vec![
        node("top", None, NodeKind::Other),
        bound("two", Some(2)),
        bound("one", Some(1)),
        bound("three", Some(3)),
        bound("x", None),
        bound("big", Some(1 << 40)),
    ]);
    let array = ArrayInfo { dims: vec![(3, 0), (0, 1)], elem_width: 4, real: false, is_net: false, ir: 0 };
    assert_eq!(slice_rows(&cg, &array, &[], 1, 2), Ok(vec![vec![2, 0], vec![2, 1], vec![1, 0], vec![1, 1]]));
    assert_eq!(slice_rows(&cg, &array, &[], 2, 3),
        Ok(vec![vec![1, 0], vec![1, 1], vec![2, 0], vec![2, 1], vec![3, 0], vec![3, 1]]));
    assert_eq!(slice_rows(&cg, &array, &[], 1, 1), Ok(vec![vec![2, 0], vec![2, 1]]));
    let prefix = vec![Codegen::p30_const_index(3)];
    assert_eq!(slice_rows(&cg, &array, &prefix, 2, 2), Ok(vec![vec![3, 1]]));
    assert_eq!(slice_rows(&cg, &array, &prefix, 3, 3),
        Err("fixed unpacked-array slice [3:3] is outside declared bounds [0:1] in `top`".to_string()));
    assert_eq!(slice_rows(&cg, &array, &[], 4, 2),
        Err("fixed unpacked-array slice bounds in `top` must be constant integers".to_string()));
    assert_eq!(slice_rows(&cg, &array, &[], 5, 2),
        Err("fixed unpacked-array slice left bound is out of range in `top`".to_string()));
    let deep = vec![Codegen::p30_const_index(3), Codegen::p30_const_index(0)];
    assert_eq!(slice_rows(&cg, &array, &deep, 2, 2),
        Err("fixed unpacked-array slice has no dimension in `top`".to_string()));
}

#[test]
fn net_declaration_targets() {
    let net = |nt: NetType| NodeKind::Net { ty: ty(TypeKind::Logic, None, Some(1), false), net_type: nt };
    let cg = build(vec![
        node("top", None, NodeKind::Other),
        node("w", Some(0), net(NetType::Wire)),
        node("r", Some(0), net(NetType::Reg)),
        node("t", Some(0), net(NetType::TriReg)),
        node("v", Some(0), NodeKind::Var { ty: ty(TypeKind::Logic, None, Some(1), false) }),
        node("a", Some(0), NodeKind::Array { ty: ty(TypeKind::Logic, None, Some(8), false) }),
        node("ca_w", Some(0), NodeKind::ContAssign { net_decl: true }),
        node("w", Some(6), NodeKind::Expr(ExprKind::Ref { target: Some(1) })),
        node("ca_r", Some(0), NodeKind::ContAssign { net_decl: true }),
        node("r", Some(8), NodeKind::Expr(ExprKind::Ref { target: Some(2) })),
        node("ca_t", Some(0), NodeKind::ContAssign { net_decl: true }),
        node("t", Some(10), NodeKind::Expr(ExprKind::Ref { target: Some(3) })),
        node("ca_v", Some(0), NodeKind::ContAssign { net_decl: true }),
        node("v", Some(12), NodeKind::Expr(ExprKind::Ref { target: Some(4) })),
        node("ca_a", Some(0), NodeKind::ContAssign { net_decl: true }),
        node("a", Some(14), NodeKind::Expr(ExprKind::Ref { target: Some(5) })),
        node("ca_plain", Some(0), NodeKind::ContAssign { net_decl: false }),
        node("ca_empty", Some(0), NodeKind::ContAssign { net_decl: true }),
    ]);
    assert!(cg.net_decl_target(6) == NetDeclTarget::TrueNet);
    assert!(cg.net_decl_target(8) == NetDeclTarget::Variable);
    assert!(cg.net_decl_target(10) == NetDeclTarget::UnsupportedNet(NetType::TriReg));
    assert!(cg.net_decl_target(12) == NetDeclTarget::Variable);
    assert!(cg.net_decl_target(14) == NetDeclTarget::Array);
    assert!(cg.net_decl_target(17) == NetDeclTarget::Unknown);
    assert_eq!(cg.cont_assign_decl_target(6), Some(1));
    assert_eq!(cg.cont_assign_array_target(14), Some(5));
    assert_eq!(cg.cont_assign_array_target(6), None);
    assert_eq!(cg.ref_array_target(15), Some(5));
    assert!(cg.is_runtime_continuous_driver(6));
    assert!(!cg.is_runtime_continuous_driver(8));
    assert!(cg.is_runtime_continuous_driver(16));
    assert!(!cg.is_runtime_continuous_driver(1));
}

#[test]
fn declaration_initializer_constants() {
    let mut cg = build(vec![
        node("top", None, NodeKind::Other),
        node("m", Some(0), NodeKind::Array { ty: ty(TypeKind::Logic, None, Some(8), false) }),
        node("ca", Some(0), NodeKind::ContAssign { net_decl: true }),
        node("m", Some(2), NodeKind::Expr(ExprKind::Ref { target: Some(1) })),
        node("pat", Some(2), NodeKind::Expr(ExprKind::AssignmentPattern { operands: vec![5, 6], reordered: false })),
        node("a", Some(4), NodeKind::Expr(ExprKind::Constant { value: Some(3), null: false })),
        node("b", Some(4), NodeKind::Expr(ExprKind::Constant { value: Some(-1), null: false })),
        node("y", Some(0), NodeKind::Var { ty: ty(TypeKind::Logic, None, Some(4), false) }),
        node("ca2", Some(0), NodeKind::ContAssign { net_decl: true }),
        node("y", Some(8), NodeKind::Expr(ExprKind::Ref { target: Some(7) })),
        node("k", Some(8), NodeKind::Expr(ExprKind::Constant { value: Some(9), null: false })),
        node("x", Some(0), NodeKind::Expr(ExprKind::Other)),
    ]);
    assert_eq!(cg.array_init_consts("top", "m", 4), Ok(vec![3, -1]));
    assert!(cg.array_init_consts("top", "m", 5).is_err());
    let (target, values) = cg.cont_assign_array_init("top", 2).unwrap().unwrap();
    assert_eq!(target, 1);
    assert_eq!(values, vec![3, -1]);
    assert!(cg.cont_assign_array_init("top", 8).unwrap().is_none());
    assert_eq!(cg.var_decl_init("top", "y", 10), Ok(9));
    assert!(cg.var_decl_init("top", "y", 11).is_err());
    assert!(cg.scalar_decl_init("top", 8).unwrap().is_none());
    cg.signals[7] = Some(SignalInfo {
        global: "G_y".to_string(),
        width: 4,
        signed: false,
        two_state: false,
        real: false,
        shortreal: false,
        ir: 3,
    });
    let (info, value) = cg.scalar_decl_init("top", 8).unwrap().unwrap();
    assert_eq!(info.global, "G_y");
    assert_eq!(value, 9);
    assert_eq!(cg.collect_scalar_decl_init("top", 8), Ok(()));
    assert_eq!(cg.declaration_inits, vec![(3, 10)]);
    assert_eq!(cg.scalar_init_cas, vec![8]);
    assert!(cg.collect_scalar_decl_init("top", 2).is_err());
    assert_eq!(cg.declaration_inits.len(), 1);
}

#[test]
fn explicit_lifetimes() {
    let mut nodes = vec![
        node("top", None, NodeKind::Other),
        node("a", Some(0), NodeKind::Other),
        node("b", Some(0), NodeKind::Other),
        node("c", Some(0), NodeKind::Other),
        node("d", Some(0), NodeKind::Other),
    ];
    nodes[1].lifetime_qualifier = LifetimeQualifier::Static;
    nodes[2].lifetime_qualifier = LifetimeQualifier::Automatic;
    nodes[3].lifetime_qualifier = LifetimeQualifier::Ambiguous;
    nodes[4].lifetime_qualifier = LifetimeQualifier::Unavailable;
    let cg = build(nodes);
    assert_eq!(cg.explicit_local_lifetime(0), Ok(None));
    assert_eq!(cg.explicit_local_lifetime(1), Ok(Some("static")));
    assert_eq!(cg.explicit_local_lifetime(2), Ok(Some("automatic")));
    assert!(cg.explicit_local_lifetime(3).is_err());
    assert!(cg.explicit_local_lifetime(4).is_err());
}

fn info(global: &str, ir: usize) -> SignalInfo {
    SignalInfo { global: global.to_string(), width: 1, signed: false, two_state: false, real: false, shortreal: false, ir }
}

#[test]
fn signal_resolution_prefers_clocking_samples() {
    let mut nodes = vec![
        node("top", None, NodeKind::Other),
        node("a", Some(0), NodeKind::Var { ty: ty(TypeKind::Logic, None, Some(1), false) }),
        node("cv", Some(0), NodeKind::Var { ty: ty(TypeKind::Logic, None, Some(1), false) }),
        node("a", Some(0), NodeKind::Expr(ExprKind::Ref { target: Some(1) })),
        node("cv", Some(0), NodeKind::Expr(ExprKind::Ref { target: Some(2) })),
        node("p", Some(0), NodeKind::Expr(ExprKind::HierPath { refs: vec![Some(1), None] })),
    ];
    nodes[2].clocking_var = true;
    let mut cg = build(nodes);
    assert!(cg.resolve_signal_id("top", 3).is_err());
    cg.signals[1] = Some(info("G_a", 0));
    cg.signals[2] = Some(info("G_cv", 1));
    cg.clocking_sources[2] = Some(info("G_cv_sample", 2));
    assert_eq!(cg.resolve_signal_id("top", 3).unwrap().0, "G_a");
    assert_eq!(cg.resolve_signal_id("top", 5).unwrap().0, "G_a");
    assert_eq!(cg.resolve_signal_id("top", 4).unwrap().0, "G_cv");
    assert_eq!(cg.base_signal("top", 4).unwrap().0, "G_cv_sample");
    assert_eq!(cg.base_signal("top", 3).unwrap().0, "G_a");
    assert_eq!(cg.resolve_lhs_target(4, Some(2)).unwrap().0, "G_cv_sample");
    assert_eq!(cg.resolve_lhs_target(3, Some(1)).unwrap().1.ir, 0);
    assert!(cg.resolve_lhs_target(3, None).is_err());
}

#[test]
fn structural_targets_are_remapped_to_contribution_slots() {
    let mut cg = build(vec![node("top", None, NodeKind::Other)]);
    cg.model.net_groups.push(lapligence::design::NetGroup {
        c_name: "N_w".to_string(),
        width: 1,
        signed: false,
        n_drivers: 0,
        driver_strengths: Vec::new(),
    });
    cg.model.signals.push(lapligence::design::IrSignal {
        c_name: "N_w".to_string(),
        width: 1,
        signed: false,
        two_state: false,
        real: false,
        net_driver: Some((0, 0)),
        aliased: false,
        hdl_name: None,
        omit: false,
    });
    let whole = IrLhs::Whole(0);
    assert_eq!(cg.structural_group_for_lhs(&whole), Some(0));
    assert_eq!(cg.unmapped_structural_group(&whole, 5), Some(0));
    let slot = cg.add_structural_driver(0, 5, (1, 1)).unwrap();
    assert_eq!(slot, 1);
    assert_eq!(cg.unmapped_structural_group(&whole, 5), None);
    assert!(matches!(cg.remap_structural_lhs(IrLhs::Whole(0), 5), IrLhs::Whole(1)));
    // Another source has no slot, so its write is left alone.
    assert!(matches!(cg.remap_structural_lhs(IrLhs::Whole(0), 6), IrLhs::Whole(0)));
    let stream = IrLhs::Stream { parts: vec![(IrLhs::Part(0, 0, 0, false), 1), (IrLhs::WholeRef { local: "l".to_string() }, 1)], width: 2, slice: 1, left_to_right: true };
    assert_eq!(cg.structural_group_for_lhs(&stream), Some(0));
    match cg.remap_structural_lhs(stream, 5) {
        IrLhs::Stream { parts, width, .. } => {
            assert_eq!(width, 2);
            assert!(matches!(parts[0].0, IrLhs::Part(1, 0, 0, false)));
            assert!(matches!(parts[1].0, IrLhs::WholeRef { .. }));
        }
        _ => panic!("stream lost"),
    }
    assert_eq!(cg.unmapped_structural_group_for_terminal(&IrLhs::Whole(0), 5, 1), Some(0));
    assert!(matches!(cg.remap_structural_lhs_for_terminal(IrLhs::Whole(0), 5, 1), IrLhs::Whole(0)));
    // Terminal 0 is the plain remapping.
    assert!(matches!(cg.remap_structural_lhs_for_terminal(IrLhs::Whole(0), 5, 0), IrLhs::Whole(1)));
    assert!(matches!(cg.remap_structural_lhs_for_terminal(IrLhs::Whole(0), 6, 0), IrLhs::Whole(0)));
}

#[test]
fn coordinates_follow_the_inside_index_vectors() {
    let dims = [(1, 0), (2, 4), (-1, -1)];
    let mut out = Vec::new();
    Codegen::p30_append_coordinates(&dims, &[], &mut out).unwrap();
    let got: Vec<Vec<i128>> = out.iter().map(|c| c.iter().map(coordinate).collect()).collect();
    let want: Vec<Vec<i128>> = lapligence::expressions::inside_array_index_vectors(&dims)
        .iter().map(|v| v.iter().map(|i| *i as i128).collect()).collect();
    assert_eq!(got, want);
    assert_eq!(got.len(), 6);
}
