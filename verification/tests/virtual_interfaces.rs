use lapligence::codegen::Codegen;
use lapligence::design::{
    IrModel, LifetimeQualifier, Node, NodeKind, TypeInfo, TypeKind, VariableLifetime,
};

fn node(name: &str, parent: Option<usize>, kind: NodeKind) -> Node {
    Node {
        name: name.to_string(),
        parent,
        children: Vec::new(),
        kind,
        file: None,
        line: 0,
        col: 0,
        instance_path: String::new(),
        lifetime: VariableLifetime::Automatic,
        lifetime_qualifier: LifetimeQualifier::Unqualified,
        initializer: None,
        two_state: false,
        body: None,
        program: false,
        clocking_var: false,
        clocking_block: false,
        packed_dims: Vec::new(),
    }
}

fn ty(kind: TypeKind, label: Option<&str>, width: Option<u32>, signed: bool) -> TypeInfo {
    TypeInfo { kind, type_label: label.map(|s| s.to_string()), width, signed }
}

fn empty_model() -> IrModel {
    IrModel { signals: Vec::new(), processes: Vec::new(), objects: Vec::new(), net_groups: Vec::new(), containers: Vec::new(), virtual_interfaces: Vec::new() }
}

/// Fill in every node's children from the parent links, in index order.
fn build(mut nodes: Vec<Node>) -> Codegen {
    for i in 0..nodes.len() {
        if let Some(p) = nodes[i].parent {
            nodes[p].children.push(i);
        }
    }
    Codegen::new(nodes, empty_model())
}
use lapligence::design::ExprKind;

fn vif(spelling: &str) -> TypeInfo {
    ty(TypeKind::VirtualInterface, Some(spelling), None, false)
}

#[test]
fn spelling_identity_and_view() {
    assert_eq!(Codegen::virtual_interface_identity_from_spelling("bus.mp"), "bus");
    assert_eq!(Codegen::virtual_interface_view_from_spelling("bus.mp"), Some("mp".to_string()));
    // Dots inside parameter expressions are not view separators.
    assert_eq!(Codegen::virtual_interface_identity_from_spelling("bus#(.W(8))"), "bus#(.W(8))");
    assert_eq!(Codegen::virtual_interface_view_from_spelling("bus#(.W(8))"), None);
    assert_eq!(Codegen::virtual_interface_identity_from_spelling("bus#(.W(8)).mon"), "bus#(.W(8))");
    assert_eq!(Codegen::virtual_interface_view_from_spelling("bus#(.W(8)).mon"), Some("mon".to_string()));
    // A `$` suffix of an elaborated specialization is dropped.
    assert_eq!(Codegen::virtual_interface_identity_from_spelling("bus$1.mp"), "bus");
    // A trailing dot names no view.
    assert_eq!(Codegen::virtual_interface_view_from_spelling("bus."), None);
    assert_eq!(Codegen::normalize_virtual_interface_identity(" bus #( W = 8 )\t"), "bus#(W=8)");
}

#[test]
fn declared_spellings_follow_references_and_selects() {
    let cg = build(vec![
        node("top", None, NodeKind::Other),
        node("v", Some(0), NodeKind::Var { ty: vif("bus.mp") }),
        node("arr", Some(0), NodeKind::Array { ty: vif("bus") }),
        node("sel", Some(0), NodeKind::Expr(ExprKind::ArraySelect { base: 4, indices: vec![5] })),
        node("arr", Some(3), NodeKind::Expr(ExprKind::Ref { target: Some(2) })),
        node("k", Some(3), NodeKind::Expr(ExprKind::Constant { value: Some(0), null: false })),
        node("x", Some(0), NodeKind::Var { ty: ty(TypeKind::Int, None, Some(32), true) }),
    ]);
    assert_eq!(cg.virtual_interface_spelling(1), Some("bus.mp".to_string()));
    assert_eq!(cg.virtual_interface_spelling(3), Some("bus".to_string()));
    assert_eq!(cg.virtual_interface_spelling(6), None);
    assert!(cg.is_virtual_interface_array(2));
    assert!(!cg.is_virtual_interface_array(1));
}

#[test]
fn concrete_interface_identity_lists_known_parameters() {
    let cg = build(vec![
        node("top", None, NodeKind::Other),
        node("u_bus", Some(0), NodeKind::ModuleInst { is_top: false, is_interface: true, def_name: "work@bus".to_string() }),
        node("W", Some(1), NodeKind::Param { value: Some(8) }),
        node("D", Some(1), NodeKind::Param { value: Some(-2) }),
        node("U", Some(1), NodeKind::Param { value: None }),
        node("mp", Some(1), NodeKind::ModPort { direction: None }),
        node("u_plain", Some(0), NodeKind::ModuleInst { is_top: false, is_interface: true, def_name: "plain".to_string() }),
        node("u_mod", Some(0), NodeKind::ModuleInst { is_top: false, is_interface: false, def_name: "m".to_string() }),
        node("ref", Some(0), NodeKind::Expr(ExprKind::ScopeRef { target: 5 })),
        node("null", Some(0), NodeKind::Expr(ExprKind::Constant { value: None, null: true })),
    ]);
    assert_eq!(cg.concrete_virtual_interface_identity(1), Some("bus#(W=8,D=-2)".to_string()));
    assert_eq!(cg.concrete_virtual_interface_identity(6), Some("plain".to_string()));
    assert_eq!(cg.concrete_virtual_interface_identity(7), None);
    // A modport reference names the instance that owns it.
    assert_eq!(cg.virtual_interface_source_spelling(8), Some("bus#(W=8,D=-2)".to_string()));
    assert_eq!(cg.virtual_interface_source_spelling(9), None);
}

#[test]
fn assignment_compatibility() {
    let cg = build(vec![
        node("top", None, NodeKind::Other),
        node("a", Some(0), NodeKind::Var { ty: vif("bus.mp") }),
        node("b", Some(0), NodeKind::Var { ty: vif("bus") }),
        node("c", Some(0), NodeKind::Var { ty: vif("bus.mon") }),
        node("d", Some(0), NodeKind::Var { ty: vif("other") }),
        node("e", Some(0), NodeKind::Var { ty: vif("b u s.mp") }),
    ]);
    assert_eq!(cg.validate_virtual_interface_assignment(1, 2, "top"), Ok(()));
    assert_eq!(cg.validate_virtual_interface_assignment(2, 3, "top"), Ok(()));
    assert_eq!(cg.validate_virtual_interface_assignment(1, 5, "top"), Ok(()));
    assert_eq!(
        cg.validate_virtual_interface_assignment(1, 3, "top"),
        Err("virtual interface assignment in `top` has incompatible modport views: `mp` <- `mon`".to_string())
    );
    assert_eq!(
        cg.validate_virtual_interface_assignment(1, 4, "top"),
        Err("virtual interface assignment in `top` has incompatible parameter specialization: `bus.mp` <- `other`".to_string())
    );
}

#[test]
fn spelling_laws_on_examples() {
    let s = "bus #(.W(4)).mp";
    let id = Codegen::virtual_interface_identity_from_spelling(s);
    let view = Codegen::virtual_interface_view_from_spelling(s).unwrap();
    assert_eq!(format!("{}.{}", id, view), s);
    let once = Codegen::normalize_virtual_interface_identity(" bus #( .W (4) ) ");
    let twice = Codegen::normalize_virtual_interface_identity(&once);
    assert_eq!(once, twice);
    assert_eq!(once, "bus#(.W(4))");
}
