use lapligence::codegen::Codegen;
use lapligence::design::{
    IrModel, LifetimeQualifier, Node, NodeKind, TypeInfo, TypeKind, VariableLifetime,
};

fn node(name: &str, parent: Option<usize>, kind: NodeKind) -> Node {
    Node {
        name: name.to_string(),
        parent,
        children: Vec::new(),
        kind,
        file: None,
        line: 0,
        col: 0,
        instance_path: String::new(),
        lifetime: VariableLifetime::Automatic,
        lifetime_qualifier: LifetimeQualifier::Unqualified,
        initializer: None,
        two_state: false,
        body: None,
        program: false,
        clocking_var: false,
        clocking_block: false,
        packed_dims: Vec::new(),
    }
}

fn ty(kind: TypeKind, label: Option<&str>, width: Option<u32>, signed: bool) -> TypeInfo {
    TypeInfo { kind, type_label: label.map(|s| s.to_string()), width, signed }
}

fn empty_model() -> IrModel {
    IrModel { signals: Vec::new(), processes: Vec::new(), objects: Vec::new(), net_groups: Vec::new(), containers: Vec::new(), virtual_interfaces: Vec::new() }
}

/// Fill in every node's children from the parent links, in index order.
fn build(mut nodes: Vec<Node>) -> Codegen {
    for i in 0..nodes.len() {
        if let Some(p) = nodes[i].parent {
            nodes[p].children.push(i);
        }
    }
    Codegen::new(nodes, empty_model())
}
use lapligence::design::{ExprKind, IrSignal, NetGroup, NetType, SignalInfo, StmtKind};
use lapligence::nets::{IrNetKind, MemberWrite};

fn group(name: &str) -> NetGroup {
    NetGroup { c_name: name.to_string(), width: 4, signed: false, n_drivers: 0, driver_strengths: Vec::new() }
}

fn net(name: &str, parent: usize) -> Node {
    node(name, Some(parent), NodeKind::Net { ty: ty(TypeKind::Logic, None, Some(4), false), net_type: NetType::Wire })
}

fn signal(global: &str, ir: usize) -> SignalInfo {
    SignalInfo { global: global.to_string(), width: 4, signed: false, two_state: false, real: false, shortreal: false, ir }
}

#[test]
fn structural_driver_slots_are_registered_once() {
    let mut cg = build(vec![node("top", None, NodeKind::Other)]);
    cg.model.net_groups.push(group("N_w"));
    let first = cg.add_structural_driver(0, 7, (1, 1)).unwrap();
    assert_eq!(first, 0);
    assert_eq!(cg.model.signals[0].c_name, "N_w.resolved");
    assert_eq!(cg.model.signals[0].net_driver, Some((0, 0)));
    assert_eq!(cg.model.net_groups[0].n_drivers, 1);
    assert_eq!(cg.model.net_groups[0].driver_strengths, vec![(1, 1)]);
    assert_eq!(cg.structural_driver_signal(7, 0), Some(0));
    assert!(cg.has_structural_driver(7));
    assert!(!cg.has_structural_driver(8));
    // Registering the same site again changes nothing.
    assert_eq!(cg.add_structural_driver(0, 7, (2, 2)), Ok(0));
    assert_eq!(cg.model.net_groups[0].n_drivers, 1);
    assert_eq!(cg.model.signals.len(), 1);
    // A later output terminal of the same source gets its own slot.
    assert_eq!(cg.add_structural_driver_for_terminal(0, 7, (1, 1), 1), Ok(1));
    assert_eq!(cg.model.signals[1].net_driver, Some((0, 1)));
    assert_eq!(cg.structural_driver_signal_for_terminal(7, 0, 1), Some(1));
    assert_eq!(cg.structural_driver_signal_for_terminal(7, 0, 0), Some(0));
    assert_eq!(cg.structural_driver_signal_for_terminal(7, 0, 2), None);
    // A second source is independent.
    assert_eq!(cg.add_structural_driver(0, 9, (1, 1)), Ok(2));
    assert_eq!(cg.structural_driver_signal(9, 0), Some(2));
    assert_eq!(cg.structural_driver_signal(7, 0), Some(0));
    assert!(cg.add_structural_driver(3, 9, (1, 1)).is_err());
}

#[test]
fn net_groups_refuse_drivers_past_the_runtime_limit() {
    let mut cg = build(vec![node("top", None, NodeKind::Other)]);
    let mut g = group("N_full");
    g.n_drivers = lapligence::nets::LLG_MAX_NET_DRIVERS;
    cg.model.net_groups.push(g);
    assert!(cg.add_structural_driver(0, 1, (1, 1)).is_err());
    assert!(cg.model.signals.is_empty());
}

#[test]
fn net_kinds() {
    assert_eq!(Codegen::ir_net_kind(&NetType::Wire), Some(IrNetKind::Wire));
    assert_eq!(Codegen::ir_net_kind(&NetType::Uwire), Some(IrNetKind::Wire));
    assert_eq!(Codegen::ir_net_kind(&NetType::TriAnd), Some(IrNetKind::Wand));
    assert_eq!(Codegen::ir_net_kind(&NetType::Wor), Some(IrNetKind::Wor));
    assert_eq!(Codegen::ir_net_kind(&NetType::Tri0), Some(IrNetKind::Tri0));
    assert_eq!(Codegen::ir_net_kind(&NetType::Supply1), Some(IrNetKind::Supply1));
    assert_eq!(Codegen::ir_net_kind(&NetType::TriReg), None);
    assert_eq!(Codegen::ir_net_kind(&NetType::Reg), None);
    assert_eq!(Codegen::ir_net_kind(&NetType::Undeclared), None);
}

#[test]
fn member_writes_are_classified() {
    // top: net a, net b, assign a = ..., always: a[i] = ..., b <= ...
    let mut cg = build(vec![
        node("top", None, NodeKind::Other),
        net("a", 0),
        net("b", 0),
        node("ca", Some(0), NodeKind::ContAssign { net_decl: false }),
        node("a", Some(3), NodeKind::Expr(ExprKind::Ref { target: Some(1) })),
        node("blk", Some(0), NodeKind::Stmt(StmtKind::Assign { blocking: true, delayed: false })),
        node("sel", Some(5), NodeKind::Expr(ExprKind::BitSelect { base: 7, index: 8 })),
        node("a", Some(6), NodeKind::Expr(ExprKind::Ref { target: Some(1) })),
        node("i", Some(6), NodeKind::Expr(ExprKind::Ref { target: Some(2) })),
        node("nba", Some(0), NodeKind::Stmt(StmtKind::Assign { blocking: false, delayed: false })),
        node("b", Some(9), NodeKind::Expr(ExprKind::Ref { target: Some(2) })),
    ]);
    let a = vec![1usize];
    let b = vec![2usize];
    assert!(cg.member_write_kind(4, &a) == MemberWrite::Whole);
    assert!(cg.member_write_kind(6, &a) == MemberWrite::Select);
    assert!(cg.member_write_kind(6, &b) == MemberWrite::Untouched);
    assert_eq!(cg.member_write_base(6, &a), Some(1));
    assert_eq!(cg.nested_member_target(5, &a), Some(1));
    assert_eq!(cg.nested_member_target(3, &b), None);
    assert_eq!(
        cg.unsupported_member_write(&a),
        Some("bit/part/select LHS on member `a`".to_string())
    );
    assert_eq!(
        cg.unsupported_member_write(&b),
        Some("nonblocking assignment to member `b`".to_string())
    );
    assert_eq!(cg.unsupported_member_write(&vec![]), None);
    // Aliases are seen through references and selects.
    cg.signals[1] = Some(signal("G_a", 0));
    cg.model.signals.push(IrSignal {
        c_name: "G_a".to_string(),
        width: 4,
        signed: false,
        two_state: false,
        real: false,
        net_driver: None,
        aliased: true,
        hdl_name: None,
        omit: false,
    });
    assert!(cg.expression_may_touch_alias(6));
    assert!(cg.expression_may_touch_alias(1));
    assert!(!cg.expression_may_touch_alias(2));
    assert_eq!(cg.alias_base_net(3, 4), Ok(1));
    assert!(cg.alias_base_net(3, 6).is_err());
}

#[test]
fn alias_diagnostics_name_the_alias_and_its_location() {
    let mut nodes = vec![node("top", None, NodeKind::Other), node("al", Some(0), NodeKind::Other)];
    nodes[0].instance_path = "tb".to_string();
    nodes[1].file = Some("t.sv".to_string());
    nodes[1].line = 9;
    nodes[1].col = 1;
    let cg = build(nodes);
    assert_eq!(cg.alias_error(1, "is odd"), "net alias `tb.al` is odd at t.sv:9:1");
}

#[test]
fn alias_bits_stay_inside_their_net() {
    let mut nodes = vec![node("top", None, NodeKind::Other), net("n", 0), node("al", Some(0), NodeKind::Other)];
    nodes[2].file = Some("t.sv".to_string());
    nodes[2].line = 3;
    nodes[2].col = 5;
    let mut cg = build(nodes);
    let b = cg.alias_bit(2, 1, 3).unwrap();
    assert_eq!((b.net, b.bit), (1, 3));
    let e = cg.alias_bit(2, 1, 4).unwrap_err();
    assert!(e.ends_with("has a packed bit index outside its net at t.sv:3:5"), "{e}");
    let e = cg.alias_bit(2, 1, -1).unwrap_err();
    assert!(e.contains("outside the runtime range"), "{e}");
    let e = cg.alias_bit(2, 1, 1 << 40).unwrap_err();
    assert!(e.contains("outside the runtime range"), "{e}");
    let e = cg.alias_bit(2, 2, 0).unwrap_err();
    assert!(e.contains("does not reference a plain net"), "{e}");
    // A lowered signal's width wins over the declared one.
    cg.signals[1] = Some(SignalInfo { width: 8, ..signal("G_n", 0) });
    assert_eq!(cg.alias_bit(2, 1, 7).unwrap().bit, 7);
}

#[test]
fn standalone_wired_nets_in_node_order() {
    let net = |nt: NetType| NodeKind::Net { ty: ty(TypeKind::Logic, None, Some(1), false), net_type: nt };
    let cg = build(vec![
        node("top", None, NodeKind::ModuleInst { is_top: true, is_interface: false, def_name: "top".to_string() }),
        node("w", Some(0), net(NetType::Wire)),
        node("a", Some(0), net(NetType::Wand)),
        node("r", Some(0), net(NetType::Reg)),
        node("bus", Some(0), NodeKind::ModuleInst { is_top: false, is_interface: true, def_name: "bus".to_string() }),
        node("iw", Some(4), net(NetType::Wire)),
        node("io", Some(4), net(NetType::TriOr)),
        node("s", Some(0), net(NetType::Supply1)),
    ]);
    let got = cg.wired_net_candidates(&vec![1, 2, 3, 4, 5, 6, 7]);
    assert_eq!(got, vec![(1, IrNetKind::Wire), (2, IrNetKind::Wand), (6, IrNetKind::Wor), (7, IrNetKind::Supply1)]);
}
