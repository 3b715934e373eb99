use lapligence::codegen::Codegen;
use lapligence::design::{
    IrModel, LifetimeQualifier, Node, NodeKind, TypeInfo, TypeKind, VariableLifetime,
};

fn node(name: &str, parent: Option<usize>, kind: NodeKind) -> Node {
    Node {
        name: name.to_string(),
        parent,
        children: Vec::new(),
        kind,
        file: None,
        line: 0,
        col: 0,
        instance_path: String::new(),
        lifetime: VariableLifetime::Automatic,
        lifetime_qualifier: LifetimeQualifier::Unqualified,
        initializer: None,
        two_state: false,
        body: None,
        program: false,
        clocking_var: false,
        clocking_block: false,
        packed_dims: Vec::new(),
    }
}

fn ty(kind: TypeKind, label: Option<&str>, width: Option<u32>, signed: bool) -> TypeInfo {
    TypeInfo { kind, type_label: label.map(|s| s.to_string()), width, signed }
}

fn empty_model() -> IrModel {
    IrModel { signals: Vec::new(), processes: Vec::new(), objects: Vec::new(), net_groups: Vec::new(), containers: Vec::new(), virtual_interfaces: Vec::new() }
}

/// Fill in every node's children from the parent links, in index order.
fn build(mut nodes: Vec<Node>) -> Codegen {
    for i in 0..nodes.len() {
        if let Some(p) = nodes[i].parent {
            nodes[p].children.push(i);
        }
    }
    Codegen::new(nodes, empty_model())
}
use lapligence::design::{AlwaysKind, ExprKind, ProcessKind};
use lapligence::processes::IrDependency;

#[test]
fn dependency_labels() {
    let cg = build(vec![node("top", None, NodeKind::Other)]);
    assert_eq!(cg.dependency_label(&IrDependency::Scalar("G_a".to_string())), "G_a");
    assert_eq!(cg.dependency_label(&IrDependency::Real("G_r".to_string())), "G_r");
    let range = IrDependency::PackedRange {
        storage: Box::new(IrDependency::Scalar("G_v".to_string())),
        lsb: 4,
        width: 8,
    };
    assert_eq!(cg.dependency_label(&range), "G_v[4 +: 8]");
    assert_eq!(cg.dependency_label(&IrDependency::ArrayElement { array: 2, index: 7 }), "array[2] element 7");
    assert_eq!(cg.dependency_label(&IrDependency::ArrayContents(3)), "array[3] contents");
    assert_eq!(cg.dependency_label(&IrDependency::ContainerContents(1)), "container[1] contents");
    assert_eq!(cg.dependency_label(&IrDependency::ContainerShape(0)), "container[0] shape");
    assert_eq!(cg.dependency_label(&IrDependency::Object(12)), "object[12] contents");
}

#[test]
fn process_kind_labels() {
    let cg = build(vec![node("top", None, NodeKind::Other)]);
    assert_eq!(cg.process_kind_label(Some(AlwaysKind::Comb)), "always_comb");
    assert_eq!(cg.process_kind_label(Some(AlwaysKind::Latch)), "always_latch");
    assert_eq!(cg.process_kind_label(Some(AlwaysKind::FlipFlop)), "always_ff");
    assert_eq!(cg.process_kind_label(Some(AlwaysKind::Always)), "always");
    assert_eq!(cg.process_kind_label(Some(AlwaysKind::Unsupported)), "always");
    assert_eq!(cg.process_kind_label(None), "process");
}

#[test]
fn source_locations() {
    let mut nodes = vec![node("top", None, NodeKind::Other), node("a", Some(0), NodeKind::Other)];
    nodes[1].file = Some("rtl/a.sv".to_string());
    nodes[1].line = 12;
    nodes[1].col = 3;
    let cg = build(nodes);
    assert_eq!(cg.source_location(1), "rtl/a.sv:12:3");
    assert_eq!(cg.source_location(0), "<unknown>:0:0");
}

#[test]
fn fresh_names_and_enables() {
    let mut cg = build(vec![node("top", None, NodeKind::Other)]);
    let ir = cg.new_pca_enable("tb.u0");
    assert_eq!(ir, 0);
    assert_eq!(cg.model.signals[0].c_name, "G_tb_u0_pca$0_en");
    assert_eq!(cg.model.signals[0].width, 1);
    assert_eq!(cg.new_pca_enable("tb.u0"), 1);
    assert_eq!(cg.model.signals[1].c_name, "G_tb_u0_pca$1_en");
    assert_eq!(cg.new_fn_name("tb.u0", "always"), "p_tb_u0_always_0");
    assert_eq!(cg.new_fn_name("tb", "gate"), "p_tb_gate_1");
}

#[test]
fn frame_ids_are_fresh_until_exhausted() {
    let mut cg = build(vec![node("top", None, NodeKind::Other)]);
    assert_eq!(cg.new_frame_id(), Ok(0));
    assert_eq!(cg.new_frame_id(), Ok(1));
    cg.frame_seq = u32::MAX - 1;
    assert_eq!(cg.new_frame_id(), Ok(u32::MAX - 1));
    assert!(cg.new_frame_id().is_err());
    assert_eq!(cg.frame_seq, u32::MAX);
}

#[test]
fn programs_reject_structural_members() {
    let mut nodes = vec![
        node("prog", None, NodeKind::ModuleInst { is_top: true, is_interface: false, def_name: "p".to_string() }),
        node("init", Some(0), NodeKind::Process { kind: ProcessKind::Initial }),
    ];
    nodes[0].program = true;
    nodes[0].instance_path = "tb".to_string();
    let cg = build(nodes);
    assert_eq!(cg.validate_program_constructs(), Ok(()));

    let mut nodes = vec![
        node("prog", None, NodeKind::ModuleInst { is_top: true, is_interface: false, def_name: "p".to_string() }),
        node("init", Some(0), NodeKind::Process { kind: ProcessKind::Initial }),
        node("ff", Some(0), NodeKind::Process { kind: ProcessKind::Always { always_type: AlwaysKind::FlipFlop } }),
    ];
    nodes[0].program = true;
    nodes[0].instance_path = "tb".to_string();
    nodes[2].file = Some("p.sv".to_string());
    nodes[2].line = 4;
    nodes[2].col = 2;
    let cg = build(nodes);
    assert_eq!(cg.validate_program_constructs(), Err("program `tb` cannot contain an always process at p.sv:4:2".to_string()));

    // The same member is legal in a module.
    let nodes = vec![
        node("m", None, NodeKind::ModuleInst { is_top: true, is_interface: false, def_name: "m".to_string() }),
        node("ca", Some(0), NodeKind::ContAssign { net_decl: false }),
    ];
    assert_eq!(build(nodes).validate_program_constructs(), Ok(()));
}

#[test]
fn net_lvalue_selects_must_be_constant() {
    let cg = build(vec![
        node("top", None, NodeKind::Other),
        node("w", Some(0), NodeKind::Net { ty: ty(TypeKind::Logic, None, Some(8), false), net_type: lapligence::design::NetType::Wire }),
        node("sel", Some(0), NodeKind::Expr(ExprKind::BitSelect { base: 3, index: 4 })),
        node("w", Some(2), NodeKind::Expr(ExprKind::Ref { target: Some(1) })),
        node("k", Some(2), NodeKind::Expr(ExprKind::Constant { value: Some(3), null: false })),
        node("dyn", Some(0), NodeKind::Expr(ExprKind::BitSelect { base: 6, index: 7 })),
        node("w", Some(5), NodeKind::Expr(ExprKind::Ref { target: Some(1) })),
        node("i", Some(5), NodeKind::Expr(ExprKind::Ref { target: Some(1) })),
    ]);
    assert!(cg.net_lvalue_selects_are_constant(2));
    assert!(!cg.net_lvalue_selects_are_constant(5));
    assert!(cg.net_lvalue_selects_are_constant(1));
}
