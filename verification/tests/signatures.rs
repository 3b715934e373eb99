use lapligence::codegen::Codegen;
use lapligence::design::{
    IrModel, LifetimeQualifier, Node, NodeKind, TypeInfo, TypeKind, VariableLifetime,
};

fn node(name: &str, parent: Option<usize>, kind: NodeKind) -> Node {
    Node {
        name: name.to_string(),
        parent,
        children: Vec::new(),
        kind,
        file: None,
        line: 0,
        col: 0,
        instance_path: String::new(),
        lifetime: VariableLifetime::Automatic,
        lifetime_qualifier: LifetimeQualifier::Unqualified,
        initializer: None,
        two_state: false,
        body: None,
        program: false,
        clocking_var: false,
        clocking_block: false,
        packed_dims: Vec::new(),
    }
}

fn ty(kind: TypeKind, label: Option<&str>, width: Option<u32>, signed: bool) -> TypeInfo {
    TypeInfo { kind, type_label: label.map(|s| s.to_string()), width, signed }
}

fn empty_model() -> IrModel {
    IrModel { signals: Vec::new(), processes: Vec::new(), objects: Vec::new(), net_groups: Vec::new(), containers: Vec::new(), virtual_interfaces: Vec::new() }
}

/// Fill in every node's children from the parent links, in index order.
fn build(mut nodes: Vec<Node>) -> Codegen {
    for i in 0..nodes.len() {
        if let Some(p) = nodes[i].parent {
            nodes[p].children.push(i);
        }
    }
    Codegen::new(nodes, empty_model())
}
use lapligence::design::Direction;

fn arg(name: &str, parent: usize, direction: Direction, t: TypeInfo) -> Node {
    node(name, Some(parent), NodeKind::FuncArg { direction, ty: t, const_ref: false })
}

fn logic(w: u32) -> TypeInfo {
    ty(TypeKind::Logic, None, Some(w), false)
}

#[test]
fn function_signature_orders_address_formals_first() {
    // function logic [7:0] f(input logic [3:0] a, output logic [3:0] b, ref int c, input string s);
    let mut nodes = vec![
        node("m", None, NodeKind::ModuleInst { is_top: true, is_interface: false, def_name: "m".to_string() }),
        node("f", Some(0), NodeKind::FuncTask { is_task: false, ret: Some(logic(8)), is_static: false }),
        node("f", Some(1), NodeKind::Var { ty: logic(8) }),
        arg("a", 1, Direction::Input, logic(4)),
        arg("b", 1, Direction::Output, logic(4)),
        arg("c", 1, Direction::Ref, ty(TypeKind::Int, None, Some(32), true)),
        arg("s", 1, Direction::Input, ty(TypeKind::String, None, None, false)),
        node("body", Some(1), NodeKind::Stmt(lapligence::design::StmtKind::Begin)),
    ];
    nodes[1].body = Some(7);
    let mut cg = build(nodes);
    assert_eq!(cg.func_formals(1), vec![(3, false), (4, true), (5, false), (6, false)]);
    assert_eq!(cg.func_body(1), Some(7));
    let (is_task, ret, formals) = cg.func_info(1, 0).unwrap();
    assert!(!is_task);
    assert_eq!(ret, Some((8, false, false, false)));
    assert_eq!(formals.len(), 4);
    assert!(cg.func_signature(1, 0).is_err());
    cg.func_names[1] = Some("f_m_f".to_string());
    let (text, _) = cg.func_signature(1, 0).unwrap();
    assert_eq!(
        text,
        "static sv4_t f_m_f(sv4_t* o1, llg_ref_t* r2, sv4_t a0, llg_string_t a3, int depth"
    );
    // A non-static class method takes the object first.
    cg.class_nodes[0] = true;
    let (text, _) = cg.func_signature(1, 0).unwrap();
    assert!(text.starts_with("static sv4_t f_m_f(void *_this, sv4_t* o1"));
}

#[test]
fn return_shapes() {
    let nodes = vec![
        node("m", None, NodeKind::Other),
        node("s", Some(0), NodeKind::FuncTask { is_task: false, ret: Some(ty(TypeKind::String, None, None, false)), is_static: false }),
        node("h", Some(0), NodeKind::FuncTask { is_task: false, ret: Some(ty(TypeKind::Chandle, None, None, false)), is_static: false }),
        node("r", Some(0), NodeKind::FuncTask { is_task: false, ret: Some(ty(TypeKind::ShortReal, None, None, false)), is_static: false }),
        node("w", Some(0), NodeKind::FuncTask { is_task: false, ret: Some(logic(70000)), is_static: false }),
        node("n", Some(0), NodeKind::FuncTask { is_task: false, ret: Some(ty(TypeKind::Logic, None, None, false)), is_static: false }),
        node("t", Some(0), NodeKind::FuncTask { is_task: true, ret: None, is_static: false }),
        node("v", Some(0), NodeKind::FuncTask { is_task: false, ret: Some(ty(TypeKind::Void, None, Some(1), false)), is_static: false }),
        node("i", Some(0), NodeKind::FuncTask { is_task: false, ret: Some(ty(TypeKind::Int, None, Some(32), true)), is_static: false }),
    ];
    let mut cg = build(nodes);
    assert!(cg.is_string_return(1) && !cg.is_chandle_return(1));
    assert!(cg.is_chandle_return(2) && !cg.is_string_return(2));
    assert_eq!(cg.func_info(1, 0).unwrap().1, None);
    assert_eq!(cg.func_info(3, 0).unwrap().1, Some((0, false, false, true)));
    assert!(cg.func_info(4, 0).is_err());
    assert!(cg.func_info(5, 0).is_err());
    assert!(cg.func_info(0, 0).is_err());
    assert_eq!(cg.dpi_return_info(6), Ok(None));
    assert_eq!(cg.dpi_return_info(7), Ok(None));
    assert_eq!(cg.dpi_return_info(8), Ok(Some((32, true, true, false))));
    assert!(cg.dpi_return_info(5).is_err());
    assert!(cg.dpi_return_info(0).is_err());
    cg.func_names[1] = Some("f_s".to_string());
    cg.func_names[6] = Some("t_t".to_string());
    assert_eq!(cg.func_signature(1, 0).unwrap().0, "static llg_string_t f_s(int depth");
    assert_eq!(cg.func_signature(6, 0).unwrap().0, "static void t_t(int depth");
}
