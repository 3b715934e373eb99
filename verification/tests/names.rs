use lapligence::codegen::Codegen;
use lapligence::design::{
    IrModel, LifetimeQualifier, Node, NodeKind, TypeInfo, TypeKind, VariableLifetime,
};

fn node(name: &str, parent: Option<usize>, kind: NodeKind) -> Node {
    Node {
        name: name.to_string(),
        parent,
        children: Vec::new(),
        kind,
        file: None,
        line: 0,
        col: 0,
        instance_path: String::new(),
        lifetime: VariableLifetime::Automatic,
        lifetime_qualifier: LifetimeQualifier::Unqualified,
        initializer: None,
        two_state: false,
        body: None,
        program: false,
        clocking_var: false,
        clocking_block: false,
        packed_dims: Vec::new(),
    }
}

fn ty(kind: TypeKind, label: Option<&str>, width: Option<u32>, signed: bool) -> TypeInfo {
    TypeInfo { kind, type_label: label.map(|s| s.to_string()), width, signed }
}

fn empty_model() -> IrModel {
    IrModel { signals: Vec::new(), processes: Vec::new(), objects: Vec::new(), net_groups: Vec::new(), containers: Vec::new(), virtual_interfaces: Vec::new() }
}

/// Fill in every node's children from the parent links, in index order.
fn build(mut nodes: Vec<Node>) -> Codegen {
    for i in 0..nodes.len() {
        if let Some(p) = nodes[i].parent {
            nodes[p].children.push(i);
        }
    }
    Codegen::new(nodes, empty_model())
}
use lapligence::design::{ArrayInfo, ExprKind};

fn dump_design(i: i128, j: Option<i128>) -> Codegen {
    let mut cg = build(vec![
        node("top", None, NodeKind::ModuleInst { is_top: true, is_interface: false, def_name: "top".to_string() }),
        node("m", Some(0), NodeKind::Array { ty: ty(TypeKind::Logic, None, Some(8), false) }),
        node("sel", Some(0), NodeKind::Expr(ExprKind::ArraySelect { base: 3, indices: vec![4, 5] })),
        node("m", Some(2), NodeKind::Expr(ExprKind::Ref { target: Some(1) })),
        node("i", Some(2), NodeKind::Expr(ExprKind::Constant { value: Some(i), null: false })),
        node("j", Some(2), NodeKind::Expr(ExprKind::Constant { value: j, null: false })),
        node("short", Some(0), NodeKind::Expr(ExprKind::ArraySelect { base: 7, indices: vec![8] })),
        node("m", Some(6), NodeKind::Expr(ExprKind::Ref { target: Some(1) })),
        node("i", Some(6), NodeKind::Expr(ExprKind::Constant { value: Some(0), null: false })),
        node("dangling", Some(0), NodeKind::Expr(ExprKind::Ref { target: None })),
        node("x", Some(0), NodeKind::Var { ty: ty(TypeKind::Logic, None, Some(1), false) }),
        node("r", Some(0), NodeKind::Expr(ExprKind::Ref { target: Some(10) })),
    ]);
    cg.arrays[1] = Some(ArrayInfo { dims: vec![(0, 3), (1, 0)], elem_width: 8, real: false, is_net: false, ir: 0 });
    cg
}

#[test]
fn dumpvars_selections_name_the_selected_element() {
    let cg = dump_design(2, Some(1));
    assert_eq!(cg.waveform_selection_name(2), Ok("top\u{1f}m[2][1]".to_string()));
    assert_eq!(cg.waveform_selection_name(11), Ok("top\u{1f}x".to_string()));
    assert_eq!(cg.waveform_selection_name(10), Ok("top\u{1f}x".to_string()));
}

#[test]
fn dumpvars_selections_report_why_they_select_nothing() {
    let cg = dump_design(2, Some(1));
    assert_eq!(cg.waveform_selection_name(6),
        Err("`$dumpvars` array selection `m` requires 2 declared indices".to_string()));
    assert_eq!(cg.waveform_selection_name(9),
        Err("`$dumpvars` reference `dangling` has no resolved target".to_string()));
    let cg = dump_design(4, Some(1));
    assert_eq!(cg.waveform_selection_name(2),
        Err("`$dumpvars` array index 4 for `m` is outside declared bounds [0:3]".to_string()));
    let cg = dump_design(-1, Some(0));
    assert_eq!(cg.waveform_selection_name(2),
        Err("`$dumpvars` array index -1 for `m` is outside declared bounds [0:3]".to_string()));
    let cg = dump_design(0, None);
    assert_eq!(cg.waveform_selection_name(2), Err(
        "`$dumpvars` array index for `m` must be a resolved constant: expression is not an elaboration-time constant"
            .to_string()));
}
