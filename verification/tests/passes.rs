use lapligence::codegen::Codegen;
use lapligence::design::{
    IrModel, LifetimeQualifier, Node, NodeKind, TypeInfo, TypeKind, VariableLifetime,
};

fn node(name: &str, parent: Option<usize>, kind: NodeKind) -> Node {
    Node {
        name: name.to_string(),
        parent,
        children: Vec::new(),
        kind,
        file: None,
        line: 0,
        col: 0,
        instance_path: String::new(),
        lifetime: VariableLifetime::Automatic,
        lifetime_qualifier: LifetimeQualifier::Unqualified,
        initializer: None,
        two_state: false,
        body: None,
        program: false,
        clocking_var: false,
        clocking_block: false,
        packed_dims: Vec::new(),
    }
}

fn ty(kind: TypeKind, label: Option<&str>, width: Option<u32>, signed: bool) -> TypeInfo {
    TypeInfo { kind, type_label: label.map(|s| s.to_string()), width, signed }
}

fn empty_model() -> IrModel {
    IrModel { signals: Vec::new(), processes: Vec::new(), objects: Vec::new(), net_groups: Vec::new(), containers: Vec::new(), virtual_interfaces: Vec::new() }
}

/// Fill in every node's children from the parent links, in index order.
fn build(mut nodes: Vec<Node>) -> Codegen {
    for i in 0..nodes.len() {
        if let Some(p) = nodes[i].parent {
            nodes[p].children.push(i);
        }
    }
    Codegen::new(nodes, empty_model())
}
use lapligence::design::{ExprKind, PrimClass, PrimitiveType, ProcessKind, StmtKind};
use lapligence::passes::{EmitAction, EmitStep, Pass, PcaClaim};

fn inst(name: &str, parent: Option<usize>, path: &str) -> Node {
    let mut n = node(name, parent, NodeKind::ModuleInst { is_top: parent.is_none(), is_interface: false, def_name: name.to_string() });
    n.instance_path = path.to_string();
    n
}

fn process(parent: usize) -> Node {
    node("", Some(parent), NodeKind::Process { kind: ProcessKind::Initial })
}

fn stmt(parent: usize, kind: StmtKind) -> Node {
    node("", Some(parent), NodeKind::Stmt(kind))
}

/// An instance tree with a recorded generate scope, a generate-scope array
/// whose scope has no recorded path, and two child instances.
fn design_nodes() -> Vec<Node> {
    vec![
        inst("top", None, "top"),                                 // 0
        process(0),                                               // 1
        stmt(1, StmtKind::Begin),                                 // 2
        stmt(2, StmtKind::ProcContAssign),                        // 3
        node("", Some(3), NodeKind::Expr(ExprKind::Other)),       // 4
        node("", Some(0), NodeKind::ContAssign { net_decl: false }), // 5
        node("", Some(0), NodeKind::Gate { class: PrimClass::Gate, prim_type: PrimitiveType::And, terms: Vec::new() }),                        // 6
        node("g", Some(0), NodeKind::GenScope),                   // 7
        process(7),                                               // 8
        stmt(8, StmtKind::ProcContAssign),                        // 9
        inst("u", Some(7), "top.g.u"),                            // 10
        process(10),                                              // 11
        stmt(11, StmtKind::Begin),                                // 12
        node("a", Some(0), NodeKind::GenScopeArray),              // 13
        node("a[0]", Some(13), NodeKind::GenScope),               // 14
        node("", Some(14), NodeKind::ContAssign { net_decl: false }), // 15
        process(14),                                              // 16
        stmt(16, StmtKind::Deassign),                             // 17
        stmt(0, StmtKind::ConcurrentAssertion),                   // 18
        inst("v", Some(0), "top.v"),                              // 19
        node("", Some(19), NodeKind::Gate { class: PrimClass::Gate, prim_type: PrimitiveType::And, terms: Vec::new() }),                       // 20
    ]
}

fn build_design(nodes: Vec<Node>) -> Codegen {
    let mut cg = build(nodes);
    cg.gen_scope_paths[7] = Some("top.g".to_string());
    cg
}

fn design() -> Codegen {
    build_design(design_nodes())
}

fn s(action: EmitAction, inst: usize, scope: usize, node: usize) -> EmitStep {
    EmitStep { action, inst, scope, node }
}

#[test]
fn comb_pass_visits_leaves_then_scopes_then_instances() {
    let cg = design();
    assert_eq!(
        cg.emit_pass(0, Pass::Comb),
        vec![
            s(EmitAction::ContAssign, 0, 0, 5),
            s(EmitAction::Gate, 0, 0, 6),
            s(EmitAction::ContAssign, 0, 0, 15),
            s(EmitAction::Gate, 19, 19, 20),
        ]
    );
}

#[test]
fn links_pass_links_each_child_instance_under_its_parent_path() {
    let cg = design();
    assert_eq!(
        cg.emit_pass(0, Pass::Links),
        vec![s(EmitAction::Links, 0, 7, 10), s(EmitAction::Links, 0, 0, 19)]
    );
}

#[test]
fn procs_pass_keeps_generate_scope_paths() {
    let cg = design();
    let steps = cg.emit_pass(0, Pass::Procs);
    assert_eq!(
        steps,
        vec![
            s(EmitAction::ConcurrentAssertion, 0, 0, 18),
            s(EmitAction::Process, 0, 0, 1),
            s(EmitAction::Process, 0, 7, 8),
            s(EmitAction::Process, 10, 10, 11),
            s(EmitAction::Process, 0, 0, 16),
        ]
    );
    assert_eq!(cg.scope_path(0), "top");
    assert_eq!(cg.scope_path(7), "top.g");
    assert_eq!(cg.scope_path(10), "top.g.u");
    assert_eq!(cg.scope_path(14), "");
}

#[test]
fn pca_nodes_are_collected_through_statements_only() {
    let cg = design();
    let mut out = vec![99];
    cg.collect_pca_nodes(1, &mut out);
    assert_eq!(out, vec![99]);
    cg.collect_pca_nodes(2, &mut out);
    assert_eq!(out, vec![99, 3]);
    let mut none = Vec::new();
    cg.collect_pca_nodes(12, &mut none);
    assert!(none.is_empty());
}

fn claims(out: &[PcaClaim]) -> Vec<(usize, usize, Vec<usize>)> {
    out.iter().map(|c| (c.inst, c.scope, c.nodes.clone())).collect()
}

#[test]
fn prescan_claims_sites_in_process_pass_order() {
    let cg = design();
    let mut out = Vec::new();
    assert!(cg.prescan_pca_sites(0, 0, &mut out).is_ok());
    assert_eq!(claims(&out), vec![(0, 0, vec![3]), (0, 7, vec![9])]);
    let mut one = Vec::new();
    assert!(cg.prescan_pca_proc(0, 0, 16, &mut one).is_ok());
    assert!(one.is_empty());
    let mut gs = Vec::new();
    assert!(cg.prescan_pca_gen_scope(0, 7, 0, &mut gs).is_ok());
    assert_eq!(claims(&gs), vec![(0, 7, vec![9])]);
}

#[test]
fn prescan_refuses_a_process_without_statement() {
    let mut nodes = design_nodes();
    nodes.push(process(7));
    let cg = build_design(nodes);
    let mut out = Vec::new();
    assert_eq!(
        cg.prescan_pca_sites(0, 0, &mut out),
        Err("process without statement in `top.g`".to_string())
    );
}
