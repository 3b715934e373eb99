use lapligence::codegen::Codegen;
use lapligence::design::{
    IrModel, LifetimeQualifier, Node, NodeKind, TypeInfo, TypeKind, VariableLifetime,
};

fn node(name: &str, parent: Option<usize>, kind: NodeKind) -> Node {
    Node {
        name: name.to_string(),
        parent,
        children: Vec::new(),
        kind,
        file: None,
        line: 0,
        col: 0,
        instance_path: String::new(),
        lifetime: VariableLifetime::Automatic,
        lifetime_qualifier: LifetimeQualifier::Unqualified,
        initializer: None,
        two_state: false,
        body: None,
        program: false,
        clocking_var: false,
        clocking_block: false,
        packed_dims: Vec::new(),
    }
}

fn ty(kind: TypeKind, label: Option<&str>, width: Option<u32>, signed: bool) -> TypeInfo {
    TypeInfo { kind, type_label: label.map(|s| s.to_string()), width, signed }
}

fn empty_model() -> IrModel {
    IrModel { signals: Vec::new(), processes: Vec::new(), objects: Vec::new(), net_groups: Vec::new(), containers: Vec::new(), virtual_interfaces: Vec::new() }
}

/// Fill in every node's children from the parent links, in index order.
fn build(mut nodes: Vec<Node>) -> Codegen {
    for i in 0..nodes.len() {
        if let Some(p) = nodes[i].parent {
            nodes[p].children.push(i);
        }
    }
    Codegen::new(nodes, empty_model())
}
use lapligence::design::{ExprKind, StmtKind, ProcLocalInfo};

fn var(name: &str, parent: usize) -> Node {
    node(name, Some(parent), NodeKind::Var { ty: ty(TypeKind::Int, None, Some(32), true) })
}

fn local(cg: &mut Codegen, node: usize) {
    cg.proc_locals[node] = Some(ProcLocalInfo {
        c_name: format!("_lv{node}"),
        width: 32,
        signed: true,
        two_state: true,
        static_signal: None,
    });
}

#[test]
fn lexical_local_resolves_through_nested_begin_blocks() {
    // top / begin{ x; begin{ ref x } }
    let mut cg = build(vec![
        node("top", None, NodeKind::Other),
        node("outer", Some(0), NodeKind::Stmt(StmtKind::Begin)),
        var("x", 1),
        node("inner", Some(1), NodeKind::Stmt(StmtKind::Begin)),
        node("x", Some(3), NodeKind::Expr(ExprKind::Ref { target: None })),
    ]);
    assert!(cg.lexical_proc_local(4).is_none());
    local(&mut cg, 2);
    let (decl, info) = cg.lexical_proc_local(4).unwrap();
    assert_eq!(decl, 2);
    assert_eq!(info.c_name, "_lv2");
    assert_eq!(cg.proc_local_target(4), Some(2));
    assert_eq!(cg.nested_proc_local_ref(4), Some(2));
    // The declaring block itself counts as a declaring scope for the name.
    assert!(cg.proc_local_is_shadowed(4));
}

#[test]
fn begin_declaration_shadows_an_unregistered_name() {
    // top / begin{ x(registered) ; begin{ x(unregistered); ref x } }
    let mut cg = build(vec![
        node("top", None, NodeKind::Other),
        node("outer", Some(0), NodeKind::Stmt(StmtKind::Begin)),
        var("x", 1),
        node("inner", Some(1), NodeKind::Stmt(StmtKind::Begin)),
        var("x", 3),
        node("x", Some(3), NodeKind::Expr(ExprKind::Ref { target: Some(2) })),
    ]);
    local(&mut cg, 2);
    // The inner declaration has no storage, so the lexical lookup stops there.
    assert!(cg.lexical_proc_local(5).is_none());
    assert!(cg.proc_local_is_shadowed(5));
    assert_eq!(cg.proc_local_target(5), None);
}

#[test]
fn foreach_iterators_and_string_locals() {
    // top / foreach(i) { ref i }
    let mut cg = build(vec![
        node("top", None, NodeKind::Other),
        node("loop", Some(0), NodeKind::Stmt(StmtKind::Foreach { vars: vec![None, Some(2)], body: 3 })),
        node("i", Some(1), NodeKind::Var { ty: ty(TypeKind::String, None, None, false) }),
        node("i", Some(1), NodeKind::Expr(ExprKind::Ref { target: None })),
    ]);
    assert!(cg.is_foreach_iterator(2));
    assert!(!cg.is_foreach_iterator(3));
    assert!(cg.lexical_proc_string_local(3).is_none());
    cg.collect_loop_string_var("top", 2).unwrap();
    let (decl, name) = cg.lexical_proc_string_local(3).unwrap();
    assert_eq!(decl, 2);
    assert_eq!(name, "_lv2");
}

#[test]
fn class_handles_resolve_by_name_and_type() {
    let class = |label: &str| NodeKind::Var { ty: ty(TypeKind::Class, Some(label), None, false) };
    let mut cg = build(vec![
        node("top", None, NodeKind::Other),
        node("blk", Some(0), NodeKind::Stmt(StmtKind::Begin)),
        node("h", Some(1), class("semaphore")),
        node("p", Some(1), class("process")),
        node("m", Some(1), class("mailbox")),
        node("inner", Some(1), NodeKind::Stmt(StmtKind::Begin)),
        node("h", Some(5), NodeKind::Expr(ExprKind::Ref { target: None })),
        node("p", Some(5), NodeKind::Expr(ExprKind::Ref { target: None })),
        node("m", Some(5), NodeKind::Expr(ExprKind::Ref { target: None })),
    ]);
    assert_eq!(cg.lexical_proc_semaphore_decl(6), Some(2));
    assert_eq!(cg.lexical_proc_process_decl(6), None);
    assert_eq!(cg.lexical_proc_process_decl(7), Some(3));
    assert!(cg.lexical_proc_mailbox_local(8).is_none());
    cg.collect_mailbox_local("top", 4).unwrap();
    let (decl, name) = cg.lexical_proc_mailbox_local(8).unwrap();
    assert_eq!(decl, 4);
    assert_eq!(name, "_lm4");
}

#[test]
fn static_locals_are_not_lexical_c_locals() {
    let mut nodes = vec![
        node("top", None, NodeKind::Other),
        node("blk", Some(0), NodeKind::Stmt(StmtKind::Begin)),
        var("s", 1),
        node("s", Some(1), NodeKind::Expr(ExprKind::Ref { target: Some(2) })),
    ];
    nodes[2].lifetime = VariableLifetime::Static;
    let mut cg = build(nodes);
    cg.collect_loop_var("top", 2).unwrap();
    assert!(cg.lexical_proc_local(3).is_some());
    assert_eq!(cg.proc_local_target(3), None);
    assert_eq!(cg.nested_proc_local_ref(3), None);
}
