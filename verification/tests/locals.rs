use lapligence::codegen::Codegen;
use lapligence::design::{
    IrModel, LifetimeQualifier, Node, NodeKind, TypeInfo, TypeKind, VariableLifetime,
};

fn node(name: &str, parent: Option<usize>, kind: NodeKind) -> Node {
    Node {
        name: name.to_string(),
        parent,
        children: Vec::new(),
        kind,
        file: None,
        line: 0,
        col: 0,
        instance_path: String::new(),
        lifetime: VariableLifetime::Automatic,
        lifetime_qualifier: LifetimeQualifier::Unqualified,
        initializer: None,
        two_state: false,
        body: None,
        program: false,
        clocking_var: false,
        clocking_block: false,
        packed_dims: Vec::new(),
    }
}

fn ty(kind: TypeKind, label: Option<&str>, width: Option<u32>, signed: bool) -> TypeInfo {
    TypeInfo { kind, type_label: label.map(|s| s.to_string()), width, signed }
}

fn empty_model() -> IrModel {
    IrModel { signals: Vec::new(), processes: Vec::new(), objects: Vec::new(), net_groups: Vec::new(), containers: Vec::new(), virtual_interfaces: Vec::new() }
}

/// Fill in every node's children from the parent links, in index order.
fn build(mut nodes: Vec<Node>) -> Codegen {
    for i in 0..nodes.len() {
        if let Some(p) = nodes[i].parent {
            nodes[p].children.push(i);
        }
    }
    Codegen::new(nodes, empty_model())
}
use lapligence::design::{ExprKind, StmtKind};
use lapligence::locals::{ChandleTarget, ProcessTarget};

fn var(name: &str, parent: usize, t: TypeInfo, life: VariableLifetime) -> Node {
    let mut n = node(name, Some(parent), NodeKind::Var { ty: t });
    n.lifetime = life;
    n
}

#[test]
fn string_iterator_gets_declaration_derived_name_once() {
    let mut cg = build(vec![
        node("top", None, NodeKind::Other),
        node("blk", Some(0), NodeKind::Stmt(StmtKind::Begin)),
        var("s", 1, ty(TypeKind::String, None, None, false), VariableLifetime::Automatic),
        var("n", 1, ty(TypeKind::Int, None, Some(32), true), VariableLifetime::Automatic),
        var("st", 1, ty(TypeKind::String, None, None, false), VariableLifetime::Static),
    ]);
    assert_eq!(cg.collect_loop_string_var("top", 2), Ok("_lv2".to_string()));
    assert_eq!(cg.proc_string_local_name(2), Some(&"_lv2".to_string()));
    // A second registration returns the same name.
    assert_eq!(cg.collect_loop_string_var("top", 2), Ok("_lv2".to_string()));
    assert!(cg.collect_loop_string_var("top", 3).is_err());
    assert!(cg.collect_loop_string_var("top", 4).is_err());
    assert_eq!(cg.proc_string_local_name(3), None);
}

#[test]
fn mailbox_locals_and_static_objects() {
    let mailbox = || ty(TypeKind::Class, Some("mailbox"), None, false);
    let mut nodes = vec![
        node("top", None, NodeKind::Other),
        node("blk", Some(0), NodeKind::Stmt(StmtKind::Begin)),
        var("m", 1, mailbox(), VariableLifetime::Automatic),
        var("sm", 1, mailbox(), VariableLifetime::Static),
        var("x", 1, ty(TypeKind::Class, Some("semaphore"), None, false), VariableLifetime::Automatic),
        node("init", Some(1), NodeKind::Expr(ExprKind::Constant { value: Some(4), null: false })),
    ];
    nodes[3].initializer = Some(5);
    let mut cg = build(nodes);
    assert_eq!(cg.collect_mailbox_local("top", 2), Ok("_lm2".to_string()));
    assert!(cg.collect_mailbox_local("top", 3).is_err());
    assert!(cg.collect_mailbox_local("top", 4).is_err());
    assert_eq!(cg.proc_mailbox_local_name(2), Some(&"_lm2".to_string()));

    let index = cg.collect_mailbox_static_object("top.u", 3).unwrap();
    assert_eq!(index, 0);
    assert_eq!(cg.model.objects[0].c_name, "O_M0_L3");
    assert_eq!(cg.mailbox_object_initializers.len(), 1);
    assert_eq!(cg.mailbox_object_initializers[0].0, 3);
    assert_eq!(cg.mailbox_object_initializers[0].2, 5);
    assert_eq!(cg.mailbox_object_initializers[0].3, "top.u");
    // Repeated activations share the object.
    assert_eq!(cg.collect_mailbox_static_object("top.u", 3), Ok(0));
    assert_eq!(cg.model.objects.len(), 1);
    assert!(cg.collect_mailbox_static_object("top.u", 2).is_err());
}

#[test]
fn process_handles_live_in_frames_or_objects() {
    let process = || ty(TypeKind::Class, Some("process"), None, false);
    let mut cg = build(vec![
        node("top", None, NodeKind::Other),
        node("blk", Some(0), NodeKind::Stmt(StmtKind::Begin)),
        var("p", 1, process(), VariableLifetime::Automatic),
        var("q", 1, process(), VariableLifetime::Static),
        var("r", 1, process(), VariableLifetime::Unavailable),
        var("m", 1, ty(TypeKind::Class, Some("mailbox"), None, false), VariableLifetime::Automatic),
    ]);
    assert!(matches!(cg.collect_process_local("top", 2), Ok(ProcessTarget::Local(ref n)) if n == "_lp2"));
    assert!(matches!(cg.collect_process_local("top", 3), Ok(ProcessTarget::Object(0))));
    assert_eq!(cg.model.objects[0].c_name, "O_P0_L3");
    assert!(matches!(cg.collect_process_local("top", 3), Ok(ProcessTarget::Object(0))));
    assert_eq!(cg.model.objects.len(), 1);
    assert!(cg.collect_process_local("top", 4).is_err());
    assert!(cg.collect_process_local("top", 5).is_err());
    assert_eq!(cg.proc_process_local_name(2), Some(&"_lp2".to_string()));
}

#[test]
fn semaphores_queue_non_null_static_initializers() {
    let semaphore = || ty(TypeKind::Class, Some("semaphore"), None, false);
    let mut nodes = vec![
        node("top", None, NodeKind::Other),
        node("blk", Some(0), NodeKind::Stmt(StmtKind::Begin)),
        var("a", 1, semaphore(), VariableLifetime::Automatic),
        var("b", 1, semaphore(), VariableLifetime::Static),
        var("c", 1, semaphore(), VariableLifetime::Static),
        node("new", Some(1), NodeKind::Expr(ExprKind::Other)),
        node("null", Some(1), NodeKind::Expr(ExprKind::Constant { value: None, null: true })),
    ];
    nodes[3].initializer = Some(5);
    nodes[4].initializer = Some(6);
    let mut cg = build(nodes);
    assert!(matches!(cg.collect_semaphore_local("top", 2), Ok(ChandleTarget::Local(ref n)) if n == "_ls2"));
    assert!(matches!(cg.collect_semaphore_local("top", 3), Ok(ChandleTarget::Object(0))));
    assert!(matches!(cg.collect_semaphore_local("top", 4), Ok(ChandleTarget::Object(1))));
    assert_eq!(cg.model.objects[0].c_name, "O_P0_S3");
    assert_eq!(cg.model.objects[1].c_name, "O_P0_S4");
    // Only the non-null initializer is queued.
    assert_eq!(cg.semaphore_initializers.len(), 1);
    assert_eq!(cg.semaphore_initializers[0].0, 3);
    assert_eq!(cg.semaphore_initializers[0].2, 5);
    assert_eq!(cg.collect_semaphore_static_object("top", 3), Ok(0));
    assert_eq!(cg.proc_semaphore_local_name(2), Some(&"_ls2".to_string()));
}

#[test]
fn loop_variables_automatic_and_static_storage() {
    let mut nodes = vec![
        node("top", None, NodeKind::Other),
        node("blk", Some(0), NodeKind::Stmt(StmtKind::Begin)),
        var("i", 1, ty(TypeKind::Int, None, Some(32), true), VariableLifetime::Automatic),
        var("s", 1, ty(TypeKind::Logic, None, Some(8), false), VariableLifetime::Static),
        var("r", 1, ty(TypeKind::Real, None, None, false), VariableLifetime::Automatic),
        var("w", 1, ty(TypeKind::Logic, None, None, false), VariableLifetime::Automatic),
        node("init", Some(1), NodeKind::Expr(ExprKind::Constant { value: Some(1), null: false })),
    ];
    nodes[3].initializer = Some(6);
    let mut cg = build(nodes);
    let i = cg.collect_loop_var("top", 2).unwrap();
    assert_eq!(i.c_name, "_lv2");
    assert_eq!(i.width, 32);
    assert!(i.signed && i.two_state && i.static_signal.is_none());

    let s = cg.collect_loop_var("top", 3).unwrap();
    assert_eq!(s.c_name, "_ls0_3");
    let sig = s.static_signal.as_ref().unwrap();
    assert_eq!(sig.global, "_ls0_3");
    assert_eq!(sig.ir, 0);
    assert_eq!(cg.model.signals.len(), 1);
    assert_eq!(cg.model.signals[0].c_name, "_ls0_3");
    assert_eq!(cg.model.signals[0].width, 8);
    assert_eq!(cg.declaration_inits, vec![(0, 6)]);
    // The static storage is shared by later registrations in this instance.
    let again = cg.collect_loop_var("top", 3).unwrap();
    assert_eq!(again.c_name, "_ls0_3");
    assert_eq!(cg.model.signals.len(), 1);
    // Another elaborated instance of the same declaration gets its own signal.
    cg.inst = 1;
    let other = cg.collect_loop_var("top", 3).unwrap();
    assert_eq!(other.c_name, "_ls1_3");
    assert_eq!(cg.model.signals.len(), 2);

    let r = cg.collect_loop_var("top", 4).unwrap();
    assert_eq!(r.width, 0);
    assert!(!r.two_state);
    assert!(cg.collect_loop_var("top", 5).is_err());
    assert!(cg.collect_loop_var("top", 1).is_err());
}

#[test]
fn proc_local_info_is_per_instance_for_static_declarations() {
    let mut cg = build(vec![
        node("top", None, NodeKind::Other),
        node("blk", Some(0), NodeKind::Stmt(StmtKind::Begin)),
        var("s", 1, ty(TypeKind::Bit, None, Some(4), false), VariableLifetime::Static),
    ]);
    cg.collect_loop_var("top", 2).unwrap();
    assert_eq!(cg.proc_local_info(2).unwrap().c_name, "_ls0_2");
    cg.inst = 1;
    assert!(cg.proc_local_info(2).is_none());
}

#[test]
fn loop_variables_collected_twice_keep_their_storage() {
    let mut cg = build(vec![
        node("top", None, NodeKind::Other),
        var("i", 0, ty(TypeKind::Int, None, Some(32), true), VariableLifetime::Automatic),
        var("s", 0, ty(TypeKind::Logic, None, Some(4), false), VariableLifetime::Static),
    ]);
    let a = cg.collect_loop_var("top", 1).unwrap();
    let signals = cg.model.signals.len();
    let b = cg.collect_loop_var("top", 1).unwrap();
    assert_eq!(a.c_name, "_lv1");
    assert_eq!(b.c_name, a.c_name);
    assert_eq!(cg.model.signals.len(), signals);
    let c = cg.collect_loop_var("top", 2).unwrap();
    assert_eq!(cg.model.signals.len(), signals + 1);
    let d = cg.collect_loop_var("top", 2).unwrap();
    assert_eq!(cg.model.signals.len(), signals + 1);
    assert_eq!(c.c_name, "_ls0_2");
    assert_eq!(d.c_name, c.c_name);
}
