use lapligence::codegen::Codegen;
use lapligence::design::{
    IrModel, LifetimeQualifier, Node, NodeKind, TypeInfo, TypeKind, VariableLifetime,
};

fn node(name: &str, parent: Option<usize>, kind: NodeKind) -> Node {
    Node {
        name: name.to_string(),
        parent,
        children: Vec::new(),
        kind,
        file: None,
        line: 0,
        col: 0,
        instance_path: String::new(),
        lifetime: VariableLifetime::Automatic,
        lifetime_qualifier: LifetimeQualifier::Unqualified,
        initializer: None,
        two_state: false,
        body: None,
        program: false,
        clocking_var: false,
        clocking_block: false,
        packed_dims: Vec::new(),
    }
}

fn ty(kind: TypeKind, label: Option<&str>, width: Option<u32>, signed: bool) -> TypeInfo {
    TypeInfo { kind, type_label: label.map(|s| s.to_string()), width, signed }
}

fn empty_model() -> IrModel {
    IrModel { signals: Vec::new(), processes: Vec::new(), objects: Vec::new(), net_groups: Vec::new(), containers: Vec::new(), virtual_interfaces: Vec::new() }
}

/// Fill in every node's children from the parent links, in index order.
fn build(mut nodes: Vec<Node>) -> Codegen {
    for i in 0..nodes.len() {
        if let Some(p) = nodes[i].parent {
            nodes[p].children.push(i);
        }
    }
    Codegen::new(nodes, empty_model())
}
use lapligence::design::{LifetimeQualifier as Q, StmtKind};
use lapligence::function_bodies::FuncLocal;

fn var(name: &str, parent: usize, t: TypeInfo) -> Node {
    node(name, Some(parent), NodeKind::Var { ty: t })
}

fn body_nodes() -> Vec<Node> {
    vec![
        node("top", None, NodeKind::Other),                                                // 0
        node("", Some(0), NodeKind::Stmt(StmtKind::Begin)),                                // 1
        var("a", 1, ty(TypeKind::Logic, None, Some(8), true)),                             // 2
        var("h", 1, ty(TypeKind::Chandle, None, None, false)),                             // 3
        node("", Some(1), NodeKind::Stmt(StmtKind::For { vars: vec![5], body: 6 })),       // 4
        var("i", 4, ty(TypeKind::Int, None, Some(32), true)),                              // 5
        node("", Some(4), NodeKind::Stmt(StmtKind::Begin)),                                // 6
        var("r", 6, ty(TypeKind::ShortReal, None, Some(32), false)),                       // 7
        var("s", 6, ty(TypeKind::String, None, None, false)),                              // 8
        var("t", 6, ty(TypeKind::Bit, None, Some(4), false)),                              // 9
    ]
}

struct Tables {
    locals: Vec<Option<FuncLocal>>,
    chandles: Vec<Option<String>>,
    procs: Vec<Option<String>>,
    seq: usize,
}

fn tables(n: usize) -> Tables {
    Tables { locals: (0..n).map(|_| None).collect(), chandles: vec![None; n], procs: vec![None; n], seq: 0 }
}

fn collect(cg: &Codegen, t: &mut Tables, root: usize) -> Result<(), String> {
    cg.collect_func_locals(root, 0, &mut t.locals, &mut t.chandles, &mut t.procs, &mut t.seq, "_f0_1_")
}

fn local(t: &Tables, i: usize) -> (String, u32, bool, bool, bool) {
    let l = t.locals[i].as_ref().unwrap();
    (l.c_name.clone(), l.width, l.signed, l.two_state, l.shortreal)
}

#[test]
fn subprogram_locals_are_numbered_in_declaration_order() {
    let cg = build(body_nodes());
    let mut t = tables(10);
    assert_eq!(collect(&cg, &mut t, 1), Ok(()));
    assert_eq!(local(&t, 2), ("_f0_1__l0".to_string(), 8, true, false, false));
    assert_eq!(t.chandles[3], Some("_f0_1__l1".to_string()));
    // The `for` variable belongs to the loop.
    assert!(t.locals[5].is_none());
    assert_eq!(local(&t, 7), ("_f0_1__l2".to_string(), 0, false, false, true));
    assert_eq!(local(&t, 8), ("_f0_1__l3".to_string(), 0, false, false, false));
    assert_eq!(local(&t, 9), ("_f0_1__l4".to_string(), 4, false, true, false));
    assert_eq!(t.seq, 5);
    // Collecting again names nothing new.
    assert_eq!(collect(&cg, &mut t, 1), Ok(()));
    assert_eq!(t.seq, 5);
}

#[test]
fn subprogram_locals_need_a_width_within_the_runtime_limit() {
    let mut nodes = body_nodes();
    nodes[2] = var("wide", 1, ty(TypeKind::Logic, None, Some(70000), false));
    let cg = build(nodes);
    let mut t = tables(10);
    assert_eq!(collect(&cg, &mut t, 1), Err("local `wide` is 70000 bits wide; the runtime supports at most 65536".to_string()));
    let mut nodes = body_nodes();
    nodes[2] = var("x", 1, ty(TypeKind::Logic, None, None, false));
    let cg = build(nodes);
    let mut t = tables(10);
    assert_eq!(collect(&cg, &mut t, 1), Err("local `x` has no width".to_string()));
}

#[test]
fn subprogram_locals_refuse_unclear_lifetimes() {
    let mut nodes = body_nodes();
    nodes[9].lifetime_qualifier = Q::Ambiguous;
    let cg = build(nodes);
    let mut t = tables(10);
    assert_eq!(collect(&cg, &mut t, 1),
        Err("subprogram local `t` has ambiguous explicit lifetime provenance".to_string()));
    let mut nodes = body_nodes();
    nodes[9].lifetime_qualifier = Q::Static;
    let cg = build(nodes);
    let mut t = tables(10);
    assert_eq!(collect(&cg, &mut t, 1), Ok(()));
}

#[test]
fn static_locals_are_kept_once_per_name_in_node_order() {
    let mut nodes = vec![node("top", None, NodeKind::Other)];
    nodes.push(var("s", 0, ty(TypeKind::String, None, None, false)));
    nodes.push(var("b", 0, ty(TypeKind::Logic, None, Some(8), false)));
    nodes.push(var("c", 0, ty(TypeKind::Logic, None, Some(4), false)));
    nodes.push(var("d", 0, ty(TypeKind::Logic, None, Some(8), false)));
    for i in [1, 2, 4] {
        nodes[i].lifetime = VariableLifetime::Static;
    }
    let cg = build(nodes);
    let local = |name: &str, width: u32| {
        Some(FuncLocal {
            c_name: name.to_string(),
            width,
            signed: false,
            two_state: false,
            shortreal: false,
        })
    };
    let table = vec![None, local("_s", 0), local("_b", 8), local("_c", 4), local("_b", 8)];
    let kept = cg.static_func_locals(&table);
    let names: Vec<String> = kept.iter().map(|l| l.c_name.clone()).collect();
    assert_eq!(names, vec!["_s".to_string(), "_b".to_string()]);
    assert!(kept[0].string);
    assert!(kept[0].real);
    assert!(!kept[1].string);
    assert!(!kept[1].real);
    assert_eq!(kept[1].width, 8);
}
