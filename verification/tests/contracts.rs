use lapligence::codegen::Codegen;
use lapligence::design::{
    IrModel, LifetimeQualifier, Node, NodeKind, TypeInfo, TypeKind, VariableLifetime,
};

fn node(name: &str, parent: Option<usize>, kind: NodeKind) -> Node {
    Node {
        name: name.to_string(),
        parent,
        children: Vec::new(),
        kind,
        file: None,
        line: 0,
        col: 0,
        instance_path: String::new(),
        lifetime: VariableLifetime::Automatic,
        lifetime_qualifier: LifetimeQualifier::Unqualified,
        initializer: None,
        two_state: false,
        body: None,
        program: false,
        clocking_var: false,
        clocking_block: false,
        packed_dims: Vec::new(),
    }
}

fn ty(kind: TypeKind, label: Option<&str>, width: Option<u32>, signed: bool) -> TypeInfo {
    TypeInfo { kind, type_label: label.map(|s| s.to_string()), width, signed }
}

fn empty_model() -> IrModel {
    IrModel { signals: Vec::new(), processes: Vec::new(), objects: Vec::new(), net_groups: Vec::new(), containers: Vec::new(), virtual_interfaces: Vec::new() }
}

/// Fill in every node's children from the parent links, in index order.
fn build(mut nodes: Vec<Node>) -> Codegen {
    for i in 0..nodes.len() {
        if let Some(p) = nodes[i].parent {
            nodes[p].children.push(i);
        }
    }
    Codegen::new(nodes, empty_model())
}
use lapligence::contracts::ProcessContractScan;
use lapligence::design::{AlwaysKind, BuiltinCall, JoinKind, StmtKind};

fn stmt(parent: usize, kind: StmtKind) -> Node {
    node("", Some(parent), NodeKind::Stmt(kind))
}

fn empty_scan() -> ProcessContractScan {
    ProcessContractScan {
        event_controls: Vec::new(),
        blocking_timing_controls: Vec::new(),
        fork_controls: Vec::new(),
        event_triggers: Vec::new(),
        disallowed_assignments: Vec::new(),
    }
}

#[test]
fn comb_with_event_control_is_refused() {
    let mut nodes = vec![
        node("top", None, NodeKind::Other),
        stmt(0, StmtKind::Begin),
        stmt(1, StmtKind::EventControl),
    ];
    nodes[2].file = Some("a.sv".to_string());
    nodes[2].line = 4;
    let cg = build(nodes);
    let r = cg.validate_process_contract("top.p", 1, Some(AlwaysKind::Comb));
    assert_eq!(
        r,
        Err("semantic error: always_comb process `top.p` cannot contain a blocking timing control or fork at a.sv:4:0".to_string())
    );
    assert!(cg.validate_process_contract("top.p", 1, Some(AlwaysKind::Always)).is_ok());
    assert!(cg.validate_process_contract("top.p", 1, None).is_ok());
}

#[test]
fn latch_with_fork_is_refused() {
    let cg = build(vec![
        node("top", None, NodeKind::Other),
        stmt(0, StmtKind::Begin),
        stmt(1, StmtKind::Fork { join_kind: JoinKind::Detached }),
    ]);
    assert!(cg.validate_process_contract("top.p", 1, Some(AlwaysKind::Latch)).is_err());
    let plain = build(vec![
        node("top", None, NodeKind::Other),
        stmt(0, StmtKind::Begin),
        stmt(1, StmtKind::Assign { blocking: true, delayed: false }),
    ]);
    assert!(plain.validate_process_contract("top.p", 1, Some(AlwaysKind::Latch)).is_ok());
}

#[test]
fn flip_flop_needs_exactly_one_event_control() {
    let one = build(vec![
        node("top", None, NodeKind::Other),
        stmt(0, StmtKind::EventControl),
        stmt(1, StmtKind::Assign { blocking: false, delayed: false }),
    ]);
    assert!(one.validate_process_contract("top.ff", 1, Some(AlwaysKind::FlipFlop)).is_ok());
    let none = build(vec![
        node("top", None, NodeKind::Other),
        stmt(0, StmtKind::Begin),
    ]);
    assert_eq!(
        none.validate_process_contract("top.ff", 1, Some(AlwaysKind::FlipFlop)),
        Err("semantic error: always_ff process `top.ff` must contain exactly one event control (found 0)".to_string())
    );
    let two = build(vec![
        node("top", None, NodeKind::Other),
        stmt(0, StmtKind::Begin),
        stmt(1, StmtKind::EventControl),
        stmt(1, StmtKind::EventControl),
    ]);
    assert_eq!(
        two.validate_process_contract("top.ff", 1, Some(AlwaysKind::FlipFlop)),
        Err("semantic error: always_ff process `top.ff` must contain exactly one event control (found 2)".to_string())
    );
}

#[test]
fn flip_flop_refuses_triggers_and_procedural_assignments() {
    let trig = build(vec![
        node("top", None, NodeKind::Other),
        stmt(0, StmtKind::EventControl),
        stmt(1, StmtKind::EventTrigger),
    ]);
    let msg = trig.validate_process_contract("top.ff", 1, Some(AlwaysKind::FlipFlop)).unwrap_err();
    assert!(msg.contains("cannot trigger an event at"));
    let force = build(vec![
        node("top", None, NodeKind::Other),
        stmt(0, StmtKind::EventControl),
        stmt(1, StmtKind::Force),
    ]);
    let msg = force.validate_process_contract("top.ff", 1, Some(AlwaysKind::FlipFlop)).unwrap_err();
    assert!(msg.contains("unsupported procedural assignment"));
}

#[test]
fn called_subroutine_bodies_are_scanned_once() {
    // 1: task, 2: its body (an event control); 3: process body calling the task twice.
    let mut nodes = vec![
        node("top", None, NodeKind::Other),
        node("t", Some(0), NodeKind::FuncTask { is_task: true, ret: None, is_static: false }),
        stmt(1, StmtKind::EventControl),
        stmt(0, StmtKind::Begin),
        node("", Some(3), NodeKind::FuncCall { is_task: true, callee: Some(1), builtin: BuiltinCall::Plain }),
        node("", Some(3), NodeKind::FuncCall { is_task: true, callee: Some(1), builtin: BuiltinCall::Plain }),
    ];
    nodes[1].body = Some(2);
    let cg = build(nodes);
    let mut scan = empty_scan();
    let mut visited = vec![false; 6];
    assert!(cg.scan_process_contract(3, &mut scan, &mut visited).is_ok());
    assert_eq!(scan.event_controls, vec![2]);
    assert!(visited[1]);
    assert!(cg.validate_process_contract("top.ff", 3, Some(AlwaysKind::FlipFlop)).is_ok());
    assert!(cg.validate_process_contract("top.c", 3, Some(AlwaysKind::Comb)).is_err());
}

#[test]
fn process_self_calls_are_not_scanned() {
    let cg = build(vec![
        node("top", None, NodeKind::Other),
        stmt(0, StmtKind::Begin),
        node("", Some(1), NodeKind::FuncCall { is_task: false, callee: None, builtin: BuiltinCall::ProcessSelf }),
    ]);
    assert!(cg.validate_process_contract("top.c", 1, Some(AlwaysKind::Comb)).is_ok());
    let unresolved = build(vec![
        node("top", None, NodeKind::Other),
        stmt(0, StmtKind::Begin),
        node("f", Some(1), NodeKind::FuncCall { is_task: false, callee: None, builtin: BuiltinCall::Plain }),
    ]);
    assert!(unresolved.validate_process_contract("top.c", 1, Some(AlwaysKind::Comb)).is_err());
}

#[test]
fn fork_join_counts_as_blocking_timing() {
    let cg = build(vec![
        node("top", None, NodeKind::Other),
        stmt(0, StmtKind::Fork { join_kind: JoinKind::All }),
    ]);
    let mut scan = empty_scan();
    let mut visited = vec![false; 2];
    assert!(cg.scan_process_contract(1, &mut scan, &mut visited).is_ok());
    assert_eq!(scan.fork_controls, vec![1]);
    assert_eq!(scan.blocking_timing_controls, vec![1]);
}
