use lapligence::codegen::Codegen;
use lapligence::design::{
    Direction, GateTerm, IrModel, IrShape, IrSignal, IrStmt, LifetimeQualifier, NetGroup, Node, NodeKind,
    PrimClass, PrimitiveType, VariableLifetime,
};
use lapligence::ir::{IrBitOp, IrExpr, IrExprKind};
use lapligence::structural::IrLhs;

fn node(name: &str, parent: Option<usize>, kind: NodeKind) -> Node {
    Node {
        name: name.to_string(),
        parent,
        children: Vec::new(),
        kind,
        file: None,
        line: 0,
        col: 0,
        instance_path: String::new(),
        lifetime: VariableLifetime::Automatic,
        lifetime_qualifier: LifetimeQualifier::Unqualified,
        initializer: None,
        two_state: false,
        body: None,
        program: false,
        clocking_var: false,
        clocking_block: false,
        packed_dims: Vec::new(),
    }
}

fn empty_model() -> IrModel {
    IrModel {
        signals: Vec::new(),
        processes: Vec::new(),
        objects: Vec::new(),
        net_groups: Vec::new(),
        containers: Vec::new(),
        virtual_interfaces: Vec::new(),
    }
}

fn term(direction: Direction) -> GateTerm {
    GateTerm { direction, expr: 0 }
}

fn gate_cg(name: &str, class: PrimClass, prim_type: PrimitiveType, terms: Vec<GateTerm>) -> Codegen {
    let mut nodes = vec![node("top", None, NodeKind::Other), node(name, Some(0), NodeKind::Gate { class, prim_type, terms })];
    nodes[0].children.push(1);
    Codegen::new(nodes, empty_model())
}

fn read(signal: usize, width: u32) -> IrExpr {
    IrExpr { kind: IrExprKind::SignalRead(signal), width, signed: false, fill: None, real: false }
}

fn plain_signal(net_driver: Option<(usize, u32)>) -> IrSignal {
    IrSignal {
        c_name: "s".to_string(),
        width: 1,
        signed: false,
        two_state: false,
        real: false,
        net_driver,
        aliased: false,
        hdl_name: None,
        omit: false,
    }
}

#[test]
fn and_gate_emits_one_process_reading_its_inputs() {
    let terms = vec![term(Direction::Output), term(Direction::Input), term(Direction::Input)];
    let mut cg = gate_cg("g1", PrimClass::Gate, PrimitiveType::And, terms);
    let r = cg.emit_gate(0, "top", 1, vec![IrLhs::Whole(3)], vec![Some(1)], vec![read(1, 1), read(2, 1)], vec![1, 2, 1],
        (1, 1), None);
    assert_eq!(r, Ok(()));
    assert_eq!(cg.model.processes.len(), 1);
    let p = &cg.model.processes[0];
    assert_eq!(p.label, "top.g1[output0]");
    assert_eq!(p.name, "p_top_gate_0");
    assert_eq!(p.origin, 1);
    match &p.shape {
        IrShape::SensLoop { reads } => assert_eq!(reads, &vec![1, 2]),
        IrShape::RunOnce => panic!("an and gate with inputs must watch them"),
    }
    assert_eq!(p.body.len(), 1);
    match &p.body[0] {
        IrStmt::Assign { lhs, rhs, nba } => {
            assert!(matches!(lhs, IrLhs::Whole(3)));
            assert!(!nba);
            assert_eq!(rhs.width, 1);
            match &rhs.kind {
                IrExprKind::BitOp { op, a, b } => {
                    assert_eq!(*op, IrBitOp::And);
                    assert!(matches!(a.kind, IrExprKind::Convert(_)));
                    assert!(matches!(b.kind, IrExprKind::Convert(_)));
                },
                _ => panic!("an and gate reduces its inputs"),
            }
        },
        IrStmt::InertialAssign { .. } => panic!("no delay was given"),
    }
    assert_eq!(cg.proc_seq, 1);
    assert!(cg.delayed_driver_inits.is_empty());
}

#[test]
fn nand_gate_negates_after_reducing() {
    let terms = vec![term(Direction::Output), term(Direction::Input), term(Direction::Input), term(Direction::Input)];
    let mut cg = gate_cg("n1", PrimClass::Gate, PrimitiveType::Nand, terms);
    let r = cg.emit_gate(0, "top", 1, vec![IrLhs::Whole(0)], vec![Some(2)], vec![read(1, 1), read(2, 1), read(3, 2)],
        vec![1, 2, 3], (1, 1), None);
    assert_eq!(r, Ok(()));
    match &cg.model.processes[0].body[0] {
        IrStmt::Assign { rhs, .. } => match &rhs.kind {
            IrExprKind::BitNot(inner) => match &inner.kind {
                IrExprKind::BitOp { op, a, .. } => {
                    assert_eq!(*op, IrBitOp::And);
                    assert!(matches!(a.kind, IrExprKind::BitOp { op: IrBitOp::And, .. }));
                    assert_eq!(inner.width, 2);
                },
                _ => panic!("the reduction is negated"),
            },
            _ => panic!("nand negates"),
        },
        _ => panic!("no delay was given"),
    }
}

#[test]
fn buf_with_two_outputs_and_a_delay_gets_one_inertial_process_per_output() {
    let terms = vec![term(Direction::Output), term(Direction::Output), term(Direction::Input)];
    let mut cg = gate_cg("b1", PrimClass::Gate, PrimitiveType::Buf, terms);
    let constant = IrExpr { kind: IrExprKind::Const { raw: 1, fill: None }, width: 1, signed: false, fill: None, real: false };
    let r = cg.emit_gate(0, "top.u", 1, vec![IrLhs::Whole(3), IrLhs::Whole(4)], vec![Some(1), Some(1)], vec![constant],
        vec![], (1, 1), Some(5));
    assert_eq!(r, Ok(()));
    assert_eq!(cg.model.processes.len(), 2);
    assert_eq!(cg.model.processes[0].label, "top.u.b1[output0]");
    assert_eq!(cg.model.processes[1].label, "top.u.b1[output1]");
    assert_eq!(cg.model.processes[0].name, "p_top_u_gate_0");
    assert_eq!(cg.model.processes[1].name, "p_top_u_gate_1");
    for (k, p) in cg.model.processes.iter().enumerate() {
        assert!(matches!(p.shape, IrShape::RunOnce));
        match &p.body[0] {
            IrStmt::InertialAssign { lhs, delay, rhs } => {
                assert_eq!(*delay, 5);
                assert!(matches!(rhs.kind, IrExprKind::Convert(_)));
                match lhs {
                    IrLhs::Whole(i) => assert_eq!(*i, 3 + k),
                    _ => panic!("the target is kept"),
                }
            },
            IrStmt::Assign { .. } => panic!("a delayed gate drives inertially"),
        }
    }
    assert_eq!(cg.delayed_driver_inits, vec![3, 4]);
}

#[test]
fn pullup_drives_ones_once() {
    let mut cg = gate_cg("pu", PrimClass::Gate, PrimitiveType::Pullup, vec![term(Direction::Output)]);
    let r = cg.emit_gate(0, "top", 1, vec![IrLhs::Whole(0)], vec![Some(4)], vec![], vec![], (1, 1), None);
    assert_eq!(r, Ok(()));
    let p = &cg.model.processes[0];
    assert!(matches!(p.shape, IrShape::RunOnce));
    match &p.body[0] {
        IrStmt::Assign { rhs, .. } => {
            assert!(matches!(rhs.kind, IrExprKind::Fill(1)));
            assert_eq!(rhs.width, 4);
        },
        _ => panic!("no delay was given"),
    }
}

#[test]
fn bufif1_muxes_the_data_against_high_impedance() {
    let terms = vec![term(Direction::Output), term(Direction::Input), term(Direction::Input)];
    let mut cg = gate_cg("e1", PrimClass::Gate, PrimitiveType::Bufif1, terms);
    let r = cg.emit_gate(0, "top", 1, vec![IrLhs::Whole(0)], vec![Some(2)], vec![read(1, 2), read(2, 1)], vec![2, 1],
        (1, 1), None);
    assert_eq!(r, Ok(()));
    match &cg.model.processes[0].body[0] {
        IrStmt::Assign { rhs, .. } => match &rhs.kind {
            IrExprKind::Mux { sel, a, b } => {
                assert_eq!(sel.width, 1);
                assert!(matches!(a.kind, IrExprKind::BitOp { op: IrBitOp::Or, .. }));
                assert!(matches!(b.kind, IrExprKind::Fill(3)));
            },
            _ => panic!("an enable gate muxes"),
        },
        _ => panic!("no delay was given"),
    }
    match &cg.model.processes[0].shape {
        IrShape::SensLoop { reads } => assert_eq!(reads, &vec![2, 1]),
        IrShape::RunOnce => panic!("the inputs are watched"),
    }
}

#[test]
fn switches_and_udps_are_refused_without_changes() {
    let mut cg = gate_cg("sw", PrimClass::Switch, PrimitiveType::Other, vec![]);
    let r = cg.emit_gate(0, "top", 1, vec![], vec![], vec![], vec![], (1, 1), None);
    assert_eq!(r, Err("switch/transistor primitive `sw` in `top` is not supported".to_string()));
    assert!(cg.model.processes.is_empty());
    assert_eq!(cg.proc_seq, 0);
    let mut cg = gate_cg("u", PrimClass::Udp, PrimitiveType::Other, vec![]);
    let r = cg.emit_gate(0, "top", 1, vec![], vec![], vec![], vec![], (1, 1), None);
    assert_eq!(r, Err("user-defined primitive instance `u` in `top` is not supported".to_string()));
    let mut cg = gate_cg("", PrimClass::Gate, PrimitiveType::Other, vec![]);
    let r = cg.emit_gate(0, "top", 1, vec![], vec![], vec![], vec![], (1, 1), None);
    assert_eq!(r, Err("primitive type Other of `gate` in `top` is not supported".to_string()));
}

#[test]
fn illegal_terminal_shapes_are_reported() {
    let mut cg = gate_cg("g1", PrimClass::Gate, PrimitiveType::And, vec![term(Direction::Output)]);
    let r = cg.emit_gate(0, "top", 1, vec![IrLhs::Whole(0)], vec![Some(1)], vec![], vec![], (1, 1), None);
    assert_eq!(
        r,
        Err("gate `g1` in `top`: logic gates take exactly one output terminal plus at least one input terminal \
             (found 1 output(s) among 1 terminals)"
            .to_string())
    );
    assert!(cg.model.processes.is_empty());
    let terms = vec![term(Direction::Output), term(Direction::Input)];
    let mut cg = gate_cg("e", PrimClass::Gate, PrimitiveType::Notif0, terms);
    let r = cg.emit_gate(0, "top", 1, vec![IrLhs::Whole(0)], vec![Some(1)], vec![read(1, 1)], vec![], (1, 1), None);
    assert_eq!(
        r,
        Err("gate `e` in `top`: enable gates take exactly one output, one data input and one enable input terminal \
             (found 1 output(s) among 2 terminals)"
            .to_string())
    );
}

#[test]
fn bad_terminals_are_reported_by_position() {
    let terms = vec![term(Direction::Output), term(Direction::Input), term(Direction::Input)];
    let mut cg = gate_cg("g1", PrimClass::Gate, PrimitiveType::Or, terms);
    let mut real = read(1, 64);
    real.real = true;
    let r = cg.emit_gate(0, "top", 1, vec![IrLhs::Whole(0)], vec![Some(1)], vec![read(1, 1), real], vec![], (1, 1), None);
    assert_eq!(r, Err("real-valued input terminal 2 of gate `g1` in `top` is not supported".to_string()));
    let r = cg.emit_gate(0, "top", 1, vec![IrLhs::Whole(0)], vec![Some(1)], vec![read(1, 0), read(1, 1)], vec![], (1, 1),
        None);
    assert_eq!(r, Err("input terminal 1 of gate `g1` in `top` has zero width".to_string()));
    let r = cg.emit_gate(0, "top", 1, vec![IrLhs::Whole(0)], vec![None], vec![read(1, 1), read(1, 1)], vec![], (1, 1),
        None);
    assert_eq!(r, Err("output terminal 0 of gate `g1` in `top` must be a packed net or variable".to_string()));
    let r = cg.emit_gate(0, "top", 1, vec![IrLhs::Whole(0)], vec![Some(0)], vec![read(1, 1), read(1, 1)], vec![], (1, 1),
        None);
    assert_eq!(r, Err("output terminal 0 of gate `g1` in `top` has zero width".to_string()));
    assert!(cg.model.processes.is_empty());
}

#[test]
fn outputs_on_resolved_nets_need_a_driver_slot() {
    let terms = vec![term(Direction::Output), term(Direction::Output), term(Direction::Input)];
    let mut cg = gate_cg("b2", PrimClass::Gate, PrimitiveType::Not, terms);
    cg.model.net_groups.push(NetGroup {
        c_name: "N_w".to_string(),
        width: 1,
        signed: false,
        n_drivers: 0,
        driver_strengths: Vec::new(),
    });
    // Signal 0 is the group's first contribution.
    cg.model.signals.push(plain_signal(Some((0, 0))));
    let r = cg.emit_gate(0, "top", 1, vec![IrLhs::Whole(0), IrLhs::Whole(0)], vec![Some(1), Some(1)], vec![read(1, 1)],
        vec![1], (2, 2), None);
    assert_eq!(r, Err("gate `b2` has no structural driver mapping for resolved net group 0 at <unknown>:0:0".to_string()));
    assert!(cg.model.processes.is_empty());

    // Once its first slot is registered, the second output gets a slot of its own.
    let terms = vec![term(Direction::Output), term(Direction::Output), term(Direction::Input)];
    let mut cg = gate_cg("b2", PrimClass::Gate, PrimitiveType::Not, terms);
    cg.model.net_groups.push(NetGroup {
        c_name: "N_w".to_string(),
        width: 1,
        signed: false,
        n_drivers: 0,
        driver_strengths: Vec::new(),
    });
    cg.model.signals.push(plain_signal(Some((0, 0))));
    assert_eq!(cg.add_structural_driver(0, 1, (2, 2)), Ok(1));
    let r = cg.emit_gate(0, "top", 1, vec![IrLhs::Whole(0), IrLhs::Whole(0)], vec![Some(1), Some(1)], vec![read(1, 1)],
        vec![1], (2, 2), None);
    assert_eq!(r, Ok(()));
    assert_eq!(cg.model.processes.len(), 2);
    assert_eq!(cg.model.net_groups[0].n_drivers, 2);
    assert_eq!(cg.structural_driver_signal_for_terminal(1, 0, 1), Some(2));
    match &cg.model.processes[0].body[0] {
        IrStmt::Assign { lhs, .. } => assert!(matches!(lhs, IrLhs::Whole(1))),
        _ => panic!("no delay was given"),
    }
    match &cg.model.processes[1].body[0] {
        IrStmt::Assign { lhs, .. } => assert!(matches!(lhs, IrLhs::Whole(2))),
        _ => panic!("no delay was given"),
    }
}
