use lapligence::codegen::Codegen;
use lapligence::design::{
    IrModel, IrSignal, LifetimeQualifier, NetType, Node, NodeKind, SignalInfo, TypeInfo, TypeKind, VariableLifetime,
};

fn node(name: &str, parent: Option<usize>, kind: NodeKind) -> Node {
    Node {
        name: name.to_string(),
        parent,
        children: Vec::new(),
        kind,
        file: None,
        line: 0,
        col: 0,
        instance_path: String::new(),
        lifetime: VariableLifetime::Automatic,
        lifetime_qualifier: LifetimeQualifier::Unqualified,
        initializer: None,
        two_state: false,
        body: None,
        program: false,
        clocking_var: false,
        clocking_block: false,
        packed_dims: Vec::new(),
    }
}

fn empty_model() -> IrModel {
    IrModel {
        signals: Vec::new(),
        processes: Vec::new(),
        objects: Vec::new(),
        net_groups: Vec::new(),
        containers: Vec::new(),
        virtual_interfaces: Vec::new(),
    }
}

fn net(name: &str, width: u32, net_type: NetType) -> Node {
    let ty = TypeInfo { kind: TypeKind::Logic, type_label: None, width: Some(width), signed: false };
    node(name, Some(0), NodeKind::Net { ty, net_type })
}

fn build(mut nodes: Vec<Node>) -> Codegen {
    for i in 1..nodes.len() {
        nodes[0].children.push(i);
    }
    Codegen::new(nodes, empty_model())
}

/// Give node `id` collected storage of `width` bits at model signal `ir`.
fn store(cg: &mut Codegen, id: usize, global: &str, width: u32) {
    let ir = cg.model.signals.len();
    cg.signals[id] = Some(SignalInfo {
        global: global.to_string(),
        width,
        signed: false,
        two_state: false,
        real: false,
        shortreal: false,
        ir,
    });
    cg.model.signals.push(IrSignal {
        c_name: global.to_string(),
        width,
        signed: false,
        two_state: false,
        real: false,
        net_driver: None,
        aliased: false,
        hdl_name: None,
        omit: false,
    });
}

#[test]
fn inout_nets_collapse_into_one_resolved_group() {
    let mut cg = build(vec![
        node("top", None, NodeKind::Other),
        net("a", 4, NetType::Wire),
        net("b", 4, NetType::Tri),
        net("c", 4, NetType::Wire),
    ]);
    store(&mut cg, 1, "N_a", 4);
    store(&mut cg, 2, "N_b", 4);
    let r = cg.build_inout_net_group(&vec![1, 2, 3]);
    assert_eq!(r, Ok(0));
    assert_eq!(cg.model.net_groups.len(), 1);
    let group = &cg.model.net_groups[0];
    assert_eq!(group.c_name, "g_net_0");
    assert_eq!(group.width, 4);
    assert_eq!(group.n_drivers, 3);
    assert_eq!(group.driver_strengths, vec![(6, 6), (6, 6), (6, 6)]);
    assert_eq!(cg.signals[1].as_ref().map(|s| s.global.clone()), Some("g_net_0.resolved".to_string()));
    assert_eq!(cg.signals[2].as_ref().map(|s| s.global.clone()), Some("g_net_0.resolved".to_string()));
    assert!(cg.signals[3].is_none());
    assert_eq!(cg.model.signals[0].c_name, "g_net_0.resolved");
    assert_eq!(cg.model.signals[0].net_driver, Some((0, 0)));
    assert_eq!(cg.model.signals[1].net_driver, Some((0, 1)));
    assert_eq!(cg.structural_driver_signal(1, 0), Some(0));
    assert_eq!(cg.structural_driver_signal(2, 0), Some(1));
    assert_eq!(cg.structural_driver_signal(3, 0), None);

    // A second component becomes the next group.
    let mut cg2 = build(vec![node("top", None, NodeKind::Other), net("x", 2, NetType::Wand), net("y", 2, NetType::TriAnd)]);
    store(&mut cg2, 1, "N_x", 2);
    store(&mut cg2, 2, "N_y", 2);
    assert_eq!(cg2.build_inout_net_group(&vec![1]), Ok(0));
    assert_eq!(cg2.build_inout_net_group(&vec![2]), Ok(1));
    assert_eq!(cg2.model.net_groups[1].c_name, "g_net_1");
    assert_eq!(cg2.model.signals[1].c_name, "g_net_1.resolved");
    assert_eq!(cg2.model.signals[1].net_driver, Some((1, 0)));
}

#[test]
fn inout_groups_refuse_mismatched_members() {
    let mut cg = build(vec![
        node("top", None, NodeKind::Other),
        net("a", 4, NetType::Wire),
        node("v", Some(0), NodeKind::Other),
        net("w", 8, NetType::Wire),
        net("d", 4, NetType::Wand),
        net("r", 4, NetType::TriReg),
    ]);
    assert_eq!(
        cg.build_inout_net_group(&vec![1, 2]),
        Err("inout-net group {a, v}: member `v` is not a net at <unknown>:0:0".to_string())
    );
    assert_eq!(
        cg.build_inout_net_group(&vec![1, 3]),
        Err("inout-net group {a, w}: member `w` has a different width than `a` at <unknown>:0:0".to_string())
    );
    assert_eq!(
        cg.build_inout_net_group(&vec![1, 4]),
        Err("inout-net group {a, d}: member `d` has an incompatible net type at <unknown>:0:0".to_string())
    );
    assert_eq!(
        cg.build_inout_net_group(&vec![5]),
        Err("inout-net group {r}: member `r` has unsupported net type for an executable inout connection".to_string())
    );
    assert!(cg.model.net_groups.is_empty());
}

#[test]
fn an_undriven_wired_net_keeps_one_default_slot() {
    let mut cg = build(vec![node("top", None, NodeKind::Other), net("w", 4, NetType::Wand), net("other", 4, NetType::Wire)]);
    store(&mut cg, 1, "N_w", 4);
    store(&mut cg, 2, "N_other", 4);
    assert_eq!(cg.build_wired_net_group(1, &vec![]), Ok(0));
    let group = &cg.model.net_groups[0];
    assert_eq!(group.c_name, "g_net_0");
    assert_eq!(group.n_drivers, 1);
    assert_eq!(group.driver_strengths, vec![(6, 6)]);
    assert_eq!(cg.signals[1].as_ref().map(|s| s.global.clone()), Some("g_net_0.resolved".to_string()));
    assert_eq!(cg.signals[2].as_ref().map(|s| s.global.clone()), Some("N_other".to_string()));
    assert_eq!(cg.model.signals[0].c_name, "g_net_0.resolved");
    assert_eq!(cg.model.signals[0].net_driver, Some((0, 0)));
    assert_eq!(cg.structural_driver_signal(1, 0), Some(0));
}

#[test]
fn each_driving_site_of_a_wired_net_gets_a_slot() {
    let mut cg = build(vec![node("top", None, NodeKind::Other), net("w", 4, NetType::Wor)]);
    store(&mut cg, 1, "N_w", 4);
    assert_eq!(cg.build_wired_net_group(1, &vec![(5, (1, 1)), (7, (2, 2))]), Ok(0));
    let group = &cg.model.net_groups[0];
    assert_eq!(group.n_drivers, 2);
    assert_eq!(group.driver_strengths, vec![(1, 1), (2, 2)]);
    assert_eq!(cg.model.signals.len(), 3);
    assert_eq!(cg.model.signals[1].net_driver, Some((0, 0)));
    assert_eq!(cg.model.signals[2].net_driver, Some((0, 1)));
    assert_eq!(cg.model.signals[2].c_name, "g_net_0.resolved");
    assert_eq!(cg.structural_driver_signal(5, 0), Some(1));
    assert_eq!(cg.structural_driver_signal(7, 0), Some(2));
    assert_eq!(cg.structural_driver_signal(1, 0), None);
}

#[test]
fn wired_nets_need_packed_storage() {
    let mut cg = build(vec![node("top", None, NodeKind::Other), net("w", 4, NetType::Wand)]);
    assert_eq!(cg.build_wired_net_group(1, &vec![]), Err("wired net `w` has no lowered scalar storage".to_string()));
    store(&mut cg, 1, "N_w", 64);
    if let Some(info) = cg.signals[1].as_mut() {
        info.real = true;
    }
    assert_eq!(cg.build_wired_net_group(1, &vec![]), Err("real-valued wired net `w` is not supported".to_string()));
    assert!(cg.model.net_groups.is_empty());
}

#[test]
fn inout_links_join_components_under_their_smallest_node() {
    let links = vec![(4, 2), (2, 5), (1, 3)];
    let labels = lapligence::net_groups::inout_components(6, &links);
    assert_eq!(labels, vec![0, 1, 2, 1, 2, 2]);
    assert_eq!(lapligence::net_groups::inout_components(3, &vec![]), vec![0, 1, 2]);
    // A link inside one component changes nothing.
    let labels = lapligence::net_groups::inout_components(4, &vec![(3, 2), (2, 1), (1, 3)]);
    assert_eq!(labels, vec![0, 1, 1, 1]);
}

#[test]
fn net_groups_follow_inout_components_in_node_order() {
    let mut cg = build(vec![
        node("top", None, NodeKind::Other),
        net("a", 4, NetType::Wire),
        net("b", 4, NetType::Wire),
        net("c", 4, NetType::Tri),
        net("d", 4, NetType::Wire),
    ]);
    store(&mut cg, 1, "N_a", 4);
    store(&mut cg, 2, "N_b", 4);
    store(&mut cg, 3, "N_c", 4);
    store(&mut cg, 4, "N_d", 4);
    let r = cg.build_net_groups(&vec![(3, 1), (2, 4)]);
    assert_eq!(r, Ok(vec![vec![1, 3], vec![2, 4]]));
    assert_eq!(cg.model.net_groups.len(), 2);
    assert_eq!(cg.model.net_groups[0].c_name, "g_net_0");
    assert_eq!(cg.model.net_groups[1].c_name, "g_net_1");
    assert_eq!(cg.model.net_groups[0].n_drivers, 2);
    let global = |cg: &Codegen, id: usize| cg.signals[id].as_ref().map(|s| s.global.clone()).unwrap();
    assert_eq!(global(&cg, 1), "g_net_0.resolved");
    assert_eq!(global(&cg, 3), "g_net_0.resolved");
    assert_eq!(global(&cg, 2), "g_net_1.resolved");
    assert_eq!(global(&cg, 4), "g_net_1.resolved");
    assert_eq!(cg.model.signals[0].net_driver, Some((0, 0)));
    assert_eq!(cg.model.signals[2].net_driver, Some((0, 1)));
    assert_eq!(cg.model.signals[1].net_driver, Some((1, 0)));
    assert_eq!(cg.model.signals[3].net_driver, Some((1, 1)));

    // A component whose members disagree stops the grouping.
    let mut cg = build(vec![node("top", None, NodeKind::Other), net("a", 4, NetType::Wire), net("w", 4, NetType::Wor)]);
    let r = cg.build_net_groups(&vec![(1, 2)]);
    assert_eq!(r, Err("inout-net group {a, w}: member `w` has an incompatible net type at <unknown>:0:0".to_string()));
}
