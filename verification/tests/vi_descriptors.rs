use lapligence::codegen::Codegen;
use lapligence::design::{
    IrModel, LifetimeQualifier, Node, NodeKind, TypeInfo, TypeKind, VariableLifetime,
};

fn node(name: &str, parent: Option<usize>, kind: NodeKind) -> Node {
    Node {
        name: name.to_string(),
        parent,
        children: Vec::new(),
        kind,
        file: None,
        line: 0,
        col: 0,
        instance_path: String::new(),
        lifetime: VariableLifetime::Automatic,
        lifetime_qualifier: LifetimeQualifier::Unqualified,
        initializer: None,
        two_state: false,
        body: None,
        program: false,
        clocking_var: false,
        clocking_block: false,
        packed_dims: Vec::new(),
    }
}

fn ty(kind: TypeKind, label: Option<&str>, width: Option<u32>, signed: bool) -> TypeInfo {
    TypeInfo { kind, type_label: label.map(|s| s.to_string()), width, signed }
}

fn empty_model() -> IrModel {
    IrModel { signals: Vec::new(), processes: Vec::new(), objects: Vec::new(), net_groups: Vec::new(), containers: Vec::new(), virtual_interfaces: Vec::new() }
}

/// Fill in every node's children from the parent links, in index order.
fn build(mut nodes: Vec<Node>) -> Codegen {
    for i in 0..nodes.len() {
        if let Some(p) = nodes[i].parent {
            nodes[p].children.push(i);
        }
    }
    Codegen::new(nodes, empty_model())
}
use lapligence::design::{Direction, SignalInfo, StmtKind};
use lapligence::vi_descriptors::{str_lt, type_name_of, MemberMeta};

fn vif(label: &str) -> TypeInfo {
    ty(TypeKind::VirtualInterface, Some(label), None, false)
}

fn logic(width: u32) -> TypeInfo {
    ty(TypeKind::Logic, None, Some(width), false)
}

fn interface(name: &str, parent: usize, def: &str) -> Node {
    node(name, Some(parent), NodeKind::ModuleInst { is_top: false, is_interface: true, def_name: def.to_string() })
}

fn signal(width: u32, ir: usize) -> SignalInfo {
    SignalInfo { global: format!("G{ir}"), width, signed: false, two_state: false, real: false, shortreal: false, ir }
}

/// A root holding the definition of interface `ifc` (a member, a method
/// and a modport view), and a top module with a concrete instance and a
/// handle of type `ifc.mp`.
fn design_nodes() -> Vec<Node> {
    let mut nodes = vec![
        node("$root", None, NodeKind::Other),                                           // 0
        interface("ifc", 0, "work@ifc"),                                                 // 1
        node("a", Some(1), NodeKind::Var { ty: logic(4) }),                              // 2
        node("ping", Some(1), NodeKind::FuncTask { is_task: true, ret: None, is_static: false }), // 3
        node("mp", Some(1), NodeKind::ModPort { direction: None }),                      // 4
        node("a", Some(4), NodeKind::ModPort { direction: Some(Direction::Input) }),     // 5
        node("ping", Some(4), NodeKind::FuncTask { is_task: true, ret: None, is_static: false }), // 6
        node("top", Some(0), NodeKind::ModuleInst { is_top: true, is_interface: false, def_name: "top".to_string() }), // 7
        interface("u_if", 7, "work@ifc"),                                                // 8
        node("a", Some(8), NodeKind::Var { ty: logic(4) }),                              // 9
        node("ping", Some(8), NodeKind::FuncTask { is_task: true, ret: None, is_static: false }), // 10
        node("", Some(10), NodeKind::Stmt(StmtKind::Begin)),                            // 11
        node("cb", Some(8), NodeKind::Stmt(StmtKind::Begin)),                           // 12
        node("x", Some(12), NodeKind::Var { ty: logic(1) }),                             // 13
        node("h", Some(7), NodeKind::Var { ty: vif("ifc.mp") }),                         // 14
    ];
    nodes[8].instance_path = "top.u_if".to_string();
    nodes[10].body = Some(11);
    nodes[12].clocking_block = true;
    nodes[13].clocking_var = true;
    nodes
}

fn design(nodes: Vec<Node>) -> Codegen {
    let mut cg = build(nodes);
    cg.signals[9] = Some(signal(4, 3));
    cg.func_irs[10] = Some(5);
    cg.clocking_samples[13] = Some(signal(1, 7));
    cg
}

#[test]
fn interface_entries_list_members_methods_and_clocking_samples() {
    let cg = design(design_nodes());
    let (members, methods) = cg.concrete_virtual_interface_entries(8);
    let names: Vec<&str> = members.iter().map(|m| m.0.as_str()).collect();
    assert_eq!(names, vec!["a", "cb.x"]);
    assert_eq!(members[0].1, MemberMeta { width: 4, signed: false, two_state: false, real: false, ir: 3 });
    assert_eq!(members[1].1.ir, 7);
    assert_eq!(methods, vec![("ping".to_string(), 5)]);
    let (template, names) = cg.virtual_interface_template_entries(1);
    assert_eq!(template.len(), 1);
    assert_eq!(template[0].0, "a");
    assert_eq!(template[0].1, MemberMeta { width: 4, signed: false, two_state: false, real: false, ir: 2 });
    assert_eq!(names, vec!["ping".to_string()]);
}

#[test]
fn descriptors_merge_definitions_and_instances() {
    let mut cg = design(design_nodes());
    assert_eq!(cg.spelled_virtual_interface_types(), vec!["ifc".to_string()]);
    assert_eq!(cg.collect_virtual_interfaces(), Ok(()));
    assert_eq!(cg.model.virtual_interfaces.len(), 1);
    let d = &cg.model.virtual_interfaces[0];
    assert_eq!(d.identity, "ifc");
    let members: Vec<(&str, u32)> = d.members.iter().map(|m| (m.name.as_str(), m.width)).collect();
    assert_eq!(members, vec![("a", 4), ("cb.x", 1)]);
    assert_eq!(d.methods.len(), 1);
    assert_eq!(d.methods[0].name, "ping");
    assert_eq!(d.methods[0].function, 5);
    assert_eq!(d.methods[0].instances, vec![Some(5)]);
    assert_eq!(d.instances.len(), 1);
    assert_eq!(d.instances[0].c_name, "llg_vif_env_top_u_if");
    assert_eq!(d.instances[0].members, vec![Some(3), Some(7)]);
    assert_eq!(d.instances[0].methods, vec![Some(5)]);
    assert_eq!(cg.virtual_interface_instances[8], Some((0, 0)));
    assert_eq!(cg.virtual_interface_instances[1], None);
    assert_eq!(
        cg.virtual_interface_view_members,
        vec![(0, "mp".to_string(), "a".to_string(), Direction::Input)]
    );
    assert_eq!(cg.virtual_interface_view_methods, vec![(0, "mp".to_string(), "ping".to_string())]);
}

#[test]
fn a_type_without_instances_keeps_its_definition_metadata() {
    let mut nodes = design_nodes();
    nodes.truncate(8);
    nodes.push(node("h", Some(7), NodeKind::Var { ty: vif("ifc") }));
    let mut cg = build(nodes);
    assert_eq!(cg.collect_virtual_interfaces(), Ok(()));
    let d = &cg.model.virtual_interfaces[0];
    assert_eq!(d.members.len(), 1);
    assert_eq!(d.members[0].name, "a");
    assert_eq!(d.members[0].width, 4);
    assert!(d.instances.is_empty());
    assert!(d.methods.is_empty());
}

#[test]
fn descriptors_follow_string_order_of_types() {
    let mut cg = build(vec![
        node("top", None, NodeKind::Other),
        node("h1", Some(0), NodeKind::Var { ty: vif("zeta") }),
        node("h2", Some(0), NodeKind::Var { ty: vif("alpha.mp") }),
        node("h3", Some(0), NodeKind::Var { ty: vif("alpha") }),
        node("h4", Some(0), NodeKind::Var { ty: vif("al pha") }),
    ]);
    assert_eq!(cg.spelled_virtual_interface_types(), vec!["alpha".to_string(), "zeta".to_string()]);
    assert_eq!(cg.collect_virtual_interfaces(), Ok(()));
    let ids: Vec<&str> = cg.model.virtual_interfaces.iter().map(|d| d.identity.as_str()).collect();
    assert_eq!(ids, vec!["alpha", "zeta"]);
}

#[test]
fn members_out_of_runtime_reach_are_refused() {
    let mut nodes = design_nodes();
    nodes[2] = node("a", Some(1), NodeKind::Var { ty: ty(TypeKind::Real, None, Some(64), false) });
    nodes.truncate(8);
    nodes.push(node("h", Some(7), NodeKind::Var { ty: vif("ifc") }));
    let mut cg = build(nodes);
    assert_eq!(
        cg.collect_virtual_interfaces(),
        Err("virtual interface member `a` must be a packed signal within the runtime width limit".to_string())
    );
    // A concrete instance's storage replaces the definition's metadata.
    let mut nodes = design_nodes();
    nodes[2] = node("a", Some(1), NodeKind::Var { ty: logic(0) });
    let mut cg = design(nodes);
    assert_eq!(cg.collect_virtual_interfaces(), Ok(()));
    assert_eq!(cg.model.virtual_interfaces[0].members[0].width, 4);
}

#[test]
fn type_names_stop_at_parameters() {
    assert_eq!(type_name_of("bus#(W=8)"), "bus");
    assert_eq!(type_name_of("bus"), "bus");
    assert_eq!(type_name_of("a#b#(c)"), "a#b");
    assert_eq!(type_name_of("#"), "#");
}

#[test]
fn string_order() {
    assert!(str_lt("a", "b"));
    assert!(str_lt("ab", "abc"));
    assert!(!str_lt("abc", "ab"));
    assert!(!str_lt("x", "x"));
    assert!(str_lt("Z", "a"));
}
