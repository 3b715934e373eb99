//! The code generator's state over one elaborated design.

use vstd::prelude::*;
use crate::design::{
    Node, NodeKind, ExprKind, StmtKind, SignalInfo, ArrayInfo, ProcLocalInfo, IrModel, Direction, is_chain,
};
use vstd::string::StringExecFns;

verus! {

/// A resizable container allocated for a declaration.
#[derive(Clone, Copy)]
pub struct ContainerInfo {
    pub ir: usize,
}

/// A copied activation value captured by a detached evaluator.
pub struct CaptureBinding {
    pub slot: u32,
    pub frame: u32,
}

pub struct Codegen {
    pub nodes: Vec<Node>,
    /// The elaborated instance currently being lowered.
    pub inst: usize,
    /// Model signal of each declaration (by node).
    pub signals: Vec<Option<SignalInfo>>,
    /// Fixed unpacked array of each declaration (by node).
    pub arrays: Vec<Option<ArrayInfo>>,
    /// Resizable container of each declaration (by node).
    pub containers: Vec<Option<ContainerInfo>>,
    pub model: IrModel,
    /// Sampled source storage of each clocking variable (by node).
    pub clocking_sources: Vec<Option<SignalInfo>>,
    /// Registered procedural locals (by declaration).
    pub proc_locals: Vec<Option<ProcLocalInfo>>,
    /// Static procedural locals per `(instance, declaration)`.
    pub proc_local_instances: Vec<(usize, usize, ProcLocalInfo)>,
    pub proc_string_locals: Vec<Option<String>>,
    pub proc_mailbox_locals: Vec<Option<String>>,
    pub proc_process_locals: Vec<Option<String>>,
    pub proc_semaphore_locals: Vec<Option<String>>,
    /// Model objects of static mailboxes per `(instance, declaration, object)`.
    pub proc_mailbox_static_objects: Vec<(usize, usize, usize)>,
    pub proc_process_static_objects: Vec<(usize, usize, usize)>,
    pub proc_semaphore_static_objects: Vec<(usize, usize, usize)>,
    /// `(declaration, object, initializer, path)` of static mailboxes.
    pub mailbox_object_initializers: Vec<(usize, usize, usize, String)>,
    pub semaphore_initializers: Vec<(usize, usize, usize, String)>,
    /// `(signal, initializer)` of every declaration initializer lowered at
    /// time zero, static procedural variables included.
    pub declaration_inits: Vec<(usize, usize)>,
    /// Net-declaration assignments already collected as scalar initializers.
    pub scalar_init_cas: Vec<usize>,
    /// Structural driver of each `(source, group)` site.
    pub structural_driver_sites: Vec<(usize, usize, u32)>,
    /// Structural driver of each `(source, group, terminal)` for terminals past zero.
    pub structural_driver_terminal_sites: Vec<(usize, usize, usize, u32)>,
    /// Model signal of each structural driver id.
    pub structural_drivers: Vec<usize>,
    pub pca_seq: u64,
    pub proc_seq: u64,
    pub frame_seq: u32,
    pub capture_locals: Vec<Option<CaptureBinding>>,
    /// Signals driven through an inertial delay, whose delayed-driver state
    /// is initialized with the model.
    pub delayed_driver_inits: Vec<usize>,
    /// C name of each lowered function or task.
    pub func_names: Vec<Option<String>>,
    /// Whether a node is a class scope.
    pub class_nodes: Vec<bool>,
    /// Canonical ABI key of every imported DPI-C symbol.
    pub dpi_signatures: Vec<(String, String)>,
    /// Concrete hierarchical path recorded for each generate scope (by node).
    pub gen_scope_paths: Vec<Option<String>>,
    /// Model function of each lowered function or task (by node).
    pub func_irs: Vec<Option<usize>>,
    /// Sampled storage of each clocking variable (by node).
    pub clocking_samples: Vec<Option<SignalInfo>>,
    /// `(descriptor, instance)` of each concrete interface instance a
    /// virtual-interface handle can bind (by node).
    pub virtual_interface_instances: Vec<Option<(usize, usize)>>,
    /// `(descriptor, view, member, direction)` of every member a modport view
    /// grants, in scan order; a later item for the same member replaces an
    /// earlier one.
    pub virtual_interface_view_members: Vec<(usize, String, String, Direction)>,
    /// `(descriptor, view, method)` of every method a modport view imports.
    pub virtual_interface_view_methods: Vec<(usize, String, String)>,
    /// Virtual-interface type identity to the index of its descriptor.
    pub virtual_interface_types: Vec<(String, usize)>,
}

/// Whether every id a node mentions is in the arena, with parents before
/// children and sub-expressions after their expression.
pub open spec fn expr_ok(e: ExprKind, i: int, len: int, nodes: Seq<Node>) -> bool {
    let inner = |j: usize| i < j < len;
    let refd = |t: usize| t < len && !is_chain(nodes[t as int].kind);
    match e {
        ExprKind::Ref { target: t } => t matches Some(t) ==> refd(t),
        ExprKind::ScopeRef { target: t } => refd(t),
        ExprKind::HierPath { refs } => forall|k: int| 0 <= k < refs.len() ==> (#[trigger] refs@[k] matches Some(t) ==> refd(t)),
        ExprKind::Cast { operand, .. } => inner(operand),
        ExprKind::ArraySelect { base, indices } => inner(base) && forall|k: int| 0 <= k < indices.len() ==> inner(#[trigger] indices@[k]),
        ExprKind::BitSelect { base, index } => inner(base) && inner(index),
        ExprKind::PartSelect { base, left, right } => inner(base) && inner(left) && inner(right),
        ExprKind::IndexedPartSelect { base, base_expr, width_expr, .. } => inner(base) && inner(base_expr) && inner(width_expr),
        ExprKind::Concat { operands, .. } => forall|k: int| 0 <= k < operands.len() ==> inner(#[trigger] operands@[k]),
        ExprKind::MultiConcat { operands } => forall|k: int| 0 <= k < operands.len() ==> inner(#[trigger] operands@[k]),
        ExprKind::Assignment { operands } => forall|k: int| 0 <= k < operands.len() ==> inner(#[trigger] operands@[k]),
        ExprKind::AssignmentPattern { operands, .. } => forall|k: int| 0 <= k < operands.len() ==> inner(#[trigger] operands@[k]),
        ExprKind::TaggedPattern { value, .. } => value matches Some(v) ==> inner(v),
        ExprKind::Streaming { streams } => forall|k: int| 0 <= k < streams.len() ==> inner(#[trigger] streams@[k]),
        _ => true,
    }
}

pub open spec fn kind_ok(k: NodeKind, i: int, len: int, nodes: Seq<Node>) -> bool {
    let within = |j: usize| j < len;
    match k {
        NodeKind::Expr(e) => expr_ok(e, i, len, nodes),
        NodeKind::Stmt(StmtKind::For { vars, body }) => (forall|k: int| 0 <= k < vars.len() ==> within(#[trigger] vars@[k]))
            && i < body < len,
        NodeKind::Stmt(StmtKind::Foreach { vars, body }) => (forall|k: int| 0 <= k < vars.len() ==> (#[trigger] vars@[k] matches Some(v) ==> within(v)))
            && i < body < len,
        NodeKind::Port { high, low, high_expr, .. } => (high matches Some(h) ==> within(h)) && (low matches Some(l) ==> within(l)) && (high_expr matches Some(h) ==> within(h)),
        NodeKind::FuncCall { callee, .. } => callee matches Some(c) ==> within(c),
        _ => true,
    }
}

pub open spec fn node_ok(nodes: Seq<Node>, i: int) -> bool {
    let n = nodes[i];
    let len = nodes.len() as int;
    &&& n.parent matches Some(p) ==> p < i
    &&& forall|k: int| 0 <= k < n.children.len() ==> i < #[trigger] n.children@[k] < len
    &&& n.initializer matches Some(x) ==> x < len
    &&& n.body matches Some(x) ==> x < len
    &&& kind_ok(n.kind, i, len, nodes)
}

/// The arena invariant of a design.
pub open spec fn design_wf(nodes: Seq<Node>) -> bool {
    forall|i: int| 0 <= i < nodes.len() ==> #[trigger] node_ok(nodes, i)
}

impl Codegen {
    pub open spec fn len(&self) -> int {
        self.nodes.len() as int
    }

    pub open spec fn node(&self, i: int) -> Node {
        self.nodes@[i]
    }

    pub open spec fn kind(&self, i: int) -> NodeKind {
        self.nodes@[i].kind
    }

    pub open spec fn valid(&self, i: int) -> bool {
        0 <= i < self.nodes.len()
    }

    /// The per-node tables cover exactly the arena.
    pub open spec fn wf(&self) -> bool {
        &&& design_wf(self.nodes@)
        &&& self.inst < self.nodes.len()
        &&& self.signals.len() == self.nodes.len()
        &&& self.clocking_sources.len() == self.nodes.len()
        &&& self.arrays.len() == self.nodes.len()
        &&& self.containers.len() == self.nodes.len()
        &&& self.proc_locals.len() == self.nodes.len()
        &&& self.proc_string_locals.len() == self.nodes.len()
        &&& self.proc_mailbox_locals.len() == self.nodes.len()
        &&& self.proc_process_locals.len() == self.nodes.len()
        &&& self.proc_semaphore_locals.len() == self.nodes.len()
        &&& self.capture_locals.len() == self.nodes.len()
        &&& self.func_names.len() == self.nodes.len()
        &&& self.class_nodes.len() == self.nodes.len()
        &&& self.gen_scope_paths.len() == self.nodes.len()
        &&& self.func_irs.len() == self.nodes.len()
        &&& self.clocking_samples.len() == self.nodes.len()
        &&& self.virtual_interface_instances.len() == self.nodes.len()
    }

    /// Recursion measure over chained expressions.
    pub open spec fn measure(&self, i: int) -> int {
        if 0 <= i < self.len() && is_chain(self.kind(i)) {
            self.len() + 1 - i
        } else {
            0
        }
    }

    pub proof fn lemma_node(&self, i: int)
        requires
            self.wf(),
            0 <= i < self.len(),
        ensures
            node_ok(self.nodes@, i),
    {
    }

    /// A code generator with empty collection state over `nodes`, lowering
    /// the first node as its instance.
    pub fn new(nodes: Vec<Node>, model: IrModel) -> (cg: Codegen)
        requires
            design_wf(nodes@),
            nodes.len() >= 1,
        ensures
            cg.wf(),
            cg.nodes@ == nodes@,
            cg.inst == 0,
            cg.model == model,
            forall|i: int| 0 <= i < nodes.len() ==> #[trigger] cg.signals@[i] is None,
            forall|i: int| 0 <= i < nodes.len() ==> #[trigger] cg.clocking_sources@[i] is None,
            forall|i: int| 0 <= i < nodes.len() ==> #[trigger] cg.arrays@[i] is None,
            forall|i: int| 0 <= i < nodes.len() ==> #[trigger] cg.containers@[i] is None,
            forall|i: int| 0 <= i < nodes.len() ==> #[trigger] cg.proc_locals@[i] is None,
            forall|i: int| 0 <= i < nodes.len() ==> #[trigger] cg.proc_string_locals@[i] is None,
            forall|i: int| 0 <= i < nodes.len() ==> #[trigger] cg.proc_mailbox_locals@[i] is None,
            forall|i: int| 0 <= i < nodes.len() ==> #[trigger] cg.proc_process_locals@[i] is None,
            forall|i: int| 0 <= i < nodes.len() ==> #[trigger] cg.proc_semaphore_locals@[i] is None,
            forall|i: int| 0 <= i < nodes.len() ==> #[trigger] cg.capture_locals@[i] is None,
            forall|i: int| 0 <= i < nodes.len() ==> #[trigger] cg.func_names@[i] is None,
            forall|i: int| 0 <= i < nodes.len() ==> !#[trigger] cg.class_nodes@[i],
            forall|i: int| 0 <= i < nodes.len() ==> #[trigger] cg.gen_scope_paths@[i] is None,
            forall|i: int| 0 <= i < nodes.len() ==> #[trigger] cg.func_irs@[i] is None,
            forall|i: int| 0 <= i < nodes.len() ==> #[trigger] cg.clocking_samples@[i] is None,
            forall|i: int| 0 <= i < nodes.len() ==> #[trigger] cg.virtual_interface_instances@[i] is None,
            cg.virtual_interface_view_members@.len() == 0,
            cg.virtual_interface_view_methods@.len() == 0,
            cg.virtual_interface_types@.len() == 0,
            cg.proc_local_instances@.len() == 0,
            cg.proc_mailbox_static_objects@.len() == 0,
            cg.proc_process_static_objects@.len() == 0,
            cg.proc_semaphore_static_objects@.len() == 0,
            cg.mailbox_object_initializers@.len() == 0,
            cg.semaphore_initializers@.len() == 0,
            cg.declaration_inits@.len() == 0,
            cg.scalar_init_cas@.len() == 0,
            cg.structural_driver_sites@.len() == 0,
            cg.structural_driver_terminal_sites@.len() == 0,
            cg.structural_drivers@.len() == 0,
            cg.drivers_ok(),
            cg.dpi_signatures@.len() == 0,
            cg.pca_seq == 0,
            cg.proc_seq == 0,
            cg.frame_seq == 0,
    {
        let n = nodes.len();
        let mut signals: Vec<Option<SignalInfo>> = Vec::new();
        let mut clocking: Vec<Option<SignalInfo>> = Vec::new();
        let mut arrays: Vec<Option<ArrayInfo>> = Vec::new();
        let mut containers: Vec<Option<ContainerInfo>> = Vec::new();
        let mut proc_locals: Vec<Option<ProcLocalInfo>> = Vec::new();
        let mut strings: Vec<Option<String>> = Vec::new();
        let mut mailboxes: Vec<Option<String>> = Vec::new();
        let mut processes: Vec<Option<String>> = Vec::new();
        let mut semaphores: Vec<Option<String>> = Vec::new();
        let mut captures: Vec<Option<CaptureBinding>> = Vec::new();
        let mut func_names: Vec<Option<String>> = Vec::new();
        let mut class_nodes: Vec<bool> = Vec::new();
        let mut gen_scope_paths: Vec<Option<String>> = Vec::new();
        let mut func_irs: Vec<Option<usize>> = Vec::new();
        let mut samples: Vec<Option<SignalInfo>> = Vec::new();
        let mut vif_instances: Vec<Option<(usize, usize)>> = Vec::new();
        let mut i: usize = 0;
        while i < n
            invariant
                i <= n,
                signals.len() == i,
                clocking.len() == i,
                arrays.len() == i,
                containers.len() == i,
                proc_locals.len() == i,
                strings.len() == i,
                mailboxes.len() == i,
                processes.len() == i,
                semaphores.len() == i,
                captures.len() == i,
                func_names.len() == i,
                class_nodes.len() == i,
                gen_scope_paths.len() == i,
                func_irs.len() == i,
                samples.len() == i,
                vif_instances.len() == i,
                forall|j: int| 0 <= j < i ==> #[trigger] signals@[j] is None,
                forall|j: int| 0 <= j < i ==> #[trigger] clocking@[j] is None,
                forall|j: int| 0 <= j < i ==> #[trigger] arrays@[j] is None,
                forall|j: int| 0 <= j < i ==> #[trigger] containers@[j] is None,
                forall|j: int| 0 <= j < i ==> #[trigger] proc_locals@[j] is None,
                forall|j: int| 0 <= j < i ==> #[trigger] strings@[j] is None,
                forall|j: int| 0 <= j < i ==> #[trigger] mailboxes@[j] is None,
                forall|j: int| 0 <= j < i ==> #[trigger] processes@[j] is None,
                forall|j: int| 0 <= j < i ==> #[trigger] semaphores@[j] is None,
                forall|j: int| 0 <= j < i ==> #[trigger] captures@[j] is None,
                forall|j: int| 0 <= j < i ==> #[trigger] func_names@[j] is None,
                forall|j: int| 0 <= j < i ==> !#[trigger] class_nodes@[j],
                forall|j: int| 0 <= j < i ==> #[trigger] gen_scope_paths@[j] is None,
                forall|j: int| 0 <= j < i ==> #[trigger] func_irs@[j] is None,
                forall|j: int| 0 <= j < i ==> #[trigger] samples@[j] is None,
                forall|j: int| 0 <= j < i ==> #[trigger] vif_instances@[j] is None,
            decreases n - i,
        {
            signals.push(None);
            clocking.push(None);
            arrays.push(None);
            containers.push(None);
            proc_locals.push(None);
            strings.push(None);
            mailboxes.push(None);
            processes.push(None);
            semaphores.push(None);
            captures.push(None);
            func_names.push(None);
            class_nodes.push(false);
            gen_scope_paths.push(None);
            func_irs.push(None);
            samples.push(None);
            vif_instances.push(None);
            i = i + 1;
        }
        Codegen {
            nodes,
            inst: 0,
            signals,
            arrays,
            containers,
            model,
            clocking_sources: clocking,
            proc_locals,
            proc_local_instances: Vec::new(),
            proc_string_locals: strings,
            proc_mailbox_locals: mailboxes,
            proc_process_locals: processes,
            proc_semaphore_locals: semaphores,
            proc_mailbox_static_objects: Vec::new(),
            proc_process_static_objects: Vec::new(),
            proc_semaphore_static_objects: Vec::new(),
            mailbox_object_initializers: Vec::new(),
            semaphore_initializers: Vec::new(),
            declaration_inits: Vec::new(),
            scalar_init_cas: Vec::new(),
            structural_driver_sites: Vec::new(),
            structural_driver_terminal_sites: Vec::new(),
            structural_drivers: Vec::new(),
            pca_seq: 0,
            proc_seq: 0,
            frame_seq: 0,
            capture_locals: captures,
            delayed_driver_inits: Vec::new(),
            func_names,
            class_nodes,
            dpi_signatures: Vec::new(),
            gen_scope_paths,
            func_irs,
            clocking_samples: samples,
            virtual_interface_instances: vif_instances,
            virtual_interface_view_members: Vec::new(),
            virtual_interface_view_methods: Vec::new(),
            virtual_interface_types: Vec::new(),
        }
    }
}

impl Codegen {
    /// The integral value of an elaborated constant or parameter reference.
    pub open spec fn const_value(&self, i: int) -> Option<i128> {
        match self.kind(i) {
            NodeKind::Expr(ExprKind::Constant { value: Some(v), .. }) => Some(v),
            NodeKind::Param { value: Some(v) } => Some(v),
            NodeKind::Expr(ExprKind::Ref { target: Some(t) }) => match self.kind(t as int) {
                NodeKind::Param { value: Some(v) } => Some(v),
                _ => None,
            },
            _ => None,
        }
    }

    /// Evaluate an elaboration-time integral bound.
    pub fn eval_bound_i128(&self, i: usize) -> (r: Result<i128, String>)
        requires
            self.wf(),
            i < self.nodes.len(),
        ensures
            r is Ok <==> self.const_value(i as int) is Some,
            r matches Ok(v) ==> self.const_value(i as int) == Some(v),
            r matches Err(e) ==> e@ == "expression is not an elaboration-time constant"@,
    {
        proof { self.lemma_node(i as int); }
        match &self.nodes[i].kind {
            NodeKind::Expr(ExprKind::Constant { value: Some(v), .. }) => Ok(*v),
            NodeKind::Param { value: Some(v) } => Ok(*v),
            NodeKind::Expr(ExprKind::Ref { target: Some(t) }) => match &self.nodes[*t].kind {
                NodeKind::Param { value: Some(v) } => Ok(*v),
                _ => Err(String::from_str("expression is not an elaboration-time constant")),
            },
            _ => Err(String::from_str("expression is not an elaboration-time constant")),
        }
    }

    /// The fixed array a declaration or reference denotes.
    pub open spec fn array_spec(&self, i: int) -> Option<ArrayInfo> {
        if self.arrays@[i] is Some {
            self.arrays@[i]
        } else {
            match self.kind(i) {
                NodeKind::Expr(ExprKind::Ref { target: Some(t) }) => self.arrays@[t as int],
                _ => None,
            }
        }
    }

    pub fn array_of(&self, i: usize) -> (r: Option<&ArrayInfo>)
        requires
            self.wf(),
            i < self.nodes.len(),
        ensures
            r matches Some(a) ==> self.array_spec(i as int) == Some(*a),
            r is None ==> self.array_spec(i as int) is None,
    {
        proof { self.lemma_node(i as int); }
        match &self.arrays[i] {
            Some(a) => Some(a),
            None => match &self.nodes[i].kind {
                NodeKind::Expr(ExprKind::Ref { target: Some(t) }) => match &self.arrays[*t] {
                    Some(a) => Some(a),
                    None => None,
                },
                _ => None,
            },
        }
    }

    /// The model signal of a declaration.
    pub fn signal_of(&self, i: usize) -> (r: Option<&SignalInfo>)
        requires
            self.wf(),
            i < self.nodes.len(),
        ensures
            r matches Some(s) ==> self.signals@[i as int] == Some(*s),
            r is None ==> self.signals@[i as int] is None,
    {
        match &self.signals[i] {
            Some(s) => Some(s),
            None => None,
        }
    }

    /// The signal a hierarchical reference resolves to: that of its last
    /// resolved component.
    pub open spec fn hier_signal_spec(&self, refs: Seq<Option<usize>>) -> Option<SignalInfo>
        decreases refs.len(),
    {
        if refs.len() == 0 {
            None
        } else {
            match refs.last() {
                Some(t) => self.signals@[t as int],
                None => self.hier_signal_spec(refs.drop_last()),
            }
        }
    }

    pub fn hier_path_signal(&self, refs: &Vec<Option<usize>>) -> (r: Option<&SignalInfo>)
        requires
            self.wf(),
            forall|k: int| 0 <= k < refs.len() ==> (#[trigger] refs@[k] matches Some(t) ==> t < self.nodes.len()),
        ensures
            r matches Some(s) ==> self.hier_signal_spec(refs@) == Some(*s),
            r is None ==> self.hier_signal_spec(refs@) is None,
    {
        let mut k = refs.len();
        assert(refs@.subrange(0, k as int) =~= refs@);
        while k > 0
            invariant
                k <= refs.len(),
                self.wf(),
                forall|j: int| 0 <= j < refs.len() ==> (#[trigger] refs@[j] matches Some(t) ==> t < self.nodes.len()),
                self.hier_signal_spec(refs@) == self.hier_signal_spec(refs@.subrange(0, k as int)),
            decreases k,
        {
            let ghost prefix = refs@.subrange(0, k as int);
            assert(prefix.drop_last() =~= refs@.subrange(0, k - 1));
            match refs[k - 1] {
                Some(t) => {
                    return match &self.signals[t] {
                        Some(s) => Some(s),
                        None => None,
                    };
                },
                None => {},
            }
            k = k - 1;
        }
        None
    }
}

} // verus!
