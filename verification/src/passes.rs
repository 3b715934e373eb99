//! The order in which the emission passes visit an elaborated instance
//! tree: module instances, generate scopes and per-iteration scopes, with
//! the hierarchical path each construct is lowered under.

use vstd::prelude::*;
use crate::codegen::{Codegen, node_ok};
use crate::design::{NodeKind, StmtKind};
use crate::text::owned;
use vstd::string::StringExecFns;

verus! {

/// One of the emission passes over the instance tree.
#[derive(Clone, Copy, Debug, PartialEq, Eq, Structural)]
pub enum Pass {
    /// Continuous assignments and gate primitives.
    Comb,
    /// Port links of child instances.
    Links,
    /// Concurrent assertions and processes.
    Procs,
}

/// What a pass lowers at one step.
#[derive(Clone, Copy, Debug, PartialEq, Eq, Structural)]
pub enum EmitAction {
    ContAssign,
    Gate,
    Process,
    ConcurrentAssertion,
    /// The port links of the child instance `node`.
    Links,
}

/// One lowering step of a pass: `action` on construct `node` of instance
/// `inst`, under the hierarchical path that scope node `scope` names (see
/// [`Codegen::scope_path`]).
#[derive(Clone, Copy, Debug, PartialEq, Eq, Structural)]
pub struct EmitStep {
    pub action: EmitAction,
    pub inst: usize,
    pub scope: usize,
    pub node: usize,
}

pub open spec fn step(action: EmitAction, inst: usize, scope: usize, node: int) -> EmitStep {
    EmitStep { action, inst, scope, node: node as usize }
}

impl Codegen {
    /// The hierarchical path that scope node `scope` names: the path
    /// recorded for a generate scope, else the node's instance path.
    pub open spec fn scope_path_spec(&self, scope: int) -> Seq<char> {
        if self.kind(scope) is GenScope && self.gen_scope_paths@[scope] is Some {
            self.gen_scope_paths@[scope]->Some_0@
        } else {
            self.nodes@[scope].instance_path@
        }
    }

    /// The scope whose path generate scope `gs` is lowered under: its own
    /// recorded path, else the path of the enclosing scope.
    pub open spec fn gen_scope_owner(&self, gs: int, parent: usize) -> usize {
        if self.gen_scope_paths@[gs] is Some {
            gs as usize
        } else {
            parent
        }
    }

    /// The steps of instance `inst` lowered under scope `scope`: its
    /// concurrent assertions, its leaf constructs, its generate scopes, then
    /// its child instances.
    pub open spec fn inst_steps(&self, inst: int, scope: usize, pass: Pass) -> Seq<EmitStep>
        decreases self.len() - inst, 5int, 0int,
    {
        if !(0 <= inst < self.len()) {
            seq![]
        } else {
            self.phase_steps(inst, scope, pass, 0, 0) + self.phase_steps(inst, scope, pass, 1, 0)
                + self.phase_steps(inst, scope, pass, 2, 0) + self.phase_steps(inst, scope, pass, 3, 0)
        }
    }

    /// The steps that phase `ph` of instance `inst` takes for its children
    /// from position `k` on.
    pub open spec fn phase_steps(&self, inst: int, scope: usize, pass: Pass, ph: int, k: int) -> Seq<EmitStep>
        decreases self.len() - inst, 2int, self.nodes@[inst].children.len() - k,
    {
        let children = self.nodes@[inst].children@;
        if !(0 <= inst < self.len()) || k < 0 || k >= children.len() {
            seq![]
        } else {
            let c = children[k] as int;
            if !(inst < c < self.len()) {
                seq![]
            } else {
                self.inst_child_steps(inst, scope, pass, ph, c) + self.phase_steps(inst, scope, pass, ph, k + 1)
            }
        }
    }

    /// The steps that phase `ph` of instance `inst` takes for its child `c`.
    pub open spec fn inst_child_steps(&self, inst: int, scope: usize, pass: Pass, ph: int, c: int) -> Seq<EmitStep>
        decreases self.len() - c, 6int, 0int,
    {
        let i = inst as usize;
        if !(0 <= c < self.len()) {
            seq![]
        } else if ph == 0 {
            if pass == Pass::Procs && self.kind(c) == NodeKind::Stmt(StmtKind::ConcurrentAssertion) {
                seq![step(EmitAction::ConcurrentAssertion, i, scope, c)]
            } else {
                seq![]
            }
        } else if ph == 1 {
            match self.kind(c) {
                NodeKind::ContAssign { .. } => if pass == Pass::Comb {
                    seq![step(EmitAction::ContAssign, i, scope, c)]
                } else {
                    seq![]
                },
                NodeKind::Gate { .. } => if pass == Pass::Comb {
                    seq![step(EmitAction::Gate, i, scope, c)]
                } else {
                    seq![]
                },
                NodeKind::Process { .. } => if pass == Pass::Procs {
                    seq![step(EmitAction::Process, i, scope, c)]
                } else {
                    seq![]
                },
                _ => seq![],
            }
        } else if ph == 2 {
            match self.kind(c) {
                NodeKind::GenScope => self.gen_steps(inst, c, scope, pass),
                NodeKind::GenScopeArray => self.array_steps(inst, c, scope, pass, 0),
                _ => seq![],
            }
        } else {
            match self.kind(c) {
                NodeKind::ModuleInst { .. } => self.child_inst_steps(inst, scope, pass, c),
                _ => seq![],
            }
        }
    }

    /// A child instance `c` met under scope `scope`: its port links in the
    /// links pass, then its own steps under its own path.
    pub open spec fn child_inst_steps(&self, inst: int, scope: usize, pass: Pass, c: int) -> Seq<EmitStep>
        decreases self.len() - c, 5int, 1int,
    {
        if !(0 <= c < self.len()) {
            seq![]
        } else if pass == Pass::Links {
            seq![step(EmitAction::Links, inst as usize, scope, c)] + self.inst_steps(c, c as usize, pass)
        } else {
            self.inst_steps(c, c as usize, pass)
        }
    }

    /// The steps of generate scope `gs` of instance `inst`, entered under
    /// scope `parent`.
    pub open spec fn gen_steps(&self, inst: int, gs: int, parent: usize, pass: Pass) -> Seq<EmitStep>
        decreases self.len() - gs, 5int, 0int,
    {
        if !(0 <= gs < self.len()) {
            seq![]
        } else {
            self.gen_children_steps(inst, gs, self.gen_scope_owner(gs, parent), pass, 0)
        }
    }

    /// The steps for the children of generate scope `gs` from position `k` on.
    pub open spec fn gen_children_steps(&self, inst: int, gs: int, scope: usize, pass: Pass, k: int) -> Seq<EmitStep>
        decreases self.len() - gs, 2int, self.nodes@[gs].children.len() - k,
    {
        let children = self.nodes@[gs].children@;
        if !(0 <= gs < self.len()) || k < 0 || k >= children.len() {
            seq![]
        } else {
            let c = children[k] as int;
            if !(gs < c < self.len()) {
                seq![]
            } else {
                self.gen_child_steps(inst, scope, pass, c) + self.gen_children_steps(inst, gs, scope, pass, k + 1)
            }
        }
    }

    /// The steps for child `c` of a generate scope lowered under `scope`.
    pub open spec fn gen_child_steps(&self, inst: int, scope: usize, pass: Pass, c: int) -> Seq<EmitStep>
        decreases self.len() - c, 6int, 0int,
    {
        let i = inst as usize;
        if !(0 <= c < self.len()) {
            seq![]
        } else {
            match self.kind(c) {
                NodeKind::ContAssign { .. } => if pass == Pass::Comb {
                    seq![step(EmitAction::ContAssign, i, scope, c)]
                } else {
                    seq![]
                },
                NodeKind::Gate { .. } => if pass == Pass::Comb {
                    seq![step(EmitAction::Gate, i, scope, c)]
                } else {
                    seq![]
                },
                NodeKind::Process { .. } => if pass == Pass::Procs {
                    seq![step(EmitAction::Process, i, scope, c)]
                } else {
                    seq![]
                },
                NodeKind::Stmt(StmtKind::ConcurrentAssertion) => if pass == Pass::Procs {
                    seq![step(EmitAction::ConcurrentAssertion, i, scope, c)]
                } else {
                    seq![]
                },
                NodeKind::GenScope => self.gen_steps(inst, c, scope, pass),
                NodeKind::GenScopeArray => self.array_steps(inst, c, scope, pass, 0),
                NodeKind::ModuleInst { .. } => self.child_inst_steps(inst, scope, pass, c),
                _ => seq![],
            }
        }
    }

    /// The steps for the generate scopes of generate-scope array `arr` from
    /// position `k` on, each entered under `scope`.
    pub open spec fn array_steps(&self, inst: int, arr: int, scope: usize, pass: Pass, k: int) -> Seq<EmitStep>
        decreases self.len() - arr, 2int, self.nodes@[arr].children.len() - k,
    {
        let children = self.nodes@[arr].children@;
        if !(0 <= arr < self.len()) || k < 0 || k >= children.len() {
            seq![]
        } else {
            let g = children[k] as int;
            if !(arr < g < self.len()) {
                seq![]
            } else if self.kind(g) is GenScope {
                self.gen_steps(inst, g, scope, pass) + self.array_steps(inst, arr, scope, pass, k + 1)
            } else {
                self.array_steps(inst, arr, scope, pass, k + 1)
            }
        }
    }
}

impl Codegen {
    /// The lowering steps of one pass over the instance tree rooted at
    /// `top`, in the order the pass takes them: the caller lowers each step
    /// in turn and stops at the first error.
    pub fn emit_pass(&self, top: usize, pass: Pass) -> (steps: Vec<EmitStep>)
        requires
            self.wf(),
            top < self.nodes.len(),
        ensures
            steps@ == self.inst_steps(top as int, top, pass),
    {
        let mut steps: Vec<EmitStep> = Vec::new();
        self.emit_pass_inst(top, top, pass, &mut steps);
        assert(steps@ =~= self.inst_steps(top as int, top, pass));
        steps
    }

    /// Append the steps of instance `inst`, lowered under scope `scope`.
    pub fn emit_pass_inst(&self, inst: usize, scope: usize, pass: Pass, out: &mut Vec<EmitStep>)
        requires
            self.wf(),
            inst < self.nodes.len(),
        ensures
            final(out)@ == old(out)@ + self.inst_steps(inst as int, scope, pass),
        decreases self.nodes.len() - inst, 5int, 0int,
    {
        let ghost start = out@;
        self.emit_phase(inst, scope, pass, 0, out);
        self.emit_phase(inst, scope, pass, 1, out);
        self.emit_phase(inst, scope, pass, 2, out);
        self.emit_phase(inst, scope, pass, 3, out);
        assert(out@ =~= start + self.inst_steps(inst as int, scope, pass));
    }

    fn emit_phase(&self, inst: usize, scope: usize, pass: Pass, ph: usize, out: &mut Vec<EmitStep>)
        requires
            self.wf(),
            inst < self.nodes.len(),
        ensures
            final(out)@ == old(out)@ + self.phase_steps(inst as int, scope, pass, ph as int, 0),
        decreases self.nodes.len() - inst, 2int, 0int,
    {
        proof { self.lemma_node(inst as int); }
        let children = &self.nodes[inst].children;
        let ghost start = out@;
        let mut k: usize = 0;
        while k < children.len()
            invariant
                self.wf(),
                inst < self.nodes.len(),
                node_ok(self.nodes@, inst as int),
                children@ == self.nodes@[inst as int].children@,
                k <= children.len(),
                start + self.phase_steps(inst as int, scope, pass, ph as int, 0)
                    == out@ + self.phase_steps(inst as int, scope, pass, ph as int, k as int),
            decreases children.len() - k,
        {
            let c = children[k];
            let ghost before = out@;
            self.emit_inst_child(inst, scope, pass, ph, c, out);
            assert(out@ + self.phase_steps(inst as int, scope, pass, ph as int, k + 1)
                =~= before + self.phase_steps(inst as int, scope, pass, ph as int, k as int));
            k = k + 1;
        }
        assert(out@ =~= start + self.phase_steps(inst as int, scope, pass, ph as int, 0));
    }

    fn emit_inst_child(&self, inst: usize, scope: usize, pass: Pass, ph: usize, c: usize, out: &mut Vec<EmitStep>)
        requires
            self.wf(),
            c < self.nodes.len(),
        ensures
            final(out)@ == old(out)@ + self.inst_child_steps(inst as int, scope, pass, ph as int, c as int),
        decreases self.nodes.len() - c, 6int, 0int,
    {
        let ghost start = out@;
        if ph == 0 {
            if pass == Pass::Procs {
                if let NodeKind::Stmt(StmtKind::ConcurrentAssertion) = &self.nodes[c].kind {
                    out.push(EmitStep { action: EmitAction::ConcurrentAssertion, inst, scope, node: c });
                }
            }
        } else if ph == 1 {
            match &self.nodes[c].kind {
                NodeKind::ContAssign { .. } => if pass == Pass::Comb {
                    out.push(EmitStep { action: EmitAction::ContAssign, inst, scope, node: c });
                },
                NodeKind::Gate { .. } => if pass == Pass::Comb {
                    out.push(EmitStep { action: EmitAction::Gate, inst, scope, node: c });
                },
                NodeKind::Process { .. } => if pass == Pass::Procs {
                    out.push(EmitStep { action: EmitAction::Process, inst, scope, node: c });
                },
                _ => {},
            }
        } else if ph == 2 {
            match &self.nodes[c].kind {
                NodeKind::GenScope => self.emit_gen_scope(inst, c, scope, pass, out),
                NodeKind::GenScopeArray => self.emit_gen_array(inst, c, scope, pass, out),
                _ => {},
            }
        } else {
            if let NodeKind::ModuleInst { .. } = &self.nodes[c].kind {
                self.emit_child_inst(inst, scope, pass, c, out);
            }
        }
        assert(out@ =~= start + self.inst_child_steps(inst as int, scope, pass, ph as int, c as int));
    }

    fn emit_child_inst(&self, inst: usize, scope: usize, pass: Pass, c: usize, out: &mut Vec<EmitStep>)
        requires
            self.wf(),
            c < self.nodes.len(),
        ensures
            final(out)@ == old(out)@ + self.child_inst_steps(inst as int, scope, pass, c as int),
        decreases self.nodes.len() - c, 5int, 1int,
    {
        let ghost start = out@;
        if pass == Pass::Links {
            out.push(EmitStep { action: EmitAction::Links, inst, scope, node: c });
        }
        self.emit_pass_inst(c, c, pass, out);
        assert(out@ =~= start + self.child_inst_steps(inst as int, scope, pass, c as int));
    }

    /// Append the steps of generate scope `gs` of instance `inst`, entered
    /// under scope `parent`; the scope keeps its own recorded path for its
    /// nested scopes and generated instances.
    pub fn emit_gen_scope(&self, inst: usize, gs: usize, parent: usize, pass: Pass, out: &mut Vec<EmitStep>)
        requires
            self.wf(),
            gs < self.nodes.len(),
        ensures
            final(out)@ == old(out)@ + self.gen_steps(inst as int, gs as int, parent, pass),
        decreases self.nodes.len() - gs, 5int, 0int,
    {
        proof { self.lemma_node(gs as int); }
        let scope = if self.gen_scope_paths[gs].is_some() { gs } else { parent };
        let children = &self.nodes[gs].children;
        let ghost start = out@;
        let mut k: usize = 0;
        while k < children.len()
            invariant
                self.wf(),
                gs < self.nodes.len(),
                node_ok(self.nodes@, gs as int),
                children@ == self.nodes@[gs as int].children@,
                scope == self.gen_scope_owner(gs as int, parent),
                k <= children.len(),
                start + self.gen_children_steps(inst as int, gs as int, scope, pass, 0)
                    == out@ + self.gen_children_steps(inst as int, gs as int, scope, pass, k as int),
            decreases children.len() - k,
        {
            let c = children[k];
            let ghost before = out@;
            self.emit_gen_child(inst, scope, pass, c, out);
            assert(out@ + self.gen_children_steps(inst as int, gs as int, scope, pass, k + 1)
                =~= before + self.gen_children_steps(inst as int, gs as int, scope, pass, k as int));
            k = k + 1;
        }
        assert(out@ =~= start + self.gen_steps(inst as int, gs as int, parent, pass));
    }

    fn emit_gen_child(&self, inst: usize, scope: usize, pass: Pass, c: usize, out: &mut Vec<EmitStep>)
        requires
            self.wf(),
            c < self.nodes.len(),
        ensures
            final(out)@ == old(out)@ + self.gen_child_steps(inst as int, scope, pass, c as int),
        decreases self.nodes.len() - c, 6int, 0int,
    {
        let ghost start = out@;
        match &self.nodes[c].kind {
            NodeKind::ContAssign { .. } => if pass == Pass::Comb {
                out.push(EmitStep { action: EmitAction::ContAssign, inst, scope, node: c });
            },
            NodeKind::Gate { .. } => if pass == Pass::Comb {
                out.push(EmitStep { action: EmitAction::Gate, inst, scope, node: c });
            },
            NodeKind::Process { .. } => if pass == Pass::Procs {
                out.push(EmitStep { action: EmitAction::Process, inst, scope, node: c });
            },
            NodeKind::Stmt(StmtKind::ConcurrentAssertion) => if pass == Pass::Procs {
                out.push(EmitStep { action: EmitAction::ConcurrentAssertion, inst, scope, node: c });
            },
            NodeKind::GenScope => self.emit_gen_scope(inst, c, scope, pass, out),
            NodeKind::GenScopeArray => self.emit_gen_array(inst, c, scope, pass, out),
            NodeKind::ModuleInst { .. } => self.emit_child_inst(inst, scope, pass, c, out),
            _ => {},
        }
        assert(out@ =~= start + self.gen_child_steps(inst as int, scope, pass, c as int));
    }

    fn emit_gen_array(&self, inst: usize, arr: usize, scope: usize, pass: Pass, out: &mut Vec<EmitStep>)
        requires
            self.wf(),
            arr < self.nodes.len(),
        ensures
            final(out)@ == old(out)@ + self.array_steps(inst as int, arr as int, scope, pass, 0),
        decreases self.nodes.len() - arr, 2int, 0int,
    {
        proof { self.lemma_node(arr as int); }
        let children = &self.nodes[arr].children;
        let ghost start = out@;
        let mut k: usize = 0;
        while k < children.len()
            invariant
                self.wf(),
                arr < self.nodes.len(),
                node_ok(self.nodes@, arr as int),
                children@ == self.nodes@[arr as int].children@,
                k <= children.len(),
                start + self.array_steps(inst as int, arr as int, scope, pass, 0)
                    == out@ + self.array_steps(inst as int, arr as int, scope, pass, k as int),
            decreases children.len() - k,
        {
            let g = children[k];
            let ghost before = out@;
            if let NodeKind::GenScope = &self.nodes[g].kind {
                self.emit_gen_scope(inst, g, scope, pass, out);
            }
            assert(out@ + self.array_steps(inst as int, arr as int, scope, pass, k + 1)
                =~= before + self.array_steps(inst as int, arr as int, scope, pass, k as int));
            k = k + 1;
        }
        assert(out@ =~= start + self.array_steps(inst as int, arr as int, scope, pass, 0));
    }

    /// The hierarchical path that scope node `scope` names.
    pub fn scope_path(&self, scope: usize) -> (r: String)
        requires
            self.wf(),
            scope < self.nodes.len(),
        ensures
            r@ == self.scope_path_spec(scope as int),
    {
        if let NodeKind::GenScope = &self.nodes[scope].kind {
            if let Some(p) = &self.gen_scope_paths[scope] {
                return p.clone();
            }
        }
        self.nodes[scope].instance_path.clone()
    }
}

/// The procedural continuous assignments of one process body, claimed
/// before any body is lowered: `nodes` in source order, lowered in
/// instance `inst` under the path of scope `scope`.
pub struct PcaClaim {
    pub inst: usize,
    pub scope: usize,
    pub nodes: Vec<usize>,
}

pub open spec fn claims_view(cs: Seq<PcaClaim>) -> Seq<(usize, usize, Seq<usize>)> {
    cs.map_values(|c: PcaClaim| (c.inst, c.scope, c.nodes@))
}

/// `r` with `prefix` before its claims.
pub open spec fn after_claims(prefix: Seq<(usize, usize, Seq<usize>)>, r: Result<Seq<(usize, usize, Seq<usize>)>, usize>)
    -> Result<Seq<(usize, usize, Seq<usize>)>, usize>
{
    match r {
        Ok(cs) => Ok(prefix + cs),
        Err(o) => Err(o),
    }
}

/// The claims of `a` followed by those of `b`; the first failure wins.
pub open spec fn then_claims(a: Result<Seq<(usize, usize, Seq<usize>)>, usize>, b: Result<Seq<(usize, usize, Seq<usize>)>, usize>)
    -> Result<Seq<(usize, usize, Seq<usize>)>, usize>
{
    match a {
        Ok(x) => after_claims(x, b),
        Err(o) => Err(o),
    }
}

impl Codegen {
    /// The procedural continuous assignments of the statement tree rooted at
    /// `root`, in source order; the walk descends through statements only.
    pub open spec fn pca_nodes(&self, root: int) -> Seq<usize>
        decreases self.len() - root, 1int, 0int,
    {
        if !(0 <= root < self.len()) {
            seq![]
        } else {
            match self.kind(root) {
                NodeKind::Stmt(StmtKind::ProcContAssign) => seq![root as usize],
                NodeKind::Stmt(_) => self.pca_children(root, 0),
                _ => seq![],
            }
        }
    }

    pub open spec fn pca_children(&self, node: int, k: int) -> Seq<usize>
        decreases self.len() - node, 0int, self.nodes@[node].children.len() - k,
    {
        let children = self.nodes@[node].children@;
        if !(0 <= node < self.len()) || k < 0 || k >= children.len() {
            seq![]
        } else {
            let c = children[k] as int;
            if !(node < c < self.len()) {
                seq![]
            } else {
                self.pca_nodes(c) + self.pca_children(node, k + 1)
            }
        }
    }

    /// The claim of process `p` lowered in `inst` under `scope`: none when
    /// its body holds no procedural continuous assignment, the failing scope
    /// when the process has no statement.
    pub open spec fn proc_claim(&self, inst: usize, scope: usize, p: int) -> Result<Seq<(usize, usize, Seq<usize>)>, usize> {
        let children = self.nodes@[p].children@;
        if children.len() == 0 {
            Err(scope)
        } else {
            let ns = self.pca_nodes(children[0] as int);
            if ns.len() == 0 {
                Ok(seq![])
            } else {
                Ok(seq![(inst, scope, ns)])
            }
        }
    }

    /// The claims of the process steps among `steps`, in order.
    pub open spec fn claims_of(&self, steps: Seq<EmitStep>) -> Result<Seq<(usize, usize, Seq<usize>)>, usize>
        decreases steps.len(),
    {
        if steps.len() == 0 {
            Ok(seq![])
        } else {
            let s = steps[0];
            let first = if s.action == EmitAction::Process {
                self.proc_claim(s.inst, s.scope, s.node as int)
            } else {
                Ok(seq![])
            };
            then_claims(first, self.claims_of(steps.drop_first()))
        }
    }

    pub open spec fn missing_statement_message(&self, scope: usize) -> Seq<char> {
        "process without statement in `"@ + self.scope_path_spec(scope as int) + "`"@
    }

    /// Whether a pre-scan call that appended `before` to `after` and returned
    /// `r` did what `expected` says.
    pub open spec fn prescan_outcome(&self, before: Seq<PcaClaim>, after: Seq<PcaClaim>, r: Result<(), String>,
        expected: Result<Seq<(usize, usize, Seq<usize>)>, usize>) -> bool
    {
        match expected {
            Ok(cs) => r is Ok && claims_view(after) == claims_view(before) + cs,
            Err(o) => r matches Err(e) && e@ == self.missing_statement_message(o),
        }
    }

    pub proof fn lemma_claims_concat(&self, a: Seq<EmitStep>, b: Seq<EmitStep>)
        ensures
            self.claims_of(a + b) == then_claims(self.claims_of(a), self.claims_of(b)),
        decreases a.len(),
    {
        if a.len() == 0 {
            assert(a + b =~= b);
            match self.claims_of(b) {
                Ok(y) => assert(seq![] + y =~= y),
                Err(_) => {},
            }
        } else {
            assert((a + b).drop_first() =~= a.drop_first() + b);
            self.lemma_claims_concat(a.drop_first(), b);
            let s = a[0];
            assert((a + b)[0] == s);
            let first = if s.action == EmitAction::Process {
                self.proc_claim(s.inst, s.scope, s.node as int)
            } else {
                Ok(seq![])
            };
            match first {
                Ok(x) => match self.claims_of(a.drop_first()) {
                    Ok(y) => match self.claims_of(b) {
                        Ok(z) => assert(x + (y + z) =~= (x + y) + z),
                        Err(_) => {},
                    },
                    Err(_) => {},
                },
                Err(_) => {},
            }
        }
    }

    proof fn lemma_push_claim(&self, before: Seq<PcaClaim>, c: PcaClaim)
        ensures
            claims_view(before.push(c)) == claims_view(before) + seq![(c.inst, c.scope, c.nodes@)],
    {
        assert(claims_view(before.push(c)) =~= claims_view(before) + seq![(c.inst, c.scope, c.nodes@)]);
    }

    /// Append the procedural continuous assignments of the statement tree
    /// rooted at `root`, in source order. The walk descends through
    /// statements only: expressions hold no statements.
    pub fn collect_pca_nodes(&self, root: usize, out: &mut Vec<usize>)
        requires
            self.wf(),
            root < self.nodes.len(),
        ensures
            final(out)@ == old(out)@ + self.pca_nodes(root as int),
        decreases self.nodes.len() - root, 1int, 0int,
    {
        proof { self.lemma_node(root as int); }
        let ghost start = out@;
        match &self.nodes[root].kind {
            NodeKind::Stmt(StmtKind::ProcContAssign) => out.push(root),
            NodeKind::Stmt(_) => {
                let children = &self.nodes[root].children;
                let mut k: usize = 0;
                while k < children.len()
                    invariant
                        self.wf(),
                        root < self.nodes.len(),
                        node_ok(self.nodes@, root as int),
                        children@ == self.nodes@[root as int].children@,
                        k <= children.len(),
                        start + self.pca_children(root as int, 0) == out@ + self.pca_children(root as int, k as int),
                    decreases children.len() - k,
                {
                    let c = children[k];
                    let ghost before = out@;
                    self.collect_pca_nodes(c, out);
                    assert(out@ + self.pca_children(root as int, k + 1) =~= before + self.pca_children(root as int, k as int));
                    k = k + 1;
                }
            },
            _ => {},
        }
        assert(out@ =~= start + self.pca_nodes(root as int));
    }
}

impl Codegen {
    proof fn lemma_prescan_step(&self, start: Seq<PcaClaim>, before: Seq<PcaClaim>, after: Seq<PcaClaim>,
        r: Result<(), String>,
        child: Result<Seq<(usize, usize, Seq<usize>)>, usize>,
        whole: Result<Seq<(usize, usize, Seq<usize>)>, usize>,
        rest: Result<Seq<(usize, usize, Seq<usize>)>, usize>,
        now: Result<Seq<(usize, usize, Seq<usize>)>, usize>)
        requires
            now == then_claims(child, rest),
            after_claims(claims_view(start), whole) == after_claims(claims_view(before), now),
            self.prescan_outcome(before, after, r, child),
        ensures
            r is Ok ==> after_claims(claims_view(start), whole) == after_claims(claims_view(after), rest),
            r is Err ==> self.prescan_outcome(start, after, r, whole),
    {
        match child {
            Ok(x) => match rest {
                Ok(y) => assert(claims_view(before) + (x + y) =~= (claims_view(before) + x) + y),
                Err(_) => {},
            },
            Err(_) => {},
        }
    }

    proof fn lemma_prescan_done(&self, start: Seq<PcaClaim>, out: Seq<PcaClaim>,
        whole: Result<Seq<(usize, usize, Seq<usize>)>, usize>)
        requires
            after_claims(claims_view(start), whole) == after_claims(claims_view(out), Ok(seq![])),
        ensures
            self.prescan_outcome(start, out, Ok(()), whole),
    {
        assert(claims_view(out) + seq![] =~= claims_view(out));
        match whole {
            Ok(z) => assert(claims_view(start) + z == claims_view(out)),
            Err(_) => {},
        }
    }

    proof fn lemma_single_claim(&self, s: EmitStep)
        ensures
            self.claims_of(seq![s]) == (if s.action == EmitAction::Process {
                self.proc_claim(s.inst, s.scope, s.node as int)
            } else {
                Ok(seq![])
            }),
    {
        let none: Seq<EmitStep> = seq![];
        assert(seq![s].drop_first() =~= none);
        assert(self.claims_of(none) == Ok::<Seq<(usize, usize, Seq<usize>)>, usize>(seq![]));
        assert(seq![s][0] == s);
        match self.proc_claim(s.inst, s.scope, s.node as int) {
            Ok(x) => assert(x + seq![] =~= x),
            Err(_) => {},
        }
        let e: Seq<(usize, usize, Seq<usize>)> = seq![];
        assert(e + e =~= e);
    }

    proof fn lemma_no_claims(&self)
        ensures
            self.claims_of(seq![]) == Ok::<Seq<(usize, usize, Seq<usize>)>, usize>(seq![]),
    {
    }

    /// Concurrent assertions claim nothing.
    proof fn lemma_assertion_phase(&self, inst: int, scope: usize, k: int)
        requires
            self.wf(),
            0 <= inst < self.len(),
        ensures
            self.claims_of(self.phase_steps(inst, scope, Pass::Procs, 0, k)) == Ok::<Seq<(usize, usize, Seq<usize>)>, usize>(seq![]),
        decreases self.nodes@[inst].children.len() - k,
    {
        let children = self.nodes@[inst].children@;
        if 0 <= k < children.len() {
            let c = children[k] as int;
            if inst < c < self.len() {
                self.lemma_assertion_phase(inst, scope, k + 1);
                let cs = self.inst_child_steps(inst, scope, Pass::Procs, 0, c);
                self.lemma_claims_concat(cs, self.phase_steps(inst, scope, Pass::Procs, 0, k + 1));
                if self.kind(c) == NodeKind::Stmt(StmtKind::ConcurrentAssertion) {
                    self.lemma_single_claim(step(EmitAction::ConcurrentAssertion, inst as usize, scope, c));
                }
                let e: Seq<(usize, usize, Seq<usize>)> = seq![];
                assert(e + e =~= e);
            }
        }
    }

    fn missing_statement(&self, scope: usize) -> (r: String)
        requires
            self.wf(),
            scope < self.nodes.len(),
        ensures
            r@ == self.missing_statement_message(scope),
    {
        let mut m = owned("process without statement in `");
        let p = self.scope_path(scope);
        m.append(p.as_str());
        m.append("`");
        m
    }

    /// Pre-scan one process body: claim its procedural continuous
    /// assignments, if any, for instance `inst` under scope `scope`.
    pub fn prescan_pca_proc(&self, inst: usize, scope: usize, process: usize, out: &mut Vec<PcaClaim>)
        -> (r: Result<(), String>)
        requires
            self.wf(),
            scope < self.nodes.len(),
            process < self.nodes.len(),
        ensures
            self.prescan_outcome(old(out)@, final(out)@, r, self.proc_claim(inst, scope, process as int)),
    {
        proof { self.lemma_node(process as int); }
        if self.nodes[process].children.len() == 0 {
            return Err(self.missing_statement(scope));
        }
        let stmt = self.nodes[process].children[0];
        let mut nodes: Vec<usize> = Vec::new();
        self.collect_pca_nodes(stmt, &mut nodes);
        assert(nodes@ =~= self.pca_nodes(stmt as int));
        if nodes.len() == 0 {
            assert(claims_view(out@) + seq![] =~= claims_view(out@));
            return Ok(());
        }
        let claim = PcaClaim { inst, scope, nodes };
        proof { self.lemma_push_claim(out@, claim); }
        out.push(claim);
        Ok(())
    }
}

impl Codegen {
    /// Claim every procedural continuous assignment site of the instance
    /// tree rooted at `inst` before any body is lowered, so that a
    /// `deassign` lowered before the process holding the matching `assign`
    /// still finds its site. The walk visits processes, generate scopes and
    /// child instances exactly as the process emission pass does; bodies of
    /// subroutines are not scanned (they are lowered before any process).
    pub fn prescan_pca_sites(&self, inst: usize, scope: usize, out: &mut Vec<PcaClaim>) -> (r: Result<(), String>)
        requires
            self.wf(),
            inst < self.nodes.len(),
            scope < self.nodes.len(),
        ensures
            self.prescan_outcome(old(out)@, final(out)@, r,
                self.claims_of(self.inst_steps(inst as int, scope, Pass::Procs))),
        decreases self.nodes.len() - inst, 5int, 0int,
    {
        let ghost start = out@;
        let ghost p0 = self.phase_steps(inst as int, scope, Pass::Procs, 0, 0);
        let ghost p1 = self.phase_steps(inst as int, scope, Pass::Procs, 1, 0);
        let ghost p2 = self.phase_steps(inst as int, scope, Pass::Procs, 2, 0);
        let ghost p3 = self.phase_steps(inst as int, scope, Pass::Procs, 3, 0);
        proof {
            self.lemma_assertion_phase(inst as int, scope, 0);
            self.lemma_claims_concat(p0, p1);
            self.lemma_claims_concat(p0 + p1, p2);
            self.lemma_claims_concat(p0 + p1 + p2, p3);
            let e: Seq<(usize, usize, Seq<usize>)> = seq![];
            match self.claims_of(p1) {
                Ok(x) => assert(e + x =~= x),
                Err(_) => {},
            }
        }
        let ghost whole = self.claims_of(self.inst_steps(inst as int, scope, Pass::Procs));
        let ghost c1 = self.claims_of(p1);
        let ghost c2 = self.claims_of(p2);
        let ghost c3 = self.claims_of(p3);
        let r1 = self.prescan_phase(inst, scope, 1, out);
        if r1.is_err() {
            return r1;
        }
        let ghost mid1 = out@;
        let r2 = self.prescan_phase(inst, scope, 2, out);
        if r2.is_err() {
            return r2;
        }
        let ghost mid2 = out@;
        let r3 = self.prescan_phase(inst, scope, 3, out);
        if r3.is_err() {
            proof {
                let x1 = c1->Ok_0;
                let x2 = c2->Ok_0;
                assert(whole == then_claims(Ok(x1 + x2), c3));
            }
            return r3;
        }
        proof {
            let x1 = c1->Ok_0;
            let x2 = c2->Ok_0;
            let x3 = c3->Ok_0;
            assert(claims_view(out@) =~= claims_view(start) + (x1 + x2 + x3));
        }
        Ok(())
    }

    fn prescan_phase(&self, inst: usize, scope: usize, ph: usize, out: &mut Vec<PcaClaim>) -> (r: Result<(), String>)
        requires
            self.wf(),
            inst < self.nodes.len(),
            scope < self.nodes.len(),
        ensures
            self.prescan_outcome(old(out)@, final(out)@, r,
                self.claims_of(self.phase_steps(inst as int, scope, Pass::Procs, ph as int, 0))),
        decreases self.nodes.len() - inst, 2int, 0int,
    {
        proof { self.lemma_node(inst as int); }
        let children = &self.nodes[inst].children;
        let ghost start = out@;
        let ghost whole = self.claims_of(self.phase_steps(inst as int, scope, Pass::Procs, ph as int, 0));
        let mut k: usize = 0;
        while k < children.len()
            invariant
                self.wf(),
                inst < self.nodes.len(),
                scope < self.nodes.len(),
                node_ok(self.nodes@, inst as int),
                children@ == self.nodes@[inst as int].children@,
                k <= children.len(),
                whole == self.claims_of(self.phase_steps(inst as int, scope, Pass::Procs, ph as int, 0)),
                after_claims(claims_view(start), whole) == after_claims(claims_view(out@),
                    self.claims_of(self.phase_steps(inst as int, scope, Pass::Procs, ph as int, k as int))),
            decreases children.len() - k,
        {
            let c = children[k];
            let ghost before = out@;
            let ghost child = self.claims_of(self.inst_child_steps(inst as int, scope, Pass::Procs, ph as int, c as int));
            let ghost rest = self.claims_of(self.phase_steps(inst as int, scope, Pass::Procs, ph as int, k + 1));
            proof {
                self.lemma_claims_concat(self.inst_child_steps(inst as int, scope, Pass::Procs, ph as int, c as int),
                    self.phase_steps(inst as int, scope, Pass::Procs, ph as int, k + 1));
            }
            let r = self.prescan_inst_child(inst, scope, ph, c, out);
            proof {
                self.lemma_prescan_step(start, before, out@, r, child, whole, rest,
                    self.claims_of(self.phase_steps(inst as int, scope, Pass::Procs, ph as int, k as int)));
            }
            if r.is_err() {
                return r;
            }
            k = k + 1;
        }
        proof { self.lemma_prescan_done(start, out@, whole); }
        Ok(())
    }

    fn prescan_inst_child(&self, inst: usize, scope: usize, ph: usize, c: usize, out: &mut Vec<PcaClaim>) -> (r: Result<(), String>)
        requires
            self.wf(),
            c < self.nodes.len(),
            scope < self.nodes.len(),
        ensures
            self.prescan_outcome(old(out)@, final(out)@, r,
                self.claims_of(self.inst_child_steps(inst as int, scope, Pass::Procs, ph as int, c as int))),
        decreases self.nodes.len() - c, 6int, 0int,
    {
        proof {
            self.lemma_no_claims();
            assert(claims_view(out@) + seq![] =~= claims_view(out@));
        }
        if ph == 1 {
            if let NodeKind::Process { .. } = &self.nodes[c].kind {
                proof { self.lemma_single_claim(step(EmitAction::Process, inst, scope, c as int)); }
                return self.prescan_pca_proc(inst, scope, c, out);
            }
        } else if ph == 2 {
            match &self.nodes[c].kind {
                NodeKind::GenScope => return self.prescan_pca_gen_scope(inst, c, scope, out),
                NodeKind::GenScopeArray => return self.prescan_pca_gen_array(inst, c, scope, out),
                _ => {},
            }
        } else if ph == 0 {
            if let NodeKind::Stmt(StmtKind::ConcurrentAssertion) = &self.nodes[c].kind {
                proof { self.lemma_single_claim(step(EmitAction::ConcurrentAssertion, inst, scope, c as int)); }
            }
        } else {
            if let NodeKind::ModuleInst { .. } = &self.nodes[c].kind {
                return self.prescan_pca_sites(c, c, out);
            }
        }
        Ok(())
    }

    /// Pre-scan one generate scope of instance `inst`, entered under scope
    /// `parent`, with the path the emission pass gives it.
    pub fn prescan_pca_gen_scope(&self, inst: usize, gs: usize, parent: usize, out: &mut Vec<PcaClaim>) -> (r: Result<(), String>)
        requires
            self.wf(),
            gs < self.nodes.len(),
            parent < self.nodes.len(),
        ensures
            self.prescan_outcome(old(out)@, final(out)@, r,
                self.claims_of(self.gen_steps(inst as int, gs as int, parent, Pass::Procs))),
        decreases self.nodes.len() - gs, 5int, 0int,
    {
        proof { self.lemma_node(gs as int); }
        let scope = if self.gen_scope_paths[gs].is_some() { gs } else { parent };
        let children = &self.nodes[gs].children;
        let ghost start = out@;
        let ghost whole = self.claims_of(self.gen_children_steps(inst as int, gs as int, scope, Pass::Procs, 0));
        let mut k: usize = 0;
        while k < children.len()
            invariant
                self.wf(),
                gs < self.nodes.len(),
                scope < self.nodes.len(),
                node_ok(self.nodes@, gs as int),
                children@ == self.nodes@[gs as int].children@,
                scope == self.gen_scope_owner(gs as int, parent),
                k <= children.len(),
                whole == self.claims_of(self.gen_children_steps(inst as int, gs as int, scope, Pass::Procs, 0)),
                after_claims(claims_view(start), whole) == after_claims(claims_view(out@),
                    self.claims_of(self.gen_children_steps(inst as int, gs as int, scope, Pass::Procs, k as int))),
            decreases children.len() - k,
        {
            let c = children[k];
            let ghost before = out@;
            let ghost child = self.claims_of(self.gen_child_steps(inst as int, scope, Pass::Procs, c as int));
            let ghost rest = self.claims_of(self.gen_children_steps(inst as int, gs as int, scope, Pass::Procs, k + 1));
            proof {
                self.lemma_claims_concat(self.gen_child_steps(inst as int, scope, Pass::Procs, c as int),
                    self.gen_children_steps(inst as int, gs as int, scope, Pass::Procs, k + 1));
            }
            let r = self.prescan_gen_child(inst, scope, c, out);
            proof {
                self.lemma_prescan_step(start, before, out@, r, child, whole, rest,
                    self.claims_of(self.gen_children_steps(inst as int, gs as int, scope, Pass::Procs, k as int)));
            }
            if r.is_err() {
                return r;
            }
            k = k + 1;
        }
        proof { self.lemma_prescan_done(start, out@, whole); }
        Ok(())
    }

    fn prescan_gen_child(&self, inst: usize, scope: usize, c: usize, out: &mut Vec<PcaClaim>) -> (r: Result<(), String>)
        requires
            self.wf(),
            c < self.nodes.len(),
            scope < self.nodes.len(),
        ensures
            self.prescan_outcome(old(out)@, final(out)@, r,
                self.claims_of(self.gen_child_steps(inst as int, scope, Pass::Procs, c as int))),
        decreases self.nodes.len() - c, 6int, 0int,
    {
        proof {
            self.lemma_no_claims();
            assert(claims_view(out@) + seq![] =~= claims_view(out@));
        }
        match &self.nodes[c].kind {
            NodeKind::Process { .. } => {
                proof { self.lemma_single_claim(step(EmitAction::Process, inst, scope, c as int)); }
                self.prescan_pca_proc(inst, scope, c, out)
            },
            NodeKind::Stmt(StmtKind::ConcurrentAssertion) => {
                proof { self.lemma_single_claim(step(EmitAction::ConcurrentAssertion, inst, scope, c as int)); }
                Ok(())
            },
            NodeKind::GenScope => self.prescan_pca_gen_scope(inst, c, scope, out),
            NodeKind::GenScopeArray => self.prescan_pca_gen_array(inst, c, scope, out),
            NodeKind::ModuleInst { .. } => self.prescan_pca_sites(c, c, out),
            _ => Ok(()),
        }
    }

    fn prescan_pca_gen_array(&self, inst: usize, arr: usize, scope: usize, out: &mut Vec<PcaClaim>) -> (r: Result<(), String>)
        requires
            self.wf(),
            arr < self.nodes.len(),
            scope < self.nodes.len(),
        ensures
            self.prescan_outcome(old(out)@, final(out)@, r,
                self.claims_of(self.array_steps(inst as int, arr as int, scope, Pass::Procs, 0))),
        decreases self.nodes.len() - arr, 2int, 0int,
    {
        proof { self.lemma_node(arr as int); }
        let children = &self.nodes[arr].children;
        let ghost start = out@;
        let ghost whole = self.claims_of(self.array_steps(inst as int, arr as int, scope, Pass::Procs, 0));
        let mut k: usize = 0;
        while k < children.len()
            invariant
                self.wf(),
                arr < self.nodes.len(),
                scope < self.nodes.len(),
                node_ok(self.nodes@, arr as int),
                children@ == self.nodes@[arr as int].children@,
                k <= children.len(),
                whole == self.claims_of(self.array_steps(inst as int, arr as int, scope, Pass::Procs, 0)),
                after_claims(claims_view(start), whole) == after_claims(claims_view(out@),
                    self.claims_of(self.array_steps(inst as int, arr as int, scope, Pass::Procs, k as int))),
            decreases children.len() - k,
        {
            let g = children[k];
            let ghost before = out@;
            let ghost rest = self.claims_of(self.array_steps(inst as int, arr as int, scope, Pass::Procs, k + 1));
            if let NodeKind::GenScope = &self.nodes[g].kind {
                let ghost child = self.claims_of(self.gen_steps(inst as int, g as int, scope, Pass::Procs));
                proof {
                    self.lemma_claims_concat(self.gen_steps(inst as int, g as int, scope, Pass::Procs),
                        self.array_steps(inst as int, arr as int, scope, Pass::Procs, k + 1));
                }
                let r = self.prescan_pca_gen_scope(inst, g, scope, out);
                proof {
                    self.lemma_prescan_step(start, before, out@, r, child, whole, rest,
                        self.claims_of(self.array_steps(inst as int, arr as int, scope, Pass::Procs, k as int)));
                }
                if r.is_err() {
                    return r;
                }
            }
            k = k + 1;
        }
        proof { self.lemma_prescan_done(start, out@, whole); }
        Ok(())
    }
}


impl Codegen {
    /// Whether step `s` belongs to pass `pass` and lowers a construct of the
    /// kind its action names.
    pub open spec fn step_fits(&self, s: EmitStep, pass: Pass) -> bool {
        let k = self.kind(s.node as int);
        match s.action {
            EmitAction::ContAssign => pass == Pass::Comb && k is ContAssign,
            EmitAction::Gate => pass == Pass::Comb && k is Gate,
            EmitAction::Process => pass == Pass::Procs && k is Process,
            EmitAction::ConcurrentAssertion => pass == Pass::Procs && k == NodeKind::Stmt(StmtKind::ConcurrentAssertion),
            EmitAction::Links => pass == Pass::Links && k is ModuleInst,
        }
    }

    pub open spec fn steps_fit(&self, steps: Seq<EmitStep>, pass: Pass) -> bool {
        forall|i: int| 0 <= i < steps.len() ==> self.step_fits(#[trigger] steps[i], pass)
    }

    /// Each pass takes only its own kind of step: the combinational pass
    /// lowers continuous assignments and gates, the links pass the port
    /// links of child instances, the process pass processes and concurrent
    /// assertions; and every step names a construct of that kind.
    pub proof fn law_pass_steps_fit(&self, inst: int, scope: usize, pass: Pass)
        ensures
            self.steps_fit(self.inst_steps(inst, scope, pass), pass),
        decreases self.len() - inst, 5int, 0int,
    {
        if 0 <= inst < self.len() {
            self.lemma_phase_fits(inst, scope, pass, 0, 0);
            self.lemma_phase_fits(inst, scope, pass, 1, 0);
            self.lemma_phase_fits(inst, scope, pass, 2, 0);
            self.lemma_phase_fits(inst, scope, pass, 3, 0);
            lemma_fit_concat(self, self.phase_steps(inst, scope, pass, 0, 0), self.phase_steps(inst, scope, pass, 1, 0), pass);
            lemma_fit_concat(self, self.phase_steps(inst, scope, pass, 0, 0) + self.phase_steps(inst, scope, pass, 1, 0),
                self.phase_steps(inst, scope, pass, 2, 0), pass);
            lemma_fit_concat(self, self.phase_steps(inst, scope, pass, 0, 0) + self.phase_steps(inst, scope, pass, 1, 0)
                + self.phase_steps(inst, scope, pass, 2, 0), self.phase_steps(inst, scope, pass, 3, 0), pass);
        }
    }

    proof fn lemma_phase_fits(&self, inst: int, scope: usize, pass: Pass, ph: int, k: int)
        ensures
            self.steps_fit(self.phase_steps(inst, scope, pass, ph, k), pass),
        decreases self.len() - inst, 2int, self.nodes@[inst].children.len() - k,
    {
        let children = self.nodes@[inst].children@;
        if 0 <= inst < self.len() && 0 <= k < children.len() {
            let c = children[k] as int;
            if inst < c < self.len() {
                self.lemma_inst_child_fits(inst, scope, pass, ph, c);
                self.lemma_phase_fits(inst, scope, pass, ph, k + 1);
                lemma_fit_concat(self, self.inst_child_steps(inst, scope, pass, ph, c),
                    self.phase_steps(inst, scope, pass, ph, k + 1), pass);
            }
        }
    }

    proof fn lemma_inst_child_fits(&self, inst: int, scope: usize, pass: Pass, ph: int, c: int)
        ensures
            self.steps_fit(self.inst_child_steps(inst, scope, pass, ph, c), pass),
        decreases self.len() - c, 6int, 0int,
    {
        if 0 <= c < self.len() {
            if ph == 2 {
                match self.kind(c) {
                    NodeKind::GenScope => self.lemma_gen_fits(inst, c, scope, pass),
                    NodeKind::GenScopeArray => self.lemma_array_fits(inst, c, scope, pass, 0),
                    _ => {},
                }
            } else if ph != 0 && ph != 1 {
                if self.kind(c) is ModuleInst {
                    self.lemma_child_inst_fits(inst, scope, pass, c);
                }
            }
        }
    }

    proof fn lemma_child_inst_fits(&self, inst: int, scope: usize, pass: Pass, c: int)
        requires
            0 <= c < self.len() ==> self.kind(c) is ModuleInst,
        ensures
            self.steps_fit(self.child_inst_steps(inst, scope, pass, c), pass),
        decreases self.len() - c, 5int, 1int,
    {
        if 0 <= c < self.len() {
            self.law_pass_steps_fit(c, c as usize, pass);
            if pass == Pass::Links {
                lemma_fit_concat(self, seq![step(EmitAction::Links, inst as usize, scope, c)],
                    self.inst_steps(c, c as usize, pass), pass);
            }
        }
    }

    proof fn lemma_gen_fits(&self, inst: int, gs: int, parent: usize, pass: Pass)
        ensures
            self.steps_fit(self.gen_steps(inst, gs, parent, pass), pass),
        decreases self.len() - gs, 5int, 0int,
    {
        if 0 <= gs < self.len() {
            self.lemma_gen_children_fit(inst, gs, self.gen_scope_owner(gs, parent), pass, 0);
        }
    }

    proof fn lemma_gen_children_fit(&self, inst: int, gs: int, scope: usize, pass: Pass, k: int)
        ensures
            self.steps_fit(self.gen_children_steps(inst, gs, scope, pass, k), pass),
        decreases self.len() - gs, 2int, self.nodes@[gs].children.len() - k,
    {
        let children = self.nodes@[gs].children@;
        if 0 <= gs < self.len() && 0 <= k < children.len() {
            let c = children[k] as int;
            if gs < c < self.len() {
                self.lemma_gen_child_fits(inst, scope, pass, c);
                self.lemma_gen_children_fit(inst, gs, scope, pass, k + 1);
                lemma_fit_concat(self, self.gen_child_steps(inst, scope, pass, c),
                    self.gen_children_steps(inst, gs, scope, pass, k + 1), pass);
            }
        }
    }

    proof fn lemma_gen_child_fits(&self, inst: int, scope: usize, pass: Pass, c: int)
        ensures
            self.steps_fit(self.gen_child_steps(inst, scope, pass, c), pass),
        decreases self.len() - c, 6int, 0int,
    {
        if 0 <= c < self.len() {
            match self.kind(c) {
                NodeKind::GenScope => self.lemma_gen_fits(inst, c, scope, pass),
                NodeKind::GenScopeArray => self.lemma_array_fits(inst, c, scope, pass, 0),
                NodeKind::ModuleInst { .. } => self.lemma_child_inst_fits(inst, scope, pass, c),
                _ => {},
            }
        }
    }

    proof fn lemma_array_fits(&self, inst: int, arr: int, scope: usize, pass: Pass, k: int)
        ensures
            self.steps_fit(self.array_steps(inst, arr, scope, pass, k), pass),
        decreases self.len() - arr, 2int, self.nodes@[arr].children.len() - k,
    {
        let children = self.nodes@[arr].children@;
        if 0 <= arr < self.len() && 0 <= k < children.len() {
            let g = children[k] as int;
            if arr < g < self.len() {
                self.lemma_array_fits(inst, arr, scope, pass, k + 1);
                if self.kind(g) is GenScope {
                    self.lemma_gen_fits(inst, g, scope, pass);
                    lemma_fit_concat(self, self.gen_steps(inst, g, scope, pass),
                        self.array_steps(inst, arr, scope, pass, k + 1), pass);
                }
            }
        }
    }
}

proof fn lemma_fit_concat(cg: &Codegen, a: Seq<EmitStep>, b: Seq<EmitStep>, pass: Pass)
    requires
        cg.steps_fit(a, pass),
        cg.steps_fit(b, pass),
    ensures
        cg.steps_fit(a + b, pass),
{
    assert forall|i: int| 0 <= i < (a + b).len() implies cg.step_fits(#[trigger] (a + b)[i], pass) by {
        if i < a.len() {
            assert((a + b)[i] == a[i]);
        } else {
            assert((a + b)[i] == b[i - a.len()]);
        }
    }
}

} // verus!
