//! Signals that references, select bases and assignment targets resolve to.

use vstd::prelude::*;
use vstd::string::StringExecFns;
use crate::codegen::Codegen;
use crate::design::{NodeKind, ExprKind, SignalInfo};
use crate::text::owned;

verus! {

impl Codegen {
    /// The signal a declaration, a reference to one, or a hierarchical path
    /// denotes.
    pub open spec fn signal_ref_spec(&self, node: int) -> Option<SignalInfo> {
        match self.kind(node) {
            NodeKind::Net { .. } | NodeKind::Var { .. } => self.signals@[node],
            NodeKind::Expr(ExprKind::Ref { target: Some(t) }) => self.signals@[t as int],
            NodeKind::Expr(ExprKind::HierPath { refs }) => self.hier_signal_spec(refs@),
            _ => None,
        }
    }

    fn signal_ref(&self, node: usize) -> (r: Option<SignalInfo>)
        requires
            self.wf(),
            node < self.nodes.len(),
        ensures
            r == self.signal_ref_spec(node as int),
    {
        proof { self.lemma_node(node as int); }
        match &self.nodes[node].kind {
            NodeKind::Net { .. } | NodeKind::Var { .. } => match self.signal_of(node) {
                Some(info) => Some(info.clone()),
                None => None,
            },
            NodeKind::Expr(ExprKind::Ref { target: Some(t) }) => match self.signal_of(*t) {
                Some(info) => Some(info.clone()),
                None => None,
            },
            NodeKind::Expr(ExprKind::HierPath { refs }) => match self.hier_path_signal(refs) {
                Some(info) => Some(info.clone()),
                None => None,
            },
            _ => None,
        }
    }

    /// Resolve a net, variable or reference to its global signal, as port
    /// links and event sensitivities name it.
    pub fn resolve_signal_id(&self, scope_path: &str, node: usize) -> (r: Result<(String, SignalInfo), String>)
        requires
            self.wf(),
            node < self.nodes.len(),
        ensures
            r is Ok <==> self.signal_ref_spec(node as int) is Some,
            r matches Ok((global, info)) ==> self.signal_ref_spec(node as int) == Some(info) && global@ == info.global@,
            r matches Err(e) ==> e@ == "cannot resolve signal reference `"@ + self.nodes@[node as int].name@
                + "` in `"@ + scope_path@ + "`"@,
    {
        match self.signal_ref(node) {
            Some(info) => Ok((info.global.clone(), info)),
            None => {
                let mut m = owned("cannot resolve signal reference `");
                m.append(self.nodes[node].name.as_str());
                m.append("` in `");
                m.append(scope_path);
                m.append("`");
                Err(m)
            },
        }
    }

    /// The clocking variable a node names: the target of a reference to
    /// one, or the node itself.
    pub open spec fn clocking_target(&self, node: int) -> Option<usize> {
        match self.kind(node) {
            NodeKind::Expr(ExprKind::Ref { target: Some(t) }) if self.nodes@[t as int].clocking_var => Some(t),
            _ => if self.nodes@[node].clocking_var {
                Some(node as usize)
            } else {
                None
            },
        }
    }

    /// The sampled source of the clocking variable a node names.
    pub open spec fn clocking_source_spec(&self, node: int) -> Option<SignalInfo> {
        match self.clocking_target(node) {
            Some(t) => self.clocking_sources@[t as int],
            None => None,
        }
    }

    fn clocking_source(&self, node: usize) -> (r: Option<SignalInfo>)
        requires
            self.wf(),
            node < self.nodes.len(),
        ensures
            r == self.clocking_source_spec(node as int),
    {
        proof { self.lemma_node(node as int); }
        let target = match &self.nodes[node].kind {
            NodeKind::Expr(ExprKind::Ref { target: Some(t) }) if self.nodes[*t].clocking_var => Some(*t),
            _ => if self.nodes[node].clocking_var { Some(node) } else { None },
        };
        match target {
            Some(t) => match &self.clocking_sources[t] {
                Some(info) => Some(info.clone()),
                None => None,
            },
            None => None,
        }
    }

    /// The signal the base of a select reads: the sampled source of a
    /// clocking variable, else the signal the base denotes.
    pub open spec fn base_signal_spec(&self, base: int) -> Option<SignalInfo> {
        match self.clocking_source_spec(base) {
            Some(info) => Some(info),
            None => self.signal_ref_spec(base),
        }
    }

    /// Resolve the base of a select to its global signal.
    pub fn base_signal(&self, scope_path: &str, base: usize) -> (r: Result<(String, SignalInfo), String>)
        requires
            self.wf(),
            base < self.nodes.len(),
        ensures
            r is Ok <==> self.base_signal_spec(base as int) is Some,
            r matches Ok((global, info)) ==> self.base_signal_spec(base as int) == Some(info) && global@ == info.global@,
            r matches Err(e) ==> e@ == "cannot resolve base signal of select `"@ + self.nodes@[base as int].name@ + "`"@,
    {
        if let Some(info) = self.clocking_source(base) {
            return Ok((info.global.clone(), info));
        }
        match self.signal_ref(base) {
            Some(info) => Ok((info.global.clone(), info)),
            None => {
                let mut m = owned("cannot resolve base signal of select `");
                m.append(self.nodes[base].name.as_str());
                m.append("`");
                Err(m)
            },
        }
    }

    /// The signal a whole-signal assignment target bound to `target` writes.
    pub open spec fn lhs_target_spec(&self, target: Option<usize>) -> Option<SignalInfo> {
        match target {
            Some(t) => match self.clocking_source_spec(t as int) {
                Some(info) => Some(info),
                None => self.signals@[t as int],
            },
            None => None,
        }
    }

    /// Resolve a whole-signal assignment target by its bound declaration.
    pub fn resolve_lhs_target(&self, node: usize, target: Option<usize>) -> (r: Result<(String, SignalInfo), String>)
        requires
            self.wf(),
            node < self.nodes.len(),
            target matches Some(t) ==> t < self.nodes.len(),
        ensures
            r is Ok <==> self.lhs_target_spec(target) is Some,
            r matches Ok((global, info)) ==> self.lhs_target_spec(target) == Some(info) && global@ == info.global@,
            r matches Err(e) ==> e@ == "cannot resolve assignment target `"@ + self.nodes@[node as int].name@ + "`"@,
    {
        if let Some(t) = target {
            if let Some(info) = self.clocking_source(t) {
                return Ok((info.global.clone(), info));
            }
            if let Some(info) = self.signal_of(t) {
                return Ok((info.global.clone(), info.clone()));
            }
        }
        let mut m = owned("cannot resolve assignment target `");
        m.append(self.nodes[node].name.as_str());
        m.append("`");
        Err(m)
    }
}

} // verus!
