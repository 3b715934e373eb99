//! Declaration initializers: what a net-declaration assignment initializes,
//! and the constants of variable and array initializers.

use vstd::prelude::*;
use vstd::string::StringExecFns;
use crate::codegen::Codegen;
use crate::design::{NodeKind, ExprKind, NetType, SignalInfo, LifetimeQualifier};
use crate::text::owned;
use crate::nets::net_kind_of;

verus! {

/// What the left side of a net-declaration assignment declares.
#[derive(Clone, Copy, Debug, PartialEq, Eq, Structural)]
pub enum NetDeclTarget {
    /// An unpacked array: initialized on the dedicated array path.
    Array,
    /// A variable or `reg`: a declaration initializer.
    Variable,
    /// A true net: a continuous driver.
    TrueNet,
    UnsupportedNet(NetType),
    Unknown,
}

impl Codegen {
    /// The array a reference on an assignment's left side resolves to.
    pub open spec fn ref_array_spec(&self, node: int) -> Option<usize> {
        match self.kind(node) {
            NodeKind::Expr(ExprKind::Ref { target: Some(t) }) => if self.kind(t as int) is Array {
                Some(t)
            } else {
                None
            },
            _ => None,
        }
    }

    pub fn ref_array_target(&self, node: usize) -> (r: Option<usize>)
        requires
            self.wf(),
            node < self.nodes.len(),
        ensures
            r == self.ref_array_spec(node as int),
            r matches Some(t) ==> t < self.nodes.len(),
    {
        proof { self.lemma_node(node as int); }
        match &self.nodes[node].kind {
            NodeKind::Expr(ExprKind::Ref { target: Some(t) }) => match &self.nodes[*t].kind {
                NodeKind::Array { .. } => Some(*t),
                _ => None,
            },
            _ => None,
        }
    }

    /// The array a net-declaration continuous assignment initializes.
    pub open spec fn ca_array_spec(&self, ca: int) -> Option<usize> {
        match self.first_child(ca) {
            Some(lhs) => self.ref_array_spec(lhs as int),
            None => None,
        }
    }

    pub fn cont_assign_array_target(&self, ca: usize) -> (r: Option<usize>)
        requires
            self.wf(),
            ca < self.nodes.len(),
        ensures
            r == self.ca_array_spec(ca as int),
            r matches Some(t) ==> t < self.nodes.len(),
    {
        proof { self.lemma_node(ca as int); }
        if self.nodes[ca].children.len() > 0 {
            self.ref_array_target(self.nodes[ca].children[0])
        } else {
            None
        }
    }

    /// The declaration a net-declaration assignment's left side names.
    pub open spec fn ca_decl_spec(&self, ca: int) -> Option<usize> {
        match self.first_child(ca) {
            Some(lhs) => match self.kind(lhs as int) {
                NodeKind::Expr(ExprKind::Ref { target }) => target,
                NodeKind::Net { .. } | NodeKind::Var { .. } | NodeKind::Array { .. } => Some(lhs),
                _ => None,
            },
            None => None,
        }
    }

    pub fn cont_assign_decl_target(&self, ca: usize) -> (r: Option<usize>)
        requires
            self.wf(),
            ca < self.nodes.len(),
        ensures
            r == self.ca_decl_spec(ca as int),
            r matches Some(t) ==> t < self.nodes.len(),
    {
        proof { self.lemma_node(ca as int); }
        if self.nodes[ca].children.len() == 0 {
            return None;
        }
        let lhs = self.nodes[ca].children[0];
        proof { self.lemma_node(lhs as int); }
        match &self.nodes[lhs].kind {
            NodeKind::Expr(ExprKind::Ref { target }) => *target,
            NodeKind::Net { .. } | NodeKind::Var { .. } | NodeKind::Array { .. } => Some(lhs),
            _ => None,
        }
    }

    /// The classification of a net-declaration assignment's target: nets
    /// with a resolution kind are true continuous drivers; `reg` and variables
    /// keep declaration-initializer behavior; arrays have their own path.
    pub open spec fn net_decl_spec(&self, ca: int) -> NetDeclTarget {
        match self.ca_decl_spec(ca) {
            Some(t) => match self.kind(t as int) {
                NodeKind::Array { .. } => NetDeclTarget::Array,
                NodeKind::Var { .. } => NetDeclTarget::Variable,
                NodeKind::Net { net_type, .. } => if net_kind_of(net_type) is Some {
                    NetDeclTarget::TrueNet
                } else if net_type == NetType::Undeclared || net_type == NetType::Reg {
                    NetDeclTarget::Variable
                } else {
                    NetDeclTarget::UnsupportedNet(net_type)
                },
                _ => NetDeclTarget::Unknown,
            },
            None => NetDeclTarget::Unknown,
        }
    }

    pub fn net_decl_target(&self, ca: usize) -> (r: NetDeclTarget)
        requires
            self.wf(),
            ca < self.nodes.len(),
        ensures
            r == self.net_decl_spec(ca as int),
    {
        match self.cont_assign_decl_target(ca) {
            Some(t) => match &self.nodes[t].kind {
                NodeKind::Array { .. } => NetDeclTarget::Array,
                NodeKind::Var { .. } => NetDeclTarget::Variable,
                NodeKind::Net { net_type, .. } => match *net_type {
                    NetType::Undeclared | NetType::Reg => NetDeclTarget::Variable,
                    NetType::Wire | NetType::Tri | NetType::Uwire | NetType::Logic | NetType::Wand
                    | NetType::TriAnd | NetType::Wor | NetType::TriOr | NetType::Tri0 | NetType::Tri1
                    | NetType::Supply0 | NetType::Supply1 => NetDeclTarget::TrueNet,
                    other => NetDeclTarget::UnsupportedNet(other),
                },
                _ => NetDeclTarget::Unknown,
            },
            None => NetDeclTarget::Unknown,
        }
    }

    /// Whether a continuous assignment drives at run time: every plain
    /// continuous assignment does, a net-declaration assignment only for a
    /// true net.
    pub open spec fn runtime_driver_spec(&self, node: int) -> bool {
        match self.kind(node) {
            NodeKind::ContAssign { net_decl } => !net_decl || self.net_decl_spec(node) == NetDeclTarget::TrueNet,
            _ => false,
        }
    }

    pub fn is_runtime_continuous_driver(&self, node: usize) -> (r: bool)
        requires
            self.wf(),
            node < self.nodes.len(),
        ensures
            r == self.runtime_driver_spec(node as int),
    {
        match &self.nodes[node].kind {
            NodeKind::ContAssign { net_decl: true } => self.net_decl_target(node) == NetDeclTarget::TrueNet,
            NodeKind::ContAssign { .. } => true,
            _ => false,
        }
    }

    /// The constant of a variable declaration initializer; initializers must
    /// be elaboration-time constants.
    pub fn var_decl_init(&self, path: &str, name: &str, init: usize) -> (r: Result<i128, String>)
        requires
            self.wf(),
            init < self.nodes.len(),
        ensures
            r is Ok <==> self.const_value(init as int) is Some,
            r matches Ok(v) ==> self.const_value(init as int) == Some(v),
            r matches Err(e) ==> e@ == "variable initializer is not a constant expression in `"@ + name@
                + "` in `"@ + path@ + "`"@,
    {
        match self.eval_bound_i128(init) {
            Ok(v) => Ok(v),
            Err(_) => {
                let mut m = owned("variable initializer is not a constant expression in `");
                m.append(name);
                m.append("` in `");
                m.append(path);
                m.append("`");
                Err(m)
            },
        }
    }

    /// The constants of an assignment-pattern initializer, in linear-index
    /// order, when every element is constant.
    pub open spec fn array_init_spec(&self, init: int) -> Option<Seq<i128>> {
        match self.kind(init) {
            NodeKind::Expr(ExprKind::AssignmentPattern { operands, .. }) =>
                if forall|k: int| 0 <= k < operands.len() ==> #[trigger] self.const_value(operands@[k] as int) is Some {
                    Some(Seq::new(operands.len() as nat, |k: int| self.const_value(operands@[k] as int)->0))
                } else {
                    None
                },
            _ => None,
        }
    }

    /// Why an array's declaration initializer has no constant elements.
    pub open spec fn array_init_problem(&self, path: Seq<char>, name: Seq<char>, init: int) -> Seq<char> {
        if self.kind(init) is Expr && self.kind(init)->Expr_0 is AssignmentPattern {
            "array `"@ + name + "` in `"@ + path + "`: initializer element is not a supported constant expression"@
        } else {
            "array `"@ + name + "` in `"@ + path + "` has an unsupported declaration initializer"@
        }
    }

    /// The constant elements of an array's assignment-pattern initializer.
    pub fn array_init_consts(&self, path: &str, name: &str, init: usize) -> (r: Result<Vec<i128>, String>)
        requires
            self.wf(),
            init < self.nodes.len(),
        ensures
            r is Ok <==> self.array_init_spec(init as int) is Some,
            r matches Ok(values) ==> self.array_init_spec(init as int) == Some(values@),
            r matches Err(e) ==> e@ == self.array_init_problem(path@, name@, init as int),
    {
        proof { self.lemma_node(init as int); }
        let operands = match &self.nodes[init].kind {
            NodeKind::Expr(ExprKind::AssignmentPattern { operands, .. }) => operands,
            _ => {
                let mut m = owned("array `");
                m.append(name);
                m.append("` in `");
                m.append(path);
                m.append("` has an unsupported declaration initializer");
                return Err(m);
            },
        };
        let mut values: Vec<i128> = Vec::new();
        let mut i: usize = 0;
        while i < operands.len()
            invariant
                self.wf(),
                init < self.nodes.len(),
                self.nodes@[init as int].kind matches NodeKind::Expr(ExprKind::AssignmentPattern { operands: ops, .. })
                    && ops == *operands,
                forall|k: int| 0 <= k < operands.len() ==> #[trigger] operands@[k] < self.nodes.len(),
                i <= operands.len(),
                values.len() == i,
                forall|k: int| 0 <= k < i ==> #[trigger] self.const_value(operands@[k] as int) == Some(values@[k]),
            decreases operands.len() - i,
        {
            match self.eval_bound_i128(operands[i]) {
                Ok(v) => values.push(v),
                Err(_) => {
                    assert(!(self.const_value(operands@[i as int] as int) is Some));
                    let mut m = owned("array `");
                    m.append(name);
                    m.append("` in `");
                    m.append(path);
                    m.append("`: initializer element is not a supported constant expression");
                    return Err(m);
                },
            }
            i = i + 1;
        }
        assert(values@ =~= Seq::new(operands.len() as nat, |k: int| self.const_value(operands@[k] as int)->0));
        Ok(values)
    }

    /// The second child of a node: the right side of an assignment.
    pub open spec fn second_child(&self, id: int) -> Option<usize> {
        if self.nodes@[id].children.len() > 1 {
            Some(self.nodes@[id].children@[1])
        } else {
            None
        }
    }

    /// `(array, constants)` of a net-declaration assignment that initializes
    /// an unpacked array from constant elements.
    pub fn cont_assign_array_init(&self, path: &str, ca: usize) -> (r: Result<Option<(usize, Vec<i128>)>, String>)
        requires
            self.wf(),
            ca < self.nodes.len(),
        ensures
            r is Err <==> self.ca_array_spec(ca as int) is Some && self.second_child(ca as int) is None,
            r matches Ok(None) ==> self.ca_array_spec(ca as int) is None
                || (self.second_child(ca as int) matches Some(rhs) && self.array_init_spec(rhs as int) is None),
            r matches Ok(Some((t, values))) ==> self.ca_array_spec(ca as int) == Some(t)
                && (self.second_child(ca as int) matches Some(rhs) && self.array_init_spec(rhs as int) == Some(values@)),
            r matches Err(e) ==> e@ == "array initializer for `"@
                + self.nodes@[self.ca_array_spec(ca as int)->Some_0 as int].name@ + "` in `"@ + path@ + "` without RHS"@,
    {
        proof { self.lemma_node(ca as int); }
        let target = match self.cont_assign_array_target(ca) {
            Some(t) => t,
            None => return Ok(None),
        };
        if self.nodes[ca].children.len() < 2 {
            let mut m = owned("array initializer for `");
            m.append(self.nodes[target].name.as_str());
            m.append("` in `");
            m.append(path);
            m.append("` without RHS");
            return Err(m);
        }
        let rhs = self.nodes[ca].children[1];
        let name = self.nodes[target].name.as_str();
        match self.array_init_consts(path, name, rhs) {
            Ok(values) => Ok(Some((target, values))),
            Err(_) => Ok(None),
        }
    }

    /// `(signal, constant)` of a net-declaration assignment whose left side
    /// is a whole variable-like signal and whose right side is constant.
    pub open spec fn scalar_init_spec(&self, ca: int) -> Option<(SignalInfo, i128)> {
        match (self.first_child(ca), self.second_child(ca)) {
            (Some(lhs), Some(rhs)) => match (self.signal_ref_spec(lhs as int), self.const_value(rhs as int)) {
                (Some(info), Some(v)) => Some((info, v)),
                _ => None,
            },
            _ => None,
        }
    }

    pub fn scalar_decl_init(&self, path: &str, ca: usize) -> (r: Result<Option<(SignalInfo, i128)>, String>)
        requires
            self.wf(),
            ca < self.nodes.len(),
        ensures
            r matches Ok(v) && v == self.scalar_init_spec(ca as int),
    {
        proof { self.lemma_node(ca as int); }
        if self.nodes[ca].children.len() < 2 {
            return Ok(None);
        }
        let lhs = self.nodes[ca].children[0];
        let rhs = self.nodes[ca].children[1];
        let info = match self.resolve_signal_id(path, lhs) {
            Ok((_, info)) => info,
            Err(_) => return Ok(None),
        };
        match self.eval_bound_i128(rhs) {
            Ok(v) => Ok(Some((info, v))),
            Err(_) => Ok(None),
        }
    }

    /// Why a net-declaration assignment's initializer cannot be queued: no
    /// scalar target, a target without storage, or no right side.
    pub open spec fn scalar_init_problem(&self, path: Seq<char>, ca: int) -> Seq<char> {
        match self.ca_decl_spec(ca) {
            None => "variable declaration initializer in `"@ + path + "` has no scalar target"@,
            Some(t) => if self.signals@[t as int] is None {
                "variable declaration initializer for `"@ + self.nodes@[t as int].name@ + "` in `"@ + path
                    + "` has no storage"@
            } else {
                "variable declaration initializer for `"@ + self.nodes@[t as int].name@ + "` in `"@ + path
                    + "` has no RHS"@
            },
        }
    }

    /// Queue the declaration initializer of a net-declaration assignment to a
    /// scalar variable for time zero, and mark the assignment collected.
    pub fn collect_scalar_decl_init(&mut self, path: &str, ca: usize) -> (r: Result<(), String>)
        requires
            old(self).wf(),
            ca < old(self).nodes.len(),
        ensures
            final(self).wf(),
            r is Ok <==> (old(self).ca_decl_spec(ca as int) matches Some(t) && old(self).signals@[t as int] is Some
                && old(self).second_child(ca as int) is Some),
            r is Err ==> *final(self) == *old(self),
            r matches Err(e) ==> e@ == old(self).scalar_init_problem(path@, ca as int),
            r is Ok ==> (old(self).ca_decl_spec(ca as int) matches Some(t) && old(self).signals@[t as int] matches Some(info)
                && old(self).second_child(ca as int) matches Some(init)
                && final(self).declaration_inits@ == old(self).declaration_inits@.push((info.ir, init))
                && final(self).scalar_init_cas@ == old(self).scalar_init_cas@.push(ca)
                && *final(self) == (Codegen {
                    declaration_inits: final(self).declaration_inits,
                    scalar_init_cas: final(self).scalar_init_cas,
                    ..*old(self)
                })),
    {
        proof { self.lemma_node(ca as int); }
        let target = match self.cont_assign_decl_target(ca) {
            Some(t) => t,
            None => {
                let mut m = owned("variable declaration initializer in `");
                m.append(path);
                m.append("` has no scalar target");
                return Err(m);
            },
        };
        let ir = match self.signal_of(target) {
            Some(info) => info.ir,
            None => {
                let mut m = owned("variable declaration initializer for `");
                m.append(self.nodes[target].name.as_str());
                m.append("` in `");
                m.append(path);
                m.append("` has no storage");
                return Err(m);
            },
        };
        if self.nodes[ca].children.len() < 2 {
            let mut m = owned("variable declaration initializer for `");
            m.append(self.nodes[target].name.as_str());
            m.append("` in `");
            m.append(path);
            m.append("` has no RHS");
            return Err(m);
        }
        let initializer = self.nodes[ca].children[1];
        self.declaration_inits.push((ir, initializer));
        self.scalar_init_cas.push(ca);
        Ok(())
    }

    /// The explicit lifetime keyword of a subprogram local, if it has one;
    /// fails when the source provenance is ambiguous or unavailable.
    pub fn explicit_local_lifetime(&self, node: usize) -> (r: Result<Option<&'static str>, String>)
        requires
            node < self.nodes.len(),
        ensures
            ({
                let q = self.nodes@[node as int].lifetime_qualifier;
                &&& r is Ok <==> (q == LifetimeQualifier::Unqualified || q == LifetimeQualifier::Static
                    || q == LifetimeQualifier::Automatic)
                &&& q == LifetimeQualifier::Unqualified ==> (r matches Ok(None))
                &&& q == LifetimeQualifier::Static ==> (r matches Ok(Some(s)) && s@ == seq!['s', 't', 'a', 't', 'i', 'c'])
                &&& q == LifetimeQualifier::Automatic ==> (r matches Ok(Some(s))
                    && s@ == seq!['a', 'u', 't', 'o', 'm', 'a', 't', 'i', 'c'])
                &&& q == LifetimeQualifier::Ambiguous ==> (r matches Err(e) && e@ == "subprogram local `"@
                    + self.nodes@[node as int].name@ + "` has ambiguous explicit lifetime provenance"@)
                &&& q == LifetimeQualifier::Unavailable ==> (r matches Err(e) && e@
                    == "cannot determine whether subprogram local `"@ + self.nodes@[node as int].name@
                    + "` has an explicit lifetime qualifier because admitted source provenance is unavailable"@)
            }),
    {
        proof {
            reveal_strlit("static");
            reveal_strlit("automatic");
        }
        match self.nodes[node].lifetime_qualifier {
            LifetimeQualifier::Unqualified => Ok(None),
            LifetimeQualifier::Static => {
                let s = "static";
                assert(s@ =~= seq!['s', 't', 'a', 't', 'i', 'c']);
                Ok(Some(s))
            },
            LifetimeQualifier::Automatic => {
                let s = "automatic";
                assert(s@ =~= seq!['a', 'u', 't', 'o', 'm', 'a', 't', 'i', 'c']);
                Ok(Some(s))
            },
            LifetimeQualifier::Ambiguous => Err(self.named_message("subprogram local `", node,
                "` has ambiguous explicit lifetime provenance")),
            LifetimeQualifier::Unavailable => Err(self.named_message(
                "cannot determine whether subprogram local `", node,
                "` has an explicit lifetime qualifier because admitted source provenance is unavailable")),
        }
    }
}

} // verus!
