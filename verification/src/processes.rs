//! Process bookkeeping: fresh names and frames, process-family contracts and
//! the diagnostics that locate a node.

use vstd::prelude::*;
use vstd::string::StringExecFns;
use crate::codegen::{Codegen, CaptureBinding, node_ok};
use crate::design::{NodeKind, ExprKind, ProcessKind, AlwaysKind, IrSignal, IrModel};
use crate::text::{ident, ident_spec, ident_char, decimal, decimal_string, push_char};

verus! {

/// What a process reads or writes, as the optimizer accounts for it.
pub enum IrDependency {
    Scalar(String),
    Real(String),
    PackedRange { storage: Box<IrDependency>, lsb: u32, width: u32 },
    ArrayElement { array: usize, index: usize },
    ArrayContents(usize),
    ContainerContents(usize),
    ContainerShape(usize),
    Object(usize),
}

/// The diagnostic spelling of a dependency.
pub open spec fn dependency_text(d: IrDependency) -> Seq<char>
    decreases d,
{
    match d {
        IrDependency::Scalar(name) => name@,
        IrDependency::Real(name) => name@,
        IrDependency::PackedRange { storage, lsb, width } => dependency_text(*storage) + seq!['['] + decimal(lsb as nat)
            + seq![' ', '+', ':', ' '] + decimal(width as nat) + seq![']'],
        IrDependency::ArrayElement { array, index } => seq!['a', 'r', 'r', 'a', 'y', '['] + decimal(array as nat)
            + seq![']', ' ', 'e', 'l', 'e', 'm', 'e', 'n', 't', ' '] + decimal(index as nat),
        IrDependency::ArrayContents(array) => seq!['a', 'r', 'r', 'a', 'y', '['] + decimal(array as nat)
            + seq![']', ' ', 'c', 'o', 'n', 't', 'e', 'n', 't', 's'],
        IrDependency::ContainerContents(c) => seq!['c', 'o', 'n', 't', 'a', 'i', 'n', 'e', 'r', '['] + decimal(c as nat)
            + seq![']', ' ', 'c', 'o', 'n', 't', 'e', 'n', 't', 's'],
        IrDependency::ContainerShape(c) => seq!['c', 'o', 'n', 't', 'a', 'i', 'n', 'e', 'r', '['] + decimal(c as nat)
            + seq![']', ' ', 's', 'h', 'a', 'p', 'e'],
        IrDependency::Object(o) => seq!['o', 'b', 'j', 'e', 'c', 't', '['] + decimal(o as nat)
            + seq![']', ' ', 'c', 'o', 'n', 't', 'e', 'n', 't', 's'],
    }
}

/// The label of a process family in diagnostics.
pub open spec fn process_kind_text(k: Option<AlwaysKind>) -> Seq<char> {
    match k {
        Some(AlwaysKind::Comb) => seq!['a', 'l', 'w', 'a', 'y', 's', '_', 'c', 'o', 'm', 'b'],
        Some(AlwaysKind::Latch) => seq!['a', 'l', 'w', 'a', 'y', 's', '_', 'l', 'a', 't', 'c', 'h'],
        Some(AlwaysKind::FlipFlop) => seq!['a', 'l', 'w', 'a', 'y', 's', '_', 'f', 'f'],
        Some(_) => seq!['a', 'l', 'w', 'a', 'y', 's'],
        None => seq!['p', 'r', 'o', 'c', 'e', 's', 's'],
    }
}

/// Name of the enable of a procedural continuous assignment site:
/// `G_<ident(path)>_pca$<n>_en`. `$` never survives `ident`, so the name
/// cannot collide with a user variable's global.
pub open spec fn pca_enable_name(path: Seq<char>, n: u64) -> Seq<char> {
    seq!['G', '_'] + ident_spec(path) + seq!['_', 'p', 'c', 'a', '$'] + decimal(n as nat) + seq!['_', 'e', 'n']
}

/// An enable's name is never the global of a user variable: a user global
/// is `G_` followed by an `ident`-sanitized name, which holds no `$`, while
/// every enable name holds one.
pub proof fn law_pca_enable_never_collides(path: Seq<char>, n: u64, user: Seq<char>)
    ensures
        pca_enable_name(path, n) != seq!['G', '_'] + ident_spec(user),
{
    let e = pca_enable_name(path, n);
    let g = seq!['G', '_'] + ident_spec(user);
    let k: int = ident_spec(path).len() as int + 6;
    assert(e[k] == '$');
    assert(k < e.len());
    if e == g {
        assert(k - 2 < ident_spec(user).len());
        assert(g[k] == ident_spec(user)[k - 2]);
        assert(g[k] == ident_char(user[k - 2]));
        assert(ident_char(user[k - 2]) != '$');
        assert(false);
    }
}

/// Name of a generated process function: `p_<ident(path)>_<kind>_<n>`.
pub open spec fn fn_name(path: Seq<char>, kind: Seq<char>, n: u64) -> Seq<char> {
    seq!['p', '_'] + ident_spec(path) + seq!['_'] + kind + seq!['_'] + decimal(n as nat)
}

/// A program member that programs may not contain.
pub open spec fn program_forbidden(k: NodeKind) -> bool {
    match k {
        NodeKind::Process { kind: ProcessKind::Always { .. } } => true,
        NodeKind::ContAssign { .. } | NodeKind::Gate { .. } | NodeKind::ModuleInst { .. } | NodeKind::InstanceArray
        | NodeKind::GenScope | NodeKind::GenScopeArray => true,
        _ => false,
    }
}

/// How a diagnostic names a member a program may not contain.
pub open spec fn program_member_text(k: NodeKind) -> Seq<char> {
    match k {
        NodeKind::Process { .. } => "an always process"@,
        NodeKind::ContAssign { .. } => "a continuous assignment"@,
        NodeKind::Gate { .. } => "a primitive or gate instance"@,
        NodeKind::ModuleInst { .. } | NodeKind::InstanceArray => "a nested module/interface/program instance"@,
        _ => "a generate scope"@,
    }
}

impl Codegen {
    /// The diagnostic spelling of a dependency.
    pub fn dependency_label(&self, dependency: &IrDependency) -> (r: String)
        ensures
            r@ == dependency_text(*dependency),
        decreases dependency,
    {
        let mut s = match dependency {
            IrDependency::Scalar(name) => name.clone(),
            IrDependency::Real(name) => name.clone(),
            IrDependency::PackedRange { storage, lsb, width } => {
                let mut s = self.dependency_label(storage);
                push_char(&mut s, '[');
                s.append(decimal_string(*lsb as u128).as_str());
                s.append(" +: ");
                s.append(decimal_string(*width as u128).as_str());
                push_char(&mut s, ']');
                proof { reveal_strlit(" +: "); }
                s
            },
            IrDependency::ArrayElement { array, index } => {
                let mut s = String::from_str("array[");
                s.append(decimal_string(*array as u128).as_str());
                s.append("] element ");
                s.append(decimal_string(*index as u128).as_str());
                proof { reveal_strlit("array["); reveal_strlit("] element "); }
                s
            },
            IrDependency::ArrayContents(array) => {
                let mut s = String::from_str("array[");
                s.append(decimal_string(*array as u128).as_str());
                s.append("] contents");
                proof { reveal_strlit("array["); reveal_strlit("] contents"); }
                s
            },
            IrDependency::ContainerContents(c) => {
                let mut s = String::from_str("container[");
                s.append(decimal_string(*c as u128).as_str());
                s.append("] contents");
                proof { reveal_strlit("container["); reveal_strlit("] contents"); }
                s
            },
            IrDependency::ContainerShape(c) => {
                let mut s = String::from_str("container[");
                s.append(decimal_string(*c as u128).as_str());
                s.append("] shape");
                proof { reveal_strlit("container["); reveal_strlit("] shape"); }
                s
            },
            IrDependency::Object(o) => {
                let mut s = String::from_str("object[");
                s.append(decimal_string(*o as u128).as_str());
                s.append("] contents");
                proof { reveal_strlit("object["); reveal_strlit("] contents"); }
                s
            },
        };
        assert(s@ =~= dependency_text(*dependency));
        s
    }

    /// The label of a process family in diagnostics.
    pub fn process_kind_label(&self, process_kind: Option<AlwaysKind>) -> (r: &'static str)
        ensures
            r@ == process_kind_text(process_kind),
    {
        proof {
            reveal_strlit("always_comb");
            reveal_strlit("always_latch");
            reveal_strlit("always_ff");
            reveal_strlit("always");
            reveal_strlit("process");
        }
        let r = match process_kind {
            Some(AlwaysKind::Comb) => "always_comb",
            Some(AlwaysKind::Latch) => "always_latch",
            Some(AlwaysKind::FlipFlop) => "always_ff",
            Some(AlwaysKind::Always) | Some(AlwaysKind::Unsupported) => "always",
            None => "process",
        };
        assert(r@ =~= process_kind_text(process_kind));
        r
    }

    /// `file:line:col` of a node, with `<unknown>` for a node without a file.
    pub open spec fn location_text(&self, node: int) -> Seq<char> {
        let n = self.nodes@[node];
        let file = match n.file {
            Some(f) => f@,
            None => seq!['<', 'u', 'n', 'k', 'n', 'o', 'w', 'n', '>'],
        };
        file + seq![':'] + decimal(n.line as nat) + seq![':'] + decimal(n.col as nat)
    }

    pub fn source_location(&self, node: usize) -> (r: String)
        requires
            node < self.nodes.len(),
        ensures
            r@ == self.location_text(node as int),
    {
        let n = &self.nodes[node];
        let mut s = match &n.file {
            Some(f) => f.clone(),
            None => {
                proof { reveal_strlit("<unknown>"); }
                String::from_str("<unknown>")
            },
        };
        push_char(&mut s, ':');
        s.append(decimal_string(n.line as u128).as_str());
        push_char(&mut s, ':');
        s.append(decimal_string(n.col as u128).as_str());
        assert(s@ =~= self.location_text(node as int));
        s
    }

    /// Allocate the one-bit enable signal of one procedural continuous
    /// assignment site. Enables are ordinary model signals, so the optimizer
    /// accounts for them like user storage.
    pub fn new_pca_enable(&mut self, path: &str) -> (ir: usize)
        requires
            old(self).pca_seq < u64::MAX,
            old(self).model.signals.len() < usize::MAX,
        ensures
            ir == old(self).model.signals.len(),
            final(self).pca_seq == old(self).pca_seq + 1,
            final(self).model.signals@.drop_last() == old(self).model.signals@,
            final(self).model.signals@.len() == ir + 1,
            final(self).model.signals@.last().c_name@ == pca_enable_name(path@, old(self).pca_seq),
            final(self).model.signals@.last().width == 1,
            !final(self).model.signals@.last().signed,
            !final(self).model.signals@.last().two_state,
            !final(self).model.signals@.last().real,
            final(self).model.signals@.last().net_driver is None,
            !final(self).model.signals@.last().aliased,
            final(self).model.signals@.last().hdl_name is None,
            !final(self).model.signals@.last().omit,
            final(self).model == (IrModel { signals: final(self).model.signals, ..old(self).model }),
            *final(self) == (Codegen { model: final(self).model, pca_seq: final(self).pca_seq, ..*old(self) }),
    {
        let n = self.pca_seq;
        self.pca_seq = self.pca_seq + 1;
        let mut c_name = String::from_str("G_");
        c_name.append(ident(path).as_str());
        c_name.append("_pca$");
        c_name.append(decimal_string(n as u128).as_str());
        c_name.append("_en");
        proof {
            reveal_strlit("G_");
            reveal_strlit("_pca$");
            reveal_strlit("_en");
            assert(c_name@ =~= pca_enable_name(path@, n));
        }
        let ir = self.model.signals.len();
        self.model.signals.push(IrSignal {
            c_name,
            width: 1,
            signed: false,
            two_state: false,
            real: false,
            net_driver: None,
            aliased: false,
            hdl_name: None,
            omit: false,
        });
        assert(self.model.signals@.drop_last() =~= old(self).model.signals@);
        ir
    }

    /// A fresh name for a generated process function.
    pub fn new_fn_name(&mut self, path: &str, kind: &str) -> (r: String)
        requires
            old(self).proc_seq < u64::MAX,
        ensures
            r@ == fn_name(path@, kind@, old(self).proc_seq),
            final(self).proc_seq == old(self).proc_seq + 1,
            *final(self) == (Codegen { proc_seq: final(self).proc_seq, ..*old(self) }),
    {
        let n = self.proc_seq;
        self.proc_seq = self.proc_seq + 1;
        let mut s = String::from_str("p_");
        s.append(ident(path).as_str());
        push_char(&mut s, '_');
        s.append(kind);
        push_char(&mut s, '_');
        s.append(decimal_string(n as u128).as_str());
        proof {
            reveal_strlit("p_");
            assert(s@ =~= fn_name(path@, kind@, n));
        }
        s
    }

    /// A fresh activation frame id; fails once the id space is exhausted.
    pub fn new_frame_id(&mut self) -> (r: Result<u32, String>)
        ensures
            old(self).frame_seq < u32::MAX ==> r == Ok::<u32, String>(old(self).frame_seq)
                && final(self).frame_seq == old(self).frame_seq + 1
                && *final(self) == (Codegen { frame_seq: final(self).frame_seq, ..*old(self) }),
            old(self).frame_seq == u32::MAX ==> r is Err && *final(self) == *old(self),
            r matches Err(e) ==> e@ == "activation frame id space exhausted"@,
    {
        let id = self.frame_seq;
        match self.frame_seq.checked_add(1) {
            Some(next) => {
                self.frame_seq = next;
                Ok(id)
            },
            None => Err(String::from_str("activation frame id space exhausted")),
        }
    }

    /// The copied activation slot of a captured declaration.
    pub fn capture_binding(&self, node: usize) -> (r: Option<&CaptureBinding>)
        requires
            self.wf(),
            node < self.nodes.len(),
        ensures
            r matches Some(b) ==> self.capture_locals@[node as int] == Some(*b),
            r is None ==> self.capture_locals@[node as int] is None,
    {
        match &self.capture_locals[node] {
            Some(b) => Some(b),
            None => None,
        }
    }

    /// Whether every select of a net lvalue is an elaboration-time constant.
    pub open spec fn selects_constant(&self, lhs: int) -> bool
        decreases self.measure(lhs),
    {
        if !(0 <= lhs < self.len()) || !node_ok(self.nodes@, lhs) {
            true
        } else {
            match self.kind(lhs) {
                NodeKind::Expr(ExprKind::BitSelect { base, index }) =>
                    self.selects_constant(base as int) && self.const_value(index as int) is Some,
                NodeKind::Expr(ExprKind::PartSelect { base, left, right }) =>
                    self.selects_constant(base as int) && self.const_value(left as int) is Some
                        && self.const_value(right as int) is Some,
                NodeKind::Expr(ExprKind::IndexedPartSelect { base, base_expr, width_expr, .. }) =>
                    self.selects_constant(base as int) && self.const_value(base_expr as int) is Some
                        && self.const_value(width_expr as int) is Some,
                NodeKind::Expr(ExprKind::ArraySelect { base, indices }) =>
                    self.selects_constant(base as int)
                        && forall|k: int| 0 <= k < indices.len() ==> #[trigger] self.const_value(indices@[k] as int) is Some,
                _ => true,
            }
        }
    }

    /// Net lvalues admit only constant selects: elaborated parameters and
    /// genvars are accepted, runtime selectors are not.
    pub fn net_lvalue_selects_are_constant(&self, lhs: usize) -> (r: bool)
        requires
            self.wf(),
            lhs < self.nodes.len(),
        ensures
            r == self.selects_constant(lhs as int),
        decreases self.measure(lhs as int),
    {
        proof { self.lemma_node(lhs as int); }
        match &self.nodes[lhs].kind {
            NodeKind::Expr(ExprKind::BitSelect { base, index }) =>
                self.net_lvalue_selects_are_constant(*base) && self.eval_bound_i128(*index).is_ok(),
            NodeKind::Expr(ExprKind::PartSelect { base, left, right }) =>
                self.net_lvalue_selects_are_constant(*base) && self.eval_bound_i128(*left).is_ok()
                    && self.eval_bound_i128(*right).is_ok(),
            NodeKind::Expr(ExprKind::IndexedPartSelect { base, base_expr, width_expr, .. }) =>
                self.net_lvalue_selects_are_constant(*base) && self.eval_bound_i128(*base_expr).is_ok()
                    && self.eval_bound_i128(*width_expr).is_ok(),
            NodeKind::Expr(ExprKind::ArraySelect { base, indices }) => {
                if !self.net_lvalue_selects_are_constant(*base) {
                    return false;
                }
                let mut i: usize = 0;
                while i < indices.len()
                    invariant
                        self.wf(),
                        i <= indices.len(),
                        lhs < self.nodes.len(),
                        node_ok(self.nodes@, lhs as int),
                        self.nodes@[lhs as int].kind == NodeKind::Expr(ExprKind::ArraySelect { base: *base, indices: *indices }),
                        self.selects_constant(*base as int),
                        forall|k: int| 0 <= k < indices.len() ==> #[trigger] indices@[k] < self.nodes.len(),
                        forall|k: int| 0 <= k < i ==> #[trigger] self.const_value(indices@[k] as int) is Some,
                    decreases indices.len() - i,
                {
                    if self.eval_bound_i128(indices[i]).is_err() {
                        assert(!(self.const_value(indices@[i as int] as int) is Some));
                        return false;
                    }
                    i = i + 1;
                }
                true
            },
            _ => true,
        }
    }

    /// The first member of `node` that a program may not contain.
    pub open spec fn first_forbidden(&self, children: Seq<usize>) -> Option<usize>
        decreases children.len(),
    {
        if children.len() == 0 {
            None
        } else if children[0] < self.nodes.len() && program_forbidden(self.kind(children[0] as int)) {
            Some(children[0])
        } else {
            self.first_forbidden(children.drop_first())
        }
    }

    /// Whether some program instance holds a member programs may not contain.
    pub open spec fn program_violation(&self) -> bool {
        exists|i: int| 0 <= i < self.len() && #[trigger] self.nodes@[i].program
            && self.kind(i) is ModuleInst && self.first_forbidden(self.nodes@[i].children@) is Some
    }

    /// Whether program instance `i` holds a member programs may not contain.
    pub open spec fn program_violation_at(&self, i: int) -> bool {
        self.nodes@[i].program && self.kind(i) is ModuleInst && self.first_forbidden(self.nodes@[i].children@) is Some
    }

    /// The diagnostic of program instance `i` and its first forbidden member.
    pub open spec fn program_message(&self, i: int) -> Seq<char> {
        let c = self.first_forbidden(self.nodes@[i].children@)->Some_0 as int;
        "program `"@ + self.nodes@[i].instance_path@ + "` cannot contain "@ + program_member_text(self.kind(c))
            + " at "@ + self.location_text(c)
    }

    /// Enforce the structural restrictions of program blocks before any
    /// member is lowered: no always process, continuous assignment, gate,
    /// nested instance or generate scope. The first program instance (in
    /// node order) that breaks them is named with its first such member.
    pub fn validate_program_constructs(&self) -> (r: Result<(), String>)
        requires
            self.wf(),
        ensures
            r is Ok <==> !self.program_violation(),
            r matches Err(e) ==> exists|i: int| 0 <= i < self.len() && #[trigger] self.program_violation_at(i)
                && (forall|j: int| 0 <= j < i ==> !self.program_violation_at(j))
                && e@ == self.program_message(i),
    {
        let mut i: usize = 0;
        while i < self.nodes.len()
            invariant
                self.wf(),
                i <= self.nodes.len(),
                forall|j: int| 0 <= j < i ==> !(#[trigger] self.nodes@[j].program && self.kind(j) is ModuleInst
                    && self.first_forbidden(self.nodes@[j].children@) is Some),
            decreases self.nodes.len() - i,
        {
            proof { self.lemma_node(i as int); }
            let is_program = self.nodes[i].program && match &self.nodes[i].kind {
                NodeKind::ModuleInst { .. } => true,
                _ => false,
            };
            if is_program {
                let children = &self.nodes[i].children;
                let mut k: usize = 0;
                assert(children@.skip(0) =~= children@);
                while k < children.len()
                    invariant
                        self.wf(),
                        i < self.nodes.len(),
                        children@ == self.nodes@[i as int].children@,
                        node_ok(self.nodes@, i as int),
                        self.nodes@[i as int].program,
                        self.kind(i as int) is ModuleInst,
                        k <= children.len(),
                        forall|j: int| 0 <= j < i ==> !(#[trigger] self.nodes@[j].program && self.kind(j) is ModuleInst
                            && self.first_forbidden(self.nodes@[j].children@) is Some),
                        self.first_forbidden(children@) == self.first_forbidden(children@.skip(k as int)),
                    decreases children.len() - k,
                {
                    assert(children@.skip(k as int).drop_first() =~= children@.skip(k + 1));
                    assert(children@.skip(k as int)[0] == children@[k as int]);
                    let c = children[k];
                    let member: Option<&str> = match &self.nodes[c].kind {
                        NodeKind::Process { kind: ProcessKind::Always { .. } } => Some("an always process"),
                        NodeKind::ContAssign { .. } => Some("a continuous assignment"),
                        NodeKind::Gate { .. } => Some("a primitive or gate instance"),
                        NodeKind::ModuleInst { .. } | NodeKind::InstanceArray => Some("a nested module/interface/program instance"),
                        NodeKind::GenScope | NodeKind::GenScopeArray => Some("a generate scope"),
                        _ => None,
                    };
                    if let Some(member) = member {
                        assert(self.first_forbidden(children@) == Some(c));
                        assert(member@ == program_member_text(self.kind(c as int)));
                        assert(self.program_violation_at(i as int));
                        assert forall|j: int| 0 <= j < i implies !self.program_violation_at(j) by {
                            assert(!(self.nodes@[j].program && self.kind(j) is ModuleInst
                                && self.first_forbidden(self.nodes@[j].children@) is Some));
                        }
                        assert(self.nodes@[i as int].program && self.kind(i as int) is ModuleInst
                            && self.first_forbidden(self.nodes@[i as int].children@) is Some);
                        let mut m = String::from_str("program `");
                        m.append(self.nodes[i].instance_path.as_str());
                        m.append("` cannot contain ");
                        m.append(member);
                        m.append(" at ");
                        m.append(self.source_location(c).as_str());
                        return Err(m);
                    }
                    k = k + 1;
                }
            }
            i = i + 1;
        }
        Ok(())
    }
}

} // verus!
