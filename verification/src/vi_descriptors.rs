//! Virtual-interface descriptors: for every virtual-interface type the
//! design spells, its members, methods, modport views and the environment of
//! each concrete interface instance a handle can bind.

use vstd::prelude::*;
use vstd::string::StringExecFns;
use crate::codegen::{Codegen, node_ok};
use crate::design::{NodeKind, StmtKind, SignalInfo, TypeInfo, Direction, IrModel,
    IrVirtualInterface, IrVirtualInterfaceMember, IrVirtualInterfaceMethod, IrVirtualInterfaceInstance, is_real_kind, is_two_state_kind, real_kind, two_state_kind};
use crate::virtual_interfaces::{strip_white, vi_identity};
use crate::text::{strip_lib_spec, ident_spec};
use crate::ir::LLG_MAX_WIDTH;
use crate::text::{owned, push_char, str_is, strip_lib, ident};
use vstd::string::StrSliceExecFns;

verus! {

/// What a virtual-interface descriptor reads of a member's storage.
#[derive(Clone, Copy, Debug, PartialEq, Eq, Structural)]
pub struct MemberMeta {
    pub width: u32,
    pub signed: bool,
    pub two_state: bool,
    pub real: bool,
    /// The model storage of a concrete member; the declaration of a
    /// template member.
    pub ir: usize,
}

pub open spec fn member_meta(s: SignalInfo) -> MemberMeta {
    MemberMeta { width: s.width, signed: s.signed, two_state: s.two_state, real: s.real, ir: s.ir }
}

/// The metadata of a member declared with type `ty` at node `id` of an
/// interface definition, which has no storage of its own.
pub open spec fn template_meta(id: usize, ty: TypeInfo) -> MemberMeta {
    MemberMeta {
        width: match ty.width { Some(w) => w, None => 0 },
        signed: ty.signed,
        two_state: is_two_state_kind(ty.kind),
        real: is_real_kind(ty.kind),
        ir: id,
    }
}

pub open spec fn named<X>(v: Seq<(String, X)>) -> Seq<(Seq<char>, X)> {
    v.map_values(|e: (String, X)| (e.0@, e.1))
}

proof fn lemma_named_push<X>(v: Seq<(String, X)>, e: (String, X))
    ensures
        named(v.push(e)) == named(v).push((e.0@, e.1)),
{
    assert(named(v.push(e)) =~= named(v).push((e.0@, e.1)));
}

impl Codegen {
    /// The sampled members of clocking block `block` among `vars`: each
    /// named `<block>.<variable>`.
    pub open spec fn sample_entries(&self, block: int, vars: Seq<usize>) -> Seq<(Seq<char>, MemberMeta)>
        decreases vars.len(),
    {
        if vars.len() == 0 {
            seq![]
        } else {
            let v = vars.last() as int;
            self.sample_entries(block, vars.drop_last()) + match self.clocking_samples@[v] {
                Some(s) => seq![(self.nodes@[block].name@ + seq!['.'] + self.nodes@[v].name@, member_meta(s))],
                None => seq![],
            }
        }
    }

    /// The members child `c` of a concrete interface instance contributes:
    /// a lowered variable or net that is no clocking variable, or the
    /// sampled variables of a clocking block.
    pub open spec fn concrete_child_members(&self, c: int) -> Seq<(Seq<char>, MemberMeta)> {
        match self.kind(c) {
            NodeKind::Var { .. } | NodeKind::Net { .. } =>
                if !self.nodes@[c].clocking_var && self.signals@[c] is Some {
                    seq![(self.nodes@[c].name@, member_meta(self.signals@[c]->Some_0))]
                } else {
                    seq![]
                },
            NodeKind::Stmt(StmtKind::Begin) => if self.nodes@[c].clocking_block {
                self.sample_entries(c, self.nodes@[c].children@)
            } else {
                seq![]
            },
            _ => seq![],
        }
    }

    pub open spec fn concrete_members_of(&self, cs: Seq<usize>) -> Seq<(Seq<char>, MemberMeta)>
        decreases cs.len(),
    {
        if cs.len() == 0 {
            seq![]
        } else {
            self.concrete_members_of(cs.drop_last()) + self.concrete_child_members(cs.last() as int)
        }
    }

    /// The method child `c` of a concrete interface instance contributes: a
    /// subroutine with a body and a model function.
    pub open spec fn concrete_child_methods(&self, c: int) -> Seq<(Seq<char>, usize)> {
        match self.kind(c) {
            NodeKind::FuncTask { .. } => if self.nodes@[c].body is Some && self.func_irs@[c] is Some {
                seq![(self.nodes@[c].name@, self.func_irs@[c]->Some_0)]
            } else {
                seq![]
            },
            _ => seq![],
        }
    }

    pub open spec fn concrete_methods_of(&self, cs: Seq<usize>) -> Seq<(Seq<char>, usize)>
        decreases cs.len(),
    {
        if cs.len() == 0 {
            seq![]
        } else {
            self.concrete_methods_of(cs.drop_last()) + self.concrete_child_methods(cs.last() as int)
        }
    }

    /// The typed members of clocking block `block` among `vars`, each named
    /// `<block>.<variable>`.
    pub open spec fn template_sample_entries(&self, block: int, vars: Seq<usize>) -> Seq<(Seq<char>, MemberMeta)>
        decreases vars.len(),
    {
        if vars.len() == 0 {
            seq![]
        } else {
            let v = vars.last() as int;
            self.template_sample_entries(block, vars.drop_last()) + match self.kind(v) {
                NodeKind::Var { ty } | NodeKind::Net { ty, .. } =>
                    seq![(self.nodes@[block].name@ + seq!['.'] + self.nodes@[v].name@, template_meta(v as usize, ty))],
                _ => seq![],
            }
        }
    }

    /// The members child `c` of an interface definition declares.
    pub open spec fn template_child_members(&self, c: int) -> Seq<(Seq<char>, MemberMeta)> {
        match self.kind(c) {
            NodeKind::Var { ty } | NodeKind::Net { ty, .. } => if !self.nodes@[c].clocking_var {
                seq![(self.nodes@[c].name@, template_meta(c as usize, ty))]
            } else {
                seq![]
            },
            NodeKind::Stmt(StmtKind::Begin) => if self.nodes@[c].clocking_block {
                self.template_sample_entries(c, self.nodes@[c].children@)
            } else {
                seq![]
            },
            _ => seq![],
        }
    }

    pub open spec fn template_members_of(&self, cs: Seq<usize>) -> Seq<(Seq<char>, MemberMeta)>
        decreases cs.len(),
    {
        if cs.len() == 0 {
            seq![]
        } else {
            self.template_members_of(cs.drop_last()) + self.template_child_members(cs.last() as int)
        }
    }

    /// The subroutines an interface definition declares, by name.
    pub open spec fn template_methods_of(&self, cs: Seq<usize>) -> Seq<Seq<char>>
        decreases cs.len(),
    {
        if cs.len() == 0 {
            seq![]
        } else {
            let c = cs.last() as int;
            self.template_methods_of(cs.drop_last()) + if self.kind(c) is FuncTask {
                seq![self.nodes@[c].name@]
            } else {
                seq![]
            }
        }
    }
}

impl Codegen {
    fn dotted_name(&self, block: usize, v: usize) -> (r: String)
        requires
            block < self.nodes.len(),
            v < self.nodes.len(),
        ensures
            r@ == self.nodes@[block as int].name@ + seq!['.'] + self.nodes@[v as int].name@,
    {
        let mut s = self.nodes[block].name.clone();
        push_char(&mut s, '.');
        s.append(self.nodes[v].name.as_str());
        s
    }

    /// The members and methods a concrete interface instance offers a
    /// virtual-interface handle, in declaration order.
    pub fn concrete_virtual_interface_entries(&self, interface: usize)
        -> (r: (Vec<(String, MemberMeta)>, Vec<(String, usize)>))
        requires
            self.wf(),
            interface < self.nodes.len(),
        ensures
            named(r.0@) == self.concrete_members_of(self.nodes@[interface as int].children@),
            named(r.1@) == self.concrete_methods_of(self.nodes@[interface as int].children@),
    {
        proof { self.lemma_node(interface as int); }
        let children = &self.nodes[interface].children;
        let mut members: Vec<(String, MemberMeta)> = Vec::new();
        let mut methods: Vec<(String, usize)> = Vec::new();
        let mut k: usize = 0;
        while k < children.len()
            invariant
                self.wf(),
                interface < self.nodes.len(),
                node_ok(self.nodes@, interface as int),
                children@ == self.nodes@[interface as int].children@,
                k <= children.len(),
                named(members@) == self.concrete_members_of(children@.take(k as int)),
                named(methods@) == self.concrete_methods_of(children@.take(k as int)),
            decreases children.len() - k,
        {
            let c = children[k];
            assert(children@.take(k + 1).drop_last() =~= children@.take(k as int));
            assert(children@.take(k + 1).last() == c);
            let ghost m0 = named(members@);
            let ghost f0 = named(methods@);
            proof { self.lemma_node(c as int); }
            match &self.nodes[c].kind {
                NodeKind::Var { .. } | NodeKind::Net { .. } => {
                    if !self.nodes[c].clocking_var {
                        if let Some(sig) = &self.signals[c] {
                            let e = (self.nodes[c].name.clone(),
                                MemberMeta { width: sig.width, signed: sig.signed, two_state: sig.two_state, real: sig.real, ir: sig.ir });
                            proof { lemma_named_push(members@, e); }
                            members.push(e);
                        }
                    }
                },
                NodeKind::Stmt(StmtKind::Begin) => {
                    if self.nodes[c].clocking_block {
                        let vars = &self.nodes[c].children;
                        let mut j: usize = 0;
                        while j < vars.len()
                            invariant
                                self.wf(),
                                c < self.nodes.len(),
                                node_ok(self.nodes@, c as int),
                                vars@ == self.nodes@[c as int].children@,
                                j <= vars.len(),
                                named(members@) == m0 + self.sample_entries(c as int, vars@.take(j as int)),
                            decreases vars.len() - j,
                        {
                            let v = vars[j];
                            assert(vars@.take(j + 1).drop_last() =~= vars@.take(j as int));
                            assert(vars@.take(j + 1).last() == v);
                            let ghost before = named(members@);
                            if let Some(s) = &self.clocking_samples[v] {
                                let e = (self.dotted_name(c, v),
                                    MemberMeta { width: s.width, signed: s.signed, two_state: s.two_state, real: s.real, ir: s.ir });
                                proof { lemma_named_push(members@, e); }
                                members.push(e);
                            }
                            assert(named(members@) =~= m0 + self.sample_entries(c as int, vars@.take(j + 1)));
                            j = j + 1;
                        }
                        assert(vars@.take(vars.len() as int) =~= vars@);
                    }
                },
                NodeKind::FuncTask { .. } => {
                    if self.nodes[c].body.is_some() {
                        if let Some(ir) = self.func_irs[c] {
                            let e = (self.nodes[c].name.clone(), ir);
                            proof { lemma_named_push(methods@, e); }
                            methods.push(e);
                        }
                    }
                },
                _ => {},
            }
            assert(named(members@) =~= m0 + self.concrete_child_members(c as int));
            assert(named(methods@) =~= f0 + self.concrete_child_methods(c as int));
            k = k + 1;
        }
        assert(children@.take(children.len() as int) =~= children@);
        (members, methods)
    }
}

fn template_member_meta(id: usize, ty: &TypeInfo) -> (r: MemberMeta)
    ensures
        r == template_meta(id, *ty),
{
    MemberMeta {
        width: match ty.width { Some(w) => w, None => 0 },
        signed: ty.signed,
        two_state: two_state_kind(&ty.kind),
        real: real_kind(&ty.kind),
        ir: id,
    }
}

impl Codegen {
    /// The members and methods an interface definition declares, with the
    /// types of its members, so that a virtual-interface type without a
    /// concrete instance (a design holding only null handles) still has its
    /// member widths.
    pub fn virtual_interface_template_entries(&self, interface: usize)
        -> (r: (Vec<(String, MemberMeta)>, Vec<String>))
        requires
            self.wf(),
            interface < self.nodes.len(),
        ensures
            named(r.0@) == self.template_members_of(self.nodes@[interface as int].children@),
            r.1@.map_values(|n: String| n@) == self.template_methods_of(self.nodes@[interface as int].children@),
    {
        proof { self.lemma_node(interface as int); }
        let children = &self.nodes[interface].children;
        let mut members: Vec<(String, MemberMeta)> = Vec::new();
        let mut methods: Vec<String> = Vec::new();
        let mut k: usize = 0;
        while k < children.len()
            invariant
                self.wf(),
                interface < self.nodes.len(),
                node_ok(self.nodes@, interface as int),
                children@ == self.nodes@[interface as int].children@,
                k <= children.len(),
                named(members@) == self.template_members_of(children@.take(k as int)),
                methods@.map_values(|n: String| n@) == self.template_methods_of(children@.take(k as int)),
            decreases children.len() - k,
        {
            let c = children[k];
            assert(children@.take(k + 1).drop_last() =~= children@.take(k as int));
            assert(children@.take(k + 1).last() == c);
            let ghost m0 = named(members@);
            let ghost f0 = methods@.map_values(|n: String| n@);
            proof { self.lemma_node(c as int); }
            match &self.nodes[c].kind {
                NodeKind::Var { ty } | NodeKind::Net { ty, .. } => {
                    if !self.nodes[c].clocking_var {
                        let e = (self.nodes[c].name.clone(), template_member_meta(c, ty));
                        proof { lemma_named_push(members@, e); }
                        members.push(e);
                    }
                },
                NodeKind::FuncTask { .. } => {
                    let n = self.nodes[c].name.clone();
                    assert(methods@.push(n).map_values(|n: String| n@) =~= f0.push(n@));
                    methods.push(n);
                },
                NodeKind::Stmt(StmtKind::Begin) => {
                    if self.nodes[c].clocking_block {
                        let vars = &self.nodes[c].children;
                        let mut j: usize = 0;
                        while j < vars.len()
                            invariant
                                self.wf(),
                                c < self.nodes.len(),
                                node_ok(self.nodes@, c as int),
                                vars@ == self.nodes@[c as int].children@,
                                j <= vars.len(),
                                named(members@) == m0 + self.template_sample_entries(c as int, vars@.take(j as int)),
                            decreases vars.len() - j,
                        {
                            let v = vars[j];
                            assert(vars@.take(j + 1).drop_last() =~= vars@.take(j as int));
                            assert(vars@.take(j + 1).last() == v);
                            match &self.nodes[v].kind {
                                NodeKind::Var { ty } | NodeKind::Net { ty, .. } => {
                                    let e = (self.dotted_name(c, v), template_member_meta(v, ty));
                                    proof { lemma_named_push(members@, e); }
                                    members.push(e);
                                },
                                _ => {},
                            }
                            assert(named(members@) =~= m0 + self.template_sample_entries(c as int, vars@.take(j + 1)));
                            j = j + 1;
                        }
                        assert(vars@.take(vars.len() as int) =~= vars@);
                    }
                },
                _ => {},
            }
            assert(named(members@) =~= m0 + self.template_child_members(c as int));
            assert(methods@.map_values(|n: String| n@) =~= f0 + if self.kind(c as int) is FuncTask {
                seq![self.nodes@[c as int].name@]
            } else {
                seq![]
            });
            k = k + 1;
        }
        assert(children@.take(children.len() as int) =~= children@);
        (members, methods)
    }
}

/// `s` up to its first `#(`: the type name of a parameterized identity.
pub open spec fn before_params(s: Seq<char>) -> Seq<char>
    decreases s.len(),
{
    if s.len() == 0 {
        s
    } else if s.len() >= 2 && s[0] == '#' && s[1] == '(' {
        seq![]
    } else {
        seq![s[0]] + before_params(s.drop_first())
    }
}

/// `s` without repeated items, each kept where it first occurs.
pub open spec fn first_occurrences(s: Seq<usize>) -> Seq<usize>
    decreases s.len(),
{
    if s.len() == 0 {
        s
    } else {
        let d = first_occurrences(s.drop_last());
        if d.contains(s.last()) { d } else { d.push(s.last()) }
    }
}

/// The first position of an entry named `name`.
pub open spec fn name_index<X>(list: Seq<(Seq<char>, X)>, name: Seq<char>) -> Option<int>
    decreases list.len(),
{
    if list.len() == 0 {
        None
    } else {
        match name_index(list.drop_last(), name) {
            Some(i) => Some(i),
            None => if list.last().0 == name { Some(list.len() - 1) } else { None },
        }
    }
}

/// The value of the last entry named `name`.
pub open spec fn last_named<X>(list: Seq<(Seq<char>, X)>, name: Seq<char>) -> Option<X>
    decreases list.len(),
{
    if list.len() == 0 {
        None
    } else if list.last().0 == name {
        Some(list.last().1)
    } else {
        last_named(list.drop_last(), name)
    }
}

/// `list` with the entries of `es` whose names it does not hold yet.
pub open spec fn add_new<X>(list: Seq<(Seq<char>, X)>, es: Seq<(Seq<char>, X)>) -> Seq<(Seq<char>, X)>
    decreases es.len(),
{
    if es.len() == 0 {
        list
    } else {
        let l = add_new(list, es.drop_last());
        if name_index(l, es.last().0) is Some { l } else { l.push(es.last()) }
    }
}

/// `list` with each entry of `es` replacing the value of the entry of the
/// same name, or appended when there is none.
pub open spec fn add_replacing<X>(list: Seq<(Seq<char>, X)>, es: Seq<(Seq<char>, X)>) -> Seq<(Seq<char>, X)>
    decreases es.len(),
{
    if es.len() == 0 {
        list
    } else {
        let l = add_replacing(list, es.drop_last());
        match name_index(l, es.last().0) {
            Some(i) => l.update(i, es.last()),
            None => l.push(es.last()),
        }
    }
}

/// Whether a member cannot be reached through a handle: not a packed
/// signal within the runtime width limit.
pub open spec fn unreachable_member(m: MemberMeta) -> bool {
    m.real || m.width == 0 || m.width > LLG_MAX_WIDTH
}

/// The first member of `ms` a handle cannot reach.
pub open spec fn first_unreachable(ms: Seq<(Seq<char>, MemberMeta)>) -> Option<int>
    decreases ms.len(),
{
    if ms.len() == 0 {
        None
    } else {
        match first_unreachable(ms.drop_last()) {
            Some(i) => Some(i),
            None => if unreachable_member(ms.last().1) { Some(ms.len() - 1) } else { None },
        }
    }
}

pub open spec fn unreachable_member_message(name: Seq<char>) -> Seq<char> {
    "virtual interface member `"@ + name + "` must be a packed signal within the runtime width limit"@
}

impl Codegen {
    pub open spec fn is_interface_instance(&self, i: int) -> bool {
        self.kind(i) matches NodeKind::ModuleInst { is_interface, .. } && is_interface
    }

    /// Whether node `i` belongs to the elaborated instance tree: it is a top
    /// instance or lies under one (definitions kept beside the tree do not).
    pub open spec fn in_design(&self, i: int) -> bool
        decreases i,
    {
        if !(0 <= i < self.len()) {
            false
        } else if self.kind(i) matches NodeKind::ModuleInst { is_top, .. } && is_top {
            true
        } else {
            match self.nodes@[i].parent {
                Some(p) => 0 <= p < i && self.in_design(p as int),
                None => false,
            }
        }
    }

    /// The interface instances of the elaborated design among the first `n`
    /// nodes whose concrete identity is `id`.
    pub open spec fn concrete_interfaces(&self, id: Seq<char>, n: int) -> Seq<usize>
        decreases n,
    {
        if n <= 0 {
            seq![]
        } else {
            self.concrete_interfaces(id, n - 1) + if self.is_interface_instance(n - 1)
                && self.in_design(n - 1) && self.concrete_identity(n - 1) == Some(id) {
                seq![(n - 1) as usize]
            } else {
                seq![]
            }
        }
    }

    /// Whether node `i` is the definition of interface type `base`: an
    /// interface directly under a root, with members.
    pub open spec fn is_interface_template(&self, i: int, base: Seq<char>) -> bool {
        &&& self.kind(i) matches NodeKind::ModuleInst { def_name, is_interface, .. }
            && is_interface && strip_white(strip_lib_spec(def_name@)) == base
        &&& self.nodes@[i].parent matches Some(p) && self.nodes@[p as int].parent is None
        &&& self.nodes@[i].children.len() > 0
    }

    pub open spec fn interface_templates(&self, base: Seq<char>, n: int) -> Seq<usize>
        decreases n,
    {
        if n <= 0 {
            seq![]
        } else {
            self.interface_templates(base, n - 1) + if self.is_interface_template(n - 1, base) {
                seq![(n - 1) as usize]
            } else {
                seq![]
            }
        }
    }

    /// The interfaces whose declarations describe type `id`: its
    /// definitions, then its concrete instances, each once.
    pub open spec fn metadata_interfaces(&self, id: Seq<char>) -> Seq<usize> {
        first_occurrences(self.interface_templates(before_params(id), self.len())
            + self.concrete_interfaces(id, self.len()))
    }

    /// The `(view, member, direction)` and `(view, method)` items the
    /// modport views of interface `m` declare, in scan order.
    pub open spec fn port_members(&self, view: int, ports: Seq<usize>) -> Seq<(Seq<char>, Seq<char>, Direction)>
        decreases ports.len(),
    {
        if ports.len() == 0 {
            seq![]
        } else {
            let p = ports.last() as int;
            self.port_members(view, ports.drop_last()) + match self.kind(p) {
                NodeKind::ModPort { direction: Some(d) } => seq![(self.nodes@[view].name@, self.nodes@[p].name@, d)],
                _ => seq![],
            }
        }
    }

    pub open spec fn port_methods(&self, view: int, ports: Seq<usize>) -> Seq<(Seq<char>, Seq<char>)>
        decreases ports.len(),
    {
        if ports.len() == 0 {
            seq![]
        } else {
            let p = ports.last() as int;
            self.port_methods(view, ports.drop_last()) + if self.kind(p) is FuncTask {
                seq![(self.nodes@[view].name@, self.nodes@[p].name@)]
            } else {
                seq![]
            }
        }
    }

    pub open spec fn view_members_of(&self, cs: Seq<usize>) -> Seq<(Seq<char>, Seq<char>, Direction)>
        decreases cs.len(),
    {
        if cs.len() == 0 {
            seq![]
        } else {
            let c = cs.last() as int;
            self.view_members_of(cs.drop_last()) + if self.kind(c) is ModPort {
                self.port_members(c, self.nodes@[c].children@)
            } else {
                seq![]
            }
        }
    }

    pub open spec fn view_methods_of(&self, cs: Seq<usize>) -> Seq<(Seq<char>, Seq<char>)>
        decreases cs.len(),
    {
        if cs.len() == 0 {
            seq![]
        } else {
            let c = cs.last() as int;
            self.view_methods_of(cs.drop_last()) + if self.kind(c) is ModPort {
                self.port_methods(c, self.nodes@[c].children@)
            } else {
                seq![]
            }
        }
    }

    /// The view items of interfaces `ms`, in order.
    pub open spec fn all_view_members(&self, ms: Seq<usize>) -> Seq<(Seq<char>, Seq<char>, Direction)>
        decreases ms.len(),
    {
        if ms.len() == 0 {
            seq![]
        } else {
            self.all_view_members(ms.drop_last()) + self.view_members_of(self.nodes@[ms.last() as int].children@)
        }
    }

    pub open spec fn all_view_methods(&self, ms: Seq<usize>) -> Seq<(Seq<char>, Seq<char>)>
        decreases ms.len(),
    {
        if ms.len() == 0 {
            seq![]
        } else {
            self.all_view_methods(ms.drop_last()) + self.view_methods_of(self.nodes@[ms.last() as int].children@)
        }
    }

    /// The members the definitions and instances `ms` declare, first
    /// declaration first.
    pub open spec fn template_member_list(&self, ms: Seq<usize>) -> Seq<(Seq<char>, MemberMeta)>
        decreases ms.len(),
    {
        if ms.len() == 0 {
            seq![]
        } else {
            add_new(self.template_member_list(ms.drop_last()), self.template_members_of(self.nodes@[ms.last() as int].children@))
        }
    }

    /// `list` with the storage of concrete instances `cs`: their members
    /// replace the metadata of a member of the same name, or are appended.
    pub open spec fn concrete_member_list(&self, list: Seq<(Seq<char>, MemberMeta)>, cs: Seq<usize>) -> Seq<(Seq<char>, MemberMeta)>
        decreases cs.len(),
    {
        if cs.len() == 0 {
            list
        } else {
            add_replacing(self.concrete_member_list(list, cs.drop_last()), self.concrete_members_of(self.nodes@[cs.last() as int].children@))
        }
    }

    /// The methods of concrete instances `cs`, the first implementation of
    /// each name kept.
    pub open spec fn concrete_method_list(&self, cs: Seq<usize>) -> Seq<(Seq<char>, usize)>
        decreases cs.len(),
    {
        if cs.len() == 0 {
            seq![]
        } else {
            add_new(self.concrete_method_list(cs.drop_last()), self.concrete_methods_of(self.nodes@[cs.last() as int].children@))
        }
    }

    /// The members of virtual-interface type `id`, in order.
    pub open spec fn vi_members(&self, id: Seq<char>) -> Seq<(Seq<char>, MemberMeta)> {
        self.concrete_member_list(self.template_member_list(self.metadata_interfaces(id)),
            self.concrete_interfaces(id, self.len()))
    }

    pub open spec fn vi_methods(&self, id: Seq<char>) -> Seq<(Seq<char>, usize)> {
        self.concrete_method_list(self.concrete_interfaces(id, self.len()))
    }
}

/// The type name of an identity: the text before its first `#(`.
pub fn type_name_of(identity: &str) -> (r: String)
    ensures
        r@ == before_params(identity@),
{
    let n = identity.unicode_len();
    let ghost s = identity@;
    let mut i: usize = 0;
    assert(s.take(0) + before_params(s.skip(0)) =~= before_params(s)) by {
        assert(s.skip(0) =~= s);
    }
    while i < n
        invariant
            n == s.len(),
            s == identity@,
            i <= n,
            before_params(s) == s.take(i as int) + before_params(s.skip(i as int)),
        decreases n - i,
    {
        if i + 1 < n && identity.get_char(i) == '#' && identity.get_char(i + 1) == '(' {
            assert(before_params(s.skip(i as int)) =~= seq![]) by {
                assert(s.skip(i as int)[0] == '#');
                assert(s.skip(i as int)[1] == '(');
            }
            let r = owned(identity.substring_char(0, i));
            assert(r@ =~= before_params(s));
            return r;
        }
        assert(s.skip(i as int).drop_first() =~= s.skip(i + 1));
        assert(s.skip(i as int)[0] == s[i as int]);
        assert(s.take(i as int) + seq![s[i as int]] =~= s.take(i + 1));
        assert(s.take(i + 1) + before_params(s.skip(i + 1)) =~= s.take(i as int) + before_params(s.skip(i as int)));
        i = i + 1;
    }
    assert(s.skip(n as int) =~= seq![]);
    assert(s.take(n as int) =~= s);
    owned(identity)
}

fn holds_node(v: &Vec<usize>, x: usize) -> (r: bool)
    ensures
        r == v@.contains(x),
{
    let mut i: usize = 0;
    while i < v.len()
        invariant
            i <= v.len(),
            forall|j: int| 0 <= j < i ==> v@[j] != x,
        decreases v.len() - i,
    {
        if v[i] == x {
            assert(v@[i as int] == x);
            return true;
        }
        i = i + 1;
    }
    false
}

impl Codegen {
    /// Whether node `i` belongs to the elaborated instance tree.
    pub fn is_in_design(&self, i: usize) -> (r: bool)
        requires
            self.wf(),
            i < self.nodes.len(),
        ensures
            r == self.in_design(i as int),
    {
        let mut cur = i;
        loop
            invariant
                self.wf(),
                cur < self.nodes.len(),
                self.in_design(i as int) == self.in_design(cur as int),
            decreases cur,
        {
            proof { self.lemma_node(cur as int); }
            if let NodeKind::ModuleInst { is_top: true, .. } = &self.nodes[cur].kind {
                return true;
            }
            match self.nodes[cur].parent {
                Some(p) => {
                    cur = p;
                },
                None => return false,
            }
        }
    }

    fn concrete_interfaces_of(&self, identity: &str) -> (r: Vec<usize>)
        requires
            self.wf(),
        ensures
            r@ == self.concrete_interfaces(identity@, self.len()),
            forall|x: int| 0 <= x < r@.len() ==> #[trigger] r@[x] < self.nodes.len(),
    {
        let mut out: Vec<usize> = Vec::new();
        let mut i: usize = 0;
        while i < self.nodes.len()
            invariant
                self.wf(),
                i <= self.nodes.len(),
                out@ == self.concrete_interfaces(identity@, i as int),
                forall|x: int| 0 <= x < out@.len() ==> #[trigger] out@[x] < i,
            decreases self.nodes.len() - i,
        {
            if let NodeKind::ModuleInst { is_interface: true, .. } = &self.nodes[i].kind {
                if self.is_in_design(i) {
                    if let Some(ci) = self.concrete_virtual_interface_identity(i) {
                        if str_is(ci.as_str(), identity) {
                            out.push(i);
                        }
                    }
                }
            }
            assert(out@ =~= self.concrete_interfaces(identity@, i + 1));
            i = i + 1;
        }
        out
    }

    fn interface_templates_of(&self, base: &str) -> (r: Vec<usize>)
        requires
            self.wf(),
        ensures
            r@ == self.interface_templates(base@, self.len()),
            forall|x: int| 0 <= x < r@.len() ==> #[trigger] r@[x] < self.nodes.len(),
    {
        let mut out: Vec<usize> = Vec::new();
        let mut i: usize = 0;
        while i < self.nodes.len()
            invariant
                self.wf(),
                i <= self.nodes.len(),
                out@ == self.interface_templates(base@, i as int),
                forall|x: int| 0 <= x < out@.len() ==> #[trigger] out@[x] < i,
            decreases self.nodes.len() - i,
        {
            proof { self.lemma_node(i as int); }
            if let NodeKind::ModuleInst { def_name, is_interface: true, .. } = &self.nodes[i].kind {
                if let Some(p) = self.nodes[i].parent {
                    if self.nodes[p].parent.is_none() && self.nodes[i].children.len() > 0 {
                        let name = Self::normalize_virtual_interface_identity(strip_lib(def_name.as_str()).as_str());
                        if str_is(name.as_str(), base) {
                            out.push(i);
                        }
                    }
                }
            }
            assert(out@ =~= self.interface_templates(base@, i + 1));
            i = i + 1;
        }
        out
    }
}

fn first_occurrences_of(a: &Vec<usize>, b: &Vec<usize>, bound: usize) -> (r: Vec<usize>)
    requires
        forall|x: int| 0 <= x < a@.len() ==> #[trigger] a@[x] < bound,
        forall|x: int| 0 <= x < b@.len() ==> #[trigger] b@[x] < bound,
    ensures
        r@ == first_occurrences(a@ + b@),
        forall|x: int| 0 <= x < r@.len() ==> #[trigger] r@[x] < bound,
{
    let ghost all = a@ + b@;
    let mut out: Vec<usize> = Vec::new();
    let mut k: usize = 0;
    while k < a.len()
        invariant
            all == a@ + b@,
            k <= a.len(),
            out@ == first_occurrences(all.take(k as int)),
            forall|x: int| 0 <= x < a@.len() ==> #[trigger] a@[x] < bound,
            forall|x: int| 0 <= x < out@.len() ==> #[trigger] out@[x] < bound,
        decreases a.len() - k,
    {
        let x = a[k];
        assert(all.take(k + 1).drop_last() =~= all.take(k as int));
        assert(all.take(k + 1).last() == x);
        if !holds_node(&out, x) {
            out.push(x);
        }
        k = k + 1;
    }
    let mut j: usize = 0;
    while j < b.len()
        invariant
            all == a@ + b@,
            j <= b.len(),
            out@ == first_occurrences(all.take(a.len() + j)),
            forall|x: int| 0 <= x < b@.len() ==> #[trigger] b@[x] < bound,
            forall|x: int| 0 <= x < out@.len() ==> #[trigger] out@[x] < bound,
        decreases b.len() - j,
    {
        let x = b[j];
        assert(all.take(a.len() + j + 1).drop_last() =~= all.take(a.len() + j));
        assert(all.take(a.len() + j + 1).last() == x);
        if !holds_node(&out, x) {
            out.push(x);
        }
        j = j + 1;
    }
    assert(all.take(a.len() + b.len()) =~= all);
    out
}

pub open spec fn triples(v: Seq<(String, String, Direction)>) -> Seq<(Seq<char>, Seq<char>, Direction)> {
    v.map_values(|e: (String, String, Direction)| (e.0@, e.1@, e.2))
}

pub open spec fn pairs(v: Seq<(String, String)>) -> Seq<(Seq<char>, Seq<char>)> {
    v.map_values(|e: (String, String)| (e.0@, e.1@))
}

impl Codegen {
    fn collect_view_items(&self, m: usize, members: &mut Vec<(String, String, Direction)>, methods: &mut Vec<(String, String)>)
        requires
            self.wf(),
            m < self.nodes.len(),
        ensures
            triples(final(members)@) == triples(old(members)@) + self.view_members_of(self.nodes@[m as int].children@),
            pairs(final(methods)@) == pairs(old(methods)@) + self.view_methods_of(self.nodes@[m as int].children@),
    {
        proof { self.lemma_node(m as int); }
        let children = &self.nodes[m].children;
        let ghost m0 = triples(members@);
        let ghost f0 = pairs(methods@);
        let mut k: usize = 0;
        while k < children.len()
            invariant
                self.wf(),
                m < self.nodes.len(),
                node_ok(self.nodes@, m as int),
                children@ == self.nodes@[m as int].children@,
                k <= children.len(),
                triples(members@) == m0 + self.view_members_of(children@.take(k as int)),
                pairs(methods@) == f0 + self.view_methods_of(children@.take(k as int)),
            decreases children.len() - k,
        {
            let c = children[k];
            assert(children@.take(k + 1).drop_last() =~= children@.take(k as int));
            assert(children@.take(k + 1).last() == c);
            let ghost m1 = triples(members@);
            let ghost f1 = pairs(methods@);
            proof { self.lemma_node(c as int); }
            if let NodeKind::ModPort { .. } = &self.nodes[c].kind {
                let ports = &self.nodes[c].children;
                let mut j: usize = 0;
                while j < ports.len()
                    invariant
                        self.wf(),
                        c < self.nodes.len(),
                        node_ok(self.nodes@, c as int),
                        ports@ == self.nodes@[c as int].children@,
                        j <= ports.len(),
                        triples(members@) == m1 + self.port_members(c as int, ports@.take(j as int)),
                        pairs(methods@) == f1 + self.port_methods(c as int, ports@.take(j as int)),
                    decreases ports.len() - j,
                {
                    let p = ports[j];
                    assert(ports@.take(j + 1).drop_last() =~= ports@.take(j as int));
                    assert(ports@.take(j + 1).last() == p);
                    let ghost m2 = triples(members@);
                    let ghost f2 = pairs(methods@);
                    match &self.nodes[p].kind {
                        NodeKind::ModPort { direction: Some(d) } => {
                            let e = (self.nodes[c].name.clone(), self.nodes[p].name.clone(), *d);
                            members.push(e);
                            assert(triples(members@) =~= m2.push((e.0@, e.1@, e.2)));
                        },
                        NodeKind::FuncTask { .. } => {
                            let e = (self.nodes[c].name.clone(), self.nodes[p].name.clone());
                            methods.push(e);
                            assert(pairs(methods@) =~= f2.push((e.0@, e.1@)));
                        },
                        _ => {},
                    }
                    assert(triples(members@) =~= m1 + self.port_members(c as int, ports@.take(j + 1)));
                    assert(pairs(methods@) =~= f1 + self.port_methods(c as int, ports@.take(j + 1)));
                    j = j + 1;
                }
                assert(ports@.take(ports.len() as int) =~= ports@);
            }
            assert(triples(members@) =~= m0 + self.view_members_of(children@.take(k + 1)));
            assert(pairs(methods@) =~= f0 + self.view_methods_of(children@.take(k + 1)));
            k = k + 1;
        }
        assert(children@.take(children.len() as int) =~= children@);
    }
}

fn find_name<X>(list: &Vec<(String, X)>, name: &str) -> (r: Option<usize>)
    ensures
        r matches Some(i) ==> i < list@.len() && name_index(named(list@), name@) == Some(i as int),
        r is None ==> name_index(named(list@), name@) is None,
{
    let mut k: usize = 0;
    while k < list.len()
        invariant
            k <= list.len(),
            name_index(named(list@).take(k as int), name@) is None,
        decreases list.len() - k,
    {
        assert(named(list@).take(k + 1).drop_last() =~= named(list@).take(k as int));
        if str_is(list[k].0.as_str(), name) {
            proof { lemma_name_index_prefix(named(list@), name@, k as int); }
            return Some(k);
        }
        k = k + 1;
    }
    assert(named(list@).take(list.len() as int) =~= named(list@));
    None
}

proof fn lemma_name_index_prefix<X>(list: Seq<(Seq<char>, X)>, name: Seq<char>, k: int)
    requires
        0 <= k < list.len(),
        name_index(list.take(k), name) is None,
        list[k].0 == name,
    ensures
        name_index(list, name) == Some(k),
    decreases list.len(),
{
    if k < list.len() - 1 {
        assert(list.drop_last().take(k) =~= list.take(k));
        lemma_name_index_prefix(list.drop_last(), name, k);
    } else {
        assert(list.drop_last() =~= list.take(k));
    }
}

fn add_new_entries<X: Copy>(list: &mut Vec<(String, X)>, es: &Vec<(String, X)>)
    ensures
        named(final(list)@) == add_new(named(old(list)@), named(es@)),
{
    let ghost start = named(list@);
    let mut k: usize = 0;
    while k < es.len()
        invariant
            k <= es.len(),
            named(list@) == add_new(start, named(es@).take(k as int)),
        decreases es.len() - k,
    {
        assert(named(es@).take(k + 1).drop_last() =~= named(es@).take(k as int));
        assert(named(es@).take(k + 1).last() == (es@[k as int].0@, es@[k as int].1));
        if find_name(list, es[k].0.as_str()).is_none() {
            let e = (es[k].0.clone(), es[k].1);
            proof { lemma_named_push(list@, e); }
            list.push(e);
        }
        k = k + 1;
    }
    assert(named(es@).take(es.len() as int) =~= named(es@));
}

fn add_replacing_entries<X: Copy>(list: &mut Vec<(String, X)>, es: &Vec<(String, X)>)
    ensures
        named(final(list)@) == add_replacing(named(old(list)@), named(es@)),
{
    let ghost start = named(list@);
    let mut k: usize = 0;
    while k < es.len()
        invariant
            k <= es.len(),
            named(list@) == add_replacing(start, named(es@).take(k as int)),
        decreases es.len() - k,
    {
        assert(named(es@).take(k + 1).drop_last() =~= named(es@).take(k as int));
        assert(named(es@).take(k + 1).last() == (es@[k as int].0@, es@[k as int].1));
        let e = (es[k].0.clone(), es[k].1);
        match find_name(list, es[k].0.as_str()) {
            Some(i) => {
                let ghost before = list@;
                list.set(i, e);
                assert(named(list@) =~= named(before).update(i as int, (e.0@, e.1)));
            },
            None => {
                proof { lemma_named_push(list@, e); }
                list.push(e);
            },
        }
        k = k + 1;
    }
    assert(named(es@).take(es.len() as int) =~= named(es@));
}

fn last_named_exec<X: Copy>(list: &Vec<(String, X)>, name: &str) -> (r: Option<X>)
    ensures
        r == last_named(named(list@), name@),
{
    let mut k: usize = list.len();
    assert(named(list@).take(k as int) =~= named(list@));
    while k > 0
        invariant
            k <= list.len(),
            last_named(named(list@), name@) == last_named(named(list@).take(k as int), name@),
        decreases k,
    {
        assert(named(list@).take(k as int).drop_last() =~= named(list@).take(k - 1));
        assert(named(list@).take(k as int).last() == (list@[k - 1].0@, list@[k - 1].1));
        if str_is(list[k - 1].0.as_str(), name) {
            return Some(list[k - 1].1);
        }
        k = k - 1;
    }
    None
}

/// The descriptor of one virtual-interface type, with the concrete
/// instances behind its environments and the items of its modport views.
pub struct VirtualInterfaceDescriptor {
    pub vif: IrVirtualInterface,
    pub concrete: Vec<usize>,
    /// `(view, member, direction)` items, in scan order.
    pub view_members: Vec<(String, String, Direction)>,
    /// `(view, method)` items, in scan order.
    pub view_methods: Vec<(String, String)>,
}

impl Codegen {
    /// The storage concrete instance `iface` gives member `name`.
    pub open spec fn member_slot(&self, iface: usize, name: Seq<char>) -> Option<usize> {
        match last_named(self.concrete_members_of(self.nodes@[iface as int].children@), name) {
            Some(m) => Some(m.ir),
            None => None,
        }
    }

    /// The function concrete instance `iface` gives method `name`.
    pub open spec fn method_slot(&self, iface: usize, name: Seq<char>) -> Option<usize> {
        last_named(self.concrete_methods_of(self.nodes@[iface as int].children@), name)
    }

    pub open spec fn vif_env_name(&self, iface: usize) -> Seq<char> {
        "llg_vif_env_"@ + ident_spec(self.nodes@[iface as int].instance_path@)
    }

    /// Whether `d` is the descriptor of virtual-interface type `id`: its
    /// members and methods in order, and for each concrete instance its
    /// environment of member storage and method functions.
    pub open spec fn vif_ok(&self, d: IrVirtualInterface, id: Seq<char>) -> bool {
        let ms = self.vi_members(id);
        let fs = self.vi_methods(id);
        let cs = self.concrete_interfaces(id, self.len());
        &&& d.identity@ == id
        &&& d.members@.len() == ms.len()
        &&& forall|i: int| 0 <= i < ms.len() ==> {
            &&& (#[trigger] d.members@[i]).name@ == ms[i].0
            &&& d.members@[i].width == ms[i].1.width
            &&& d.members@[i].signed == ms[i].1.signed
            &&& d.members@[i].two_state == ms[i].1.two_state
        }
        &&& d.instances@.len() == cs.len()
        &&& forall|j: int| 0 <= j < cs.len() ==> {
            &&& (#[trigger] d.instances@[j]).c_name@ == self.vif_env_name(cs[j])
            &&& d.instances@[j].members@ == Seq::new(ms.len(), |i: int| self.member_slot(cs[j], ms[i].0))
            &&& d.instances@[j].methods@ == Seq::new(fs.len(), |i: int| self.method_slot(cs[j], fs[i].0))
        }
        &&& d.methods@.len() == fs.len()
        &&& forall|i: int| 0 <= i < fs.len() ==> {
            &&& (#[trigger] d.methods@[i]).name@ == fs[i].0
            &&& d.methods@[i].function == fs[i].1
            &&& d.methods@[i].instances@ == Seq::new(cs.len(), |j: int| self.method_slot(cs[j], fs[i].0))
        }
    }

    fn interface_environment(&self, iface: usize, members: &Vec<(String, MemberMeta)>, methods: &Vec<(String, usize)>)
        -> (r: IrVirtualInterfaceInstance)
        requires
            self.wf(),
            iface < self.nodes.len(),
        ensures
            r.c_name@ == self.vif_env_name(iface),
            r.members@ == Seq::new(members@.len(), |i: int| self.member_slot(iface, members@[i].0@)),
            r.methods@ == Seq::new(methods@.len(), |i: int| self.method_slot(iface, methods@[i].0@)),
    {
        let (cm, cf) = self.concrete_virtual_interface_entries(iface);
        let mut slots: Vec<Option<usize>> = Vec::new();
        let mut i: usize = 0;
        while i < members.len()
            invariant
                i <= members.len(),
                named(cm@) == self.concrete_members_of(self.nodes@[iface as int].children@),
                slots@.len() == i,
                forall|x: int| 0 <= x < i ==> #[trigger] slots@[x] == self.member_slot(iface, members@[x].0@),
            decreases members.len() - i,
        {
            let slot = match last_named_exec(&cm, members[i].0.as_str()) {
                Some(m) => Some(m.ir),
                None => None,
            };
            slots.push(slot);
            i = i + 1;
        }
        let mut fslots: Vec<Option<usize>> = Vec::new();
        let mut i: usize = 0;
        while i < methods.len()
            invariant
                i <= methods.len(),
                named(cf@) == self.concrete_methods_of(self.nodes@[iface as int].children@),
                fslots@.len() == i,
                forall|x: int| 0 <= x < i ==> #[trigger] fslots@[x] == self.method_slot(iface, methods@[x].0@),
            decreases methods.len() - i,
        {
            fslots.push(last_named_exec(&cf, methods[i].0.as_str()));
            i = i + 1;
        }
        let mut c_name = owned("llg_vif_env_");
        let id = ident(self.nodes[iface].instance_path.as_str());
        c_name.append(id.as_str());
        assert(slots@ =~= Seq::new(members@.len(), |i: int| self.member_slot(iface, members@[i].0@)));
        assert(fslots@ =~= Seq::new(methods@.len(), |i: int| self.method_slot(iface, methods@[i].0@)));
        IrVirtualInterfaceInstance { c_name, members: slots, methods: fslots }
    }

    /// Build the descriptor of virtual-interface type `identity` from the
    /// interface definitions and concrete instances of that type: members
    /// in declaration order (a definition's first, a concrete instance's
    /// storage replacing the definition's metadata), methods of the concrete
    /// instances, and one environment per concrete instance. Refused when a
    /// member is not a packed signal within the runtime width limit.
    pub fn virtual_interface_descriptor(&self, identity: &str) -> (r: Result<VirtualInterfaceDescriptor, String>)
        requires
            self.wf(),
        ensures
            r is Err <==> first_unreachable(self.vi_members(identity@)) is Some,
            r matches Err(e) ==> (first_unreachable(self.vi_members(identity@)) matches Some(i)
                && e@ == unreachable_member_message(self.vi_members(identity@)[i].0)),
            r matches Ok(d) ==> {
                &&& self.vif_ok(d.vif, identity@)
                &&& d.concrete@ == self.concrete_interfaces(identity@, self.len())
                &&& triples(d.view_members@) == self.all_view_members(self.metadata_interfaces(identity@))
                &&& pairs(d.view_methods@) == self.all_view_methods(self.metadata_interfaces(identity@))
            },
    {
        let base = type_name_of(identity);
        let concrete = self.concrete_interfaces_of(identity);
        let templates = self.interface_templates_of(base.as_str());
        let metadata = first_occurrences_of(&templates, &concrete, self.nodes.len());
        let ghost md = metadata@;
        assert(md == self.metadata_interfaces(identity@));
        let mut view_members: Vec<(String, String, Direction)> = Vec::new();
        let mut view_methods: Vec<(String, String)> = Vec::new();
        let mut members: Vec<(String, MemberMeta)> = Vec::new();
        let mut k: usize = 0;
        while k < metadata.len()
            invariant
                self.wf(),
                md == metadata@,
                forall|x: int| 0 <= x < md.len() ==> #[trigger] md[x] < self.nodes.len(),
                k <= metadata.len(),
                triples(view_members@) == self.all_view_members(md.take(k as int)),
                pairs(view_methods@) == self.all_view_methods(md.take(k as int)),
                named(members@) == self.template_member_list(md.take(k as int)),
            decreases metadata.len() - k,
        {
            let m = metadata[k];
            assert(md.take(k + 1).drop_last() =~= md.take(k as int));
            assert(md.take(k + 1).last() == m);
            self.collect_view_items(m, &mut view_members, &mut view_methods);
            let (tm, _) = self.virtual_interface_template_entries(m);
            add_new_entries(&mut members, &tm);
            k = k + 1;
        }
        assert(md.take(md.len() as int) =~= md);
        let ghost cs = concrete@;
        let mut methods: Vec<(String, usize)> = Vec::new();
        let mut j: usize = 0;
        while j < concrete.len()
            invariant
                self.wf(),
                cs == concrete@,
                cs == self.concrete_interfaces(identity@, self.len()),
                forall|x: int| 0 <= x < cs.len() ==> #[trigger] cs[x] < self.nodes.len(),
                j <= concrete.len(),
                named(members@) == self.concrete_member_list(self.template_member_list(md), cs.take(j as int)),
                named(methods@) == self.concrete_method_list(cs.take(j as int)),
            decreases concrete.len() - j,
        {
            let c = concrete[j];
            assert(cs.take(j + 1).drop_last() =~= cs.take(j as int));
            assert(cs.take(j + 1).last() == c);
            let (cm, cf) = self.concrete_virtual_interface_entries(c);
            add_replacing_entries(&mut members, &cm);
            add_new_entries(&mut methods, &cf);
            j = j + 1;
        }
        assert(cs.take(cs.len() as int) =~= cs);
        let ghost ms = named(members@);
        assert(ms == self.vi_members(identity@));
        let mut ir_members: Vec<IrVirtualInterfaceMember> = Vec::new();
        let mut i: usize = 0;
        while i < members.len()
            invariant
                ms == named(members@),
                ms == self.vi_members(identity@),
                i <= members.len(),
                first_unreachable(ms.take(i as int)) is None,
                ir_members@.len() == i,
                forall|x: int| 0 <= x < i ==> {
                    &&& (#[trigger] ir_members@[x]).name@ == ms[x].0
                    &&& ir_members@[x].width == ms[x].1.width
                    &&& ir_members@[x].signed == ms[x].1.signed
                    &&& ir_members@[x].two_state == ms[x].1.two_state
                },
            decreases members.len() - i,
        {
            assert(ms.take(i + 1).drop_last() =~= ms.take(i as int));
            assert(ms.take(i + 1).last() == ms[i as int]);
            let meta = members[i].1;
            if meta.real || meta.width == 0 || meta.width > LLG_MAX_WIDTH {
                proof { lemma_first_unreachable_prefix(ms, i as int); }
                let mut e = owned("virtual interface member `");
                e.append(members[i].0.as_str());
                e.append("` must be a packed signal within the runtime width limit");
                return Err(e);
            }
            ir_members.push(IrVirtualInterfaceMember {
                name: members[i].0.clone(),
                width: meta.width,
                signed: meta.signed,
                two_state: meta.two_state,
            });
            i = i + 1;
        }
        assert(ms.take(ms.len() as int) =~= ms);
        let ghost fs = named(methods@);
        let mut instances: Vec<IrVirtualInterfaceInstance> = Vec::new();
        let mut j: usize = 0;
        while j < concrete.len()
            invariant
                self.wf(),
                cs == concrete@,
                forall|x: int| 0 <= x < cs.len() ==> #[trigger] cs[x] < self.nodes.len(),
                ms == named(members@),
                fs == named(methods@),
                j <= concrete.len(),
                instances@.len() == j,
                forall|y: int| 0 <= y < j ==> {
                    &&& (#[trigger] instances@[y]).c_name@ == self.vif_env_name(cs[y])
                    &&& instances@[y].members@ == Seq::new(ms.len(), |i: int| self.member_slot(cs[y], ms[i].0))
                    &&& instances@[y].methods@ == Seq::new(fs.len(), |i: int| self.method_slot(cs[y], fs[i].0))
                },
            decreases concrete.len() - j,
        {
            let env = self.interface_environment(concrete[j], &members, &methods);
            assert(env.members@ =~= Seq::new(ms.len(), |i: int| self.member_slot(cs[j as int], ms[i].0)));
            assert(env.methods@ =~= Seq::new(fs.len(), |i: int| self.method_slot(cs[j as int], fs[i].0)));
            instances.push(env);
            j = j + 1;
        }
        let mut ir_methods: Vec<IrVirtualInterfaceMethod> = Vec::new();
        let mut i: usize = 0;
        while i < methods.len()
            invariant
                fs == named(methods@),
                i <= methods.len(),
                instances@.len() == cs.len(),
                forall|y: int| 0 <= y < cs.len() ==>
                    (#[trigger] instances@[y]).methods@ == Seq::new(fs.len(), |i: int| self.method_slot(cs[y], fs[i].0)),
                ir_methods@.len() == i,
                forall|x: int| 0 <= x < i ==> {
                    &&& (#[trigger] ir_methods@[x]).name@ == fs[x].0
                    &&& ir_methods@[x].function == fs[x].1
                    &&& ir_methods@[x].instances@ == Seq::new(cs.len(), |y: int| self.method_slot(cs[y], fs[x].0))
                },
            decreases methods.len() - i,
        {
            let mut per: Vec<Option<usize>> = Vec::new();
            let mut y: usize = 0;
            while y < instances.len()
                invariant
                    fs == named(methods@),
                    i < methods.len(),
                    instances@.len() == cs.len(),
                    forall|z: int| 0 <= z < cs.len() ==>
                        (#[trigger] instances@[z]).methods@ == Seq::new(fs.len(), |i: int| self.method_slot(cs[z], fs[i].0)),
                    y <= instances.len(),
                    per@.len() == y,
                    forall|z: int| 0 <= z < y ==> #[trigger] per@[z] == self.method_slot(cs[z], fs[i as int].0),
                decreases instances.len() - y,
            {
                assert(instances@[y as int].methods@[i as int] == self.method_slot(cs[y as int], fs[i as int].0));
                per.push(instances[y].methods[i]);
                y = y + 1;
            }
            assert(per@ =~= Seq::new(cs.len(), |y: int| self.method_slot(cs[y], fs[i as int].0)));
            ir_methods.push(IrVirtualInterfaceMethod { name: methods[i].0.clone(), function: methods[i].1, instances: per });
            i = i + 1;
        }
        let vif = IrVirtualInterface { identity: owned(identity), members: ir_members, instances, methods: ir_methods };
        Ok(VirtualInterfaceDescriptor { vif, concrete, view_members, view_methods })
    }
}

proof fn lemma_first_unreachable_prefix(ms: Seq<(Seq<char>, MemberMeta)>, i: int)
    requires
        0 <= i < ms.len(),
        first_unreachable(ms.take(i)) is None,
        unreachable_member(ms[i].1),
    ensures
        first_unreachable(ms) == Some(i),
    decreases ms.len(),
{
    if i < ms.len() - 1 {
        assert(ms.drop_last().take(i) =~= ms.take(i));
        lemma_first_unreachable_prefix(ms.drop_last(), i);
    } else {
        assert(ms.drop_last() =~= ms.take(i));
    }
}

/// `a` orders before `b`: the order of strings by code points, a prefix
/// first.
pub open spec fn lex_lt(a: Seq<char>, b: Seq<char>) -> bool
    decreases a.len(),
{
    if a.len() == 0 {
        b.len() > 0
    } else if b.len() == 0 {
        false
    } else if a[0] != b[0] {
        (a[0] as int) < (b[0] as int)
    } else {
        lex_lt(a.drop_first(), b.drop_first())
    }
}

pub proof fn lemma_lex_irreflexive(a: Seq<char>)
    ensures
        !lex_lt(a, a),
    decreases a.len(),
{
    if a.len() > 0 {
        lemma_lex_irreflexive(a.drop_first());
    }
}

pub proof fn lemma_lex_total(a: Seq<char>, b: Seq<char>)
    ensures
        a == b || lex_lt(a, b) || lex_lt(b, a),
        !(lex_lt(a, b) && lex_lt(b, a)),
    decreases a.len(),
{
    if a.len() > 0 && b.len() > 0 {
        if a[0] == b[0] {
            lemma_lex_total(a.drop_first(), b.drop_first());
            if a.drop_first() == b.drop_first() {
                assert(a =~= seq![a[0]] + a.drop_first());
                assert(b =~= seq![b[0]] + b.drop_first());
            }
        } else {
            assert((a[0] as int) != (b[0] as int));
        }
    } else if a.len() == 0 && b.len() == 0 {
        assert(a =~= b);
    }
}

pub proof fn lemma_lex_transitive(a: Seq<char>, b: Seq<char>, c: Seq<char>)
    requires
        lex_lt(a, b),
        lex_lt(b, c),
    ensures
        lex_lt(a, c),
    decreases a.len(),
{
    if a.len() > 0 && b.len() > 0 && c.len() > 0 {
        if a[0] == b[0] && b[0] == c[0] {
            lemma_lex_transitive(a.drop_first(), b.drop_first(), c.drop_first());
        }
    }
}

/// `a` orders before `b` (`String`'s order: code points, a prefix first).
pub fn str_lt(a: &str, b: &str) -> (r: bool)
    ensures
        r == lex_lt(a@, b@),
{
    let n = a.unicode_len();
    let m = b.unicode_len();
    let mut i: usize = 0;
    assert(a@.skip(0) =~= a@);
    assert(b@.skip(0) =~= b@);
    while i < n && i < m
        invariant
            n == a@.len(),
            m == b@.len(),
            i <= n,
            i <= m,
            lex_lt(a@, b@) == lex_lt(a@.skip(i as int), b@.skip(i as int)),
        decreases n - i,
    {
        let ca = a.get_char(i);
        let cb = b.get_char(i);
        assert(a@.skip(i as int)[0] == ca);
        assert(b@.skip(i as int)[0] == cb);
        if ca != cb {
            return (ca as u32) < (cb as u32);
        }
        assert(a@.skip(i as int).drop_first() =~= a@.skip(i + 1));
        assert(b@.skip(i as int).drop_first() =~= b@.skip(i + 1));
        i = i + 1;
    }
    i == n && i < m
}

pub open spec fn names_view(v: Seq<String>) -> Seq<Seq<char>> {
    v.map_values(|s: String| s@)
}

/// Strictly increasing in [`lex_lt`] order.
pub open spec fn strictly_sorted(v: Seq<Seq<char>>) -> bool {
    forall|x: int, y: int| 0 <= x < y < v.len() ==> lex_lt(#[trigger] v[x], #[trigger] v[y])
}

/// Insert `name` into the strictly sorted `ids` unless it is there.
fn insert_sorted(ids: &mut Vec<String>, name: String)
    requires
        strictly_sorted(names_view(old(ids)@)),
    ensures
        strictly_sorted(names_view(final(ids)@)),
        forall|s: Seq<char>| names_view(final(ids)@).contains(s) <==> (names_view(old(ids)@).contains(s) || s == name@),
{
    let ghost v = names_view(ids@);
    let mut p: usize = 0;
    while p < ids.len()
        invariant
            v == names_view(ids@),
            strictly_sorted(v),
            p <= ids.len(),
            forall|x: int| 0 <= x < p ==> lex_lt(#[trigger] v[x], name@),
        ensures
            v == names_view(ids@),
            p <= ids.len(),
            forall|x: int| 0 <= x < p ==> lex_lt(#[trigger] v[x], name@),
            p < ids.len() ==> !lex_lt(v[p as int], name@),
        decreases ids.len() - p,
    {
        if !str_lt(ids[p].as_str(), name.as_str()) {
            break;
        }
        p = p + 1;
    }
    if p < ids.len() && str_is(ids[p].as_str(), name.as_str()) {
        assert(v[p as int] == name@);
        assert forall|s: Seq<char>| names_view(ids@).contains(s) <==> (v.contains(s) || s == name@) by {
            if s == name@ {
                assert(v[p as int] == s);
            }
        }
        return;
    }
    proof {
        if p < v.len() {
            lemma_lex_total(v[p as int], name@);
        }
    }
    let ghost n = name@;
    ids.insert(p, name);
    let ghost w = names_view(ids@);
    assert(w =~= v.insert(p as int, n));
    assert forall|x: int, y: int| 0 <= x < y < w.len() implies lex_lt(#[trigger] w[x], #[trigger] w[y]) by {
        if y < p {
        } else if y == p {
            assert(w[x] == v[x]);
        } else if x < p {
            assert(w[y] == v[y - 1]);
            if p < v.len() {
                assert(lex_lt(n, v[p as int]));
                if y - 1 > p {
                    lemma_lex_transitive(n, v[p as int], v[y - 1]);
                }
                lemma_lex_transitive(v[x], n, v[y - 1]);
            }
        } else if x == p {
            assert(w[y] == v[y - 1]);
            assert(lex_lt(n, v[p as int]));
            if y - 1 > p {
                lemma_lex_transitive(n, v[p as int], v[y - 1]);
            }
        } else {
            assert(w[x] == v[x - 1]);
            assert(w[y] == v[y - 1]);
        }
    }
    assert forall|s: Seq<char>| w.contains(s) <==> (v.contains(s) || s == n) by {
        if w.contains(s) {
            let i = choose|i: int| 0 <= i < w.len() && w[i] == s;
            if i < p {
                assert(v[i] == s);
            } else if i > p {
                assert(v[i - 1] == s);
            }
        }
        if v.contains(s) {
            let i = choose|i: int| 0 <= i < v.len() && v[i] == s;
            if i < p {
                assert(w[i] == s);
            } else {
                assert(w[i + 1] == s);
            }
        }
        if s == n {
            assert(w[p as int] == s);
        }
    }
}

impl Codegen {
    /// The normalized virtual-interface type node `i` spells, if any.
    pub open spec fn vi_type_of(&self, i: int) -> Option<Seq<char>> {
        match self.vi_spelling(i) {
            Some(s) => Some(strip_white(vi_identity(s))),
            None => None,
        }
    }

    /// Whether one of the first `n` nodes spells virtual-interface type `id`.
    pub open spec fn spells_vi_type_before(&self, id: Seq<char>, n: int) -> bool {
        exists|i: int| 0 <= i < n && #[trigger] self.vi_type_of(i) == Some(id)
    }

    pub open spec fn spells_vi_type(&self, id: Seq<char>) -> bool {
        self.spells_vi_type_before(id, self.len())
    }

    /// Every virtual-interface type the design spells, each once, in
    /// `String` order.
    pub fn spelled_virtual_interface_types(&self) -> (r: Vec<String>)
        requires
            self.wf(),
        ensures
            strictly_sorted(names_view(r@)),
            forall|s: Seq<char>| names_view(r@).contains(s) <==> self.spells_vi_type(s),
    {
        let mut ids: Vec<String> = Vec::new();
        let mut i: usize = 0;
        while i < self.nodes.len()
            invariant
                self.wf(),
                i <= self.nodes.len(),
                strictly_sorted(names_view(ids@)),
                forall|s: Seq<char>| names_view(ids@).contains(s) <==> self.spells_vi_type_before(s, i as int),
            decreases self.nodes.len() - i,
        {
            let ghost before = names_view(ids@);
            assert forall|s: Seq<char>| before.contains(s) <==> self.spells_vi_type_before(s, i as int) by {}
            match self.virtual_interface_spelling(i) {
                Some(spelling) => {
                    let id = Self::normalize_virtual_interface_identity(
                        Self::virtual_interface_identity_from_spelling(spelling.as_str()).as_str());
                    let ghost idv = id@;
                    assert(self.vi_type_of(i as int) == Some(idv));
                    insert_sorted(&mut ids, id);
                    assert forall|s: Seq<char>| names_view(ids@).contains(s) <==> self.spells_vi_type_before(s, i + 1) by {
                        if self.spells_vi_type_before(s, i + 1) {
                            let w = choose|w: int| 0 <= w < i + 1 && #[trigger] self.vi_type_of(w) == Some(s);
                            if w < i {
                                assert(self.spells_vi_type_before(s, i as int));
                            }
                        }
                        if s == idv {
                            assert(self.vi_type_of(i as int) == Some(s));
                        }
                        if before.contains(s) {
                            let w = choose|w: int| 0 <= w < i && #[trigger] self.vi_type_of(w) == Some(s);
                            assert(self.vi_type_of(w) == Some(s));
                        }
                    }
                },
                None => {
                    assert forall|s: Seq<char>| names_view(ids@).contains(s) <==> self.spells_vi_type_before(s, i + 1) by {
                        if self.spells_vi_type_before(s, i + 1) {
                            let w = choose|w: int| 0 <= w < i + 1 && #[trigger] self.vi_type_of(w) == Some(s);
                            if w < i {
                                assert(self.spells_vi_type_before(s, i as int));
                            }
                        }
                        if before.contains(s) {
                            let w = choose|w: int| 0 <= w < i && #[trigger] self.vi_type_of(w) == Some(s);
                            assert(self.vi_type_of(w) == Some(s));
                        }
                    }
                },
            }
            i = i + 1;
        }
        ids
    }
}

pub open spec fn quads(v: Seq<(usize, String, String, Direction)>) -> Seq<(usize, Seq<char>, Seq<char>, Direction)> {
    v.map_values(|e: (usize, String, String, Direction)| (e.0, e.1@, e.2@, e.3))
}

pub open spec fn tagged_pairs(v: Seq<(usize, String, String)>) -> Seq<(usize, Seq<char>, Seq<char>)> {
    v.map_values(|e: (usize, String, String)| (e.0, e.1@, e.2@))
}

pub open spec fn tag_members(d: usize, items: Seq<(Seq<char>, Seq<char>, Direction)>) -> Seq<(usize, Seq<char>, Seq<char>, Direction)> {
    items.map_values(|e: (Seq<char>, Seq<char>, Direction)| (d, e.0, e.1, e.2))
}

pub open spec fn tag_methods(d: usize, items: Seq<(Seq<char>, Seq<char>)>) -> Seq<(usize, Seq<char>, Seq<char>)> {
    items.map_values(|e: (Seq<char>, Seq<char>)| (d, e.0, e.1))
}

/// The view items of descriptors `built`, the first of which gets number
/// `start`.
pub open spec fn built_view_members(built: Seq<VirtualInterfaceDescriptor>, start: int) -> Seq<(usize, Seq<char>, Seq<char>, Direction)>
    decreases built.len(),
{
    if built.len() == 0 {
        seq![]
    } else {
        built_view_members(built.drop_last(), start)
            + tag_members((start + built.len() - 1) as usize, triples(built.last().view_members@))
    }
}

pub open spec fn built_view_methods(built: Seq<VirtualInterfaceDescriptor>, start: int) -> Seq<(usize, Seq<char>, Seq<char>)>
    decreases built.len(),
{
    if built.len() == 0 {
        seq![]
    } else {
        built_view_methods(built.drop_last(), start)
            + tag_methods((start + built.len() - 1) as usize, pairs(built.last().view_methods@))
    }
}

impl Codegen {
    /// Whether `d` is the descriptor of type `id` with its concrete
    /// instances and view items.
    pub open spec fn descriptor_ok(&self, d: VirtualInterfaceDescriptor, id: Seq<char>) -> bool {
        &&& self.vif_ok(d.vif, id)
        &&& d.concrete@ == self.concrete_interfaces(id, self.len())
        &&& triples(d.view_members@) == self.all_view_members(self.metadata_interfaces(id))
        &&& pairs(d.view_methods@) == self.all_view_methods(self.metadata_interfaces(id))
    }

    /// The view items of the descriptors of types `ids`, the first of which
    /// gets number `start`.
    pub open spec fn descriptor_view_members(&self, ids: Seq<Seq<char>>, start: int) -> Seq<(usize, Seq<char>, Seq<char>, Direction)>
        decreases ids.len(),
    {
        if ids.len() == 0 {
            seq![]
        } else {
            self.descriptor_view_members(ids.drop_last(), start)
                + tag_members((start + ids.len() - 1) as usize, self.all_view_members(self.metadata_interfaces(ids.last())))
        }
    }

    pub open spec fn descriptor_view_methods(&self, ids: Seq<Seq<char>>, start: int) -> Seq<(usize, Seq<char>, Seq<char>)>
        decreases ids.len(),
    {
        if ids.len() == 0 {
            seq![]
        } else {
            self.descriptor_view_methods(ids.drop_last(), start)
                + tag_methods((start + ids.len() - 1) as usize, self.all_view_methods(self.metadata_interfaces(ids.last())))
        }
    }

    /// The concrete instances of a type are interface instances of that
    /// identity, in increasing node order.
    pub proof fn lemma_concrete_interfaces(&self, id: Seq<char>, n: int)
        requires
            n <= self.len(),
        ensures
            forall|x: int| 0 <= x < self.concrete_interfaces(id, n).len() ==> {
                let c = #[trigger] self.concrete_interfaces(id, n)[x];
                &&& self.is_interface_instance(c as int)
                &&& self.in_design(c as int)
                &&& self.concrete_identity(c as int) == Some(id)
                &&& c < n
            },
            forall|x: int, y: int| 0 <= x < y < self.concrete_interfaces(id, n).len() ==>
                #[trigger] self.concrete_interfaces(id, n)[x] < #[trigger] self.concrete_interfaces(id, n)[y],
        decreases n,
    {
        if n > 0 {
            self.lemma_concrete_interfaces(id, n - 1);
            let prev = self.concrete_interfaces(id, n - 1);
            let cur = self.concrete_interfaces(id, n);
            assert forall|x: int| 0 <= x < cur.len() implies {
                let c = #[trigger] cur[x];
                &&& self.is_interface_instance(c as int)
                &&& self.in_design(c as int)
                &&& self.concrete_identity(c as int) == Some(id)
                &&& c < n
            } by {
                if x < prev.len() {
                    assert(cur[x] == prev[x]);
                }
            }
            assert forall|x: int, y: int| 0 <= x < y < cur.len() implies #[trigger] cur[x] < #[trigger] cur[y] by {
                if y < prev.len() {
                    assert(cur[x] == prev[x] && cur[y] == prev[y]);
                } else {
                    assert(cur[x] == prev[x]);
                }
            }
        }
    }

    proof fn lemma_built_views(&self, built: Seq<VirtualInterfaceDescriptor>, ids: Seq<Seq<char>>, start: int)
        requires
            built.len() == ids.len(),
            forall|x: int| 0 <= x < built.len() ==> self.descriptor_ok(#[trigger] built[x], ids[x]),
        ensures
            built_view_members(built, start) == self.descriptor_view_members(ids, start),
            built_view_methods(built, start) == self.descriptor_view_methods(ids, start),
        decreases built.len(),
    {
        if built.len() > 0 {
            assert(self.descriptor_ok(built[built.len() - 1], ids[ids.len() - 1]));
            self.lemma_built_views(built.drop_last(), ids.drop_last(), start);
        }
    }

    fn build_virtual_interface_descriptors(&self, ids: &Vec<String>) -> (r: (Vec<VirtualInterfaceDescriptor>, Option<String>))
        requires
            self.wf(),
        ensures
            r.0@.len() <= ids@.len(),
            forall|x: int| 0 <= x < r.0@.len() ==> self.descriptor_ok(#[trigger] r.0@[x], ids@[x]@),
            forall|x: int| 0 <= x < r.0@.len() ==> first_unreachable(self.vi_members(#[trigger] ids@[x]@)) is None,
            r.1 is None <==> r.0@.len() == ids@.len(),
            r.1 matches Some(e) ==> (first_unreachable(self.vi_members(ids@[r.0@.len() as int]@)) matches Some(i)
                && e@ == unreachable_member_message(self.vi_members(ids@[r.0@.len() as int]@)[i].0)),
    {
        let mut built: Vec<VirtualInterfaceDescriptor> = Vec::new();
        let mut k: usize = 0;
        while k < ids.len()
            invariant
                self.wf(),
                k <= ids.len(),
                built@.len() == k,
                forall|x: int| 0 <= x < k ==> self.descriptor_ok(#[trigger] built@[x], ids@[x]@),
                forall|x: int| 0 <= x < k ==> first_unreachable(self.vi_members(#[trigger] ids@[x]@)) is None,
            decreases ids.len() - k,
        {
            match self.virtual_interface_descriptor(ids[k].as_str()) {
                Ok(d) => built.push(d),
                Err(e) => return (built, Some(e)),
            }
            k = k + 1;
        }
        (built, None)
    }

    fn install_virtual_interface_descriptors(&mut self, built: Vec<VirtualInterfaceDescriptor>)
        requires
            old(self).wf(),
            forall|x: int, j: int| 0 <= x < built@.len() && 0 <= j < built@[x].concrete@.len()
                ==> #[trigger] built@[x].concrete@[j] < old(self).nodes.len(),
            forall|x1: int, j1: int, x2: int, j2: int|
                0 <= x1 < built@.len() && 0 <= j1 < built@[x1].concrete@.len()
                && 0 <= x2 < built@.len() && 0 <= j2 < built@[x2].concrete@.len() && (x1 != x2 || j1 != j2)
                ==> #[trigger] built@[x1].concrete@[j1] != #[trigger] built@[x2].concrete@[j2],
        ensures
            final(self).wf(),
            *final(self) == (Codegen {
                model: IrModel { virtual_interfaces: final(self).model.virtual_interfaces, ..old(self).model },
                virtual_interface_instances: final(self).virtual_interface_instances,
                virtual_interface_view_members: final(self).virtual_interface_view_members,
                virtual_interface_view_methods: final(self).virtual_interface_view_methods,
                ..*old(self)
            }),
            final(self).model.virtual_interfaces@ == old(self).model.virtual_interfaces@
                + built@.map_values(|d: VirtualInterfaceDescriptor| d.vif),
            quads(final(self).virtual_interface_view_members@) == quads(old(self).virtual_interface_view_members@)
                + built_view_members(built@, old(self).model.virtual_interfaces@.len() as int),
            tagged_pairs(final(self).virtual_interface_view_methods@) == tagged_pairs(old(self).virtual_interface_view_methods@)
                + built_view_methods(built@, old(self).model.virtual_interfaces@.len() as int),
            forall|x: int, j: int| 0 <= x < built@.len() && 0 <= j < built@[x].concrete@.len() ==>
                final(self).virtual_interface_instances@[#[trigger] built@[x].concrete@[j] as int]
                    == Some(((old(self).model.virtual_interfaces@.len() + x) as usize, j as usize)),
            forall|i: int| 0 <= i < old(self).nodes.len()
                && (forall|x: int, j: int| 0 <= x < built@.len() && 0 <= j < built@[x].concrete@.len()
                    ==> #[trigger] built@[x].concrete@[j] != i)
                ==> final(self).virtual_interface_instances@[i] == old(self).virtual_interface_instances@[i],
    {
        let ghost orig = *self;
        let ghost bs = built@;
        let ghost start = self.model.virtual_interfaces@.len() as int;
        let mut built = built;
        let mut x: usize = 0;
        assert(bs.len() == built.len());
        assert(bs.skip(0) =~= bs);
        assert(bs.take(0).map_values(|d: VirtualInterfaceDescriptor| d.vif) =~= seq![]);
        assert(quads(self.virtual_interface_view_members@) + seq![] =~= quads(self.virtual_interface_view_members@));
        assert(tagged_pairs(self.virtual_interface_view_methods@) + seq![] =~= tagged_pairs(self.virtual_interface_view_methods@));
        assert(self.model.virtual_interfaces@ + seq![] =~= self.model.virtual_interfaces@);
        while built.len() > 0
            invariant
                built@ == bs.skip(x as int),
                x <= bs.len(),
                bs.len() <= usize::MAX,
                self.wf(),
                start == orig.model.virtual_interfaces@.len(),
                *self == (Codegen {
                    model: IrModel { virtual_interfaces: self.model.virtual_interfaces, ..orig.model },
                    virtual_interface_instances: self.virtual_interface_instances,
                    virtual_interface_view_members: self.virtual_interface_view_members,
                    virtual_interface_view_methods: self.virtual_interface_view_methods,
                    ..orig
                }),
                self.model.virtual_interfaces@ == orig.model.virtual_interfaces@
                    + bs.take(x as int).map_values(|d: VirtualInterfaceDescriptor| d.vif),
                quads(self.virtual_interface_view_members@) == quads(orig.virtual_interface_view_members@)
                    + built_view_members(bs.take(x as int), start),
                tagged_pairs(self.virtual_interface_view_methods@) == tagged_pairs(orig.virtual_interface_view_methods@)
                    + built_view_methods(bs.take(x as int), start),
                forall|y: int, j: int| 0 <= y < bs.len() && 0 <= j < bs[y].concrete@.len()
                    ==> #[trigger] bs[y].concrete@[j] < orig.nodes.len(),
                forall|x1: int, j1: int, x2: int, j2: int|
                    0 <= x1 < bs.len() && 0 <= j1 < bs[x1].concrete@.len()
                    && 0 <= x2 < bs.len() && 0 <= j2 < bs[x2].concrete@.len() && (x1 != x2 || j1 != j2)
                    ==> #[trigger] bs[x1].concrete@[j1] != #[trigger] bs[x2].concrete@[j2],
                forall|y: int, j: int| 0 <= y < x && 0 <= j < bs[y].concrete@.len() ==>
                    self.virtual_interface_instances@[#[trigger] bs[y].concrete@[j] as int]
                        == Some(((start + y) as usize, j as usize)),
                forall|i: int| 0 <= i < orig.nodes.len()
                    && (forall|y: int, j: int| 0 <= y < x && 0 <= j < bs[y].concrete@.len()
                        ==> #[trigger] bs[y].concrete@[j] != i)
                    ==> self.virtual_interface_instances@[i] == orig.virtual_interface_instances@[i],
            decreases built.len(),
        {
            assert(built@[0] == bs[x as int]);
            let d = built.remove(0);
            assert(built@ =~= bs.skip(x + 1));
            let VirtualInterfaceDescriptor { vif, concrete, view_members, view_methods } = d;
            let desc = self.model.virtual_interfaces.len();
            assert(desc == start + x);
            let ghost vm0 = quads(self.virtual_interface_view_members@);
            let ghost pre = *self;
            let mut t: usize = 0;
            while t < view_members.len()
                invariant
                    *self == (Codegen { virtual_interface_view_members: self.virtual_interface_view_members, ..pre }),
                    t <= view_members.len(),
                    quads(self.virtual_interface_view_members@) == vm0
                        + tag_members(desc, triples(view_members@)).take(t as int),
                decreases view_members.len() - t,
            {
                let e = (desc, view_members[t].0.clone(), view_members[t].1.clone(), view_members[t].2);
                let ghost before = self.virtual_interface_view_members@;
                self.virtual_interface_view_members.push(e);
                assert(quads(self.virtual_interface_view_members@) =~= quads(before).push((e.0, e.1@, e.2@, e.3)));
                assert(tag_members(desc, triples(view_members@)).take(t + 1)
                    =~= tag_members(desc, triples(view_members@)).take(t as int).push((e.0, e.1@, e.2@, e.3)));
                t = t + 1;
            }
            assert(tag_members(desc, triples(view_members@)).take(view_members@.len() as int)
                =~= tag_members(desc, triples(view_members@)));
            let ghost vf0 = tagged_pairs(self.virtual_interface_view_methods@);
            let ghost pre = *self;
            let mut t: usize = 0;
            while t < view_methods.len()
                invariant
                    *self == (Codegen { virtual_interface_view_methods: self.virtual_interface_view_methods, ..pre }),
                    t <= view_methods.len(),
                    tagged_pairs(self.virtual_interface_view_methods@) == vf0
                        + tag_methods(desc, pairs(view_methods@)).take(t as int),
                decreases view_methods.len() - t,
            {
                let e = (desc, view_methods[t].0.clone(), view_methods[t].1.clone());
                let ghost before = self.virtual_interface_view_methods@;
                self.virtual_interface_view_methods.push(e);
                assert(tagged_pairs(self.virtual_interface_view_methods@) =~= tagged_pairs(before).push((e.0, e.1@, e.2@)));
                assert(tag_methods(desc, pairs(view_methods@)).take(t + 1)
                    =~= tag_methods(desc, pairs(view_methods@)).take(t as int).push((e.0, e.1@, e.2@)));
                t = t + 1;
            }
            assert(tag_methods(desc, pairs(view_methods@)).take(view_methods@.len() as int)
                =~= tag_methods(desc, pairs(view_methods@)));
            let ghost inst0 = self.virtual_interface_instances@;
            let ghost pre = *self;
            assert(self.nodes == orig.nodes);
            let mut j: usize = 0;
            while j < concrete.len()
                invariant
                    *self == (Codegen { virtual_interface_instances: self.virtual_interface_instances, ..pre }),
                    concrete@ == bs[x as int].concrete@,
                    x < bs.len(),
                    j <= concrete.len(),
                    self.virtual_interface_instances@.len() == inst0.len(),
                    inst0.len() == orig.nodes.len(),
                    forall|y: int, k: int| 0 <= y < bs.len() && 0 <= k < bs[y].concrete@.len()
                        ==> #[trigger] bs[y].concrete@[k] < orig.nodes.len(),
                    forall|k: int| 0 <= k < j ==>
                        self.virtual_interface_instances@[#[trigger] concrete@[k] as int] == Some((desc, k as usize)),
                    forall|i: int| 0 <= i < inst0.len() && (forall|k: int| 0 <= k < j ==> #[trigger] concrete@[k] != i)
                        ==> self.virtual_interface_instances@[i] == inst0[i],
                    forall|k1: int, k2: int| 0 <= k1 < k2 < concrete@.len() ==> #[trigger] concrete@[k1] != #[trigger] concrete@[k2],
                decreases concrete.len() - j,
            {
                assert(bs[x as int].concrete@[j as int] < orig.nodes.len());
                self.virtual_interface_instances.set(concrete[j], Some((desc, j)));
                j = j + 1;
            }
            self.model.virtual_interfaces.push(vif);
            proof {
                assert(bs.take(x + 1).drop_last() =~= bs.take(x as int));
                assert(bs.take(x + 1).last() == bs[x as int]);
                assert(self.model.virtual_interfaces@ =~= orig.model.virtual_interfaces@
                    + bs.take(x + 1).map_values(|d: VirtualInterfaceDescriptor| d.vif));
            }
            x = x + 1;
        }
        assert(bs.take(x as int) =~= bs);
    }
}

impl Codegen {
    /// Whether `after` holds, past the descriptors already in `self`'s
    /// model, exactly one descriptor for each virtual-interface type the
    /// design spells, in `String` order of the types, with the view items
    /// of each and every concrete interface instance bound to its
    /// descriptor and environment.
    pub open spec fn vi_collection_ok(&self, after: Codegen) -> bool {
        let start = self.model.virtual_interfaces@.len() as int;
        let ds = after.model.virtual_interfaces@;
        let ids = ds.skip(start).map_values(|d: IrVirtualInterface| d.identity@);
        &&& ds.len() >= start
        &&& ds.take(start) == self.model.virtual_interfaces@
        &&& strictly_sorted(ids)
        &&& forall|s: Seq<char>| ids.contains(s) <==> self.spells_vi_type(s)
        &&& forall|k: int| 0 <= k < ids.len() ==> self.vif_ok(#[trigger] ds[start + k], ids[k])
        &&& quads(after.virtual_interface_view_members@) == quads(self.virtual_interface_view_members@)
            + self.descriptor_view_members(ids, start)
        &&& tagged_pairs(after.virtual_interface_view_methods@) == tagged_pairs(self.virtual_interface_view_methods@)
            + self.descriptor_view_methods(ids, start)
        &&& forall|k: int, j: int| 0 <= k < ids.len() && 0 <= j < self.concrete_interfaces(ids[k], self.len()).len() ==>
            after.virtual_interface_instances@[#[trigger] self.concrete_interfaces(ids[k], self.len())[j] as int]
                == Some(((start + k) as usize, j as usize))
        &&& forall|i: int| 0 <= i < self.len()
            && !(self.is_interface_instance(i) && self.in_design(i)
                && (self.concrete_identity(i) matches Some(c) && self.spells_vi_type(c)))
            ==> after.virtual_interface_instances@[i] == self.virtual_interface_instances@[i]
    }

    /// Build one descriptor for each virtual-interface type the design
    /// spells, in `String` order of the types, record the members and
    /// methods of its modport views, and bind every concrete interface
    /// instance to its descriptor and environment. Refused at the first type
    /// (in that order) one of whose members is not a packed signal within
    /// the runtime width limit.
    pub fn collect_virtual_interfaces(&mut self) -> (r: Result<(), String>)
        requires
            old(self).wf(),
        ensures
            final(self).wf(),
            *final(self) == (Codegen {
                model: IrModel { virtual_interfaces: final(self).model.virtual_interfaces, ..old(self).model },
                virtual_interface_instances: final(self).virtual_interface_instances,
                virtual_interface_view_members: final(self).virtual_interface_view_members,
                virtual_interface_view_methods: final(self).virtual_interface_view_methods,
                virtual_interface_types: final(self).virtual_interface_types,
                ..*old(self)
            }),
            type_pairs(final(self).virtual_interface_types@) == type_pairs(old(self).virtual_interface_types@)
                + new_type_entries(final(self).model.virtual_interfaces@, old(self).model.virtual_interfaces@.len() as int),
            r is Err <==> exists|s: Seq<char>| old(self).spells_vi_type(s)
                && #[trigger] first_unreachable(old(self).vi_members(s)) is Some,
            r matches Err(e) ==> exists|s: Seq<char>| {
                &&& old(self).spells_vi_type(s)
                &&& #[trigger] first_unreachable(old(self).vi_members(s)) matches Some(i)
                    && e@ == unreachable_member_message(old(self).vi_members(s)[i].0)
                &&& forall|t: Seq<char>| old(self).spells_vi_type(t) && lex_lt(t, s)
                    ==> #[trigger] first_unreachable(old(self).vi_members(t)) is None
            },
            r is Ok ==> old(self).vi_collection_ok(*final(self)),
    {
        let ghost orig = *self;
        let ids = self.spelled_virtual_interface_types();
        let ghost iv = names_view(ids@);
        let (built, failure) = self.build_virtual_interface_descriptors(&ids);
        let ghost bs = built@;
        proof {
            assert forall|x: int, j: int| 0 <= x < bs.len() && 0 <= j < bs[x].concrete@.len()
                implies #[trigger] bs[x].concrete@[j] < orig.nodes.len() by {
                assert(self.descriptor_ok(bs[x], ids@[x]@));
                self.lemma_concrete_interfaces(ids@[x]@, self.len());
                assert(bs[x].concrete@[j] == self.concrete_interfaces(ids@[x]@, self.len())[j]);
            }
            assert forall|x1: int, j1: int, x2: int, j2: int|
                0 <= x1 < bs.len() && 0 <= j1 < bs[x1].concrete@.len()
                && 0 <= x2 < bs.len() && 0 <= j2 < bs[x2].concrete@.len() && (x1 != x2 || j1 != j2)
                implies #[trigger] bs[x1].concrete@[j1] != #[trigger] bs[x2].concrete@[j2] by {
                assert(self.descriptor_ok(bs[x1], ids@[x1]@));
                assert(self.descriptor_ok(bs[x2], ids@[x2]@));
                self.lemma_concrete_interfaces(ids@[x1]@, self.len());
                self.lemma_concrete_interfaces(ids@[x2]@, self.len());
                let c1 = self.concrete_interfaces(ids@[x1]@, self.len());
                let c2 = self.concrete_interfaces(ids@[x2]@, self.len());
                assert(bs[x1].concrete@[j1] == c1[j1]);
                assert(bs[x2].concrete@[j2] == c2[j2]);
                if x1 != x2 {
                    assert(iv[x1] == ids@[x1]@ && iv[x2] == ids@[x2]@);
                    if x1 < x2 {
                        assert(lex_lt(iv[x1], iv[x2]));
                    } else {
                        assert(lex_lt(iv[x2], iv[x1]));
                    }
                    lemma_lex_irreflexive(iv[x1]);
                    assert(iv[x1] != iv[x2]);
                    assert(self.concrete_identity(c1[j1] as int) == Some(iv[x1]));
                    assert(self.concrete_identity(c2[j2] as int) == Some(iv[x2]));
                } else if j1 < j2 {
                    assert(c1[j1] < c1[j2]);
                } else {
                    assert(c1[j2] < c1[j1]);
                }
            }
        }
        let first: usize = self.model.virtual_interfaces.len();
        self.install_virtual_interface_descriptors(built);
        let ghost start = orig.model.virtual_interfaces@.len() as int;
        self.record_virtual_interface_types(first);
        proof {
            let ds = self.model.virtual_interfaces@;
            let dv = ds.skip(start).map_values(|d: IrVirtualInterface| d.identity@);
            assert(ds.skip(start) =~= bs.map_values(|d: VirtualInterfaceDescriptor| d.vif));
            assert(ds.take(start) =~= orig.model.virtual_interfaces@);
            assert forall|k: int| 0 <= k < bs.len() implies dv[k] == iv[k] by {
                assert(orig.descriptor_ok(bs[k], ids@[k]@));
            }
            if failure is None {
                assert(dv =~= iv);
                orig.lemma_built_views(bs, iv, start);
                assert forall|k: int| 0 <= k < dv.len() implies orig.vif_ok(#[trigger] ds[start + k], dv[k]) by {
                    assert(orig.descriptor_ok(bs[k], ids@[k]@));
                    assert(ds[start + k] == bs[k].vif);
                }
                assert forall|k: int, j: int| 0 <= k < dv.len() && 0 <= j < orig.concrete_interfaces(dv[k], orig.len()).len()
                    implies self.virtual_interface_instances@[#[trigger] orig.concrete_interfaces(dv[k], orig.len())[j] as int]
                        == Some(((start + k) as usize, j as usize)) by {
                    assert(orig.descriptor_ok(bs[k], ids@[k]@));
                    assert(bs[k].concrete@[j] == orig.concrete_interfaces(dv[k], orig.len())[j]);
                }
                assert forall|i: int| 0 <= i < orig.len()
                    && !(orig.is_interface_instance(i) && orig.in_design(i)
                        && (orig.concrete_identity(i) matches Some(c) && orig.spells_vi_type(c)))
                    implies self.virtual_interface_instances@[i] == orig.virtual_interface_instances@[i] by {
                    assert forall|x: int, j: int| 0 <= x < bs.len() && 0 <= j < bs[x].concrete@.len()
                        implies #[trigger] bs[x].concrete@[j] != i by {
                        assert(orig.descriptor_ok(bs[x], ids@[x]@));
                        orig.lemma_concrete_interfaces(ids@[x]@, orig.len());
                        let c = orig.concrete_interfaces(ids@[x]@, orig.len());
                        assert(bs[x].concrete@[j] == c[j]);
                        assert(iv[x] == ids@[x]@);
                        assert(iv.contains(iv[x]));
                    }
                }
                assert forall|s: Seq<char>| orig.spells_vi_type(s) implies #[trigger] first_unreachable(orig.vi_members(s)) is None by {
                    assert(iv.contains(s));
                    let y = choose|y: int| 0 <= y < iv.len() && iv[y] == s;
                    assert(first_unreachable(orig.vi_members(ids@[y]@)) is None);
                }
            }
        }
        match failure {
            Some(e) => {
                proof {
                    let m = bs.len() as int;
                    let s = iv[m];
                    assert(iv.contains(s));
                    assert forall|t: Seq<char>| orig.spells_vi_type(t) && lex_lt(t, s)
                        implies #[trigger] first_unreachable(orig.vi_members(t)) is None by {
                        assert(iv.contains(t));
                        let y = choose|y: int| 0 <= y < iv.len() && iv[y] == t;
                        if y >= m {
                            if y == m {
                                lemma_lex_irreflexive(s);
                            } else {
                                assert(lex_lt(iv[m], iv[y]));
                                lemma_lex_total(s, t);
                            }
                        }
                        assert(first_unreachable(orig.vi_members(ids@[y]@)) is None);
                    }
                    assert(first_unreachable(orig.vi_members(s)) is Some);
                }
                Err(e)
            },
            None => Ok(()),
        }
    }
}

/// `(identity, descriptor)` pairs by value.
pub open spec fn type_pairs(s: Seq<(String, usize)>) -> Seq<(Seq<char>, usize)> {
    s.map_values(|p: (String, usize)| (p.0@, p.1))
}

/// The table entries of the descriptors from `start` on: each identity with
/// its descriptor's index.
pub open spec fn new_type_entries(ds: Seq<IrVirtualInterface>, start: int) -> Seq<(Seq<char>, usize)> {
    Seq::new((ds.len() - start) as nat, |k: int| (ds[start + k].identity@, (start + k) as usize))
}

impl Codegen {
    /// Record each descriptor from `start` on under its identity.
    fn record_virtual_interface_types(&mut self, start: usize)
        requires
            start <= old(self).model.virtual_interfaces.len(),
        ensures
            *final(self) == (Codegen { virtual_interface_types: final(self).virtual_interface_types, ..*old(self) }),
            type_pairs(final(self).virtual_interface_types@) == type_pairs(old(self).virtual_interface_types@)
                + new_type_entries(old(self).model.virtual_interfaces@, start as int),
    {
        let mut k = start;
        let ghost ds = self.model.virtual_interfaces@;
        assert(new_type_entries(ds.take(k as int), start as int) =~= Seq::<(Seq<char>, usize)>::empty());
        assert(type_pairs(self.virtual_interface_types@) =~= type_pairs(old(self).virtual_interface_types@)
            + new_type_entries(ds.take(k as int), start as int));
        while k < self.model.virtual_interfaces.len()
            invariant
                start <= k <= self.model.virtual_interfaces.len(),
                ds == self.model.virtual_interfaces@,
                *self == (Codegen { virtual_interface_types: self.virtual_interface_types, ..*old(self) }),
                type_pairs(self.virtual_interface_types@) == type_pairs(old(self).virtual_interface_types@)
                    + new_type_entries(ds.take(k as int), start as int),
            decreases self.model.virtual_interfaces.len() - k,
        {
            let id = String::from_str(self.model.virtual_interfaces[k].identity.as_str());
            assert(id@ == ds[k as int].identity@);
            let ghost before = self.virtual_interface_types@;
            self.virtual_interface_types.push((id, k));
            assert(type_pairs(self.virtual_interface_types@) =~= type_pairs(before).push((ds[k as int].identity@, k)));
            assert(new_type_entries(ds.take(k + 1), start as int) =~= new_type_entries(ds.take(k as int), start as int)
                .push((ds[k as int].identity@, k)));
            k = k + 1;
            assert(type_pairs(self.virtual_interface_types@) =~= type_pairs(old(self).virtual_interface_types@)
                + new_type_entries(ds.take(k as int), start as int));
        }
        assert(ds.take(k as int) =~= ds);
    }
}

} // verus!
