//! Storage of procedural declarations: C locals of an activation, hidden
//! static signals, and model objects for static mailboxes, process handles
//! and semaphores.

use vstd::prelude::*;
use vstd::string::StringExecFns;
use crate::codegen::Codegen;
use crate::design::{
    NodeKind, StmtKind, TypeKind, TypeInfo, VariableLifetime, ProcLocalInfo, IrObject, IrObjectType,
    IrSignal, SignalInfo, IrModel, is_real_kind, is_two_state_kind, real_kind, two_state_kind,
};
use crate::text::{str_is, prefixed_number, two_numbers, decimal};

verus! {

pub open spec fn mailbox_label() -> Seq<char> {
    seq!['m', 'a', 'i', 'l', 'b', 'o', 'x']
}

pub open spec fn process_label() -> Seq<char> {
    seq!['p', 'r', 'o', 'c', 'e', 's', 's']
}

pub open spec fn semaphore_label() -> Seq<char> {
    seq!['s', 'e', 'm', 'a', 'p', 'h', 'o', 'r', 'e']
}

/// A class type whose declared class is `label`.
pub open spec fn is_class_type(ty: TypeInfo, label: Seq<char>) -> bool {
    ty.kind is Class && (ty.type_label matches Some(s) && s@ == label)
}

pub fn class_named(ty: &TypeInfo, label: &str) -> (r: bool)
    ensures
        r == is_class_type(*ty, label@),
{
    match &ty.kind {
        TypeKind::Class => match &ty.type_label {
            Some(s) => str_is(s.as_str(), label),
            None => false,
        },
        _ => false,
    }
}

/// C name of an automatic loop or string iterator: `_lv<node>`.
pub open spec fn loop_local_name(node: usize) -> Seq<char> {
    seq!['_', 'l', 'v'] + decimal(node as nat)
}

/// C name of an automatic mailbox: `_lm<node>`.
pub open spec fn mailbox_local_name(node: usize) -> Seq<char> {
    seq!['_', 'l', 'm'] + decimal(node as nat)
}

/// C name of an automatic process handle: `_lp<node>`.
pub open spec fn process_local_name(node: usize) -> Seq<char> {
    seq!['_', 'l', 'p'] + decimal(node as nat)
}

/// C name of an automatic semaphore: `_ls<node>`.
pub open spec fn semaphore_local_name(node: usize) -> Seq<char> {
    seq!['_', 'l', 's'] + decimal(node as nat)
}

/// Model object name of a static mailbox: `O_M<inst>_L<node>`.
pub open spec fn mailbox_object_name(inst: usize, node: usize) -> Seq<char> {
    seq!['O', '_', 'M'] + decimal(inst as nat) + seq!['_', 'L'] + decimal(node as nat)
}

/// Model object name of a static process handle: `O_P<inst>_L<node>`.
pub open spec fn process_object_name(inst: usize, node: usize) -> Seq<char> {
    seq!['O', '_', 'P'] + decimal(inst as nat) + seq!['_', 'L'] + decimal(node as nat)
}

/// Model object name of a static semaphore: `O_P<inst>_S<node>`.
pub open spec fn semaphore_object_name(inst: usize, node: usize) -> Seq<char> {
    seq!['O', '_', 'P'] + decimal(inst as nat) + seq!['_', 'S'] + decimal(node as nat)
}

/// Hidden signal of a static procedural variable: `_ls<inst>_<node>`.
pub open spec fn static_local_name(inst: usize, node: usize) -> Seq<char> {
    seq!['_', 'l', 's'] + decimal(inst as nat) + seq!['_'] + decimal(node as nat)
}

/// The object registered last for `(inst, node)`.
pub open spec fn object_lookup(entries: Seq<(usize, usize, usize)>, inst: usize, node: usize) -> Option<usize>
    decreases entries.len(),
{
    if entries.len() == 0 {
        None
    } else {
        let e = entries.last();
        if e.0 == inst && e.1 == node {
            Some(e.2)
        } else {
            object_lookup(entries.drop_last(), inst, node)
        }
    }
}

pub fn find_object(entries: &Vec<(usize, usize, usize)>, inst: usize, node: usize) -> (r: Option<usize>)
    ensures
        r == object_lookup(entries@, inst, node),
{
    let mut k = entries.len();
    assert(entries@.subrange(0, k as int) =~= entries@);
    while k > 0
        invariant
            k <= entries.len(),
            object_lookup(entries@, inst, node) == object_lookup(entries@.subrange(0, k as int), inst, node),
        decreases k,
    {
        assert(entries@.subrange(0, k as int).drop_last() =~= entries@.subrange(0, k - 1));
        let (a, b, c) = entries[k - 1];
        if a == inst && b == node {
            return Some(c);
        }
        k = k - 1;
    }
    None
}

/// The static local registered last for `(inst, node)`.
pub open spec fn local_lookup(entries: Seq<(usize, usize, ProcLocalInfo)>, inst: usize, node: usize) -> Option<ProcLocalInfo>
    decreases entries.len(),
{
    if entries.len() == 0 {
        None
    } else {
        let e = entries.last();
        if e.0 == inst && e.1 == node {
            Some(e.2)
        } else {
            local_lookup(entries.drop_last(), inst, node)
        }
    }
}

pub fn find_local(entries: &Vec<(usize, usize, ProcLocalInfo)>, inst: usize, node: usize) -> (r: Option<&ProcLocalInfo>)
    ensures
        r matches Some(info) ==> local_lookup(entries@, inst, node) == Some(*info),
        r is None ==> local_lookup(entries@, inst, node) is None,
{
    let mut k = entries.len();
    assert(entries@.subrange(0, k as int) =~= entries@);
    while k > 0
        invariant
            k <= entries.len(),
            local_lookup(entries@, inst, node) == local_lookup(entries@.subrange(0, k as int), inst, node),
        decreases k,
    {
        assert(entries@.subrange(0, k as int).drop_last() =~= entries@.subrange(0, k - 1));
        let e = &entries[k - 1];
        if e.0 == inst && e.1 == node {
            return Some(&e.2);
        }
        k = k - 1;
    }
    None
}

/// Where a procedural process handle lives.
pub enum ProcessTarget {
    Local(String),
    Object(usize),
}

/// Where a procedural chandle-like value (a semaphore) lives.
pub enum ChandleTarget {
    Local(String),
    Object(usize),
}

impl Codegen {
    /// A variable declaration of class `label`.
    pub open spec fn is_class_var(&self, i: int, label: Seq<char>) -> bool {
        self.kind(i) matches NodeKind::Var { ty } && is_class_type(ty, label)
    }

    pub fn class_var(&self, i: usize, label: &str) -> (r: bool)
        requires
            i < self.nodes.len(),
        ensures
            r == self.is_class_var(i as int, label@),
    {
        match &self.nodes[i].kind {
            NodeKind::Var { ty } => class_named(ty, label),
            _ => false,
        }
    }

    pub open spec fn is_string_var(&self, i: int) -> bool {
        self.kind(i) matches NodeKind::Var { ty } && ty.kind is String
    }

    pub open spec fn lifetime(&self, i: int) -> VariableLifetime {
        self.nodes@[i].lifetime
    }

    /// `<prefix><name of node>` in `<path>`<suffix>`.
    pub open spec fn path_text(&self, prefix: Seq<char>, node: int, path: Seq<char>, suffix: Seq<char>) -> Seq<char> {
        prefix + self.nodes@[node].name@ + "` in `"@ + path + "`"@ + suffix
    }

    /// `<prefix><name of node><middle><path>` closed by a backquote.
    pub open spec fn decl_text(&self, prefix: Seq<char>, node: int, middle: Seq<char>, path: Seq<char>) -> Seq<char> {
        prefix + self.nodes@[node].name@ + middle + path + "`"@
    }

    /// `<prefix><name of node><middle><path>`, with the path closed by a backquote.
    pub(crate) fn decl_message(&self, prefix: &str, node: usize, middle: &str, path: &str) -> (r: String)
        requires
            node < self.nodes.len(),
        ensures
            r@ == self.decl_text(prefix@, node as int, middle@, path@),
    {
        let mut m = String::from_str(prefix);
        m.append(self.nodes[node].name.as_str());
        m.append(middle);
        m.append(path);
        m.append("`");
        m
    }

    /// `<prefix><name of node>` in `<path>`<suffix>`.
    pub(crate) fn path_message(&self, prefix: &str, node: usize, path: &str, suffix: &str) -> (r: String)
        requires
            node < self.nodes.len(),
        ensures
            r@ == self.path_text(prefix@, node as int, path@, suffix@),
    {
        let mut m = String::from_str(prefix);
        m.append(self.nodes[node].name.as_str());
        m.append("` in `");
        m.append(path);
        m.append("`");
        m.append(suffix);
        m
    }

    /// `<prefix><name of node><suffix>`.
    pub(crate) fn named_message(&self, prefix: &str, node: usize, suffix: &str) -> (r: String)
        requires
            node < self.nodes.len(),
        ensures
            r@ == prefix@ + self.nodes@[node as int].name@ + suffix@,
    {
        let mut m = String::from_str(prefix);
        m.append(self.nodes[node].name.as_str());
        m.append(suffix);
        m
    }

    /// Register an automatic native-string foreach iterator under the
    /// declaration-derived name `_lv<node>`, so nested loop scopes cannot
    /// collide.
    pub fn collect_loop_string_var(&mut self, path: &str, node: usize) -> (r: Result<String, String>)
        requires
            old(self).wf(),
            node < old(self).nodes.len(),
        ensures
            final(self).wf(),
            old(self).proc_string_locals@[node as int] matches Some(name) ==> r == Ok::<String, String>(name)
                && *final(self) == *old(self),
            old(self).proc_string_locals@[node as int] is None ==> {
                &&& r is Ok <==> old(self).is_string_var(node as int) && old(self).lifetime(node as int) == VariableLifetime::Automatic
                &&& r matches Ok(name) ==> name@ == loop_local_name(node)
                    && final(self).proc_string_locals@ == old(self).proc_string_locals@.update(node as int, Some(name))
                    && *final(self) == (Codegen { proc_string_locals: final(self).proc_string_locals, ..*old(self) })
                &&& r is Err ==> *final(self) == *old(self)
                &&& !old(self).is_string_var(node as int) ==> (r matches Err(e) && e@ == old(self).path_text(
                    "foreach string iterator `"@, node as int, path@, " is not a string variable"@))
                &&& old(self).is_string_var(node as int) && old(self).lifetime(node as int) != VariableLifetime::Automatic
                    ==> (r matches Err(e) && e@ == old(self).path_text(
                    "string foreach iterator `"@, node as int, path@, " must have automatic lifetime"@))
            },
    {
        if let Some(name) = &self.proc_string_locals[node] {
            return Ok(name.clone());
        }
        let is_string = match &self.nodes[node].kind {
            NodeKind::Var { ty } => match ty.kind {
                TypeKind::String => true,
                _ => false,
            },
            _ => false,
        };
        if !is_string {
            return Err(self.path_message("foreach string iterator `", node, path, " is not a string variable"));
        }
        if self.nodes[node].lifetime != VariableLifetime::Automatic {
            return Err(self.path_message("string foreach iterator `", node, path, " must have automatic lifetime"));
        }
        let name = prefixed_number("_lv", node as u128);
        proof { reveal_strlit("_lv"); }
        self.proc_string_locals.set(node, Some(name.clone()));
        Ok(name)
    }

    pub fn proc_string_local_name(&self, node: usize) -> (r: Option<&String>)
        requires
            self.wf(),
            node < self.nodes.len(),
        ensures
            r matches Some(s) ==> self.proc_string_locals@[node as int] == Some(*s),
            r is None ==> self.proc_string_locals@[node as int] is None,
    {
        match &self.proc_string_locals[node] {
            Some(s) => Some(s),
            None => None,
        }
    }

    /// Register an automatic mailbox declared in a process body under the
    /// declaration-derived name `_lm<node>`.
    pub fn collect_mailbox_local(&mut self, path: &str, node: usize) -> (r: Result<String, String>)
        requires
            old(self).wf(),
            node < old(self).nodes.len(),
        ensures
            final(self).wf(),
            old(self).proc_mailbox_locals@[node as int] matches Some(name) ==> r == Ok::<String, String>(name)
                && *final(self) == *old(self),
            old(self).proc_mailbox_locals@[node as int] is None ==> {
                &&& r is Ok <==> old(self).is_class_var(node as int, mailbox_label())
                    && old(self).lifetime(node as int) == VariableLifetime::Automatic
                &&& r matches Ok(name) ==> name@ == mailbox_local_name(node)
                    && final(self).proc_mailbox_locals@ == old(self).proc_mailbox_locals@.update(node as int, Some(name))
                    && *final(self) == (Codegen { proc_mailbox_locals: final(self).proc_mailbox_locals, ..*old(self) })
                &&& r is Err ==> *final(self) == *old(self)
                &&& !old(self).is_class_var(node as int, mailbox_label()) ==> (r matches Err(e) && e@ == old(self).path_text(
                    "procedural mailbox declaration `"@, node as int, path@, " has no mailbox type"@))
                &&& old(self).is_class_var(node as int, mailbox_label()) && old(self).lifetime(node as int) != VariableLifetime::Automatic
                    ==> (r matches Err(e) && e@ == old(self).path_text(
                    "process-local mailbox `"@, node as int, path@, " is not automatic"@))
            },
    {
        if let Some(name) = &self.proc_mailbox_locals[node] {
            return Ok(name.clone());
        }
        proof { reveal_strlit("mailbox"); assert("mailbox"@ =~= mailbox_label()); }
        if !self.class_var(node, "mailbox") {
            return Err(self.path_message("procedural mailbox declaration `", node, path, " has no mailbox type"));
        }
        if self.nodes[node].lifetime != VariableLifetime::Automatic {
            return Err(self.path_message("process-local mailbox `", node, path, " is not automatic"));
        }
        let name = prefixed_number("_lm", node as u128);
        proof { reveal_strlit("_lm"); }
        self.proc_mailbox_locals.set(node, Some(name.clone()));
        Ok(name)
    }

    /// `new` is `old` with one more object named `name` of type `ty`.
    pub open spec fn object_pushed(old: Seq<IrObject>, new: Seq<IrObject>, name: Seq<char>, ty: IrObjectType) -> bool {
        &&& new.len() == old.len() + 1
        &&& new.subrange(0, old.len() as int) == old
        &&& new.last().c_name@ == name
        &&& new.last().ty == ty
    }

    fn push_object(&mut self, name: String, ty: IrObjectType) -> (index: usize)
        requires
            old(self).model.objects.len() < usize::MAX,
        ensures
            index == old(self).model.objects.len(),
            Self::object_pushed(old(self).model.objects@, final(self).model.objects@, name@, ty),
            final(self).model == (crate::design::IrModel { objects: final(self).model.objects, ..old(self).model }),
            *final(self) == (Codegen { model: final(self).model, ..*old(self) }),
    {
        let index = self.model.objects.len();
        self.model.objects.push(IrObject { c_name: name, ty });
        assert(self.model.objects@.subrange(0, index as int) =~= old(self).model.objects@);
        index
    }

    /// Register the model object of a static mailbox declared in a process
    /// body (`O_M<inst>_L<node>`); its declaration-time constructor is queued
    /// with the other time-zero mailbox initializers.
    pub fn collect_mailbox_static_object(&mut self, path: &str, node: usize) -> (r: Result<usize, String>)
        requires
            old(self).wf(),
            node < old(self).nodes.len(),
            old(self).model.objects.len() < usize::MAX,
        ensures
            final(self).wf(),
            object_lookup(old(self).proc_mailbox_static_objects@, old(self).inst, node) matches Some(i)
                ==> r == Ok::<usize, String>(i) && *final(self) == *old(self),
            object_lookup(old(self).proc_mailbox_static_objects@, old(self).inst, node) is None ==> {
                &&& r is Ok <==> old(self).is_class_var(node as int, mailbox_label())
                    && old(self).lifetime(node as int) == VariableLifetime::Static
                &&& r matches Ok(index) ==> {
                    &&& index == old(self).model.objects.len()
                    &&& Self::object_pushed(old(self).model.objects@, final(self).model.objects@,
                        mailbox_object_name(old(self).inst, node), IrObjectType::Chandle)
                    &&& final(self).model == (crate::design::IrModel { objects: final(self).model.objects, ..old(self).model })
                    &&& final(self).proc_mailbox_static_objects@ == old(self).proc_mailbox_static_objects@.push((old(self).inst, node, index))
                    &&& object_lookup(final(self).proc_mailbox_static_objects@, old(self).inst, node) == Some(index)
                    &&& match old(self).nodes@[node as int].initializer {
                        Some(x) => final(self).mailbox_object_initializers@.len() == old(self).mailbox_object_initializers@.len() + 1
                            && final(self).mailbox_object_initializers@.drop_last() == old(self).mailbox_object_initializers@
                            && final(self).mailbox_object_initializers@.last().0 == node
                            && final(self).mailbox_object_initializers@.last().1 == index
                            && final(self).mailbox_object_initializers@.last().2 == x
                            && final(self).mailbox_object_initializers@.last().3@ == path@,
                        None => final(self).mailbox_object_initializers == old(self).mailbox_object_initializers,
                    }
                    &&& *final(self) == (Codegen {
                        model: final(self).model,
                        proc_mailbox_static_objects: final(self).proc_mailbox_static_objects,
                        mailbox_object_initializers: final(self).mailbox_object_initializers,
                        ..*old(self)
                    })
                }
                &&& r is Err ==> *final(self) == *old(self)
                &&& !old(self).is_class_var(node as int, mailbox_label()) ==> (r matches Err(e) && e@ == old(self).path_text(
                    "procedural mailbox declaration `"@, node as int, path@, " has no mailbox type"@))
                &&& old(self).is_class_var(node as int, mailbox_label()) && old(self).lifetime(node as int) != VariableLifetime::Static
                    ==> (r matches Err(e) && e@ == old(self).path_text(
                    "process-local mailbox `"@, node as int, path@, " is not static"@))
            },
    {
        if let Some(index) = find_object(&self.proc_mailbox_static_objects, self.inst, node) {
            return Ok(index);
        }
        proof { reveal_strlit("mailbox"); assert("mailbox"@ =~= mailbox_label()); }
        if !self.class_var(node, "mailbox") {
            return Err(self.path_message("procedural mailbox declaration `", node, path, " has no mailbox type"));
        }
        if self.nodes[node].lifetime != VariableLifetime::Static {
            return Err(self.path_message("process-local mailbox `", node, path, " is not static"));
        }
        let name = two_numbers("O_M", self.inst as u128, "_L", node as u128);
        proof {
            reveal_strlit("O_M");
            reveal_strlit("_L");
            assert(name@ =~= mailbox_object_name(self.inst, node));
        }
        let index = self.push_object(name, IrObjectType::Chandle);
        if let Some(initializer) = self.nodes[node].initializer {
            self.mailbox_object_initializers.push((node, index, initializer, String::from_str(path)));
            assert(self.mailbox_object_initializers@.drop_last() =~= old(self).mailbox_object_initializers@);
        }
        let inst = self.inst;
        self.proc_mailbox_static_objects.push((inst, node, index));
        assert(self.proc_mailbox_static_objects@.drop_last() =~= old(self).proc_mailbox_static_objects@);
        assert(object_lookup(self.proc_mailbox_static_objects@, inst, node) == Some(index));
        Ok(index)
    }

    pub fn proc_mailbox_local_name(&self, node: usize) -> (r: Option<&String>)
        requires
            self.wf(),
            node < self.nodes.len(),
        ensures
            r matches Some(s) ==> self.proc_mailbox_locals@[node as int] == Some(*s),
            r is None ==> self.proc_mailbox_locals@[node as int] is None,
    {
        match &self.proc_mailbox_locals[node] {
            Some(s) => Some(s),
            None => None,
        }
    }

    pub fn proc_process_local_name(&self, node: usize) -> (r: Option<&String>)
        requires
            self.wf(),
            node < self.nodes.len(),
        ensures
            r matches Some(s) ==> self.proc_process_locals@[node as int] == Some(*s),
            r is None ==> self.proc_process_locals@[node as int] is None,
    {
        match &self.proc_process_locals[node] {
            Some(s) => Some(s),
            None => None,
        }
    }

    pub fn proc_semaphore_local_name(&self, node: usize) -> (r: Option<&String>)
        requires
            self.wf(),
            node < self.nodes.len(),
        ensures
            r matches Some(s) ==> self.proc_semaphore_locals@[node as int] == Some(*s),
            r is None ==> self.proc_semaphore_locals@[node as int] is None,
    {
        match &self.proc_semaphore_locals[node] {
            Some(s) => Some(s),
            None => None,
        }
    }

    /// `new` is `old` after registering the model object `index` for the
    /// static process handle `node` of the current instance.
    pub open spec fn process_object_added(old: Codegen, new: Codegen, node: usize, index: usize) -> bool {
        &&& index == old.model.objects.len()
        &&& Self::object_pushed(old.model.objects@, new.model.objects@, process_object_name(old.inst, node), IrObjectType::Process)
        &&& new.model == (crate::design::IrModel { objects: new.model.objects, ..old.model })
        &&& new.proc_process_static_objects@ == old.proc_process_static_objects@.push((old.inst, node, index))
        &&& object_lookup(new.proc_process_static_objects@, old.inst, node) == Some(index)
        &&& new == (Codegen { model: new.model, proc_process_static_objects: new.proc_process_static_objects, ..old })
    }

    /// Register the model object (`O_P<inst>_L<node>`) of a static process
    /// handle, so its identity survives repeated activations.
    pub fn collect_process_static_object(&mut self, path: &str, node: usize) -> (r: Result<usize, String>)
        requires
            old(self).wf(),
            node < old(self).nodes.len(),
            old(self).model.objects.len() < usize::MAX,
        ensures
            final(self).wf(),
            object_lookup(old(self).proc_process_static_objects@, old(self).inst, node) matches Some(i)
                ==> r == Ok::<usize, String>(i) && *final(self) == *old(self),
            object_lookup(old(self).proc_process_static_objects@, old(self).inst, node) is None ==> {
                &&& r is Ok <==> old(self).is_class_var(node as int, process_label())
                    && old(self).lifetime(node as int) == VariableLifetime::Static
                &&& r matches Ok(index) ==> Self::process_object_added(*old(self), *final(self), node, index)
                &&& r is Err ==> *final(self) == *old(self)
                &&& !old(self).is_class_var(node as int, process_label()) ==> (r matches Err(e) && e@ == old(self).path_text(
                    "procedural process declaration `"@, node as int, path@, " has a non-process type"@))
                &&& old(self).is_class_var(node as int, process_label()) && old(self).lifetime(node as int) != VariableLifetime::Static
                    ==> (r matches Err(e) && e@ == old(self).path_text(
                    "process handle `"@, node as int, path@, " is not static"@))
            },
    {
        if let Some(index) = find_object(&self.proc_process_static_objects, self.inst, node) {
            return Ok(index);
        }
        proof { reveal_strlit("process"); assert("process"@ =~= process_label()); }
        if !self.class_var(node, "process") {
            return Err(self.path_message("procedural process declaration `", node, path, " has a non-process type"));
        }
        if self.nodes[node].lifetime != VariableLifetime::Static {
            return Err(self.path_message("process handle `", node, path, " is not static"));
        }
        let name = two_numbers("O_P", self.inst as u128, "_L", node as u128);
        proof {
            reveal_strlit("O_P");
            reveal_strlit("_L");
            assert(name@ =~= process_object_name(self.inst, node));
        }
        let index = self.push_object(name, IrObjectType::Process);
        let inst = self.inst;
        self.proc_process_static_objects.push((inst, node, index));
        assert(self.proc_process_static_objects@.drop_last() =~= old(self).proc_process_static_objects@);
        assert(object_lookup(self.proc_process_static_objects@, inst, node) == Some(index));
        Ok(index)
    }

    /// Register a process handle declared in a procedural body: automatic
    /// handles live in the activation's C frame (`_lp<node>`), static ones in
    /// a model object.
    pub fn collect_process_local(&mut self, path: &str, node: usize) -> (r: Result<ProcessTarget, String>)
        requires
            old(self).wf(),
            node < old(self).nodes.len(),
            old(self).model.objects.len() < usize::MAX,
        ensures
            final(self).wf(),
            old(self).proc_process_locals@[node as int] matches Some(name)
                ==> r == Ok::<ProcessTarget, String>(ProcessTarget::Local(name)) && *final(self) == *old(self),
            old(self).proc_process_locals@[node as int] is None ==> (
                object_lookup(old(self).proc_process_static_objects@, old(self).inst, node) matches Some(i)
                ==> r == Ok::<ProcessTarget, String>(ProcessTarget::Object(i)) && *final(self) == *old(self)),
            old(self).proc_process_locals@[node as int] is None
                && object_lookup(old(self).proc_process_static_objects@, old(self).inst, node) is None ==> {
                &&& r is Ok <==> old(self).is_class_var(node as int, process_label())
                    && old(self).lifetime(node as int) != VariableLifetime::Unavailable
                &&& r is Ok && old(self).lifetime(node as int) == VariableLifetime::Automatic ==> {
                    &&& r matches Ok(ProcessTarget::Local(name)) && name@ == process_local_name(node)
                        && final(self).proc_process_locals@ == old(self).proc_process_locals@.update(node as int, Some(name))
                    &&& *final(self) == (Codegen { proc_process_locals: final(self).proc_process_locals, ..*old(self) })
                }
                &&& r is Ok && old(self).lifetime(node as int) == VariableLifetime::Static ==> {
                    &&& r matches Ok(ProcessTarget::Object(index)) && Self::process_object_added(*old(self), *final(self), node, index)
                }
                &&& r is Err ==> *final(self) == *old(self)
                &&& !old(self).is_class_var(node as int, process_label()) ==> (r matches Err(e) && e@ == old(self).path_text(
                    "procedural process declaration `"@, node as int, path@, " has a non-process type"@))
                &&& old(self).is_class_var(node as int, process_label()) && old(self).lifetime(node as int) == VariableLifetime::Unavailable
                    ==> (r matches Err(e) && e@ == old(self).decl_text(
                    "resolved lifetime is unavailable for process handle `"@, node as int, "` in `"@, path@))
            },
    {
        if let Some(name) = &self.proc_process_locals[node] {
            return Ok(ProcessTarget::Local(name.clone()));
        }
        if let Some(index) = find_object(&self.proc_process_static_objects, self.inst, node) {
            return Ok(ProcessTarget::Object(index));
        }
        proof { reveal_strlit("process"); assert("process"@ =~= process_label()); }
        if !self.class_var(node, "process") {
            return Err(self.path_message("procedural process declaration `", node, path, " has a non-process type"));
        }
        match self.nodes[node].lifetime {
            VariableLifetime::Automatic => {
                let name = prefixed_number("_lp", node as u128);
                proof { reveal_strlit("_lp"); }
                self.proc_process_locals.set(node, Some(name.clone()));
                Ok(ProcessTarget::Local(name))
            },
            VariableLifetime::Static => {
                let index = self.collect_process_static_object(path, node)?;
                Ok(ProcessTarget::Object(index))
            },
            VariableLifetime::Unavailable => Err(self.decl_message(
                "resolved lifetime is unavailable for process handle `", node, "` in `", path)),
        }
    }

    /// `new` is `old` after registering the model object `index` for the
    /// static semaphore `node` of the current instance.
    pub open spec fn semaphore_object_added(old: Codegen, new: Codegen, node: usize, index: usize) -> bool {
        &&& index == old.model.objects.len()
        &&& Self::object_pushed(old.model.objects@, new.model.objects@, semaphore_object_name(old.inst, node), IrObjectType::Semaphore)
        &&& new.model == (crate::design::IrModel { objects: new.model.objects, ..old.model })
        &&& new.proc_semaphore_static_objects@ == old.proc_semaphore_static_objects@.push((old.inst, node, index))
        &&& object_lookup(new.proc_semaphore_static_objects@, old.inst, node) == Some(index)
        &&& new == (Codegen { model: new.model, proc_semaphore_static_objects: new.proc_semaphore_static_objects, ..old })
    }

    /// Register the model object (`O_P<inst>_S<node>`) of a static semaphore.
    pub fn collect_semaphore_static_object(&mut self, path: &str, node: usize) -> (r: Result<usize, String>)
        requires
            old(self).wf(),
            node < old(self).nodes.len(),
            old(self).model.objects.len() < usize::MAX,
        ensures
            final(self).wf(),
            object_lookup(old(self).proc_semaphore_static_objects@, old(self).inst, node) matches Some(i)
                ==> r == Ok::<usize, String>(i) && *final(self) == *old(self),
            object_lookup(old(self).proc_semaphore_static_objects@, old(self).inst, node) is None ==> {
                &&& r is Ok <==> old(self).is_class_var(node as int, semaphore_label())
                    && old(self).lifetime(node as int) == VariableLifetime::Static
                &&& r matches Ok(index) ==> Self::semaphore_object_added(*old(self), *final(self), node, index)
                &&& r is Err ==> *final(self) == *old(self)
                &&& !old(self).is_class_var(node as int, semaphore_label()) ==> (r matches Err(e) && e@ == old(self).decl_text(
                    "procedural semaphore declaration `"@, node as int, "` has a non-semaphore type in `"@, path@))
                &&& old(self).is_class_var(node as int, semaphore_label()) && old(self).lifetime(node as int) != VariableLifetime::Static
                    ==> (r matches Err(e) && e@ == old(self).path_text("semaphore `"@, node as int, path@, " is not static"@))
            },
    {
        if let Some(index) = find_object(&self.proc_semaphore_static_objects, self.inst, node) {
            return Ok(index);
        }
        proof { reveal_strlit("semaphore"); assert("semaphore"@ =~= semaphore_label()); }
        if !self.class_var(node, "semaphore") {
            return Err(self.decl_message("procedural semaphore declaration `", node, "` has a non-semaphore type in `", path));
        }
        if self.nodes[node].lifetime != VariableLifetime::Static {
            return Err(self.path_message("semaphore `", node, path, " is not static"));
        }
        let name = two_numbers("O_P", self.inst as u128, "_S", node as u128);
        proof {
            reveal_strlit("O_P");
            reveal_strlit("_S");
            assert(name@ =~= semaphore_object_name(self.inst, node));
        }
        let index = self.push_object(name, IrObjectType::Semaphore);
        let inst = self.inst;
        self.proc_semaphore_static_objects.push((inst, node, index));
        assert(self.proc_semaphore_static_objects@.drop_last() =~= old(self).proc_semaphore_static_objects@);
        assert(object_lookup(self.proc_semaphore_static_objects@, inst, node) == Some(index));
        Ok(index)
    }

    /// Whether an initializer is the `null` constant.
    pub open spec fn is_null_constant(&self, i: int) -> bool {
        self.kind(i) matches NodeKind::Expr(crate::design::ExprKind::Constant { null, .. }) && null
    }

    /// Register a semaphore declared in a procedural body: automatic ones
    /// live in the activation C frame (`_ls<node>`), static ones in a model
    /// object whose non-null initializer is queued for time zero.
    pub fn collect_semaphore_local(&mut self, path: &str, node: usize) -> (r: Result<ChandleTarget, String>)
        requires
            old(self).wf(),
            node < old(self).nodes.len(),
            old(self).model.objects.len() < usize::MAX,
        ensures
            final(self).wf(),
            old(self).proc_semaphore_locals@[node as int] matches Some(name)
                ==> r == Ok::<ChandleTarget, String>(ChandleTarget::Local(name)) && *final(self) == *old(self),
            old(self).proc_semaphore_locals@[node as int] is None ==> (
                object_lookup(old(self).proc_semaphore_static_objects@, old(self).inst, node) matches Some(i)
                ==> r == Ok::<ChandleTarget, String>(ChandleTarget::Object(i)) && *final(self) == *old(self)),
            old(self).proc_semaphore_locals@[node as int] is None
                && object_lookup(old(self).proc_semaphore_static_objects@, old(self).inst, node) is None ==> {
                &&& r is Ok <==> old(self).is_class_var(node as int, semaphore_label())
                    && old(self).lifetime(node as int) != VariableLifetime::Unavailable
                &&& r is Ok && old(self).lifetime(node as int) == VariableLifetime::Automatic ==> {
                    &&& r matches Ok(ChandleTarget::Local(name)) && name@ == semaphore_local_name(node)
                        && final(self).proc_semaphore_locals@ == old(self).proc_semaphore_locals@.update(node as int, Some(name))
                    &&& *final(self) == (Codegen { proc_semaphore_locals: final(self).proc_semaphore_locals, ..*old(self) })
                }
                &&& r is Ok && old(self).lifetime(node as int) == VariableLifetime::Static ==> {
                    &&& r matches Ok(ChandleTarget::Object(index)) && Self::semaphore_object_added(*old(self),
                        Codegen { semaphore_initializers: old(self).semaphore_initializers, ..*final(self) }, node, index)
                    &&& match old(self).nodes@[node as int].initializer {
                        Some(x) if !old(self).is_null_constant(x as int) =>
                            final(self).semaphore_initializers@.len() == old(self).semaphore_initializers@.len() + 1
                            && final(self).semaphore_initializers@.drop_last() == old(self).semaphore_initializers@
                            && (r matches Ok(ChandleTarget::Object(index)) && final(self).semaphore_initializers@.last().1 == index)
                            && final(self).semaphore_initializers@.last().0 == node
                            && final(self).semaphore_initializers@.last().2 == x
                            && final(self).semaphore_initializers@.last().3@ == path@,
                        _ => final(self).semaphore_initializers == old(self).semaphore_initializers,
                    }
                }
                &&& r is Err ==> *final(self) == *old(self)
                &&& !old(self).is_class_var(node as int, semaphore_label()) ==> (r matches Err(e) && e@ == old(self).decl_text(
                    "procedural semaphore declaration `"@, node as int, "` has a non-semaphore type in `"@, path@))
                &&& old(self).is_class_var(node as int, semaphore_label()) && old(self).lifetime(node as int) == VariableLifetime::Unavailable
                    ==> (r matches Err(e) && e@ == old(self).decl_text(
                    "resolved lifetime is unavailable for semaphore `"@, node as int, "` in `"@, path@))
            },
    {
        if let Some(name) = &self.proc_semaphore_locals[node] {
            return Ok(ChandleTarget::Local(name.clone()));
        }
        if let Some(index) = find_object(&self.proc_semaphore_static_objects, self.inst, node) {
            return Ok(ChandleTarget::Object(index));
        }
        proof { reveal_strlit("semaphore"); assert("semaphore"@ =~= semaphore_label()); }
        if !self.class_var(node, "semaphore") {
            return Err(self.decl_message("procedural semaphore declaration `", node, "` has a non-semaphore type in `", path));
        }
        match self.nodes[node].lifetime {
            VariableLifetime::Automatic => {
                let name = prefixed_number("_ls", node as u128);
                proof { reveal_strlit("_ls"); }
                self.proc_semaphore_locals.set(node, Some(name.clone()));
                Ok(ChandleTarget::Local(name))
            },
            VariableLifetime::Static => {
                let index = self.collect_semaphore_static_object(path, node)?;
                proof { self.lemma_node(node as int); }
                if let Some(initializer) = self.nodes[node].initializer {
                    let null = match &self.nodes[initializer].kind {
                        NodeKind::Expr(crate::design::ExprKind::Constant { null, .. }) => *null,
                        _ => false,
                    };
                    if !null {
                        self.semaphore_initializers.push((node, index, initializer, String::from_str(path)));
                        assert(self.semaphore_initializers@.drop_last() =~= old(self).semaphore_initializers@);
                    }
                }
                Ok(ChandleTarget::Object(index))
            },
            VariableLifetime::Unavailable => Err(self.decl_message(
                "resolved lifetime is unavailable for semaphore `", node, "` in `", path)),
        }
    }

    /// The storage width of a procedural variable: reals have none, other
    /// types their declared packed width.
    pub open spec fn local_width(ty: TypeInfo) -> Option<u32> {
        if is_real_kind(ty.kind) {
            Some(0u32)
        } else {
            ty.width
        }
    }

    /// Whether a declaration's storage is two-state.
    pub open spec fn decl_two_state(&self, node: int, ty: TypeInfo) -> bool {
        self.nodes@[node].two_state || is_two_state_kind(ty.kind)
    }

    /// The storage a fresh registration of `node` would create, before any
    /// hidden signal: C name aside, the fields of its `ProcLocalInfo`.
    pub open spec fn fresh_local_ok(&self, node: int) -> bool {
        &&& self.kind(node) matches NodeKind::Var { ty } && Self::local_width(ty) is Some
        &&& self.lifetime(node) != VariableLifetime::Unavailable
    }

    /// `info` holds the packed shape of the declaration `node` of type `ty`.
    pub open spec fn local_shape(&self, node: int, ty: TypeInfo, info: ProcLocalInfo) -> bool {
        &&& Self::local_width(ty) == Some(info.width)
        &&& info.signed == ty.signed
        &&& info.two_state == (!is_real_kind(ty.kind) && self.decl_two_state(node, ty))
    }

    /// `new` is `old` after allocating the hidden signal of the static
    /// procedural variable `node` of type `ty` and registering `info` for it.
    pub open spec fn static_local_added(old: Codegen, new: Codegen, node: usize, ty: TypeInfo, info: ProcLocalInfo) -> bool {
        let ir = old.model.signals.len();
        let is_real = is_real_kind(ty.kind);
        &&& info.static_signal matches Some(sig) && {
            &&& sig.global@ == static_local_name(old.inst, node)
            &&& info.c_name@ == sig.global@
            &&& sig.width == info.width
            &&& sig.signed == ty.signed
            &&& sig.two_state == old.decl_two_state(node as int, ty)
            &&& sig.real == is_real
            &&& sig.shortreal == (is_real && ty.kind is ShortReal)
            &&& sig.ir == ir
            &&& new.model.signals@.len() == ir + 1
            &&& new.model.signals@.drop_last() == old.model.signals@
            &&& new.model.signals@.last().c_name@ == sig.global@
            &&& new.model.signals@.last().width == sig.width
            &&& new.model.signals@.last().signed == sig.signed
            &&& new.model.signals@.last().two_state == sig.two_state
            &&& new.model.signals@.last().real == is_real
            &&& new.model.signals@.last().net_driver is None
            &&& new.model.signals@.last().hdl_name is None
            &&& !new.model.signals@.last().omit
        }
        &&& new.model == (IrModel { signals: new.model.signals, ..old.model })
        &&& new.proc_local_instances@ == old.proc_local_instances@.push((old.inst, node, info))
        &&& new.proc_locals@ == old.proc_locals@.update(node as int, Some(info))
        &&& match old.nodes@[node as int].initializer {
            Some(x) => new.declaration_inits@ == old.declaration_inits@.push((ir as usize, x)),
            None => new.declaration_inits == old.declaration_inits,
        }
        &&& new == (Codegen {
            model: new.model,
            proc_local_instances: new.proc_local_instances,
            proc_locals: new.proc_locals,
            declaration_inits: new.declaration_inits,
            ..old
        })
    }

    /// What `collect_loop_var(path, node)` does from `old_cg` to `new` with
    /// result `r`.
    pub open spec fn loop_var_post(old_cg: Codegen, new: Codegen, path: Seq<char>, node: usize,
        r: Result<ProcLocalInfo, String>) -> bool
    {
        let life = old_cg.lifetime(node as int);
        let cached = life == VariableLifetime::Automatic && old_cg.proc_locals@[node as int] is Some;
        let cached_static = life == VariableLifetime::Static
            && local_lookup(old_cg.proc_local_instances@, old_cg.inst, node) is Some;
        &&& cached ==> r == Ok::<ProcLocalInfo, String>(old_cg.proc_locals@[node as int].unwrap())
            && new == old_cg
        &&& cached_static ==> {
            let info = local_lookup(old_cg.proc_local_instances@, old_cg.inst, node).unwrap();
            &&& r == Ok::<ProcLocalInfo, String>(info)
            &&& new.proc_locals@ == old_cg.proc_locals@.update(node as int, Some(info))
            &&& new == (Codegen { proc_locals: new.proc_locals, ..old_cg })
        }
        &&& !cached && !cached_static ==> {
            &&& r is Ok <==> old_cg.fresh_local_ok(node as int)
            &&& r is Err ==> new == old_cg
            &&& (old_cg.kind(node as int) matches NodeKind::Var { ty } && Self::local_width(ty) is Some)
                && life == VariableLifetime::Unavailable ==> (r matches Err(e) && e@ == old_cg.decl_text(
                "resolved lifetime is unavailable for procedural variable `"@, node as int, "` in `"@, path))
            &&& !(old_cg.kind(node as int) is Var) ==> (r matches Err(e) && e@ == old_cg.decl_text(
                "unsupported procedural loop declaration `"@, node as int, "` in `"@, path))
            &&& (old_cg.kind(node as int) matches NodeKind::Var { ty } && Self::local_width(ty) is None)
                ==> (r matches Err(e) && e@ == old_cg.decl_text(
                "cannot determine the width of `"@, node as int, "` in `"@, path))
            &&& r matches Ok(info) ==> (old_cg.kind(node as int) matches NodeKind::Var { ty } && {
                &&& old_cg.local_shape(node as int, ty, info)
                &&& life == VariableLifetime::Automatic ==> {
                    &&& info.c_name@ == loop_local_name(node)
                    &&& info.static_signal is None
                    &&& new.proc_locals@ == old_cg.proc_locals@.update(node as int, Some(info))
                    &&& new == (Codegen { proc_locals: new.proc_locals, ..old_cg })
                }
                &&& life == VariableLifetime::Static ==> Self::static_local_added(old_cg, new, node, ty, info)
            })
        }
    }

    /// Collecting a loop declaration twice in one instance gives the same
    /// storage both times and adds no model signal the second time. A fresh
    /// automatic variable is the C local `_lv<node>` and adds no model
    /// signal; a fresh static one is the hidden signal `_ls<inst>_<node>`,
    /// added by the first call only; one registered before keeps its
    /// storage.
    pub proof fn law_loop_var_twice(c0: Codegen, c1: Codegen, c2: Codegen, path: Seq<char>, node: usize,
        r1: Result<ProcLocalInfo, String>, r2: Result<ProcLocalInfo, String>)
        requires
            c0.wf(),
            node < c0.nodes.len(),
            c0.kind(node as int) matches NodeKind::Var { ty } && Self::local_width(ty) is Some,
            c0.lifetime(node as int) == VariableLifetime::Automatic || c0.lifetime(node as int) == VariableLifetime::Static,
            Self::loop_var_post(c0, c1, path, node, r1),
            Self::loop_var_post(c1, c2, path, node, r2),
        ensures
            r1 is Ok,
            r2 == r1,
            c2.model.signals@ == c1.model.signals@,
            c2.proc_locals@[node as int] == Some(r1->Ok_0),
            c0.lifetime(node as int) == VariableLifetime::Automatic ==> c1.model.signals@ == c0.model.signals@,
            c0.lifetime(node as int) == VariableLifetime::Automatic && c0.proc_locals@[node as int] is None
                ==> r1->Ok_0.c_name@ == loop_local_name(node),
            c0.lifetime(node as int) == VariableLifetime::Static
                && local_lookup(c0.proc_local_instances@, c0.inst, node) is None
                ==> c1.model.signals@.len() == c0.model.signals@.len() + 1
                && r1->Ok_0.c_name@ == static_local_name(c0.inst, node),
            c0.lifetime(node as int) == VariableLifetime::Static
                && local_lookup(c0.proc_local_instances@, c0.inst, node) is Some
                ==> c1.model.signals@ == c0.model.signals@,
    {
        assert(c1.nodes == c0.nodes);
        assert(c1.inst == c0.inst);
    }

    /// Register storage for a procedural loop declaration. Automatic
    /// variables remain lexical C locals (`_lv<node>`); static variables
    /// become hidden model signals (`_ls<inst>_<node>`) so they keep their
    /// value across block reentry.
    pub fn collect_loop_var(&mut self, path: &str, node: usize) -> (r: Result<ProcLocalInfo, String>)
        requires
            old(self).wf(),
            node < old(self).nodes.len(),
            old(self).model.signals.len() < usize::MAX,
        ensures
            final(self).wf(),
            Self::loop_var_post(*old(self), *final(self), path@, node, r),
    {
        let lifetime = self.nodes[node].lifetime;
        match lifetime {
            VariableLifetime::Automatic => {
                if let Some(info) = &self.proc_locals[node] {
                    return Ok(info.clone());
                }
            },
            VariableLifetime::Static => {
                if let Some(info) = find_local(&self.proc_local_instances, self.inst, node) {
                    let info = info.clone();
                    self.proc_locals.set(node, Some(info.clone()));
                    return Ok(info);
                }
            },
            VariableLifetime::Unavailable => {},
        }
        let ty = match &self.nodes[node].kind {
            NodeKind::Var { ty } => ty,
            _ => return Err(self.decl_message("unsupported procedural loop declaration `", node, "` in `", path)),
        };
        let is_real = real_kind(&ty.kind);
        let width = if is_real {
            0u32
        } else {
            match ty.width {
                Some(w) => w,
                None => return Err(self.decl_message("cannot determine the width of `", node, "` in `", path)),
            }
        };
        let signed = ty.signed;
        let decl_two_state = self.nodes[node].two_state || two_state_kind(&ty.kind);
        let shortreal = match ty.kind {
            TypeKind::ShortReal => true,
            _ => false,
        };
        let two_state = if is_real { false } else { decl_two_state };
        match lifetime {
            VariableLifetime::Automatic => {
                let c_name = prefixed_number("_lv", node as u128);
                proof { reveal_strlit("_lv"); }
                let info = ProcLocalInfo { c_name, width, signed, two_state, static_signal: None };
                self.proc_locals.set(node, Some(info.clone()));
                assert(*self == (Codegen { proc_locals: self.proc_locals, ..*old(self) }));
                assert(old(self).fresh_local_ok(node as int));
                assert(old(self).local_shape(node as int, *ty, info));
                assert(info.c_name@ == loop_local_name(node));
                assert(self.proc_locals@ == old(self).proc_locals@.update(node as int, Some(info)));
                assert(Self::loop_var_post(*old(self), *self, path@, node, Ok::<ProcLocalInfo, String>(info)));
                Ok(info)
            },
            VariableLifetime::Static => {
                let ir = self.model.signals.len();
                let global = two_numbers("_ls", self.inst as u128, "_", node as u128);
                proof {
                    reveal_strlit("_ls");
                    reveal_strlit("_");
                    assert(global@ =~= static_local_name(self.inst, node));
                }
                let signal = SignalInfo {
                    global: global.clone(),
                    width,
                    signed,
                    two_state: decl_two_state,
                    real: is_real,
                    shortreal: is_real && shortreal,
                    ir,
                };
                self.model.signals.push(IrSignal {
                    c_name: global.clone(),
                    width,
                    signed,
                    two_state: decl_two_state,
                    real: is_real,
                    net_driver: None,
                    aliased: false,
                    hdl_name: None,
                    omit: false,
                });
                assert(self.model.signals@.drop_last() =~= old(self).model.signals@);
                proof { self.lemma_node(node as int); }
                if let Some(initializer) = self.nodes[node].initializer {
                    self.declaration_inits.push((ir, initializer));
                }
                let info = ProcLocalInfo { c_name: global, width, signed, two_state, static_signal: Some(signal) };
                let inst = self.inst;
                self.proc_local_instances.push((inst, node, info.clone()));
                self.proc_locals.set(node, Some(info.clone()));
                Ok(info)
            },
            VariableLifetime::Unavailable => Err(self.decl_message(
                "resolved lifetime is unavailable for procedural variable `", node, "` in `", path)),
        }
    }

    /// The storage of a procedural declaration in the current instance:
    /// static declarations are looked up per instance, because one
    /// declaration can be elaborated more than once.
    pub open spec fn proc_local_spec(&self, node: usize) -> Option<ProcLocalInfo> {
        if self.lifetime(node as int) == VariableLifetime::Static {
            local_lookup(self.proc_local_instances@, self.inst, node)
        } else {
            self.proc_locals@[node as int]
        }
    }

    pub fn proc_local_info(&self, node: usize) -> (r: Option<&ProcLocalInfo>)
        requires
            self.wf(),
            node < self.nodes.len(),
        ensures
            r matches Some(info) ==> self.proc_local_spec(node) == Some(*info),
            r is None ==> self.proc_local_spec(node) is None,
    {
        match self.nodes[node].lifetime {
            VariableLifetime::Static => find_local(&self.proc_local_instances, self.inst, node),
            _ => match &self.proc_locals[node] {
                Some(info) => Some(info),
                None => None,
            },
        }
    }
}

} // verus!
