//! Lexical resolution of procedural declarations through the begin and loop
//! scopes that enclose a reference.

use vstd::prelude::*;
use crate::codegen::{Codegen, node_ok};
use crate::design::{NodeKind, StmtKind, ExprKind, ProcLocalInfo};
use crate::locals::{mailbox_label, process_label, semaphore_label};
use crate::text::str_is;

verus! {

/// Which declarations a lexical search accepts.
#[derive(Clone, Copy, Debug, PartialEq, Eq, Structural)]
pub enum DeclFilter {
    /// Any variable declaration.
    AnyVar,
    /// Any declaration.
    Named,
    Mailbox,
    Process,
    Semaphore,
}

/// The kind of procedural storage a scope walk looks for.
#[derive(Clone, Copy, Debug, PartialEq, Eq, Structural)]
pub enum WalkKind {
    Mailbox,
    Process,
    Semaphore,
    StringLocal,
}

pub open spec fn begin_filter(k: WalkKind) -> DeclFilter {
    match k {
        WalkKind::Mailbox => DeclFilter::Mailbox,
        WalkKind::Process => DeclFilter::Process,
        WalkKind::Semaphore => DeclFilter::Semaphore,
        WalkKind::StringLocal => DeclFilter::AnyVar,
    }
}

pub open spec fn loop_filter(k: WalkKind) -> DeclFilter {
    match k {
        WalkKind::Mailbox => DeclFilter::Mailbox,
        WalkKind::Process => DeclFilter::Process,
        WalkKind::Semaphore => DeclFilter::Semaphore,
        WalkKind::StringLocal => DeclFilter::Named,
    }
}

pub open spec fn scope_measure(scope: Option<usize>) -> int {
    match scope {
        Some(s) => s as int + 1,
        None => 0,
    }
}

impl Codegen {
    /// Declaration `c` is called `name` and passes `filter`.
    pub open spec fn filter_ok(&self, filter: DeclFilter, c: usize, name: Seq<char>) -> bool {
        &&& c < self.nodes.len()
        &&& self.nodes@[c as int].name@ == name
        &&& match filter {
            DeclFilter::AnyVar => self.kind(c as int) is Var,
            DeclFilter::Named => true,
            DeclFilter::Mailbox => self.is_class_var(c as int, mailbox_label()),
            DeclFilter::Process => self.is_class_var(c as int, process_label()),
            DeclFilter::Semaphore => self.is_class_var(c as int, semaphore_label()),
        }
    }

    /// The first declaration of `list` that passes.
    pub open spec fn first_decl(&self, list: Seq<usize>, filter: DeclFilter, name: Seq<char>) -> Option<usize>
        decreases list.len(),
    {
        if list.len() == 0 {
            None
        } else if self.filter_ok(filter, list[0], name) {
            Some(list[0])
        } else {
            self.first_decl(list.drop_first(), filter, name)
        }
    }

    /// The first resolved declaration of `list` that passes.
    pub open spec fn first_decl_opt(&self, list: Seq<Option<usize>>, filter: DeclFilter, name: Seq<char>) -> Option<usize>
        decreases list.len(),
    {
        if list.len() == 0 {
            None
        } else {
            match list[0] {
                Some(c) => if self.filter_ok(filter, c, name) {
                    Some(c)
                } else {
                    self.first_decl_opt(list.drop_first(), filter, name)
                },
                None => self.first_decl_opt(list.drop_first(), filter, name),
            }
        }
    }

    fn passes(&self, filter: DeclFilter, c: usize, name: &str) -> (r: bool)
        requires
            c < self.nodes.len(),
        ensures
            r == self.filter_ok(filter, c, name@),
    {
        if !str_is(self.nodes[c].name.as_str(), name) {
            return false;
        }
        proof {
            reveal_strlit("mailbox");
            reveal_strlit("process");
            reveal_strlit("semaphore");
            assert("mailbox"@ =~= mailbox_label());
            assert("process"@ =~= process_label());
            assert("semaphore"@ =~= semaphore_label());
        }
        match filter {
            DeclFilter::AnyVar => match &self.nodes[c].kind {
                NodeKind::Var { .. } => true,
                _ => false,
            },
            DeclFilter::Named => true,
            DeclFilter::Mailbox => self.class_var(c, "mailbox"),
            DeclFilter::Process => self.class_var(c, "process"),
            DeclFilter::Semaphore => self.class_var(c, "semaphore"),
        }
    }

    fn find_decl(&self, list: &Vec<usize>, filter: DeclFilter, name: &str) -> (r: Option<usize>)
        requires
            forall|k: int| 0 <= k < list.len() ==> #[trigger] list@[k] < self.nodes.len(),
        ensures
            r == self.first_decl(list@, filter, name@),
            r matches Some(c) ==> self.filter_ok(filter, c, name@),
    {
        let mut i: usize = 0;
        assert(list@.skip(0) =~= list@);
        while i < list.len()
            invariant
                i <= list.len(),
                forall|k: int| 0 <= k < list.len() ==> #[trigger] list@[k] < self.nodes.len(),
                self.first_decl(list@, filter, name@) == self.first_decl(list@.skip(i as int), filter, name@),
            decreases list.len() - i,
        {
            assert(list@.skip(i as int).drop_first() =~= list@.skip(i + 1));
            let c = list[i];
            if self.passes(filter, c, name) {
                return Some(c);
            }
            i = i + 1;
        }
        None
    }

    fn find_decl_opt(&self, list: &Vec<Option<usize>>, filter: DeclFilter, name: &str) -> (r: Option<usize>)
        requires
            forall|k: int| 0 <= k < list.len() ==> (#[trigger] list@[k] matches Some(v) ==> v < self.nodes.len()),
        ensures
            r == self.first_decl_opt(list@, filter, name@),
            r matches Some(c) ==> self.filter_ok(filter, c, name@),
    {
        let mut i: usize = 0;
        assert(list@.skip(0) =~= list@);
        while i < list.len()
            invariant
                i <= list.len(),
                forall|k: int| 0 <= k < list.len() ==> (#[trigger] list@[k] matches Some(v) ==> v < self.nodes.len()),
                self.first_decl_opt(list@, filter, name@) == self.first_decl_opt(list@.skip(i as int), filter, name@),
            decreases list.len() - i,
        {
            assert(list@.skip(i as int).drop_first() =~= list@.skip(i + 1));
            assert(list@[i as int] == list@.skip(i as int)[0]);
            if let Some(c) = list[i] {
                if self.passes(filter, c, name) {
                    return Some(c);
                }
            }
            i = i + 1;
        }
        None
    }

    /// Whether a found declaration ends a walk of kind `k`: storage walks
    /// need the declaration to have registered storage.
    pub open spec fn walk_accepts(&self, k: WalkKind, c: usize) -> bool {
        match k {
            WalkKind::Mailbox => self.proc_mailbox_locals@[c as int] is Some,
            WalkKind::StringLocal => self.proc_string_locals@[c as int] is Some,
            _ => true,
        }
    }

    /// The declaration called `name` that a walk of kind `k` finds from
    /// `scope` outwards: at each scope, the first matching declaration of a
    /// `begin` block, then of a `for` or `foreach` header.
    pub open spec fn scope_decl(&self, k: WalkKind, scope: Option<usize>, name: Seq<char>) -> Option<usize>
        decreases scope_measure(scope),
    {
        match scope {
            None => None,
            Some(s) => if s >= self.nodes.len() {
                None
            } else {
                let in_begin = match self.kind(s as int) {
                    NodeKind::Stmt(StmtKind::Begin) => self.first_decl(self.nodes@[s as int].children@, begin_filter(k), name),
                    _ => None,
                };
                let in_loop = match self.kind(s as int) {
                    NodeKind::Stmt(StmtKind::For { vars, .. }) => self.first_decl(vars@, loop_filter(k), name),
                    NodeKind::Stmt(StmtKind::Foreach { vars, .. }) => self.first_decl_opt(vars@, loop_filter(k), name),
                    _ => None,
                };
                match in_begin {
                    Some(c) if self.walk_accepts(k, c) => Some(c),
                    _ => match in_loop {
                        Some(c) if self.walk_accepts(k, c) => Some(c),
                        _ => match self.nodes@[s as int].parent {
                            Some(p) => if p < s {
                                self.scope_decl(k, Some(p), name)
                            } else {
                                None
                            },
                            None => None,
                        },
                    },
                }
            },
        }
    }

    fn walk_scopes(&self, k: WalkKind, reference: usize) -> (r: Option<usize>)
        requires
            self.wf(),
            reference < self.nodes.len(),
        ensures
            r == self.scope_decl(k, self.nodes@[reference as int].parent, self.nodes@[reference as int].name@),
            r matches Some(c) ==> c < self.nodes.len() && self.walk_accepts(k, c),
    {
        proof { self.lemma_node(reference as int); }
        let name = self.nodes[reference].name.as_str();
        let mut parent = self.nodes[reference].parent;
        loop
            invariant
                self.wf(),
                name@ == self.nodes@[reference as int].name@,
                parent matches Some(p) ==> p < self.nodes.len(),
                self.scope_decl(k, parent, name@) == self.scope_decl(k, self.nodes@[reference as int].parent, name@),
            decreases scope_measure(parent),
        {
            match parent {
                None => return None,
                Some(scope) => {
                    proof { self.lemma_node(scope as int); }
                    let in_begin = match &self.nodes[scope].kind {
                        NodeKind::Stmt(StmtKind::Begin) => self.find_decl(&self.nodes[scope].children, begin_filter_exec(k), name),
                        _ => None,
                    };
                    if let Some(c) = in_begin {
                        if self.walk_accepts_exec(k, c) {
                            return Some(c);
                        }
                    }
                    let in_loop = match &self.nodes[scope].kind {
                        NodeKind::Stmt(StmtKind::For { vars, .. }) => self.find_decl(vars, loop_filter_exec(k), name),
                        NodeKind::Stmt(StmtKind::Foreach { vars, .. }) => self.find_decl_opt(vars, loop_filter_exec(k), name),
                        _ => None,
                    };
                    if let Some(c) = in_loop {
                        if self.walk_accepts_exec(k, c) {
                            return Some(c);
                        }
                    }
                    parent = self.nodes[scope].parent;
                },
            }
        }
    }

    fn walk_accepts_exec(&self, k: WalkKind, c: usize) -> (r: bool)
        requires
            self.wf(),
            c < self.nodes.len(),
        ensures
            r == self.walk_accepts(k, c),
    {
        match k {
            WalkKind::Mailbox => self.proc_mailbox_locals[c].is_some(),
            WalkKind::StringLocal => self.proc_string_locals[c].is_some(),
            _ => true,
        }
    }

    /// The registered mailbox a reference denotes: its resolved target, the
    /// node itself, or a same-named mailbox of an enclosing scope.
    pub open spec fn lexical_mailbox_spec(&self, reference: usize) -> Option<usize> {
        match self.kind(reference as int) {
            NodeKind::Expr(ExprKind::Ref { target: Some(t) }) if self.proc_mailbox_locals@[t as int] is Some => Some(t),
            _ => if self.proc_mailbox_locals@[reference as int] is Some {
                Some(reference)
            } else {
                self.scope_decl(WalkKind::Mailbox, self.nodes@[reference as int].parent, self.nodes@[reference as int].name@)
            },
        }
    }

    /// Resolve a process-local mailbox through lexical begin/loop scopes.
    /// References normally carry their target declaration; the name walk
    /// covers references whose target was not captured.
    pub fn lexical_proc_mailbox_local(&self, reference: usize) -> (r: Option<(usize, &String)>)
        requires
            self.wf(),
            reference < self.nodes.len(),
        ensures
            r matches Some((v, name)) ==> self.lexical_mailbox_spec(reference) == Some(v)
                && self.proc_mailbox_locals@[v as int] == Some(*name),
            r is None ==> self.lexical_mailbox_spec(reference) is None,
    {
        proof { self.lemma_node(reference as int); }
        if let NodeKind::Expr(ExprKind::Ref { target: Some(target) }) = &self.nodes[reference].kind {
            if let Some(name) = self.proc_mailbox_local_name(*target) {
                return Some((*target, name));
            }
        }
        if let Some(name) = self.proc_mailbox_local_name(reference) {
            return Some((reference, name));
        }
        match self.walk_scopes(WalkKind::Mailbox, reference) {
            Some(v) => match self.proc_mailbox_local_name(v) {
                Some(name) => Some((v, name)),
                None => None,
            },
            None => None,
        }
    }

    /// Resolve a procedural semaphore declaration through lexical begin and
    /// loop scopes.
    pub fn lexical_proc_semaphore_decl(&self, reference: usize) -> (r: Option<usize>)
        requires
            self.wf(),
            reference < self.nodes.len(),
        ensures
            r == self.scope_decl(WalkKind::Semaphore, self.nodes@[reference as int].parent, self.nodes@[reference as int].name@),
    {
        self.walk_scopes(WalkKind::Semaphore, reference)
    }

    /// Resolve a process-handle declaration through lexical begin and loop
    /// scopes, static declarations included.
    pub fn lexical_proc_process_decl(&self, reference: usize) -> (r: Option<usize>)
        requires
            self.wf(),
            reference < self.nodes.len(),
        ensures
            r == self.scope_decl(WalkKind::Process, self.nodes@[reference as int].parent, self.nodes@[reference as int].name@),
    {
        self.walk_scopes(WalkKind::Process, reference)
    }

    /// Resolve a string loop iterator through its lexical statement scopes.
    pub fn lexical_proc_string_local(&self, reference: usize) -> (r: Option<(usize, &String)>)
        requires
            self.wf(),
            reference < self.nodes.len(),
        ensures
            r matches Some((v, name)) ==> self.scope_decl(WalkKind::StringLocal, self.nodes@[reference as int].parent,
                self.nodes@[reference as int].name@) == Some(v) && self.proc_string_locals@[v as int] == Some(*name),
            r is None ==> self.scope_decl(WalkKind::StringLocal, self.nodes@[reference as int].parent,
                self.nodes@[reference as int].name@) is None,
    {
        match self.walk_scopes(WalkKind::StringLocal, reference) {
            Some(v) => match self.proc_string_local_name(v) {
                Some(name) => Some((v, name)),
                None => None,
            },
            None => None,
        }
    }
}

impl Codegen {
    /// The procedural local called `name` visible from `scope`: the first
    /// variable of a `begin` block (whose storage decides), the first
    /// variable of a `for` header (likewise), or a registered `foreach`
    /// iterator; otherwise the enclosing scope's.
    pub open spec fn local_decl(&self, scope: Option<usize>, name: Seq<char>) -> Option<usize>
        decreases scope_measure(scope),
    {
        match scope {
            None => None,
            Some(s) => if s >= self.nodes.len() {
                None
            } else {
                let outer = match self.nodes@[s as int].parent {
                    Some(p) => if p < s {
                        self.local_decl(Some(p), name)
                    } else {
                        None
                    },
                    None => None,
                };
                let in_begin = match self.kind(s as int) {
                    NodeKind::Stmt(StmtKind::Begin) => self.first_decl(self.nodes@[s as int].children@, DeclFilter::AnyVar, name),
                    _ => None,
                };
                match in_begin {
                    Some(c) => if self.proc_local_spec(c) is Some {
                        Some(c)
                    } else {
                        None
                    },
                    None => match self.kind(s as int) {
                        NodeKind::Stmt(StmtKind::For { vars, .. }) => match self.first_decl(vars@, DeclFilter::Named, name) {
                            Some(c) => if self.proc_local_spec(c) is Some {
                                Some(c)
                            } else {
                                None
                            },
                            None => None,
                        },
                        NodeKind::Stmt(StmtKind::Foreach { vars, .. }) => match self.first_decl_opt(vars@, DeclFilter::Named, name) {
                            Some(c) => if self.proc_local_spec(c) is Some {
                                Some(c)
                            } else {
                                outer
                            },
                            None => outer,
                        },
                        _ => outer,
                    },
                }
            },
        }
    }

    /// Resolve a procedural local through its lexical statement scopes.
    pub fn lexical_proc_local(&self, reference: usize) -> (r: Option<(usize, &ProcLocalInfo)>)
        requires
            self.wf(),
            reference < self.nodes.len(),
        ensures
            r matches Some((v, info)) ==> self.local_decl(self.nodes@[reference as int].parent,
                self.nodes@[reference as int].name@) == Some(v) && self.proc_local_spec(v) == Some(*info),
            r is None ==> self.local_decl(self.nodes@[reference as int].parent, self.nodes@[reference as int].name@) is None,
    {
        proof { self.lemma_node(reference as int); }
        let name = self.nodes[reference].name.as_str();
        let mut parent = self.nodes[reference].parent;
        loop
            invariant
                self.wf(),
                name@ == self.nodes@[reference as int].name@,
                parent matches Some(p) ==> p < self.nodes.len(),
                self.local_decl(parent, name@) == self.local_decl(self.nodes@[reference as int].parent, name@),
            decreases scope_measure(parent),
        {
            match parent {
                None => return None,
                Some(scope) => {
                    proof { self.lemma_node(scope as int); }
                    if let NodeKind::Stmt(StmtKind::Begin) = &self.nodes[scope].kind {
                        if let Some(c) = self.find_decl(&self.nodes[scope].children, DeclFilter::AnyVar, name) {
                            return match self.proc_local_info(c) {
                                Some(info) => Some((c, info)),
                                None => None,
                            };
                        }
                    }
                    match &self.nodes[scope].kind {
                        NodeKind::Stmt(StmtKind::For { vars, .. }) => {
                            return match self.find_decl(vars, DeclFilter::Named, name) {
                                Some(c) => match self.proc_local_info(c) {
                                    Some(info) => Some((c, info)),
                                    None => None,
                                },
                                None => None,
                            };
                        },
                        NodeKind::Stmt(StmtKind::Foreach { vars, .. }) => {
                            if let Some(c) = self.find_decl_opt(vars, DeclFilter::Named, name) {
                                if let Some(info) = self.proc_local_info(c) {
                                    return Some((c, info));
                                }
                            }
                        },
                        _ => {},
                    }
                    parent = self.nodes[scope].parent;
                },
            }
        }
    }

    /// Whether a `begin` block between `scope` and the nearest loop header
    /// declaring `name` declares a variable `name`.
    pub open spec fn shadowed_spec(&self, scope: Option<usize>, name: Seq<char>) -> bool
        decreases scope_measure(scope),
    {
        match scope {
            None => false,
            Some(s) => if s >= self.nodes.len() {
                false
            } else {
                let in_begin = match self.kind(s as int) {
                    NodeKind::Stmt(StmtKind::Begin) => self.first_decl(self.nodes@[s as int].children@, DeclFilter::AnyVar, name) is Some,
                    _ => false,
                };
                let in_loop = match self.kind(s as int) {
                    NodeKind::Stmt(StmtKind::For { vars, .. }) => self.first_decl(vars@, DeclFilter::Named, name) is Some,
                    NodeKind::Stmt(StmtKind::Foreach { vars, .. }) => self.first_decl_opt(vars@, DeclFilter::Named, name) is Some,
                    _ => false,
                };
                if in_begin {
                    true
                } else if in_loop {
                    false
                } else {
                    match self.nodes@[s as int].parent {
                        Some(p) => if p < s {
                            self.shadowed_spec(Some(p), name)
                        } else {
                            false
                        },
                        None => false,
                    }
                }
            },
        }
    }

    /// Whether a `begin` block declaration shadows the procedural local a
    /// reference's name would otherwise denote.
    pub fn proc_local_is_shadowed(&self, reference: usize) -> (r: bool)
        requires
            self.wf(),
            reference < self.nodes.len(),
        ensures
            r == self.shadowed_spec(self.nodes@[reference as int].parent, self.nodes@[reference as int].name@),
    {
        proof { self.lemma_node(reference as int); }
        let name = self.nodes[reference].name.as_str();
        let mut parent = self.nodes[reference].parent;
        loop
            invariant
                self.wf(),
                name@ == self.nodes@[reference as int].name@,
                parent matches Some(p) ==> p < self.nodes.len(),
                self.shadowed_spec(parent, name@) == self.shadowed_spec(self.nodes@[reference as int].parent, name@),
            decreases scope_measure(parent),
        {
            match parent {
                None => return false,
                Some(scope) => {
                    proof { self.lemma_node(scope as int); }
                    if let NodeKind::Stmt(StmtKind::Begin) = &self.nodes[scope].kind {
                        if self.find_decl(&self.nodes[scope].children, DeclFilter::AnyVar, name).is_some() {
                            return true;
                        }
                    }
                    let is_loop_var = match &self.nodes[scope].kind {
                        NodeKind::Stmt(StmtKind::For { vars, .. }) => self.find_decl(vars, DeclFilter::Named, name).is_some(),
                        NodeKind::Stmt(StmtKind::Foreach { vars, .. }) => self.find_decl_opt(vars, DeclFilter::Named, name).is_some(),
                        _ => false,
                    };
                    if is_loop_var {
                        return false;
                    }
                    parent = self.nodes[scope].parent;
                },
            }
        }
    }

    /// A procedural local held in a C local rather than a hidden signal.
    pub open spec fn is_automatic_local(&self, node: usize) -> bool {
        self.proc_local_spec(node) matches Some(info) && info.static_signal is None
    }

    /// The automatic procedural local a node denotes, if any.
    pub open spec fn proc_local_target_spec(&self, node: usize) -> Option<usize> {
        let parent = self.nodes@[node as int].parent;
        let name = self.nodes@[node as int].name@;
        match self.local_decl(parent, name) {
            Some(v) => if self.is_automatic_local(v) {
                Some(v)
            } else {
                None
            },
            None => if self.shadowed_spec(parent, name) {
                None
            } else {
                match self.kind(node as int) {
                    NodeKind::Var { .. } => if self.is_automatic_local(node) {
                        Some(node)
                    } else {
                        None
                    },
                    NodeKind::Expr(ExprKind::Ref { target: Some(t) }) => if self.is_automatic_local(t) {
                        Some(t)
                    } else {
                        None
                    },
                    _ => None,
                }
            },
        }
    }

    fn automatic_local(&self, node: usize) -> (r: bool)
        requires
            self.wf(),
            node < self.nodes.len(),
        ensures
            r == self.is_automatic_local(node),
    {
        match self.proc_local_info(node) {
            Some(info) => info.static_signal.is_none(),
            None => false,
        }
    }

    /// The automatic procedural local a node denotes, if any.
    pub fn proc_local_target(&self, node: usize) -> (r: Option<usize>)
        requires
            self.wf(),
            node < self.nodes.len(),
        ensures
            r == self.proc_local_target_spec(node),
    {
        proof { self.lemma_node(node as int); }
        if let Some((variable, info)) = self.lexical_proc_local(node) {
            return if info.static_signal.is_none() { Some(variable) } else { None };
        }
        if self.proc_local_is_shadowed(node) {
            return None;
        }
        match &self.nodes[node].kind {
            NodeKind::Var { .. } => if self.automatic_local(node) { Some(node) } else { None },
            NodeKind::Expr(ExprKind::Ref { target: Some(t) }) => if self.automatic_local(*t) { Some(*t) } else { None },
            _ => None,
        }
    }
}

impl Codegen {
    /// The first automatic procedural local referenced in the expression
    /// tree of `node`, searching a node before its children.
    pub open spec fn nested_ref_spec(&self, node: int) -> Option<usize>
        decreases self.len() - node, self.nodes@[node].children.len() + 1,
    {
        if !(0 <= node < self.len()) {
            None
        } else {
            let n = node as usize;
            let parent = self.nodes@[node].parent;
            let name = self.nodes@[node].name@;
            let children = self.nodes@[node].children@;
            match self.local_decl(parent, name) {
                Some(v) => if self.is_automatic_local(v) {
                    Some(v)
                } else {
                    None
                },
                None => if self.shadowed_spec(parent, name) {
                    self.nested_children(node, children)
                } else {
                    match self.kind(node) {
                        NodeKind::Expr(ExprKind::Ref { target: Some(t) }) => if self.is_automatic_local(t) {
                            Some(t)
                        } else {
                            self.nested_children(node, children)
                        },
                        _ => self.nested_children(node, children),
                    }
                },
            }
        }
    }

    /// The first automatic procedural local referenced under one of `list`,
    /// the children of `node`.
    pub open spec fn nested_children(&self, node: int, list: Seq<usize>) -> Option<usize>
        decreases self.len() - node, list.len(),
    {
        if list.len() == 0 {
            None
        } else {
            let c = list[0];
            let first = if node < c < self.len() {
                self.nested_ref_spec(c as int)
            } else {
                None
            };
            match first {
                Some(x) => Some(x),
                None => self.nested_children(node, list.drop_first()),
            }
        }
    }

    /// The first automatic procedural local referenced by an expression
    /// tree: a reference that lowers to a C local of the current activation.
    pub fn nested_proc_local_ref(&self, node: usize) -> (r: Option<usize>)
        requires
            self.wf(),
            node < self.nodes.len(),
        ensures
            r == self.nested_ref_spec(node as int),
        decreases self.nodes.len() - node, self.nodes@[node as int].children.len() + 1,
    {
        proof { self.lemma_node(node as int); }
        if let Some((variable, info)) = self.lexical_proc_local(node) {
            return if info.static_signal.is_none() { Some(variable) } else { None };
        }
        if self.proc_local_is_shadowed(node) {
            return self.nested_in_children(node, &self.nodes[node].children);
        }
        if let NodeKind::Expr(ExprKind::Ref { target: Some(t) }) = &self.nodes[node].kind {
            if self.automatic_local(*t) {
                return Some(*t);
            }
        }
        self.nested_in_children(node, &self.nodes[node].children)
    }

    fn nested_in_children(&self, node: usize, list: &Vec<usize>) -> (r: Option<usize>)
        requires
            self.wf(),
            node < self.nodes.len(),
            list@ == self.nodes@[node as int].children@,
        ensures
            r == self.nested_children(node as int, list@),
        decreases self.nodes.len() - node, list.len(),
    {
        proof { self.lemma_node(node as int); }
        let mut i: usize = 0;
        assert(list@.skip(0) =~= list@);
        while i < list.len()
            invariant
                self.wf(),
                node < self.nodes.len(),
                list@ == self.nodes@[node as int].children@,
                node_ok(self.nodes@, node as int),
                i <= list.len(),
                self.nested_children(node as int, list@) == self.nested_children(node as int, list@.skip(i as int)),
            decreases list.len() - i,
        {
            assert(list@.skip(i as int).drop_first() =~= list@.skip(i + 1));
            assert(list@.skip(i as int)[0] == list@[i as int]);
            let c = list[i];
            assert(node < c < self.nodes.len());
            if let Some(x) = self.nested_proc_local_ref(c) {
                return Some(x);
            }
            i = i + 1;
        }
        None
    }

    /// Whether `node` is the iterator of some `foreach` statement.
    pub open spec fn is_foreach_iterator_spec(&self, node: usize) -> bool {
        exists|i: int| 0 <= i < self.len() && (#[trigger] self.kind(i) matches NodeKind::Stmt(StmtKind::Foreach { vars, .. })
            && vars@.contains(Some(node)))
    }

    pub fn is_foreach_iterator(&self, node: usize) -> (r: bool)
        requires
            self.wf(),
        ensures
            r == self.is_foreach_iterator_spec(node),
    {
        let mut i: usize = 0;
        while i < self.nodes.len()
            invariant
                i <= self.nodes.len(),
                forall|j: int| 0 <= j < i ==> !(#[trigger] self.kind(j) matches NodeKind::Stmt(StmtKind::Foreach { vars, .. })
                    && vars@.contains(Some(node))),
            decreases self.nodes.len() - i,
        {
            if let NodeKind::Stmt(StmtKind::Foreach { vars, body }) = &self.nodes[i].kind {
                let mut k: usize = 0;
                while k < vars.len()
                    invariant
                        k <= vars.len(),
                        i < self.nodes.len(),
                        self.nodes@[i as int].kind == NodeKind::Stmt(StmtKind::Foreach { vars: *vars, body: *body }),
                        forall|m: int| 0 <= m < k ==> vars@[m] != Some(node),
                    decreases vars.len() - k,
                {
                    if let Some(v) = vars[k] {
                        if v == node {
                            assert(vars@[k as int] == Some(node));
                            assert(self.kind(i as int) matches NodeKind::Stmt(StmtKind::Foreach { vars, .. })
                                && vars@.contains(Some(node)));
                            return true;
                        }
                    }
                    k = k + 1;
                }
                assert(!vars@.contains(Some(node)));
            }
            i = i + 1;
        }
        false
    }
}

pub fn begin_filter_exec(k: WalkKind) -> (r: DeclFilter)
    ensures
        r == begin_filter(k),
{
    match k {
        WalkKind::Mailbox => DeclFilter::Mailbox,
        WalkKind::Process => DeclFilter::Process,
        WalkKind::Semaphore => DeclFilter::Semaphore,
        WalkKind::StringLocal => DeclFilter::AnyVar,
    }
}

pub fn loop_filter_exec(k: WalkKind) -> (r: DeclFilter)
    ensures
        r == loop_filter(k),
{
    match k {
        WalkKind::Mailbox => DeclFilter::Mailbox,
        WalkKind::Process => DeclFilter::Process,
        WalkKind::Semaphore => DeclFilter::Semaphore,
        WalkKind::StringLocal => DeclFilter::Named,
    }
}

} // verus!
