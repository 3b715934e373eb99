//! Virtual-interface type identities: the nominal specialization and the
//! optional modport view of a virtual-interface spelling.

use vstd::prelude::*;
use vstd::string::{StringExecFns, StrSliceExecFns};
use crate::codegen::{Codegen, node_ok};
use crate::design::{NodeKind, ExprKind, TypeKind, TypeInfo};
use crate::names::{join, join_strings};
use crate::text::{push_char, strip_lib, strip_lib_spec, int_string, int_decimal, owned, is_white, white};

verus! {

/// Parenthesis depth before position `i` of `s`; a `)` never takes it below zero.
pub open spec fn paren_depth(s: Seq<char>, i: int) -> nat
    decreases i,
{
    if i <= 0 {
        0
    } else {
        let d = paren_depth(s, i - 1);
        if s[i - 1] == '(' {
            d + 1
        } else if s[i - 1] == ')' {
            if d == 0 { 0 } else { (d - 1) as nat }
        } else {
            d
        }
    }
}

/// The last `.` outside parentheses among the first `n` characters.
pub open spec fn last_top_dot(s: Seq<char>, n: int) -> Option<int>
    decreases n,
{
    if n <= 0 {
        None
    } else if s[n - 1] == '.' && paren_depth(s, n - 1) == 0 {
        Some(n - 1)
    } else {
        last_top_dot(s, n - 1)
    }
}

/// `s` up to its first `$`.
pub open spec fn before_dollar(s: Seq<char>) -> Seq<char>
    decreases s.len(),
{
    if s.len() == 0 {
        s
    } else if s[0] == '$' {
        seq![]
    } else {
        seq![s[0]] + before_dollar(s.drop_first())
    }
}

/// The interface identity of a spelling: the text before its modport view,
/// without any `$` suffix.
pub open spec fn vi_identity(s: Seq<char>) -> Seq<char> {
    let base = match last_top_dot(s, s.len() as int) {
        Some(i) => s.subrange(0, i),
        None => s,
    };
    before_dollar(base)
}

/// The modport view of a spelling: the non-empty text after its last
/// top-level dot.
pub open spec fn vi_view(s: Seq<char>) -> Option<Seq<char>> {
    match last_top_dot(s, s.len() as int) {
        Some(i) => if i + 1 < s.len() {
            Some(s.subrange(i + 1, s.len() as int))
        } else {
            None
        },
        None => None,
    }
}

/// `s` without its white space.
pub open spec fn strip_white(s: Seq<char>) -> Seq<char>
    decreases s.len(),
{
    if s.len() == 0 {
        s
    } else if is_white(s.last()) {
        strip_white(s.drop_last())
    } else {
        strip_white(s.drop_last()).push(s.last())
    }
}

proof fn lemma_before_dollar_whole(s: Seq<char>)
    requires
        forall|i: int| 0 <= i < s.len() ==> s[i] != '$',
    ensures
        before_dollar(s) == s,
    decreases s.len(),
{
    if s.len() > 0 {
        let t = s.drop_first();
        assert forall|i: int| 0 <= i < t.len() implies t[i] != '$' by {
            assert(t[i] == s[i + 1]);
        }
        lemma_before_dollar_whole(t);
        assert(seq![s[0]] + t =~= s);
    }
}

/// Removing white space twice removes no more than once.
pub proof fn law_normalization_idempotent(s: Seq<char>)
    ensures
        strip_white(strip_white(s)) == strip_white(s),
    decreases s.len(),
{
    if s.len() > 0 {
        law_normalization_idempotent(s.drop_last());
        let t = strip_white(s.drop_last());
        if !is_white(s.last()) {
            assert(t.push(s.last()).drop_last() =~= t);
            assert(t.push(s.last()).last() == s.last());
        }
    }
}

/// A spelling without `$` that names a modport view is its interface
/// identity, a dot, and the view.
pub proof fn law_identity_and_view_reassemble(s: Seq<char>)
    requires
        forall|i: int| 0 <= i < s.len() ==> s[i] != '$',
    ensures
        vi_view(s) matches Some(v) ==> s == vi_identity(s) + seq!['.'] + v,
{
    match last_top_dot(s, s.len() as int) {
        Some(i) => {
            lemma_top_dot_is_dot(s, s.len() as int);
            let base = s.subrange(0, i);
            assert forall|j: int| 0 <= j < base.len() implies base[j] != '$' by {
                assert(base[j] == s[j]);
            }
            lemma_before_dollar_whole(base);
            if i + 1 < s.len() {
                assert(s =~= base + seq!['.'] + s.subrange(i + 1, s.len() as int));
            }
        },
        None => {},
    }
}

proof fn lemma_top_dot_is_dot(s: Seq<char>, n: int)
    requires
        n <= s.len(),
    ensures
        last_top_dot(s, n) matches Some(i) ==> 0 <= i < n && s[i] == '.',
    decreases n,
{
    if n > 0 {
        lemma_top_dot_is_dot(s, n - 1);
    }
}

/// The position and depth bookkeeping shared by both spelling scans.
fn scan_top_dot(spelling: &str) -> (r: Option<usize>)
    ensures
        r matches Some(i) ==> last_top_dot(spelling@, spelling@.len() as int) == Some(i as int),
        r is None ==> last_top_dot(spelling@, spelling@.len() as int) is None,
        r matches Some(i) ==> i < spelling@.len(),
{
    let n = spelling.unicode_len();
    let mut depth: usize = 0;
    let mut last_dot: Option<usize> = None;
    let mut i: usize = 0;
    while i < n
        invariant
            n == spelling@.len(),
            i <= n,
            depth == paren_depth(spelling@, i as int),
            depth <= i,
            last_dot matches Some(d) ==> last_top_dot(spelling@, i as int) == Some(d as int) && d < i,
            last_dot is None ==> last_top_dot(spelling@, i as int) is None,
        decreases n - i,
    {
        let c = spelling.get_char(i);
        if c == '.' && depth == 0 {
            last_dot = Some(i);
        }
        if c == '(' {
            depth = depth + 1;
        } else if c == ')' {
            depth = if depth == 0 { 0 } else { depth - 1 };
        }
        i = i + 1;
    }
    last_dot
}

impl Codegen {
    /// Remove the modport view from a virtual-interface type spelling; dots
    /// inside parameter expressions are not view separators.
    pub fn virtual_interface_identity_from_spelling(spelling: &str) -> (r: String)
        ensures
            r@ == vi_identity(spelling@),
    {
        let base: &str = match scan_top_dot(spelling) {
            Some(i) => spelling.substring_char(0, i),
            None => spelling,
        };
        let n = base.unicode_len();
        let mut out = String::new();
        let mut i: usize = 0;
        assert(base@.skip(0) =~= base@);
        assert(out@ + before_dollar(base@) =~= before_dollar(base@));
        assert(before_dollar(base@) == vi_identity(spelling@));
        while i < n
            invariant
                n == base@.len(),
                i <= n,
                before_dollar(base@) == vi_identity(spelling@),
                before_dollar(base@) == out@ + before_dollar(base@.skip(i as int)),
            decreases n - i,
        {
            assert(base@.skip(i as int).drop_first() =~= base@.skip(i + 1));
            assert(base@.skip(i as int)[0] == base@[i as int]);
            let c = base.get_char(i);
            if c == '$' {
                assert(before_dollar(base@.skip(i as int)) =~= Seq::<char>::empty());
                assert(out@ + Seq::<char>::empty() =~= out@);
                return out;
            }
            let ghost before = out@;
            push_char(&mut out, c);
            assert(before + before_dollar(base@.skip(i as int)) =~= out@ + before_dollar(base@.skip(i + 1)));
            i = i + 1;
        }
        assert(base@.skip(n as int) =~= Seq::<char>::empty());
        assert(out@ + Seq::<char>::empty() =~= out@);
        out
    }

    /// The optional modport view of a virtual-interface type spelling.
    pub fn virtual_interface_view_from_spelling(spelling: &str) -> (r: Option<String>)
        ensures
            r matches Some(v) ==> vi_view(spelling@) == Some(v@),
            r is None ==> vi_view(spelling@) is None,
    {
        let n = spelling.unicode_len();
        match scan_top_dot(spelling) {
            Some(i) => if i + 1 < n {
                Some(owned(spelling.substring_char(i + 1, n)))
            } else {
                None
            },
            None => None,
        }
    }

    /// An identity without white space, so spellings that differ only in
    /// spacing compare equal.
    pub fn normalize_virtual_interface_identity(identity: &str) -> (r: String)
        ensures
            r@ == strip_white(identity@),
    {
        let n = identity.unicode_len();
        let mut out = String::new();
        let mut i: usize = 0;
        assert(identity@.take(0) =~= Seq::<char>::empty());
        while i < n
            invariant
                n == identity@.len(),
                i <= n,
                out@ == strip_white(identity@.take(i as int)),
            decreases n - i,
        {
            assert(identity@.take(i + 1).drop_last() =~= identity@.take(i as int));
            let c = identity.get_char(i);
            if !white(c) {
                push_char(&mut out, c);
            }
            i = i + 1;
        }
        assert(identity@.take(n as int) =~= identity@);
        out
    }

    /// The virtual-interface spelling of a type.
    pub open spec fn vi_type_spelling(ty: TypeInfo) -> Option<Seq<char>> {
        if ty.kind is VirtualInterface {
            match ty.type_label {
                Some(l) => Some(l@),
                None => None,
            }
        } else {
            None
        }
    }

    /// The leaf virtual-interface spelling of a declaration or expression.
    pub open spec fn vi_spelling(&self, node: int) -> Option<Seq<char>>
        decreases self.measure(node),
    {
        if !(0 <= node < self.len()) || !node_ok(self.nodes@, node) {
            None
        } else {
            match self.kind(node) {
                NodeKind::Var { ty } => Self::vi_type_spelling(ty),
                NodeKind::Array { ty } => Self::vi_type_spelling(ty),
                NodeKind::FuncArg { ty, .. } => Self::vi_type_spelling(ty),
                NodeKind::Expr(ExprKind::Cast { ty, .. }) => Self::vi_type_spelling(ty),
                NodeKind::Expr(ExprKind::Ref { target: Some(t) }) => self.vi_spelling(t as int),
                NodeKind::Expr(ExprKind::ArraySelect { base, .. }) => self.vi_spelling(base as int),
                _ => None,
            }
        }
    }

    fn type_spelling(ty: &TypeInfo) -> (r: Option<String>)
        ensures
            r matches Some(s) ==> Self::vi_type_spelling(*ty) == Some(s@),
            r is None ==> Self::vi_type_spelling(*ty) is None,
    {
        match ty.kind {
            TypeKind::VirtualInterface => match &ty.type_label {
                Some(l) => Some(l.clone()),
                None => None,
            },
            _ => None,
        }
    }

    /// The leaf virtual-interface spelling of a declaration: through
    /// references to their target and through array selections to the array.
    pub fn virtual_interface_spelling(&self, node: usize) -> (r: Option<String>)
        requires
            self.wf(),
            node < self.nodes.len(),
        ensures
            r matches Some(s) ==> self.vi_spelling(node as int) == Some(s@),
            r is None ==> self.vi_spelling(node as int) is None,
        decreases self.measure(node as int),
    {
        proof { self.lemma_node(node as int); }
        match &self.nodes[node].kind {
            NodeKind::Var { ty } => Self::type_spelling(ty),
            NodeKind::Array { ty } => Self::type_spelling(ty),
            NodeKind::FuncArg { ty, .. } => Self::type_spelling(ty),
            NodeKind::Expr(ExprKind::Cast { ty, .. }) => Self::type_spelling(ty),
            NodeKind::Expr(ExprKind::Ref { target: Some(t) }) => self.virtual_interface_spelling(*t),
            NodeKind::Expr(ExprKind::ArraySelect { base, .. }) => self.virtual_interface_spelling(*base),
            _ => None,
        }
    }

    /// Whether a node is a fixed array of virtual-interface handles.
    pub fn is_virtual_interface_array(&self, node: usize) -> (r: bool)
        requires
            self.wf(),
            node < self.nodes.len(),
        ensures
            r == (self.kind(node as int) is Array && self.vi_spelling(node as int) is Some),
    {
        match &self.nodes[node].kind {
            NodeKind::Array { .. } => self.virtual_interface_spelling(node).is_some(),
            _ => false,
        }
    }

    /// The `name=value` parameter entries of an interface instance, for its
    /// parameters with a known value.
    pub open spec fn param_entries(&self, list: Seq<usize>) -> Seq<Seq<char>>
        decreases list.len(),
    {
        if list.len() == 0 {
            seq![]
        } else {
            let c = list.last();
            let rest = self.param_entries(list.drop_last());
            if c < self.nodes.len() {
                match self.kind(c as int) {
                    NodeKind::Param { value: Some(v) } => rest.push(self.nodes@[c as int].name@ + seq!['='] + int_decimal(v as int)),
                    _ => rest,
                }
            } else {
                rest
            }
        }
    }

    /// The normalized identity of a concrete interface instance:
    /// its definition name, followed by `#(<params>)` when it has any.
    pub open spec fn concrete_identity(&self, node: int) -> Option<Seq<char>> {
        match self.kind(node) {
            NodeKind::ModuleInst { def_name, is_interface, .. } => if is_interface {
                let params = self.param_entries(self.nodes@[node].children@);
                let name = strip_lib_spec(def_name@);
                let identity = if params.len() == 0 {
                    name
                } else {
                    name + seq!['#', '('] + join(params, seq![',']) + seq![')']
                };
                Some(strip_white(identity))
            } else {
                None
            },
            _ => None,
        }
    }

    /// The normalized identity of a concrete interface instance.
    pub fn concrete_virtual_interface_identity(&self, node: usize) -> (r: Option<String>)
        requires
            self.wf(),
            node < self.nodes.len(),
        ensures
            r matches Some(s) ==> self.concrete_identity(node as int) == Some(s@),
            r is None ==> self.concrete_identity(node as int) is None,
    {
        proof { self.lemma_node(node as int); }
        let def_name = match &self.nodes[node].kind {
            NodeKind::ModuleInst { def_name, is_interface: true, .. } => def_name,
            _ => return None,
        };
        let children = &self.nodes[node].children;
        let mut params: Vec<String> = Vec::new();
        let mut i: usize = 0;
        assert(children@.take(0) =~= Seq::<usize>::empty());
        assert(params@.map_values(|p: String| p@) =~= Seq::<Seq<char>>::empty());
        while i < children.len()
            invariant
                self.wf(),
                node < self.nodes.len(),
                node_ok(self.nodes@, node as int),
                children@ == self.nodes@[node as int].children@,
                i <= children.len(),
                params@.map_values(|p: String| p@) == self.param_entries(children@.take(i as int)),
            decreases children.len() - i,
        {
            assert(children@.take(i + 1).drop_last() =~= children@.take(i as int));
            assert(children@.take(i + 1).last() == children@[i as int]);
            let c = children[i];
            if let NodeKind::Param { value: Some(v) } = &self.nodes[c].kind {
                let mut entry = self.nodes[c].name.clone();
                push_char(&mut entry, '=');
                entry.append(int_string(*v).as_str());
                assert(entry@ =~= self.nodes@[c as int].name@ + seq!['='] + int_decimal(*v as int));
                let ghost before = params@.map_values(|p: String| p@);
                params.push(entry);
                assert(params@.map_values(|p: String| p@) =~= before.push(entry@));
            }
            i = i + 1;
        }
        assert(children@.take(children.len() as int) =~= children@);
        let mut identity = strip_lib(def_name.as_str());
        if params.len() > 0 {
            identity.append("#(");
            identity.append(join_strings(&params, ",").as_str());
            push_char(&mut identity, ')');
            proof {
                reveal_strlit("#(");
                reveal_strlit(",");
                assert(","@ =~= seq![',']);
            }
        }
        let r = Self::normalize_virtual_interface_identity(identity.as_str());
        proof {
            let params_v = self.param_entries(self.nodes@[node as int].children@);
            let name = strip_lib_spec(def_name@);
            let id = if params_v.len() == 0 {
                name
            } else {
                name + seq!['#', '('] + join(params_v, seq![',']) + seq![')']
            };
            assert(identity@ =~= id);
        }
        Some(r)
    }

    /// The spelling a virtual-interface assignment source carries: none for
    /// `null`; the identity of a concrete interface instance (or of the
    /// instance owning a modport) that a scope reference names; else the
    /// declared spelling.
    pub open spec fn vi_source_spelling(&self, node: int) -> Option<Seq<char>> {
        match self.kind(node) {
            NodeKind::Expr(ExprKind::Constant { null: true, .. }) => None,
            NodeKind::Expr(ExprKind::ScopeRef { target }) => match self.concrete_identity(target as int) {
                Some(id) => Some(id),
                None => if self.kind(target as int) is ModPort {
                    match self.nodes@[target as int].parent {
                        Some(p) => self.concrete_identity(p as int),
                        None => None,
                    }
                } else {
                    self.vi_spelling(node)
                },
            },
            _ => self.vi_spelling(node),
        }
    }

    pub fn virtual_interface_source_spelling(&self, node: usize) -> (r: Option<String>)
        requires
            self.wf(),
            node < self.nodes.len(),
        ensures
            r matches Some(s) ==> self.vi_source_spelling(node as int) == Some(s@),
            r is None ==> self.vi_source_spelling(node as int) is None,
    {
        proof { self.lemma_node(node as int); }
        if let NodeKind::Expr(ExprKind::Constant { null: true, .. }) = &self.nodes[node].kind {
            return None;
        }
        if let NodeKind::Expr(ExprKind::ScopeRef { target }) = &self.nodes[node].kind {
            if let Some(identity) = self.concrete_virtual_interface_identity(*target) {
                return Some(identity);
            }
            proof { self.lemma_node(*target as int); }
            if let NodeKind::ModPort { .. } = &self.nodes[*target].kind {
                return match self.nodes[*target].parent {
                    Some(p) => self.concrete_virtual_interface_identity(p),
                    None => None,
                };
            }
        }
        self.virtual_interface_spelling(node)
    }

    /// Whether assigning `rhs` to the virtual-interface handle `lhs` keeps the
    /// nominal specialization, and, when both sides name a modport view,
    /// the same view.
    pub open spec fn vi_assignment_ok(&self, lhs: int, rhs: int) -> bool {
        match (self.vi_spelling(lhs), self.vi_source_spelling(rhs)) {
            (Some(d), Some(s)) => {
                &&& strip_white(vi_identity(d)) == strip_white(vi_identity(s))
                &&& match (vi_view(d), vi_view(s)) {
                    (Some(a), Some(b)) => a == b,
                    _ => true,
                }
            },
            _ => true,
        }
    }

    /// The message refusing an incompatible virtual-interface assignment.
    pub open spec fn vi_assignment_problem(&self, path: Seq<char>, lhs: int, rhs: int) -> Seq<char> {
        match (self.vi_spelling(lhs), self.vi_source_spelling(rhs)) {
            (Some(d), Some(s)) => if strip_white(vi_identity(d)) != strip_white(vi_identity(s)) {
                "virtual interface assignment in `"@ + path + "` has incompatible parameter specialization: `"@ + d
                    + "` <- `"@ + s + "`"@
            } else {
                match (vi_view(d), vi_view(s)) {
                    (Some(a), Some(b)) => "virtual interface assignment in `"@ + path
                        + "` has incompatible modport views: `"@ + a + "` <- `"@ + b + "`"@,
                    _ => Seq::empty(),
                }
            },
            _ => Seq::empty(),
        }
    }

    /// Check the specialization and modport-view compatibility of a
    /// virtual-interface assignment. A bare interface view binds any
    /// compatible modport; two distinct explicit views are incompatible.
    pub fn validate_virtual_interface_assignment(&self, lhs: usize, rhs: usize, path: &str) -> (r: Result<(), String>)
        requires
            self.wf(),
            lhs < self.nodes.len(),
            rhs < self.nodes.len(),
        ensures
            r is Ok <==> self.vi_assignment_ok(lhs as int, rhs as int),
            r matches Err(e) ==> e@ == self.vi_assignment_problem(path@, lhs as int, rhs as int),
    {
        let destination = match self.virtual_interface_spelling(lhs) {
            Some(d) => d,
            None => return Ok(()),
        };
        let source = match self.virtual_interface_source_spelling(rhs) {
            Some(s) => s,
            None => return Ok(()),
        };
        let destination_identity = Self::normalize_virtual_interface_identity(
            Self::virtual_interface_identity_from_spelling(destination.as_str()).as_str());
        let source_identity = Self::normalize_virtual_interface_identity(
            Self::virtual_interface_identity_from_spelling(source.as_str()).as_str());
        if destination_identity != source_identity {
            let mut m = owned("virtual interface assignment in `");
            m.append(path);
            m.append("` has incompatible parameter specialization: `");
            m.append(destination.as_str());
            m.append("` <- `");
            m.append(source.as_str());
            m.append("`");
            return Err(m);
        }
        if let Some(destination_view) = Self::virtual_interface_view_from_spelling(destination.as_str()) {
            if let Some(source_view) = Self::virtual_interface_view_from_spelling(source.as_str()) {
                if destination_view != source_view {
                    let mut m = owned("virtual interface assignment in `");
                    m.append(path);
                    m.append("` has incompatible modport views: `");
                    m.append(destination_view.as_str());
                    m.append("` <- `");
                    m.append(source_view.as_str());
                    m.append("`");
                    return Err(m);
                }
            }
        }
        Ok(())
    }
}

} // verus!
