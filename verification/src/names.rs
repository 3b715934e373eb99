//! HDL display names and waveform catalog names.

use vstd::prelude::*;
use vstd::string::StringExecFns;
use crate::codegen::{Codegen, node_ok};
use crate::design::{NodeKind, ExprKind, is_chain};
use crate::text::{strip_lib, strip_lib_spec, push_char, int_string, int_decimal, decimal, decimal_string};

verus! {

/// Separator between waveform name components (ASCII unit separator). It is
/// not legal inside a source identifier, so an escaped identifier such as
/// `\a.b` cannot be mistaken for two scopes.
pub const WAVEFORM_SEPARATOR: char = '\u{1f}';

/// `parts` joined by `sep`.
pub open spec fn join(parts: Seq<Seq<char>>, sep: Seq<char>) -> Seq<char>
    decreases parts.len(),
{
    if parts.len() == 0 {
        seq![]
    } else if parts.len() == 1 {
        parts[0]
    } else {
        join(parts.drop_last(), sep) + sep + parts.last()
    }
}

pub fn join_strings(parts: &Vec<String>, sep: &str) -> (r: String)
    ensures
        r@ == join(parts@.map_values(|p: String| p@), sep@),
{
    let ghost views = parts@.map_values(|p: String| p@);
    let mut r = String::new();
    let mut i: usize = 0;
    while i < parts.len()
        invariant
            i <= parts.len(),
            views == parts@.map_values(|p: String| p@),
            r@ == join(views.take(i as int), sep@),
        decreases parts.len() - i,
    {
        assert(views.take(i + 1).drop_last() =~= views.take(i as int));
        if i > 0 {
            r.append(sep);
        } else {
            assert(views.take(0) =~= Seq::<Seq<char>>::empty());
        }
        r.append(parts[i].as_str());
        i = i + 1;
    }
    assert(views.take(parts.len() as int) =~= views);
    r
}

impl Codegen {
    /// Packages and the compilation unit own runtime-environment declarations.
    pub open spec fn is_runtime_environment(&self, i: int) -> bool {
        self.kind(i) is Package || self.kind(i) is CompilationUnit
    }

    /// `lib@`-stripped name of a declaration with its scope path when
    /// available (`tb.bus`), or its package namespace (`pkg::x`, `$unit::x`).
    pub open spec fn display_name_spec(&self, id: int) -> Seq<char> {
        let n = self.node(id);
        match n.parent {
            Some(p) => if self.is_runtime_environment(p as int) {
                let namespace = if self.kind(p as int) is CompilationUnit {
                    "$unit"@
                } else {
                    strip_lib_spec(self.node(p as int).name@)
                };
                namespace + "::"@ + n.name@
            } else {
                let scope = self.node(p as int).instance_path@;
                if scope.len() == 0 {
                    strip_lib_spec(n.name@)
                } else {
                    scope + "."@ + n.name@
                }
            },
            None => strip_lib_spec(n.name@),
        }
    }

    pub fn display_name(&self, id: usize) -> (r: String)
        requires
            self.wf(),
            id < self.nodes.len(),
        ensures
            r@ == self.display_name_spec(id as int),
    {
        proof { self.lemma_node(id as int); }
        let node = &self.nodes[id];
        match node.parent {
            Some(p) => {
                let scope_node = &self.nodes[p];
                if matches!(scope_node.kind, NodeKind::Package | NodeKind::CompilationUnit) {
                    let mut namespace = if matches!(scope_node.kind, NodeKind::CompilationUnit) {
                        String::from_str("$unit")
                    } else {
                        strip_lib(scope_node.name.as_str())
                    };
                    namespace.append("::");
                    namespace.append(node.name.as_str());
                    return namespace;
                }
                let scope = &scope_node.instance_path;
                if scope.as_str().unicode_len() == 0 {
                    strip_lib(node.name.as_str())
                } else {
                    let mut name = scope.clone();
                    name.append(".");
                    name.append(node.name.as_str());
                    name
                }
            },
            None => strip_lib(node.name.as_str()),
        }
    }

    /// The waveform component a scope contributes, if any.
    pub open spec fn scope_part(&self, s: int) -> Option<Seq<char>> {
        let n = self.node(s);
        let name = match n.kind {
            NodeKind::ModuleInst { is_top: true, .. } => Some(strip_lib_spec(n.name@)),
            NodeKind::ModuleInst { .. } | NodeKind::GenScopeArray | NodeKind::GenScope => Some(n.name@),
            NodeKind::CompilationUnit => Some("$unit"@),
            NodeKind::Package => Some(n.name@),
            _ => None,
        };
        match name {
            Some(x) => if x.len() == 0 { None } else { Some(x) },
            None => None,
        }
    }

    /// The waveform components of the scopes enclosing `scope`, outermost
    /// first, including `scope` itself.
    pub open spec fn scope_parts(&self, scope: Option<usize>) -> Seq<Seq<char>>
        decreases (match scope { Some(s) => s as int + 1, None => 0 }),
    {
        match scope {
            Some(s) => if s < self.len() && (self.node(s as int).parent matches Some(p) ==> p < s) {
                let outer = self.scope_parts(self.node(s as int).parent);
                match self.scope_part(s as int) {
                    Some(part) => outer.push(part),
                    None => outer,
                }
            } else {
                seq![]
            },
            None => seq![],
        }
    }

    /// Full HDL hierarchy of a declaration for waveform metadata: its scope
    /// components and its own name, separated by `WAVEFORM_SEPARATOR`.
    /// Generate-scope spelling is kept verbatim (`g[0]`).
    pub open spec fn waveform_name_spec(&self, id: int) -> Seq<char> {
        let n = self.node(id);
        let root = match n.kind {
            NodeKind::ModuleInst { is_top: true, .. } => strip_lib_spec(n.name@),
            _ => n.name@,
        };
        join(self.scope_parts(n.parent).push(root), seq![WAVEFORM_SEPARATOR])
    }

    fn push_scope_parts(&self, scope: Option<usize>, out: &mut Vec<String>)
        requires
            self.wf(),
            scope matches Some(s) ==> s < self.nodes.len(),
        ensures
            final(out)@.map_values(|p: String| p@) == old(out)@.map_values(|p: String| p@) + self.scope_parts(scope),
        decreases (match scope { Some(s) => s as int + 1, None => 0 }),
    {
        match scope {
            None => {
                assert(old(out)@.map_values(|p: String| p@) + self.scope_parts(scope) =~= old(out)@.map_values(|p: String| p@));
            },
            Some(s) => {
                proof { self.lemma_node(s as int); }
                let node = &self.nodes[s];
                self.push_scope_parts(node.parent, out);
                let ghost mid = out@.map_values(|p: String| p@);
                let part: Option<String> = match &node.kind {
                    NodeKind::ModuleInst { is_top: true, .. } => Some(strip_lib(node.name.as_str())),
                    NodeKind::ModuleInst { .. } | NodeKind::GenScopeArray | NodeKind::GenScope => Some(node.name.clone()),
                    NodeKind::CompilationUnit => Some(String::from_str("$unit")),
                    NodeKind::Package => Some(node.name.clone()),
                    _ => None,
                };
                match part {
                    Some(name) => {
                        if name.as_str().unicode_len() != 0 {
                            out.push(name);
                            assert(out@.map_values(|p: String| p@) =~= mid.push(self.scope_part(s as int)->0));
                        }
                    },
                    None => {},
                }
                assert(out@.map_values(|p: String| p@) =~= old(out)@.map_values(|p: String| p@) + self.scope_parts(scope));
            },
        }
    }

    pub fn waveform_name(&self, id: usize) -> (r: String)
        requires
            self.wf(),
            id < self.nodes.len(),
        ensures
            r@ == self.waveform_name_spec(id as int),
    {
        proof { self.lemma_node(id as int); }
        let node = &self.nodes[id];
        let root = match &node.kind {
            NodeKind::ModuleInst { is_top: true, .. } => strip_lib(node.name.as_str()),
            _ => node.name.clone(),
        };
        let mut parts: Vec<String> = Vec::new();
        self.push_scope_parts(node.parent, &mut parts);
        let ghost before = parts@.map_values(|p: String| p@);
        parts.push(root);
        assert(parts@.map_values(|p: String| p@) =~= before.push(root@));
        let mut separator = String::new();
        push_char(&mut separator, WAVEFORM_SEPARATOR);
        assert(separator@ =~= seq![WAVEFORM_SEPARATOR]);
        join_strings(&parts, separator.as_str())
    }

    /// The waveform name used for `id` in the waveform metadata.
    pub fn waveform_name_for(&self, id: usize) -> (r: String)
        requires
            self.wf(),
            id < self.nodes.len(),
        ensures
            r@ == self.waveform_name_spec(id as int),
    {
        self.waveform_name(id)
    }

    /// The last resolved component of a hierarchical reference that is an array.
    pub open spec fn last_array_ref(&self, refs: Seq<Option<usize>>) -> Option<usize>
        decreases refs.len(),
    {
        if refs.len() == 0 {
            None
        } else {
            match refs.last() {
                Some(t) if self.kind(t as int) is Array => Some(t),
                _ => self.last_array_ref(refs.drop_last()),
            }
        }
    }

    /// The array declaration a `$dumpvars` array selection base names.
    pub open spec fn waveform_array_target_spec(&self, node: int) -> Option<usize> {
        match self.kind(node) {
            NodeKind::Array { .. } => Some(node as usize),
            NodeKind::Expr(ExprKind::Ref { target: Some(t) }) => if self.kind(t as int) is Array {
                Some(t)
            } else {
                None
            },
            NodeKind::Expr(ExprKind::HierPath { refs }) => self.last_array_ref(refs@),
            _ => None,
        }
    }

    pub fn waveform_array_target(&self, node: usize) -> (r: Option<usize>)
        requires
            self.wf(),
            node < self.nodes.len(),
        ensures
            r == self.waveform_array_target_spec(node as int),
            r matches Some(t) ==> t < self.nodes.len(),
    {
        proof { self.lemma_node(node as int); }
        match &self.nodes[node].kind {
            NodeKind::Array { .. } => Some(node),
            NodeKind::Expr(ExprKind::Ref { target: Some(t) }) => {
                if matches!(self.nodes[*t].kind, NodeKind::Array { .. }) {
                    Some(*t)
                } else {
                    None
                }
            },
            NodeKind::Expr(ExprKind::HierPath { refs }) => {
                let mut k = refs.len();
                assert(refs@.subrange(0, k as int) =~= refs@);
                while k > 0
                    invariant
                        k <= refs.len(),
                        self.wf(),
                        node_ok(self.nodes@, node as int),
                        self.nodes@[node as int].kind == NodeKind::Expr(ExprKind::HierPath { refs: *refs }),
                        self.last_array_ref(refs@) == self.last_array_ref(refs@.subrange(0, k as int)),
                    decreases k,
                {
                    assert(refs@.subrange(0, k as int).drop_last() =~= refs@.subrange(0, k - 1));
                    match refs[k - 1] {
                        Some(t) => {
                            assert(refs@[k - 1] matches Some(t) ==> t < self.nodes.len());
                            if matches!(self.nodes[t].kind, NodeKind::Array { .. }) {
                                return Some(t);
                            }
                        },
                        None => {},
                    }
                    k = k - 1;
                }
                None
            },
            _ => None,
        }
    }
}

impl Codegen {
    /// The last resolved component of a hierarchical reference.
    pub open spec fn last_ref(refs: Seq<Option<usize>>) -> Option<usize>
        decreases refs.len(),
    {
        if refs.len() == 0 {
            None
        } else {
            match refs.last() {
                Some(t) => Some(t),
                None => Self::last_ref(refs.drop_last()),
            }
        }
    }

    /// The `[index]` suffixes of a constant array selection of array `name`
    /// within the declared bounds; the error says which index is not
    /// constant or out of bounds.
    pub open spec fn index_suffix(&self, indices: Seq<usize>, dims: Seq<(i32, i32)>, name: Seq<char>)
        -> Result<Seq<char>, Seq<char>>
        decreases indices.len(),
    {
        if indices.len() == 0 {
            Ok(seq![])
        } else {
            let k = indices.len() - 1;
            match self.index_suffix(indices.drop_last(), dims, name) {
                Err(e) => Err(e),
                Ok(prefix) => match self.const_value(indices.last() as int) {
                    None => Err("`$dumpvars` array index for `"@ + name + "` must be a resolved constant: "@
                        + "expression is not an elaboration-time constant"@),
                    Some(v) => {
                        let (left, right) = dims[k];
                        let low = if left <= right { left } else { right };
                        let high = if left <= right { right } else { left };
                        if v < low || v > high {
                            Err("`$dumpvars` array index "@ + int_decimal(v as int) + " for `"@ + name
                                + "` is outside declared bounds ["@ + int_decimal(left as int) + ":"@
                                + int_decimal(right as int) + "]"@)
                        } else {
                            Ok(prefix + seq!['['] + int_decimal(v as int) + seq![']'])
                        }
                    },
                },
            }
        }
    }

    /// The waveform catalog identity a `$dumpvars` argument selects, or the
    /// message saying why it selects none.
    pub open spec fn waveform_selection_spec(&self, node: int) -> Result<Seq<char>, Seq<char>>
        decreases self.measure(node),
    {
        let name = self.nodes@[node].name@;
        let refused = "`$dumpvars` argument `"@ + name + "` is not a scope or dumpable storage reference"@;
        if !(0 <= node < self.len()) || !node_ok(self.nodes@, node) {
            Err(refused)
        } else {
            match self.kind(node) {
                NodeKind::Expr(ExprKind::ScopeRef { target }) => self.waveform_selection_spec(target as int),
                NodeKind::Expr(ExprKind::Ref { target: Some(t) }) => self.waveform_selection_spec(t as int),
                NodeKind::Expr(ExprKind::Ref { target: None }) =>
                    Err("`$dumpvars` reference `"@ + name + "` has no resolved target"@),
                NodeKind::Expr(ExprKind::HierPath { refs }) => match Self::last_ref(refs@) {
                    Some(t) => if t < self.len() && !is_chain(self.kind(t as int)) {
                        self.waveform_selection_spec(t as int)
                    } else {
                        Err(refused)
                    },
                    None => Err("`$dumpvars` hierarchy `"@ + name + "` has no resolved target"@),
                },
                NodeKind::Expr(ExprKind::Cast { operand, .. }) => self.waveform_selection_spec(operand as int),
                NodeKind::Expr(ExprKind::ArraySelect { base, indices }) => {
                    match self.waveform_array_target_spec(base as int) {
                        None => Err("cannot resolve `$dumpvars` array selection `"@ + name + "`"@),
                        Some(target) => {
                            let tname = self.nodes@[target as int].name@;
                            match self.array_spec(base as int) {
                                None => Err("array `"@ + tname + "` is not represented in the waveform catalog"@),
                                Some(info) => if indices.len() != info.dims.len() {
                                    Err("`$dumpvars` array selection `"@ + tname + "` requires "@
                                        + decimal(info.dims.len() as nat) + " declared indices"@)
                                } else {
                                    match self.index_suffix(indices@, info.dims@, tname) {
                                        Ok(suffix) => Ok(self.waveform_name_spec(target as int) + suffix),
                                        Err(e) => Err(e),
                                    }
                                },
                            }
                        },
                    }
                },
                NodeKind::ModuleInst { .. } | NodeKind::GenScopeArray | NodeKind::GenScope
                | NodeKind::Port { .. } | NodeKind::Net { .. } | NodeKind::Var { .. }
                | NodeKind::Array { .. } => Ok(self.waveform_name_spec(node)),
                _ => Err(refused),
            }
        }
    }

    /// The last resolved component of a hierarchical reference.
    pub fn last_resolved(&self, refs: &Vec<Option<usize>>) -> (r: Option<usize>)
        requires
            self.wf(),
            forall|k: int| 0 <= k < refs.len() ==> (#[trigger] refs@[k] matches Some(t) ==> t < self.nodes.len() && !is_chain(self.nodes@[t as int].kind)),
        ensures
            r == Self::last_ref(refs@),
            r matches Some(t) ==> t < self.nodes.len() && !is_chain(self.nodes@[t as int].kind),
    {
        let mut k = refs.len();
        assert(refs@.subrange(0, k as int) =~= refs@);
        while k > 0
            invariant
                k <= refs.len(),
                Self::last_ref(refs@) == Self::last_ref(refs@.subrange(0, k as int)),
                forall|j: int| 0 <= j < refs.len() ==> (#[trigger] refs@[j] matches Some(t) ==> t < self.nodes.len() && !is_chain(self.nodes@[t as int].kind)),
            decreases k,
        {
            assert(refs@.subrange(0, k as int).drop_last() =~= refs@.subrange(0, k - 1));
            match refs[k - 1] {
                Some(t) => {
                    assert(refs@[k - 1] == refs@[(k - 1) as int]);
                    return Some(t);
                },
                None => {},
            }
            k = k - 1;
        }
        None
    }

    pub(crate) fn node_message(&self, prefix: &str, node: usize, suffix: &str) -> (r: String)
        requires
            self.wf(),
            node < self.nodes.len(),
        ensures
            r@ == prefix@ + self.nodes@[node as int].name@ + suffix@,
    {
        let mut m = String::from_str(prefix);
        m.append(self.nodes[node].name.as_str());
        m.append(suffix);
        m
    }

    /// Resolve a `$dumpvars` argument to the HDL identity used by the
    /// waveform catalog, from its semantic target rather than a C name.
    pub fn waveform_selection_name(&self, node: usize) -> (r: Result<String, String>)
        requires
            self.wf(),
            node < self.nodes.len(),
        ensures
            self.waveform_selection_spec(node as int) == (match r {
                Ok(name) => Ok(name@),
                Err(e) => Err(e@),
            }),
        decreases self.measure(node as int),
    {
        proof { self.lemma_node(node as int); }
        match &self.nodes[node].kind {
            NodeKind::Expr(ExprKind::ScopeRef { target }) => self.waveform_selection_name(*target),
            NodeKind::Expr(ExprKind::Ref { target }) => match target {
                Some(t) => self.waveform_selection_name(*t),
                None => Err(self.node_message("`$dumpvars` reference `", node, "` has no resolved target")),
            },
            NodeKind::Expr(ExprKind::HierPath { refs }) => {
                match self.last_resolved(refs) {
                    Some(t) => self.waveform_selection_name(t),
                    None => Err(self.node_message("`$dumpvars` hierarchy `", node, "` has no resolved target")),
                }
            },
            NodeKind::Expr(ExprKind::Cast { operand, .. }) => self.waveform_selection_name(*operand),
            NodeKind::Expr(ExprKind::ArraySelect { base, indices }) => {
                let target = match self.waveform_array_target(*base) {
                    Some(t) => t,
                    None => return Err(self.node_message("cannot resolve `$dumpvars` array selection `", node, "`")),
                };
                let info = match self.array_of(*base) {
                    Some(info) => info,
                    None => return Err(self.node_message("array `", target, "` is not represented in the waveform catalog")),
                };
                let ghost tname = self.nodes@[target as int].name@;
                if indices.len() != info.dims.len() {
                    let mut m = self.node_message("`$dumpvars` array selection `", target, "` requires ");
                    m.append(decimal_string(info.dims.len() as u128).as_str());
                    m.append(" declared indices");
                    return Err(m);
                }
                let mut name = self.waveform_name(target);
                let mut i: usize = 0;
                assert(forall|k: int| 0 <= k < indices.len() ==> #[trigger] indices@[k] < self.nodes.len());
                assert(indices@.take(0) =~= Seq::<usize>::empty());
                while i < indices.len()
                    invariant
                        self.wf(),
                        i <= indices.len(),
                        indices.len() == info.dims.len(),
                        node_ok(self.nodes@, node as int),
                        self.nodes@[node as int].kind == NodeKind::Expr(ExprKind::ArraySelect { base: *base, indices: *indices }),
                        target < self.nodes.len(),
                        tname == self.nodes@[target as int].name@,
                        self.waveform_array_target_spec(*base as int) == Some(target),
                        self.array_spec(*base as int) == Some(*info),
                        forall|k: int| 0 <= k < indices.len() ==> #[trigger] indices@[k] < self.nodes.len(),
                        self.index_suffix(indices@.take(i as int), info.dims@, tname) matches Ok(sfx)
                            && name@ == self.waveform_name_spec(target as int) + sfx,
                    decreases indices.len() - i,
                {
                    assert(indices@.take(i + 1).drop_last() =~= indices@.take(i as int));
                    assert(indices@.take(i + 1).last() == indices@[i as int]);
                    let value = match self.eval_bound_i128(indices[i]) {
                        Ok(v) => v,
                        Err(e) => {
                            proof { self.lemma_suffix_err(indices@, info.dims@, tname, (i + 1) as int); }
                            let mut m = self.node_message("`$dumpvars` array index for `", target,
                                "` must be a resolved constant: ");
                            m.append(e.as_str());
                            assert(self.index_suffix(indices@.take(i + 1), info.dims@, tname) == Err::<Seq<char>, Seq<char>>(m@));
                            return Err(m);
                        },
                    };
                    let (left, right) = info.dims[i];
                    let low = if left <= right { left } else { right };
                    let high = if left <= right { right } else { left };
                    if value < low as i128 || value > high as i128 {
                        proof { self.lemma_suffix_err(indices@, info.dims@, tname, (i + 1) as int); }
                        let mut m = String::from_str("`$dumpvars` array index ");
                        m.append(int_string(value).as_str());
                        m.append(" for `");
                        m.append(self.nodes[target].name.as_str());
                        m.append("` is outside declared bounds [");
                        m.append(int_string(left as i128).as_str());
                        m.append(":");
                        m.append(int_string(right as i128).as_str());
                        m.append("]");
                        assert(self.index_suffix(indices@.take(i + 1), info.dims@, tname) == Err::<Seq<char>, Seq<char>>(m@));
                        return Err(m);
                    }
                    push_char(&mut name, '[');
                    let text = int_string(value);
                    name.append(text.as_str());
                    push_char(&mut name, ']');
                    i = i + 1;
                }
                assert(indices@.take(indices.len() as int) =~= indices@);
                Ok(name)
            },
            NodeKind::ModuleInst { .. } | NodeKind::GenScopeArray | NodeKind::GenScope
            | NodeKind::Port { .. } | NodeKind::Net { .. } | NodeKind::Var { .. }
            | NodeKind::Array { .. } => Ok(self.waveform_name(node)),
            _ => Err(self.node_message("`$dumpvars` argument `", node, "` is not a scope or dumpable storage reference")),
        }
    }

    /// A failed index makes every longer selection fail with its message.
    proof fn lemma_suffix_err(&self, indices: Seq<usize>, dims: Seq<(i32, i32)>, name: Seq<char>, n: int)
        requires
            1 <= n <= indices.len(),
            self.index_suffix(indices.take(n), dims, name) is Err,
        ensures
            self.index_suffix(indices, dims, name) == self.index_suffix(indices.take(n), dims, name),
        decreases indices.len() - n,
    {
        if n < indices.len() {
            assert(indices.take(n + 1).drop_last() =~= indices.take(n));
            self.lemma_suffix_err(indices, dims, name, n + 1);
        } else {
            assert(indices.take(n) =~= indices);
        }
    }
}

impl Codegen {
    /// Every enclosing scope that names a level of the hierarchy adds one
    /// waveform component after those of its own enclosing scopes: a module
    /// instance, generate scope or generate-scope array its name (a top
    /// module without its library prefix), a package its name and the
    /// compilation unit `$unit`; an unnamed scope and any other node add
    /// none.
    pub proof fn law_scope_components(&self, s: usize)
        requires
            self.wf(),
            s < self.nodes.len(),
        ensures
            ({
                let n = self.nodes@[s as int];
                let outer = self.scope_parts(n.parent);
                let named = |x: Seq<char>| if x.len() == 0 { outer } else { outer.push(x) };
                self.scope_parts(Some(s)) == match n.kind {
                    NodeKind::ModuleInst { is_top: true, .. } => named(strip_lib_spec(n.name@)),
                    NodeKind::ModuleInst { .. } => named(n.name@),
                    NodeKind::GenScope => named(n.name@),
                    NodeKind::GenScopeArray => named(n.name@),
                    NodeKind::Package => named(n.name@),
                    NodeKind::CompilationUnit => named("$unit"@),
                    _ => outer,
                }
            }),
    {
        self.lemma_node(s as int);
    }

    /// The waveform name of a declaration is its enclosing scopes'
    /// components followed by its own name, joined by the separator.
    pub proof fn law_waveform_name_components(&self, id: usize)
        requires
            self.wf(),
            id < self.nodes.len(),
            !(self.nodes@[id as int].kind is ModuleInst),
        ensures
            self.waveform_name_spec(id as int) == join(self.scope_parts(self.nodes@[id as int].parent)
                .push(self.nodes@[id as int].name@), seq![WAVEFORM_SEPARATOR]),
    {
    }
}

impl Codegen {
    /// The waveform name of a declaration is its enclosing scopes'
    /// components followed by its own name (without a library prefix for a
    /// top module), separated by the unit separator U+001F.
    pub proof fn law_waveform_name_root(&self, id: usize)
        ensures
            WAVEFORM_SEPARATOR == '\u{1f}',
            self.waveform_name_spec(id as int) == join(self.scope_parts(self.nodes@[id as int].parent).push(
                match self.nodes@[id as int].kind {
                    NodeKind::ModuleInst { is_top: true, .. } => strip_lib_spec(self.nodes@[id as int].name@),
                    _ => self.nodes@[id as int].name@,
                }), seq!['\u{1f}']),
    {
    }
}

/// Joining components puts the separator between consecutive components
/// and nowhere else.
pub proof fn law_join_components(parts: Seq<Seq<char>>, x: Seq<char>, sep: Seq<char>)
    ensures
        join(seq![], sep) == Seq::<char>::empty(),
        join(seq![x], sep) == x,
        parts.len() > 0 ==> join(parts.push(x), sep) == join(parts, sep) + sep + x,
{
    assert(parts.push(x).drop_last() =~= parts);
}

} // verus!
