//! Subprogram locals: the C locals a function or task body declares at its
//! entry, named in declaration order.

use vstd::prelude::*;
use vstd::string::StringExecFns;
use crate::codegen::{Codegen, node_ok};
use crate::design::{
    NodeKind, StmtKind, TypeKind, TypeInfo, VariableLifetime, LifetimeQualifier, is_handle_kind, is_real_kind,
    is_two_state_kind, handle_kind, real_kind, two_state_kind,
};
use crate::ir::LLG_MAX_WIDTH;
use crate::text::{decimal, decimal_string, push_char, str_is, digit_char};

verus! {

/// A subprogram local lowered to a C local.
pub struct FuncLocal {
    pub c_name: String,
    pub width: u32,
    pub signed: bool,
    pub two_state: bool,
    pub shortreal: bool,
}

pub open spec fn func_local_view(l: Option<FuncLocal>) -> Option<(Seq<char>, u32, bool, bool, bool)> {
    match l {
        Some(l) => Some((l.c_name@, l.width, l.signed, l.two_state, l.shortreal)),
        None => None,
    }
}

pub open spec fn name_view(n: Option<String>) -> Option<Seq<char>> {
    match n {
        Some(s) => Some(s@),
        None => None,
    }
}

/// The locals collected so far: value locals, `chandle` (and class handle)
/// locals and process-handle locals by declaration, and the next number.
pub struct LocalNames {
    pub locals: Seq<Option<(Seq<char>, u32, bool, bool, bool)>>,
    pub chandles: Seq<Option<Seq<char>>>,
    pub procs: Seq<Option<Seq<char>>>,
    pub seq: nat,
}

pub open spec fn local_names(locals: Seq<Option<FuncLocal>>, chandles: Seq<Option<String>>,
    procs: Seq<Option<String>>, seq: usize) -> LocalNames
{
    LocalNames {
        locals: locals.map_values(|l: Option<FuncLocal>| func_local_view(l)),
        chandles: chandles.map_values(|n: Option<String>| name_view(n)),
        procs: procs.map_values(|n: Option<String>| name_view(n)),
        seq: seq as nat,
    }
}

/// `<prefix>_<tag><seq>`.
pub open spec fn local_c_name(prefix: Seq<char>, tag: char, seq: nat) -> Seq<char> {
    prefix + seq!['_', tag] + decimal(seq)
}

/// The empty slots of a table.
pub open spec fn empty_slots<T>(s: Seq<Option<T>>) -> nat
    decreases s.len(),
{
    if s.len() == 0 {
        0
    } else {
        empty_slots(s.drop_last()) + if s.last() is None { 1nat } else { 0nat }
    }
}

proof fn lemma_fill_slot<T>(s: Seq<Option<T>>, i: int, x: T)
    requires
        0 <= i < s.len(),
        s[i] is None,
    ensures
        empty_slots(s.update(i, Some(x))) + 1 == empty_slots(s),
    decreases s.len(),
{
    if i < s.len() - 1 {
        assert(s.update(i, Some(x)).drop_last() =~= s.drop_last().update(i, Some(x)));
        lemma_fill_slot(s.drop_last(), i, x);
    } else {
        assert(s.update(i, Some(x)).drop_last() =~= s.drop_last());
    }
}

proof fn lemma_view_slots<T, V>(s: Seq<Option<T>>, f: spec_fn(Option<T>) -> Option<V>)
    requires
        forall|o: Option<T>| (#[trigger] f(o)) is None <==> o is None,
    ensures
        empty_slots(s.map_values(f)) == empty_slots(s),
    decreases s.len(),
{
    if s.len() > 0 {
        assert(s.map_values(f).drop_last() =~= s.drop_last().map_values(f));
        lemma_view_slots(s.drop_last(), f);
    }
}

pub open spec fn free_slots(st: LocalNames) -> nat {
    empty_slots(st.locals) + empty_slots(st.chandles) + empty_slots(st.procs)
}

impl Codegen {
    /// Width and shortreal-ness of a value local of type `ty`: none for a
    /// string, zero width for a real, else its declared packed width within
    /// the runtime limit.
    pub open spec fn func_local_shape(ty: TypeInfo) -> Option<(u32, bool)> {
        if ty.kind is String {
            Some((0, false))
        } else if is_real_kind(ty.kind) {
            Some((0, ty.kind is ShortReal))
        } else {
            match ty.width {
                Some(w) => if w <= LLG_MAX_WIDTH { Some((w, false)) } else { None },
                None => None,
            }
        }
    }

    pub open spec fn is_process_class(ty: TypeInfo) -> bool {
        ty.kind is Class && (ty.type_label matches Some(l) && l@ == "process"@)
    }

    /// Why a subprogram local's lifetime keyword cannot be read.
    pub open spec fn lifetime_problem(&self, node: int) -> Seq<char> {
        if self.nodes@[node].lifetime_qualifier == LifetimeQualifier::Ambiguous {
            "subprogram local `"@ + self.nodes@[node].name@ + "` has ambiguous explicit lifetime provenance"@
        } else {
            "cannot determine whether subprogram local `"@ + self.nodes@[node].name@
                + "` has an explicit lifetime qualifier because admitted source provenance is unavailable"@
        }
    }

    /// What declaration `node` of type `ty` adds: a handle local, a process
    /// handle local (automatic only), or a value local; a declaration seen
    /// before adds nothing. The error is the message the refusal carries.
    pub open spec fn var_locals(&self, node: int, ty: TypeInfo, prefix: Seq<char>, st: LocalNames) -> Result<LocalNames, Seq<char>> {
        let q = self.nodes@[node].lifetime_qualifier;
        let name = self.nodes@[node].name@;
        if !(q == LifetimeQualifier::Unqualified || q == LifetimeQualifier::Static || q == LifetimeQualifier::Automatic) {
            Err(self.lifetime_problem(node))
        } else if is_handle_kind(ty.kind) {
            if st.chandles[node] is Some {
                Ok(st)
            } else {
                Ok(LocalNames {
                    chandles: st.chandles.update(node, Some(local_c_name(prefix, 'l', st.seq))),
                    seq: st.seq + 1,
                    ..st
                })
            }
        } else if Self::is_process_class(ty) {
            if self.nodes@[node].lifetime != VariableLifetime::Automatic {
                Err("static process handle `"@ + name + "` in subprogram is not supported"@)
            } else if st.procs[node] is Some {
                Ok(st)
            } else {
                Ok(LocalNames {
                    procs: st.procs.update(node, Some(local_c_name(prefix, 'p', st.seq))),
                    seq: st.seq + 1,
                    ..st
                })
            }
        } else if st.locals[node] is Some {
            Ok(st)
        } else {
            match Self::func_local_shape(ty) {
                Some((w, shortreal)) => Ok(LocalNames {
                    locals: st.locals.update(node, Some((local_c_name(prefix, 'l', st.seq), w,
                        if w == 0 { false } else { ty.signed },
                        if w == 0 { false } else { is_two_state_kind(ty.kind) }, shortreal))),
                    seq: st.seq + 1,
                    ..st
                }),
                None => match ty.width {
                    Some(w) => Err("local `"@ + name + "` is "@ + decimal(w as nat)
                        + " bits wide; the runtime supports at most 65536"@),
                    None => Err("local `"@ + name + "` has no width"@),
                },
            }
        }
    }

    /// The locals of the statement tree rooted at `node`: loop variables of
    /// `for` and `foreach` belong to the loop, not to the subprogram, so only
    /// a loop's body is walked; an error with the message of the first refused declaration.
    pub open spec fn func_locals_spec(&self, node: int, prefix: Seq<char>, st: LocalNames) -> Result<LocalNames, Seq<char>>
        decreases self.len() - node, 1int, 0int,
    {
        if !(0 <= node < self.len()) || !node_ok(self.nodes@, node) {
            Ok(st)
        } else {
            match self.kind(node) {
                NodeKind::Stmt(StmtKind::For { body, .. }) => self.func_locals_spec(body as int, prefix, st),
                NodeKind::Stmt(StmtKind::Foreach { body, .. }) => self.func_locals_spec(body as int, prefix, st),
                NodeKind::Var { ty } => if self.is_foreach_iterator_spec(node as usize) {
                    Ok(st)
                } else {
                    self.var_locals(node, ty, prefix, st)
                },
                _ => if self.is_foreach_iterator_spec(node as usize) {
                    Ok(st)
                } else {
                    self.func_locals_children(node, 0, prefix, st)
                },
            }
        }
    }

    pub open spec fn func_locals_children(&self, node: int, k: int, prefix: Seq<char>, st: LocalNames) -> Result<LocalNames, Seq<char>>
        decreases self.len() - node, 0int, self.nodes@[node].children.len() - k,
    {
        let children = self.nodes@[node].children@;
        if !(0 <= node < self.len()) || k < 0 || k >= children.len() {
            Ok(st)
        } else {
            let c = children[k] as int;
            if !(node < c < self.len()) {
                Ok(st)
            } else {
                match self.func_locals_spec(c, prefix, st) {
                    Ok(next) => self.func_locals_children(node, k + 1, prefix, next),
                    Err(e) => Err(e),
                }
            }
        }
    }
}


fn local_name(prefix: &str, tag: char, seq: usize) -> (r: String)
    ensures
        r@ == local_c_name(prefix@, tag, seq as nat),
{
    let mut s = String::from_str(prefix);
    push_char(&mut s, '_');
    push_char(&mut s, tag);
    let n = decimal_string(seq as u128);
    s.append(n.as_str());
    s
}

impl Codegen {
    proof fn lemma_slot_free<T>(&self, s: Seq<Option<T>>, i: int)
        requires
            0 <= i < s.len(),
            s[i] is None,
        ensures
            empty_slots(s) >= 1,
    {
        let x: T = arbitrary();
        lemma_fill_slot(s, i, x);
    }

    fn collect_var_local(&self, node: usize, ty: &TypeInfo, locals: &mut Vec<Option<FuncLocal>>,
        chandle_locals: &mut Vec<Option<String>>, process_locals: &mut Vec<Option<String>>, seq: &mut usize,
        prefix: &str) -> (r: Result<(), String>)
        requires
            self.wf(),
            node < self.nodes.len(),
            old(locals).len() == self.nodes.len(),
            old(chandle_locals).len() == self.nodes.len(),
            old(process_locals).len() == self.nodes.len(),
            *old(seq) + free_slots(local_names(old(locals)@, old(chandle_locals)@, old(process_locals)@, *old(seq)))
                <= usize::MAX,
        ensures
            final(locals).len() == self.nodes.len(),
            final(chandle_locals).len() == self.nodes.len(),
            final(process_locals).len() == self.nodes.len(),
            self.var_locals(node as int, *ty, prefix@,
                local_names(old(locals)@, old(chandle_locals)@, old(process_locals)@, *old(seq)))
                == (match r {
                    Ok(_) => Ok(local_names(final(locals)@, final(chandle_locals)@, final(process_locals)@, *final(seq))),
                    Err(e) => Err(e@),
                }),
            *final(seq) + free_slots(local_names(final(locals)@, final(chandle_locals)@, final(process_locals)@, *final(seq)))
                == *old(seq) + free_slots(local_names(old(locals)@, old(chandle_locals)@, old(process_locals)@, *old(seq))),
    {
        let ghost st = local_names(locals@, chandle_locals@, process_locals@, *seq);
        if let Err(e) = self.explicit_local_lifetime(node) {
            return Err(e);
        }
        if handle_kind(&ty.kind) {
            if chandle_locals[node].is_none() {
                proof {
                    self.lemma_slot_free(st.chandles, node as int);
                }
                let name = local_name(prefix, 'l', *seq);
                let ghost nv = name@;
                chandle_locals.set(node, Some(name));
                proof {
                    assert(chandle_locals@.map_values(|n: Option<String>| name_view(n))
                        =~= st.chandles.update(node as int, Some(nv)));
                    lemma_fill_slot(st.chandles, node as int, nv);
                }
                *seq = *seq + 1;
            }
            return Ok(());
        }
        let is_process = match (&ty.kind, &ty.type_label) {
            (TypeKind::Class, Some(l)) => str_is(l.as_str(), "process"),
            _ => false,
        };
        if is_process {
            match self.nodes[node].lifetime {
                VariableLifetime::Automatic => {},
                _ => {
                    let mut m = String::from_str("static process handle `");
                    m.append(self.nodes[node].name.as_str());
                    m.append("` in subprogram is not supported");
                    return Err(m);
                },
            }
            if process_locals[node].is_none() {
                proof {
                    self.lemma_slot_free(st.procs, node as int);
                }
                let name = local_name(prefix, 'p', *seq);
                let ghost nv = name@;
                process_locals.set(node, Some(name));
                proof {
                    assert(process_locals@.map_values(|n: Option<String>| name_view(n))
                        =~= st.procs.update(node as int, Some(nv)));
                    lemma_fill_slot(st.procs, node as int, nv);
                }
                *seq = *seq + 1;
            }
            return Ok(());
        }
        if locals[node].is_some() {
            return Ok(());
        }
        let (w, shortreal): (u32, bool) = match ty.kind {
            TypeKind::String => (0, false),
            _ => if real_kind(&ty.kind) {
                (0, match ty.kind { TypeKind::ShortReal => true, _ => false })
            } else {
                match ty.width {
                    Some(w) => if w <= LLG_MAX_WIDTH {
                        (w, false)
                    } else {
                        let mut m = String::from_str("local `");
                        m.append(self.nodes[node].name.as_str());
                        m.append("` is ");
                        m.append(decimal_string(w as u128).as_str());
                        m.append(" bits wide; the runtime supports at most 65536");
                        return Err(m);
                    },
                    None => {
                        let mut m = String::from_str("local `");
                        m.append(self.nodes[node].name.as_str());
                        m.append("` has no width");
                        return Err(m);
                    },
                }
            },
        };
        proof {
            self.lemma_slot_free(st.locals, node as int);
        }
        let name = local_name(prefix, 'l', *seq);
        let local = FuncLocal {
            c_name: name,
            width: w,
            signed: if w == 0 { false } else { ty.signed },
            two_state: if w == 0 { false } else { two_state_kind(&ty.kind) },
            shortreal,
        };
        let ghost lv = func_local_view(Some(local));
        locals.set(node, Some(local));
        proof {
            assert(locals@.map_values(|l: Option<FuncLocal>| func_local_view(l)) =~= st.locals.update(node as int, lv));
            lemma_fill_slot(st.locals, node as int, lv->Some_0);
        }
        *seq = *seq + 1;
        Ok(())
    }

    /// Collect the C locals a subprogram body declares at its entry, in
    /// declaration order, each named `<prefix>_l<n>` (`<prefix>_p<n>` for a
    /// process handle) with `n` counting up from `seq`. Loop variables of
    /// `for` and `foreach` belong to their loop, and `foreach` iterators to
    /// theirs. Refused for a local without a usable lifetime, a static
    /// process handle, and a local without a width or wider than the
    /// runtime supports.
    pub fn collect_func_locals(&self, node: usize, inst: usize, locals: &mut Vec<Option<FuncLocal>>,
        chandle_locals: &mut Vec<Option<String>>, process_locals: &mut Vec<Option<String>>, seq: &mut usize,
        prefix: &str) -> (r: Result<(), String>)
        requires
            self.wf(),
            node < self.nodes.len(),
            old(locals).len() == self.nodes.len(),
            old(chandle_locals).len() == self.nodes.len(),
            old(process_locals).len() == self.nodes.len(),
            *old(seq) + free_slots(local_names(old(locals)@, old(chandle_locals)@, old(process_locals)@, *old(seq)))
                <= usize::MAX,
        ensures
            final(locals).len() == self.nodes.len(),
            final(chandle_locals).len() == self.nodes.len(),
            final(process_locals).len() == self.nodes.len(),
            self.func_locals_spec(node as int, prefix@,
                local_names(old(locals)@, old(chandle_locals)@, old(process_locals)@, *old(seq)))
                == (match r {
                    Ok(_) => Ok(local_names(final(locals)@, final(chandle_locals)@, final(process_locals)@, *final(seq))),
                    Err(e) => Err(e@),
                }),
            *final(seq) + free_slots(local_names(final(locals)@, final(chandle_locals)@, final(process_locals)@, *final(seq)))
                == *old(seq) + free_slots(local_names(old(locals)@, old(chandle_locals)@, old(process_locals)@, *old(seq))),
            names_apart(local_names(old(locals)@, old(chandle_locals)@, old(process_locals)@, *old(seq)), prefix@,
                self.len()) && r is Ok ==> names_apart(local_names(final(locals)@, final(chandle_locals)@,
                final(process_locals)@, *final(seq)), prefix@, self.len()) && names_extended(local_names(old(locals)@,
                old(chandle_locals)@, old(process_locals)@, *old(seq)), local_names(final(locals)@, final(chandle_locals)@,
                final(process_locals)@, *final(seq)), self.len()),
        decreases self.nodes.len() - node, 1int, 0int,
    {
        proof {
            self.lemma_node(node as int);
            let st = local_names(old(locals)@, old(chandle_locals)@, old(process_locals)@, *old(seq));
            if names_apart(st, prefix@, self.len()) {
                self.lemma_func_locals_apart(node as int, prefix@, st);
            }
        }
        match &self.nodes[node].kind {
            NodeKind::Stmt(StmtKind::For { body, .. }) =>
                return self.collect_func_locals(*body, inst, locals, chandle_locals, process_locals, seq, prefix),
            NodeKind::Stmt(StmtKind::Foreach { body, .. }) =>
                return self.collect_func_locals(*body, inst, locals, chandle_locals, process_locals, seq, prefix),
            _ => {},
        }
        if self.is_foreach_iterator(node) {
            return Ok(());
        }
        if let NodeKind::Var { ty } = &self.nodes[node].kind {
            return self.collect_var_local(node, ty, locals, chandle_locals, process_locals, seq, prefix);
        }
        let children = &self.nodes[node].children;
        let ghost start = local_names(locals@, chandle_locals@, process_locals@, *seq);
        let ghost budget = *seq + free_slots(start);
        let mut k: usize = 0;
        while k < children.len()
            invariant
                self.wf(),
                node < self.nodes.len(),
                node_ok(self.nodes@, node as int),
                children@ == self.nodes@[node as int].children@,
                k <= children.len(),
                locals.len() == self.nodes.len(),
                chandle_locals.len() == self.nodes.len(),
                process_locals.len() == self.nodes.len(),
                *seq + free_slots(local_names(locals@, chandle_locals@, process_locals@, *seq)) == budget,
                budget <= usize::MAX,
                start == local_names(old(locals)@, old(chandle_locals)@, old(process_locals)@, *old(seq)),
                budget == *old(seq) + free_slots(start),
                self.func_locals_spec(node as int, prefix@, start) == self.func_locals_children(node as int, 0, prefix@, start),
                self.func_locals_children(node as int, 0, prefix@, start)
                    == self.func_locals_children(node as int, k as int, prefix@,
                        local_names(locals@, chandle_locals@, process_locals@, *seq)),
            decreases children.len() - k,
        {
            let c = children[k];
            let ghost before = local_names(locals@, chandle_locals@, process_locals@, *seq);
            let r = self.collect_func_locals(c, inst, locals, chandle_locals, process_locals, seq, prefix);
            if r.is_err() {
                assert(self.func_locals_spec(c as int, prefix@, before) is Err);
                return r;
            }
            k = k + 1;
        }
        Ok(())
    }
}

/// The digits of a number are only its own.
proof fn lemma_decimal_injective(n: nat, m: nat)
    requires
        decimal(n) == decimal(m),
    ensures
        n == m,
    decreases n,
{
    lemma_decimal_nonempty(n / 10);
    lemma_decimal_nonempty(m / 10);
    if n < 10 && m < 10 {
        assert(decimal(n)[0] == digit_char(n));
        assert(decimal(m)[0] == digit_char(m));
    } else if n < 10 {
        assert(decimal(n).len() == 1);
        assert(decimal(m).len() == decimal(m / 10).len() + 1);
    } else if m < 10 {
        assert(decimal(m).len() == 1);
        assert(decimal(n).len() == decimal(n / 10).len() + 1);
    } else {
        let a = decimal(n);
        let b = decimal(m);
        assert(a.last() == digit_char(n % 10));
        assert(b.last() == digit_char(m % 10));
        assert(a.drop_last() =~= decimal(n / 10));
        assert(b.drop_last() =~= decimal(m / 10));
        lemma_decimal_injective(n / 10, m / 10);
    }
}

proof fn lemma_decimal_nonempty(n: nat)
    ensures
        decimal(n).len() >= 1,
    decreases n,
{
    if n >= 10 {
        lemma_decimal_nonempty(n / 10);
    }
}

/// Two local names with one prefix are equal only for one tag and number.
proof fn lemma_local_name_injective(prefix: Seq<char>, t1: char, n1: nat, t2: char, n2: nat)
    requires
        local_c_name(prefix, t1, n1) == local_c_name(prefix, t2, n2),
    ensures
        t1 == t2 && n1 == n2,
{
    let a = local_c_name(prefix, t1, n1);
    let b = local_c_name(prefix, t2, n2);
    let k = prefix.len() as int;
    assert(a[k + 1] == t1);
    assert(b[k + 1] == t2);
    assert(a.skip(k + 2) =~= decimal(n1));
    assert(b.skip(k + 2) =~= decimal(n2));
    lemma_decimal_injective(n1, n2);
}

/// The name in slot `i` of table `t` (value locals, handle locals, process
/// handle locals).
pub open spec fn slot_name(st: LocalNames, t: int, i: int) -> Option<Seq<char>> {
    if t == 0 {
        match st.locals[i] {
            Some(l) => Some(l.0),
            None => None,
        }
    } else if t == 1 {
        st.chandles[i]
    } else {
        st.procs[i]
    }
}

/// `name` is `<prefix>_<tag><n>` for a number `n` below `seq`.
pub open spec fn numbered(name: Seq<char>, prefix: Seq<char>, seq: nat) -> bool {
    exists|n: nat, tag: char| n < seq && name == #[trigger] local_c_name(prefix, tag, n)
}

/// Every named slot carries a number already handed out, and no two slots
/// share a name.
pub open spec fn names_apart(st: LocalNames, prefix: Seq<char>, len: int) -> bool {
    &&& st.locals.len() == len && st.chandles.len() == len && st.procs.len() == len
    &&& forall|t: int, i: int| 0 <= t < 3 && 0 <= i < len && (#[trigger] slot_name(st, t, i)) is Some
        ==> numbered(slot_name(st, t, i)->0, prefix, st.seq)
    &&& forall|t1: int, i1: int, t2: int, i2: int|
        0 <= t1 < 3 && 0 <= i1 < len && 0 <= t2 < 3 && 0 <= i2 < len && (t1 != t2 || i1 != i2)
        && (#[trigger] slot_name(st, t1, i1)) is Some && (#[trigger] slot_name(st, t2, i2)) is Some
        ==> slot_name(st, t1, i1) != slot_name(st, t2, i2)
}

/// `st2` keeps every slot `st` had named and hands out numbers from where
/// `st` stopped, one per newly named slot.
pub open spec fn names_extended(st: LocalNames, st2: LocalNames, len: int) -> bool {
    &&& st2.locals.len() == len && st2.chandles.len() == len && st2.procs.len() == len
    &&& forall|t: int, i: int| 0 <= t < 3 && 0 <= i < len && (#[trigger] slot_name(st, t, i)) is Some
        ==> slot_name(st2, t, i) == slot_name(st, t, i)
    &&& st2.seq >= st.seq
    &&& st2.seq - st.seq + free_slots(st2) == free_slots(st)
}

impl Codegen {
    proof fn lemma_var_locals_apart(&self, node: int, ty: TypeInfo, prefix: Seq<char>, st: LocalNames)
        requires
            0 <= node < self.len(),
            names_apart(st, prefix, self.len()),
        ensures
            self.var_locals(node, ty, prefix, st) matches Ok(st2) ==>
                names_apart(st2, prefix, self.len()) && names_extended(st, st2, self.len()),
    {
        let len = self.len();
        match self.var_locals(node, ty, prefix, st) {
            Ok(st2) => {
                if st2 == st {
                } else {
                    // One slot `(t0, node)` gets the next number.
                    let t0: int = if st2.chandles != st.chandles { 1 } else if st2.procs != st.procs { 2 } else { 0 };
                    let tag: char = if t0 == 2 { 'p' } else { 'l' };
                    let nm = local_c_name(prefix, tag, st.seq);
                    assert(st2.seq == st.seq + 1);
                    assert(slot_name(st, t0, node) is None);
                    assert(slot_name(st2, t0, node) == Some(nm));
                    assert forall|t: int, i: int| 0 <= t < 3 && 0 <= i < len && (t != t0 || i != node)
                        implies #[trigger] slot_name(st2, t, i) == slot_name(st, t, i) by {}
                    assert forall|t: int, i: int| 0 <= t < 3 && 0 <= i < len && (#[trigger] slot_name(st2, t, i)) is Some
                        implies numbered(slot_name(st2, t, i)->0, prefix, st2.seq) by {
                        if t == t0 && i == node {
                            assert(nm == local_c_name(prefix, tag, st.seq));
                        } else {
                            assert(slot_name(st, t, i) is Some);
                            let (n, g) = choose|n: nat, g: char| n < st.seq
                                && slot_name(st, t, i)->0 == #[trigger] local_c_name(prefix, g, n);
                            assert(slot_name(st2, t, i)->0 == local_c_name(prefix, g, n));
                        }
                    }
                    assert forall|t1: int, i1: int, t2: int, i2: int|
                        0 <= t1 < 3 && 0 <= i1 < len && 0 <= t2 < 3 && 0 <= i2 < len && (t1 != t2 || i1 != i2)
                        && (#[trigger] slot_name(st2, t1, i1)) is Some && (#[trigger] slot_name(st2, t2, i2)) is Some
                        implies slot_name(st2, t1, i1) != slot_name(st2, t2, i2) by {
                        if t1 == t0 && i1 == node {
                            assert(slot_name(st, t2, i2) is Some);
                            let (n, g) = choose|n: nat, g: char| n < st.seq
                                && slot_name(st, t2, i2)->0 == #[trigger] local_c_name(prefix, g, n);
                            if slot_name(st2, t1, i1) == slot_name(st2, t2, i2) {
                                lemma_local_name_injective(prefix, tag, st.seq, g, n);
                            }
                        } else if t2 == t0 && i2 == node {
                            assert(slot_name(st, t1, i1) is Some);
                            let (n, g) = choose|n: nat, g: char| n < st.seq
                                && slot_name(st, t1, i1)->0 == #[trigger] local_c_name(prefix, g, n);
                            if slot_name(st2, t1, i1) == slot_name(st2, t2, i2) {
                                lemma_local_name_injective(prefix, tag, st.seq, g, n);
                            }
                        } else {
                            assert(slot_name(st, t1, i1) is Some && slot_name(st, t2, i2) is Some);
                        }
                    }
                    if t0 == 0 {
                        lemma_fill_slot(st.locals, node, st2.locals[node]->0);
                        assert(st2.locals =~= st.locals.update(node, st2.locals[node]));
                    } else if t0 == 1 {
                        lemma_fill_slot(st.chandles, node, nm);
                    } else {
                        lemma_fill_slot(st.procs, node, nm);
                    }
                }
            },
            Err(_) => {},
        }
    }

    proof fn lemma_func_locals_apart(&self, node: int, prefix: Seq<char>, st: LocalNames)
        requires
            self.wf(),
            names_apart(st, prefix, self.len()),
        ensures
            self.func_locals_spec(node, prefix, st) matches Ok(st2) ==>
                names_apart(st2, prefix, self.len()) && names_extended(st, st2, self.len()),
        decreases self.len() - node, 1int, 0int,
    {
        if 0 <= node < self.len() && node_ok(self.nodes@, node) {
            match self.kind(node) {
                NodeKind::Stmt(StmtKind::For { body, .. }) => self.lemma_func_locals_apart(body as int, prefix, st),
                NodeKind::Stmt(StmtKind::Foreach { body, .. }) => self.lemma_func_locals_apart(body as int, prefix, st),
                NodeKind::Var { ty } => {
                    if !self.is_foreach_iterator_spec(node as usize) {
                        self.lemma_var_locals_apart(node, ty, prefix, st);
                    }
                },
                _ => {
                    if !self.is_foreach_iterator_spec(node as usize) {
                        self.lemma_children_apart(node, 0, prefix, st);
                    }
                },
            }
        }
    }

    proof fn lemma_children_apart(&self, node: int, k: int, prefix: Seq<char>, st: LocalNames)
        requires
            self.wf(),
            0 <= node < self.len(),
            names_apart(st, prefix, self.len()),
        ensures
            self.func_locals_children(node, k, prefix, st) matches Ok(st2) ==>
                names_apart(st2, prefix, self.len()) && names_extended(st, st2, self.len()),
        decreases self.len() - node, 0int, self.nodes@[node].children.len() - k,
    {
        let children = self.nodes@[node].children@;
        if 0 <= k < children.len() {
            let c = children[k] as int;
            if node < c < self.len() {
                self.lemma_func_locals_apart(c, prefix, st);
                match self.func_locals_spec(c, prefix, st) {
                    Ok(next) => {
                        self.lemma_children_apart(node, k + 1, prefix, next);
                        match self.func_locals_children(node, k + 1, prefix, next) {
                            Ok(st2) => {
                                assert forall|t: int, i: int| 0 <= t < 3 && 0 <= i < self.len()
                                    && (#[trigger] slot_name(st, t, i)) is Some
                                    implies slot_name(st2, t, i) == slot_name(st, t, i) by {
                                    assert(slot_name(next, t, i) == slot_name(st, t, i));
                                }
                            },
                            Err(_) => {},
                        }
                    },
                    Err(_) => {},
                }
            }
        }
    }

    /// Collecting the locals of a subprogram body from tables whose names
    /// are numbered and pairwise distinct keeps them so: every slot named
    /// before keeps its name, each newly named local takes the next number
    /// (so the count of new names is the count of numbers handed out), and
    /// no two slots share a C name.
    pub proof fn law_func_locals_named_apart(&self, node: int, prefix: Seq<char>, st: LocalNames)
        requires
            self.wf(),
            names_apart(st, prefix, self.len()),
        ensures
            self.func_locals_spec(node, prefix, st) matches Ok(st2) ==>
                names_apart(st2, prefix, self.len()) && names_extended(st, st2, self.len()),
    {
        self.lemma_func_locals_apart(node, prefix, st);
    }
}

/// A static local a lowered subprogram keeps between calls.
pub struct IrLocal {
    pub c_name: String,
    pub width: u32,
    pub signed: bool,
    pub two_state: bool,
    pub real: bool,
    pub shortreal: bool,
    /// Whether the local is a string variable.
    pub string: bool,
}

/// `(c_name, width, signed, two_state, real, shortreal, string)`.
pub open spec fn ir_local_view(l: IrLocal) -> (Seq<char>, u32, bool, bool, bool, bool, bool) {
    (l.c_name@, l.width, l.signed, l.two_state, l.real, l.shortreal, l.string)
}

impl Codegen {
    /// The static locals of the collected table `locals` among its first `k`
    /// nodes: in ascending node order, each static local whose C name no
    /// earlier one took, real when it has no packed width.
    pub open spec fn static_locals_upto(&self, locals: Seq<Option<FuncLocal>>, k: int)
        -> Seq<(Seq<char>, u32, bool, bool, bool, bool, bool)>
        decreases k,
    {
        if k <= 0 {
            Seq::empty()
        } else {
            let prev = self.static_locals_upto(locals, k - 1);
            match locals[k - 1] {
                Some(l) => if self.nodes@[k - 1].lifetime == VariableLifetime::Static
                    && !prev.map_values(|e: (Seq<char>, u32, bool, bool, bool, bool, bool)| e.0).contains(l.c_name@) {
                    prev.push((l.c_name@, l.width, l.signed, l.two_state, l.width == 0, l.shortreal,
                        self.is_string_var(k - 1)))
                } else {
                    prev
                },
                None => prev,
            }
        }
    }

    /// The static locals a lowered subprogram keeps, from the table its body
    /// collected: ascending node order, one per C name (the first), each
    /// real when it has no packed width and a string when it is a string
    /// variable.
    pub fn static_func_locals(&self, locals: &Vec<Option<FuncLocal>>) -> (r: Vec<IrLocal>)
        requires
            locals.len() <= self.nodes.len(),
        ensures
            r@.map_values(|l: IrLocal| ir_local_view(l)) == self.static_locals_upto(locals@, locals.len() as int),
            forall|i: int, j: int| 0 <= i < j < r.len() ==> (#[trigger] r@[i]).c_name@ != (#[trigger] r@[j]).c_name@,
            forall|x: int| 0 <= x < locals.len() && #[trigger] locals@[x] is Some
                && self.nodes@[x].lifetime == VariableLifetime::Static
                ==> exists|i: int| 0 <= i < r.len() && (#[trigger] r@[i]).c_name@ == locals@[x]->0.c_name@,
    {
        let mut r: Vec<IrLocal> = Vec::new();
        let mut x: usize = 0;
        while x < locals.len()
            invariant
                x <= locals.len() <= self.nodes.len(),
                r@.map_values(|l: IrLocal| ir_local_view(l)) == self.static_locals_upto(locals@, x as int),
                forall|i: int, j: int| 0 <= i < j < r.len() ==> (#[trigger] r@[i]).c_name@ != (#[trigger] r@[j]).c_name@,
                forall|y: int| 0 <= y < x && #[trigger] locals@[y] is Some
                    && self.nodes@[y].lifetime == VariableLifetime::Static
                    ==> exists|i: int| 0 <= i < r.len() && (#[trigger] r@[i]).c_name@ == locals@[y]->0.c_name@,
            decreases locals.len() - x,
        {
            let ghost prev = r@;
            let ghost names = prev.map_values(|l: IrLocal| ir_local_view(l)).map_values(
                |e: (Seq<char>, u32, bool, bool, bool, bool, bool)| e.0);
            match &locals[x] {
                Some(l) => {
                    if matches!(self.nodes[x].lifetime, VariableLifetime::Static) {
                        let mut taken = false;
                        let mut i: usize = 0;
                        while i < r.len()
                            invariant
                                i <= r.len(),
                                r@ == prev,
                                taken <==> exists|q: int| 0 <= q < i && (#[trigger] r@[q]).c_name@ == l.c_name@,
                            decreases r.len() - i,
                        {
                            if str_is(r[i].c_name.as_str(), l.c_name.as_str()) {
                                taken = true;
                            }
                            i = i + 1;
                        }
                        proof {
                            assert(taken <==> names.contains(l.c_name@)) by {
                                if taken {
                                    let q = choose|q: int| 0 <= q < r.len() && (#[trigger] r@[q]).c_name@ == l.c_name@;
                                    assert(names[q] == l.c_name@);
                                }
                                if names.contains(l.c_name@) {
                                    let q = choose|q: int| 0 <= q < names.len() && names[q] == l.c_name@;
                                    assert(r@[q].c_name@ == l.c_name@);
                                }
                            }
                        }
                        if !taken {
                            let string = match &self.nodes[x].kind {
                                NodeKind::Var { ty } => matches!(ty.kind, TypeKind::String),
                                _ => false,
                            };
                            r.push(IrLocal {
                                c_name: l.c_name.clone(),
                                width: l.width,
                                signed: l.signed,
                                two_state: l.two_state,
                                real: l.width == 0,
                                shortreal: l.shortreal,
                                string,
                            });
                            proof {
                                assert(r@.map_values(|l: IrLocal| ir_local_view(l)) =~= prev.map_values(
                                    |l: IrLocal| ir_local_view(l)).push(ir_local_view(r@[r.len() - 1])));
                            }
                        }
                    }
                },
                None => {},
            }
            proof {
                assert forall|y: int| 0 <= y < x + 1 && #[trigger] locals@[y] is Some
                    && self.nodes@[y].lifetime == VariableLifetime::Static
                    implies exists|i: int| 0 <= i < r.len() && (#[trigger] r@[i]).c_name@ == locals@[y]->0.c_name@ by {
                    if y < x {
                        let i = choose|i: int| 0 <= i < prev.len() && (#[trigger] prev[i]).c_name@ == locals@[y]->0.c_name@;
                        assert(r@[i] == prev[i]);
                    } else if r.len() > prev.len() {
                        assert(r@[r.len() - 1].c_name@ == locals@[y]->0.c_name@);
                    } else {
                        let q = choose|q: int| 0 <= q < names.len() && names[q] == locals@[y]->0.c_name@;
                        assert(r@[q].c_name@ == locals@[y]->0.c_name@);
                    }
                }
            }
            x = x + 1;
        }
        r
    }
}

} // verus!
