//! Structural driver remapping of continuous-assignment targets: a write to
//! a resolved net becomes a write to the writer's own contribution slot.

use vstd::prelude::*;
use crate::codegen::Codegen;
use crate::design::{NodeKind, ExprKind, ArrayInfo};
use crate::ir::IrExpr;

verus! {

/// An assignment target in the model.
pub enum IrLhs {
    Whole(usize),
    Bit(usize, IrExpr, bool),
    Part(usize, i128, i128, bool),
    /// `(signal, base, width, selected width, negative, two_state)`.
    IdxPart(usize, IrExpr, u32, u32, bool, bool),
    Stream { parts: Vec<(IrLhs, u32)>, width: u32, slice: u32, left_to_right: bool },
    WholeRef { local: String },
    Ref { local: String },
    ArrayElem { arr: usize },
}

impl Codegen {
    /// The resolved group a signal contributes to.
    pub open spec fn signal_group(&self, index: usize) -> Option<usize> {
        if index < self.model.signals.len() {
            match self.model.signals@[index as int].net_driver {
                Some((group, _)) => Some(group),
                None => None,
            }
        } else {
            None
        }
    }

    /// The first resolved group a target writes.
    pub open spec fn group_spec(&self, lhs: IrLhs) -> Option<usize>
        decreases lhs,
    {
        match lhs {
            IrLhs::Whole(i) => self.signal_group(i),
            IrLhs::Bit(i, _, _) => self.signal_group(i),
            IrLhs::Part(i, _, _, _) => self.signal_group(i),
            IrLhs::IdxPart(i, _, _, _, _, _) => self.signal_group(i),
            IrLhs::Stream { parts, .. } => self.parts_group(parts@, 0),
            _ => None,
        }
    }

    pub open spec fn parts_group(&self, parts: Seq<(IrLhs, u32)>, k: int) -> Option<usize>
        decreases parts, parts.len() - k,
    {
        if 0 <= k < parts.len() {
            match self.group_spec(parts[k].0) {
                Some(g) => Some(g),
                None => self.parts_group(parts, k + 1),
            }
        } else {
            None
        }
    }
}

impl Codegen {
    fn group_of_signal(&self, index: usize) -> (r: Option<usize>)
        ensures
            r == self.signal_group(index),
    {
        if index < self.model.signals.len() {
            match self.model.signals[index].net_driver {
                Some((group, _)) => Some(group),
                None => None,
            }
        } else {
            None
        }
    }

    /// The first resolved group an assignment target writes.
    pub fn structural_group_for_lhs(&self, lhs: &IrLhs) -> (r: Option<usize>)
        ensures
            r == self.group_spec(*lhs),
        decreases lhs,
    {
        match lhs {
            IrLhs::Whole(i) => self.group_of_signal(*i),
            IrLhs::Bit(i, _, _) => self.group_of_signal(*i),
            IrLhs::Part(i, _, _, _) => self.group_of_signal(*i),
            IrLhs::IdxPart(i, _, _, _, _, _) => self.group_of_signal(*i),
            IrLhs::Stream { parts, .. } => {
                let mut k: usize = 0;
                while k < parts.len()
                    invariant
                        k <= parts.len(),
                        lhs matches IrLhs::Stream { parts: ps, .. } && ps@ == parts@,
                        self.parts_group(parts@, 0) == self.parts_group(parts@, k as int),
                    decreases parts.len() - k,
                {
                    assert(decreases_to!(*lhs => parts@[k as int].0));
                    if let Some(g) = self.structural_group_for_lhs(&parts[k].0) {
                        return Some(g);
                    }
                    k = k + 1;
                }
                None
            },
            _ => None,
        }
    }
}

impl Codegen {
    /// The signal a write to signal `i` goes to for output `terminal` of
    /// `source`: its contribution slot when it has one, else `i` itself.
    pub open spec fn remap_index(&self, i: usize, source: usize, terminal: usize) -> usize {
        match self.signal_group(i) {
            Some(g) => match self.driver_signal(source, g, terminal) {
                Some(s) => s,
                None => i,
            },
            None => i,
        }
    }

    /// `new` is `old` with every written signal remapped for `terminal` of
    /// `source`; everything else is kept.
    pub open spec fn remapped(&self, before: IrLhs, after: IrLhs, source: usize, terminal: usize) -> bool
        decreases before,
    {
        match before {
            IrLhs::Whole(i) => after == IrLhs::Whole(self.remap_index(i, source, terminal)),
            IrLhs::Bit(i, e, t) => after == IrLhs::Bit(self.remap_index(i, source, terminal), e, t),
            IrLhs::Part(i, l, r, t) => after == IrLhs::Part(self.remap_index(i, source, terminal), l, r, t),
            IrLhs::IdxPart(i, b, w, sw, n, t) => after == IrLhs::IdxPart(self.remap_index(i, source, terminal), b, w, sw, n, t),
            IrLhs::Stream { parts, width, slice, left_to_right } => match after {
                IrLhs::Stream { parts: new_parts, width: w2, slice: s2, left_to_right: l2 } => {
                    &&& w2 == width
                    &&& s2 == slice
                    &&& l2 == left_to_right
                    &&& new_parts.len() == parts.len()
                    &&& self.parts_remapped(parts@, new_parts@, source, terminal, 0)
                },
                _ => false,
            },
            _ => after == before,
        }
    }

    pub open spec fn parts_remapped(&self, before: Seq<(IrLhs, u32)>, after: Seq<(IrLhs, u32)>, source: usize, terminal: usize,
        k: int) -> bool
        decreases before, before.len() - k,
    {
        if 0 <= k < before.len() {
            &&& k < after.len()
            &&& after[k].1 == before[k].1
            &&& self.remapped(before[k].0, after[k].0, source, terminal)
            &&& self.parts_remapped(before, after, source, terminal, k + 1)
        } else {
            true
        }
    }

    fn remap_signal(&self, i: usize, source: usize, terminal: usize) -> (r: usize)
        ensures
            r == self.remap_index(i, source, terminal),
    {
        match self.group_of_signal(i) {
            Some(g) => match self.structural_driver_signal_for_terminal(source, g, terminal) {
                Some(s) => s,
                None => i,
            },
            None => i,
        }
    }

    /// Redirect the signals an assignment target writes to the contribution
    /// slots of output `terminal` of the structural source `source`.
    pub fn remap_structural_lhs_for_terminal(&self, lhs: IrLhs, source: usize, terminal: usize) -> (r: IrLhs)
        ensures
            self.remapped(lhs, r, source, terminal),
        decreases lhs,
    {
        match lhs {
            IrLhs::Whole(i) => IrLhs::Whole(self.remap_signal(i, source, terminal)),
            IrLhs::Bit(i, e, t) => IrLhs::Bit(self.remap_signal(i, source, terminal), e, t),
            IrLhs::Part(i, l, r, t) => IrLhs::Part(self.remap_signal(i, source, terminal), l, r, t),
            IrLhs::IdxPart(i, b, w, sw, n, t) => IrLhs::IdxPart(self.remap_signal(i, source, terminal), b, w, sw, n, t),
            IrLhs::Stream { parts, width, slice, left_to_right } => {
                let ghost orig = parts@;
                let n = parts.len();
                assert(orig.len() == n);
                let mut rest = parts;
                let mut out: Vec<(IrLhs, u32)> = Vec::new();
                let mut k: usize = 0;
                while rest.len() > 0
                    invariant
                        orig.len() == k + rest.len(),
                        orig.len() <= usize::MAX,
                        rest@ == orig.skip(k as int),
                        out.len() == k,
                        lhs matches IrLhs::Stream { parts: ps, .. } && ps@ == orig,
                        forall|j: int| 0 <= j < k ==> (#[trigger] out@[j]).1 == orig[j].1
                            && self.remapped(orig[j].0, out@[j].0, source, terminal),
                    decreases rest.len(),
                {
                    assert(rest@[0] == orig[k as int]);
                    let (part, w) = rest.remove(0);
                    assert(rest@ =~= orig.skip(k + 1));
                    assert(decreases_to!(lhs => orig[k as int].0));
                    let mapped = self.remap_structural_lhs_for_terminal(part, source, terminal);
                    let ghost prev = out@;
                    out.push((mapped, w));
                    assert forall|j: int| 0 <= j < k + 1 implies (#[trigger] out@[j]).1 == orig[j].1
                        && self.remapped(orig[j].0, out@[j].0, source, terminal) by {
                        if j < k {
                            assert(out@[j] == prev[j]);
                        }
                    }
                    k = k + 1;
                }
                proof {
                    assert(k == orig.len());
                    assert(forall|j: int| 0 <= j < orig.len() ==> (#[trigger] out@[j]).1 == orig[j].1
                            && self.remapped(orig[j].0, out@[j].0, source, terminal));
                    self.lemma_parts_remapped(orig, out@, source, terminal, 0);
                }
                IrLhs::Stream { parts: out, width, slice, left_to_right }
            },
            other => other,
        }
    }

    proof fn lemma_parts_remapped(&self, before: Seq<(IrLhs, u32)>, after: Seq<(IrLhs, u32)>, source: usize, terminal: usize, k: int)
        requires
            0 <= k,
            before.len() == after.len(),
            forall|j: int| 0 <= j < before.len() ==> (#[trigger] after[j]).1 == before[j].1
                && self.remapped(before[j].0, after[j].0, source, terminal),
        ensures
            self.parts_remapped(before, after, source, terminal, k),
        decreases before.len() - k,
    {
        if k < before.len() {
            assert(after[k].1 == before[k].1);
            self.lemma_parts_remapped(before, after, source, terminal, k + 1);
        }
    }

    /// Redirect the signals an assignment target writes to the contribution
    /// slots of the structural source `source`.
    pub fn remap_structural_lhs(&self, lhs: IrLhs, source: usize) -> (r: IrLhs)
        ensures
            self.remapped(lhs, r, source, 0),
    {
        self.remap_structural_lhs_for_terminal(lhs, source, 0)
    }

    /// The first resolved group a target writes for which output `terminal`
    /// of `source` has no contribution slot.
    pub open spec fn unmapped_spec(&self, lhs: IrLhs, source: usize, terminal: usize) -> Option<usize>
        decreases lhs,
    {
        match lhs {
            IrLhs::Whole(i) => self.unmapped_signal(i, source, terminal),
            IrLhs::Bit(i, _, _) => self.unmapped_signal(i, source, terminal),
            IrLhs::Part(i, _, _, _) => self.unmapped_signal(i, source, terminal),
            IrLhs::IdxPart(i, _, _, _, _, _) => self.unmapped_signal(i, source, terminal),
            IrLhs::Stream { parts, .. } => self.parts_unmapped(parts@, source, terminal, 0),
            _ => None,
        }
    }

    pub open spec fn unmapped_signal(&self, i: usize, source: usize, terminal: usize) -> Option<usize> {
        match self.signal_group(i) {
            Some(g) => if self.driver_signal(source, g, terminal) is None { Some(g) } else { None },
            None => None,
        }
    }

    pub open spec fn parts_unmapped(&self, parts: Seq<(IrLhs, u32)>, source: usize, terminal: usize, k: int) -> Option<usize>
        decreases parts, parts.len() - k,
    {
        if 0 <= k < parts.len() {
            match self.unmapped_spec(parts[k].0, source, terminal) {
                Some(g) => Some(g),
                None => self.parts_unmapped(parts, source, terminal, k + 1),
            }
        } else {
            None
        }
    }

    /// The first resolved group a target writes for which output `terminal`
    /// of `source` has no contribution slot.
    pub fn unmapped_structural_group_for(&self, lhs: &IrLhs, source: usize, terminal: usize) -> (r: Option<usize>)
        ensures
            r == self.unmapped_spec(*lhs, source, terminal),
        decreases lhs,
    {
        match lhs {
            IrLhs::Whole(i) | IrLhs::Bit(i, _, _) | IrLhs::Part(i, _, _, _) | IrLhs::IdxPart(i, _, _, _, _, _) => {
                match self.group_of_signal(*i) {
                    Some(g) => if self.structural_driver_signal_for_terminal(source, g, terminal).is_none() {
                        Some(g)
                    } else {
                        None
                    },
                    None => None,
                }
            },
            IrLhs::Stream { parts, .. } => {
                let mut k: usize = 0;
                while k < parts.len()
                    invariant
                        k <= parts.len(),
                        lhs matches IrLhs::Stream { parts: ps, .. } && ps@ == parts@,
                        self.parts_unmapped(parts@, source, terminal, 0) == self.parts_unmapped(parts@, source, terminal, k as int),
                    decreases parts.len() - k,
                {
                    assert(decreases_to!(*lhs => parts@[k as int].0));
                    if let Some(g) = self.unmapped_structural_group_for(&parts[k].0, source, terminal) {
                        return Some(g);
                    }
                    k = k + 1;
                }
                None
            },
            _ => None,
        }
    }

    /// The first resolved group a target writes without a contribution slot
    /// of `source`.
    pub fn unmapped_structural_group(&self, lhs: &IrLhs, source: usize) -> (r: Option<usize>)
        ensures
            r == self.unmapped_spec(*lhs, source, 0),
    {
        self.unmapped_structural_group_for(lhs, source, 0)
    }

    /// The first resolved group a target writes without a contribution slot
    /// of output `terminal` of `source`.
    pub fn unmapped_structural_group_for_terminal(&self, lhs: &IrLhs, source: usize, terminal: usize) -> (r: Option<usize>)
        ensures
            r == self.unmapped_spec(*lhs, source, terminal),
    {
        self.unmapped_structural_group_for(lhs, source, terminal)
    }
}


impl Codegen {
    /// The array that a port actual connects, with the leading indices of a
    /// selected sub-array: `(array, k)` when the actual is that whole array
    /// (`k == 0`) or selects its first `k` dimensions leaving at least one.
    pub open spec fn port_array_source(&self, actual: int) -> Option<(ArrayInfo, Seq<usize>)> {
        match self.array_spec(actual) {
            Some(a) => Some((a, seq![])),
            None => match self.kind(actual) {
                NodeKind::Expr(ExprKind::ArraySelect { base, indices }) => match self.array_spec(base as int) {
                    Some(a) => if indices.len() < a.dims.len() { Some((a, indices@)) } else { None },
                    None => None,
                },
                _ => None,
            },
        }
    }

    /// The shape of the array a port actual connects, with the indices that
    /// select it: the whole array, or the sub-array left after the leading
    /// indices of a selection.
    pub fn port_array_actual(&self, actual: usize) -> (r: Option<(ArrayInfo, Vec<usize>)>)
        requires
            self.wf(),
            actual < self.nodes.len(),
        ensures
            r is Some <==> self.port_array_source(actual as int) is Some,
            r matches Some((shape, idx)) ==> (self.port_array_source(actual as int) matches Some((a, sel)) && {
                &&& idx@ == sel
                &&& shape.dims@ == a.dims@.skip(sel.len() as int)
                &&& shape.elem_width == a.elem_width
                &&& shape.real == a.real
                &&& shape.is_net == a.is_net
                &&& shape.ir == a.ir
            }),
    {
        proof { self.lemma_node(actual as int); }
        let (array, indices): (&ArrayInfo, Vec<usize>) = match self.array_of(actual) {
            Some(a) => (a, Vec::new()),
            None => match &self.nodes[actual].kind {
                NodeKind::Expr(ExprKind::ArraySelect { base, indices }) => match self.array_of(*base) {
                    Some(a) => if indices.len() < a.dims.len() {
                        (a, indices.clone())
                    } else {
                        return None;
                    },
                    None => return None,
                },
                _ => return None,
            },
        };
        let mut dims: Vec<(i32, i32)> = Vec::new();
        let mut k: usize = indices.len();
        while k < array.dims.len()
            invariant
                indices.len() <= k <= array.dims.len(),
                dims@ == array.dims@.subrange(indices.len() as int, k as int),
            decreases array.dims.len() - k,
        {
            dims.push(array.dims[k]);
            assert(dims@ =~= array.dims@.subrange(indices.len() as int, k + 1));
            k = k + 1;
        }
        assert(dims@ =~= array.dims@.skip(indices.len() as int));
        Some((ArrayInfo { dims, elem_width: array.elem_width, real: array.real, is_net: array.is_net, ir: array.ir }, indices))
    }
}

impl Codegen {
    /// Two targets are the same: equal variant and fields, stream parts
    /// compared part by part.
    pub open spec fn lhs_equiv(a: IrLhs, b: IrLhs) -> bool
        decreases a,
    {
        match a {
            IrLhs::Stream { parts, width, slice, left_to_right } => match b {
                IrLhs::Stream { parts: p2, width: w2, slice: s2, left_to_right: l2 } => {
                    &&& w2 == width
                    &&& s2 == slice
                    &&& l2 == left_to_right
                    &&& p2.len() == parts.len()
                    &&& Self::parts_equiv(parts@, p2@, 0)
                },
                _ => false,
            },
            _ => a == b,
        }
    }

    pub open spec fn parts_equiv(a: Seq<(IrLhs, u32)>, b: Seq<(IrLhs, u32)>, k: int) -> bool
        decreases a, a.len() - k,
    {
        if 0 <= k < a.len() {
            &&& k < b.len()
            &&& a[k].1 == b[k].1
            &&& Self::lhs_equiv(a[k].0, b[k].0)
            &&& Self::parts_equiv(a, b, k + 1)
        } else {
            true
        }
    }

    /// The remapping relation fixes its result: two targets that both remap
    /// `before` for the same source and terminal are the same target.
    pub proof fn lemma_remapped_unique(&self, before: IrLhs, a: IrLhs, b: IrLhs, source: usize, terminal: usize)
        requires
            self.remapped(before, a, source, terminal),
            self.remapped(before, b, source, terminal),
        ensures
            Self::lhs_equiv(a, b),
        decreases before,
    {
        match before {
            IrLhs::Stream { parts, .. } => {
                let pa = a->Stream_parts;
                let pb = b->Stream_parts;
                self.lemma_parts_unique(parts@, pa@, pb@, source, terminal, 0);
            },
            _ => {},
        }
    }

    proof fn lemma_parts_unique(&self, before: Seq<(IrLhs, u32)>, a: Seq<(IrLhs, u32)>, b: Seq<(IrLhs, u32)>,
        source: usize, terminal: usize, k: int)
        requires
            self.parts_remapped(before, a, source, terminal, k),
            self.parts_remapped(before, b, source, terminal, k),
            a.len() == before.len(),
        ensures
            Self::parts_equiv(a, b, k),
        decreases before, before.len() - k,
    {
        if 0 <= k < before.len() {
            self.lemma_remapped_unique(before[k].0, a[k].0, b[k].0, source, terminal);
            self.lemma_parts_unique(before, a, b, source, terminal, k + 1);
        }
    }

    /// Remapping a target for output terminal 0 of a structural source gives
    /// the same target as the plain remapping: `a` is a result of
    /// `remap_structural_lhs_for_terminal(lhs, source, 0)` and `b` one of
    /// `remap_structural_lhs(lhs, source)`.
    pub proof fn law_terminal_zero_remap(&self, lhs: IrLhs, source: usize, a: IrLhs, b: IrLhs)
        requires
            self.remapped(lhs, a, source, 0),
            self.remapped(lhs, b, source, 0),
        ensures
            Self::lhs_equiv(a, b),
    {
        self.lemma_remapped_unique(lhs, a, b, source, 0);
    }
}

} // verus!
