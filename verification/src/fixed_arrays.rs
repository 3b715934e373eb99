//! Whole and partial fixed unpacked-array assignments: array views as
//! complete coordinate lists in declared left-to-right order.

use vstd::prelude::*;
use crate::codegen::{Codegen, ContainerInfo, node_ok};
use crate::design::{NodeKind, ExprKind, ArrayInfo};
use crate::ir::{IrExpr, IrExprKind};
use crate::patterns::{pattern_key_expr, key_raw};
use vstd::string::StringExecFns;
use crate::text::{owned, int_decimal, int_string};
use crate::expressions::{index_vectors_from, vectors_with_first, index_range};

verus! {

/// A fixed-array view: the array and the coordinates of every element it
/// covers.
pub struct P30ArrayView {
    pub array: ArrayInfo,
    pub coordinates: Vec<Vec<IrExpr>>,
}

/// The 32-bit signed constant coordinate `i`.
pub open spec fn const_index_expr(i: int) -> IrExpr {
    IrExpr {
        kind: IrExprKind::Const { raw: key_raw(i, 32) as u128, fill: None },
        width: 32,
        signed: true,
        fill: None,
        real: false,
    }
}

/// The number of indices of a declared dimension `[left:right]`.
pub open spec fn dim_count(dim: (i32, i32)) -> int {
    if dim.0 >= dim.1 { dim.0 - dim.1 + 1 } else { dim.1 - dim.0 + 1 }
}

/// The `k`-th index of a dimension, walking from `left` towards `right`.
pub open spec fn dim_index(dim: (i32, i32), k: int) -> int {
    if dim.0 >= dim.1 { dim.0 - k } else { dim.0 + k }
}

/// Every coordinate under `prefix` of the dimensions `dims`, the first
/// dimension varying slowest.
pub open spec fn coords_spec(dims: Seq<(i32, i32)>, prefix: Seq<IrExpr>) -> Seq<Seq<IrExpr>>
    decreases dims.len(), 1int, 0int,
{
    if dims.len() == 0 {
        seq![prefix]
    } else {
        coords_from(dims, prefix, 0)
    }
}

/// The coordinates whose first index is the `k`-th or a later one.
pub open spec fn coords_from(dims: Seq<(i32, i32)>, prefix: Seq<IrExpr>, k: int) -> Seq<Seq<IrExpr>>
    decreases dims.len(), 0int, dim_count(dims[0]) - k,
{
    if dims.len() == 0 || k < 0 || k >= dim_count(dims[0]) {
        seq![]
    } else {
        coords_spec(dims.drop_first(), prefix.push(const_index_expr(dim_index(dims[0], k))))
            + coords_from(dims, prefix, k + 1)
    }
}

/// The coordinate lists of a view.
pub open spec fn rows(s: Seq<Vec<IrExpr>>) -> Seq<Seq<IrExpr>> {
    s.map_values(|v: Vec<IrExpr>| v@)
}

/// Every dimension has fewer than 2^31 + 1 indices, so its offsets fit `i32`.
pub open spec fn dims_enumerable(dims: Seq<(i32, i32)>) -> bool {
    forall|i: int| 0 <= i < dims.len() ==> #[trigger] dim_count(dims[i]) <= 0x8000_0000
}

/// `new` is `old` followed by the first rows of `full`: what an enumeration
/// appended before it stopped.
pub open spec fn kept_prefix(old: Seq<Seq<IrExpr>>, new: Seq<Seq<IrExpr>>, full: Seq<Seq<IrExpr>>) -> bool {
    exists|m: int| 0 <= m <= full.len() && new == old + #[trigger] full.take(m)
}

/// With `cur + rest == start + full` and `piece` a prefix of `rest`,
/// `cur + piece` keeps a prefix of `full` after `start`.
proof fn lemma_prefix_from_split(start: Seq<Seq<IrExpr>>, cur: Seq<Seq<IrExpr>>, rest: Seq<Seq<IrExpr>>,
    full: Seq<Seq<IrExpr>>, piece: Seq<Seq<IrExpr>>)
    requires
        cur + rest == start + full,
        cur.len() >= start.len(),
        piece.len() <= rest.len(),
        piece == rest.take(piece.len() as int),
    ensures
        kept_prefix(start, cur + piece, full),
{
    let k = cur.len() - start.len();
    let m = k + piece.len();
    assert((cur + rest).len() == cur.len() + rest.len());
    assert((start + full).len() == start.len() + full.len());
    assert(full.len() == k + rest.len());
    assert forall|i: int| 0 <= i < m implies #[trigger] full.take(m)[i] == (cur + piece)[start.len() + i] by {
        assert((start + full)[start.len() + i] == full[i]);
        assert((cur + rest)[start.len() + i] == full[i]);
        if start.len() + i < cur.len() {
        } else {
            assert(rest[start.len() + i - cur.len()] == piece[start.len() + i - cur.len()]);
        }
    }
    assert forall|i: int| 0 <= i < start.len() implies #[trigger] (cur + piece)[i] == start[i] by {
        assert((start + full)[i] == start[i]);
        assert((cur + rest)[i] == cur[i]);
    }
    assert(cur + piece =~= start + full.take(m));
}

impl Codegen {
    /// The node under any number of casts.
    pub open spec fn unwrap_cast_spec(&self, node: int) -> int
        decreases self.measure(node),
    {
        if !(0 <= node < self.len()) || !node_ok(self.nodes@, node) {
            node
        } else {
            match self.kind(node) {
                NodeKind::Expr(ExprKind::Cast { operand, .. }) => self.unwrap_cast_spec(operand as int),
                _ => node,
            }
        }
    }

    pub fn p30_unwrap_cast(&self, node: usize) -> (r: usize)
        requires
            self.wf(),
            node < self.nodes.len(),
        ensures
            r == self.unwrap_cast_spec(node as int),
            r < self.nodes.len(),
        decreases self.measure(node as int),
    {
        proof { self.lemma_node(node as int); }
        match &self.nodes[node].kind {
            NodeKind::Expr(ExprKind::Cast { operand, .. }) => self.p30_unwrap_cast(*operand),
            _ => node,
        }
    }

    /// The container an expression denotes, looking through casts.
    pub open spec fn container_source_spec(&self, node: int) -> Option<ContainerInfo>
        decreases self.measure(node),
    {
        match self.container_spec(node) {
            Some(c) => Some(c),
            None => if !(0 <= node < self.len()) || !node_ok(self.nodes@, node) {
                None
            } else {
                match self.kind(node) {
                    NodeKind::Expr(ExprKind::Cast { operand, .. }) => self.container_source_spec(operand as int),
                    _ => None,
                }
            },
        }
    }

    pub fn p30_container_source(&self, node: usize) -> (r: Option<ContainerInfo>)
        requires
            self.wf(),
            node < self.nodes.len(),
        ensures
            r == self.container_source_spec(node as int),
        decreases self.measure(node as int),
    {
        if let Some(c) = self.container_of(node) {
            return Some(c);
        }
        proof { self.lemma_node(node as int); }
        match &self.nodes[node].kind {
            NodeKind::Expr(ExprKind::Cast { operand, .. }) => self.p30_container_source(*operand),
            _ => None,
        }
    }

    /// The fixed array a selection prefix reads and how many of its
    /// dimensions the prefix consumes (fewer than all).
    pub open spec fn prefix_base_spec(&self, node: int) -> Option<(ArrayInfo, nat)>
        decreases self.measure(node),
    {
        if !(0 <= node < self.len()) || !node_ok(self.nodes@, node) {
            None
        } else if self.array_spec(node) is Some {
            Some((self.array_spec(node)->0, 0nat))
        } else {
            match self.kind(node) {
                NodeKind::Expr(ExprKind::Cast { operand, .. }) => self.prefix_base_spec(operand as int),
                NodeKind::Expr(ExprKind::ArraySelect { base, indices }) => match self.prefix_base_spec(base as int) {
                    Some((array, consumed)) => {
                        let c = consumed + indices.len();
                        if c <= usize::MAX && c < array.dims.len() { Some((array, c as nat)) } else { None }
                    },
                    None => None,
                },
                NodeKind::Expr(ExprKind::BitSelect { base, .. }) => match self.prefix_base_spec(base as int) {
                    Some((array, consumed)) => {
                        let c = consumed + 1;
                        if c <= usize::MAX && c < array.dims.len() { Some((array, c as nat)) } else { None }
                    },
                    None => None,
                },
                _ => None,
            }
        }
    }

    pub fn p30_array_prefix_base(&self, node: usize) -> (r: Option<(&ArrayInfo, usize)>)
        requires
            self.wf(),
            node < self.nodes.len(),
        ensures
            r matches Some((a, c)) ==> self.prefix_base_spec(node as int) == Some((*a, c as nat)),
            r is None ==> self.prefix_base_spec(node as int) is None,
        decreases self.measure(node as int),
    {
        proof { self.lemma_node(node as int); }
        if let Some(array) = self.array_of(node) {
            return Some((array, 0));
        }
        match &self.nodes[node].kind {
            NodeKind::Expr(ExprKind::Cast { operand, .. }) => self.p30_array_prefix_base(*operand),
            NodeKind::Expr(ExprKind::ArraySelect { base, indices }) => {
                let (array, consumed) = match self.p30_array_prefix_base(*base) {
                    Some(p) => p,
                    None => return None,
                };
                let consumed = match consumed.checked_add(indices.len()) {
                    Some(c) => c,
                    None => return None,
                };
                if consumed < array.dims.len() { Some((array, consumed)) } else { None }
            },
            NodeKind::Expr(ExprKind::BitSelect { base, .. }) => {
                let (array, consumed) = match self.p30_array_prefix_base(*base) {
                    Some(p) => p,
                    None => return None,
                };
                let consumed = match consumed.checked_add(1) {
                    Some(c) => c,
                    None => return None,
                };
                if consumed < array.dims.len() { Some((array, consumed)) } else { None }
            },
            _ => None,
        }
    }

    /// Whether an assignment operand denotes a whole fixed array or a
    /// sub-array of one.
    pub open spec fn fixed_array_candidate_spec(&self, node: int) -> bool {
        match self.kind(node) {
            NodeKind::Array { .. } | NodeKind::Expr(ExprKind::Ref { .. }) => self.array_spec(node) is Some,
            NodeKind::Expr(ExprKind::PartSelect { base, .. }) => self.prefix_base_spec(base as int) is Some,
            NodeKind::Expr(ExprKind::BitSelect { base, .. }) => self.prefix_base_spec(base as int) is Some,
            NodeKind::Expr(ExprKind::ArraySelect { base, indices }) => match self.prefix_base_spec(base as int) {
                Some((array, consumed)) => {
                    let c = consumed + indices.len();
                    (if c > usize::MAX { usize::MAX as int } else { c }) < array.dims.len()
                },
                None => false,
            },
            _ => false,
        }
    }

    pub fn p30_fixed_array_assignment_candidate(&self, node: usize) -> (r: bool)
        requires
            self.wf(),
            node < self.nodes.len(),
        ensures
            r == self.fixed_array_candidate_spec(node as int),
    {
        proof { self.lemma_node(node as int); }
        match &self.nodes[node].kind {
            NodeKind::Array { .. } | NodeKind::Expr(ExprKind::Ref { .. }) => self.array_of(node).is_some(),
            NodeKind::Expr(ExprKind::PartSelect { base, .. }) => self.p30_array_prefix_base(*base).is_some(),
            NodeKind::Expr(ExprKind::BitSelect { base, .. }) => self.p30_array_prefix_base(*base).is_some(),
            NodeKind::Expr(ExprKind::ArraySelect { base, indices }) => match self.p30_array_prefix_base(*base) {
                Some((array, consumed)) => consumed.saturating_add(indices.len()) < array.dims.len(),
                None => false,
            },
            _ => false,
        }
    }

    /// The constant coordinate `value`.
    pub fn p30_const_index(value: i32) -> (e: IrExpr)
        ensures
            e == const_index_expr(value as int),
    {
        pattern_key_expr(value as i128, 32, true, false)
    }

    fn clone_prefix(prefix: &[IrExpr]) -> (r: Vec<IrExpr>)
        ensures
            r@ == prefix@,
    {
        let mut r: Vec<IrExpr> = Vec::new();
        let mut i: usize = 0;
        while i < prefix.len()
            invariant
                i <= prefix.len(),
                r@ == prefix@.take(i as int),
            decreases prefix.len() - i,
        {
            r.push(prefix[i].clone());
            assert(r@ =~= prefix@.take(i + 1));
            i = i + 1;
        }
        assert(prefix@.take(prefix.len() as int) =~= prefix@);
        r
    }

    fn append_coordinates_from(dims: &[(i32, i32)], d: usize, prefix: &[IrExpr], out: &mut Vec<Vec<IrExpr>>)
        -> (r: Result<(), String>)
        requires
            d <= dims.len(),
        ensures
            r is Ok <==> dims_enumerable(dims@.skip(d as int)),
            r is Ok ==> rows(final(out)@) == rows(old(out)@) + coords_spec(dims@.skip(d as int), prefix@),
            r matches Err(e) ==> e@ == "fixed unpacked-array coordinate count overflows"@,
            r is Err ==> kept_prefix(rows(old(out)@), rows(final(out)@), coords_spec(dims@.skip(d as int), prefix@)),
        decreases dims.len() - d, 1int,
    {
        if d == dims.len() {
            out.push(Self::clone_prefix(prefix));
            assert(dims@.skip(d as int) =~= Seq::<(i32, i32)>::empty());
            assert(rows(out@) =~= rows(old(out)@) + seq![prefix@]);
            return Ok(());
        }
        let (left, right) = dims[d];
        let ghost ds = dims@.skip(d as int);
        assert(ds[0] == (left, right));
        assert(ds.drop_first() =~= dims@.skip(d + 1));
        let count: u64 = if left >= right {
            ((left as i64) - (right as i64)) as u64 + 1
        } else {
            ((right as i64) - (left as i64)) as u64 + 1
        };
        assert(count as int == dim_count((left, right)));
        let mut offset: u64 = 0;
        let ghost start = rows(out@);
        assert(coords_spec(ds, prefix@) == coords_from(ds, prefix@, 0));
        while offset < count
            invariant
                d < dims.len(),
                ds == dims@.skip(d as int),
                ds[0] == (left, right),
                ds.drop_first() =~= dims@.skip(d + 1),
                count as int == dim_count((left, right)),
                offset <= count,
                rows(out@) + coords_from(ds, prefix@, offset as int) == start + coords_from(ds, prefix@, 0),
                offset <= 0x8000_0000,
                dims_enumerable(dims@.skip(d + 1)) || offset == 0,
                start == rows(old(out)@),
                out@.len() >= start.len(),
                coords_spec(ds, prefix@) == coords_from(ds, prefix@, 0),
            decreases count - offset,
        {
            if offset > 0x7fff_ffffu64 {
                proof {
                    assert(dim_count(ds[0]) > 0x8000_0000);
                }
                proof {
                    assert(coords_from(ds, prefix@, offset as int).take(0) =~= Seq::<Seq<IrExpr>>::empty());
                    lemma_prefix_from_split(start, rows(out@), coords_from(ds, prefix@, offset as int),
                        coords_from(ds, prefix@, 0), Seq::empty());
                    assert(rows(out@) + Seq::<Seq<IrExpr>>::empty() =~= rows(out@));
                }
                return Err(owned("fixed unpacked-array coordinate count overflows"));
            }
            let off = offset as i32;
            let index: i32 = if left >= right { left - off } else { left + off };
            let mut next = Self::clone_prefix(prefix);
            next.push(Self::p30_const_index(index));
            let ghost before = rows(out@);
            match Self::append_coordinates_from(dims, d + 1, next.as_slice(), out) {
                Ok(()) => {},
                Err(e) => {
                    proof {
                        assert(next@ == prefix@.push(const_index_expr(dim_index((left, right), offset as int))));
                        let sub = coords_spec(ds.drop_first(), next@);
                        let m2 = choose|m2: int| 0 <= m2 <= sub.len() && rows(out@) == before + #[trigger] sub.take(m2);
                        assert(coords_from(ds, prefix@, offset as int) == sub + coords_from(ds, prefix@, offset + 1));
                        assert(sub.take(m2) =~= coords_from(ds, prefix@, offset as int).take(m2));
                        lemma_prefix_from_split(start, before, coords_from(ds, prefix@, offset as int),
                            coords_from(ds, prefix@, 0), sub.take(m2));
                    }
                    return Err(e);
                },
            }
            proof {
                assert(next@ == prefix@.push(const_index_expr(dim_index((left, right), offset as int))));
                assert(coords_from(ds, prefix@, offset as int) == coords_spec(ds.drop_first(), next@)
                    + coords_from(ds, prefix@, offset + 1));
                assert(rows(out@) == before + coords_spec(ds.drop_first(), next@));
                assert(rows(out@) + coords_from(ds, prefix@, offset + 1) =~= before + coords_from(ds, prefix@, offset as int));
            }
            offset = offset + 1;
        }
        proof {
            assert(coords_from(ds, prefix@, count as int) =~= Seq::<Seq<IrExpr>>::empty());
            assert(rows(out@) =~= start + coords_from(ds, prefix@, 0));
            assert forall|i: int| 0 <= i < ds.len() implies #[trigger] dim_count(ds[i]) <= 0x8000_0000 by {
                if i > 0 {
                    assert(ds[i] == dims@.skip(d + 1)[i - 1]);
                }
            }
        }
        Ok(())
    }

    /// Append the coordinates of every element under `prefix` of the
    /// dimensions `dims` to `out`, the first dimension varying slowest and
    /// each dimension walked from its left bound to its right bound.
    pub fn p30_append_coordinates(dims: &[(i32, i32)], prefix: &[IrExpr], out: &mut Vec<Vec<IrExpr>>) -> (r: Result<(), String>)
        ensures
            r is Ok <==> dims_enumerable(dims@),
            r is Ok ==> rows(final(out)@) == rows(old(out)@) + coords_spec(dims@, prefix@),
            r matches Err(e) ==> e@ == "fixed unpacked-array coordinate count overflows"@,
            r is Ok ==> rows(final(out)@) == rows(old(out)@) + index_rows(prefix@, index_vectors_from(dims@, 0)),
            r is Err ==> kept_prefix(rows(old(out)@), rows(final(out)@), coords_spec(dims@, prefix@)),
    {
        assert(dims@.skip(0) =~= dims@);
        proof {
            law_coordinates_follow_index_vectors(dims@, prefix@);
        }
        Self::append_coordinates_from(dims, 0, prefix, out)
    }

    /// The view of every element of `array` under the index prefix `prefix`.
    pub fn p30_view_from_prefix(array: ArrayInfo, prefix: &[IrExpr]) -> (r: Result<P30ArrayView, String>)
        ensures
            r is Ok <==> prefix.len() <= array.dims.len() && dims_enumerable(array.dims@.skip(prefix.len() as int)),
            r matches Ok(view) ==> view.array == array
                && rows(view.coordinates@) == coords_spec(array.dims@.skip(prefix.len() as int), prefix@),
            r matches Err(e) ==> e@ == if prefix.len() > array.dims.len() {
                "fixed unpacked-array index rank exceeds the declared rank"@
            } else {
                "fixed unpacked-array coordinate count overflows"@
            },
    {
        if prefix.len() > array.dims.len() {
            return Err(owned("fixed unpacked-array index rank exceeds the declared rank"));
        }
        let mut coordinates: Vec<Vec<IrExpr>> = Vec::new();
        let res = Self::append_coordinates_from(array.dims.as_slice(), prefix.len(), prefix, &mut coordinates);
        match res {
            Ok(()) => {
                assert(rows(coordinates@) =~= coords_spec(array.dims@.skip(prefix.len() as int), prefix@));
                Ok(P30ArrayView { array, coordinates })
            },
            Err(e) => Err(e),
        }
    }
}

/// The coordinates of the first `o` indices of a slice that starts at
/// `left` and moves down (or up) by one, each expanded over the dimensions
/// `tail`.
pub open spec fn slice_coords(tail: Seq<(i32, i32)>, prefix: Seq<IrExpr>, left: int, down: bool, o: int)
    -> Seq<Seq<IrExpr>>
    decreases o,
{
    if o <= 0 {
        Seq::empty()
    } else {
        slice_coords(tail, prefix, left, down, o - 1)
            + coords_spec(tail, prefix.push(const_index_expr(if down { left - (o - 1) } else { left + (o - 1) })))
    }
}

impl Codegen {
    /// The view of slice `[left:right]` (constant bound nodes) of the
    /// dimension after `prefix` of `array`, or why there is none.
    pub open spec fn slice_view_spec(&self, path: Seq<char>, array: ArrayInfo, prefix: Seq<IrExpr>, left_node: int,
        right_node: int) -> Result<Seq<Seq<IrExpr>>, Seq<char>>
    {
        let lv = self.const_value(left_node);
        let rv = self.const_value(right_node);
        if lv is None || rv is None {
            Err("fixed unpacked-array slice bounds in `"@ + path + "` must be constant integers"@)
        } else if !(i32::MIN <= lv->0 <= i32::MAX) {
            Err("fixed unpacked-array slice left bound is out of range in `"@ + path + "`"@)
        } else if !(i32::MIN <= rv->0 <= i32::MAX) {
            Err("fixed unpacked-array slice right bound is out of range in `"@ + path + "`"@)
        } else if array.dims.len() <= prefix.len() {
            Err("fixed unpacked-array slice has no dimension in `"@ + path + "`"@)
        } else {
            let l = lv->0 as int;
            let r = rv->0 as int;
            let (dl, dr) = array.dims@[prefix.len() as int];
            let lo = if dl <= dr { dl as int } else { dr as int };
            let hi = if dl <= dr { dr as int } else { dl as int };
            if l < lo || l > hi || r < lo || r > hi {
                Err("fixed unpacked-array slice ["@ + int_decimal(l) + ":"@ + int_decimal(r)
                    + "] is outside declared bounds ["@ + int_decimal(dl as int) + ":"@ + int_decimal(dr as int)
                    + "] in `"@ + path + "`"@)
            } else {
                let tail = array.dims@.skip(prefix.len() as int + 1);
                let count = if l >= r { l - r } else { r - l };
                if !dims_enumerable(tail) {
                    Err("fixed unpacked-array coordinate count overflows"@)
                } else if count > 0x8000_0000 {
                    Err("fixed unpacked-array slice is too large in `"@ + path + "`"@)
                } else {
                    Ok(slice_coords(tail, prefix, l, l >= r, count)
                        + coords_spec(tail, prefix.push(const_index_expr(if count == 0 { l } else { r }))))
                }
            }
        }
    }

    /// The view of the slice `[left:right]` of the dimension after `prefix`
    /// of `array`: every element from the left bound to the right bound,
    /// both included, each expanded over the dimensions below.
    pub fn p30_slice_view_with_prefix(&self, path: &str, array: ArrayInfo, prefix: &[IrExpr], left_node: usize,
        right_node: usize) -> (r: Result<P30ArrayView, String>)
        requires
            self.wf(),
            left_node < self.nodes.len(),
            right_node < self.nodes.len(),
        ensures
            self.slice_view_spec(path@, array, prefix@, left_node as int, right_node as int) == (match r {
                Ok(view) => Ok(rows(view.coordinates@)),
                Err(e) => Err(e@),
            }),
            r matches Ok(view) ==> view.array == array,
    {
        let left = match self.eval_bound_i128(left_node) {
            Ok(v) => v,
            Err(_) => {
                let mut m = owned("fixed unpacked-array slice bounds in `");
                m.append(path);
                m.append("` must be constant integers");
                return Err(m);
            },
        };
        let right = match self.eval_bound_i128(right_node) {
            Ok(v) => v,
            Err(_) => {
                let mut m = owned("fixed unpacked-array slice bounds in `");
                m.append(path);
                m.append("` must be constant integers");
                return Err(m);
            },
        };
        if left < i32::MIN as i128 || left > i32::MAX as i128 {
            let mut m = owned("fixed unpacked-array slice left bound is out of range in `");
            m.append(path);
            m.append("`");
            return Err(m);
        }
        if right < i32::MIN as i128 || right > i32::MAX as i128 {
            let mut m = owned("fixed unpacked-array slice right bound is out of range in `");
            m.append(path);
            m.append("`");
            return Err(m);
        }
        let left = left as i32;
        let right = right as i32;
        if array.dims.len() <= prefix.len() {
            let mut m = owned("fixed unpacked-array slice has no dimension in `");
            m.append(path);
            m.append("`");
            return Err(m);
        }
        let (decl_left, decl_right) = array.dims[prefix.len()];
        let lo = if decl_left <= decl_right { decl_left } else { decl_right };
        let hi = if decl_left <= decl_right { decl_right } else { decl_left };
        if left < lo || left > hi || right < lo || right > hi {
            let mut m = owned("fixed unpacked-array slice [");
            m.append(int_string(left as i128).as_str());
            m.append(":");
            m.append(int_string(right as i128).as_str());
            m.append("] is outside declared bounds [");
            m.append(int_string(decl_left as i128).as_str());
            m.append(":");
            m.append(int_string(decl_right as i128).as_str());
            m.append("] in `");
            m.append(path);
            m.append("`");
            return Err(m);
        }
        let ghost tail = array.dims@.skip(prefix.len() as int + 1);
        let count: u64 = if left >= right { (left as i64 - right as i64) as u64 } else { (right as i64 - left as i64) as u64 };
        let ghost endpoint_coords = coords_spec(tail, prefix@.push(const_index_expr(
            if count == 0 { left as int } else { right as int })));
        let ghost expected = if !dims_enumerable(tail) {
            Err::<Seq<Seq<IrExpr>>, Seq<char>>("fixed unpacked-array coordinate count overflows"@)
        } else if count > 0x8000_0000 {
            Err("fixed unpacked-array slice is too large in `"@ + path@ + "`"@)
        } else {
            Ok(slice_coords(tail, prefix@, left as int, left >= right, count as int) + endpoint_coords)
        };
        assert(self.slice_view_spec(path@, array, prefix@, left_node as int, right_node as int) == expected);
        let mut coordinates: Vec<Vec<IrExpr>> = Vec::new();
        let mut offset: u64 = 0;
        while offset < count
            invariant
                offset <= count,
                offset <= 0x8000_0000,
                self.slice_view_spec(path@, array, prefix@, left_node as int, right_node as int) == expected,
                expected == (if !dims_enumerable(tail) {
                    Err::<Seq<Seq<IrExpr>>, Seq<char>>("fixed unpacked-array coordinate count overflows"@)
                } else if count > 0x8000_0000 {
                    Err("fixed unpacked-array slice is too large in `"@ + path@ + "`"@)
                } else {
                    Ok(slice_coords(tail, prefix@, left as int, left >= right, count as int) + endpoint_coords)
                }),
                count as int == (if left >= right { left - right } else { right - left }),
                prefix.len() < array.dims.len(),
                tail == array.dims@.skip(prefix.len() as int + 1),
                rows(coordinates@) == slice_coords(tail, prefix@, left as int, left >= right, offset as int),
                offset > 0 ==> dims_enumerable(tail),
            decreases count - offset,
        {
            if offset > 0x7fff_ffff {
                let mut m = owned("fixed unpacked-array slice is too large in `");
                m.append(path);
                m.append("`");
                return Err(m);
            }
            let index: i32 = if left >= right { (left as i64 - offset as i64) as i32 } else { (left as i64 + offset as i64) as i32 };
            assert(index as int == if left >= right { left - offset } else { left + offset });
            let mut coordinate_prefix = Self::clone_prefix(prefix);
            coordinate_prefix.push(Self::p30_const_index(index));
            let ghost before = rows(coordinates@);
            match Self::append_coordinates_from(array.dims.as_slice(), prefix.len() + 1, coordinate_prefix.as_slice(),
                &mut coordinates) {
                Ok(()) => {},
                Err(e) => return Err(e),
            }
            proof {
                assert(coordinate_prefix@ == prefix@.push(const_index_expr(index as int)));
                assert(rows(coordinates@) =~= slice_coords(tail, prefix@, left as int, left >= right, offset + 1));
            }
            offset = offset + 1;
        }
        let endpoint = if count == 0 { left } else { right };
        let mut coordinate_prefix = Self::clone_prefix(prefix);
        coordinate_prefix.push(Self::p30_const_index(endpoint));
        match Self::append_coordinates_from(array.dims.as_slice(), prefix.len() + 1, coordinate_prefix.as_slice(),
            &mut coordinates) {
            Ok(()) => {},
            Err(e) => return Err(e),
        }
        assert(array.dims@.skip(prefix.len() + 1) == tail);
        assert(rows(coordinates@) == slice_coords(tail, prefix@, left as int, left >= right, count as int) + endpoint_coords);
        Ok(P30ArrayView { array, coordinates })
    }
}

/// The coordinate rows of index vectors `vs` under `prefix`.
pub open spec fn index_rows(prefix: Seq<IrExpr>, vs: Seq<Seq<i32>>) -> Seq<Seq<IrExpr>> {
    vs.map_values(|v: Seq<i32>| prefix + v.map_values(|i: i32| const_index_expr(i as int)))
}

proof fn lemma_index_rows_concat(prefix: Seq<IrExpr>, a: Seq<Seq<i32>>, b: Seq<Seq<i32>>)
    ensures
        index_rows(prefix, a + b) == index_rows(prefix, a) + index_rows(prefix, b),
{
    assert(index_rows(prefix, a + b) =~= index_rows(prefix, a) + index_rows(prefix, b));
}

proof fn lemma_index_rows_first(prefix: Seq<IrExpr>, x: i32, vs: Seq<Seq<i32>>)
    ensures
        index_rows(prefix.push(const_index_expr(x as int)), vs)
            == index_rows(prefix, vs.map_values(|t: Seq<i32>| seq![x] + t)),
{
    let c = |i: i32| const_index_expr(i as int);
    assert forall|j: int| 0 <= j < vs.len() implies #[trigger] index_rows(prefix.push(const_index_expr(x as int)), vs)[j]
        == index_rows(prefix, vs.map_values(|t: Seq<i32>| seq![x] + t))[j] by {
        let t = vs[j];
        assert((seq![x] + t).map_values(c) =~= seq![const_index_expr(x as int)] + t.map_values(c));
        assert(prefix.push(const_index_expr(x as int)) + t.map_values(c)
            =~= prefix + (seq![x] + t).map_values(c));
    }
    assert(index_rows(prefix.push(const_index_expr(x as int)), vs)
        =~= index_rows(prefix, vs.map_values(|t: Seq<i32>| seq![x] + t)));
}

proof fn lemma_coords_agree(dims: Seq<(i32, i32)>, d: int, prefix: Seq<IrExpr>)
    requires
        0 <= d <= dims.len(),
    ensures
        coords_spec(dims.skip(d), prefix) == index_rows(prefix, index_vectors_from(dims, d)),
    decreases dims.len() - d, 1int, 0int,
{
    if d == dims.len() {
        assert(dims.skip(d) =~= Seq::<(i32, i32)>::empty());
        assert(Seq::<i32>::empty().map_values(|i: i32| const_index_expr(i as int)) =~= Seq::<IrExpr>::empty());
        assert(prefix + Seq::<IrExpr>::empty() =~= prefix);
        assert(index_rows(prefix, seq![seq![]]) =~= seq![prefix]);
    } else {
        lemma_coords_from_agree(dims, d, prefix, 0);
    }
}

proof fn lemma_coords_from_agree(dims: Seq<(i32, i32)>, d: int, prefix: Seq<IrExpr>, k: int)
    requires
        0 <= d < dims.len(),
        0 <= k,
    ensures
        coords_from(dims.skip(d), prefix, k) == index_rows(prefix, vectors_with_first(dims, d, k)),
    decreases dims.len() - d, 0int, index_range(dims[d].0, dims[d].1).len() - k,
{
    let ds = dims.skip(d);
    let rg = index_range(dims[d].0, dims[d].1);
    assert(ds[0] == dims[d]);
    assert(rg.len() == dim_count(ds[0]));
    if k < rg.len() {
        assert(ds.drop_first() =~= dims.skip(d + 1));
        assert(rg[k] as int == dim_index(ds[0], k));
        lemma_coords_agree(dims, d + 1, prefix.push(const_index_expr(rg[k] as int)));
        lemma_coords_from_agree(dims, d, prefix, k + 1);
        lemma_index_rows_first(prefix, rg[k], index_vectors_from(dims, d + 1));
        lemma_index_rows_concat(prefix, index_vectors_from(dims, d + 1).map_values(|t: Seq<i32>| seq![rg[k]] + t),
            vectors_with_first(dims, d, k + 1));
    } else {
        assert(index_rows(prefix, Seq::<Seq<i32>>::empty()) =~= Seq::<Seq<IrExpr>>::empty());
    }
}

/// The coordinates the appender writes for `dims` under `prefix` are the
/// index vectors `inside_array_index_vectors(dims)` gives, in the same
/// order, each turned into constant coordinates after `prefix`.
pub proof fn law_coordinates_follow_index_vectors(dims: Seq<(i32, i32)>, prefix: Seq<IrExpr>)
    ensures
        coords_spec(dims, prefix) == index_rows(prefix, index_vectors_from(dims, 0)),
{
    lemma_coords_agree(dims, 0, prefix);
    assert(dims.skip(0) =~= dims);
}

} // verus!
