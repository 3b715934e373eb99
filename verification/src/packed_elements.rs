//! Packed selections of fixed-array elements, kept as a chain of typed
//! slices so that each intermediate bound is preserved.

use vstd::prelude::*;
use vstd::string::StringExecFns;
use crate::codegen::Codegen;
use crate::ir::{IrExpr, LLG_MAX_WIDTH, integer_width, lhs_integer_expr};
use crate::packed::{
    PackedRange, IrPackedSelect, packed_dimension, packed_dimension_ok, packed_dimension_problem, packed_lsb,
    packed_selection_width,
    effective_range, range_extent, selection_width_ok, selector_value, lsb_width, lsb_offset,
};
use crate::text::owned;

verus! {

/// One level of a packed selection whose indices are already lowered.
pub enum Select {
    /// Element indices, one per packed dimension in order.
    Elements(Vec<IrExpr>),
    /// A constant part select `[left:right]` (the bound nodes).
    Part(usize, usize),
    /// An indexed part select of the lowered base, the width node, and
    /// whether it is `-:`.
    Indexed(IrExpr, usize, bool),
}

pub open spec fn dim_at(dims: Seq<PackedRange>, k: int) -> Option<PackedRange> {
    if 0 <= k < dims.len() { Some(dims[k]) } else { None }
}

/// The width of the packed value that element selection `k` splits.
pub open spec fn width_at(pw: u32, dims: Seq<PackedRange>, k: nat) -> int
    decreases k,
{
    if k == 0 {
        pw as int
    } else {
        let w = width_at(pw, dims, (k - 1) as nat);
        match effective_range(w as u32, dim_at(dims, k - 1)) {
            Some(r) => w / range_extent(r),
            None => 0,
        }
    }
}

/// Whether `packed_lsb(index, range, stride, back)` succeeds.
pub open spec fn lsb_ok(index: IrExpr, range: PackedRange, stride: int, back: int) -> bool {
    !index.real && stride != 0 && lsb_width(index.width, range.right, back as u32, stride as u32) <= LLG_MAX_WIDTH
}

/// Why `packed_lsb(index, range, stride, back)` fails.
pub open spec fn lsb_problem(index: IrExpr, stride: int) -> Seq<char> {
    if index.real || stride == 0 {
        "packed selection requires an integral index and nonzero stride"@
    } else {
        "packed selection index arithmetic exceeds the supported limit"@
    }
}

/// `step` selects `width` bits at the offset `packed_lsb(index, range,
/// stride, back)` computes.
pub open spec fn step_matches(step: IrPackedSelect, index_width: u32, index_value: Option<int>, range: PackedRange,
    stride: int, back: int, width: int) -> bool
{
    &&& step.width as int == width
    &&& step.base.width as int == lsb_width(index_width, range.right, back as u32, stride as u32)
    &&& step.base.signed
    &&& !step.base.real
    &&& step.base.fill is None
    &&& step.base.value() == match index_value {
        Some(i) => Some(lsb_offset(i, range, stride, back)),
        None => None,
    }
}

/// Whether element selection `k` succeeds.
pub open spec fn elem_ok(pw: u32, dims: Seq<PackedRange>, indices: Seq<IrExpr>, k: int) -> bool {
    let w = width_at(pw, dims, k as nat);
    &&& packed_dimension_ok(w as u32, dim_at(dims, k))
    &&& lsb_ok(indices[k], effective_range(w as u32, dim_at(dims, k))->0, width_at(pw, dims, (k + 1) as nat), 0)
}

/// Why element selection `k` fails.
pub open spec fn elem_problem(pw: u32, dims: Seq<PackedRange>, indices: Seq<IrExpr>, k: int) -> Seq<char> {
    let w = width_at(pw, dims, k as nat);
    if !packed_dimension_ok(w as u32, dim_at(dims, k)) {
        packed_dimension_problem(w as u32, dim_at(dims, k))
    } else {
        lsb_problem(indices[k], width_at(pw, dims, (k + 1) as nat))
    }
}

/// The problem of the first element selection from `k` on that fails.
pub open spec fn elements_problem(pw: u32, dims: Seq<PackedRange>, indices: Seq<IrExpr>, k: int) -> Seq<char>
    decreases indices.len() - k,
{
    if k < 0 || k >= indices.len() {
        Seq::empty()
    } else if !elem_ok(pw, dims, indices, k) {
        elem_problem(pw, dims, indices, k)
    } else {
        elements_problem(pw, dims, indices, k + 1)
    }
}

/// Whether every element selection succeeds.
pub open spec fn elements_ok(pw: u32, dims: Seq<PackedRange>, indices: Seq<IrExpr>) -> bool {
    forall|k: int| 0 <= k < indices.len() ==> #[trigger] elem_ok(pw, dims, indices, k)
}

/// `step` is the step of element selection `k`.
pub open spec fn elem_step(pw: u32, dims: Seq<PackedRange>, indices: Seq<IrExpr>, step: IrPackedSelect, k: int) -> bool {
    let w = width_at(pw, dims, k as nat);
    step_matches(step, indices[k].width, selector_value(indices[k]), effective_range(w as u32, dim_at(dims, k))->0,
        width_at(pw, dims, (k + 1) as nat), 0, width_at(pw, dims, (k + 1) as nat))
}

/// The steps of the element selections.
pub open spec fn element_steps(pw: u32, dims: Seq<PackedRange>, indices: Seq<IrExpr>, new_steps: Seq<IrPackedSelect>) -> bool {
    &&& new_steps.len() == indices.len()
    &&& forall|k: int| 0 <= k < indices.len() ==> #[trigger] elem_step(pw, dims, indices, new_steps[k], k)
}

impl Codegen {
    /// The packed width of a constant indexed-part-select width expression.
    pub open spec fn indexed_width_spec(&self, node: int) -> Option<u32> {
        match self.const_value(node) {
            Some(v) => if 1 <= v <= u32::MAX { Some(v as u32) } else { None },
            None => None,
        }
    }

    fn indexed_part_select_width(&self, node: usize, path: &str) -> (r: Result<u32, String>)
        requires
            self.wf(),
            node < self.nodes.len(),
        ensures
            r is Ok <==> self.indexed_width_spec(node as int) is Some,
            r matches Ok(w) ==> self.indexed_width_spec(node as int) == Some(w),
            r matches Err(e) ==> e@ == if self.const_value(node as int) is None {
                "expression is not an elaboration-time constant"@
            } else {
                "indexed part-select width in `"@ + path@ + "` must be a positive constant"@
            },
    {
        match self.eval_bound_i128(node) {
            Ok(v) => if 1 <= v && v <= 0xffff_ffff {
                Ok(v as u32)
            } else {
                let mut m = owned("indexed part-select width in `");
                m.append(path);
                m.append("` must be a positive constant");
                Err(m)
            },
            Err(e) => Err(e),
        }
    }

    /// Append the packed selection steps of one selection level of `base`
    /// to `steps`, threading the width of the value being selected through
    /// `parent_width`.
    pub fn packed_selection_steps(&self, path: &str, base: usize, select: Select, parent_width: &mut u32,
        steps: &mut Vec<IrPackedSelect>) -> (r: Result<(), String>)
        requires
            self.wf(),
            base < self.nodes.len(),
        ensures
            ({
                let dims = self.nodes@[base as int].packed_dims@;
                let pw = *old(parent_width);
                let first = effective_range(pw, dim_at(dims, 0));
                let stride = if first is Some { pw as int / range_extent(first->0) } else { 0 };
                match select {
                    Select::Elements(indices) => {
                        &&& r is Ok <==> elements_ok(pw, dims, indices@)
                        &&& r matches Err(e) ==> e@ == elements_problem(pw, dims, indices@, 0)
                        &&& r is Ok ==> {
                            &&& final(steps)@.subrange(0, old(steps)@.len() as int) == old(steps)@
                            &&& element_steps(pw, dims, indices@, final(steps)@.skip(old(steps)@.len() as int))
                            &&& *final(parent_width) as int == width_at(pw, dims, indices.len() as nat)
                        }
                    },
                    Select::Part(left, right) => {
                        let ok = packed_dimension_ok(pw, dim_at(dims, 0)) && left < self.nodes.len() && right < self.nodes.len()
                            && self.const_value(left as int) is Some && self.const_value(right as int) is Some;
                        let l = self.const_value(left as int)->0 as int;
                        let rt = self.const_value(right as int)->0 as int;
                        let range = first->0;
                        let reversed = l != rt && ((l < rt) != (range.left < range.right));
                        let count = if l >= rt { l - rt + 1 } else { rt - l + 1 };
                        let all_ok = ok && !reversed && count <= u128::MAX && selection_width_ok(count, stride)
                            && stride != 0 && lsb_width(integer_width(rt) as u32, range.right, 0, stride as u32) <= LLG_MAX_WIDTH;
                        &&& r is Ok <==> all_ok
                        &&& r matches Err(e) ==> e@ == if !packed_dimension_ok(pw, dim_at(dims, 0)) {
                            packed_dimension_problem(pw, dim_at(dims, 0))
                        } else if !(left < self.nodes.len() && right < self.nodes.len()) {
                            "packed part-select bound is not a design node"@
                        } else if !(self.const_value(left as int) is Some && self.const_value(right as int) is Some) {
                            "expression is not an elaboration-time constant"@
                        } else if reversed {
                            "reversed packed part-select in `"@ + path@ + "`"@
                        } else if count > u128::MAX {
                            "packed selection extent overflows in `"@ + path@ + "`"@
                        } else if !selection_width_ok(count, stride) {
                            "packed selection width exceeds the supported limit"@
                        } else {
                            "packed selection index arithmetic exceeds the supported limit"@
                        }
                        &&& r is Ok ==> {
                            &&& final(steps)@.len() == old(steps)@.len() + 1
                            &&& final(steps)@.drop_last() == old(steps)@
                            &&& step_matches(final(steps)@.last(), integer_width(rt) as u32, Some(rt), range, stride, 0, count * stride)
                            &&& *final(parent_width) as int == count * stride
                        }
                        &&& r is Err ==> *final(steps) == *old(steps) && *final(parent_width) == *old(parent_width)
                    },
                    Select::Indexed(start, width_node, negative) => {
                        let range = first->0;
                        let count = self.indexed_width_spec(width_node as int)->0 as int;
                        let back = if negative != (range.left < range.right) { count - 1 } else { 0 };
                        let all_ok = packed_dimension_ok(pw, dim_at(dims, 0)) && width_node < self.nodes.len()
                            && self.indexed_width_spec(width_node as int) is Some && selection_width_ok(count, stride)
                            && lsb_ok(start, range, stride, back);
                        &&& r is Ok <==> all_ok
                        &&& r matches Err(e) ==> e@ == if !packed_dimension_ok(pw, dim_at(dims, 0)) {
                            packed_dimension_problem(pw, dim_at(dims, 0))
                        } else if !(width_node < self.nodes.len()) {
                            "indexed part-select width is not a design node"@
                        } else if self.const_value(width_node as int) is None {
                            "expression is not an elaboration-time constant"@
                        } else if self.indexed_width_spec(width_node as int) is None {
                            "indexed part-select width in `"@ + path@ + "` must be a positive constant"@
                        } else if !selection_width_ok(count, stride) {
                            "packed selection width exceeds the supported limit"@
                        } else {
                            lsb_problem(start, stride)
                        }
                        &&& r is Ok ==> {
                            &&& final(steps)@.len() == old(steps)@.len() + 1
                            &&& final(steps)@.drop_last() == old(steps)@
                            &&& step_matches(final(steps)@.last(), start.width, selector_value(start), range, stride, back, count * stride)
                            &&& *final(parent_width) as int == count * stride
                        }
                        &&& r is Err ==> *final(steps) == *old(steps) && *final(parent_width) == *old(parent_width)
                    },
                }
            }),
    {
        let dims = &self.nodes[base].packed_dims;
        let first: Option<PackedRange> = if dims.len() > 0 { Some(dims[0].clone()) } else { None };
        match select {
            Select::Elements(indices) => {
                let ghost pw = *parent_width;
                let ghost start = steps@;
                let mut k: usize = 0;
                let ghost all = indices@;
                let n = indices.len();
                while k < n
                    invariant
                        n == all.len(),
                        indices@ == all,
                        pw == *old(parent_width),
                        base < self.nodes.len(),
                        dims@ == self.nodes@[base as int].packed_dims@,
                        select matches Select::Elements(ix) && ix@ == all,
                        k <= all.len(),
                        *parent_width as int == width_at(pw, dims@, k as nat),
                        steps@.subrange(0, start.len() as int) == start,
                        steps@.len() == start.len() + k,
                        forall|j: int| 0 <= j < k ==> #[trigger] elem_ok(pw, dims@, all, j),
                        elements_problem(pw, dims@, all, 0) == elements_problem(pw, dims@, all, k as int),
                        forall|j: int| 0 <= j < k ==> #[trigger] elem_step(pw, dims@, all, steps@[start.len() + j], j),
                    decreases all.len() - k,
                {
                    let dim: Option<PackedRange> = if k < dims.len() { Some(dims[k].clone()) } else { None };
                    assert(dim == dim_at(dims@, k as int));
                    let (range, stride) = match packed_dimension(*parent_width, dim) {
                        Ok(p) => p,
                        Err(e) => {
                            assert(!elem_ok(pw, dims@, all, k as int));
                            assert(elements_problem(pw, dims@, all, k as int) == elem_problem(pw, dims@, all, k as int));
                            return Err(e);
                        },
                    };
                    assert(width_at(pw, dims@, (k + 1) as nat) == stride as int);
                    let index = indices[k].clone();
                    let lsb = match packed_lsb(index, range, stride, 0) {
                        Ok(e) => e,
                        Err(e) => {
                            assert(!elem_ok(pw, dims@, all, k as int));
                            assert(elements_problem(pw, dims@, all, k as int) == elem_problem(pw, dims@, all, k as int));
                            return Err(e);
                        },
                    };
                    let ghost before = steps@;
                    steps.push(IrPackedSelect { base: lsb, width: stride });
                    *parent_width = stride;
                    assert(elem_ok(pw, dims@, all, k as int));
                    assert(elements_problem(pw, dims@, all, k as int) == elements_problem(pw, dims@, all, k + 1));
                    assert(elem_step(pw, dims@, all, steps@[start.len() + k], k as int));
                    assert forall|j: int| 0 <= j < k implies #[trigger] elem_step(pw, dims@, all, steps@[start.len() + j], j) by {
                        assert(steps@[start.len() + j] == before[start.len() + j]);
                    }
                    k = k + 1;
                    assert(steps@.subrange(0, start.len() as int) =~= start);
                }
                assert(steps@.skip(start.len() as int) =~= steps@.subrange(start.len() as int, steps@.len() as int));
                assert forall|j: int| 0 <= j < all.len() implies #[trigger] steps@.skip(start.len() as int)[j]
                    == steps@[start.len() + j] by {}
                Ok(())
            },
            Select::Part(left, right) => {
                let (range, stride) = match packed_dimension(*parent_width, first) {
                    Ok(p) => p,
                    Err(e) => return Err(e),
                };
                if left >= self.nodes.len() || right >= self.nodes.len() {
                    return Err(owned("packed part-select bound is not a design node"));
                }
                let l = match self.eval_bound_i128(left) {
                    Ok(v) => v,
                    Err(e) => return Err(e),
                };
                let rt = match self.eval_bound_i128(right) {
                    Ok(v) => v,
                    Err(e) => return Err(e),
                };
                if l != rt && (l < rt) != (range.left < range.right) {
                    let mut m = owned("reversed packed part-select in `");
                    m.append(path);
                    m.append("`");
                    return Err(m);
                }
                let diff: u128 = if l >= rt { crate::packed::abs_diff_i128(l, rt) } else { crate::packed::abs_diff_i128(rt, l) };
                let count = match diff.checked_add(1) {
                    Some(c) => c,
                    None => {
                        let mut m = owned("packed selection extent overflows in `");
                        m.append(path);
                        m.append("`");
                        return Err(m);
                    },
                };
                let width = match packed_selection_width(count, stride) {
                    Ok(w) => w,
                    Err(e) => return Err(e),
                };
                let lsb = match packed_lsb(lhs_integer_expr(rt), range, stride, 0) {
                    Ok(e) => e,
                    Err(e) => return Err(e),
                };
                steps.push(IrPackedSelect { base: lsb, width });
                *parent_width = width;
                Ok(())
            },
            Select::Indexed(start, width_node, negative) => {
                let (range, stride) = match packed_dimension(*parent_width, first) {
                    Ok(p) => p,
                    Err(e) => return Err(e),
                };
                if width_node >= self.nodes.len() {
                    return Err(owned("indexed part-select width is not a design node"));
                }
                let count = match self.indexed_part_select_width(width_node, path) {
                    Ok(c) => c,
                    Err(e) => return Err(e),
                };
                let width = match packed_selection_width(count as u128, stride) {
                    Ok(w) => w,
                    Err(e) => return Err(e),
                };
                let back = if negative != (range.left < range.right) { count - 1 } else { 0 };
                let lsb = match packed_lsb(start, range, stride, back) {
                    Ok(e) => e,
                    Err(e) => return Err(e),
                };
                steps.push(IrPackedSelect { base: lsb, width });
                *parent_width = width;
                Ok(())
            },
        }
    }
}

} // verus!
