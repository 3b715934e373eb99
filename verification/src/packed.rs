//! Packed selections of fixed-array elements, preserving each intermediate
//! bound: every selection step becomes an LSB offset and a width inside its
//! parent element.

use vstd::prelude::*;
use crate::ir::{
    IrExpr, IrExprKind, IrBinOp, LLG_MAX_WIDTH, p2, fits_signed, fits_unsigned, wrap, integer_width,
    lemma_p2_pos, lemma_p2_mono, lemma_p2_128, lemma_p2_add, lemma_wrap_id, lhs_integer_expr, convert_to,
    bin_expr,
};

verus! {

/// A declared packed range `[left:right]`.
pub struct PackedRange {
    pub left: i128,
    pub right: i128,
}

impl Clone for PackedRange {
    fn clone(&self) -> (r: Self)
        ensures
            r == *self,
    {
        PackedRange { left: self.left, right: self.right }
    }
}

/// One step of a packed selection chain: `width` bits starting at `base`.
pub struct IrPackedSelect {
    pub base: IrExpr,
    pub width: u32,
}

/// `a - b` for `a >= b`, as an unsigned integer.
pub fn abs_diff_i128(a: i128, b: i128) -> (r: u128)
    requires
        a >= b,
    ensures
        r as int == a as int - b as int,
{
    if b >= 0 || a < 0 {
        (a - b) as u128
    } else {
        (a as u128) + ((-(b + 1)) as u128) + 1
    }
}

/// Number of elements a packed range declares.
pub open spec fn range_extent(range: PackedRange) -> int {
    if range.left >= range.right {
        range.left - range.right + 1
    } else {
        range.right - range.left + 1
    }
}

/// The range of a dimension, defaulting to `[width-1:0]` when none is declared.
pub open spec fn effective_range(width: u32, range: Option<PackedRange>) -> Option<PackedRange> {
    match range {
        Some(r) => Some(r),
        None => if width > 1 {
            Some(PackedRange { left: (width - 1) as i128, right: 0 })
        } else {
            None
        },
    }
}

/// Whether `packed_dimension(width, range)` succeeds.
pub open spec fn packed_dimension_ok(width: u32, range: Option<PackedRange>) -> bool {
    match effective_range(width, range) {
        Some(r) => {
            let extent = range_extent(r);
            extent <= u32::MAX && width != 0 && (width as int) % extent == 0
        },
        None => false,
    }
}

/// Why `width` cannot be split by `range`.
pub open spec fn packed_dimension_problem(width: u32, range: Option<PackedRange>) -> Seq<char> {
    match effective_range(width, range) {
        None => "packed selection has no remaining dimension"@,
        Some(r) => if range_extent(r) > u32::MAX {
            "packed dimension extent overflows"@
        } else {
            "packed dimension disagrees with its element width"@
        },
    }
}

/// Split `width` into the elements of its next packed dimension: the range
/// and the width of one element (the stride).
pub fn packed_dimension(width: u32, range: Option<PackedRange>) -> (r: Result<(PackedRange, u32), String>)
    ensures
        r is Ok <==> packed_dimension_ok(width, range),
        r matches Err(e) ==> e@ == packed_dimension_problem(width, range),
        r matches Ok((rng, stride)) ==> {
            &&& Some(rng) == effective_range(width, range)
            &&& stride as int == (width as int) / range_extent(rng)
            &&& stride as int * range_extent(rng) == width as int
            &&& stride >= 1
        },
{
    let range = match range {
        Some(range) => range,
        None => {
            if width > 1 {
                PackedRange { left: (width - 1) as i128, right: 0 }
            } else {
                return Err(String::from_str("packed selection has no remaining dimension"));
            }
        },
    };
    let diff: u128 = if range.left >= range.right {
        abs_diff_i128(range.left, range.right)
    } else {
        abs_diff_i128(range.right, range.left)
    };
    if diff >= 0xffff_ffff {
        return Err(String::from_str("packed dimension extent overflows"));
    }
    let extent = (diff + 1) as u32;
    if width == 0 || width % extent != 0 {
        return Err(String::from_str("packed dimension disagrees with its element width"));
    }
    let stride = width / extent;
    proof {
        assert(stride as int * extent as int == width as int) by (nonlinear_arith)
            requires stride == width / extent, width % extent == 0, extent >= 1;
        assert(stride >= 1) by (nonlinear_arith)
            requires stride as int * extent as int == width as int, width >= 1, extent >= 1;
    }
    Ok((range, stride))
}

/// Whether `packed_selection_width(count, stride)` succeeds.
pub open spec fn selection_width_ok(count: int, stride: int) -> bool {
    0 < count * stride <= LLG_MAX_WIDTH
}

/// The width of `count` elements of `stride` bits, when it is nonzero and
/// within the supported width.
pub fn packed_selection_width(count: u128, stride: u32) -> (r: Result<u32, String>)
    ensures
        r is Ok <==> selection_width_ok(count as int, stride as int),
        r matches Ok(w) ==> w as int == count as int * stride as int,
        r matches Err(e) ==> e@ == "packed selection width exceeds the supported limit"@,
{
    if count == 0 || stride == 0 {
        proof {
            assert(count as int * stride as int == 0) by (nonlinear_arith)
                requires count == 0 || stride == 0;
        }
        return Err(String::from_str("packed selection width exceeds the supported limit"));
    }
    if count > LLG_MAX_WIDTH as u128 {
        proof {
            assert(count as int * stride as int > LLG_MAX_WIDTH) by (nonlinear_arith)
                requires count > LLG_MAX_WIDTH, stride >= 1;
        }
        return Err(String::from_str("packed selection width exceeds the supported limit"));
    }
    if stride > LLG_MAX_WIDTH {
        proof {
            assert(count as int * stride as int > LLG_MAX_WIDTH) by (nonlinear_arith)
                requires stride > LLG_MAX_WIDTH, count >= 1;
        }
        return Err(String::from_str("packed selection width exceeds the supported limit"));
    }
    proof {
        assert(count as int * stride as int <= 65536 * 65536) by (nonlinear_arith)
            requires count <= 65536, stride <= 65536;
    }
    let w = count * (stride as u128);
    proof {
        assert(w >= 1) by (nonlinear_arith)
            requires w == count * stride, count >= 1, stride >= 1;
    }
    if w > LLG_MAX_WIDTH as u128 {
        return Err(String::from_str("packed selection width exceeds the supported limit"));
    }
    Ok(w as u32)
}

/// Number of binary digits of `n` (zero for zero).
pub open spec fn bit_length(n: nat) -> nat
    decreases n,
{
    if n == 0 {
        0
    } else {
        1 + bit_length(n / 2)
    }
}

pub proof fn lemma_bit_length(n: nat)
    ensures
        n < p2(bit_length(n)),
        n > 0 ==> p2((bit_length(n) - 1) as nat) <= n,
    decreases n,
{
    if n > 0 {
        lemma_bit_length(n / 2);
        let b = bit_length(n / 2);
        assert(p2(b + 1) == 2 * p2(b));
    }
}

fn bit_length_u32(n: u32) -> (r: u32)
    ensures
        r as nat == bit_length(n as nat),
        r <= 32,
{
    proof {
        lemma_bit_length_u32(n as nat);
    }
    let mut m = n;
    let mut count: u32 = 0;
    while m > 0
        invariant
            bit_length(n as nat) == count + bit_length(m as nat),
            count + bit_length(m as nat) <= 32,
        decreases m,
    {
        count = count + 1;
        m = m / 2;
    }
    count
}

pub proof fn lemma_bit_length_u32(n: nat)
    requires
        n <= u32::MAX,
    ensures
        bit_length(n) <= 32,
    decreases n,
{
    if n > 0 {
        lemma_bit_length_u32(n / 2);
        if n / 2 > 0 {
            lemma_bit_length(n / 2);
        }
        lemma_bit_length(n);
        lemma_p2_128();
        if bit_length(n) > 32 {
            lemma_p2_mono(32, (bit_length(n) - 1) as nat);
        }
    }
}

/// The value a selector denotes in its own width: a fill literal is read as
/// its self-determined unsigned bits rather than widened.
pub open spec fn selector_value(index: IrExpr) -> Option<int> {
    if index.has_fill() {
        match index.value() {
            Some(v) => Some(wrap(v, index.width as nat, false)),
            None => None,
        }
    } else {
        index.value()
    }
}

/// The width at which `packed_lsb` does its coordinate arithmetic.
pub open spec fn lsb_width(index_width: u32, right: i128, back: u32, stride: u32) -> int {
    let iw = index_width as int;
    let rw = integer_width(right as int) as int;
    let bw = integer_width(back as int) as int;
    let k = if iw >= rw && iw >= bw { iw } else if rw >= bw { rw } else { bw };
    k + 2 + bit_length((stride - 1) as nat)
}

/// The bit offset of a selection: the distance of `index` from the declared
/// LSB of `range`, less `back` elements, times the element `stride`.
pub open spec fn lsb_offset(index: int, range: PackedRange, stride: int, back: int) -> int {
    let distance = if range.left < range.right {
        range.right - index
    } else {
        index - range.right
    };
    (distance - back) * stride
}

pub proof fn lemma_wrap_range(v: int, w: nat, signed: bool)
    requires
        w >= 1,
    ensures
        signed ==> fits_signed(wrap(v, w, signed), w),
        !signed ==> fits_unsigned(wrap(v, w, signed), w),
{
    lemma_p2_pos(w);
    assert(p2(w) == 2 * p2((w - 1) as nat));
    let m = v % p2(w);
    assert(0 <= m < p2(w)) by (nonlinear_arith)
        requires p2(w) >= 1, m == v % p2(w);
}

/// Every value of an expression lies in the range of its width.
pub proof fn lemma_value_range(e: IrExpr)
    requires
        e.value() is Some,
        e.width >= 1,
    ensures
        e.signed ==> fits_signed(e.value()->0, e.width as nat),
        !e.signed ==> fits_unsigned(e.value()->0, e.width as nat),
{
    lemma_p2_pos(e.width as nat);
    match e.kind {
        IrExprKind::Const { raw, .. } => {
            assert(e.value() == Some(wrap(raw as int, e.width as nat, e.signed)));
            lemma_wrap_range(raw as int, e.width as nat, e.signed);
            let v = e.value()->0;
            assert(v == wrap(raw as int, e.width as nat, e.signed));
            assert(e.signed ==> fits_signed(v, e.width as nat));
        },
        IrExprKind::Fill(f) => {
            if f == 0 {
                lemma_p2_pos((e.width - 1) as nat);
                assert(p2(e.width as nat) == 2 * p2((e.width - 1) as nat));
            } else {
                lemma_wrap_range(p2(e.width as nat) - 1, e.width as nat, e.signed);
            }
        },
        IrExprKind::Concat(part) => {
            lemma_wrap_range(part.value()->0, e.width as nat, e.signed);
        },
        IrExprKind::Convert(operand) => {
            if operand.has_fill() {
                if operand.fill_of() == 0 {
                    lemma_p2_pos((e.width - 1) as nat);
                    assert(p2(e.width as nat) == 2 * p2((e.width - 1) as nat));
                } else {
                    lemma_wrap_range(p2(e.width as nat) - 1, e.width as nat, e.signed);
                }
            } else {
                lemma_wrap_range(operand.value()->0, e.width as nat, e.signed);
            }
        },
        IrExprKind::Bin { op, a, b } => {
            let x = a.value()->0;
            let y = b.value()->0;
            let r = match op {
                IrBinOp::Add => x + y,
                IrBinOp::Sub => x - y,
                IrBinOp::Mul => x * y,
            };
            lemma_wrap_range(r, e.width as nat, e.signed);
        },
        _ => {},
    }
}

/// The coordinate arithmetic of `packed_lsb` never leaves its width.
proof fn lemma_lsb_fits(i: int, r: int, b: int, s: int, k: nat, mb: nat)
    requires
        k >= 1,
        -p2((k - 1) as nat) <= i < p2(k),
        fits_signed(r, k),
        0 <= b < p2((k - 1) as nat),
        1 <= s <= p2(mb),
    ensures
        ({
            let w = k + 2 + mb;
            &&& fits_signed(i, w)
            &&& fits_signed(r, w)
            &&& fits_signed(b, w)
            &&& fits_signed(s, w)
            &&& fits_signed(r - i, w)
            &&& fits_signed(i - r, w)
            &&& fits_signed(r - i - b, w)
            &&& fits_signed(i - r - b, w)
            &&& fits_signed((r - i - b) * s, w)
            &&& fits_signed((i - r - b) * s, w)
        }),
{
    let w = k + 2 + mb;
    let h = p2((k - 1) as nat);
    lemma_p2_pos((k - 1) as nat);
    lemma_p2_pos(mb);
    assert(p2(k) == 2 * h);
    assert(p2(k + 1) == 2 * p2(k));
    lemma_p2_add(k + 1, mb);
    assert((w - 1) as nat == k + 1 + mb);
    let big = p2(k + 1);
    let m = p2(mb);
    assert(p2((w - 1) as nat) == big * m);
    assert(big <= big * m) by (nonlinear_arith)
        requires big >= 1, m >= 1;
    assert(m <= big * m) by (nonlinear_arith)
        requires big >= 1, m >= 1;
    let x1 = r - i - b;
    let x2 = i - r - b;
    assert(-big <= x1 < big);
    assert(-big <= x2 < big);
    assert(big >= 4);
    assert(m < big * m) by (nonlinear_arith)
        requires big >= 4, m >= 1;
    assert(-(big * m) <= x1 * s < big * m) by (nonlinear_arith)
        requires -big <= x1 < big, 1 <= s <= m, big >= 1;
    assert(-(big * m) <= x2 * s < big * m) by (nonlinear_arith)
        requires -big <= x2 < big, 1 <= s <= m, big >= 1;
}

/// Widen before coordinate arithmetic, including multiplication, so an
/// unsigned high-bit index never becomes negative or wraps into a valid lane.
/// A fill literal selector denotes its own bits (`'1` is one), not a fill.
pub fn packed_lsb(index: IrExpr, range: PackedRange, stride: u32, back: u32) -> (r: Result<IrExpr, String>)
    ensures
        r is Err <==> (index.real || stride == 0
            || lsb_width(index.width, range.right, back, stride) > LLG_MAX_WIDTH),
        r matches Err(e) ==> e@ == if index.real || stride == 0 {
            "packed selection requires an integral index and nonzero stride"@
        } else {
            "packed selection index arithmetic exceeds the supported limit"@
        },
        r matches Ok(e) ==> {
            &&& e.width as int == lsb_width(index.width, range.right, back, stride)
            &&& e.signed
            &&& !e.real
            &&& e.fill is None
            &&& e.value() == match selector_value(index) {
                Some(i) => Some(lsb_offset(i, range, stride as int, back as int)),
                None => None,
            }
        },
{
    if index.real || stride == 0 {
        return Err(String::from_str("packed selection requires an integral index and nonzero stride"));
    }
    let ghost initial = index;
    let filled = match index.fill {
        Some(_) => true,
        None => match &index.kind {
            IrExprKind::Fill(_) => true,
            IrExprKind::Const { fill: Some(_), .. } => true,
            _ => false,
        },
    };
    let index = if filled {
        // A one-item concatenation establishes a self-determined unsigned
        // value; clearing the marker alone would leave a constant's own fill.
        let width = index.width;
        IrExpr { kind: IrExprKind::Concat(Box::new(index)), width, signed: false, fill: None, real: false }
    } else {
        index
    };
    assert(index.value() == selector_value(initial));
    let right = lhs_integer_expr(range.right);
    let back_expr = lhs_integer_expr(back as i128);
    let multiply_bits = bit_length_u32(stride - 1);
    let mut k = index.width;
    if right.width > k {
        k = right.width;
    }
    if back_expr.width > k {
        k = back_expr.width;
    }
    // k <= u32::MAX, multiply_bits <= 32
    if k > LLG_MAX_WIDTH {
        return Err(String::from_str("packed selection index arithmetic exceeds the supported limit"));
    }
    let width = k + 2 + multiply_bits;
    if width > LLG_MAX_WIDTH {
        return Err(String::from_str("packed selection index arithmetic exceeds the supported limit"));
    }
    let ghost iw = index.width;
    let ghost idx_value = index.value();
    assert(!index.has_fill());
    let ghost rv = range.right as int;
    let ghost bv = back as int;
    let ghost sv = stride as int;
    let ghost w = width as nat;
    proof {
        lemma_bit_length((stride - 1) as nat);
        lemma_p2_128();
        let kk = k as nat;
        let mb = multiply_bits as nat;
        lemma_p2_mono(31, (kk - 1) as nat);
        lemma_p2_pos(kk);
        lemma_p2_mono((integer_width(range.right as int) - 1) as nat, (kk - 1) as nat);
        lemma_p2_mono((integer_width(back as int) - 1) as nat, (kk - 1) as nat);
        assert(fits_signed(range.right as int, kk));
        match idx_value {
            Some(i) => {
                // The selector value lies in its own width, within k bits.
                if iw >= 1 {
                    lemma_value_range(index);
                    lemma_p2_mono((iw - 1) as nat, (kk - 1) as nat);
                    lemma_p2_mono(iw as nat, kk);
                } else {
                    assert(i == 0);
                }
                lemma_lsb_fits(i, rv, bv, sv, kk, mb);
                lemma_wrap_id(i, w, true);
                lemma_wrap_id(rv - i, w, true);
                lemma_wrap_id(i - rv, w, true);
                lemma_wrap_id(rv - i - bv, w, true);
                lemma_wrap_id(i - rv - bv, w, true);
                lemma_wrap_id((rv - i - bv) * sv, w, true);
                lemma_wrap_id((i - rv - bv) * sv, w, true);
            },
            None => {},
        }
        lemma_lsb_fits(0, rv, bv, sv, kk, mb);
        lemma_wrap_id(rv, w, true);
        lemma_wrap_id(bv, w, true);
        lemma_wrap_id(sv, w, true);
    }
    let ascending = range.left < range.right;
    let index_c = convert_to(index, width, true);
    assert(index_c.value() == match idx_value { Some(i) => Some(i), None => None });
    let right_c = convert_to(right, width, true);
    assert(right_c.value() == Some(rv));
    let offset = if ascending {
        bin_expr(IrBinOp::Sub, right_c, index_c)
    } else {
        bin_expr(IrBinOp::Sub, index_c, right_c)
    };
    assert(offset.value() == match idx_value {
        Some(i) => Some(if ascending { rv - i } else { i - rv }),
        None => None,
    });
    let back_c = convert_to(back_expr, width, true);
    assert(back_c.value() == Some(bv));
    let offset = bin_expr(IrBinOp::Sub, offset, back_c);
    assert(offset.value() == match idx_value {
        Some(i) => Some(if ascending { rv - i - bv } else { i - rv - bv }),
        None => None,
    });
    let stride_c = convert_to(lhs_integer_expr(stride as i128), width, true);
    assert(stride_c.value() == Some(sv));
    let result = bin_expr(IrBinOp::Mul, offset, stride_c);
    assert(result.value() == match idx_value {
        Some(i) => Some(if ascending { (rv - i - bv) * sv } else { (i - rv - bv) * sv }),
        None => None,
    });
    Ok(result)
}

/// Read one packed selection step of `base`.
pub fn packed_step_read(base: IrExpr, step: IrPackedSelect) -> (e: IrExpr)
    ensures
        e.width == step.width,
        !e.signed,
        e.fill is None,
        !e.real,
        e.kind == (IrExprKind::IdxPartSel { base: Box::new(base), base_idx: Box::new(step.base), width: step.width }),
{
    IrExpr {
        kind: IrExprKind::IdxPartSel { base: Box::new(base), base_idx: Box::new(step.base), width: step.width },
        width: step.width,
        signed: false,
        fill: None,
        real: false,
    }
}

} // verus!
