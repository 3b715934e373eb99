//! Checks and enumerations used while lowering expressions: the format of a
//! `$value$plusargs` call and the index vectors of an `inside` array
//! operand.

use vstd::prelude::*;
use vstd::string::StringExecFns;
use vstd::string::StringSliceAdditionalSpecFns;
use crate::text::{owned, push_char};

verus! {

/// Why a `$value$plusargs` format is refused.
#[derive(Clone, Copy, Debug, PartialEq, Eq, Structural)]
pub enum PlusargFormatError {
    Nul,
    TrailingPercent,
    TrailingPercentZero,
    SecondConversion,
    Unsupported(u8),
    NoConversion,
}

/// `%`
pub const PERCENT: u8 = 37;
/// `0`
pub const ZERO_DIGIT: u8 = 48;

/// Whether `s` is the lower-case letter of one of the conversions
/// `d h x o b f e g s` (ASCII codes).
pub open spec fn lower_conversion(s: u8) -> bool {
    ||| s == 100 || s == 104 || s == 120 || s == 111 || s == 98
    ||| s == 102 || s == 101 || s == 103 || s == 115
}

/// The conversions a plusarg format may use, in either case: an upper-case
/// letter is its lower-case one less 32.
pub open spec fn plusarg_conversion(s: u8) -> bool {
    lower_conversion(s) || (s < 224 && lower_conversion((s + 32) as u8))
}

/// The scan of format bytes `b` from position `i`, `conversion` telling
/// whether a conversion was already met. `%%` is a literal percent; a
/// conversion is `%`, an optional `0`, then its letter.
pub open spec fn plusarg_scan(b: Seq<u8>, i: int, conversion: bool) -> Result<(), PlusargFormatError>
    decreases b.len() - i,
{
    if i < 0 || i >= b.len() {
        if conversion { Ok(()) } else { Err(PlusargFormatError::NoConversion) }
    } else if b[i] != PERCENT {
        plusarg_scan(b, i + 1, conversion)
    } else if i + 1 >= b.len() {
        Err(PlusargFormatError::TrailingPercent)
    } else if b[i + 1] == PERCENT {
        plusarg_scan(b, i + 2, conversion)
    } else if b[i + 1] == ZERO_DIGIT && i + 2 >= b.len() {
        Err(PlusargFormatError::TrailingPercentZero)
    } else {
        let at = if b[i + 1] == ZERO_DIGIT { i + 2 } else { i + 1 };
        if conversion {
            Err(PlusargFormatError::SecondConversion)
        } else if !plusarg_conversion(b[at]) {
            Err(PlusargFormatError::Unsupported(b[at]))
        } else {
            plusarg_scan(b, at + 1, true)
        }
    }
}

/// The verdict on the bytes of a plusarg format: no NUL byte, and exactly
/// one supported conversion.
pub open spec fn plusarg_format_check(b: Seq<u8>) -> Result<(), PlusargFormatError> {
    if b.contains(0u8) {
        Err(PlusargFormatError::Nul)
    } else {
        plusarg_scan(b, 0, false)
    }
}

pub open spec fn plusarg_error_message(e: PlusargFormatError, path: Seq<char>) -> Seq<char> {
    match e {
        PlusargFormatError::Nul => "$value$plusargs format contains NUL in `"@ + path + "`"@,
        PlusargFormatError::TrailingPercent => "$value$plusargs format ends with `%` in `"@ + path + "`"@,
        PlusargFormatError::TrailingPercentZero => "$value$plusargs format ends with `%0` in `"@ + path + "`"@,
        PlusargFormatError::SecondConversion =>
            "$value$plusargs format has more than one conversion in `"@ + path + "`"@,
        PlusargFormatError::Unsupported(c) =>
            "$value$plusargs format has unsupported conversion `%"@ + seq![c as char] + "` in `"@ + path + "`"@,
        PlusargFormatError::NoConversion => "$value$plusargs format requires one conversion in `"@ + path + "`"@,
    }
}

fn plusarg_error(e: PlusargFormatError, scope_path: &str) -> (r: String)
    ensures
        r@ == plusarg_error_message(e, scope_path@),
{
    let mut m = match e {
        PlusargFormatError::Nul => owned("$value$plusargs format contains NUL in `"),
        PlusargFormatError::TrailingPercent => owned("$value$plusargs format ends with `%` in `"),
        PlusargFormatError::TrailingPercentZero => owned("$value$plusargs format ends with `%0` in `"),
        PlusargFormatError::SecondConversion => owned("$value$plusargs format has more than one conversion in `"),
        PlusargFormatError::Unsupported(c) => {
            let mut m = owned("$value$plusargs format has unsupported conversion `%");
            push_char(&mut m, c as char);
            m.append("` in `");
            m
        },
        PlusargFormatError::NoConversion => owned("$value$plusargs format requires one conversion in `"),
    };
    m.append(scope_path);
    m.append("`");
    m
}

/// Check the format of a `$value$plusargs` call: it holds no NUL byte and
/// exactly one conversion among `%d %h %x %o %b %f %e %g %s` (either case,
/// optionally `%0`-prefixed); `%%` is a literal percent.
pub fn validate_plusarg_format(format: &str, scope_path: &str) -> (r: Result<(), String>)
    ensures
        r is Ok <==> plusarg_format_check(format.spec_bytes()) is Ok,
        r matches Err(m) ==> (plusarg_format_check(format.spec_bytes()) matches Err(e)
            && m@ == plusarg_error_message(e, scope_path@)),
{
    let bytes = format.as_bytes();
    let ghost b = bytes@;
    let mut i: usize = 0;
    while i < bytes.len()
        invariant
            bytes@ == b,
            b == format.spec_bytes(),
            i <= b.len(),
            forall|j: int| 0 <= j < i ==> b[j] != 0u8,
        decreases bytes.len() - i,
    {
        if bytes[i] == 0 {
            assert(b[i as int] == 0u8);
            assert(b.contains(0u8));
            return Err(plusarg_error(PlusargFormatError::Nul, scope_path));
        }
        i = i + 1;
    }
    assert(!b.contains(0u8));
    let mut conversion = false;
    let mut index: usize = 0;
    while index < bytes.len()
        invariant
            bytes@ == b,
            b == format.spec_bytes(),
            index <= b.len(),
            !b.contains(0u8),
            plusarg_format_check(b) == plusarg_scan(b, index as int, conversion),
        decreases bytes.len() - index,
    {
        if bytes[index] != PERCENT {
            index = index + 1;
            continue;
        }
        index = index + 1;
        if index >= bytes.len() {
            return Err(plusarg_error(PlusargFormatError::TrailingPercent, scope_path));
        }
        let mut specifier = bytes[index];
        if specifier == PERCENT {
            index = index + 1;
            continue;
        }
        if specifier == ZERO_DIGIT {
            index = index + 1;
            if index >= bytes.len() {
                return Err(plusarg_error(PlusargFormatError::TrailingPercentZero, scope_path));
            }
            specifier = bytes[index];
        }
        if conversion {
            return Err(plusarg_error(PlusargFormatError::SecondConversion, scope_path));
        }
        // d h x o b f e g s, then the same in upper case
        let supported = match specifier {
            100 | 104 | 120 | 111 | 98 | 102 | 101 | 103 | 115 => true,
            68 | 72 | 88 | 79 | 66 | 70 | 69 | 71 | 83 => true,
            _ => false,
        };
        if !supported {
            return Err(plusarg_error(PlusargFormatError::Unsupported(specifier), scope_path));
        }
        conversion = true;
        index = index + 1;
    }
    if !conversion {
        return Err(plusarg_error(PlusargFormatError::NoConversion, scope_path));
    }
    Ok(())
}

/// The indices of a declared range `[left:right]`, from `left` towards
/// `right`, both included.
pub open spec fn index_range(left: i32, right: i32) -> Seq<i32> {
    if left <= right {
        Seq::new((right - left + 1) as nat, |k: int| (left + k) as i32)
    } else {
        Seq::new((left - right + 1) as nat, |k: int| (left - k) as i32)
    }
}

/// Every index vector of the dimensions `dims[d..]`, the leftmost dimension
/// varying slowest.
pub open spec fn index_vectors_from(dims: Seq<(i32, i32)>, d: int) -> Seq<Seq<i32>>
    decreases dims.len() - d, 1int, 0int,
{
    if d < 0 || d >= dims.len() {
        seq![seq![]]
    } else {
        vectors_with_first(dims, d, 0)
    }
}

/// The index vectors of `dims[d..]` whose first index is the `k`-th or a
/// later index of dimension `d`.
pub open spec fn vectors_with_first(dims: Seq<(i32, i32)>, d: int, k: int) -> Seq<Seq<i32>>
    decreases dims.len() - d, 0int, index_range(dims[d].0, dims[d].1).len() - k,
{
    let rg = index_range(dims[d].0, dims[d].1);
    if d < 0 || d >= dims.len() || k < 0 || k >= rg.len() {
        seq![]
    } else {
        index_vectors_from(dims, d + 1).map_values(|t: Seq<i32>| seq![rg[k]] + t) + vectors_with_first(dims, d, k + 1)
    }
}

pub open spec fn vectors_view(vs: Seq<Vec<i32>>) -> Seq<Seq<i32>> {
    vs.map_values(|v: Vec<i32>| v@)
}

pub open spec fn prefixed(p: Seq<i32>, vs: Seq<Seq<i32>>) -> Seq<Seq<i32>> {
    vs.map_values(|t: Seq<i32>| p + t)
}

proof fn lemma_prefixed_concat(p: Seq<i32>, a: Seq<Seq<i32>>, b: Seq<Seq<i32>>)
    ensures
        prefixed(p, a + b) == prefixed(p, a) + prefixed(p, b),
{
    assert(prefixed(p, a + b) =~= prefixed(p, a) + prefixed(p, b));
}

proof fn lemma_prefixed_twice(p: Seq<i32>, x: i32, vs: Seq<Seq<i32>>)
    ensures
        prefixed(p.push(x), vs) == prefixed(p, vs.map_values(|t: Seq<i32>| seq![x] + t)),
{
    assert forall|i: int| 0 <= i < vs.len() implies
        #[trigger] prefixed(p.push(x), vs)[i] == prefixed(p, vs.map_values(|t: Seq<i32>| seq![x] + t))[i] by {
        assert(p.push(x) + vs[i] =~= p + (seq![x] + vs[i]));
    }
    assert(prefixed(p.push(x), vs) =~= prefixed(p, vs.map_values(|t: Seq<i32>| seq![x] + t)));
}

fn visit_index_vectors(dims: &[(i32, i32)], dimension: usize, current: &mut Vec<i32>, values: &mut Vec<Vec<i32>>)
    requires
        dimension <= dims@.len(),
    ensures
        final(current)@ == old(current)@,
        vectors_view(final(values)@) == vectors_view(old(values)@)
            + prefixed(old(current)@, index_vectors_from(dims@, dimension as int)),
    decreases dims@.len() - dimension,
{
    if dimension == dims.len() {
        let v = current.clone();
        assert(v@ =~= current@);
        let ghost before = values@;
        values.push(v);
        assert(vectors_view(values@) =~= vectors_view(before) + prefixed(current@, index_vectors_from(dims@, dimension as int))) by {
            assert(current@ + seq![] =~= current@);
        }
        return;
    }
    let (left, right) = dims[dimension];
    let step: i32 = if left <= right { 1 } else { -1 };
    let mut index = left;
    let ghost d = dimension as int;
    let ghost rg = index_range(left, right);
    let ghost cur = current@;
    let ghost start = vectors_view(values@);
    let ghost mut k: int = 0;
    assert(dims@[d] == (left, right));
    assert(index_vectors_from(dims@, d) == vectors_with_first(dims@, d, 0));
    let n = dims.len();
    loop
        invariant_except_break
            start + prefixed(cur, index_vectors_from(dims@, d))
                == vectors_view(values@) + prefixed(cur, vectors_with_first(dims@, d, k)),
        invariant
            n == dims@.len(),
            dimension < n,
            d == dimension,
            dims@[d] == (left, right),
            rg == index_range(left, right),
            step == (if left <= right { 1i32 } else { -1i32 }),
            0 <= k < rg.len(),
            index == rg[k],
            current@ == cur,
        ensures
            current@ == cur,
            vectors_view(values@) == start + prefixed(cur, index_vectors_from(dims@, d)),
        decreases rg.len() - k,
    {
        let ghost before = vectors_view(values@);
        let ghost inner = index_vectors_from(dims@, d + 1);
        current.push(index);
        visit_index_vectors(dims, dimension + 1, current, values);
        current.pop();
        assert(current@ =~= cur);
        proof {
            lemma_prefixed_twice(cur, index, inner);
            lemma_prefixed_concat(cur, inner.map_values(|t: Seq<i32>| seq![rg[k]] + t), vectors_with_first(dims@, d, k + 1));
            assert(vectors_view(values@) + prefixed(cur, vectors_with_first(dims@, d, k + 1))
                =~= before + prefixed(cur, vectors_with_first(dims@, d, k)));
        }
        if index == right {
            proof {
                assert(k + 1 == rg.len());
                assert(vectors_with_first(dims@, d, k + 1) =~= seq![]);
                assert(prefixed(cur, vectors_with_first(dims@, d, k + 1)) =~= seq![]);
                assert(vectors_view(values@) + seq![] =~= vectors_view(values@));
            }
            break;
        }
        index = index + step;
        proof { k = k + 1; }
    }
}

/// Every index vector of an unpacked array with declared ranges `dims`
/// (outermost first), each range walked from its left bound towards its
/// right bound, the outermost dimension varying slowest.
pub fn inside_array_index_vectors(dims: &[(i32, i32)]) -> (r: Vec<Vec<i32>>)
    ensures
        vectors_view(r@) == index_vectors_from(dims@, 0),
{
    let mut values: Vec<Vec<i32>> = Vec::new();
    let mut current: Vec<i32> = Vec::new();
    visit_index_vectors(dims, 0, &mut current, &mut values);
    proof {
        let vs = index_vectors_from(dims@, 0);
        assert(vectors_view(values@) =~= vectors_view(Seq::empty()) + prefixed(seq![], vs));
        assert forall|i: int| 0 <= i < vs.len() implies #[trigger] prefixed(seq![], vs)[i] == vs[i] by {
            assert(Seq::<i32>::empty() + vs[i] =~= vs[i]);
        }
        assert(prefixed(seq![], vs) =~= vs);
        assert(vectors_view(values@) =~= vs);
    }
    values
}

/// The number of index combinations of `dims[d..]`.
pub open spec fn range_product(dims: Seq<(i32, i32)>, d: int) -> nat
    decreases dims.len() - d,
{
    if d < 0 || d >= dims.len() {
        1
    } else {
        index_range(dims[d].0, dims[d].1).len() * range_product(dims, d + 1)
    }
}

/// The enumeration of index vectors holds as many vectors as there are
/// index combinations: the product of the lengths of the ranges.
pub proof fn lemma_index_vector_count(dims: Seq<(i32, i32)>, d: int)
    ensures
        index_vectors_from(dims, d).len() == range_product(dims, d),
    decreases dims.len() - d, 1int, 0int,
{
    if 0 <= d < dims.len() {
        lemma_vectors_with_first_count(dims, d, 0);
    }
}

proof fn lemma_vectors_with_first_count(dims: Seq<(i32, i32)>, d: int, k: int)
    requires
        0 <= d < dims.len(),
        0 <= k <= index_range(dims[d].0, dims[d].1).len(),
    ensures
        vectors_with_first(dims, d, k).len()
            == (index_range(dims[d].0, dims[d].1).len() - k) * range_product(dims, d + 1),
    decreases dims.len() - d, 0int, index_range(dims[d].0, dims[d].1).len() - k,
{
    let n = index_range(dims[d].0, dims[d].1).len() as int;
    if k < n {
        lemma_index_vector_count(dims, d + 1);
        lemma_vectors_with_first_count(dims, d, k + 1);
        let p = range_product(dims, d + 1) as int;
        let rg = index_range(dims[d].0, dims[d].1);
        let inner = index_vectors_from(dims, d + 1);
        assert(inner.map_values(|t: Seq<i32>| seq![rg[k]] + t).len() == p);
        assert((n - k) * p == p + (n - (k + 1)) * p) by (nonlinear_arith);
    } else {
        assert(vectors_with_first(dims, d, k).len() == 0);
        assert(n - k == 0);
        assert(0 * range_product(dims, d + 1) == 0) by (nonlinear_arith);
    }
}

/// Whether `c` is, by its ASCII code, one of the conversion letters
/// `d h x o b f e g s` in either case.
pub open spec fn conversion_letter(c: u8) -> bool {
    c == 100 || c == 68 || c == 104 || c == 72 || c == 120 || c == 88 || c == 111 || c == 79 || c == 98 || c == 66
        || c == 102 || c == 70 || c == 101 || c == 69 || c == 103 || c == 71 || c == 115 || c == 83
}

/// The supported conversions are exactly `%d %h %x %o %b %f %e %g %s`, in
/// either case.
pub proof fn law_plusarg_conversions(c: u8)
    ensures
        plusarg_conversion(c) <==> conversion_letter(c),
{
}

proof fn lemma_scan_plain(b: Seq<u8>, i: int, j: int, conversion: bool)
    requires
        0 <= i <= j <= b.len(),
        forall|k: int| i <= k < j ==> b[k] != PERCENT,
    ensures
        plusarg_scan(b, i, conversion) == plusarg_scan(b, j, conversion),
    decreases j - i,
{
    if i < j {
        lemma_scan_plain(b, i + 1, j, conversion);
    }
}

/// A format made of literal text (no `%`, no NUL) around one conversion
/// `%c` or `%0c` is accepted when `c` is one of the supported letters and
/// refused as an unsupported conversion of `c` otherwise.
pub proof fn law_one_conversion(pre: Seq<u8>, zero: bool, c: u8, suf: Seq<u8>)
    requires
        forall|k: int| 0 <= k < pre.len() ==> pre[k] != PERCENT && pre[k] != 0u8,
        forall|k: int| 0 <= k < suf.len() ==> suf[k] != PERCENT && suf[k] != 0u8,
        c != PERCENT && c != ZERO_DIGIT && c != 0u8,
    ensures
        ({
            let conv = if zero { seq![PERCENT, ZERO_DIGIT, c] } else { seq![PERCENT, c] };
            let b = pre + conv + suf;
            &&& conversion_letter(c) ==> plusarg_format_check(b) is Ok
            &&& !conversion_letter(c) ==> plusarg_format_check(b) == Err::<(), PlusargFormatError>(
                PlusargFormatError::Unsupported(c))
        }),
{
    let conv = if zero { seq![PERCENT, ZERO_DIGIT, c] } else { seq![PERCENT, c] };
    let b = pre + conv + suf;
    let i = pre.len() as int;
    let at = i + conv.len();
    assert forall|k: int| 0 <= k < i implies b[k] != PERCENT by {
        assert(b[k] == pre[k]);
    }
    assert(!b.contains(0u8)) by {
        if b.contains(0u8) {
            let k = choose|k: int| 0 <= k < b.len() && b[k] == 0u8;
            if k < i {
                assert(b[k] == pre[k]);
            } else if k >= at {
                assert(b[k] == suf[k - at]);
            } else {
                assert(b[k] == conv[k - i]);
            }
        }
    }
    lemma_scan_plain(b, 0, i, false);
    assert(b[i] == PERCENT);
    if zero {
        assert(b[i + 1] == ZERO_DIGIT);
        assert(b[i + 2] == c);
    } else {
        assert(b[i + 1] == c);
    }
    law_plusarg_conversions(c);
    assert forall|k: int| at <= k < b.len() implies b[k] != PERCENT by {
        assert(b[k] == suf[k - at]);
    }
    lemma_scan_plain(b, at, b.len() as int, true);
}

/// A format holding a NUL byte is refused as such, whatever else it holds.
pub proof fn law_nul_refused(b: Seq<u8>)
    requires
        b.contains(0u8),
    ensures
        plusarg_format_check(b) == Err::<(), PlusargFormatError>(PlusargFormatError::Nul),
{
}

/// Literal text alone (no `%`, no NUL) is refused for lacking a conversion.
pub proof fn law_no_conversion_refused(b: Seq<u8>)
    requires
        forall|k: int| 0 <= k < b.len() ==> b[k] != PERCENT && b[k] != 0u8,
    ensures
        plusarg_format_check(b) == Err::<(), PlusargFormatError>(PlusargFormatError::NoConversion),
{
    lemma_scan_plain(b, 0, b.len() as int, false);
}

/// Two supported conversions separated by literal text are refused as a
/// second conversion.
pub proof fn law_two_conversions_refused(pre: Seq<u8>, c1: u8, mid: Seq<u8>, c2: u8, suf: Seq<u8>)
    requires
        forall|k: int| 0 <= k < pre.len() ==> pre[k] != PERCENT && pre[k] != 0u8,
        forall|k: int| 0 <= k < mid.len() ==> mid[k] != PERCENT && mid[k] != 0u8,
        forall|k: int| 0 <= k < suf.len() ==> suf[k] != PERCENT && suf[k] != 0u8,
        conversion_letter(c1),
        conversion_letter(c2),
    ensures
        plusarg_format_check(pre + seq![PERCENT, c1] + mid + seq![PERCENT, c2] + suf)
            == Err::<(), PlusargFormatError>(PlusargFormatError::SecondConversion),
{
    let b = pre + seq![PERCENT, c1] + mid + seq![PERCENT, c2] + suf;
    let i = pre.len() as int;
    let j = i + 2 + mid.len();
    assert(!b.contains(0u8)) by {
        if b.contains(0u8) {
            let k = choose|k: int| 0 <= k < b.len() && b[k] == 0u8;
            if k < i {
                assert(b[k] == pre[k]);
            } else if k < i + 2 {
            } else if k < j {
                assert(b[k] == mid[k - i - 2]);
            } else if k < j + 2 {
            } else {
                assert(b[k] == suf[k - j - 2]);
            }
        }
    }
    assert forall|k: int| 0 <= k < i implies b[k] != PERCENT by {
        assert(b[k] == pre[k]);
    }
    lemma_scan_plain(b, 0, i, false);
    assert(b[i] == PERCENT && b[i + 1] == c1);
    law_plusarg_conversions(c1);
    assert forall|k: int| i + 2 <= k < j implies b[k] != PERCENT by {
        assert(b[k] == mid[k - i - 2]);
    }
    lemma_scan_plain(b, i + 2, j, true);
    assert(b[j] == PERCENT && b[j + 1] == c2);
}

} // verus!
