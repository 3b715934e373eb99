//! Assignment patterns that initialize fixed unpacked arrays: which pattern
//! item each offset of a dimension takes, given positionally or by index key
//! with an optional `default`.

use vstd::prelude::*;
use vstd::string::StringExecFns;
use crate::codegen::Codegen;
use crate::design::{NodeKind, ExprKind, ArrayInfo};
use crate::fixed_arrays::dim_count;
use crate::patterns::{parse_pattern_i128, pattern_i128_spec, pattern_key_splittable};
use crate::text::{decimal, decimal_string, int_decimal, int_string, owned, str_is};

verus! {

/// The keyed items of one pattern level read so far: `(offset, item)` pairs,
/// at most one per offset, and the `default` item.
pub struct KeyedItems {
    pub explicit: Seq<(usize, usize)>,
    pub default: Option<usize>,
}

/// The item given explicitly for `offset`.
pub open spec fn explicit_item(explicit: Seq<(usize, usize)>, offset: int) -> Option<usize>
    decreases explicit.len(),
{
    if explicit.len() == 0 {
        None
    } else if explicit.last().0 == offset {
        Some(explicit.last().1)
    } else {
        explicit_item(explicit.drop_last(), offset)
    }
}

/// The item for `offset`: the explicit one, else the default.
pub open spec fn offset_item(items: KeyedItems, offset: int) -> Option<usize> {
    match explicit_item(items.explicit, offset) {
        Some(v) => Some(v),
        None => items.default,
    }
}

/// `` in `path` ``.
pub open spec fn in_path(path: Seq<char>) -> Seq<char> {
    " in `"@ + path + "`"@
}

/// The items of offsets `0 .. o`, or the message for the first offset that
/// no item covers.
pub open spec fn cover_upto(items: KeyedItems, path: Seq<char>, o: int) -> Result<Seq<usize>, Seq<char>>
    decreases o,
{
    if o <= 0 {
        Ok(Seq::empty())
    } else {
        match cover_upto(items, path, o - 1) {
            Err(e) => Err(e),
            Ok(s) => match offset_item(items, o - 1) {
                Some(v) => Ok(s.push(v)),
                None => Err("fixed unpacked-array pattern does not cover offset "@ + decimal((o - 1) as nat)
                    + in_path(path)),
            },
        }
    }
}

/// Operands in source order.
pub open spec fn source_order(operands: Seq<usize>, reordered: bool) -> Seq<usize> {
    if reordered { operands.reverse() } else { operands }
}

impl Codegen {
    pub open spec fn is_tagged(&self, n: usize) -> bool {
        self.kind(n as int) is Expr && self.kind(n as int)->Expr_0 is TaggedPattern
    }

    /// The keyed items after reading `item` of a level `[bounds]` with
    /// `count` offsets, or why the item is refused.
    pub open spec fn keyed_step(&self, path: Seq<char>, bounds: (i32, i32), count: int, st: KeyedItems, item: usize)
        -> Result<KeyedItems, Seq<char>>
    {
        match self.kind(item as int) {
            NodeKind::Expr(ExprKind::TaggedPattern { key, value }) => match key {
                None => Err("fixed unpacked-array pattern key is unavailable"@ + in_path(path)),
                Some(k) => match value {
                    None => Err("fixed unpacked-array pattern key `"@ + k@ + "` has no value"@ + in_path(path)),
                    Some(v) => if k@ == "default"@ {
                        if st.default is Some {
                            Err("duplicate default key in fixed unpacked-array pattern"@ + in_path(path))
                        } else {
                            Ok(KeyedItems { default: Some(v), ..st })
                        }
                    } else {
                        match pattern_i128_spec(k@) {
                            None => Err("fixed unpacked-array pattern key `"@ + k@ + "` is not a constant index"@
                                + in_path(path)),
                            Some(index) => if !(i32::MIN <= index <= i32::MAX) {
                                Err("fixed unpacked-array pattern index `"@ + k@ + "` is out of range"@ + in_path(path))
                            } else {
                                let d = if bounds.0 >= bounds.1 { bounds.0 - index } else { index - bounds.0 };
                                if d < 0 || d > i32::MAX {
                                    Err("fixed unpacked-array pattern index `"@ + k@ + "` is outside ["@
                                        + int_decimal(bounds.0 as int) + ":"@ + int_decimal(bounds.1 as int) + "]"@
                                        + in_path(path))
                                } else if d >= count || explicit_item(st.explicit, d) is Some {
                                    Err("duplicate fixed unpacked-array pattern index `"@ + k@ + "`"@ + in_path(path))
                                } else {
                                    Ok(KeyedItems { explicit: st.explicit.push((d as usize, v)), ..st })
                                }
                            },
                        }
                    },
                },
            },
            _ => Ok(st),
        }
    }

    /// The keyed items of the first `k` items.
    pub open spec fn keyed_upto(&self, path: Seq<char>, bounds: (i32, i32), count: int, items: Seq<usize>, k: int)
        -> Result<KeyedItems, Seq<char>>
        decreases k,
    {
        if k <= 0 {
            Ok(KeyedItems { explicit: Seq::empty(), default: None })
        } else {
            match self.keyed_upto(path, bounds, count, items, k - 1) {
                Err(e) => Err(e),
                Ok(st) => self.keyed_step(path, bounds, count, st, items[k - 1]),
            }
        }
    }

    /// The item each offset of dimension `[bounds]` takes from the pattern
    /// `node`, in offset order: positional items in source order, or keyed
    /// items by index with `default` for the rest.
    pub open spec fn pattern_level_spec(&self, path: Seq<char>, node: int, bounds: (i32, i32)) -> Result<Seq<usize>, Seq<char>> {
        match self.kind(node) {
            NodeKind::Expr(ExprKind::AssignmentPattern { operands, reordered }) => {
                let count = dim_count(bounds);
                let items = source_order(operands@, reordered);
                if count > usize::MAX {
                    Err("fixed unpacked-array pattern is too large"@ + in_path(path))
                } else if forall|k: int| 0 <= k < items.len() ==> !#[trigger] self.is_tagged(items[k]) {
                    if items.len() != count {
                        Err("fixed unpacked-array assignment pattern"@ + in_path(path) + " has "@
                            + decimal(items.len()) + " positional values; expected "@ + decimal(count as nat))
                    } else {
                        Ok(items)
                    }
                } else if exists|k: int| 0 <= k < items.len() && !#[trigger] self.is_tagged(items[k]) {
                    Err("mixed positional and keyed fixed unpacked-array assignment pattern"@ + in_path(path)
                        + " is not supported"@)
                } else {
                    match self.keyed_upto(path, bounds, count, items, items.len() as int) {
                        Err(e) => Err(e),
                        Ok(keyed) => cover_upto(keyed, path, count),
                    }
                }
            },
            _ => Err("fixed unpacked-array assignment pattern"@ + in_path(path) + " is not an assignment pattern"@),
        }
    }

    /// Every index key among the items of pattern `node` can be split into
    /// its width and base.
    pub open spec fn pattern_keys_splittable(&self, node: int) -> bool {
        match self.kind(node) {
            NodeKind::Expr(ExprKind::AssignmentPattern { operands, .. }) =>
                forall|k: int| 0 <= k < operands.len() ==>
                    (#[trigger] self.kind(operands@[k] as int) matches NodeKind::Expr(ExprKind::TaggedPattern { key: Some(t), .. })
                        ==> pattern_key_splittable(t@)),
            _ => true,
        }
    }
}

fn path_suffix(m: &mut String, path: &str)
    ensures
        final(m)@ == old(m)@ + in_path(path@),
{
    m.append(" in `");
    m.append(path);
    m.append("`");
}

fn find_explicit(explicit: &Vec<(usize, usize)>, offset: usize) -> (r: Option<usize>)
    ensures
        r == explicit_item(explicit@, offset as int),
{
    let mut k = explicit.len();
    assert(explicit@.take(k as int) =~= explicit@);
    while k > 0
        invariant
            k <= explicit.len(),
            explicit_item(explicit@, offset as int) == explicit_item(explicit@.take(k as int), offset as int),
        decreases k,
    {
        assert(explicit@.take(k as int).drop_last() =~= explicit@.take(k - 1));
        if explicit[k - 1].0 == offset {
            return Some(explicit[k - 1].1);
        }
        k = k - 1;
    }
    None
}

impl Codegen {
    proof fn lemma_cover_err(&self, items: KeyedItems, path: Seq<char>, o: int, n: int)
        requires
            0 <= o <= n,
            cover_upto(items, path, o) is Err,
        ensures
            cover_upto(items, path, n) == cover_upto(items, path, o),
        decreases n - o,
    {
        if o < n {
            self.lemma_cover_err(items, path, o, n - 1);
        }
    }

    proof fn lemma_keyed_err(&self, path: Seq<char>, bounds: (i32, i32), count: int, items: Seq<usize>, k: int, n: int)
        requires
            0 <= k <= n,
            self.keyed_upto(path, bounds, count, items, k) is Err,
        ensures
            self.keyed_upto(path, bounds, count, items, n) == self.keyed_upto(path, bounds, count, items, k),
        decreases n - k,
    {
        if k < n {
            self.lemma_keyed_err(path, bounds, count, items, k, n - 1);
        }
    }
}

impl Codegen {
    /// The items of `node` in source order.
    fn source_items(operands: &Vec<usize>, reordered: bool) -> (r: Vec<usize>)
        ensures
            r@ == source_order(operands@, reordered),
    {
        let mut r: Vec<usize> = Vec::new();
        if !reordered {
            let mut i: usize = 0;
            while i < operands.len()
                invariant
                    i <= operands.len(),
                    r@ == operands@.take(i as int),
                decreases operands.len() - i,
            {
                r.push(operands[i]);
                assert(r@ =~= operands@.take(i + 1));
                i = i + 1;
            }
            assert(operands@.take(operands.len() as int) =~= operands@);
        } else {
            let mut i: usize = operands.len();
            while i > 0
                invariant
                    i <= operands.len(),
                    r.len() == operands.len() - i,
                    forall|j: int| 0 <= j < r.len() ==> #[trigger] r@[j] == operands@[operands.len() - 1 - j],
                decreases i,
            {
                r.push(operands[i - 1]);
                i = i - 1;
            }
            assert(r@ =~= operands@.reverse());
        }
        r
    }

    fn tagged(&self, n: usize) -> (r: bool)
        requires
            n < self.nodes.len(),
        ensures
            r == self.is_tagged(n),
    {
        match &self.nodes[n].kind {
            NodeKind::Expr(ExprKind::TaggedPattern { .. }) => true,
            _ => false,
        }
    }

    /// Read keyed item `item` into `explicit` and `default`.
    fn read_keyed_item(&self, path: &str, bounds: (i32, i32), count: usize, item: usize,
        explicit: &mut Vec<(usize, usize)>, default: &mut Option<usize>) -> (r: Result<(), String>)
        requires
            self.wf(),
            item < self.nodes.len(),
            self.kind(item as int) matches NodeKind::Expr(ExprKind::TaggedPattern { key: Some(t), .. })
                ==> pattern_key_splittable(t@),
        ensures
            self.keyed_step(path@, bounds, count as int, KeyedItems { explicit: old(explicit)@, default: *old(default) }, item)
                == (match r {
                    Ok(_) => Ok(KeyedItems { explicit: final(explicit)@, default: *final(default) }),
                    Err(e) => Err(e@),
                }),
    {
        let (key, value) = match &self.nodes[item].kind {
            NodeKind::Expr(ExprKind::TaggedPattern { key, value }) => (key, value),
            _ => return Ok(()),
        };
        let key = match key {
            Some(k) => k,
            None => {
                let mut m = owned("fixed unpacked-array pattern key is unavailable");
                path_suffix(&mut m, path);
                return Err(m);
            },
        };
        let v = match value {
            Some(v) => *v,
            None => {
                let mut m = owned("fixed unpacked-array pattern key `");
                m.append(key.as_str());
                m.append("` has no value");
                path_suffix(&mut m, path);
                return Err(m);
            },
        };
        if str_is(key.as_str(), "default") {
            if default.is_some() {
                let mut m = owned("duplicate default key in fixed unpacked-array pattern");
                path_suffix(&mut m, path);
                return Err(m);
            }
            *default = Some(v);
            return Ok(());
        }
        let index = match parse_pattern_i128(key.as_str()) {
            Some(i) => i,
            None => {
                let mut m = owned("fixed unpacked-array pattern key `");
                m.append(key.as_str());
                m.append("` is not a constant index");
                path_suffix(&mut m, path);
                return Err(m);
            },
        };
        if index < i32::MIN as i128 || index > i32::MAX as i128 {
            let mut m = owned("fixed unpacked-array pattern index `");
            m.append(key.as_str());
            m.append("` is out of range");
            path_suffix(&mut m, path);
            return Err(m);
        }
        let (left, right) = bounds;
        let d: i128 = if left >= right { left as i128 - index } else { index - left as i128 };
        if d < 0 || d > i32::MAX as i128 {
            let mut m = owned("fixed unpacked-array pattern index `");
            m.append(key.as_str());
            m.append("` is outside [");
            m.append(int_string(left as i128).as_str());
            m.append(":");
            m.append(int_string(right as i128).as_str());
            m.append("]");
            path_suffix(&mut m, path);
            return Err(m);
        }
        let offset = d as usize;
        if offset >= count || find_explicit(explicit, offset).is_some() {
            let mut m = owned("duplicate fixed unpacked-array pattern index `");
            m.append(key.as_str());
            m.append("`");
            path_suffix(&mut m, path);
            return Err(m);
        }
        explicit.push((offset, v));
        Ok(())
    }

    /// The item each offset of dimension `[bounds]` takes from the
    /// assignment pattern `node`, in offset order. Positional items must
    /// cover the dimension exactly; keyed items name offsets by index
    /// (`default` fills the rest), each offset at most once; the two kinds
    /// cannot be mixed.
    pub fn p30_pattern_level(&self, path: &str, node: usize, bounds: (i32, i32)) -> (r: Result<Vec<usize>, String>)
        requires
            self.wf(),
            node < self.nodes.len(),
            self.pattern_keys_splittable(node as int),
        ensures
            self.pattern_level_spec(path@, node as int, bounds) == (match r {
                Ok(items) => Ok(items@),
                Err(e) => Err(e@),
            }),
            r matches Ok(items) ==> forall|k: int| 0 <= k < items.len() ==> node < #[trigger] items@[k] < self.nodes.len(),
            r matches Ok(items) ==> items.len() == dim_count(bounds),
    {
        proof {
            self.lemma_node(node as int);
            self.lemma_level_len(path@, node as int, bounds);
        }
        let (operands, reordered) = match &self.nodes[node].kind {
            NodeKind::Expr(ExprKind::AssignmentPattern { operands, reordered }) => (operands, *reordered),
            _ => {
                let mut m = owned("fixed unpacked-array assignment pattern");
                path_suffix(&mut m, path);
                m.append(" is not an assignment pattern");
                return Err(m);
            },
        };
        let (left, right) = bounds;
        let diff: u64 = if left >= right { (left as i64 - right as i64) as u64 } else { (right as i64 - left as i64) as u64 };
        let count64: u64 = diff + 1;
        assert(count64 as int == dim_count(bounds));
        if count64 > usize::MAX as u64 {
            let mut m = owned("fixed unpacked-array pattern is too large");
            path_suffix(&mut m, path);
            return Err(m);
        }
        let count = count64 as usize;
        let items = Self::source_items(operands, reordered);
        let ghost is = items@;
        assert(forall|k: int| 0 <= k < is.len() ==> node < #[trigger] is[k] < self.nodes.len()) by {
            assert forall|k: int| 0 <= k < is.len() implies node < #[trigger] is[k] < self.nodes.len() by {
                if reordered {
                    assert(is[k] == operands@[operands.len() - 1 - k]);
                } else {
                    assert(is[k] == operands@[k]);
                }
            }
        }
        let mut any_tagged = false;
        let mut i: usize = 0;
        while i < items.len()
            invariant
                self.wf(),
                i <= items.len(),
                items@ == is,
                forall|k: int| 0 <= k < is.len() ==> node < #[trigger] is[k] < self.nodes.len(),
                any_tagged <==> exists|k: int| 0 <= k < i && #[trigger] self.is_tagged(is[k]),
            decreases items.len() - i,
        {
            if self.tagged(items[i]) {
                any_tagged = true;
            }
            i = i + 1;
        }
        if !any_tagged {
            if items.len() != count {
                let mut m = owned("fixed unpacked-array assignment pattern");
                path_suffix(&mut m, path);
                m.append(" has ");
                m.append(decimal_string(items.len() as u128).as_str());
                m.append(" positional values; expected ");
                m.append(decimal_string(count as u128).as_str());
                return Err(m);
            }
            return Ok(items);
        }
        let mut j: usize = 0;
        while j < items.len()
            invariant
                self.wf(),
                j <= items.len(),
                items@ == is,
                forall|k: int| 0 <= k < is.len() ==> node < #[trigger] is[k] < self.nodes.len(),
                forall|k: int| 0 <= k < j ==> #[trigger] self.is_tagged(is[k]),
                count as int == dim_count(bounds),
                self.nodes@[node as int].kind matches NodeKind::Expr(ExprKind::AssignmentPattern { operands: ops, reordered: ro })
                    && ops == *operands && ro == reordered,
                is == source_order(operands@, reordered),
                exists|q: int| 0 <= q < is.len() && #[trigger] self.is_tagged(is[q]),
            decreases items.len() - j,
        {
            if !self.tagged(items[j]) {
                assert(!self.is_tagged(is[j as int]));
                let mut m = owned("mixed positional and keyed fixed unpacked-array assignment pattern");
                path_suffix(&mut m, path);
                m.append(" is not supported");
                return Err(m);
            }
            j = j + 1;
        }
        let mut explicit: Vec<(usize, usize)> = Vec::new();
        let mut default: Option<usize> = None;
        let mut k: usize = 0;
        while k < items.len()
            invariant
                self.wf(),
                k <= items.len(),
                items@ == is,
                forall|q: int| 0 <= q < is.len() ==> node < #[trigger] is[q] < self.nodes.len(),
                self.pattern_keys_splittable(node as int),
                forall|q: int| 0 <= q < is.len() ==> #[trigger] self.is_tagged(is[q]),
                count as int == dim_count(bounds),
                self.nodes@[node as int].kind matches NodeKind::Expr(ExprKind::AssignmentPattern { operands: ops, reordered: ro })
                    && ops == *operands && ro == reordered,
                is == source_order(operands@, reordered),
                exists|q: int| 0 <= q < is.len() && #[trigger] self.is_tagged(is[q]),

                self.keyed_upto(path@, bounds, count as int, is, k as int)
                    == Ok::<KeyedItems, Seq<char>>(KeyedItems { explicit: explicit@, default }),
                forall|q: int| 0 <= q < explicit.len() ==> #[trigger] explicit@[q].1 < self.nodes.len()
                    && node < explicit@[q].1,
                default matches Some(d) ==> node < d < self.nodes.len(),
            decreases items.len() - k,
        {
            let item = items[k];
            proof {
                let o = if reordered { operands.len() - 1 - k } else { k as int };
                assert(is[k as int] == operands@[o]);
                assert(self.kind(operands@[o] as int) matches NodeKind::Expr(ExprKind::TaggedPattern { key: Some(t), .. })
                    ==> pattern_key_splittable(t@));
                self.lemma_node(item as int);
            }
            let ghost before = explicit@;
            match self.read_keyed_item(path, bounds, count, item, &mut explicit, &mut default) {
                Ok(()) => {},
                Err(e) => {
                    proof { self.lemma_keyed_err(path@, bounds, count as int, is, k + 1, is.len() as int); }
                    return Err(e);
                },
            }
            assert forall|q: int| 0 <= q < explicit.len() implies #[trigger] explicit@[q].1 < self.nodes.len()
                && node < explicit@[q].1 by {
                if q < before.len() {
                    assert(explicit@[q] == before[q]);
                }
            }
            k = k + 1;
        }
        let ghost keyed = KeyedItems { explicit: explicit@, default };
        let mut out: Vec<usize> = Vec::new();
        let mut o: usize = 0;
        while o < count
            invariant
                o <= count,
                keyed == (KeyedItems { explicit: explicit@, default }),
                cover_upto(keyed, path@, o as int) == Ok::<Seq<usize>, Seq<char>>(out@),
                forall|q: int| 0 <= q < explicit.len() ==> #[trigger] explicit@[q].1 < self.nodes.len()
                    && node < explicit@[q].1,
                default matches Some(d) ==> node < d < self.nodes.len(),
                forall|q: int| 0 <= q < out.len() ==> node < #[trigger] out@[q] < self.nodes.len(),
                forall|q: int| 0 <= q < is.len() ==> #[trigger] self.is_tagged(is[q]),
                self.keyed_upto(path@, bounds, count as int, is, is.len() as int) == Ok::<KeyedItems, Seq<char>>(keyed),
                count as int == dim_count(bounds),
                self.nodes@[node as int].kind matches NodeKind::Expr(ExprKind::AssignmentPattern { operands: ops, reordered: ro })
                    && ops == *operands && ro == reordered,
                is == source_order(operands@, reordered),
                exists|q: int| 0 <= q < is.len() && #[trigger] self.is_tagged(is[q]),
            decreases count - o,
        {
            let found = match find_explicit(&explicit, o) {
                Some(v) => Some(v),
                None => default,
            };
            match found {
                Some(v) => {
                    proof {
                        lemma_explicit_item_in(explicit@, o as int);
                    }
                    out.push(v);
                },
                None => {
                    let mut m = owned("fixed unpacked-array pattern does not cover offset ");
                    m.append(decimal_string(o as u128).as_str());
                    path_suffix(&mut m, path);
                    proof { self.lemma_cover_err(keyed, path@, o + 1, count as int); }
                    return Err(m);
                },
            }
            o = o + 1;
        }
        Ok(out)
    }
}

/// An explicit item is one of the pairs' items.
proof fn lemma_explicit_item_in(explicit: Seq<(usize, usize)>, offset: int)
    ensures
        explicit_item(explicit, offset) matches Some(v) ==> exists|q: int| 0 <= q < explicit.len() && #[trigger] explicit[q].1 == v,
    decreases explicit.len(),
{
    if explicit.len() > 0 && explicit.last().0 != offset {
        lemma_explicit_item_in(explicit.drop_last(), offset);
        if explicit_item(explicit.drop_last(), offset) is Some {
            let q = choose|q: int| 0 <= q < explicit.drop_last().len() && #[trigger] explicit.drop_last()[q].1
                == explicit_item(explicit.drop_last(), offset)->0;
            assert(explicit[q] == explicit.drop_last()[q]);
        }
    } else if explicit.len() > 0 {
        assert(explicit[explicit.len() - 1] == explicit.last());
    }
}

/// The number of elements of `dims`.
pub open spec fn dims_product(dims: Seq<(i32, i32)>) -> int
    decreases dims.len(),
{
    if dims.len() == 0 {
        1
    } else {
        dims_product(dims.drop_last()) * dim_count(dims.last())
    }
}

/// How many times a non-pattern item repeats to fill `dims` (nonempty): one
/// copy per element, each count computed in machine integers, so `None`
/// when one overflows.
pub open spec fn repeat_total(dims: Seq<(i32, i32)>) -> Option<int> {
    let count = dims_product(dims.drop_first());
    let raw = dim_count(dims[0]) - 1;
    let ext = if raw + 1 > usize::MAX { usize::MAX as int } else { raw + 1 };
    if count > u64::MAX || count > usize::MAX || raw > usize::MAX || count * ext > usize::MAX {
        None
    } else {
        Some(count * ext)
    }
}

impl Codegen {
    /// The leaf items of `node` filling the dimensions `dims`, the first
    /// dimension varying slowest: a pattern gives one item per offset,
    /// each expanded over the remaining dimensions; any other item fills
    /// every element it covers.
    pub open spec fn pattern_values_spec(&self, path: Seq<char>, node: int, dims: Seq<(i32, i32)>)
        -> Result<Seq<usize>, Seq<char>>
        decreases dims.len(), 1int, 0int,
    {
        if dims.len() == 0 {
            Ok(seq![node as usize])
        } else if 0 <= node < self.len() && self.kind(node) is Expr && self.kind(node)->Expr_0 is AssignmentPattern {
            match self.pattern_level_spec(path, node, dims[0]) {
                Err(e) => Err(e),
                Ok(values) => if dims.len() == 1 {
                    Ok(values)
                } else {
                    self.flatten_upto(path, values, dims.drop_first(), values.len() as int)
                },
            }
        } else {
            match repeat_total(dims) {
                None => Err("fixed unpacked-array pattern is too large"@ + in_path(path)),
                Some(t) => Ok(Seq::new(t as nat, |i: int| node as usize)),
            }
        }
    }

    /// The leaf items of the first `k` of `values` over `rest`, concatenated.
    pub open spec fn flatten_upto(&self, path: Seq<char>, values: Seq<usize>, rest: Seq<(i32, i32)>, k: int)
        -> Result<Seq<usize>, Seq<char>>
        decreases rest.len() + 1, 0int, k,
    {
        if k <= 0 {
            Ok(Seq::empty())
        } else {
            match self.flatten_upto(path, values, rest, k - 1) {
                Err(e) => Err(e),
                Ok(s) => match self.pattern_values_spec(path, values[k - 1] as int, rest) {
                    Ok(t) => Ok(s + t),
                    Err(e) => Err(e),
                },
            }
        }
    }

    /// Every pattern from `node` on has splittable index keys.
    pub open spec fn keys_splittable_from(&self, node: int) -> bool {
        forall|i: int| node <= i < self.len() ==> #[trigger] self.pattern_keys_splittable(i)
    }

    proof fn lemma_flatten_err(&self, path: Seq<char>, values: Seq<usize>, rest: Seq<(i32, i32)>, k: int, n: int)
        requires
            0 <= k <= n,
            self.flatten_upto(path, values, rest, k) is Err,
        ensures
            self.flatten_upto(path, values, rest, n) == self.flatten_upto(path, values, rest, k),
        decreases n - k,
    {
        if k < n {
            self.lemma_flatten_err(path, values, rest, k, n - 1);
        }
    }
}

proof fn lemma_product_positive(dims: Seq<(i32, i32)>)
    ensures
        dims_product(dims) >= 1,
    decreases dims.len(),
{
    if dims.len() > 0 {
        lemma_product_positive(dims.drop_last());
        let p = dims_product(dims.drop_last());
        let c = dim_count(dims.last());
        assert(p * c >= 1) by (nonlinear_arith)
            requires p >= 1, c >= 1;
    }
}

/// A longer prefix has at least as many elements.
proof fn lemma_product_prefix(dims: Seq<(i32, i32)>, i: int)
    requires
        0 <= i <= dims.len(),
    ensures
        dims_product(dims.take(i)) <= dims_product(dims),
    decreases dims.len() - i,
{
    if i < dims.len() {
        lemma_product_prefix(dims, i + 1);
        assert(dims.take(i + 1).drop_last() =~= dims.take(i));
        lemma_product_positive(dims.take(i));
        let p = dims_product(dims.take(i));
        let c = dim_count(dims[i]);
        assert(p <= p * c) by (nonlinear_arith)
            requires p >= 1, c >= 1;
    } else {
        assert(dims.take(i) =~= dims);
    }
}

impl Codegen {
    fn repeat_node(node: usize, total: usize) -> (r: Vec<usize>)
        ensures
            r@ == Seq::new(total as nat, |i: int| node),
    {
        let mut r: Vec<usize> = Vec::new();
        let mut i: usize = 0;
        while i < total
            invariant
                i <= total,
                r@ == Seq::new(i as nat, |q: int| node),
            decreases total - i,
        {
            r.push(node);
            i = i + 1;
            assert(r@ =~= Seq::new(i as nat, |q: int| node));
        }
        r
    }

    fn repeat_values(path: &str, node: usize, dims: &[(i32, i32)], d: usize) -> (r: Result<Vec<usize>, String>)
        requires
            d < dims.len(),
        ensures
            (match repeat_total(dims@.skip(d as int)) {
                None => Err("fixed unpacked-array pattern is too large"@ + in_path(path@)),
                Some(t) => Ok(Seq::new(t as nat, |i: int| node)),
            }) == (match r {
                Ok(v) => Ok(v@),
                Err(e) => Err(e@),
            }),
    {
        let ghost ds = dims@.skip(d as int);
        let ghost rest = ds.drop_first();
        let mut acc: u64 = 1;
        let mut i: usize = d + 1;
        assert(rest.take(0) =~= Seq::<(i32, i32)>::empty());
        while i < dims.len()
            invariant
                d < i <= dims.len(),
                ds == dims@.skip(d as int),
                rest == ds.drop_first(),
                rest.len() == dims.len() - d - 1,
                acc as int == dims_product(rest.take(i - d - 1)),
            decreases dims.len() - i,
        {
            let (l, rt) = dims[i];
            let ext: u64 = if l >= rt { (l as i64 - rt as i64) as u64 + 1 } else { (rt as i64 - l as i64) as u64 + 1 };
            assert(rest[i - d - 1] == dims@[i as int]);
            assert(rest.take(i - d).drop_last() =~= rest.take(i - d - 1));
            assert(ext as int == dim_count(rest[i - d - 1]));
            match acc.checked_mul(ext) {
                Some(v) => acc = v,
                None => {
                    proof { lemma_product_prefix(rest, i - d); }
                    let mut m = owned("fixed unpacked-array pattern is too large");
                    path_suffix(&mut m, path);
                    return Err(m);
                },
            }
            i = i + 1;
        }
        assert(rest.take(rest.len() as int) =~= rest);
        if acc > usize::MAX as u64 {
            let mut m = owned("fixed unpacked-array pattern is too large");
            path_suffix(&mut m, path);
            return Err(m);
        }
        let count = acc as usize;
        let (left, right) = dims[d];
        assert(ds[0] == dims@[d as int]);
        let raw: u64 = if left >= right { (left as i64 - right as i64) as u64 } else { (right as i64 - left as i64) as u64 };
        if raw > usize::MAX as u64 {
            let mut m = owned("fixed unpacked-array pattern is too large");
            path_suffix(&mut m, path);
            return Err(m);
        }
        let ext = (raw as usize).saturating_add(1);
        let total = match count.checked_mul(ext) {
            Some(t) => t,
            None => {
                let mut m = owned("fixed unpacked-array pattern is too large");
                path_suffix(&mut m, path);
                return Err(m);
            },
        };
        Ok(Self::repeat_node(node, total))
    }

    fn pattern_values_from(&self, path: &str, node: usize, dims: &[(i32, i32)], d: usize) -> (r: Result<Vec<usize>, String>)
        requires
            self.wf(),
            node < self.nodes.len(),
            d <= dims.len(),
            self.keys_splittable_from(node as int),
        ensures
            self.pattern_values_spec(path@, node as int, dims@.skip(d as int)) == (match r {
                Ok(v) => Ok(v@),
                Err(e) => Err(e@),
            }),
        decreases dims.len() - d,
    {
        let ghost ds = dims@.skip(d as int);
        if d == dims.len() {
            let mut one: Vec<usize> = Vec::new();
            one.push(node);
            assert(one@ =~= seq![node]);
            return Ok(one);
        }
        assert(ds[0] == dims@[d as int]);
        let is_pattern = match &self.nodes[node].kind {
            NodeKind::Expr(ExprKind::AssignmentPattern { .. }) => true,
            _ => false,
        };
        if !is_pattern {
            return Self::repeat_values(path, node, dims, d);
        }
        let values = match self.p30_pattern_level(path, node, dims[d]) {
            Ok(v) => v,
            Err(e) => return Err(e),
        };
        if d + 1 == dims.len() {
            return Ok(values);
        }
        let ghost rest = ds.drop_first();
        assert(rest =~= dims@.skip(d + 1));
        assert(self.pattern_values_spec(path@, node as int, ds) == self.flatten_upto(path@, values@, rest, values.len() as int));
        let mut flattened: Vec<usize> = Vec::new();
        let mut k: usize = 0;
        while k < values.len()
            invariant
                self.wf(),
                d + 1 < dims.len(),
                k <= values.len(),
                rest == dims@.skip(d + 1),
                forall|q: int| 0 <= q < values.len() ==> node < #[trigger] values@[q] < self.nodes.len(),
                self.keys_splittable_from(node as int),
                self.flatten_upto(path@, values@, rest, k as int) == Ok::<Seq<usize>, Seq<char>>(flattened@),
                ds == dims@.skip(d as int),
                self.pattern_values_spec(path@, node as int, ds) == self.flatten_upto(path@, values@, rest, values.len() as int),
            decreases values.len() - k,
        {
            let v = values[k];
            match self.pattern_values_from(path, v, dims, d + 1) {
                Ok(mut part) => {
                    flattened.append(&mut part);
                },
                Err(e) => {
                    proof { self.lemma_flatten_err(path@, values@, rest, k + 1, values.len() as int); }
                    return Err(e);
                },
            }
            k = k + 1;
        }
        Ok(flattened)
    }

    /// The leaf items of `node` filling `dims`, the first dimension varying
    /// slowest: an assignment pattern supplies one item per offset of its
    /// dimension (see `p30_pattern_level`), each expanded over the remaining
    /// dimensions; any other item fills every element it covers.
    pub fn p30_pattern_values(&self, path: &str, node: usize, dims: &[(i32, i32)]) -> (r: Result<Vec<usize>, String>)
        requires
            self.wf(),
            node < self.nodes.len(),
            self.keys_splittable_from(node as int),
        ensures
            self.pattern_values_spec(path@, node as int, dims@) == (match r {
                Ok(v) => Ok(v@),
                Err(e) => Err(e@),
            }),
    {
        assert(dims@.skip(0) =~= dims@);
        self.pattern_values_from(path, node, dims, 0)
    }
}

impl Codegen {
    /// How many leading dimensions the base of a part select consumes.
    pub open spec fn consumed_spec(&self, base: int) -> nat {
        match self.prefix_base_spec(base) {
            Some((_, c)) => c,
            None => 0,
        }
    }

    /// The dimensions a pattern assigned to `node`, a view of `array`, must
    /// fill: a part select's own constant range (`[0:0]` when not constant)
    /// and the dimensions below it; the dimensions an element selection or a
    /// bit select leaves; else all of them.
    pub open spec fn target_pattern_dims_spec(&self, node: int, array: ArrayInfo) -> Seq<(i32, i32)> {
        match self.kind(node) {
            NodeKind::Expr(ExprKind::PartSelect { base, left, right }) => {
                let bounds = match (self.const_value(left as int), self.const_value(right as int)) {
                    (Some(l), Some(r)) => if i32::MIN <= l <= i32::MAX && i32::MIN <= r <= i32::MAX {
                        (l as i32, r as i32)
                    } else {
                        (0i32, 0i32)
                    },
                    _ => (0i32, 0i32),
                };
                seq![bounds] + array.dims@.skip(self.consumed_spec(base as int) as int + 1)
            },
            NodeKind::Expr(ExprKind::ArraySelect { indices, .. }) => if indices.len() < array.dims.len() {
                array.dims@.skip(indices.len() as int)
            } else {
                array.dims@
            },
            NodeKind::Expr(ExprKind::BitSelect { .. }) => if array.dims.len() > 1 {
                array.dims@.skip(1)
            } else {
                array.dims@
            },
            _ => array.dims@,
        }
    }

    fn dims_from(dims: &Vec<(i32, i32)>, start: usize, out: &mut Vec<(i32, i32)>)
        requires
            start <= dims.len(),
        ensures
            final(out)@ == old(out)@ + dims@.skip(start as int),
    {
        let mut i = start;
        while i < dims.len()
            invariant
                start <= i <= dims.len(),
                out@ == old(out)@ + dims@.subrange(start as int, i as int),
            decreases dims.len() - i,
        {
            out.push(dims[i]);
            i = i + 1;
            assert(out@ =~= old(out)@ + dims@.subrange(start as int, i as int));
        }
        assert(dims@.subrange(start as int, dims.len() as int) =~= dims@.skip(start as int));
    }

    /// The dimensions a fixed-array pattern assigned to `node` must fill,
    /// `node` being a view of `array`.
    pub fn p30_target_pattern_dims(&self, node: usize, array: &ArrayInfo) -> (r: Vec<(i32, i32)>)
        requires
            self.wf(),
            node < self.nodes.len(),
            self.kind(node as int) matches NodeKind::Expr(ExprKind::PartSelect { base, .. })
                ==> self.consumed_spec(base as int) + 1 <= array.dims.len(),
        ensures
            r@ == self.target_pattern_dims_spec(node as int, *array),
    {
        proof { self.lemma_node(node as int); }
        let mut out: Vec<(i32, i32)> = Vec::new();
        match &self.nodes[node].kind {
            NodeKind::Expr(ExprKind::PartSelect { base, left, right }) => {
                let bounds: (i32, i32) = match (self.eval_bound_i128(*left), self.eval_bound_i128(*right)) {
                    (Ok(l), Ok(r)) => if i32::MIN as i128 <= l && l <= i32::MAX as i128
                        && i32::MIN as i128 <= r && r <= i32::MAX as i128 {
                        (l as i32, r as i32)
                    } else {
                        (0, 0)
                    },
                    _ => (0, 0),
                };
                let consumed: usize = match self.p30_array_prefix_base(*base) {
                    Some((_, c)) => c,
                    None => 0,
                };
                out.push(bounds);
                Self::dims_from(&array.dims, consumed + 1, &mut out);
            },
            NodeKind::Expr(ExprKind::ArraySelect { indices, .. }) => {
                let start = if indices.len() < array.dims.len() { indices.len() } else { 0 };
                Self::dims_from(&array.dims, start, &mut out);
                assert(array.dims@.skip(0) =~= array.dims@);
            },
            NodeKind::Expr(ExprKind::BitSelect { .. }) => {
                let start = if array.dims.len() > 1 { 1 } else { 0 };
                Self::dims_from(&array.dims, start, &mut out);
                assert(array.dims@.skip(0) =~= array.dims@);
            },
            _ => {
                Self::dims_from(&array.dims, 0, &mut out);
                assert(array.dims@.skip(0) =~= array.dims@);
            },
        }
        out
    }
}

/// The first dimension's extent times the extent of the rest.
proof fn lemma_product_first(dims: Seq<(i32, i32)>)
    requires
        dims.len() > 0,
    ensures
        dims_product(dims) == dim_count(dims[0]) * dims_product(dims.drop_first()),
    decreases dims.len(),
{
    if dims.len() == 1 {
        assert(dims.drop_last() =~= Seq::<(i32, i32)>::empty());
        assert(dims.drop_first() =~= Seq::<(i32, i32)>::empty());
    } else {
        let init = dims.drop_last();
        lemma_product_first(init);
        assert(init.drop_first() =~= dims.drop_first().drop_last());
        assert(dims.drop_first().last() == dims.last());
        assert(init[0] == dims[0]);
        let a = dim_count(dims[0]);
        let p = dims_product(init.drop_first());
        let c = dim_count(dims.last());
        assert((a * p) * c == a * (p * c)) by (nonlinear_arith);
    }
}

/// Covering `o` offsets gives `o` items.
proof fn lemma_cover_len(items: KeyedItems, path: Seq<char>, o: int)
    requires
        o >= 0,
    ensures
        cover_upto(items, path, o) matches Ok(s) ==> s.len() == o,
    decreases o,
{
    if o > 0 {
        lemma_cover_len(items, path, o - 1);
    }
}

impl Codegen {
    /// A pattern level gives one item per offset of its dimension.
    proof fn lemma_level_len(&self, path: Seq<char>, node: int, bounds: (i32, i32))
        ensures
            self.pattern_level_spec(path, node, bounds) matches Ok(v) ==> v.len() == dim_count(bounds),
    {
        if self.kind(node) is Expr && self.kind(node)->Expr_0 is AssignmentPattern {
            lemma_cover_len(self.keyed_upto(path, bounds, dim_count(bounds),
                source_order(self.kind(node)->Expr_0->AssignmentPattern_operands@,
                    self.kind(node)->Expr_0->AssignmentPattern_reordered),
                self.kind(node)->Expr_0->AssignmentPattern_operands.len() as int)->Ok_0, path, dim_count(bounds));
        }
    }

    proof fn lemma_values_len(&self, path: Seq<char>, node: int, dims: Seq<(i32, i32)>)
        requires
            forall|i: int| 0 <= i < dims.len() ==> #[trigger] dim_count(dims[i]) <= usize::MAX,
        ensures
            self.pattern_values_spec(path, node, dims) matches Ok(v) ==> v.len() == dims_product(dims),
        decreases dims.len(), 1int, 0int,
    {
        if dims.len() > 0 {
            lemma_product_first(dims);
            let rest = dims.drop_first();
            assert forall|i: int| 0 <= i < rest.len() implies #[trigger] dim_count(rest[i]) <= usize::MAX by {
                assert(rest[i] == dims[i + 1]);
            }
            if 0 <= node < self.len() && self.kind(node) is Expr && self.kind(node)->Expr_0 is AssignmentPattern {
                self.lemma_level_len(path, node, dims[0]);
                match self.pattern_level_spec(path, node, dims[0]) {
                    Ok(values) => if dims.len() == 1 {
                        assert(rest =~= Seq::<(i32, i32)>::empty());
                        assert(dims_product(rest) == 1);
                        let c = dim_count(dims[0]);
                        assert(c * 1 == c) by (nonlinear_arith);
                    } else {
                        self.lemma_flatten_len(path, values, rest, values.len() as int);
                        let a = values.len() as int;
                        let p = dims_product(rest);
                        assert(a * p == dim_count(dims[0]) * p);
                    },
                    Err(_) => {},
                }
            } else {
                lemma_product_positive(rest);
                let count = dims_product(rest);
                let ext = dim_count(dims[0]);
                assert(count * ext == ext * count) by (nonlinear_arith);
                assert(dim_count(dims[0]) <= usize::MAX);
                match repeat_total(dims) {
                    Some(t) => {
                        assert(t == count * ext);
                        assert(self.pattern_values_spec(path, node, dims)
                            == Ok::<Seq<usize>, Seq<char>>(Seq::new(t as nat, |i: int| node as usize)));
                    },
                    None => {},
                }
            }
        }
    }

    proof fn lemma_flatten_len(&self, path: Seq<char>, values: Seq<usize>, rest: Seq<(i32, i32)>, k: int)
        requires
            forall|i: int| 0 <= i < rest.len() ==> #[trigger] dim_count(rest[i]) <= usize::MAX,
            0 <= k <= values.len(),
        ensures
            self.flatten_upto(path, values, rest, k) matches Ok(s) ==> s.len() == k * dims_product(rest),
        decreases rest.len() + 1, 0int, k,
    {
        if k > 0 {
            self.lemma_flatten_len(path, values, rest, k - 1);
            self.lemma_values_len(path, values[k - 1] as int, rest);
            let p = dims_product(rest);
            assert((k - 1) * p + p == k * p) by (nonlinear_arith);
            match self.flatten_upto(path, values, rest, k - 1) {
                Ok(s) => match self.pattern_values_spec(path, values[k - 1] as int, rest) {
                    Ok(t) => {
                        assert(s.len() == (k - 1) * p);
                        assert(t.len() == p);
                        assert((s + t).len() == s.len() + t.len());
                        assert(self.flatten_upto(path, values, rest, k) == Ok::<Seq<usize>, Seq<char>>(s + t));
                    },
                    Err(_) => {},
                },
                Err(_) => {},
            }
        } else {
            let p = dims_product(rest);
            assert(0 * p == 0) by (nonlinear_arith);
        }
    }

    /// A successful expansion of a pattern over dimensions whose extents fit
    /// the machine's `usize` gives exactly one leaf item per array element:
    /// as many items as the product of the extents.
    pub proof fn law_pattern_fills_every_element(&self, path: Seq<char>, node: int, dims: Seq<(i32, i32)>)
        requires
            forall|i: int| 0 <= i < dims.len() ==> #[trigger] dim_count(dims[i]) <= usize::MAX,
        ensures
            self.pattern_values_spec(path, node, dims) matches Ok(v) ==> v.len() == dims_product(dims),
    {
        self.lemma_values_len(path, node, dims);
    }
}

} // verus!
