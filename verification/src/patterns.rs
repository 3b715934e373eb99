//! Keys of assignment patterns: the integer spelled by an associative-array
//! pattern key, and the constant that indexes a container with it.

use vstd::prelude::*;
use vstd::string::StrSliceExecFns;
use crate::ir::{IrExpr, IrExprKind, p2, wrap, lemma_p2_pos, lemma_p2_add, lemma_p2_128, pow2_u128};
use crate::text::{is_white, white};

verus! {

pub open spec fn trim_start(s: Seq<char>) -> Seq<char>
    decreases s.len(),
{
    if s.len() > 0 && is_white(s[0]) {
        trim_start(s.drop_first())
    } else {
        s
    }
}

pub open spec fn trim_end(s: Seq<char>) -> Seq<char>
    decreases s.len(),
{
    if s.len() > 0 && is_white(s.last()) {
        trim_end(s.drop_last())
    } else {
        s
    }
}

/// `s` without leading and trailing white space.
pub open spec fn trim(s: Seq<char>) -> Seq<char> {
    trim_end(trim_start(s))
}

/// `s` without one enclosing pair of square brackets.
pub open spec fn unbracket(s: Seq<char>) -> Seq<char> {
    if s.len() >= 2 && s[0] == '[' && s.last() == ']' {
        s.subrange(1, s.len() - 1)
    } else {
        s
    }
}

/// `s` without underscores.
pub open spec fn no_underscores(s: Seq<char>) -> Seq<char>
    decreases s.len(),
{
    if s.len() == 0 {
        s
    } else if s.last() == '_' {
        no_underscores(s.drop_last())
    } else {
        no_underscores(s.drop_last()).push(s.last())
    }
}

/// The position of the first `'` in `s`.
pub open spec fn first_quote(s: Seq<char>) -> Option<int>
    decreases s.len(),
{
    if s.len() == 0 {
        None
    } else if s[0] == '\'' {
        Some(0)
    } else {
        match first_quote(s.drop_first()) {
            Some(i) => Some(i + 1),
            None => None,
        }
    }
}

/// `s` without its leading `-` signs.
pub open spec fn trim_dashes(s: Seq<char>) -> Seq<char>
    decreases s.len(),
{
    if s.len() > 0 && s[0] == '-' {
        trim_dashes(s.drop_first())
    } else {
        s
    }
}

/// The value of digit `c` in `radix`, letters in either case.
pub open spec fn digit_value(c: char, radix: nat) -> Option<nat> {
    let d: int = if '0' <= c && c <= '9' {
        c as int - '0' as int
    } else if 'a' <= c && c <= 'z' {
        c as int - 'a' as int + 10
    } else if 'A' <= c && c <= 'Z' {
        c as int - 'A' as int + 10
    } else {
        radix as int
    };
    if 0 <= d < radix {
        Some(d as nat)
    } else {
        None
    }
}

/// The value of the digit string `s` in `radix` (zero for no digits).
pub open spec fn digits_value(s: Seq<char>, radix: nat) -> Option<int>
    decreases s.len(),
{
    if s.len() == 0 {
        Some(0)
    } else {
        match (digits_value(s.drop_last(), radix), digit_value(s.last(), radix)) {
            (Some(v), Some(d)) => Some(v * radix + d),
            _ => None,
        }
    }
}

/// The integer that `s` spells in `radix` with an optional sign (a `-` only
/// when `signed`), if it lies in `[lo, hi]`.
pub open spec fn parse_int(s: Seq<char>, radix: nat, signed: bool, lo: int, hi: int) -> Option<int> {
    if s.len() == 0 || ((s[0] == '+' || s[0] == '-') && s.len() == 1) {
        None
    } else {
        let neg = signed && s[0] == '-';
        let body = if s[0] == '+' || neg { s.drop_first() } else { s };
        match digits_value(body, radix) {
            Some(v) => {
                let x = if neg { -v } else { v };
                if lo <= x <= hi { Some(x) } else { None }
            },
            None => None,
        }
    }
}

pub open spec fn i128_min() -> int {
    -0x8000_0000_0000_0000_0000_0000_0000_0000int
}

pub open spec fn i128_max() -> int {
    0x7fff_ffff_ffff_ffff_ffff_ffff_ffff_ffffint
}

/// The radix of a based-literal base letter.
pub open spec fn radix_of(c: char) -> Option<nat> {
    if c == 'b' || c == 'B' {
        Some(2)
    } else if c == 'o' || c == 'O' {
        Some(8)
    } else if c == 'd' || c == 'D' {
        Some(10)
    } else if c == 'h' || c == 'H' {
        Some(16)
    } else {
        None
    }
}

/// The key text after trimming, unbracketing and removing underscores.
pub open spec fn pattern_key_text(key: Seq<char>) -> Seq<char> {
    no_underscores(trim(unbracket(trim(key))))
}

/// A sized literal whose width parses but whose base letter is missing or
/// is not a single-byte character cannot be split.
pub open spec fn pattern_key_splittable(key: Seq<char>) -> bool {
    let k = pattern_key_text(key);
    match first_quote(k) {
        Some(q) => parse_int(k.subrange(0, q), 10, false, 0, 0xffff_ffff) is Some ==>
            (q + 1 < k.len() && (k[q + 1] as u32) < 128),
        None => true,
    }
}

/// The integer a pattern key spells: a plain decimal integer, or a sized
/// based literal `<width>'<base><digits>` with an optional `-` before the
/// digits.
pub open spec fn pattern_i128_spec(key: Seq<char>) -> Option<int> {
    let k = pattern_key_text(key);
    match first_quote(k) {
        Some(q) => {
            let literal = k.subrange(q + 1, k.len() as int);
            if parse_int(k.subrange(0, q), 10, false, 0, 0xffff_ffff) is None {
                None
            } else {
                match radix_of(literal[0]) {
                    None => None,
                    Some(r) => {
                        let digits = literal.drop_first();
                        let sign = digits.len() > 0 && digits[0] == '-';
                        match parse_int(trim_dashes(digits), r, true, i128_min(), i128_max()) {
                            Some(v) => Some(if sign { -v } else { v }),
                            None => None,
                        }
                    },
                }
            }
        },
        None => parse_int(k, 10, true, i128_min(), i128_max()),
    }
}

proof fn lemma_digits_none(s: Seq<char>, radix: nat, i: int)
    requires
        0 <= i < s.len(),
        digit_value(s[i], radix) is None,
    ensures
        digits_value(s, radix) is None,
    decreases s.len(),
{
    if i < s.len() - 1 {
        lemma_digits_none(s.drop_last(), radix, i);
    }
}

proof fn lemma_digits_grow(s: Seq<char>, radix: nat, i: int)
    requires
        0 <= i <= s.len(),
        radix >= 1,
        digits_value(s.take(i), radix) is Some,
        digits_value(s, radix) is Some,
    ensures
        digits_value(s, radix)->0 >= digits_value(s.take(i), radix)->0,
        digits_value(s.take(i), radix)->0 >= 0,
    decreases s.len() - i,
{
    if i == s.len() {
        assert(s.take(i) =~= s);
        lemma_digits_nonneg(s, radix);
    } else {
        assert(s.take(i + 1).drop_last() =~= s.take(i));
        assert(s.take(i + 1).last() == s[i]);
        lemma_digits_prefix(s, radix, i + 1);
        lemma_digits_nonneg(s.take(i), radix);
        let a = digits_value(s.take(i), radix)->0;
        let d = digit_value(s[i], radix)->0;
        assert(a * radix + d >= a) by (nonlinear_arith)
            requires a >= 0, radix >= 1, d >= 0;
        lemma_digits_grow(s, radix, i + 1);
    }
}

proof fn lemma_digits_nonneg(s: Seq<char>, radix: nat)
    requires
        digits_value(s, radix) is Some,
    ensures
        digits_value(s, radix)->0 >= 0,
    decreases s.len(),
{
    if s.len() > 0 {
        lemma_digits_nonneg(s.drop_last(), radix);
        let a = digits_value(s.drop_last(), radix)->0;
        let d = digit_value(s.last(), radix)->0;
        assert(a * radix + d >= 0) by (nonlinear_arith)
            requires a >= 0, d >= 0;
    }
}

/// A digit string whose value is known has a known value on every prefix.
proof fn lemma_digits_prefix(s: Seq<char>, radix: nat, i: int)
    requires
        0 <= i <= s.len(),
        digits_value(s, radix) is Some,
    ensures
        digits_value(s.take(i), radix) is Some,
    decreases s.len() - i,
{
    if i == s.len() {
        assert(s.take(i) =~= s);
    } else {
        lemma_digits_prefix(s, radix, i + 1);
        assert(s.take(i + 1).drop_last() =~= s.take(i));
    }
}

fn chars_of(s: &str) -> (v: Vec<char>)
    ensures
        v@ == s@,
{
    let n = s.unicode_len();
    let mut v: Vec<char> = Vec::new();
    let mut i: usize = 0;
    while i < n
        invariant
            n == s@.len(),
            i <= n,
            v@ == s@.take(i as int),
        decreases n - i,
    {
        v.push(s.get_char(i));
        assert(v@ =~= s@.take(i + 1));
        i = i + 1;
    }
    assert(s@.take(n as int) =~= s@);
    v
}

fn slice_of(v: &Vec<char>, from: usize, to: usize) -> (r: Vec<char>)
    requires
        from <= to <= v.len(),
    ensures
        r@ == v@.subrange(from as int, to as int),
{
    let mut r: Vec<char> = Vec::new();
    let mut i = from;
    while i < to
        invariant
            from <= i <= to <= v.len(),
            r@ == v@.subrange(from as int, i as int),
        decreases to - i,
    {
        r.push(v[i]);
        assert(r@ =~= v@.subrange(from as int, i + 1));
        i = i + 1;
    }
    r
}

proof fn lemma_trim_start_skip(s: Seq<char>, i: int)
    requires
        0 <= i <= s.len(),
        forall|k: int| 0 <= k < i ==> is_white(#[trigger] s[k]),
    ensures
        trim_start(s) == trim_start(s.skip(i)),
    decreases i,
{
    if i > 0 {
        assert(s.drop_first().skip(i - 1) =~= s.skip(i));
        lemma_trim_start_skip(s.drop_first(), i - 1);
    } else {
        assert(s.skip(0) =~= s);
    }
}

proof fn lemma_trim_end_take(s: Seq<char>, j: int)
    requires
        0 <= j <= s.len(),
        forall|k: int| j <= k < s.len() ==> is_white(#[trigger] s[k]),
    ensures
        trim_end(s) == trim_end(s.take(j)),
    decreases s.len() - j,
{
    if j < s.len() {
        assert(s.drop_last().take(j) =~= s.take(j));
        lemma_trim_end_take(s.drop_last(), j);
    } else {
        assert(s.take(j) =~= s);
    }
}

fn trimmed(v: &Vec<char>) -> (r: Vec<char>)
    ensures
        r@ == trim(v@),
{
    let mut i: usize = 0;
    while i < v.len() && white(v[i])
        invariant
            i <= v.len(),
            forall|k: int| 0 <= k < i ==> is_white(#[trigger] v@[k]),
        decreases v.len() - i,
    {
        i = i + 1;
    }
    proof { lemma_trim_start_skip(v@, i as int); }
    let ghost t = v@.skip(i as int);
    assert(trim_start(t) == t);
    let mut j: usize = v.len();
    while j > i && white(v[j - 1])
        invariant
            i <= j <= v.len(),
            forall|k: int| j <= k < v.len() ==> is_white(#[trigger] v@[k]),
        decreases j,
    {
        j = j - 1;
    }
    proof {
        assert forall|k: int| (j - i) <= k < t.len() implies is_white(#[trigger] t[k]) by {
            assert(t[k] == v@[k + i]);
        }
        lemma_trim_end_take(t, (j - i) as int);
        assert(t.take((j - i) as int) =~= v@.subrange(i as int, j as int));
    }
    slice_of(v, i, j)
}

fn unbracketed(v: Vec<char>) -> (r: Vec<char>)
    ensures
        r@ == unbracket(v@),
{
    if v.len() >= 2 && v[0] == '[' && v[v.len() - 1] == ']' {
        slice_of(&v, 1, v.len() - 1)
    } else {
        v
    }
}

fn without_underscores(v: &Vec<char>) -> (r: Vec<char>)
    ensures
        r@ == no_underscores(v@),
{
    let mut r: Vec<char> = Vec::new();
    let mut i: usize = 0;
    assert(v@.take(0) =~= Seq::<char>::empty());
    while i < v.len()
        invariant
            i <= v.len(),
            r@ == no_underscores(v@.take(i as int)),
        decreases v.len() - i,
    {
        assert(v@.take(i + 1).drop_last() =~= v@.take(i as int));
        if v[i] != '_' {
            r.push(v[i]);
        }
        i = i + 1;
    }
    assert(v@.take(v.len() as int) =~= v@);
    r
}

fn find_quote(v: &Vec<char>) -> (r: Option<usize>)
    ensures
        r matches Some(q) ==> first_quote(v@) == Some(q as int) && q < v.len(),
        r is None ==> first_quote(v@) is None,
{
    let mut i: usize = 0;
    while i < v.len()
        invariant
            i <= v.len(),
            forall|k: int| 0 <= k < i ==> v@[k] != '\'',
        decreases v.len() - i,
    {
        if v[i] == '\'' {
            proof { lemma_first_quote(v@, i as int); }
            return Some(i);
        }
        i = i + 1;
    }
    proof { lemma_no_quote(v@); }
    None
}

proof fn lemma_first_quote(s: Seq<char>, i: int)
    requires
        0 <= i < s.len(),
        s[i] == '\'',
        forall|k: int| 0 <= k < i ==> s[k] != '\'',
    ensures
        first_quote(s) == Some(i),
    decreases i,
{
    if i > 0 {
        lemma_first_quote(s.drop_first(), i - 1);
    }
}

proof fn lemma_no_quote(s: Seq<char>)
    requires
        forall|k: int| 0 <= k < s.len() ==> s[k] != '\'',
    ensures
        first_quote(s) is None,
    decreases s.len(),
{
    if s.len() > 0 {
        lemma_no_quote(s.drop_first());
    }
}

fn digit_of(c: char, radix: u32) -> (r: Option<u32>)
    requires
        2 <= radix <= 36,
    ensures
        r matches Some(d) ==> digit_value(c, radix as nat) == Some(d as nat),
        r is None ==> digit_value(c, radix as nat) is None,
{
    let d: u32 = if '0' <= c && c <= '9' {
        (c as u32) - ('0' as u32)
    } else if 'a' <= c && c <= 'z' {
        (c as u32) - ('a' as u32) + 10
    } else if 'A' <= c && c <= 'Z' {
        (c as u32) - ('A' as u32) + 10
    } else {
        radix
    };
    if d < radix { Some(d) } else { None }
}

/// The value of the digits `v[from..]` in `radix`, if at most `bound`.
fn digits_at_most(v: &Vec<char>, from: usize, radix: u32, bound: u128) -> (r: Option<u128>)
    requires
        2 <= radix <= 36,
        from <= v.len(),
    ensures
        r matches Some(m) ==> digits_value(v@.skip(from as int), radix as nat) == Some(m as int) && m <= bound,
        r is None ==> !(digits_value(v@.skip(from as int), radix as nat) matches Some(x) && x <= bound),
{
    let ghost s = v@.skip(from as int);
    let mut acc: u128 = 0;
    let mut i = from;
    assert(s.take(0) =~= Seq::<char>::empty());
    while i < v.len()
        invariant
            2 <= radix <= 36,
            from <= i <= v.len(),
            s == v@.skip(from as int),
            digits_value(s.take(i - from), radix as nat) == Some(acc as int),
            acc <= bound,
        decreases v.len() - i,
    {
        assert(s.take(i - from + 1).drop_last() =~= s.take(i - from));
        assert(s.take(i - from + 1).last() == v@[i as int]);
        let d = match digit_of(v[i], radix) {
            Some(d) => d,
            None => {
                proof { lemma_digits_none(s, radix as nat, i - from); }
                return None;
            },
        };
        let next = match acc.checked_mul(radix as u128) {
            Some(m) => m.checked_add(d as u128),
            None => None,
        };
        match next {
            Some(n) if n <= bound => {
                acc = n;
            },
            _ => {
                proof {
                    let full = digits_value(s, radix as nat);
                    if full is Some {
                        lemma_digits_grow(s, radix as nat, i - from + 1);
                    }
                }
                return None;
            },
        }
        i = i + 1;
    }
    assert(s.take(v.len() - from) =~= s);
    Some(acc)
}

/// Parse `v[from..]` as an optionally signed integer of `radix` within
/// `[-neg_bound, pos_bound]` (a `-` only when `signed`).
fn parse_int_exec(v: &Vec<char>, from: usize, radix: u32, signed: bool, neg_bound: u128, pos_bound: u128)
    -> (r: Option<(bool, u128)>)
    requires
        2 <= radix <= 36,
        from <= v.len(),
    ensures
        r matches Some((neg, m)) ==> parse_int(v@.skip(from as int), radix as nat, signed, -(neg_bound as int), pos_bound as int)
            == Some(if neg { -(m as int) } else { m as int }),
        r is None ==> parse_int(v@.skip(from as int), radix as nat, signed, -(neg_bound as int), pos_bound as int) is None,
        r matches Some((neg, _)) ==> (neg ==> from < v.len() && v@[from as int] == '-'),
{
    let ghost s = v@.skip(from as int);
    if from >= v.len() {
        return None;
    }
    assert(s[0] == v@[from as int]);
    let first = v[from];
    if (first == '+' || first == '-') && v.len() - from == 1 {
        return None;
    }
    let neg = signed && first == '-';
    let start = if first == '+' || neg { from + 1 } else { from };
    assert(v@.skip(start as int) =~= (if first == '+' || neg { s.drop_first() } else { s }));
    let bound = if neg { neg_bound } else { pos_bound };
    match digits_at_most(v, start, radix, bound) {
        Some(m) => {
            if neg {
                assert(-(neg_bound as int) <= -(m as int));
            }
            Some((neg, m))
        },
        None => None,
    }
}

/// The integer a container pattern key spells: a plain decimal integer, or
/// a sized based literal `<width>'<base><digits>` with an optional `-`
/// before the digits; surrounding brackets, white space and underscores are
/// ignored.
pub fn parse_pattern_i128(key: &str) -> (r: Option<i128>)
    requires
        pattern_key_splittable(key@),
    ensures
        r matches Some(v) ==> pattern_i128_spec(key@) == Some(v as int),
        r is None ==> pattern_i128_spec(key@) is None,
{
    let k = without_underscores(&trimmed(&unbracketed(trimmed(&chars_of(key)))));
    assert(k@ == pattern_key_text(key@));
    match find_quote(&k) {
        Some(q) => {
            let width = slice_of(&k, 0, q);
            assert(width@.skip(0) =~= width@);
            if parse_int_exec(&width, 0, 10, false, 0, 0xffff_ffff).is_none() {
                return None;
            }
            let ghost literal = k@.subrange(q + 1, k.len() as int);
            assert(literal[0] == k@[q + 1]);
            let radix: u32 = match k[q + 1] {
                'b' | 'B' => 2,
                'o' | 'O' => 8,
                'd' | 'D' => 10,
                'h' | 'H' => 16,
                _ => return None,
            };
            let digits_start = q + 2;
            let ghost digits = literal.drop_first();
            assert(digits =~= k@.skip(digits_start as int));
            let sign = digits_start < k.len() && k[digits_start] == '-';
            let mut d = digits_start;
            while d < k.len() && k[d] == '-'
                invariant
                    digits_start <= d <= k.len(),
                    trim_dashes(digits) == trim_dashes(k@.skip(d as int)),
                decreases k.len() - d,
            {
                assert(k@.skip(d as int).drop_first() =~= k@.skip(d + 1));
                d = d + 1;
            }
            assert(trim_dashes(k@.skip(d as int)) == k@.skip(d as int));
            match parse_int_exec(&k, d, radix, true, 0x8000_0000_0000_0000_0000_0000_0000_0000u128,
                0x7fff_ffff_ffff_ffff_ffff_ffff_ffff_ffffu128) {
                Some((neg, m)) => {
                    let v: i128 = if neg {
                        if m == 0x8000_0000_0000_0000_0000_0000_0000_0000u128 {
                            -0x8000_0000_0000_0000_0000_0000_0000_0000i128
                        } else {
                            -(m as i128)
                        }
                    } else {
                        m as i128
                    };
                    // Digits after the dashes carry no sign of their own.
                    assert(!neg);
                    Some(if sign { -v } else { v })
                },
                None => None,
            }
        },
        None => {
            assert(k@.skip(0) =~= k@);
            match parse_int_exec(&k, 0, 10, true, 0x8000_0000_0000_0000_0000_0000_0000_0000u128,
                0x7fff_ffff_ffff_ffff_ffff_ffff_ffff_ffffu128) {
                Some((neg, m)) => Some(if neg {
                    if m == 0x8000_0000_0000_0000_0000_0000_0000_0000u128 {
                        -0x8000_0000_0000_0000_0000_0000_0000_0000i128
                    } else {
                        -(m as i128)
                    }
                } else {
                    m as i128
                }),
                None => None,
            }
        },
    }
}

/// The bit pattern of `index` in `width` bits: its two's-complement low
/// 128 bits, of which a narrower key keeps the low `width`.
pub open spec fn key_raw(index: int, width: nat) -> int {
    let full = if index >= 0 { index } else { index + p2(128) };
    if width >= 128 { full } else { full % p2(width) }
}

/// The constant that indexes a container with `index` at `width` bits.
pub fn pattern_key_expr(index: i128, width: u32, signed: bool, two_state: bool) -> (e: IrExpr)
    ensures
        e.kind matches IrExprKind::Const { raw, fill: None } && raw as int == key_raw(index as int, width as nat),
        e.width == width,
        e.signed == signed,
        e.fill is None,
        !e.real,
        width <= 128 ==> e.value() == Some(wrap(index as int, width as nat, signed)),
{
    proof { lemma_p2_128(); }
    let full: u128 = if index >= 0 {
        index as u128
    } else {
        let magnitude: u128 = ((-(index + 1)) as u128) + 1;
        0xffff_ffff_ffff_ffff_ffff_ffff_ffff_ffffu128 - magnitude + 1
    };
    let raw: u128 = if width >= 128 {
        full
    } else {
        full % pow2_u128(width)
    };
    let e = IrExpr {
        kind: IrExprKind::Const { raw, fill: None },
        width,
        signed,
        fill: None,
        real: false,
    };
    proof {
        let w = width as nat;
        let i = index as int;
        if w <= 128 && w >= 1 {
            lemma_p2_pos(w);
            lemma_p2_pos((128 - w) as nat);
            lemma_p2_add(w, (128 - w) as nat);
            assert((w + (128 - w) as nat) as nat == 128);
            vstd::arithmetic::div_mod::lemma_mod_mod(i, p2(w), p2((128 - w) as nat));
            // `full` is `i` modulo 2^128.
            if i >= 0 {
                vstd::arithmetic::div_mod::lemma_small_mod(i as nat, p2(128) as nat);
            } else {
                vstd::arithmetic::div_mod::lemma_mod_add_multiples_vanish(i, p2(128));
                vstd::arithmetic::div_mod::lemma_small_mod((i + p2(128)) as nat, p2(128) as nat);
            }
            assert(full as int == i % p2(128));
            if w < 128 {
                assert(p2(128) == p2(w) * p2((128 - w) as nat));
                assert(raw as int == (i % (p2(w) * p2((128 - w) as nat))) % p2(w));
                assert(raw as int == i % p2(w));
                vstd::arithmetic::div_mod::lemma_mod_twice(i, p2(w));
            } else {
                assert(raw as int == i % p2(128));
                vstd::arithmetic::div_mod::lemma_mod_twice(i, p2(128));
            }
            assert((raw as int) % p2(w) == i % p2(w));
        }
    }
    e
}

} // verus!
