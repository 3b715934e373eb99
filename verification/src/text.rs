//! Text helpers for generated C names, HDL display names and diagnostics.

use vstd::prelude::*;
use vstd::string::StringExecFns;
use vstd::string::StrSliceExecFns;

verus! {

/// Append one character (`String::push`).
#[verifier::external_body]
pub fn push_char(s: &mut String, c: char)
    ensures
        final(s)@ == old(s)@.push(c),
{
    s.push(c);
}

/// Whether two strings hold the same characters.
pub fn str_is(s: &str, lit: &str) -> (r: bool)
    ensures
        r == (s@ == lit@),
{
    let n = s.unicode_len();
    let m = lit.unicode_len();
    if n != m {
        return false;
    }
    let mut i: usize = 0;
    while i < n
        invariant
            n == s@.len(),
            m == lit@.len(),
            n == m,
            i <= n,
            forall|k: int| 0 <= k < i ==> s@[k] == lit@[k],
        decreases n - i,
    {
        if s.get_char(i) != lit.get_char(i) {
            return false;
        }
        i = i + 1;
    }
    assert(s@ =~= lit@);
    true
}

/// A fresh string holding `lit`.
pub fn owned(lit: &str) -> (r: String)
    ensures
        r@ == lit@,
{
    String::from_str(lit)
}

/// `a` followed by `b`.
pub fn concat2(a: &str, b: &str) -> (r: String)
    ensures
        r@ == a@ + b@,
{
    let mut s = String::from_str(a);
    s.append(b);
    s
}

/// `a`, `b` and `c` in order.
pub fn concat3(a: &str, b: &str, c: &str) -> (r: String)
    ensures
        r@ == a@ + b@ + c@,
{
    let mut s = String::from_str(a);
    s.append(b);
    s.append(c);
    s
}

pub open spec fn digit_char(d: nat) -> char {
    if d == 0 { '0' }
    else if d == 1 { '1' }
    else if d == 2 { '2' }
    else if d == 3 { '3' }
    else if d == 4 { '4' }
    else if d == 5 { '5' }
    else if d == 6 { '6' }
    else if d == 7 { '7' }
    else if d == 8 { '8' }
    else { '9' }
}

/// Decimal spelling of a natural number.
pub open spec fn decimal(n: nat) -> Seq<char>
    decreases n,
{
    if n < 10 {
        seq![digit_char(n)]
    } else {
        decimal(n / 10).push(digit_char(n % 10))
    }
}

/// Decimal spelling of an integer, with a leading `-` when negative.
pub open spec fn int_decimal(v: int) -> Seq<char> {
    if v < 0 {
        seq!['-'] + decimal((-v) as nat)
    } else {
        decimal(v as nat)
    }
}

fn digit(d: u128) -> (c: char)
    requires
        d < 10,
    ensures
        c == digit_char(d as nat),
{
    if d == 0 { '0' }
    else if d == 1 { '1' }
    else if d == 2 { '2' }
    else if d == 3 { '3' }
    else if d == 4 { '4' }
    else if d == 5 { '5' }
    else if d == 6 { '6' }
    else if d == 7 { '7' }
    else if d == 8 { '8' }
    else { '9' }
}

fn push_decimal(s: &mut String, n: u128)
    ensures
        final(s)@ == old(s)@ + decimal(n as nat),
    decreases n,
{
    if n < 10 {
        push_char(s, digit(n));
        assert(decimal(n as nat) =~= seq![digit_char(n as nat)]);
    } else {
        push_decimal(s, n / 10);
        push_char(s, digit(n % 10));
        assert(old(s)@ + decimal(n as nat) =~= old(s)@ + decimal((n / 10) as nat) + seq![digit_char((n % 10) as nat)]);
    }
}

/// Decimal spelling of `n`.
pub fn decimal_string(n: u128) -> (r: String)
    ensures
        r@ == decimal(n as nat),
{
    let mut s = String::new();
    push_decimal(&mut s, n);
    assert(s@ =~= decimal(n as nat));
    s
}

/// Decimal spelling of a signed value.
pub fn int_string(v: i128) -> (r: String)
    ensures
        r@ == int_decimal(v as int),
{
    let mut s = String::new();
    if v < 0 {
        push_char(&mut s, '-');
        let magnitude: u128 = ((-(v + 1)) as u128) + 1;
        push_decimal(&mut s, magnitude);
    } else {
        push_decimal(&mut s, v as u128);
    }
    assert(s@ =~= int_decimal(v as int));
    s
}

/// `prefix` followed by the decimal spelling of `n`.
pub fn prefixed_number(prefix: &str, n: u128) -> (r: String)
    ensures
        r@ == prefix@ + decimal(n as nat),
{
    let mut s = String::from_str(prefix);
    push_decimal(&mut s, n);
    s
}

/// `prefix`, `a`, `infix`, `b` with both numbers in decimal.
pub fn two_numbers(prefix: &str, a: u128, infix: &str, b: u128) -> (r: String)
    ensures
        r@ == prefix@ + decimal(a as nat) + infix@ + decimal(b as nat),
{
    let mut s = String::from_str(prefix);
    push_decimal(&mut s, a);
    s.append(infix);
    push_decimal(&mut s, b);
    s
}

/// The text after the first `@`, if there is one.
pub open spec fn after_first_at(s: Seq<char>) -> Option<Seq<char>>
    decreases s.len(),
{
    if s.len() == 0 {
        None
    } else if s[0] == '@' {
        Some(s.drop_first())
    } else {
        after_first_at(s.drop_first())
    }
}

/// A name without its library qualifier (`work@tb` is `tb`).
pub open spec fn strip_lib_spec(s: Seq<char>) -> Seq<char> {
    match after_first_at(s) {
        Some(rest) => rest,
        None => s,
    }
}

pub fn strip_lib(name: &str) -> (r: String)
    ensures
        r@ == strip_lib_spec(name@),
{
    let n = name.unicode_len();
    let mut i: usize = 0;
    assert(name@.subrange(0, n as int) =~= name@);
    while i < n
        invariant
            n == name@.len(),
            i <= n,
            after_first_at(name@) == after_first_at(name@.subrange(i as int, n as int)),
        decreases n - i,
    {
        let ghost tail = name@.subrange(i as int, n as int);
        assert(tail.drop_first() =~= name@.subrange(i + 1, n as int));
        if name.get_char(i) == '@' {
            let rest = name.substring_char(i + 1, n);
            return String::from_str(rest);
        }
        i = i + 1;
    }
    assert(name@.subrange(n as int, n as int).len() == 0);
    String::from_str(name)
}

/// A C identifier spelling of an HDL path: every character other than an
/// ASCII letter, digit or `_` becomes `_`.
pub open spec fn ident_char(c: char) -> char {
    if ('a' <= c && c <= 'z') || ('A' <= c && c <= 'Z') || ('0' <= c && c <= '9') || c == '_' {
        c
    } else {
        '_'
    }
}

pub open spec fn ident_spec(s: Seq<char>) -> Seq<char> {
    Seq::new(s.len(), |i: int| ident_char(s[i]))
}

pub fn ident(path: &str) -> (r: String)
    ensures
        r@ == ident_spec(path@),
{
    let n = path.unicode_len();
    let mut s = String::new();
    let mut i: usize = 0;
    while i < n
        invariant
            n == path@.len(),
            i <= n,
            s@ =~= ident_spec(path@).subrange(0, i as int),
        decreases n - i,
    {
        let c = path.get_char(i);
        let d = if ('a' <= c && c <= 'z') || ('A' <= c && c <= 'Z') || ('0' <= c && c <= '9') || c == '_' {
            c
        } else {
            '_'
        };
        push_char(&mut s, d);
        i = i + 1;
    }
    s
}

/// Unicode `White_Space`.
pub open spec fn is_white(c: char) -> bool {
    ||| c == '\t' || c == '\n' || c == '\u{b}' || c == '\u{c}' || c == '\r' || c == ' '
    ||| c == '\u{85}' || c == '\u{a0}' || c == '\u{1680}'
    ||| ('\u{2000}' <= c && c <= '\u{200a}')
    ||| c == '\u{2028}' || c == '\u{2029}' || c == '\u{202f}' || c == '\u{205f}' || c == '\u{3000}'
}

pub fn white(c: char) -> (r: bool)
    ensures
        r == is_white(c),
{
    c == '\t' || c == '\n' || c == '\u{b}' || c == '\u{c}' || c == '\r' || c == ' '
        || c == '\u{85}' || c == '\u{a0}' || c == '\u{1680}'
        || ('\u{2000}' <= c && c <= '\u{200a}')
        || c == '\u{2028}' || c == '\u{2029}' || c == '\u{202f}' || c == '\u{205f}' || c == '\u{3000}'
}

} // verus!
