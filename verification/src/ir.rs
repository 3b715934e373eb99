//! A small typed expression IR for the coordinate and index arithmetic that
//! the lowering produces, with its two's-complement value semantics.

use vstd::prelude::*;

verus! {

/// Largest packed width the simulator runtime supports.
pub const LLG_MAX_WIDTH: u32 = 65536;

/// `2^n` as an integer.
pub open spec fn p2(n: nat) -> int
    decreases n,
{
    if n == 0 {
        1
    } else {
        2 * p2((n - 1) as nat)
    }
}

pub proof fn lemma_p2_pos(n: nat)
    ensures
        p2(n) >= 1,
    decreases n,
{
    if n > 0 {
        lemma_p2_pos((n - 1) as nat);
    }
}

pub proof fn lemma_p2_mono(a: nat, b: nat)
    requires
        a <= b,
    ensures
        p2(a) <= p2(b),
    decreases b,
{
    if a < b {
        lemma_p2_mono(a, (b - 1) as nat);
        lemma_p2_pos((b - 1) as nat);
    }
}

pub proof fn lemma_p2_add(a: nat, b: nat)
    ensures
        p2(a + b) == p2(a) * p2(b),
    decreases b,
{
    if b > 0 {
        lemma_p2_add(a, (b - 1) as nat);
        assert(p2(a + b) == 2 * p2((a + b - 1) as nat));
        assert((a + b - 1) as nat == a + (b - 1) as nat);
        assert(p2(a) * p2(b) == p2(a) * (2 * p2((b - 1) as nat)));
        assert(p2(a) * (2 * p2((b - 1) as nat)) == 2 * (p2(a) * p2((b - 1) as nat)))
            by (nonlinear_arith);
    }
}

/// `p2(127)` and `p2(128)` as machine constants.
pub proof fn lemma_p2_128()
    ensures
        p2(127) == 0x8000_0000_0000_0000_0000_0000_0000_0000int,
        p2(128) == 0x1_0000_0000_0000_0000_0000_0000_0000_0000int,
        p2(64) == 0x1_0000_0000_0000_0000int,
        p2(32) == 0x1_0000_0000int,
        p2(31) == 0x8000_0000int,
{
    assert(p2(0) == 1);
    assert(p2(1) == 2);
    lemma_p2_add(1, 1);
    assert(p2(2) == 4);
    lemma_p2_add(2, 1);
    assert(p2(3) == 8);
    lemma_p2_add(2, 2);
    assert(p2(4) == 16);
    lemma_p2_add(4, 3);
    assert(p2(7) == 128);
    lemma_p2_add(4, 4);
    assert(p2(8) == 256);
    lemma_p2_add(8, 7);
    assert(p2(15) == 0x8000);
    lemma_p2_add(8, 8);
    assert(p2(16) == 0x1_0000);
    lemma_p2_add(16, 15);
    assert(p2(31) == 0x8000_0000int);
    lemma_p2_add(16, 16);
    assert(p2(32) == 0x1_0000_0000int);
    lemma_p2_add(32, 31);
    assert(p2(63) == 0x8000_0000_0000_0000int);
    lemma_p2_add(32, 32);
    assert(p2(64) == 0x1_0000_0000_0000_0000int);
    lemma_p2_add(64, 63);
    assert(p2(127) == 0x8000_0000_0000_0000_0000_0000_0000_0000int);
    lemma_p2_add(64, 64);
    assert(p2(128) == 0x1_0000_0000_0000_0000_0000_0000_0000_0000int);
}

/// Whether `v` is representable as a signed integer of `w` bits.
pub open spec fn fits_signed(v: int, w: nat) -> bool {
    w >= 1 && -p2((w - 1) as nat) <= v < p2((w - 1) as nat)
}

/// Whether `v` is representable as an unsigned integer of `w` bits.
pub open spec fn fits_unsigned(v: int, w: nat) -> bool {
    0 <= v < p2(w)
}

/// The value of the low `w` bits of `v`, read as signed or unsigned.
pub open spec fn wrap(v: int, w: nat, signed: bool) -> int {
    if w == 0 {
        0
    } else {
        let m = v % p2(w);
        if signed && m >= p2((w - 1) as nat) {
            m - p2(w)
        } else {
            m
        }
    }
}

pub proof fn lemma_wrap_id(v: int, w: nat, signed: bool)
    requires
        if signed { fits_signed(v, w) } else { fits_unsigned(v, w) && w >= 1 },
    ensures
        wrap(v, w, signed) == v,
{
    lemma_p2_pos(w);
    assert(p2(w) == 2 * p2((w - 1) as nat));
    if v >= 0 {
        assert(v % p2(w) == v) by (nonlinear_arith)
            requires 0 <= v < p2(w);
    } else {
        assert(v % p2(w) == v + p2(w)) by (nonlinear_arith)
            requires -p2(w) <= v < 0, p2(w) >= 1;
    }
}

pub enum IrBinOp {
    Add,
    Sub,
    Mul,
}

pub enum IrExprKind {
    /// A constant whose bit pattern is `raw` (no bits above 128 are set).
    Const { raw: u128, fill: Option<u8> },
    /// An unbased unsized fill literal (`'0`, `'1`, `'x`, `'z` as 0, 1, 2, 3):
    /// every bit of the expression's width is that digit.
    Fill(u8),
    /// A one-item concatenation: the operand's self-determined bits, read
    /// at this expression's width and signedness (unsigned for a concatenation).
    Concat(Box<IrExpr>),
    /// Conversion of the operand to this expression's width and signedness.
    Convert(Box<IrExpr>),
    Bin { op: IrBinOp, a: Box<IrExpr>, b: Box<IrExpr> },
    /// A read of model signal storage.
    SignalRead(usize),
    /// A read of a lexical C local.
    LocalRead(String),
    /// An ascending indexed part select `base[base_idx +: width]`.
    IdxPartSel { base: Box<IrExpr>, base_idx: Box<IrExpr>, width: u32 },
    /// A bitwise operation of two operands at this expression's width.
    BitOp { op: IrBitOp, a: Box<IrExpr>, b: Box<IrExpr> },
    /// Bitwise negation over the full width of the operand.
    BitNot(Box<IrExpr>),
    /// `sel ? a : b` with a one-bit select.
    Mux { sel: Box<IrExpr>, a: Box<IrExpr>, b: Box<IrExpr> },
}

/// A bitwise operator.
#[derive(Clone, Copy, Debug, PartialEq, Eq, Structural)]
pub enum IrBitOp {
    And,
    Or,
    Xor,
}

pub struct IrExpr {
    pub kind: IrExprKind,
    pub width: u32,
    pub signed: bool,
    /// A contextual fill marker of an unbased unsized literal.
    pub fill: Option<u8>,
    pub real: bool,
}

impl Clone for IrBinOp {
    fn clone(&self) -> (r: Self)
        ensures
            r == *self,
    {
        match self {
            IrBinOp::Add => IrBinOp::Add,
            IrBinOp::Sub => IrBinOp::Sub,
            IrBinOp::Mul => IrBinOp::Mul,
        }
    }
}

impl Clone for IrExpr {
    fn clone(&self) -> (r: Self)
        ensures
            r == *self,
        decreases self,
    {
        let kind = match &self.kind {
            IrExprKind::Const { raw, fill } => IrExprKind::Const { raw: *raw, fill: *fill },
            IrExprKind::Fill(f) => IrExprKind::Fill(*f),
            IrExprKind::Concat(part) => IrExprKind::Concat(Box::new((**part).clone())),
            IrExprKind::Convert(operand) => IrExprKind::Convert(Box::new((**operand).clone())),
            IrExprKind::Bin { op, a, b } => IrExprKind::Bin {
                op: op.clone(),
                a: Box::new((**a).clone()),
                b: Box::new((**b).clone()),
            },
            IrExprKind::SignalRead(s) => IrExprKind::SignalRead(*s),
            IrExprKind::LocalRead(name) => IrExprKind::LocalRead(name.clone()),
            IrExprKind::IdxPartSel { base, base_idx, width } => IrExprKind::IdxPartSel {
                base: Box::new((**base).clone()),
                base_idx: Box::new((**base_idx).clone()),
                width: *width,
            },
            IrExprKind::BitOp { op, a, b } => IrExprKind::BitOp {
                op: *op,
                a: Box::new((**a).clone()),
                b: Box::new((**b).clone()),
            },
            IrExprKind::BitNot(a) => IrExprKind::BitNot(Box::new((**a).clone())),
            IrExprKind::Mux { sel, a, b } => IrExprKind::Mux {
                sel: Box::new((**sel).clone()),
                a: Box::new((**a).clone()),
                b: Box::new((**b).clone()),
            },
        };
        IrExpr { kind, width: self.width, signed: self.signed, fill: self.fill, real: self.real }
    }
}

impl IrExpr {
    pub open spec fn has_fill(&self) -> bool {
        self.fill is Some || self.kind is Fill || (self.kind matches IrExprKind::Const {
            fill: Some(_),
            ..
        })
    }

    pub open spec fn fill_of(&self) -> u8 {
        if self.fill is Some {
            self.fill->0
        } else {
            match self.kind {
                IrExprKind::Fill(f) => f,
                IrExprKind::Const { fill: Some(f), .. } => f,
                _ => 0,
            }
        }
    }

    /// The value this expression denotes (for constant expressions).
    pub open spec fn value(&self) -> Option<int>
        decreases self,
    {
        if self.real {
            None
        } else {
            match self.kind {
                IrExprKind::Const { raw, .. } => Some(wrap(raw as int, self.width as nat, self.signed)),
                IrExprKind::Fill(f) => fill_value(f, self.width as nat, self.signed),
                IrExprKind::Concat(part) => match part.value() {
                    Some(v) => Some(wrap(v, self.width as nat, self.signed)),
                    None => None,
                },
                IrExprKind::Convert(operand) => if operand.has_fill() {
                    fill_value(operand.fill_of(), self.width as nat, self.signed)
                } else {
                    match operand.value() {
                        Some(v) => Some(wrap(v, self.width as nat, self.signed)),
                        None => None,
                    }
                },
                IrExprKind::Bin { op, a, b } => match (a.value(), b.value()) {
                    (Some(x), Some(y)) => Some(
                        wrap(
                            match op {
                                IrBinOp::Add => x + y,
                                IrBinOp::Sub => x - y,
                                IrBinOp::Mul => x * y,
                            },
                            self.width as nat,
                            self.signed,
                        ),
                    ),
                    _ => None,
                },
                _ => None,
            }
        }
    }
}

/// The value of a fill literal expanded to `w` bits.
pub open spec fn fill_value(f: u8, w: nat, signed: bool) -> Option<int> {
    if f == 0 {
        Some(0)
    } else if f == 1 {
        Some(wrap(p2(w) - 1, w, signed))
    } else {
        None
    }
}

/// Smallest signed width able to hold `v`, at least 32 bits.
pub open spec fn integer_width(v: int) -> nat
    recommends
        fits_signed(v, 128),
{
    integer_width_from(v, 32)
}

pub open spec fn integer_width_from(v: int, n: nat) -> nat
    decreases 128 - n,
{
    if n >= 128 || fits_signed(v, n) {
        n
    } else {
        integer_width_from(v, n + 1)
    }
}

pub proof fn lemma_integer_width(v: int, n: nat)
    requires
        1 <= n <= 128,
        fits_signed(v, 128),
    ensures
        n <= integer_width_from(v, n) <= 128,
        fits_signed(v, integer_width_from(v, n)),
    decreases 128 - n,
{
    if n < 128 && !fits_signed(v, n) {
        lemma_integer_width(v, n + 1);
    }
}

/// `p2(k)` as a machine integer.
pub fn pow2_u128(k: u32) -> (r: u128)
    requires
        k < 128,
    ensures
        r == p2(k as nat),
        r >= 1,
{
    proof { lemma_p2_pos(k as nat); }
    let mut r: u128 = 1;
    let mut i: u32 = 0;
    while i < k
        invariant
            i <= k < 128,
            r == p2(i as nat),
        decreases k - i,
    {
        proof {
            lemma_p2_mono((i + 1) as nat, 127);
            lemma_p2_128();
        }
        r = r * 2;
        i = i + 1;
    }
    r
}

/// A signed integer constant of the smallest width (at least 32 bits) that
/// holds `value`.
pub fn lhs_integer_expr(value: i128) -> (e: IrExpr)
    ensures
        e.kind matches IrExprKind::Const { fill: None, .. },
        e.width as nat == integer_width(value as int),
        32 <= e.width <= 128,
        e.signed,
        e.fill is None,
        !e.real,
        e.value() == Some(value as int),
        fits_signed(value as int, e.width as nat),
{
    proof {
        lemma_p2_128();
        lemma_integer_width(value as int, 32);
    }
    let mut n: u32 = 32;
    let mut half: u128 = 0x8000_0000;
    let mut done: bool = false;
    while !done
        invariant
            32 <= n <= 128,
            half == p2((n - 1) as nat),
            fits_signed(value as int, 128),
            integer_width_from(value as int, n as nat) == integer_width(value as int),
            done ==> fits_signed(value as int, n as nat),
        decreases 129 - n - (if done { 1int } else { 0int }),
    {
        let fits = if value >= 0 {
            (value as u128) < half
        } else {
            let magnitude: u128 = ((-(value + 1)) as u128) + 1;
            magnitude <= half
        };
        if n >= 128 || fits {
            done = true;
        } else {
            proof {
                lemma_p2_mono(n as nat, 127);
            }
            half = half * 2;
            n = n + 1;
        }
    }
    proof {
        lemma_integer_width(value as int, 32);
        lemma_p2_128();
        lemma_p2_mono((n - 1) as nat, 127);
        lemma_p2_mono((n - 1) as nat, n as nat);
        assert(p2(n as nat) == 2 * p2((n - 1) as nat));
    }
    let raw: u128 = if value >= 0 {
        value as u128
    } else {
        // Two's complement bit pattern of a negative value in `n` bits.
        let magnitude: u128 = ((-(value + 1)) as u128) + 1;
        let full = if n == 128 {
            0xffff_ffff_ffff_ffff_ffff_ffff_ffff_ffffu128 - magnitude + 1
        } else {
            let p = pow2_u128(n);
            proof { lemma_p2_mono(n as nat, 127); }
            p - magnitude
        };
        full
    };
    let e = IrExpr {
        kind: IrExprKind::Const { raw, fill: None },
        width: n,
        signed: true,
        fill: None,
        real: false,
    };
    proof {
        let w = n as nat;
        let v = value as int;
        assert(fits_signed(v, w));
        lemma_p2_pos((w - 1) as nat);
        assert(p2(w) == 2 * p2((w - 1) as nat));
        if v >= 0 {
            assert(raw as int % p2(w) == v) by (nonlinear_arith)
                requires raw as int == v, 0 <= v < p2(w);
        } else {
            assert(raw as int == v + p2(w));
            assert(raw as int % p2(w) == v + p2(w)) by (nonlinear_arith)
                requires raw as int == v + p2(w), -p2(w) <= v < 0;
        }
    }
    e
}

/// Convert `value` to `width` bits of the given signedness.
pub fn convert_to(value: IrExpr, width: u32, signed: bool) -> (e: IrExpr)
    ensures
        e.kind == IrExprKind::Convert(Box::new(value)),
        e.width == width,
        e.signed == signed,
        e.fill is None,
        !e.real,
{
    IrExpr { kind: IrExprKind::Convert(Box::new(value)), width, signed, fill: None, real: false }
}

/// A binary operation at the wider operand width; signed when both are.
pub fn bin_expr(op: IrBinOp, a: IrExpr, b: IrExpr) -> (e: IrExpr)
    ensures
        e.width == if a.width >= b.width { a.width } else { b.width },
        e.signed == (a.signed && b.signed),
        e.fill is None,
        !e.real,
        e.kind == (IrExprKind::Bin { op, a: Box::new(a), b: Box::new(b) }),
{
    let width = if a.width >= b.width { a.width } else { b.width };
    let signed = a.signed && b.signed;
    IrExpr { kind: IrExprKind::Bin { op, a: Box::new(a), b: Box::new(b) }, width, signed, fill: None, real: false }
}


pub open spec fn in_i128(v: int) -> bool {
    -p2(127) <= v < p2(127)
}

pub open spec fn keep_i128(v: Option<int>) -> Option<int> {
    match v {
        Some(x) => if in_i128(x) { Some(x) } else { None },
        None => None,
    }
}

/// The value of a constant expression when every intermediate result is an
/// `i128`; `None` otherwise.
pub open spec fn fold_spec(e: IrExpr) -> Option<int>
    decreases e,
{
    if e.real {
        None
    } else {
        match e.kind {
            IrExprKind::Const { raw, .. } => keep_i128(Some(wrap(raw as int, e.width as nat, e.signed))),
            IrExprKind::Fill(f) => keep_i128(fill_value(f, e.width as nat, e.signed)),
            IrExprKind::Concat(part) => match fold_spec(*part) {
                Some(v) => keep_i128(Some(wrap(v, e.width as nat, e.signed))),
                None => None,
            },
            IrExprKind::Convert(operand) => if operand.has_fill() {
                keep_i128(fill_value(operand.fill_of(), e.width as nat, e.signed))
            } else {
                match fold_spec(*operand) {
                    Some(v) => keep_i128(Some(wrap(v, e.width as nat, e.signed))),
                    None => None,
                }
            },
            IrExprKind::Bin { op, a, b } => match (fold_spec(*a), fold_spec(*b)) {
                (Some(x), Some(y)) => {
                    let r = match op {
                        IrBinOp::Add => x + y,
                        IrBinOp::Sub => x - y,
                        IrBinOp::Mul => x * y,
                    };
                    if in_i128(r) {
                        keep_i128(Some(wrap(r, e.width as nat, e.signed)))
                    } else {
                        None
                    }
                },
                _ => None,
            },
            _ => None,
        }
    }
}

/// Folding agrees with the value semantics wherever it succeeds.
pub proof fn lemma_fold_sound(e: IrExpr)
    ensures
        fold_spec(e) matches Some(x) ==> e.value() == Some(x),
    decreases e,
{
    match e.kind {
        IrExprKind::Concat(part) => lemma_fold_sound(*part),
        IrExprKind::Convert(operand) => lemma_fold_sound(*operand),
        IrExprKind::Bin { a, b, .. } => {
            lemma_fold_sound(*a);
            lemma_fold_sound(*b);
        },
        _ => {},
    }
}

proof fn lemma_neg_mod(v: int, u: int, p: int)
    requires
        p >= 1,
        u >= 0,
        v == -u - 1,
    ensures
        v % p == p - 1 - u % p,
{
    let q = u / p;
    let r = u % p;
    assert(u == q * p + r && 0 <= r < p) by (nonlinear_arith)
        requires p >= 1, q == u / p, r == u % p;
    assert(v == (-(q + 1)) * p + (p - 1 - r)) by (nonlinear_arith)
        requires v == -u - 1, u == q * p + r;
    assert(v % p == p - 1 - r) by (nonlinear_arith)
        requires v == (-(q + 1)) * p + (p - 1 - r), 0 <= p - 1 - r < p;
}

/// `wrap(v, w, signed)` when it is an `i128`.
pub fn wrap_i128(v: i128, w: u32, signed: bool) -> (r: Option<i128>)
    ensures
        r is Some <==> in_i128(wrap(v as int, w as nat, signed)),
        r matches Some(z) ==> z as int == wrap(v as int, w as nat, signed),
{
    proof {
        lemma_p2_128();
    }
    if w == 0 {
        return Some(0);
    }
    if w >= 128 {
        proof {
            lemma_p2_mono(127, (w - 1) as nat);
            assert(p2(w as nat) == 2 * p2((w - 1) as nat));
            let p = p2(w as nat);
            if v >= 0 {
                assert((v as int) % p == v as int) by (nonlinear_arith)
                    requires 0 <= (v as int), (v as int) < p;
            } else {
                assert((v as int) % p == v as int + p) by (nonlinear_arith)
                    requires (v as int) < 0, -(v as int) <= p;
            }
        }
        if signed || v >= 0 {
            return Some(v);
        }
        return None;
    }
    let p = pow2_u128(w);
    proof {
        lemma_p2_mono(w as nat, 127);
        assert(p2(w as nat) == 2 * p2((w - 1) as nat));
    }
    let m: u128 = if v >= 0 {
        (v as u128) % p
    } else {
        let u: u128 = (-(v + 1)) as u128;
        proof {
            lemma_neg_mod(v as int, u as int, p as int);
        }
        p - 1 - (u % p)
    };
    assert(m as int == (v as int) % p2(w as nat));
    let half = p / 2;
    if signed && m >= half {
        let d: u128 = p - m;
        Some(-(d as i128))
    } else {
        Some(m as i128)
    }
}

/// `fill_value` when it is an `i128`.
fn fill_i128(f: u8, w: u32, signed: bool) -> (r: Option<i128>)
    ensures
        r is Some <==> (fill_value(f, w as nat, signed) matches Some(x) && in_i128(x)),
        r matches Some(z) ==> fill_value(f, w as nat, signed) == Some(z as int),
{
    if f == 0 {
        proof { lemma_p2_128(); }
        Some(0)
    } else if f == 1 {
        // All ones: -1 as a signed value, 2^w - 1 unsigned.
        proof {
            lemma_p2_128();
            lemma_p2_pos(w as nat);
            if w > 0 {
                assert(p2(w as nat) == 2 * p2((w - 1) as nat));
                lemma_p2_pos((w - 1) as nat);
                let p = p2(w as nat);
                assert((p - 1) % p == p - 1) by (nonlinear_arith)
                    requires p >= 1;
            }
        }
        if w == 0 {
            Some(0)
        } else if signed {
            Some(-1)
        } else if w < 128 {
            let p = pow2_u128(w);
            proof { lemma_p2_mono(w as nat, 127); }
            Some((p - 1) as i128)
        } else {
            proof {
                lemma_p2_mono(128, w as nat);
            }
            None
        }
    } else {
        None
    }
}

fn has_fill_exec(e: &IrExpr) -> (r: (bool, u8))
    ensures
        r.0 == e.has_fill(),
        r.0 ==> r.1 == e.fill_of(),
{
    match e.fill {
        Some(f) => (true, f),
        None => match &e.kind {
            IrExprKind::Fill(f) => (true, *f),
            IrExprKind::Const { fill: Some(f), .. } => (true, *f),
            _ => (false, 0),
        },
    }
}

/// Fold a constant expression to an `i128`.
pub fn fold_i128(e: &IrExpr) -> (r: Option<i128>)
    ensures
        r is Some <==> fold_spec(*e) is Some,
        r matches Some(x) ==> fold_spec(*e) == Some(x as int) && e.value() == Some(x as int),
    decreases e,
{
    proof {
        lemma_fold_sound(*e);
        lemma_p2_128();
    }
    if e.real {
        return None;
    }
    match &e.kind {
        IrExprKind::Const { raw, .. } => {
            let raw = *raw;
            if e.width >= 128 {
                proof {
                    lemma_p2_mono(128, e.width as nat);
                    lemma_p2_mono(127, (e.width - 1) as nat);
                    assert(p2(e.width as nat) == 2 * p2((e.width - 1) as nat));
                    let p = p2(e.width as nat);
                    assert((raw as int) % p == raw as int) by (nonlinear_arith)
                        requires 0 <= (raw as int), (raw as int) < p;
                }
                if e.signed && e.width == 128 && raw >= 0x8000_0000_0000_0000_0000_0000_0000_0000u128 {
                    let d: u128 = 0xffff_ffff_ffff_ffff_ffff_ffff_ffff_ffffu128 - raw;
                    assert(wrap(raw as int, 128, true) == raw as int - p2(128));
                    Some(-(d as i128) - 1)
                } else if raw <= 0x7fff_ffff_ffff_ffff_ffff_ffff_ffff_ffffu128 {
                    proof {
                        if e.width > 128 {
                            lemma_p2_mono(128, (e.width - 1) as nat);
                        }
                    }
                    assert(wrap(raw as int, e.width as nat, e.signed) == raw as int);
                    Some(raw as i128)
                } else {
                    proof {
                        if e.width > 128 {
                            lemma_p2_mono(128, (e.width - 1) as nat);
                        }
                    }
                    assert(wrap(raw as int, e.width as nat, e.signed) == raw as int);
                    None
                }
            } else {
                let p = pow2_u128(e.width);
                proof {
                    lemma_p2_mono(e.width as nat, 127);
                }
                let m = raw % p;
                // The low bits do not change the wrapped value.
                proof {
                    let w = e.width as nat;
                    let pp = p2(w);
                    assert((raw as int) % pp == (m as int) % pp) by (nonlinear_arith)
                        requires m as int == (raw as int) % pp, pp >= 1;
                    if w > 0 {
                        assert(pp == 2 * p2((w - 1) as nat));
                    }
                }
                assert(wrap(raw as int, e.width as nat, e.signed) == wrap(m as int, e.width as nat, e.signed));
                wrap_i128(m as i128, e.width, e.signed)
            }
        },
        IrExprKind::Fill(f) => {
            let r = fill_i128(*f, e.width, e.signed);
            assert(r is Some <==> fold_spec(*e) is Some);
            r
        },
        IrExprKind::Concat(part) => {
            let r = match fold_i128(part) {
                Some(v) => wrap_i128(v, e.width, e.signed),
                None => None,
            };
            assert(r is Some <==> fold_spec(*e) is Some);
            r
        },
        IrExprKind::Convert(operand) => {
            let (filled, f) = has_fill_exec(operand);
            let r = if filled {
                fill_i128(f, e.width, e.signed)
            } else {
                match fold_i128(operand) {
                    Some(v) => wrap_i128(v, e.width, e.signed),
                    None => None,
                }
            };
            assert(r is Some <==> fold_spec(*e) is Some);
            r
        },
        IrExprKind::Bin { op, a, b } => {
            let x = fold_i128(a);
            let y = fold_i128(b);
            match (x, y) {
                (Some(x), Some(y)) => {
                    let r = match op {
                        IrBinOp::Add => x.checked_add(y),
                        IrBinOp::Sub => x.checked_sub(y),
                        IrBinOp::Mul => x.checked_mul(y),
                    };
                    let r = match r {
                        Some(r) => wrap_i128(r, e.width, e.signed),
                        None => None,
                    };
                    assert(r is Some <==> fold_spec(*e) is Some);
                    r
                },
                _ => None,
            }
        },
        _ => None,
    }
}

} // verus!
