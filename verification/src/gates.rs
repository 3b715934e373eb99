//! Builtin gate and pull primitives: the terminal shapes each admits, the
//! value each output terminal computes, and one process per output.
//!
//! The terminals reach `emit_gate` already lowered: input terminals as
//! expressions with the signals they read, output terminals as assignment
//! targets with their packed widths, and the driver strengths and scaled
//! delay of the instance.

use vstd::prelude::*;
use vstd::string::StringExecFns;
use crate::codegen::Codegen;
use crate::design::{
    NodeKind, PrimClass, PrimitiveType, GateTerm, Direction, IrStmt, IrShape, IrProcess, IrModel,
};
use crate::ir::{IrExpr, IrExprKind, IrBitOp};
use crate::structural::IrLhs;
use crate::processes::fn_name;
use crate::text::{decimal, decimal_string, owned};

verus! {

/// What a builtin primitive computes from its inputs.
#[derive(Clone, Copy, Debug, PartialEq, Eq, Structural)]
pub enum GateOp {
    /// A reduction by a bitwise operator, negated for `nand`, `nor`, `xnor`.
    Reduce(IrBitOp, bool),
    Copy,
    Not,
    /// `bufif*`/`notif*`: the data input, inverted or not, when the enable
    /// is active (high or low), else `z`.
    Enable { invert_out: bool, active_high: bool },
    /// `pullup` (ones) or `pulldown`.
    Pull(bool),
}

pub open spec fn gate_op(p: PrimitiveType) -> Option<GateOp> {
    match p {
        PrimitiveType::And => Some(GateOp::Reduce(IrBitOp::And, false)),
        PrimitiveType::Nand => Some(GateOp::Reduce(IrBitOp::And, true)),
        PrimitiveType::Or => Some(GateOp::Reduce(IrBitOp::Or, false)),
        PrimitiveType::Nor => Some(GateOp::Reduce(IrBitOp::Or, true)),
        PrimitiveType::Xor => Some(GateOp::Reduce(IrBitOp::Xor, false)),
        PrimitiveType::Xnor => Some(GateOp::Reduce(IrBitOp::Xor, true)),
        PrimitiveType::Buf => Some(GateOp::Copy),
        PrimitiveType::Not => Some(GateOp::Not),
        PrimitiveType::Bufif1 => Some(GateOp::Enable { invert_out: false, active_high: true }),
        PrimitiveType::Bufif0 => Some(GateOp::Enable { invert_out: false, active_high: false }),
        PrimitiveType::Notif1 => Some(GateOp::Enable { invert_out: true, active_high: true }),
        PrimitiveType::Notif0 => Some(GateOp::Enable { invert_out: true, active_high: false }),
        PrimitiveType::Pullup => Some(GateOp::Pull(true)),
        PrimitiveType::Pulldown => Some(GateOp::Pull(false)),
        PrimitiveType::Other => None,
    }
}

/// The positions of the terminals with direction `d`, in order.
pub open spec fn positions(terms: Seq<GateTerm>, d: Direction) -> Seq<int>
    decreases terms.len(),
{
    if terms.len() == 0 {
        Seq::empty()
    } else {
        let rest = positions(terms.drop_last(), d);
        if terms.last().direction == d { rest.push(terms.len() - 1) } else { rest }
    }
}

/// Whether the terminals fit the primitive: one output for a pull; one or
/// more outputs and one input for `buf`/`not`; one output and two inputs for
/// an enable gate; one output and at least one input for a logic gate, with
/// no other terminals.
pub open spec fn shape_ok(op: GateOp, terms: Seq<GateTerm>) -> bool {
    let outs = positions(terms, Direction::Output).len();
    let ins = positions(terms, Direction::Input).len();
    match op {
        GateOp::Pull(_) => terms.len() == 1 && outs == 1 && ins == 0,
        GateOp::Copy | GateOp::Not => outs >= 1 && ins == 1 && outs + ins == terms.len(),
        GateOp::Enable { .. } => terms.len() == 3 && outs == 1 && ins == 2,
        GateOp::Reduce(..) => terms.len() >= 2 && outs == 1 && ins >= 1 && outs + ins == terms.len(),
    }
}

pub open spec fn shape_rule(op: GateOp) -> Seq<char> {
    match op {
        GateOp::Pull(_) => "pullup/pulldown instance takes exactly one output terminal"@,
        GateOp::Copy | GateOp::Not =>
            "`buf`/`not` gates take one or more output terminals followed by exactly one input terminal"@,
        GateOp::Enable { .. } =>
            "enable gates take exactly one output, one data input and one enable input terminal"@,
        GateOp::Reduce(..) => "logic gates take exactly one output terminal plus at least one input terminal"@,
    }
}

pub open spec fn prim_type_name(p: PrimitiveType) -> Seq<char> {
    match p {
        PrimitiveType::And => "And"@,
        PrimitiveType::Nand => "Nand"@,
        PrimitiveType::Or => "Or"@,
        PrimitiveType::Nor => "Nor"@,
        PrimitiveType::Xor => "Xor"@,
        PrimitiveType::Xnor => "Xnor"@,
        PrimitiveType::Buf => "Buf"@,
        PrimitiveType::Not => "Not"@,
        PrimitiveType::Bufif0 => "Bufif0"@,
        PrimitiveType::Bufif1 => "Bufif1"@,
        PrimitiveType::Notif0 => "Notif0"@,
        PrimitiveType::Notif1 => "Notif1"@,
        PrimitiveType::Pullup => "Pullup"@,
        PrimitiveType::Pulldown => "Pulldown"@,
        PrimitiveType::Other => "Other"@,
    }
}

/// `e` read at `w` unsigned bits.
pub open spec fn resized(e: IrExpr, w: u32) -> IrExpr {
    IrExpr { kind: IrExprKind::Convert(Box::new(e)), width: w, signed: false, fill: None, real: false }
}

pub open spec fn bit_op(op: IrBitOp, a: IrExpr, b: IrExpr, w: u32) -> IrExpr {
    IrExpr { kind: IrExprKind::BitOp { op, a: Box::new(a), b: Box::new(b) }, width: w, signed: false, fill: None, real: false }
}

pub open spec fn bit_not(a: IrExpr, w: u32) -> IrExpr {
    IrExpr { kind: IrExprKind::BitNot(Box::new(a)), width: w, signed: false, fill: None, real: false }
}

/// Every bit `d` (0, 1, 2 for `x`, 3 for `z`) at `w` bits.
pub open spec fn fill_expr(d: u8, w: u32) -> IrExpr {
    IrExpr { kind: IrExprKind::Fill(d), width: w, signed: false, fill: None, real: false }
}

/// The first `k` inputs, resized to `w`, combined left to right by `op`.
pub open spec fn reduce_upto(op: IrBitOp, inputs: Seq<IrExpr>, w: u32, k: int) -> IrExpr
    decreases k,
{
    if k <= 1 {
        resized(inputs[0], w)
    } else {
        bit_op(op, reduce_upto(op, inputs, w, k - 1), resized(inputs[k - 1], w), w)
    }
}

/// The value an output terminal of `w` bits is driven with.
pub open spec fn gate_value(op: GateOp, inputs: Seq<IrExpr>, w: u32) -> IrExpr {
    match op {
        GateOp::Pull(ones) => fill_expr(if ones { 1u8 } else { 0u8 }, w),
        GateOp::Copy => resized(inputs[0], w),
        GateOp::Not => bit_not(resized(inputs[0], w), w),
        GateOp::Reduce(bop, neg) => {
            let acc = reduce_upto(bop, inputs, w, inputs.len() as int);
            if neg { bit_not(acc, w) } else { acc }
        },
        GateOp::Enable { invert_out, active_high } => {
            let data = resized(inputs[0], w);
            let en = resized(resized(inputs[1], w), 1);
            let both = bit_op(IrBitOp::Or, data, data, w);
            let driven = if invert_out { bit_not(both, w) } else { both };
            let z = fill_expr(3, w);
            IrExpr {
                kind: IrExprKind::Mux {
                    sel: Box::new(en),
                    a: Box::new(if active_high { driven } else { z }),
                    b: Box::new(if active_high { z } else { driven }),
                },
                width: w,
                signed: false,
                fill: None,
                real: false,
            }
        },
    }
}

/// The signals read by the inputs, each once, in first-read order.
pub open spec fn dedup(s: Seq<usize>) -> Seq<usize>
    decreases s.len(),
{
    if s.len() == 0 {
        s
    } else {
        let rest = dedup(s.drop_last());
        if rest.contains(s.last()) { rest } else { rest.push(s.last()) }
    }
}

/// `<path>.<shown>[output<j>]`.
pub open spec fn output_label(path: Seq<char>, shown: Seq<char>, j: nat) -> Seq<char> {
    path + "."@ + shown + "[output"@ + decimal(j) + "]"@
}

impl Codegen {
    /// The name a diagnostic gives gate `g`: its instance name, or `gate`.
    pub open spec fn gate_shown(&self, g: int) -> Seq<char> {
        if self.nodes@[g].name@.len() == 0 { "gate"@ } else { self.nodes@[g].name@ }
    }

    /// Why gate `g` cannot be emitted whatever its terminals lower to: its
    /// class, its primitive type, or the directions of its terminals.
    pub open spec fn gate_problem(&self, path: Seq<char>, g: int) -> Option<Seq<char>>
    {
        let shown = self.gate_shown(g);
        match self.kind(g) {
            NodeKind::Gate { class, prim_type, terms } => if class == PrimClass::Switch {
                Some("switch/transistor primitive `"@ + shown + "` in `"@ + path + "` is not supported"@)
            } else if class == PrimClass::Udp {
                Some("user-defined primitive instance `"@ + shown + "` in `"@ + path + "` is not supported"@)
            } else {
                match gate_op(prim_type) {
                    None => Some("primitive type "@ + prim_type_name(prim_type) + " of `"@ + shown + "` in `"@
                        + path + "` is not supported"@),
                    Some(op) => if !shape_ok(op, terms@) {
                        Some("gate `"@ + shown + "` in `"@ + path + "`: "@ + shape_rule(op) + " (found "@
                            + decimal(positions(terms@, Direction::Output).len()) + " output(s) among "@
                            + decimal(terms.len() as nat) + " terminals)"@)
                    } else {
                        None
                    },
                }
            },
            _ => Some(Seq::empty()),
        }
    }

    /// The first input terminal that is real or empty, then the first
    /// output terminal that is not packed or empty.
    pub open spec fn terminal_problem(&self, path: Seq<char>, g: int, inputs: Seq<IrExpr>, widths: Seq<Option<u32>>)
        -> Option<Seq<char>>
    {
        let shown = self.gate_shown(g);
        let terms = self.kind(g)->Gate_terms@;
        let ins = positions(terms, Direction::Input);
        let outs = positions(terms, Direction::Output);
        if exists|k: int| 0 <= k < inputs.len() && #[trigger] bad_input(inputs[k]) {
            let k = choose|k: int| 0 <= k < inputs.len() && #[trigger] bad_input(inputs[k])
                && forall|q: int| 0 <= q < k ==> !#[trigger] bad_input(inputs[q]);
            if inputs[k].real {
                Some("real-valued input terminal "@ + decimal(ins[k] as nat) + " of gate `"@ + shown + "` in `"@ + path
                    + "` is not supported"@)
            } else {
                Some("input terminal "@ + decimal(ins[k] as nat) + " of gate `"@ + shown + "` in `"@ + path
                    + "` has zero width"@)
            }
        } else if exists|k: int| 0 <= k < widths.len() && #[trigger] bad_width(widths[k]) {
            let k = choose|k: int| 0 <= k < widths.len() && #[trigger] bad_width(widths[k])
                && forall|q: int| 0 <= q < k ==> !#[trigger] bad_width(widths[q]);
            if widths[k] is None {
                Some("output terminal "@ + decimal(outs[k] as nat) + " of gate `"@ + shown + "` in `"@ + path
                    + "` must be a packed net or variable"@)
            } else {
                Some("output terminal "@ + decimal(outs[k] as nat) + " of gate `"@ + shown + "` in `"@ + path
                    + "` has zero width"@)
            }
        } else {
            None
        }
    }
}

/// An input terminal that is real-valued or has no bits.
pub open spec fn bad_input(e: IrExpr) -> bool {
    e.real || e.width == 0
}

/// An output terminal that is not packed or has no bits.
pub open spec fn bad_width(w: Option<u32>) -> bool {
    w is None || w == Some(0u32)
}

/// How many of the first `j` outputs write resolved group `grp`.
pub open spec fn terminal_of(groups: Seq<Option<usize>>, grp: usize, j: int) -> nat
    decreases j,
{
    if j <= 0 {
        0
    } else {
        terminal_of(groups, grp, j - 1) + if groups[j - 1] == Some(grp) { 1nat } else { 0nat }
    }
}

fn gate_op_of(p: PrimitiveType) -> (r: Option<GateOp>)
    ensures
        r == gate_op(p),
{
    match p {
        PrimitiveType::And => Some(GateOp::Reduce(IrBitOp::And, false)),
        PrimitiveType::Nand => Some(GateOp::Reduce(IrBitOp::And, true)),
        PrimitiveType::Or => Some(GateOp::Reduce(IrBitOp::Or, false)),
        PrimitiveType::Nor => Some(GateOp::Reduce(IrBitOp::Or, true)),
        PrimitiveType::Xor => Some(GateOp::Reduce(IrBitOp::Xor, false)),
        PrimitiveType::Xnor => Some(GateOp::Reduce(IrBitOp::Xor, true)),
        PrimitiveType::Buf => Some(GateOp::Copy),
        PrimitiveType::Not => Some(GateOp::Not),
        PrimitiveType::Bufif1 => Some(GateOp::Enable { invert_out: false, active_high: true }),
        PrimitiveType::Bufif0 => Some(GateOp::Enable { invert_out: false, active_high: false }),
        PrimitiveType::Notif1 => Some(GateOp::Enable { invert_out: true, active_high: true }),
        PrimitiveType::Notif0 => Some(GateOp::Enable { invert_out: true, active_high: false }),
        PrimitiveType::Pullup => Some(GateOp::Pull(true)),
        PrimitiveType::Pulldown => Some(GateOp::Pull(false)),
        PrimitiveType::Other => None,
    }
}

fn prim_name(p: PrimitiveType) -> (r: &'static str)
    ensures
        r@ == prim_type_name(p),
{
    match p {
        PrimitiveType::And => "And",
        PrimitiveType::Nand => "Nand",
        PrimitiveType::Or => "Or",
        PrimitiveType::Nor => "Nor",
        PrimitiveType::Xor => "Xor",
        PrimitiveType::Xnor => "Xnor",
        PrimitiveType::Buf => "Buf",
        PrimitiveType::Not => "Not",
        PrimitiveType::Bufif0 => "Bufif0",
        PrimitiveType::Bufif1 => "Bufif1",
        PrimitiveType::Notif0 => "Notif0",
        PrimitiveType::Notif1 => "Notif1",
        PrimitiveType::Pullup => "Pullup",
        PrimitiveType::Pulldown => "Pulldown",
        PrimitiveType::Other => "Other",
    }
}

fn rule_text(op: GateOp) -> (r: &'static str)
    ensures
        r@ == shape_rule(op),
{
    match op {
        GateOp::Pull(_) => "pullup/pulldown instance takes exactly one output terminal",
        GateOp::Copy | GateOp::Not =>
            "`buf`/`not` gates take one or more output terminals followed by exactly one input terminal",
        GateOp::Enable { .. } => "enable gates take exactly one output, one data input and one enable input terminal",
        GateOp::Reduce(..) => "logic gates take exactly one output terminal plus at least one input terminal",
    }
}

/// The positions of the terminals with direction `d`.
fn positions_of(terms: &Vec<GateTerm>, d: Direction) -> (r: Vec<usize>)
    ensures
        r@.map_values(|i: usize| i as int) == positions(terms@, d),
        forall|k: int| 0 <= k < r.len() ==> #[trigger] r@[k] < terms.len(),
{
    let mut r: Vec<usize> = Vec::new();
    let mut i: usize = 0;
    while i < terms.len()
        invariant
            i <= terms.len(),
            r@.map_values(|q: usize| q as int) == positions(terms@.take(i as int), d),
            forall|k: int| 0 <= k < r.len() ==> #[trigger] r@[k] < i,
        decreases terms.len() - i,
    {
        assert(terms@.take(i + 1).drop_last() =~= terms@.take(i as int));
        if terms[i].direction == d {
            r.push(i);
        }
        i = i + 1;
        assert(r@.map_values(|q: usize| q as int) =~= positions(terms@.take(i as int), d));
    }
    assert(terms@.take(terms.len() as int) =~= terms@);
    r
}

fn resize(e: &IrExpr, w: u32) -> (r: IrExpr)
    ensures
        r == resized(*e, w),
{
    IrExpr { kind: IrExprKind::Convert(Box::new(e.clone())), width: w, signed: false, fill: None, real: false }
}

/// The value an output terminal of `w` bits is driven with.
fn build_gate_value(op: GateOp, inputs: &Vec<IrExpr>, w: u32) -> (r: IrExpr)
    requires
        match op {
            GateOp::Pull(_) => true,
            GateOp::Enable { .. } => inputs.len() >= 2,
            _ => inputs.len() >= 1,
        },
    ensures
        r == gate_value(op, inputs@, w),
{
    match op {
        GateOp::Pull(ones) => IrExpr { kind: IrExprKind::Fill(if ones { 1u8 } else { 0u8 }), width: w, signed: false,
            fill: None, real: false },
        GateOp::Copy => resize(&inputs[0], w),
        GateOp::Not => IrExpr { kind: IrExprKind::BitNot(Box::new(resize(&inputs[0], w))), width: w, signed: false,
            fill: None, real: false },
        GateOp::Reduce(bop, neg) => {
            let mut acc = resize(&inputs[0], w);
            let mut k: usize = 1;
            while k < inputs.len()
                invariant
                    1 <= k <= inputs.len(),
                    acc == reduce_upto(bop, inputs@, w, k as int),
                decreases inputs.len() - k,
            {
                let next = resize(&inputs[k], w);
                acc = IrExpr { kind: IrExprKind::BitOp { op: bop, a: Box::new(acc), b: Box::new(next) }, width: w,
                    signed: false, fill: None, real: false };
                k = k + 1;
            }
            if neg {
                IrExpr { kind: IrExprKind::BitNot(Box::new(acc)), width: w, signed: false, fill: None, real: false }
            } else {
                acc
            }
        },
        GateOp::Enable { invert_out, active_high } => {
            let data = resize(&inputs[0], w);
            let en = resize(&resize(&inputs[1], w), 1);
            let both = IrExpr { kind: IrExprKind::BitOp { op: IrBitOp::Or, a: Box::new(data.clone()), b: Box::new(data) },
                width: w, signed: false, fill: None, real: false };
            let driven = if invert_out {
                IrExpr { kind: IrExprKind::BitNot(Box::new(both)), width: w, signed: false, fill: None, real: false }
            } else {
                both
            };
            let z = IrExpr { kind: IrExprKind::Fill(3), width: w, signed: false, fill: None, real: false };
            let (a, b) = if active_high { (driven, z) } else { (z, driven) };
            IrExpr { kind: IrExprKind::Mux { sel: Box::new(en), a: Box::new(a), b: Box::new(b) }, width: w, signed: false,
                fill: None, real: false }
        },
    }
}

/// The signals the inputs read, each once, in first-read order.
fn sensitivity(reads: &Vec<usize>) -> (r: Vec<usize>)
    ensures
        r@ == dedup(reads@),
{
    let mut r: Vec<usize> = Vec::new();
    let mut k: usize = 0;
    while k < reads.len()
        invariant
            k <= reads.len(),
            r@ == dedup(reads@.take(k as int)),
        decreases reads.len() - k,
    {
        let x = reads[k];
        assert(reads@.take(k + 1).drop_last() =~= reads@.take(k as int));
        let mut found = false;
        let mut q: usize = 0;
        while q < r.len()
            invariant
                q <= r.len(),
                found <==> exists|t: int| 0 <= t < q && r@[t] == x,
            decreases r.len() - q,
        {
            if r[q] == x {
                found = true;
            }
            q = q + 1;
        }
        if !found {
            r.push(x);
        }
        k = k + 1;
    }
    assert(reads@.take(reads.len() as int) =~= reads@);
    r
}

/// The signals that inertial drivers of the given processes assign as a
/// whole, in process order.
pub open spec fn whole_inertial_targets(procs: Seq<IrProcess>) -> Seq<usize>
    decreases procs.len(),
{
    if procs.len() == 0 {
        Seq::empty()
    } else {
        let rest = whole_inertial_targets(procs.drop_last());
        match procs.last().body@[0] {
            IrStmt::InertialAssign { lhs: IrLhs::Whole(i), .. } => rest.push(i),
            _ => rest,
        }
    }
}

/// A process runs once when it reads nothing, else whenever one of `reads`
/// changes.
pub open spec fn shape_for(shape: IrShape, reads: Seq<usize>) -> bool {
    match shape {
        IrShape::RunOnce => reads.len() == 0,
        IrShape::SensLoop { reads: r } => reads.len() > 0 && r@ == reads,
    }
}

impl Codegen {
    /// The primitive operation of gate `g`.
    pub open spec fn gate_op_of_node(&self, g: int) -> GateOp {
        gate_op(self.kind(g)->Gate_prim_type)->0
    }

    /// Process `p` is the one `emit_gate` makes from this state for output
    /// terminal `j`: named by the process counter, labelled by the output,
    /// sensitive to the deduplicated reads, with one assignment of the primitive's
    /// value to the target (to that target itself unless it writes a resolved
    /// net group), inertial when a delay is given.
    pub open spec fn gate_process(&self, p: IrProcess, path: Seq<char>, g: int, j: int, outputs: Seq<IrLhs>,
        widths: Seq<Option<u32>>, inputs: Seq<IrExpr>, reads: Seq<usize>, delay: Option<u64>) -> bool
    {
        let value = gate_value(self.gate_op_of_node(g), inputs, widths[j]->0);
        let target_ok = |lhs: IrLhs| self.group_spec(outputs[j]) is None ==> lhs == outputs[j];
        &&& p.name@ == fn_name(path, "gate"@, (self.proc_seq + j) as u64)
        &&& p.label@ == output_label(path, self.gate_shown(g), j as nat)
        &&& p.origin == g
        &&& shape_for(p.shape, dedup(reads))
        &&& p.body.len() == 1
        &&& match p.body@[0] {
            IrStmt::Assign { lhs, rhs, nba } => delay is None && !nba && rhs == value && target_ok(lhs),
            IrStmt::InertialAssign { lhs, rhs, delay: d } => delay == Some(d) && rhs == value && target_ok(lhs),
        }
    }

    /// `new` is `old` after `emit_gate` emitted every output of gate `g`.
    pub open spec fn gate_emitted(old: Codegen, new: Codegen, inst: usize, path: Seq<char>, g: int, outputs: Seq<IrLhs>,
        widths: Seq<Option<u32>>, inputs: Seq<IrExpr>, reads: Seq<usize>, delay: Option<u64>) -> bool
    {
        let base = old.model.processes.len();
        let n = outputs.len();
        &&& new.model.processes@.len() == base + n
        &&& new.model.processes@.take(base as int) == old.model.processes@
        &&& forall|j: int| 0 <= j < n ==> old.gate_process(#[trigger] new.model.processes@[base + j], path, g, j,
            outputs, widths, inputs, reads, delay)
        &&& new.proc_seq == old.proc_seq + n
        &&& new.delayed_driver_inits@ == old.delayed_driver_inits@
            + whole_inertial_targets(new.model.processes@.skip(base as int))
        &&& new == (Codegen {
            model: new.model,
            proc_seq: new.proc_seq,
            inst,
            structural_drivers: new.structural_drivers,
            structural_driver_sites: new.structural_driver_sites,
            structural_driver_terminal_sites: new.structural_driver_terminal_sites,
            delayed_driver_inits: new.delayed_driver_inits,
            ..old
        })
        &&& new.model == (IrModel {
            processes: new.model.processes,
            signals: new.model.signals,
            net_groups: new.model.net_groups,
            ..old.model
        })
    }

    fn gate_shown_name(&self, g: usize) -> (r: String)
        requires
            g < self.nodes.len(),
        ensures
            r@ == self.gate_shown(g as int),
    {
        if self.nodes[g].name.as_str().unicode_len() == 0 {
            owned("gate")
        } else {
            self.nodes[g].name.clone()
        }
    }

    /// The operation of gate `g`, or why its class, type or terminal
    /// directions rule it out.
    fn check_gate(&self, path: &str, g: usize) -> (r: Result<GateOp, String>)
        requires
            g < self.nodes.len(),
            self.kind(g as int) is Gate,
        ensures
            match r {
                Ok(op) => self.gate_problem(path@, g as int) is None && gate_op(self.kind(g as int)->Gate_prim_type)
                    == Some(op) && shape_ok(op, self.kind(g as int)->Gate_terms@),
                Err(m) => self.gate_problem(path@, g as int) == Some(m@),
            },
    {
        let shown = self.gate_shown_name(g);
        match &self.nodes[g].kind {
            NodeKind::Gate { class, prim_type, terms } => {
                match class {
                    PrimClass::Switch => {
                        let mut m = owned("switch/transistor primitive `");
                        m.append(shown.as_str());
                        m.append("` in `");
                        m.append(path);
                        m.append("` is not supported");
                        return Err(m);
                    },
                    PrimClass::Udp => {
                        let mut m = owned("user-defined primitive instance `");
                        m.append(shown.as_str());
                        m.append("` in `");
                        m.append(path);
                        m.append("` is not supported");
                        return Err(m);
                    },
                    _ => {},
                }
                let op = match gate_op_of(*prim_type) {
                    Some(op) => op,
                    None => {
                        let mut m = owned("primitive type ");
                        m.append(prim_name(*prim_type));
                        m.append(" of `");
                        m.append(shown.as_str());
                        m.append("` in `");
                        m.append(path);
                        m.append("` is not supported");
                        return Err(m);
                    },
                };
                let outs = positions_of(terms, Direction::Output);
                let ins = positions_of(terms, Direction::Input);
                proof {
                    assert(outs@.len() == outs@.map_values(|i: usize| i as int).len());
                    assert(ins@.len() == ins@.map_values(|i: usize| i as int).len());
                }
                let n_out = outs.len();
                let n_in = ins.len();
                let ok = match op {
                    GateOp::Pull(_) => terms.len() == 1 && n_out == 1 && n_in == 0,
                    GateOp::Copy | GateOp::Not => n_out >= 1 && n_in == 1 && n_out as u128 + n_in as u128
                        == terms.len() as u128,
                    GateOp::Enable { .. } => terms.len() == 3 && n_out == 1 && n_in == 2,
                    GateOp::Reduce(..) => terms.len() >= 2 && n_out == 1 && n_in >= 1 && n_out as u128
                        + n_in as u128 == terms.len() as u128,
                };
                if !ok {
                    let mut m = owned("gate `");
                    m.append(shown.as_str());
                    m.append("` in `");
                    m.append(path);
                    m.append("`: ");
                    m.append(rule_text(op));
                    m.append(" (found ");
                    m.append(decimal_string(n_out as u128).as_str());
                    m.append(" output(s) among ");
                    m.append(decimal_string(terms.len() as u128).as_str());
                    m.append(" terminals)");
                    return Err(m);
                }
                Ok(op)
            },
            _ => {
                proof {
                    assert(false);
                }
                Err(String::new())
            },
        }
    }

    /// The first input terminal that is real or empty, then the first output
    /// terminal that is not packed or empty, as a diagnostic.
    fn check_terminals(&self, path: &str, g: usize, inputs: &Vec<IrExpr>, widths: &Vec<Option<u32>>)
        -> (r: Result<(), String>)
        requires
            g < self.nodes.len(),
            self.kind(g as int) is Gate,
            inputs.len() == positions(self.kind(g as int)->Gate_terms@, Direction::Input).len(),
            widths.len() == positions(self.kind(g as int)->Gate_terms@, Direction::Output).len(),
        ensures
            match r {
                Ok(()) => self.terminal_problem(path@, g as int, inputs@, widths@) is None,
                Err(m) => self.terminal_problem(path@, g as int, inputs@, widths@) == Some(m@),
            },
    {
        let shown = self.gate_shown_name(g);
        let terms = match &self.nodes[g].kind {
            NodeKind::Gate { terms, .. } => terms,
            _ => {
                proof {
                    assert(false);
                }
                return Err(String::new());
            },
        };
        let ins = positions_of(terms, Direction::Input);
        let outs = positions_of(terms, Direction::Output);
        let ghost ins_s = positions(terms@, Direction::Input);
        let ghost outs_s = positions(terms@, Direction::Output);
        proof {
            assert(ins@.map_values(|i: usize| i as int).len() == ins@.len());
            assert(outs@.map_values(|i: usize| i as int).len() == outs@.len());
        }
        let mut k: usize = 0;
        while k < inputs.len()
            invariant
                k <= inputs.len(),
                inputs.len() == ins@.len(),
                shown@ == self.gate_shown(g as int),
                ins@.map_values(|i: usize| i as int) == ins_s,
                ins_s == positions(self.kind(g as int)->Gate_terms@, Direction::Input),
                forall|q: int| 0 <= q < k ==> !#[trigger] bad_input(inputs@[q]),
            decreases inputs.len() - k,
        {
            if inputs[k].real || inputs[k].width == 0 {
                let pos = ins[k];
                proof {
                    assert(ins@.map_values(|i: usize| i as int)[k as int] == pos as int);
                    assert(bad_input(inputs@[k as int]));
                    assert(exists|q: int| 0 <= q < inputs@.len() && #[trigger] bad_input(inputs@[q])
                        && forall|t: int| 0 <= t < q ==> !#[trigger] bad_input(inputs@[t]));
                    let c = choose|q: int| 0 <= q < inputs@.len() && #[trigger] bad_input(inputs@[q])
                        && forall|t: int| 0 <= t < q ==> !#[trigger] bad_input(inputs@[t]);
                    assert(c == k) by {
                        if c < k {
                            assert(!bad_input(inputs@[c]));
                        } else if c > k {
                            assert(!bad_input(inputs@[k as int]));
                        }
                    }
                }
                let mut m = if inputs[k].real { owned("real-valued input terminal ") } else { owned("input terminal ") };
                m.append(decimal_string(pos as u128).as_str());
                m.append(" of gate `");
                m.append(shown.as_str());
                m.append("` in `");
                m.append(path);
                if inputs[k].real {
                    m.append("` is not supported");
                } else {
                    m.append("` has zero width");
                }
                return Err(m);
            }
            assert(!bad_input(inputs@[k as int]));
            assert forall|q: int| 0 <= q < k + 1 implies !#[trigger] bad_input(inputs@[q]) by {
                if q < k {
                    assert(!bad_input(inputs@[q]));
                }
            }
            k = k + 1;
        }
        let mut k: usize = 0;
        while k < widths.len()
            invariant
                k <= widths.len(),
                widths.len() == outs@.len(),
                shown@ == self.gate_shown(g as int),
                outs@.map_values(|i: usize| i as int) == outs_s,
                outs_s == positions(self.kind(g as int)->Gate_terms@, Direction::Output),
                forall|q: int| 0 <= q < inputs.len() ==> !#[trigger] bad_input(inputs@[q]),
                forall|q: int| 0 <= q < k ==> !#[trigger] bad_width(widths@[q]),
            decreases widths.len() - k,
        {
            let bad = match widths[k] {
                Some(w) => w == 0,
                None => true,
            };
            if bad {
                let pos = outs[k];
                proof {
                    assert(outs@.map_values(|i: usize| i as int)[k as int] == pos as int);
                    assert(bad_width(widths@[k as int]));
                    assert(exists|q: int| 0 <= q < widths@.len() && #[trigger] bad_width(widths@[q])
                        && forall|t: int| 0 <= t < q ==> !#[trigger] bad_width(widths@[t]));
                    let c = choose|q: int| 0 <= q < widths@.len() && #[trigger] bad_width(widths@[q])
                        && forall|t: int| 0 <= t < q ==> !#[trigger] bad_width(widths@[t]);
                    assert(c == k) by {
                        if c < k {
                            assert(!bad_width(widths@[c]));
                        } else if c > k {
                            assert(!bad_width(widths@[k as int]));
                        }
                    }
                }
                let mut m = owned("output terminal ");
                m.append(decimal_string(pos as u128).as_str());
                m.append(" of gate `");
                m.append(shown.as_str());
                m.append("` in `");
                m.append(path);
                if widths[k].is_none() {
                    m.append("` must be a packed net or variable");
                } else {
                    m.append("` has zero width");
                }
                return Err(m);
            }
            k = k + 1;
        }
        Ok(())
    }
}

impl Codegen {
    /// Lower gate `g` of instance `inst` into one process per output
    /// terminal. The terminals arrive lowered: `inputs` for the input
    /// terminals in order, `reads` the signals they read, `outputs` the
    /// targets of the output terminals with their packed `widths`;
    /// `strengths` and `delay` are the instance's driver strengths and scaled
    /// delay. Each process assigns the output's width of the primitive's value to
    /// its target, once when the inputs read nothing and otherwise whenever
    /// one of them changes; with a delay the assignment is inertial. An
    /// output that writes a resolved net group drives that group through
    /// the contribution slot of its terminal number within the group.
    pub fn emit_gate(&mut self, inst: usize, path: &str, g: usize, outputs: Vec<IrLhs>, widths: Vec<Option<u32>>,
        inputs: Vec<IrExpr>, reads: Vec<usize>, strengths: (u8, u8), delay: Option<u64>) -> (r: Result<(), String>)
        requires
            g < old(self).nodes.len(),
            old(self).kind(g as int) is Gate,
            inputs.len() == positions(old(self).kind(g as int)->Gate_terms@, Direction::Input).len(),
            outputs.len() == positions(old(self).kind(g as int)->Gate_terms@, Direction::Output).len(),
            widths.len() == outputs.len(),
            old(self).proc_seq + outputs.len() <= u64::MAX,
            old(self).model.signals.len() + outputs.len() < usize::MAX,
        ensures
            old(self).gate_problem(path@, g as int) matches Some(m) ==> r matches Err(e) && e@ == m
                && *final(self) == *old(self),
            old(self).gate_problem(path@, g as int) is None ==> final(self).inst == inst,
            old(self).gate_problem(path@, g as int) is None ==> (old(self).terminal_problem(path@, g as int, inputs@,
                widths@) matches Some(m) ==> r matches Err(e) && e@ == m
                && *final(self) == (Codegen { inst, ..*old(self) })),
            r is Ok ==> old(self).gate_problem(path@, g as int) is None
                && old(self).terminal_problem(path@, g as int, inputs@, widths@) is None
                && Self::gate_emitted(*old(self), *final(self), inst, path@, g as int, outputs@, widths@, inputs@,
                    reads@, delay),
            old(self).gate_problem(path@, g as int) is None
                && old(self).terminal_problem(path@, g as int, inputs@, widths@) is None
                && (forall|k: int| 0 <= k < outputs.len() ==> (#[trigger] old(self).group_spec(outputs@[k])) is None)
                ==> r is Ok,
            r is Ok && (forall|k: int| 0 <= k < outputs.len() ==> (#[trigger] old(self).group_spec(outputs@[k])) is None)
                ==> final(self).model.signals == old(self).model.signals
                && final(self).model.net_groups == old(self).model.net_groups
                && final(self).structural_drivers == old(self).structural_drivers
                && final(self).structural_driver_sites == old(self).structural_driver_sites
                && final(self).structural_driver_terminal_sites == old(self).structural_driver_terminal_sites,
    {
        let op = match self.check_gate(path, g) {
            Ok(op) => op,
            Err(m) => return Err(m),
        };
        let n = outputs.len();
        let mut groups: Vec<Option<usize>> = Vec::new();
        let mut k: usize = 0;
        while k < n
            invariant
                k <= n,
                n == outputs.len(),
                groups.len() == k,
                forall|q: int| 0 <= q < k ==> #[trigger] groups@[q] == old(self).group_spec(outputs@[q]),
                *self == *old(self),
            decreases n - k,
        {
            groups.push(self.structural_group_for_lhs(&outputs[k]));
            k = k + 1;
        }
        self.inst = inst;
        match self.check_terminals(path, g, &inputs, &widths) {
            Ok(()) => {},
            Err(m) => return Err(m),
        }
        let ghost c0 = *self;
        let ghost c_old = *old(self);
        assert(c0 == (Codegen { inst, ..c_old }));
        let ghost terms = self.kind(g as int)->Gate_terms@;
        assert(shape_ok(op, terms));
        let shown = self.gate_shown_name(g);
        let sens = sensitivity(&reads);
        let ghost base = c0.model.processes.len();
        let mut rest = outputs;
        let mut j: usize = 0;
        while j < n
            invariant
                j <= n,
                n == outputs.len(),
                n == widths.len(),
                rest@ == outputs@.skip(j as int),
                groups.len() == n,
                forall|q: int| 0 <= q < n ==> #[trigger] groups@[q] == c_old.group_spec(outputs@[q]),
                forall|q: int| 0 <= q < n ==> !#[trigger] bad_width(widths@[q]),
                shown@ == c0.gate_shown(g as int),
                c0 == (Codegen { inst, ..c_old }),
                c_old == *old(self),
                c_old.gate_problem(path@, g as int) is None,
                c_old.terminal_problem(path@, g as int, inputs@, widths@) is None,
                sens@ == dedup(reads@),
                shape_ok(op, terms),
                terms == c0.kind(g as int)->Gate_terms@,
                inputs.len() == positions(terms, Direction::Input).len(),
                gate_op(c0.kind(g as int)->Gate_prim_type) == Some(op),
                g < c0.nodes.len(),
                c0.proc_seq + n <= u64::MAX,
                c0.model.signals.len() + n < usize::MAX,
                self.model.signals.len() <= c0.model.signals.len() + j,
                self.proc_seq == c0.proc_seq + j,
                (forall|q: int| 0 <= q < j ==> (#[trigger] groups@[q]) is None) ==> {
                    &&& self.model.signals == c0.model.signals
                    &&& self.model.net_groups == c0.model.net_groups
                    &&& self.structural_drivers == c0.structural_drivers
                    &&& self.structural_driver_sites == c0.structural_driver_sites
                    &&& self.structural_driver_terminal_sites == c0.structural_driver_terminal_sites
                },
                self.model.processes@.len() == base + j,
                self.model.processes@.take(base as int) == c0.model.processes@,
                forall|q: int| 0 <= q < j ==> c_old.gate_process(#[trigger] self.model.processes@[base + q], path@,
                    g as int, q, outputs@, widths@, inputs@, reads@, delay),
                self.delayed_driver_inits@ == c0.delayed_driver_inits@
                    + whole_inertial_targets(self.model.processes@.skip(base as int)),
                *self == (Codegen {
                    model: self.model,
                    proc_seq: self.proc_seq,
                    structural_drivers: self.structural_drivers,
                    structural_driver_sites: self.structural_driver_sites,
                    structural_driver_terminal_sites: self.structural_driver_terminal_sites,
                    delayed_driver_inits: self.delayed_driver_inits,
                    ..c0
                }),
                self.model == (IrModel {
                    processes: self.model.processes,
                    signals: self.model.signals,
                    net_groups: self.model.net_groups,
                    ..c0.model
                }),
            decreases n - j,
        {
            assert(rest@.len() > 0);
            let raw = rest.remove(0);
            assert(rest@ =~= outputs@.skip(j + 1));
            assert(raw == outputs@[j as int]);
            let w: u32 = match widths[j] {
                Some(w) => w,
                None => 0,
            };
            assert(!bad_width(widths@[j as int]));
            let ghost before = *self;
            let lhs = match groups[j] {
                Some(grp) => {
                    let terminal = count_group(&groups, grp, j);
                    if terminal == 0 {
                        if self.structural_driver_signal(g, grp).is_none() {
                            proof {
                                assert(c_old.group_spec(outputs@[j as int]) is Some);
                            }
                            return Err(self.no_mapping(&shown, grp, g));
                        }
                    } else {
                        match self.add_structural_driver_for_terminal(grp, g, strengths, terminal) {
                            Ok(_) => {},
                            Err(e) => {
                                proof {
                                    assert(c_old.group_spec(outputs@[j as int]) is Some);
                                }
                                return Err(e);
                            },
                        }
                    }
                    match self.unmapped_structural_group_for_terminal(&raw, g, terminal) {
                        Some(unmapped) => {
                            proof {
                                assert(c_old.group_spec(outputs@[j as int]) is Some);
                            }
                            return Err(self.no_mapping(&shown, unmapped, g));
                        },
                        None => {},
                    }
                    self.remap_structural_lhs_for_terminal(raw, g, terminal)
                },
                None => raw,
            };
            assert(self.model.processes == before.model.processes);
            let value = build_gate_value(op, &inputs, w);
            let stmt = match delay {
                Some(d) => {
                    match &lhs {
                        IrLhs::Whole(i) => self.delayed_driver_inits.push(*i),
                        _ => {},
                    }
                    IrStmt::InertialAssign { lhs, rhs: value, delay: d }
                },
                None => IrStmt::Assign { lhs, rhs: value, nba: false },
            };
            let shape = if sens.len() == 0 {
                IrShape::RunOnce
            } else {
                let v = sens.clone();
                assert(v@ =~= sens@);
                IrShape::SensLoop { reads: v }
            };
            let name = self.new_fn_name(path, "gate");
            let mut label = owned(path);
            label.append(".");
            label.append(shown.as_str());
            label.append("[output");
            label.append(decimal_string(j as u128).as_str());
            label.append("]");
            let mut body: Vec<IrStmt> = Vec::new();
            body.push(stmt);
            let ghost procs_before = self.model.processes@;
            let ghost p = IrProcess { name, label, shape, body, origin: g };
            self.model.processes.push(IrProcess { name, label, shape, body, origin: g });
            proof {
                assert(self.model.processes@ =~= procs_before.push(p));
                assert(self.model.processes@.skip(base as int) =~= procs_before.skip(base as int).push(p));
                assert(procs_before.skip(base as int).push(p).drop_last() =~= procs_before.skip(base as int));
                assert(p.body@ =~= seq![stmt]);
                assert(self.model.processes@.take(base as int) =~= procs_before.take(base as int));
                assert(c_old.gate_process(p, path@, g as int, j as int, outputs@, widths@, inputs@, reads@, delay));
            }
            j = j + 1;
        }
        Ok(())
    }

    /// The diagnostic for a gate output that writes resolved group `group`
    /// with no contribution slot for gate `g`.
    fn no_mapping(&self, shown: &String, group: usize, g: usize) -> (r: String)
        requires
            g < self.nodes.len(),
    {
        let mut m = owned("gate `");
        m.append(shown.as_str());
        m.append("` has no structural driver mapping for resolved net group ");
        m.append(decimal_string(group as u128).as_str());
        m.append(" at ");
        m.append(self.source_location(g).as_str());
        m
    }
}

/// How many of the first `j` outputs write resolved group `grp`.
fn count_group(groups: &Vec<Option<usize>>, grp: usize, j: usize) -> (r: usize)
    requires
        j <= groups.len(),
    ensures
        r == terminal_of(groups@, grp, j as int),
        r <= j,
{
    let mut c: usize = 0;
    let mut q: usize = 0;
    while q < j
        invariant
            q <= j <= groups.len(),
            c == terminal_of(groups@, grp, q as int),
            c <= q,
        decreases j - q,
    {
        if groups[q] == Some(grp) {
            c = c + 1;
        }
        q = q + 1;
    }
    c
}

/// The operation each builtin primitive type performs: `and`, `or`, `xor`
/// reduce their inputs by that bitwise operator and `nand`, `nor`, `xnor`
/// negate the same reduction; `buf` copies and `not` inverts its input;
/// `bufif0/1` and `notif0/1` drive the (inverted for `notif`) data when the
/// enable is low/high and `z` otherwise; `pullup`/`pulldown` drive ones/zeros.
pub proof fn law_primitive_operations(p: PrimitiveType)
    ensures
        p == PrimitiveType::And ==> gate_op(p) == Some(GateOp::Reduce(IrBitOp::And, false)),
        p == PrimitiveType::Nand ==> gate_op(p) == Some(GateOp::Reduce(IrBitOp::And, true)),
        p == PrimitiveType::Or ==> gate_op(p) == Some(GateOp::Reduce(IrBitOp::Or, false)),
        p == PrimitiveType::Nor ==> gate_op(p) == Some(GateOp::Reduce(IrBitOp::Or, true)),
        p == PrimitiveType::Xor ==> gate_op(p) == Some(GateOp::Reduce(IrBitOp::Xor, false)),
        p == PrimitiveType::Xnor ==> gate_op(p) == Some(GateOp::Reduce(IrBitOp::Xor, true)),
        p == PrimitiveType::Buf ==> gate_op(p) == Some(GateOp::Copy),
        p == PrimitiveType::Not ==> gate_op(p) == Some(GateOp::Not),
        p == PrimitiveType::Bufif0 ==> gate_op(p) == Some(GateOp::Enable { invert_out: false, active_high: false }),
        p == PrimitiveType::Bufif1 ==> gate_op(p) == Some(GateOp::Enable { invert_out: false, active_high: true }),
        p == PrimitiveType::Notif0 ==> gate_op(p) == Some(GateOp::Enable { invert_out: true, active_high: false }),
        p == PrimitiveType::Notif1 ==> gate_op(p) == Some(GateOp::Enable { invert_out: true, active_high: true }),
        p == PrimitiveType::Pullup ==> gate_op(p) == Some(GateOp::Pull(true)),
        p == PrimitiveType::Pulldown ==> gate_op(p) == Some(GateOp::Pull(false)),
        p == PrimitiveType::Other ==> gate_op(p) is None,
{
}

/// The positive primitive whose output a negated one inverts.
pub open spec fn uninverted(p: PrimitiveType) -> PrimitiveType {
    match p {
        PrimitiveType::Nand => PrimitiveType::And,
        PrimitiveType::Nor => PrimitiveType::Or,
        PrimitiveType::Xnor => PrimitiveType::Xor,
        PrimitiveType::Not => PrimitiveType::Buf,
        _ => p,
    }
}

/// An output of a `nand`, `nor`, `xnor` or `not` gate is driven with the
/// bitwise negation, at the output's width, of the value the `and`, `or`,
/// `xor` or `buf` gate on the same inputs drives; and a gate of each of
/// these pairs drives something other than its partner.
pub proof fn law_negated_gates_invert(p: PrimitiveType, inputs: Seq<IrExpr>, w: u32)
    requires
        p == PrimitiveType::Nand || p == PrimitiveType::Nor || p == PrimitiveType::Xnor || p == PrimitiveType::Not,
        inputs.len() >= 1,
    ensures
        gate_value(gate_op(p)->0, inputs, w) == bit_not(gate_value(gate_op(uninverted(p))->0, inputs, w), w),
        gate_value(gate_op(p)->0, inputs, w) != gate_value(gate_op(uninverted(p))->0, inputs, w),
{
    let v = gate_value(gate_op(uninverted(p))->0, inputs, w);
    assert(bit_not(v, w).kind is BitNot);
    if v.kind is BitNot {
        assert(bit_not(v, w) != v) by {
            assert(decreases_to!(bit_not(v, w) => v));
        }
    }
}

/// The value a builtin primitive drives on an output of `w` bits, over all
/// inputs: an unsigned `w`-bit expression; for `and`/`or`/`xor` of two or
/// more inputs the named bitwise operation whose right operand is the last
/// input at `w` bits, for `nand`/`nor`/`xnor` the negation of that; `buf`
/// the input at `w` bits and `not` its negation; `pullup`/`pulldown` all
/// ones/zeros; an enable gate a one-bit-select mux between the data
/// (negated for `notif`) and all `z`, the data on the active enable level.
pub proof fn law_gate_value_shape(p: PrimitiveType, inputs: Seq<IrExpr>, w: u32)
    requires
        gate_op(p) is Some,
        inputs.len() >= 2 || (inputs.len() == 1 && !(gate_op(p)->0 is Enable)) || gate_op(p)->0 is Pull,
    ensures
        ({
            let v = gate_value(gate_op(p)->0, inputs, w);
            let n = inputs.len() as int;
            let last = resized(inputs[n - 1], w);
            let named = |q: PrimitiveType| match q {
                PrimitiveType::And | PrimitiveType::Nand => IrBitOp::And,
                PrimitiveType::Or | PrimitiveType::Nor => IrBitOp::Or,
                _ => IrBitOp::Xor,
            };
            &&& v.width == w && !v.signed && v.fill is None && !v.real
            &&& (p == PrimitiveType::And || p == PrimitiveType::Or || p == PrimitiveType::Xor) && n >= 2
                ==> (v.kind matches IrExprKind::BitOp { op, b, .. } && op == named(p) && *b == last)
            &&& (p == PrimitiveType::Nand || p == PrimitiveType::Nor || p == PrimitiveType::Xnor) && n >= 2
                ==> (v.kind matches IrExprKind::BitNot(inner) && inner.kind matches IrExprKind::BitOp { op, b, .. }
                    && op == named(p) && *b == last && inner.width == w)
            &&& p == PrimitiveType::Buf ==> v == resized(inputs[0], w)
            &&& p == PrimitiveType::Not ==> (v.kind matches IrExprKind::BitNot(x) && *x == resized(inputs[0], w))
            &&& p == PrimitiveType::Pullup ==> v.kind == IrExprKind::Fill(1)
            &&& p == PrimitiveType::Pulldown ==> v.kind == IrExprKind::Fill(0)
            &&& (p == PrimitiveType::Bufif0 || p == PrimitiveType::Bufif1 || p == PrimitiveType::Notif0
                || p == PrimitiveType::Notif1) ==> (v.kind matches IrExprKind::Mux { sel, a, b } && sel.width == 1 && ({
                    let high = p == PrimitiveType::Bufif1 || p == PrimitiveType::Notif1;
                    let inverted = p == PrimitiveType::Notif0 || p == PrimitiveType::Notif1;
                    let (driven, off) = if high { (*a, *b) } else { (*b, *a) };
                    &&& off.kind == IrExprKind::Fill(3)
                    &&& inverted ==> driven.kind is BitNot
                    &&& !inverted ==> (driven.kind matches IrExprKind::BitOp { op, a: x, b: y }
                        && op == IrBitOp::Or && *x == resized(inputs[0], w) && *y == resized(inputs[0], w))
                }))
        }),
{
    law_primitive_operations(p);
}

} // verus!
