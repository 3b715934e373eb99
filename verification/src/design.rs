//! The elaborated design database the lowering reads, and the code
//! generator's collection state.
//!
//! Nodes live in an arena indexed by `usize`. A node's parent precedes it and
//! its children and sub-expressions follow it, so walks up the scope chain
//! and down the expression tree both terminate.

use vstd::prelude::*;
use crate::packed::PackedRange;
use crate::ir::IrExpr;
use crate::structural::IrLhs;

verus! {

#[derive(Clone, Copy, Debug, PartialEq, Eq, Structural)]
pub enum TypeKind {
    Logic,
    Reg,
    Bit,
    Int,
    Integer,
    Byte,
    ShortInt,
    LongInt,
    Time,
    Real,
    RealTime,
    ShortReal,
    String,
    Chandle,
    Class,
    Event,
    VirtualInterface,
    Void,
    Other,
}

/// A declared data type.
pub struct TypeInfo {
    pub kind: TypeKind,
    /// Class, interface or user type name.
    pub type_label: Option<String>,
    pub width: Option<u32>,
    pub signed: bool,
}

pub open spec fn is_real_kind(k: TypeKind) -> bool {
    k is Real || k is RealTime || k is ShortReal
}

pub open spec fn is_two_state_kind(k: TypeKind) -> bool {
    k is Bit || k is Int || k is Byte || k is ShortInt || k is LongInt
}

pub open spec fn is_handle_kind(k: TypeKind) -> bool {
    k is Chandle || k is Class
}

pub fn real_kind(k: &TypeKind) -> (r: bool)
    ensures
        r == is_real_kind(*k),
{
    matches!(k, TypeKind::Real | TypeKind::RealTime | TypeKind::ShortReal)
}

pub fn two_state_kind(k: &TypeKind) -> (r: bool)
    ensures
        r == is_two_state_kind(*k),
{
    matches!(k, TypeKind::Bit | TypeKind::Int | TypeKind::Byte | TypeKind::ShortInt | TypeKind::LongInt)
}

pub fn handle_kind(k: &TypeKind) -> (r: bool)
    ensures
        r == is_handle_kind(*k),
{
    matches!(k, TypeKind::Chandle | TypeKind::Class)
}

/// An explicit `static` or `automatic` qualifier on a subprogram local, as
/// the source shows it.
#[derive(Clone, Copy, Debug, PartialEq, Eq, Structural)]
pub enum LifetimeQualifier {
    Unqualified,
    Static,
    Automatic,
    Ambiguous,
    Unavailable,
}

#[derive(Clone, Copy, Debug, PartialEq, Eq, Structural)]
pub enum VariableLifetime {
    Automatic,
    Static,
    Unavailable,
}

#[derive(Clone, Copy, Debug, PartialEq, Eq, Structural)]
pub enum AlwaysKind {
    Always,
    Comb,
    Latch,
    FlipFlop,
    Unsupported,
}

pub enum ProcessKind {
    Initial,
    Final,
    Always { always_type: AlwaysKind },
}

#[derive(Clone, Copy, Debug, PartialEq, Eq, Structural)]
pub enum Direction {
    Input,
    Output,
    Inout,
    Ref,
    Mixed,
    Undirected,
    Unsupported,
}

#[derive(Clone, Copy, Debug, PartialEq, Eq, Structural)]
pub enum NetType {
    Wire,
    Tri,
    Uwire,
    Logic,
    Wand,
    TriAnd,
    Wor,
    TriOr,
    Tri0,
    Tri1,
    Supply0,
    Supply1,
    TriReg,
    Reg,
    Undeclared,
    Unsupported,
}

#[derive(Clone, Copy, Debug, PartialEq, Eq, Structural)]
pub enum JoinKind {
    All,
    Any,
    Detached,
}

#[allow(inconsistent_fields)]
pub enum StmtKind {
    Begin,
    /// A `for` loop: its declared loop variables and its body.
    For { vars: Vec<usize>, body: usize },
    /// A `foreach` loop: its iterator slots (omitted ones empty) and its body.
    Foreach { vars: Vec<Option<usize>>, body: usize },
    EventControl,
    DelayControl,
    CycleDelayControl,
    Wait,
    WaitOrder,
    WaitFork,
    Assign { blocking: bool, delayed: bool },
    Fork { join_kind: JoinKind },
    ProcContAssign,
    Force,
    Release,
    Deassign,
    EventTrigger,
    ConcurrentAssertion,
    Other,
}

/// The class of a primitive instance.
#[derive(Clone, Copy, Debug, PartialEq, Eq, Structural)]
pub enum PrimClass {
    Gate,
    Switch,
    Udp,
    Array,
}

/// The primitive type of a gate instance.
#[derive(Clone, Copy, Debug, PartialEq, Eq, Structural)]
pub enum PrimitiveType {
    And,
    Nand,
    Or,
    Nor,
    Xor,
    Xnor,
    Buf,
    Not,
    Bufif0,
    Bufif1,
    Notif0,
    Notif1,
    Pullup,
    Pulldown,
    /// Switches, transistors and every other primitive type.
    Other,
}

/// One terminal of a primitive instance: its direction and the expression
/// connected to it.
#[derive(Clone, Copy, Debug, PartialEq, Eq, Structural)]
pub struct GateTerm {
    pub direction: Direction,
    pub expr: usize,
}

/// A statement of a generated process body.
pub enum IrStmt {
    /// A blocking (`nba == false`) or nonblocking assignment.
    Assign { lhs: IrLhs, rhs: IrExpr, nba: bool },
    /// An inertially delayed continuous assignment (delay in ticks).
    InertialAssign { lhs: IrLhs, rhs: IrExpr, delay: u64 },
}

/// When a process runs: once at time zero, or whenever a signal it reads
/// changes.
pub enum IrShape {
    RunOnce,
    SensLoop { reads: Vec<usize> },
}

/// A generated process: its C function name, its label, its shape, its
/// body, and the design node it comes from.
pub struct IrProcess {
    pub name: String,
    pub label: String,
    pub shape: IrShape,
    pub body: Vec<IrStmt>,
    pub origin: usize,
}

#[allow(inconsistent_fields)]
pub enum ExprKind {
    Ref { target: Option<usize> },
    ScopeRef { target: usize },
    HierPath { refs: Vec<Option<usize>> },
    Cast { operand: usize, ty: TypeInfo },
    ArraySelect { base: usize, indices: Vec<usize> },
    BitSelect { base: usize, index: usize },
    PartSelect { base: usize, left: usize, right: usize },
    IndexedPartSelect { base: usize, base_expr: usize, width_expr: usize, neg: bool },
    /// An elaborated constant; `value` is its integral value when known.
    Constant { value: Option<i128>, null: bool },
    Concat { operands: Vec<usize>, reordered: bool },
    MultiConcat { operands: Vec<usize> },
    Assignment { operands: Vec<usize> },
    /// An assignment pattern `'{...}`; `reordered` when its operands are
    /// stored last to first.
    AssignmentPattern { operands: Vec<usize>, reordered: bool },
    /// One `key: value` item of a keyed assignment pattern; the key is its
    /// source text.
    TaggedPattern { key: Option<String>, value: Option<usize> },
    /// A streaming concatenation; `streams` are the streamed expressions.
    Streaming { streams: Vec<usize> },
    Unbounded,
    Other,
}

pub enum NodeKind {
    ModuleInst { is_top: bool, is_interface: bool, def_name: String },
    InstanceArray,
    GenScope,
    GenScopeArray,
    /// A modport view, or one of its port items with the direction the
    /// modport gives it.
    ModPort { direction: Option<Direction> },
    Package,
    CompilationUnit,
    Port { direction: Direction, high: Option<usize>, low: Option<usize>, high_expr: Option<usize> },
    Net { ty: TypeInfo, net_type: NetType },
    Var { ty: TypeInfo },
    Array { ty: TypeInfo },
    FuncArg { direction: Direction, ty: TypeInfo, const_ref: bool },
    FuncTask { is_task: bool, ret: Option<TypeInfo>, is_static: bool },
    Param { value: Option<i128> },
    Process { kind: ProcessKind },
    ContAssign { net_decl: bool },
    /// A primitive instance: its class, primitive type and terminals in
    /// declaration order.
    Gate { class: PrimClass, prim_type: PrimitiveType, terms: Vec<GateTerm> },
    Stmt(StmtKind),
    Expr(ExprKind),
    FuncCall { is_task: bool, callee: Option<usize>, builtin: BuiltinCall },
    Other,
}

/// A call the process-contract scan recognizes by its target.
#[derive(Clone, Copy, Debug, PartialEq, Eq, Structural)]
pub enum BuiltinCall {
    /// An ordinary function or task call.
    Plain,
    /// `process::self()`.
    ProcessSelf,
    /// `new` of a semaphore.
    SemaphoreNew,
    /// `new` of a mailbox.
    MailboxNew,
}

/// One design node with the database facts the lowering consults.
pub struct Node {
    pub name: String,
    pub parent: Option<usize>,
    pub children: Vec<usize>,
    pub kind: NodeKind,
    pub file: Option<String>,
    pub line: u32,
    pub col: u32,
    /// Elaborated hierarchical path of a scope (`tb.u0`); empty if unknown.
    pub instance_path: String,
    pub lifetime: VariableLifetime,
    pub lifetime_qualifier: LifetimeQualifier,
    pub initializer: Option<usize>,
    /// Whether the declared type is two-state.
    pub two_state: bool,
    /// The body statement of a subroutine.
    pub body: Option<usize>,
    /// Whether a module instance is a program instance.
    pub program: bool,
    pub clocking_var: bool,
    /// Whether a `begin` statement is a clocking block.
    pub clocking_block: bool,
    /// Declared packed dimensions of the node's type, outermost first.
    pub packed_dims: Vec<PackedRange>,
}

/// Expression kinds whose lowering recurses into another node.
pub open spec fn is_chain(k: NodeKind) -> bool {
    match k {
        NodeKind::Expr(e) => match e {
            ExprKind::Ref { .. } | ExprKind::ScopeRef { .. } | ExprKind::HierPath { .. }
            | ExprKind::Cast { .. } | ExprKind::ArraySelect { .. } | ExprKind::BitSelect { .. }
            | ExprKind::PartSelect { .. } | ExprKind::IndexedPartSelect { .. }
            | ExprKind::Concat { .. } | ExprKind::MultiConcat { .. }
            | ExprKind::Assignment { .. } => true,
            _ => false,
        },
        _ => false,
    }
}

/// A model signal allocated for a declaration.
pub struct SignalInfo {
    pub global: String,
    pub width: u32,
    pub signed: bool,
    pub two_state: bool,
    pub real: bool,
    pub shortreal: bool,
    pub ir: usize,
}

impl Clone for SignalInfo {
    fn clone(&self) -> (r: Self)
        ensures
            r == *self,
    {
        SignalInfo {
            global: self.global.clone(),
            width: self.width,
            signed: self.signed,
            two_state: self.two_state,
            real: self.real,
            shortreal: self.shortreal,
            ir: self.ir,
        }
    }
}

/// An unpacked fixed array: declared dimensions and element shape.
pub struct ArrayInfo {
    pub dims: Vec<(i32, i32)>,
    pub elem_width: u32,
    pub real: bool,
    pub is_net: bool,
    pub ir: usize,
}

/// Storage of a procedural declaration: a C local, or a hidden static signal.
pub struct ProcLocalInfo {
    pub c_name: String,
    pub width: u32,
    pub signed: bool,
    pub two_state: bool,
    pub static_signal: Option<SignalInfo>,
}

impl Clone for ProcLocalInfo {
    fn clone(&self) -> (r: Self)
        ensures
            r == *self,
    {
        ProcLocalInfo {
            c_name: self.c_name.clone(),
            width: self.width,
            signed: self.signed,
            two_state: self.two_state,
            static_signal: match &self.static_signal {
                Some(s) => Some(s.clone()),
                None => None,
            },
        }
    }
}

pub enum IrObjectType {
    Chandle,
    Process,
    Semaphore,
}

/// A model-backed runtime object (mailbox, process handle, semaphore).
pub struct IrObject {
    pub c_name: String,
    pub ty: IrObjectType,
}

/// A signal of the simulation model.
pub struct IrSignal {
    pub c_name: String,
    pub width: u32,
    pub signed: bool,
    pub two_state: bool,
    pub real: bool,
    /// Driver slot `(group, slot)` of a resolved-net contribution.
    pub net_driver: Option<(usize, u32)>,
    /// Whether the signal takes part in a true net alias.
    pub aliased: bool,
    /// The HDL name shown in waveforms, for signals that have one.
    pub hdl_name: Option<String>,
    /// Whether the signal is left out of the emitted model.
    pub omit: bool,
}

/// A resolved net shared by several drivers.
pub struct NetGroup {
    pub c_name: String,
    pub width: u32,
    pub signed: bool,
    pub n_drivers: u32,
    pub driver_strengths: Vec<(u8, u8)>,
}

#[derive(Clone, Copy, Debug, PartialEq, Eq, Structural)]
pub enum IrAssocKey {
    Integral,
    Wildcard,
    String,
}

#[derive(Clone, Copy, Debug, PartialEq, Eq, Structural)]
pub enum IrContainerKind {
    Dynamic,
    Queue,
    Associative { key: IrAssocKey },
}

pub enum IrContainerElement {
    Packed { width: u32, signed: bool },
    Real,
    String,
    Chandle,
    Container { kind: IrContainerKind, element: Box<IrContainerElement> },
}

impl Clone for IrContainerElement {
    fn clone(&self) -> (r: Self)
        ensures
            r == *self,
        decreases self,
    {
        match self {
            IrContainerElement::Packed { width, signed } => IrContainerElement::Packed { width: *width, signed: *signed },
            IrContainerElement::Real => IrContainerElement::Real,
            IrContainerElement::String => IrContainerElement::String,
            IrContainerElement::Chandle => IrContainerElement::Chandle,
            IrContainerElement::Container { kind, element } => IrContainerElement::Container {
                kind: *kind,
                element: Box::new((**element).clone()),
            },
        }
    }
}

pub struct IrContainer {
    pub kind: IrContainerKind,
    pub element: IrContainerElement,
}

/// The simulation model under construction.
pub struct IrModel {
    pub signals: Vec<IrSignal>,
    pub processes: Vec<IrProcess>,
    pub objects: Vec<IrObject>,
    pub net_groups: Vec<NetGroup>,
    pub containers: Vec<IrContainer>,
    pub virtual_interfaces: Vec<IrVirtualInterface>,
}

/// A member signal a virtual-interface handle can reach.
pub struct IrVirtualInterfaceMember {
    pub name: String,
    pub width: u32,
    pub signed: bool,
    pub two_state: bool,
}

/// A subroutine a virtual-interface handle can call, with its
/// implementation in each concrete instance.
pub struct IrVirtualInterfaceMethod {
    pub name: String,
    pub function: usize,
    pub instances: Vec<Option<usize>>,
}

/// The environment of one concrete interface instance: its storage slot
/// for each member and its function for each method.
pub struct IrVirtualInterfaceInstance {
    pub c_name: String,
    pub members: Vec<Option<usize>>,
    pub methods: Vec<Option<usize>>,
}

/// The descriptor of one virtual-interface type.
pub struct IrVirtualInterface {
    pub identity: String,
    pub members: Vec<IrVirtualInterfaceMember>,
    pub instances: Vec<IrVirtualInterfaceInstance>,
    pub methods: Vec<IrVirtualInterfaceMethod>,
}

} // verus!
