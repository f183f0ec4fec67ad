//! The instruction set and value bookkeeping of the builder: opcodes,
//! instruction records, value records and scalar classification.

use vstd::prelude::*;

use crate::types::Type;
use crate::types::TypeKind;

verus! {

/// A value slot inside one function, by position in its value table.
pub type ValId = usize;

/// A label inside one function, by position in its label table.
pub type LabelId = usize;

/// A function inside one context, by position in its function table.
pub type FuncId = usize;

/// A registered host callback inside one context, by position in its
/// callback table.
pub type CallbackId = usize;

/// The two-operand operations: arithmetic, bitwise, shifts and comparisons.
#[derive(Clone, Copy, Debug, PartialEq, Eq, Structural)]
pub enum BinOp {
    Add,
    Sub,
    Mul,
    Div,
    Rem,
    And,
    Or,
    Xor,
    Shl,
    Shr,
    CmpEq,
    CmpNe,
    CmpLt,
    CmpLe,
    CmpGt,
    CmpGe,
}

/// The one-operand operations.
#[derive(Clone, Copy, Debug, PartialEq, Eq, Structural)]
pub enum UnOp {
    Neg,
    Not,
}

/// Flags a call site may assert: request tail-call lowering, and promise
/// that the callee does not unwind.
#[derive(Clone, Copy, Debug, PartialEq, Eq, Structural)]
pub struct CallFlags {
    pub tail: bool,
    pub no_throw: bool,
}

impl CallFlags {
    /// No flag set.
    pub fn none() -> (r: CallFlags)
        ensures
            r == (CallFlags { tail: false, no_throw: false }),
    {
        CallFlags { tail: false, no_throw: false }
    }
}

/// One instruction of a function body, in the order appended. Branches name
/// labels, which the compile step resolves to instruction positions.
pub enum Insn {
    Binary { op: BinOp, dest: ValId, a: ValId, b: ValId },
    Unary { op: UnOp, dest: ValId, a: ValId },
    Load { dest: ValId, src: ValId },
    Store { dest: ValId, src: ValId },
    LoadRelative { dest: ValId, ptr: ValId, offset: usize },
    StoreRelative { ptr: ValId, offset: usize, src: ValId },
    AddressOf { dest: ValId, src: ValId },
    Convert { dest: ValId, src: ValId },
    Call { callee: FuncId, args: Vec<ValId>, dest: Option<ValId>, flags: CallFlags },
    CallNative { callback: CallbackId, args: Vec<ValId>, dest: Option<ValId> },
    Branch { target: LabelId },
    BranchIf { cond: ValId, target: LabelId },
    BranchIfNot { cond: ValId, target: LabelId },
    JumpTable { index: ValId, targets: Vec<LabelId> },
    Return { src: ValId },
    DefaultReturn,
}

/// What a value slot is: a temporary scoped to the block it was made in, a
/// function-wide local, or a constant carrying its literal bits.
#[derive(Clone, Copy, Debug, PartialEq, Eq, Structural)]
pub enum ValueKind {
    Temporary { block: usize },
    Local,
    Constant { bits: u64 },
}

/// One value slot: the position of its type in the function's type table,
/// its lifetime kind, and whether its address may be taken.
#[derive(Clone, Copy, Debug, PartialEq, Eq, Structural)]
pub struct ValueInfo {
    pub tyx: usize,
    pub kind: ValueKind,
    pub addressable: bool,
}

/// The machine shape of a computable value: its byte width and whether its
/// bits are read as a signed quantity.
#[derive(Clone, Copy, Debug, PartialEq, Eq, Structural)]
pub struct Scalar {
    pub width: u8,
    pub signed: bool,
}

/// The machine shape of a type, when it has one: every integer kind, `bool`
/// and pointers are scalars the machine computes with; void, floats,
/// aggregates and signatures are not.
pub open spec fn spec_scalar_of(t: &Type) -> Option<Scalar> {
    match t {
        Type::Prim { kind } => match kind {
            TypeKind::Bool => Some(Scalar { width: 1, signed: false }),
            TypeKind::SByte => Some(Scalar { width: 1, signed: true }),
            TypeKind::UByte => Some(Scalar { width: 1, signed: false }),
            TypeKind::Short => Some(Scalar { width: 2, signed: true }),
            TypeKind::UShort => Some(Scalar { width: 2, signed: false }),
            TypeKind::Int => Some(Scalar { width: 4, signed: true }),
            TypeKind::UInt => Some(Scalar { width: 4, signed: false }),
            TypeKind::Long => Some(Scalar { width: 8, signed: true }),
            TypeKind::ULong => Some(Scalar { width: 8, signed: false }),
            TypeKind::NInt => Some(Scalar { width: 8, signed: true }),
            TypeKind::NUInt => Some(Scalar { width: 8, signed: false }),
            _ => None,
        },
        Type::Pointer { .. } => Some(Scalar { width: 8, signed: false }),
        _ => None,
    }
}

/// The machine shape of a type, decided.
pub fn scalar_of(t: &Type) -> (r: Option<Scalar>)
    ensures
        r == spec_scalar_of(t),
{
    match t {
        Type::Prim { kind } => match kind {
            TypeKind::Bool => Some(Scalar { width: 1, signed: false }),
            TypeKind::SByte => Some(Scalar { width: 1, signed: true }),
            TypeKind::UByte => Some(Scalar { width: 1, signed: false }),
            TypeKind::Short => Some(Scalar { width: 2, signed: true }),
            TypeKind::UShort => Some(Scalar { width: 2, signed: false }),
            TypeKind::Int => Some(Scalar { width: 4, signed: true }),
            TypeKind::UInt => Some(Scalar { width: 4, signed: false }),
            TypeKind::Long => Some(Scalar { width: 8, signed: true }),
            TypeKind::ULong => Some(Scalar { width: 8, signed: false }),
            TypeKind::NInt => Some(Scalar { width: 8, signed: true }),
            TypeKind::NUInt => Some(Scalar { width: 8, signed: false }),
            _ => None,
        },
        Type::Pointer { .. } => Some(Scalar { width: 8, signed: false }),
        _ => None,
    }
}

/// Whether a scalar's width is one the machine moves and computes: one,
/// two, four or eight bytes. Every scalar the type system produces has one
/// of these widths.
pub open spec fn valid_width(w: u8) -> bool {
    w == 1 || w == 2 || w == 4 || w == 8
}

/// Every scalar the classification yields has a machine width that agrees
/// with the type's byte size.
pub proof fn lemma_scalar_width(t: &Type)
    ensures
        spec_scalar_of(t) matches Some(s) ==> valid_width(s.width) && s.width
            == crate::types::spec_size(t),
{
}

/// Structurally equal types have one machine shape: the scalar reading of
/// a value depends on its type's structure alone.
pub proof fn lemma_ty_eq_scalar(a: &Type, b: &Type)
    requires
        crate::types::ty_eq(a, b),
    ensures
        spec_scalar_of(a) == spec_scalar_of(b),
{
}

} // verus!
