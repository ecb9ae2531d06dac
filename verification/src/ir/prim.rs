use vstd::prelude::*;

verus! {

/// Integer primitive operations.
#[derive(Debug, Clone, Copy, PartialEq, Eq, Structural)]
pub enum IntOp {
    Add,
    Sub,
    Mul,
    Eq,
    Lt,
    Byte,
    /// Truncating division, `x / 0 = 0`.
    Div,
    /// Truncating remainder, `x mod 0 = x`.
    Mod,
    /// Truncated subtraction, `max(a - b, 0)`.
    SubSat,
    Le,
    And,
    Or,
    Xor,
    Shl,
    /// Logical right shift of the 24-bit payload.
    Shr,
}

/// Byte-string primitive operations.
#[derive(Debug, Clone, Copy, PartialEq, Eq, Structural)]
pub enum BytesOp {
    Len,
    Get,
    Concat,
    Slice,
    Eq,
}

/// A primitive operation of the VM.
#[derive(Debug, Clone, Copy, PartialEq, Eq, Structural)]
pub enum PrimOp {
    Int(IntOp),
    Bytes(BytesOp),
}

impl PrimOp {
    /// How many operands the operation reads: one for `int.byte` and
    /// `bytes.len`, three for `bytes.slice`, two for the others.
    pub open spec fn operand_count(self) -> nat {
        match self {
            PrimOp::Int(IntOp::Byte) => 1,
            PrimOp::Bytes(BytesOp::Len) => 1,
            PrimOp::Bytes(BytesOp::Slice) => 3,
            _ => 2,
        }
    }
}

} // verus!
