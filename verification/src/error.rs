use vstd::prelude::*;
use crate::disasm::{decimal_string, text};
use crate::pass::cps_rewrite::rewrite_01_inlining::decimal;
use vstd::string::{StrSliceExecFns, StringExecFns};

verus! {

/// A program exceeds one of the hard limits of the bytecode format or VM.
#[derive(Debug, Clone, PartialEq, Eq, Structural)]
pub enum CompileError {
    /// More defines than the `u16` global table can index.
    TooManyGlobals { count: usize, max: usize },
    /// Code does not fit in the `u16` code address space.
    CodeTooLarge { size: usize, max: usize },
    /// A byte-string literal longer than the `u8` length of `BYTES`.
    BytesLiteralTooLong { len: usize, max: usize },
    /// A closure captures more values than a heap object can hold.
    TooManyCaptures { count: usize, max: usize },
    /// A constructor has more fields than a heap object can hold.
    CtorTooWide { tag: u8, arity: usize, max: usize },
}

/// The message that describes an error.
pub open spec fn error_text(e: CompileError) -> Seq<char> {
    match e {
        CompileError::TooManyGlobals { count, max } => "too many top-level defines: "@ + decimal(count as nat)
            + " (max "@ + decimal(max as nat) + ")"@,
        CompileError::CodeTooLarge { size, max } => "bytecode too large: "@ + decimal(size as nat) + " bytes (max "@
            + decimal(max as nat) + ", code addresses are u16)"@,
        CompileError::BytesLiteralTooLong { len, max } => "byte-string literal too long: "@ + decimal(len as nat)
            + " bytes (max "@ + decimal(max as nat) + ")"@,
        CompileError::TooManyCaptures { count, max } => "closure captures too many values: "@ + decimal(
            count as nat,
        ) + " (max "@ + decimal(max as nat) + ")"@,
        CompileError::CtorTooWide { tag, arity, max } => "constructor tag "@ + decimal(tag as nat)
            + " has too many fields: "@ + decimal(arity as nat) + " (max "@ + decimal(max as nat) + ")"@,
    }
}

/// `head`, the number `a`, `mid`, the number `b`, and `tail`.
fn two_numbers(head: &str, a: usize, mid: &str, b: usize, tail: &str) -> (r: String)
    ensures
        r@ == head@ + decimal(a as nat) + mid@ + decimal(b as nat) + tail@,
{
    let mut r = text(head);
    let x = decimal_string(a);
    r.append(x.as_str());
    r.append(mid);
    let y = decimal_string(b);
    r.append(y.as_str());
    r.append(tail);
    r
}

impl CompileError {
    /// The message that describes the error.
    pub fn message(&self) -> (r: String)
        ensures
            r@ == error_text(*self),
    {
        match self {
            CompileError::TooManyGlobals { count, max } => two_numbers(
                "too many top-level defines: ",
                *count,
                " (max ",
                *max,
                ")",
            ),
            CompileError::CodeTooLarge { size, max } => two_numbers(
                "bytecode too large: ",
                *size,
                " bytes (max ",
                *max,
                ", code addresses are u16)",
            ),
            CompileError::BytesLiteralTooLong { len, max } => two_numbers(
                "byte-string literal too long: ",
                *len,
                " bytes (max ",
                *max,
                ")",
            ),
            CompileError::TooManyCaptures { count, max } => two_numbers(
                "closure captures too many values: ",
                *count,
                " (max ",
                *max,
                ")",
            ),
            CompileError::CtorTooWide { tag, arity, max } => {
                let mut r = text("constructor tag ");
                let t = decimal_string(*tag as usize);
                r.append(t.as_str());
                let rest = two_numbers(" has too many fields: ", *arity, " (max ", *max, ")");
                r.append(rest.as_str());
                r
            },
        }
    }
}

} // verus!
