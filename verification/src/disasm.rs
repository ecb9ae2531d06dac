// Disassembly: the instructions of a program's code, with labels for entry
// points, functions and match branches, and comments naming what they use.
use vstd::prelude::*;
use crate::pass::asm_emit::Opcodes;
use crate::pass::asm_emit::{EState, all_distinct, stub_addr, all_opcodes, arg_moves, emit_expr_spec, emit_val_spec, insert_slot, int_bytes, strictly_increasing};
use crate::ir::asm_ir::{AExpr, AVal};
use crate::ir::prim::{IntOp, PrimOp};
use crate::pass::cps_rewrite::rewrite_01_inlining::decimal;
use crate::program::{PView, Program, ProgramError, copy_range, names_chars, parse_program, parse_spec, program_view, rd16, read16};
use vstd::string::StringExecFns;
use std::collections::BTreeMap;

verus! {

broadcast use vstd::laws_cmp::group_laws_cmp;

// ── Instructions ─────────────────────────────────────────────────────────────

/// A decoded instruction.
#[derive(Debug, PartialEq, Eq)]
pub enum Op {
    Fin { rs: u8 },
    Mov { rd: u8, rs: u8 },
    Capture { rd: u8, idx: u8 },
    Global { rd: u8, idx: u8 },
    Closure { rd: u8, target: u16, ncap: u8, caps: Vec<u8> },
    Function { rd: u8, target: u16 },
    Pack { rd: u8, tag: u8, fields: Vec<u8> },
    Field { rd: u8, rs: u8, idx: u8 },
    Unpack { rd: u8, tag: u8, rs: u8 },
    Match { rs: u8, table: Vec<(u8, u16)> },
    Encore { rf: u8, rk: u8 },
    Int { rd: u8, val: i32 },
    Int0 { rd: u8 },
    Int1 { rd: u8 },
    Int2 { rd: u8 },
    IntAdd { rd: u8, ra: u8, rb: u8 },
    IntSub { rd: u8, ra: u8, rb: u8 },
    IntMul { rd: u8, ra: u8, rb: u8 },
    IntEq { rd: u8, ra: u8, rb: u8 },
    IntLt { rd: u8, ra: u8, rb: u8 },
    Extern { rd: u8, slot: u16, ra: u8 },
    Unknown(u8),
}

pub enum OpV {
    Fin { rs: u8 },
    Mov { rd: u8, rs: u8 },
    Capture { rd: u8, idx: u8 },
    Global { rd: u8, idx: u8 },
    Closure { rd: u8, target: u16, ncap: u8, caps: Seq<u8> },
    Function { rd: u8, target: u16 },
    Pack { rd: u8, tag: u8, fields: Seq<u8> },
    Field { rd: u8, rs: u8, idx: u8 },
    Unpack { rd: u8, tag: u8, rs: u8 },
    Match { rs: u8, table: Seq<(u8, u16)> },
    Encore { rf: u8, rk: u8 },
    Int { rd: u8, val: i32 },
    Int0 { rd: u8 },
    Int1 { rd: u8 },
    Int2 { rd: u8 },
    IntAdd { rd: u8, ra: u8, rb: u8 },
    IntSub { rd: u8, ra: u8, rb: u8 },
    IntMul { rd: u8, ra: u8, rb: u8 },
    IntEq { rd: u8, ra: u8, rb: u8 },
    IntLt { rd: u8, ra: u8, rb: u8 },
    Extern { rd: u8, slot: u16, ra: u8 },
    Unknown(u8),
}

impl View for Op {
    type V = OpV;

    open spec fn view(&self) -> OpV {
        match *self {
            Op::Fin { rs } => OpV::Fin { rs },
            Op::Mov { rd, rs } => OpV::Mov { rd, rs },
            Op::Capture { rd, idx } => OpV::Capture { rd, idx },
            Op::Global { rd, idx } => OpV::Global { rd, idx },
            Op::Closure { rd, target, ncap, caps } => OpV::Closure { rd, target, ncap, caps: caps@ },
            Op::Function { rd, target } => OpV::Function { rd, target },
            Op::Pack { rd, tag, fields } => OpV::Pack { rd, tag, fields: fields@ },
            Op::Field { rd, rs, idx } => OpV::Field { rd, rs, idx },
            Op::Unpack { rd, tag, rs } => OpV::Unpack { rd, tag, rs },
            Op::Match { rs, table } => OpV::Match { rs, table: table@ },
            Op::Encore { rf, rk } => OpV::Encore { rf, rk },
            Op::Int { rd, val } => OpV::Int { rd, val },
            Op::Int0 { rd } => OpV::Int0 { rd },
            Op::Int1 { rd } => OpV::Int1 { rd },
            Op::Int2 { rd } => OpV::Int2 { rd },
            Op::IntAdd { rd, ra, rb } => OpV::IntAdd { rd, ra, rb },
            Op::IntSub { rd, ra, rb } => OpV::IntSub { rd, ra, rb },
            Op::IntMul { rd, ra, rb } => OpV::IntMul { rd, ra, rb },
            Op::IntEq { rd, ra, rb } => OpV::IntEq { rd, ra, rb },
            Op::IntLt { rd, ra, rb } => OpV::IntLt { rd, ra, rb },
            Op::Extern { rd, slot, ra } => OpV::Extern { rd, slot, ra },
            Op::Unknown(b) => OpV::Unknown(b),
        }
    }
}

/// The arity recorded for `tag`, 0 past the end of the table.
pub open spec fn arity_of(ar: Seq<(u8, u8)>, tag: u8) -> int {
    if (tag as int) < ar.len() {
        ar[tag as int].1 as int
    } else {
        0
    }
}

/// A 24-bit two's-complement value.
pub open spec fn int24(raw: int) -> i32 {
    if raw < 0x800000 {
        raw as i32
    } else {
        (raw - 0x1000000) as i32
    }
}

/// The instruction at `pc` and the position after it; `None` when its
/// operands run past the code, or a match's tags would pass 255.
pub open spec fn decode_op_spec(ops: Opcodes, code: Seq<u8>, ar: Seq<(u8, u8)>, pc: int) -> Option<(OpV, int)> {
    let b = code[pc];
    let p = pc + 1;
    let n = code.len();
    if b == ops.op_fin {
        if p + 1 <= n { Some((OpV::Fin { rs: code[p] }, p + 1)) } else { None }
    } else if b == ops.op_mov {
        if p + 2 <= n { Some((OpV::Mov { rd: code[p], rs: code[p + 1] }, p + 2)) } else { None }
    } else if b == ops.op_capture {
        if p + 2 <= n { Some((OpV::Capture { rd: code[p], idx: code[p + 1] }, p + 2)) } else { None }
    } else if b == ops.op_global {
        if p + 2 <= n { Some((OpV::Global { rd: code[p], idx: code[p + 1] }, p + 2)) } else { None }
    } else if b == ops.op_closure {
        if p + 4 <= n && p + 4 + code[p + 3] as int <= n {
            Some((OpV::Closure {
                rd: code[p],
                target: rd16(code, p + 1),
                ncap: code[p + 3],
                caps: code.subrange(p + 4, p + 4 + code[p + 3] as int),
            }, p + 4 + code[p + 3] as int))
        } else {
            None
        }
    } else if b == ops.op_function {
        if p + 3 <= n { Some((OpV::Function { rd: code[p], target: rd16(code, p + 1) }, p + 3)) } else { None }
    } else if b == ops.op_pack {
        if p + 2 <= n && p + 2 + arity_of(ar, code[p + 1]) <= n {
            Some((OpV::Pack {
                rd: code[p],
                tag: code[p + 1],
                fields: code.subrange(p + 2, p + 2 + arity_of(ar, code[p + 1])),
            }, p + 2 + arity_of(ar, code[p + 1])))
        } else {
            None
        }
    } else if b == ops.op_field {
        if p + 3 <= n { Some((OpV::Field { rd: code[p], rs: code[p + 1], idx: code[p + 2] }, p + 3)) } else { None }
    } else if b == ops.op_unpack {
        if p + 3 <= n { Some((OpV::Unpack { rd: code[p], tag: code[p + 1], rs: code[p + 2] }, p + 3)) } else { None }
    } else if b == ops.op_match {
        if p + 3 <= n && code[p + 1] + code[p + 2] <= 256 && p + 3 + 2 * code[p + 2] <= n {
            Some((OpV::Match {
                rs: code[p],
                table: Seq::new(code[p + 2] as nat, |j: int| ((code[p + 1] + j) as u8, rd16(code, p + 3 + 2 * j))),
            }, p + 3 + 2 * code[p + 2]))
        } else {
            None
        }
    } else if b == ops.op_encore {
        if p + 2 <= n { Some((OpV::Encore { rf: code[p], rk: code[p + 1] }, p + 2)) } else { None }
    } else if b == ops.op_int {
        if p + 4 <= n {
            Some((OpV::Int {
                rd: code[p],
                val: int24(code[p + 1] + 256 * code[p + 2] + 65536 * code[p + 3]),
            }, p + 4))
        } else {
            None
        }
    } else if b == ops.op_int_0 {
        if p + 1 <= n { Some((OpV::Int0 { rd: code[p] }, p + 1)) } else { None }
    } else if b == ops.op_int_1 {
        if p + 1 <= n { Some((OpV::Int1 { rd: code[p] }, p + 1)) } else { None }
    } else if b == ops.op_int_2 {
        if p + 1 <= n { Some((OpV::Int2 { rd: code[p] }, p + 1)) } else { None }
    } else if b == ops.op_int_add {
        if p + 3 <= n { Some((OpV::IntAdd { rd: code[p], ra: code[p + 1], rb: code[p + 2] }, p + 3)) } else { None }
    } else if b == ops.op_int_sub {
        if p + 3 <= n { Some((OpV::IntSub { rd: code[p], ra: code[p + 1], rb: code[p + 2] }, p + 3)) } else { None }
    } else if b == ops.op_int_mul {
        if p + 3 <= n { Some((OpV::IntMul { rd: code[p], ra: code[p + 1], rb: code[p + 2] }, p + 3)) } else { None }
    } else if b == ops.op_int_eq {
        if p + 3 <= n { Some((OpV::IntEq { rd: code[p], ra: code[p + 1], rb: code[p + 2] }, p + 3)) } else { None }
    } else if b == ops.op_int_lt {
        if p + 3 <= n { Some((OpV::IntLt { rd: code[p], ra: code[p + 1], rb: code[p + 2] }, p + 3)) } else { None }
    } else if b == ops.op_extern {
        if p + 4 <= n {
            Some((OpV::Extern { rd: code[p], slot: rd16(code, p + 1), ra: code[p + 3] }, p + 4))
        } else {
            None
        }
    } else {
        Some((OpV::Unknown(b), p))
    }
}

pub proof fn lemma_decode_op_advances(ops: Opcodes, code: Seq<u8>, ar: Seq<(u8, u8)>, pc: int)
    requires
        0 <= pc < code.len(),
    ensures
        decode_op_spec(ops, code, ar, pc) matches Some((_, q)) ==> pc < q <= code.len(),
{
}

/// The instructions from `pc` to the end of the code, each with its address.
pub open spec fn decode_from(ops: Opcodes, code: Seq<u8>, ar: Seq<(u8, u8)>, pc: int) -> Option<Seq<(u16, OpV)>>
    decreases code.len() - pc,
{
    if pc < 0 || pc >= code.len() {
        Some(Seq::empty())
    } else {
        match decode_op_spec(ops, code, ar, pc) {
            None => None,
            Some((op, q)) => {
                proof {
                    lemma_decode_op_advances(ops, code, ar, pc);
                }
                match decode_from(ops, code, ar, q) {
                    None => None,
                    Some(rest) => Some(seq![(pc as u16, op)] + rest),
                }
            },
        }
    }
}

/// Sign-extending the three low bytes that the emitter writes for a
/// 24-bit integer gives the integer back.
pub proof fn lemma_int24_of_bytes(n: i32)
    requires
        -0x800000 <= n < 0x800000,
    ensures
        int24(int_bytes(n)[0] + 256 * int_bytes(n)[1] + 65536 * int_bytes(n)[2]) == n,
{
    let bits = n as u32;
    let b0 = bits as u8;
    let b1 = (bits >> 8) as u8;
    let b2 = (bits >> 16) as u8;
    assert(b0 as u32 + 256 * (b1 as u32) + 65536 * (b2 as u32) == bits & 0xFFFFFF) by (bit_vector)
        requires
            b0 == bits as u8,
            b1 == (bits >> 8) as u8,
            b2 == (bits >> 16) as u8,
    ;
    let m = bits & 0xFFFFFF;
    if n >= 0 {
        assert(0 <= n < 0x800000 ==> (n as u32) & 0xFFFFFF == n as u32 && (n as u32) < 0x800000) by (bit_vector);
        assert(m as int == n as int);
    } else {
        assert(-0x800000 <= n < 0 ==> (n as u32) & 0xFFFFFF >= 0x800000 && ((n as u32) & 0xFFFFFF) as i32 - 0x1000000
            == n) by (bit_vector);
        assert(m as int - 0x1000000 == n as int);
    }
}

/// Decoding what the emitter writes for `let rd = n in fin rs`, with an
/// integer that takes the 24-bit form, gives the integer back, sign-extended
/// from its 24 bits, at address 0 and the return at address 5 (when the
/// integer's opcode is none that the decoder tries before it).
pub proof fn lemma_int_fin_roundtrip(ops: Opcodes, st: EState, ar: Seq<(u8, u8)>, rd: u8, rs: u8, n: i32)
    requires
        -0x800000 <= n < 0x800000,
        n != 0 && n != 1 && n != 2,
        st.buf.len() == 0,
        ops.op_int != ops.op_fin,
        ops.op_int != ops.op_mov,
        ops.op_int != ops.op_capture,
        ops.op_int != ops.op_global,
        ops.op_int != ops.op_closure,
        ops.op_int != ops.op_function,
        ops.op_int != ops.op_pack,
        ops.op_int != ops.op_field,
        ops.op_int != ops.op_unpack,
        ops.op_int != ops.op_match,
        ops.op_int != ops.op_encore,
    ensures
        emit_expr_spec(ops, st, AExpr::Let(rd, AVal::Int(n), Box::new(AExpr::Fin(rs)))).buf == seq![ops.op_int, rd]
            + int_bytes(n) + seq![ops.op_fin, rs],
        decode_from(ops, emit_expr_spec(ops, st, AExpr::Let(rd, AVal::Int(n), Box::new(AExpr::Fin(rs)))).buf, ar, 0)
            == Some(seq![(0u16, OpV::Int { rd, val: n }), (5u16, OpV::Fin { rs })]),
{
    let code = seq![ops.op_int, rd] + int_bytes(n) + seq![ops.op_fin, rs];
    let st1 = emit_val_spec(ops, st, rd, AVal::Int(n));
    assert(st1.buf =~= seq![ops.op_int, rd] + int_bytes(n));
    let st2 = emit_expr_spec(ops, st1, AExpr::Fin(rs));
    assert(st2.buf =~= code);
    assert(emit_expr_spec(ops, st, AExpr::Let(rd, AVal::Int(n), Box::new(AExpr::Fin(rs)))) == st2);
    assert(code.len() == 7);
    assert(code[0] == ops.op_int && code[1] == rd && code[5] == ops.op_fin && code[6] == rs);
    assert(code[2] == int_bytes(n)[0] && code[3] == int_bytes(n)[1] && code[4] == int_bytes(n)[2]);
    lemma_int24_of_bytes(n);
    assert(decode_op_spec(ops, code, ar, 0) == Some((OpV::Int { rd, val: n }, 5int)));
    assert(decode_op_spec(ops, code, ar, 5) == Some((OpV::Fin { rs }, 7int)));
    assert(decode_from(ops, code, ar, 7) == Some(Seq::<(u16, OpV)>::empty()));
    assert(decode_from(ops, code, ar, 5) =~= Some(seq![(5u16, OpV::Fin { rs })]));
    assert(decode_from(ops, code, ar, 0) =~= Some(seq![(0u16, OpV::Int { rd, val: n }), (5u16, OpV::Fin { rs })]));
}

/// With all opcodes different, each opcode the decoder tries differs from
/// every one it tries before it.
proof fn lemma_decoder_order(ops: Opcodes)
    requires
        all_distinct(all_opcodes(ops)),
    ensures
        ops.op_mov != ops.op_fin,
        ops.op_capture != ops.op_fin && ops.op_capture != ops.op_mov,
        ops.op_global != ops.op_fin && ops.op_global != ops.op_mov && ops.op_global != ops.op_capture,
        ops.op_closure != ops.op_fin && ops.op_closure != ops.op_mov && ops.op_closure != ops.op_capture && ops.op_closure != ops.op_global,
        ops.op_function != ops.op_fin && ops.op_function != ops.op_mov && ops.op_function != ops.op_capture && ops.op_function != ops.op_global && ops.op_function != ops.op_closure,
        ops.op_pack != ops.op_fin && ops.op_pack != ops.op_mov && ops.op_pack != ops.op_capture && ops.op_pack != ops.op_global && ops.op_pack != ops.op_closure && ops.op_pack != ops.op_function,
        ops.op_field != ops.op_fin && ops.op_field != ops.op_mov && ops.op_field != ops.op_capture && ops.op_field != ops.op_global && ops.op_field != ops.op_closure && ops.op_field != ops.op_function && ops.op_field != ops.op_pack,
        ops.op_unpack != ops.op_fin && ops.op_unpack != ops.op_mov && ops.op_unpack != ops.op_capture && ops.op_unpack != ops.op_global && ops.op_unpack != ops.op_closure && ops.op_unpack != ops.op_function && ops.op_unpack != ops.op_pack && ops.op_unpack != ops.op_field,
        ops.op_match != ops.op_fin && ops.op_match != ops.op_mov && ops.op_match != ops.op_capture && ops.op_match != ops.op_global && ops.op_match != ops.op_closure && ops.op_match != ops.op_function && ops.op_match != ops.op_pack && ops.op_match != ops.op_field && ops.op_match != ops.op_unpack,
        ops.op_encore != ops.op_fin && ops.op_encore != ops.op_mov && ops.op_encore != ops.op_capture && ops.op_encore != ops.op_global && ops.op_encore != ops.op_closure && ops.op_encore != ops.op_function && ops.op_encore != ops.op_pack && ops.op_encore != ops.op_field && ops.op_encore != ops.op_unpack && ops.op_encore != ops.op_match,
        ops.op_int != ops.op_fin && ops.op_int != ops.op_mov && ops.op_int != ops.op_capture && ops.op_int != ops.op_global && ops.op_int != ops.op_closure && ops.op_int != ops.op_function && ops.op_int != ops.op_pack && ops.op_int != ops.op_field && ops.op_int != ops.op_unpack && ops.op_int != ops.op_match && ops.op_int != ops.op_encore,
        ops.op_int_0 != ops.op_fin && ops.op_int_0 != ops.op_mov && ops.op_int_0 != ops.op_capture && ops.op_int_0 != ops.op_global && ops.op_int_0 != ops.op_closure && ops.op_int_0 != ops.op_function && ops.op_int_0 != ops.op_pack && ops.op_int_0 != ops.op_field && ops.op_int_0 != ops.op_unpack && ops.op_int_0 != ops.op_match && ops.op_int_0 != ops.op_encore && ops.op_int_0 != ops.op_int,
        ops.op_int_1 != ops.op_fin && ops.op_int_1 != ops.op_mov && ops.op_int_1 != ops.op_capture && ops.op_int_1 != ops.op_global && ops.op_int_1 != ops.op_closure && ops.op_int_1 != ops.op_function && ops.op_int_1 != ops.op_pack && ops.op_int_1 != ops.op_field && ops.op_int_1 != ops.op_unpack && ops.op_int_1 != ops.op_match && ops.op_int_1 != ops.op_encore && ops.op_int_1 != ops.op_int && ops.op_int_1 != ops.op_int_0,
        ops.op_int_2 != ops.op_fin && ops.op_int_2 != ops.op_mov && ops.op_int_2 != ops.op_capture && ops.op_int_2 != ops.op_global && ops.op_int_2 != ops.op_closure && ops.op_int_2 != ops.op_function && ops.op_int_2 != ops.op_pack && ops.op_int_2 != ops.op_field && ops.op_int_2 != ops.op_unpack && ops.op_int_2 != ops.op_match && ops.op_int_2 != ops.op_encore && ops.op_int_2 != ops.op_int && ops.op_int_2 != ops.op_int_0 && ops.op_int_2 != ops.op_int_1,
        ops.op_int_add != ops.op_fin && ops.op_int_add != ops.op_mov && ops.op_int_add != ops.op_capture && ops.op_int_add != ops.op_global && ops.op_int_add != ops.op_closure && ops.op_int_add != ops.op_function && ops.op_int_add != ops.op_pack && ops.op_int_add != ops.op_field && ops.op_int_add != ops.op_unpack && ops.op_int_add != ops.op_match && ops.op_int_add != ops.op_encore && ops.op_int_add != ops.op_int && ops.op_int_add != ops.op_int_0 && ops.op_int_add != ops.op_int_1 && ops.op_int_add != ops.op_int_2,
        ops.op_int_sub != ops.op_fin && ops.op_int_sub != ops.op_mov && ops.op_int_sub != ops.op_capture && ops.op_int_sub != ops.op_global && ops.op_int_sub != ops.op_closure && ops.op_int_sub != ops.op_function && ops.op_int_sub != ops.op_pack && ops.op_int_sub != ops.op_field && ops.op_int_sub != ops.op_unpack && ops.op_int_sub != ops.op_match && ops.op_int_sub != ops.op_encore && ops.op_int_sub != ops.op_int && ops.op_int_sub != ops.op_int_0 && ops.op_int_sub != ops.op_int_1 && ops.op_int_sub != ops.op_int_2 && ops.op_int_sub != ops.op_int_add,
        ops.op_int_mul != ops.op_fin && ops.op_int_mul != ops.op_mov && ops.op_int_mul != ops.op_capture && ops.op_int_mul != ops.op_global && ops.op_int_mul != ops.op_closure && ops.op_int_mul != ops.op_function && ops.op_int_mul != ops.op_pack && ops.op_int_mul != ops.op_field && ops.op_int_mul != ops.op_unpack && ops.op_int_mul != ops.op_match && ops.op_int_mul != ops.op_encore && ops.op_int_mul != ops.op_int && ops.op_int_mul != ops.op_int_0 && ops.op_int_mul != ops.op_int_1 && ops.op_int_mul != ops.op_int_2 && ops.op_int_mul != ops.op_int_add && ops.op_int_mul != ops.op_int_sub,
        ops.op_int_eq != ops.op_fin && ops.op_int_eq != ops.op_mov && ops.op_int_eq != ops.op_capture && ops.op_int_eq != ops.op_global && ops.op_int_eq != ops.op_closure && ops.op_int_eq != ops.op_function && ops.op_int_eq != ops.op_pack && ops.op_int_eq != ops.op_field && ops.op_int_eq != ops.op_unpack && ops.op_int_eq != ops.op_match && ops.op_int_eq != ops.op_encore && ops.op_int_eq != ops.op_int && ops.op_int_eq != ops.op_int_0 && ops.op_int_eq != ops.op_int_1 && ops.op_int_eq != ops.op_int_2 && ops.op_int_eq != ops.op_int_add && ops.op_int_eq != ops.op_int_sub && ops.op_int_eq != ops.op_int_mul,
        ops.op_int_lt != ops.op_fin && ops.op_int_lt != ops.op_mov && ops.op_int_lt != ops.op_capture && ops.op_int_lt != ops.op_global && ops.op_int_lt != ops.op_closure && ops.op_int_lt != ops.op_function && ops.op_int_lt != ops.op_pack && ops.op_int_lt != ops.op_field && ops.op_int_lt != ops.op_unpack && ops.op_int_lt != ops.op_match && ops.op_int_lt != ops.op_encore && ops.op_int_lt != ops.op_int && ops.op_int_lt != ops.op_int_0 && ops.op_int_lt != ops.op_int_1 && ops.op_int_lt != ops.op_int_2 && ops.op_int_lt != ops.op_int_add && ops.op_int_lt != ops.op_int_sub && ops.op_int_lt != ops.op_int_mul && ops.op_int_lt != ops.op_int_eq,
        ops.op_extern != ops.op_fin && ops.op_extern != ops.op_mov && ops.op_extern != ops.op_capture && ops.op_extern != ops.op_global && ops.op_extern != ops.op_closure && ops.op_extern != ops.op_function && ops.op_extern != ops.op_pack && ops.op_extern != ops.op_field && ops.op_extern != ops.op_unpack && ops.op_extern != ops.op_match && ops.op_extern != ops.op_encore && ops.op_extern != ops.op_int && ops.op_extern != ops.op_int_0 && ops.op_extern != ops.op_int_1 && ops.op_extern != ops.op_int_2 && ops.op_extern != ops.op_int_add && ops.op_extern != ops.op_int_sub && ops.op_extern != ops.op_int_mul && ops.op_extern != ops.op_int_eq && ops.op_extern != ops.op_int_lt,
{
    let s = all_opcodes(ops);
    assert(s[0] == ops.op_fin);
    assert(s[1] == ops.op_mov);
    assert(s[2] == ops.op_capture);
    assert(s[3] == ops.op_global);
    assert(s[4] == ops.op_closure);
    assert(s[5] == ops.op_function);
    assert(s[6] == ops.op_pack);
    assert(s[7] == ops.op_field);
    assert(s[8] == ops.op_unpack);
    assert(s[9] == ops.op_match);
    assert(s[11] == ops.op_encore);
    assert(s[12] == ops.op_int);
    assert(s[13] == ops.op_int_0);
    assert(s[14] == ops.op_int_1);
    assert(s[15] == ops.op_int_2);
    assert(s[17] == ops.op_int_add);
    assert(s[18] == ops.op_int_sub);
    assert(s[19] == ops.op_int_mul);
    assert(s[20] == ops.op_int_eq);
    assert(s[21] == ops.op_int_lt);
    assert(s[37] == ops.op_extern);
}

/// The bytes the emitter writes for `dest = v` after `st`.
pub open spec fn emitted(ops: Opcodes, st: EState, dest: u8, v: AVal) -> Seq<u8> {
    emit_val_spec(ops, st, dest, v).buf
}

/// Decoding what the emitter writes gives the instruction back, wherever
/// it stands in the code: a move, capture, global or field load with its
/// registers and index in place; a small integer or a 24-bit one with its
/// value; a binary integer operation with its destination and its two
/// operands in order; a constructor with its tag and fields (given the
/// constructor's arity); a return; a tail call with no arguments to move.
pub proof fn lemma_emitted_decodes(ops: Opcodes, st: EState, ar: Seq<(u8, u8)>, d: u8, v: AVal)
    requires
        all_distinct(all_opcodes(ops)),
    ensures
        v matches AVal::Reg(r) ==> decode_op_spec(ops, emitted(ops, st, d, v), ar, st.buf.len() as int) == Some(
            (OpV::Mov { rd: d, rs: r }, st.buf.len() as int + 3),
        ),
        v matches AVal::Capture(i) ==> decode_op_spec(ops, emitted(ops, st, d, v), ar, st.buf.len() as int) == Some(
            (OpV::Capture { rd: d, idx: i }, st.buf.len() as int + 3),
        ),
        v matches AVal::Global(i) ==> decode_op_spec(ops, emitted(ops, st, d, v), ar, st.buf.len() as int) == Some(
            (OpV::Global { rd: d, idx: i }, st.buf.len() as int + 3),
        ),
        v matches AVal::Field(r, i) ==> decode_op_spec(ops, emitted(ops, st, d, v), ar, st.buf.len() as int) == Some(
            (OpV::Field { rd: d, rs: r, idx: i }, st.buf.len() as int + 4),
        ),
        v == AVal::Int(0) ==> decode_op_spec(ops, emitted(ops, st, d, v), ar, st.buf.len() as int) == Some(
            (OpV::Int0 { rd: d }, st.buf.len() as int + 2),
        ),
        v == AVal::Int(1) ==> decode_op_spec(ops, emitted(ops, st, d, v), ar, st.buf.len() as int) == Some(
            (OpV::Int1 { rd: d }, st.buf.len() as int + 2),
        ),
        v == AVal::Int(2) ==> decode_op_spec(ops, emitted(ops, st, d, v), ar, st.buf.len() as int) == Some(
            (OpV::Int2 { rd: d }, st.buf.len() as int + 2),
        ),
        v matches AVal::Int(n) ==> (n != 0 && n != 1 && n != 2 && -0x800000 <= n < 0x800000 ==> decode_op_spec(
            ops,
            emitted(ops, st, d, v),
            ar,
            st.buf.len() as int,
        ) == Some((OpV::Int { rd: d, val: n }, st.buf.len() as int + 5))),
        v matches AVal::Prim(op, rs) ==> (rs.len() == 2 ==> {
            let p = st.buf.len() as int;
            let got = decode_op_spec(ops, emitted(ops, st, d, v), ar, p);
            &&& op == PrimOp::Int(IntOp::Add) ==> got == Some((OpV::IntAdd { rd: d, ra: rs[0], rb: rs[1] }, p + 4))
            &&& op == PrimOp::Int(IntOp::Sub) ==> got == Some((OpV::IntSub { rd: d, ra: rs[0], rb: rs[1] }, p + 4))
            &&& op == PrimOp::Int(IntOp::Mul) ==> got == Some((OpV::IntMul { rd: d, ra: rs[0], rb: rs[1] }, p + 4))
            &&& op == PrimOp::Int(IntOp::Eq) ==> got == Some((OpV::IntEq { rd: d, ra: rs[0], rb: rs[1] }, p + 4))
            &&& op == PrimOp::Int(IntOp::Lt) ==> got == Some((OpV::IntLt { rd: d, ra: rs[0], rb: rs[1] }, p + 4))
        }),
        v matches AVal::ContLam(c) ==> (c.captures.len() == 0 ==> decode_op_spec(
            ops,
            emitted(ops, st, d, v),
            ar,
            st.buf.len() as int,
        ) == Some((OpV::Function { rd: d, target: 0 }, st.buf.len() as int + 4))),
        v matches AVal::ContLam(c) ==> (0 < c.captures.len() < 256 ==> decode_op_spec(
            ops,
            emitted(ops, st, d, v),
            ar,
            st.buf.len() as int,
        ) == Some(
            (
                OpV::Closure { rd: d, target: 0, ncap: c.captures.len() as u8, caps: c.captures },
                st.buf.len() as int + 5 + c.captures.len(),
            ),
        )),
        v matches AVal::Extern(slot) ==> decode_op_spec(ops, emitted(ops, st, d, v), ar, st.buf.len() as int) == Some(
            (OpV::Function { rd: d, target: stub_addr(st.stubs, slot) }, st.buf.len() as int + 4),
        ),
        v matches AVal::Ctor(t, fs) ==> (arity_of(ar, t) == fs.len() ==> decode_op_spec(
            ops,
            emitted(ops, st, d, v),
            ar,
            st.buf.len() as int,
        ) == Some((OpV::Pack { rd: d, tag: t, fields: fs }, st.buf.len() as int + 3 + fs.len()))),
{
    lemma_decoder_order(ops);
    let p = st.buf.len() as int;
    let code = emitted(ops, st, d, v);
    match v {
        AVal::Int(n) => {
            if n != 0 && n != 1 && n != 2 && -0x800000 <= n < 0x800000 {
                lemma_int24_of_bytes(n);
                assert(code[p + 2] == int_bytes(n)[0] && code[p + 3] == int_bytes(n)[1] && code[p + 4] == int_bytes(n)[2]);
            }
        },
        AVal::Ctor(t, fs) => {
            if arity_of(ar, t) == fs.len() {
                assert(code.subrange(p + 3, p + 3 + fs.len()) =~= fs);
            }
        },
        AVal::ContLam(c) => {
            if 0 < c.captures.len() < 256 {
                assert(code.subrange(p + 5, p + 5 + c.captures.len()) =~= c.captures);
            }
            assert(rd16(code, p + 2) == 0);
        },
        AVal::Extern(slot) => {
            let a = stub_addr(st.stubs, slot);
            assert((a as u8) as int + 256 * ((a >> 8) as u8) as int == a) by (bit_vector);
        },
        _ => {},
    }
}

/// A return and a tail call with no arguments to move decode back as they
/// were written, wherever they stand.
pub proof fn lemma_emitted_exits_decode(ops: Opcodes, st: EState, ar: Seq<(u8, u8)>, r: u8, f: u8, k: u8)
    requires
        all_distinct(all_opcodes(ops)),
    ensures
        decode_op_spec(ops, emit_expr_spec(ops, st, AExpr::Fin(r)).buf, ar, st.buf.len() as int) == Some(
            (OpV::Fin { rs: r }, st.buf.len() as int + 2),
        ),
        decode_op_spec(ops, emit_expr_spec(ops, st, AExpr::Encore(f, Seq::empty(), k)).buf, ar, st.buf.len() as int)
            == Some((OpV::Encore { rf: f, rk: k }, st.buf.len() as int + 3)),
{
    lemma_decoder_order(ops);
    assert(arg_moves(ops, Seq::empty()) =~= Seq::<u8>::empty());
}

/// An instruction at its address, with the label and comment that the
/// listing shows.
pub struct Instr {
    pub addr: u16,
    pub label: Option<String>,
    pub op: Op,
    pub comment: Option<String>,
}

fn arity_at(ar: &[(u8, u8)], tag: u8) -> (r: usize)
    ensures
        r as int == arity_of(ar@, tag),
{
    if (tag as usize) < ar.len() {
        ar[tag as usize].1 as usize
    } else {
        0
    }
}

fn read_bytes(code: &[u8], from: usize, count: usize) -> (v: Vec<u8>)
    requires
        from + count <= code.len(),
    ensures
        v@ == code@.subrange(from as int, from + count),
{
    copy_range(code, from, from + count)
}

/// Decode the instruction at `pc`.
pub fn decode_op(ops: &Opcodes, code: &[u8], ar: &[(u8, u8)], pc: usize) -> (r: Option<(Op, usize)>)
    requires
        pc < code@.len(),
    ensures
        match r {
            Some((op, q)) => decode_op_spec(*ops, code@, ar@, pc as int) == Some((op@, q as int)),
            None => decode_op_spec(*ops, code@, ar@, pc as int) is None,
        },
{
    let n = code.len();
    let b = code[pc];
    let p = pc + 1;
    let left = n - p;
    if b == ops.op_fin {
        if left >= 1 { Some((Op::Fin { rs: code[p] }, p + 1)) } else { None }
    } else if b == ops.op_mov {
        if left >= 2 { Some((Op::Mov { rd: code[p], rs: code[p + 1] }, p + 2)) } else { None }
    } else if b == ops.op_capture {
        if left >= 2 { Some((Op::Capture { rd: code[p], idx: code[p + 1] }, p + 2)) } else { None }
    } else if b == ops.op_global {
        if left >= 2 { Some((Op::Global { rd: code[p], idx: code[p + 1] }, p + 2)) } else { None }
    } else if b == ops.op_closure {
        if left >= 4 && left - 4 >= code[p + 3] as usize {
            let ncap = code[p + 3];
            let caps = read_bytes(code, p + 4, ncap as usize);
            Some((Op::Closure { rd: code[p], target: read16(code, p + 1), ncap, caps }, p + 4 + ncap as usize))
        } else {
            None
        }
    } else if b == ops.op_function {
        if left >= 3 { Some((Op::Function { rd: code[p], target: read16(code, p + 1) }, p + 3)) } else { None }
    } else if b == ops.op_pack {
        if left >= 2 {
            let tag = code[p + 1];
            let k = arity_at(ar, tag);
            if left - 2 >= k {
                let fields = read_bytes(code, p + 2, k);
                Some((Op::Pack { rd: code[p], tag, fields }, p + 2 + k))
            } else {
                None
            }
        } else {
            None
        }
    } else if b == ops.op_field {
        if left >= 3 { Some((Op::Field { rd: code[p], rs: code[p + 1], idx: code[p + 2] }, p + 3)) } else { None }
    } else if b == ops.op_unpack {
        if left >= 3 { Some((Op::Unpack { rd: code[p], tag: code[p + 1], rs: code[p + 2] }, p + 3)) } else { None }
    } else if b == ops.op_match {
        if left >= 3 && (code[p + 1] as usize) + (code[p + 2] as usize) <= 256 && left - 3 >= 2 * (code[p + 2] as usize) {
            let rs = code[p];
            let base = code[p + 1];
            let cnt = code[p + 2];
            let mut table: Vec<(u8, u16)> = Vec::new();
            let mut j: u8 = 0;
            while j < cnt
                invariant
                    j <= cnt,
                    cnt == code@[p + 2],
                    base == code@[p + 1],
                    base + cnt <= 256,
                    p + 3 + 2 * cnt <= n,
                    n == code@.len(),
                    table@ =~= Seq::new(j as nat, |i: int| ((base + i) as u8, rd16(code@, p + 3 + 2 * i))),
                decreases cnt - j,
            {
                let t = read16(code, p + 3 + 2 * (j as usize));
                table.push((base + j, t));
                j += 1;
            }
            Some((Op::Match { rs, table }, p + 3 + 2 * (cnt as usize)))
        } else {
            None
        }
    } else if b == ops.op_encore {
        if left >= 2 { Some((Op::Encore { rf: code[p], rk: code[p + 1] }, p + 2)) } else { None }
    } else if b == ops.op_int {
        if left >= 4 {
            let raw: u32 = (code[p + 1] as u32) + (code[p + 2] as u32) * 256 + (code[p + 3] as u32) * 65536;
            let val: i32 = if raw < 0x800000 { raw as i32 } else { (raw as i32) - 0x1000000 };
            Some((Op::Int { rd: code[p], val }, p + 4))
        } else {
            None
        }
    } else if b == ops.op_int_0 {
        if left >= 1 { Some((Op::Int0 { rd: code[p] }, p + 1)) } else { None }
    } else if b == ops.op_int_1 {
        if left >= 1 { Some((Op::Int1 { rd: code[p] }, p + 1)) } else { None }
    } else if b == ops.op_int_2 {
        if left >= 1 { Some((Op::Int2 { rd: code[p] }, p + 1)) } else { None }
    } else if b == ops.op_int_add {
        if left >= 3 { Some((Op::IntAdd { rd: code[p], ra: code[p + 1], rb: code[p + 2] }, p + 3)) } else { None }
    } else if b == ops.op_int_sub {
        if left >= 3 { Some((Op::IntSub { rd: code[p], ra: code[p + 1], rb: code[p + 2] }, p + 3)) } else { None }
    } else if b == ops.op_int_mul {
        if left >= 3 { Some((Op::IntMul { rd: code[p], ra: code[p + 1], rb: code[p + 2] }, p + 3)) } else { None }
    } else if b == ops.op_int_eq {
        if left >= 3 { Some((Op::IntEq { rd: code[p], ra: code[p + 1], rb: code[p + 2] }, p + 3)) } else { None }
    } else if b == ops.op_int_lt {
        if left >= 3 { Some((Op::IntLt { rd: code[p], ra: code[p + 1], rb: code[p + 2] }, p + 3)) } else { None }
    } else if b == ops.op_extern {
        if left >= 4 {
            Some((Op::Extern { rd: code[p], slot: read16(code, p + 1), ra: code[p + 3] }, p + 4))
        } else {
            None
        }
    } else {
        Some((Op::Unknown(b), p))
    }
}


pub open spec fn instrs_view(v: Seq<Instr>) -> Seq<(u16, OpV)> {
    v.map_values(|i: Instr| (i.addr, i.op@))
}

/// Whether every instruction of the code is complete.
pub open spec fn decodable(ops: Opcodes, code: Seq<u8>, ar: Seq<(u8, u8)>) -> bool {
    decode_from(ops, code, ar, 0) is Some
}

/// The instructions of the code, or `None` where one runs past its end.
pub fn try_decode_instructions(ops: &Opcodes, code: &[u8], arity_table: &[(u8, u8)]) -> (r: Option<Vec<Instr>>)
    ensures
        match r {
            Some(v) => decode_from(*ops, code@, arity_table@, 0) == Some(instrs_view(v@))
                && forall|i: int| 0 <= i < v@.len() ==> (#[trigger] v@[i]).label is None && v@[i].comment is None,
            None => decode_from(*ops, code@, arity_table@, 0) is None,
        },
{
    let ghost whole = decode_from(*ops, code@, arity_table@, 0);
    let mut instrs: Vec<Instr> = Vec::new();
    let mut pc: usize = 0;
    while pc < code.len()
        invariant
            pc <= code@.len(),
            whole == decode_from(*ops, code@, arity_table@, 0),
            decode_from(*ops, code@, arity_table@, pc as int) is Some ==> whole is Some
                && whole->0 == instrs_view(instrs@) + decode_from(*ops, code@, arity_table@, pc as int)->0,
            decode_from(*ops, code@, arity_table@, pc as int) is None ==> whole is None,
            forall|i: int| 0 <= i < instrs@.len() ==> (#[trigger] instrs@[i]).label is None && instrs@[i].comment is None,
        decreases code@.len() - pc,
    {
        proof {
            lemma_decode_op_advances(*ops, code@, arity_table@, pc as int);
        }
        match decode_op(ops, code, arity_table, pc) {
            None => {
                return None;
            },
            Some((op, q)) => {
                let ghost rest = decode_from(*ops, code@, arity_table@, q as int);
                let ghost iv = instrs_view(instrs@);
                instrs.push(Instr { addr: #[verifier::truncate] (pc as u16), label: None, op, comment: None });
                proof {
                    assert(instrs_view(instrs@) =~= iv.push(((pc as u16), op@)));
                    if rest is Some {
                        assert(iv + (seq![((pc as u16), op@)] + rest->0) =~= iv.push(((pc as u16), op@)) + rest->0);
                    }
                }
                pc = q;
            },
        }
    }
    assert(instrs_view(instrs@) + Seq::<(u16, OpV)>::empty() =~= instrs_view(instrs@));
    Some(instrs)
}

/// The instructions of decodable code.
fn decode_instructions(ops: &Opcodes, code: &[u8], arity_table: &[(u8, u8)]) -> (r: Vec<Instr>)
    requires
        decodable(*ops, code@, arity_table@),
    ensures
        decode_from(*ops, code@, arity_table@, 0) == Some(instrs_view(r@)),
        forall|i: int| 0 <= i < r@.len() ==> (#[trigger] r@[i]).label is None && r@[i].comment is None,
{
    match try_decode_instructions(ops, code, arity_table) {
        Some(v) => v,
        None => Vec::new(),
    }
}

/// Whether `op` creates a closure or function whose code starts at `a`.
pub open spec fn op_creates(op: OpV, a: u16) -> bool {
    match op {
        OpV::Closure { target, .. } => target == a,
        OpV::Function { target, .. } => target == a,
        _ => false,
    }
}

/// Whether branch `j` of `op`, a match, goes to `a`.
pub open spec fn op_branches_to(op: OpV, j: int, a: u16) -> bool {
    match op {
        OpV::Match { table, .. } => 0 <= j < table.len() && table[j].1 == a,
        _ => false,
    }
}

/// Whether some closure or function of `is` starts at `a`.
pub open spec fn fn_target(is: Seq<(u16, OpV)>, a: u16) -> bool {
    exists|i: int| 0 <= i < is.len() && #[trigger] op_creates(is[i].1, a)
}

/// Whether some match of `is` branches to `a`.
pub open spec fn match_target(is: Seq<(u16, OpV)>, a: u16) -> bool {
    exists|i: int, j: int| 0 <= i < is.len() && #[trigger] op_branches_to(is[i].1, j, a)
}

/// The targets of the closures and functions of `instrs`, in increasing
/// order.
fn collect_fn_targets(instrs: &Vec<Instr>) -> (r: Vec<u16>)
    ensures
        strictly_increasing(r@),
        forall|a: u16| r@.contains(a) <==> fn_target(instrs_view(instrs@), a),
{
    let ghost iv = instrs_view(instrs@);
    let mut targets: Vec<u16> = Vec::new();
    let mut k: usize = 0;
    while k < instrs.len()
        invariant
            k <= instrs@.len(),
            iv == instrs_view(instrs@),
            strictly_increasing(targets@),
            forall|a: u16| targets@.contains(a) <==> fn_target(iv.take(k as int), a),
        decreases instrs@.len() - k,
    {
        let ghost before = targets@;
        assert(iv[k as int] == (instrs@[k as int].addr, instrs@[k as int].op@));
        match &instrs[k].op {
            Op::Closure { target, .. } => insert_slot(&mut targets, *target),
            Op::Function { target, .. } => insert_slot(&mut targets, *target),
            _ => {},
        }
        assert(forall|a: u16| targets@.contains(a) <==> (before.contains(a) || op_creates(iv[k as int].1, a)));
        let ghost kk = k as int;
        k += 1;
        proof {
            let t = iv.take(k as int);
            let t0 = iv.take(kk);
            assert forall|a: u16| targets@.contains(a) <==> fn_target(t, a) by {
                assert(before.contains(a) <==> fn_target(t0, a));
                if fn_target(t, a) {
                    let i = choose|i: int| 0 <= i < t.len() && #[trigger] op_creates(t[i].1, a);
                    if i < kk {
                        assert(t0[i] == t[i]);
                        assert(fn_target(t0, a));
                    }
                }
                if fn_target(t0, a) {
                    let i = choose|i: int| 0 <= i < kk && #[trigger] op_creates(t0[i].1, a);
                    assert(t[i] == t0[i]);
                }
                if op_creates(iv[kk].1, a) {
                    assert(t[kk] == iv[kk]);
                }
            }
        }
    }
    assert(iv.take(k as int) =~= iv);
    targets
}

/// The branch targets of the matches of `instrs`, in increasing order.
fn collect_match_targets(instrs: &Vec<Instr>) -> (r: Vec<u16>)
    ensures
        strictly_increasing(r@),
        forall|a: u16| r@.contains(a) <==> match_target(instrs_view(instrs@), a),
{
    let ghost iv = instrs_view(instrs@);
    let mut targets: Vec<u16> = Vec::new();
    let mut k: usize = 0;
    while k < instrs.len()
        invariant
            k <= instrs@.len(),
            iv == instrs_view(instrs@),
            strictly_increasing(targets@),
            forall|a: u16| targets@.contains(a) <==> match_target(iv.take(k as int), a),
        decreases instrs@.len() - k,
    {
        let ghost before = targets@;
        assert(iv[k as int] == (instrs@[k as int].addr, instrs@[k as int].op@));
        match &instrs[k].op {
            Op::Match { table, .. } => {
                let mut j: usize = 0;
                while j < table.len()
                    invariant
                        j <= table@.len(),
                        strictly_increasing(targets@),
                        forall|a: u16| targets@.contains(a) <==> (before.contains(a)
                            || exists|jj: int| 0 <= jj < j && (#[trigger] table@[jj]).1 == a),
                    decreases table@.len() - j,
                {
                    let ghost pre = targets@;
                    assert(forall|a: u16| pre.contains(a) <==> (before.contains(a)
                        || exists|jj: int| 0 <= jj < j && (#[trigger] table@[jj]).1 == a));
                    insert_slot(&mut targets, table[j].1);
                    let ghost jv = j as int;
                    j += 1;
                    proof {
                        assert forall|a: u16| targets@.contains(a) <==> (before.contains(a)
                            || exists|jj: int| 0 <= jj < j && (#[trigger] table@[jj]).1 == a) by {
                            if exists|jj: int| 0 <= jj < j && (#[trigger] table@[jj]).1 == a {
                                let jj = choose|jj: int| 0 <= jj < j && (#[trigger] table@[jj]).1 == a;
                                if jj < jv {
                                    assert(exists|jj: int| 0 <= jj < jv && (#[trigger] table@[jj]).1 == a);
                                }
                            }
                            if exists|jj: int| 0 <= jj < jv && (#[trigger] table@[jj]).1 == a {
                                let jj = choose|jj: int| 0 <= jj < jv && (#[trigger] table@[jj]).1 == a;
                                assert(0 <= jj < j && table@[jj].1 == a);
                            }
                            if a == table@[jv].1 {
                                assert(0 <= jv < j && table@[jv].1 == a);
                            }
                        }
                    }
                }
            },
            _ => {},
        }
        proof {
            let t = iv.take(k + 1);
            assert forall|a: u16| targets@.contains(a) <==> match_target(t, a) by {
                if match_target(t, a) {
                    let (i, j) = choose|i: int, j: int| 0 <= i < t.len() && #[trigger] op_branches_to(t[i].1, j, a);
                    if i < k {
                        assert(iv.take(k as int)[i] == t[i]);
                        assert(match_target(iv.take(k as int), a));
                    } else {
                        match instrs@[k as int].op {
                            Op::Match { table, .. } => {
                                assert(table@[j].1 == a);
                            },
                            _ => {},
                        }
                    }
                }
                if match_target(iv.take(k as int), a) {
                    let (i, j) = choose|i: int, j: int| 0 <= i < k && #[trigger] op_branches_to(iv.take(k as int)[i].1, j, a);
                    assert(t[i] == iv.take(k as int)[i]);
                }
                if targets@.contains(a) && !before.contains(a) {
                    match instrs@[k as int].op {
                        Op::Match { rs, table } => {
                            let jj = choose|jj: int| 0 <= jj < table@.len() && (#[trigger] table@[jj]).1 == a;
                            assert(t[k as int].1 == OpV::Match { rs, table: table@ });
                            assert(op_branches_to(t[k as int].1, jj, a));
                        },
                        _ => {},
                    }
                }
            }
        }
        k += 1;
    }
    assert(iv.take(k as int) =~= iv);
    targets
}


// ── Listing: labels and comments ────────────────────────────────────────────

pub open spec fn hex_digit(d: int) -> char {
    if d < 10 {
        (48 + d) as char
    } else {
        (87 + d) as char
    }
}

/// Four lowercase hexadecimal digits.
pub open spec fn hex4(v: u16) -> Seq<char> {
    seq![
        hex_digit(v as int / 4096),
        hex_digit((v as int / 256) % 16),
        hex_digit((v as int / 16) % 16),
        hex_digit(v as int % 16),
    ]
}

/// The four lowercase hexadecimal digits of `v`, zero-padded.
pub(crate) fn hex4_string(v: u16) -> (r: String)
    ensures
        r@ == hex4(v),
{
    crate::digits::hex4_text(v)
}

/// The decimal digits of `n`, most significant first, with no sign or
/// padding.
pub(crate) fn decimal_string(n: usize) -> (r: String)
    ensures
        r@ == decimal(n as nat),
{
    crate::digits::decimal_text(n as u128)
}

/// A list of names as a map, later entries replacing earlier ones.
pub open spec fn names_map(ns: Seq<(u8, Seq<char>)>) -> Map<u8, Seq<char>>
    decreases ns.len(),
{
    if ns.len() == 0 {
        Map::empty()
    } else {
        names_map(ns.drop_last()).insert(ns.last().0, ns.last().1)
    }
}

pub open spec fn map_chars<K>(m: Map<K, String>) -> Map<K, Seq<char>> {
    m.map_values(|s: String| s@)
}

pub open spec fn opt_chars(o: Option<String>) -> Option<Seq<char>> {
    match o {
        Some(s) => Some(s@),
        None => None,
    }
}

/// The description of global `i`: `@` and its address, after its name and
/// ` = ` when it has one.
pub open spec fn global_desc(p: PView, i: int) -> Seq<char> {
    let a = "@"@ + hex4(p.globals[i]);
    if names_map(p.global_names).contains_key(i as u8) {
        names_map(p.global_names)[i as u8] + " = "@ + a
    } else {
        a
    }
}

/// The labels of the first `k` globals' entry points: their names, or `g`
/// and their index; a later global replaces an earlier one at one address.
pub open spec fn global_labels(p: PView, k: nat) -> Map<u16, Seq<char>>
    decreases k,
{
    if k == 0 {
        Map::empty()
    } else {
        let i = (k - 1) as int;
        global_labels(p, (k - 1) as nat).insert(
            p.globals[i],
            if names_map(p.global_names).contains_key(i as u8) {
                names_map(p.global_names)[i as u8]
            } else {
                "g"@ + decimal(i as nat)
            },
        )
    }
}

/// The label at address `a`: a global's, else `fn_` for a function, else
/// `case_` for a match branch, with the address in hexadecimal.
pub open spec fn label_of(p: PView, is: Seq<(u16, OpV)>, a: u16) -> Option<Seq<char>> {
    let g = global_labels(p, p.globals.len());
    if g.contains_key(a) {
        Some(g[a])
    } else if fn_target(is, a) {
        Some("fn_"@ + hex4(a))
    } else if match_target(is, a) {
        Some("case_"@ + hex4(a))
    } else {
        None
    }
}

pub open spec fn join(parts: Seq<Seq<char>>, sep: Seq<char>) -> Seq<char>
    decreases parts.len(),
{
    if parts.len() == 0 {
        Seq::empty()
    } else if parts.len() == 1 {
        parts[0]
    } else {
        join(parts.drop_last(), sep) + sep + parts.last()
    }
}

/// One branch of a match: the constructor's name or tag, then the label of
/// its target or the target in hexadecimal.
pub open spec fn branch_text(p: PView, is: Seq<(u16, OpV)>, b: (u8, u16)) -> Seq<char> {
    let c = names_map(p.ctor_names);
    (if c.contains_key(b.0) { c[b.0] } else { decimal(b.0 as nat) }) + " -> "@ + match label_of(p, is, b.1) {
        Some(l) => l,
        None => hex4(b.1),
    }
}

/// What the listing says beside an instruction.
pub open spec fn comment_of(p: PView, is: Seq<(u16, OpV)>, op: OpV) -> Option<Seq<char>> {
    let c = names_map(p.ctor_names);
    let g = names_map(p.global_names);
    match op {
        OpV::Global { idx, .. } => if g.contains_key(idx) {
            Some(g[idx])
        } else if (idx as int) < p.globals.len() {
            Some(global_desc(p, idx as int))
        } else {
            None
        },
        OpV::Pack { tag, .. } => {
            let parts = (if c.contains_key(tag) { seq![c[tag]] } else { Seq::empty() }) + (if (tag as int) < p.arity.len() {
                seq!["arity="@ + decimal(p.arity[tag as int] as nat)]
            } else {
                Seq::empty()
            });
            if parts.len() == 0 {
                None
            } else {
                Some(join(parts, ", "@))
            }
        },
        OpV::Unpack { tag, .. } => if c.contains_key(tag) {
            Some(c[tag])
        } else {
            None
        },
        OpV::Match { table, .. } => if table.len() == 0 {
            None
        } else {
            Some(join(Seq::new(table.len(), |j: int| branch_text(p, is, table[j])), " | "@))
        },
        _ => None,
    }
}

pub open spec fn arity_pairs(t: Seq<u8>) -> Seq<(u8, u8)> {
    Seq::new(t.len(), |i: int| (i as u8, t[i]))
}

/// A decoded program: its arity table, its globals with their descriptions,
/// its instructions with labels and comments, and its names.
pub struct Disasm {
    pub arity_table: Vec<(u8, u8)>,
    pub globals: Vec<(usize, String)>,
    pub instructions: Vec<Instr>,
    pub code_len: usize,
    pub ctor_names: BTreeMap<u8, String>,
    pub global_names: BTreeMap<u8, String>,
}

/// The listing of a program whose code is decodable.
pub open spec fn disasm_ok(ops: Opcodes, p: PView, d: Disasm) -> bool {
    let is = decode_from(ops, p.code, arity_pairs(p.arity), 0)->0;
    &&& d.arity_table@ == arity_pairs(p.arity)
    &&& map_chars(d.ctor_names@) == names_map(p.ctor_names)
    &&& map_chars(d.global_names@) == names_map(p.global_names)
    &&& d.globals@.len() == p.globals.len()
    &&& forall|i: int| 0 <= i < p.globals.len() ==> (#[trigger] d.globals@[i]).0 == i && d.globals@[i].1@ == global_desc(p, i)
    &&& d.code_len == p.code.len()
    &&& d.instructions@.len() == is.len()
    &&& forall|k: int| 0 <= k < is.len() ==> {
        &&& (#[trigger] d.instructions@[k]).addr == is[k].0
        &&& d.instructions@[k].op@ == is[k].1
        &&& opt_chars(d.instructions@[k].label) == label_of(p, is, is[k].0)
        &&& opt_chars(d.instructions@[k].comment) == comment_of(p, is, is[k].1)
    }
}


proof fn lemma_push_contains(s: Seq<u16>, a: u16)
    ensures
        forall|x: u16| #[trigger] s.push(a).contains(x) <==> (s.contains(x) || x == a),
{
    assert forall|x: u16| #[trigger] s.push(a).contains(x) <==> (s.contains(x) || x == a) by {
        if s.push(a).contains(x) {
            let i = choose|i: int| 0 <= i < s.push(a).len() && s.push(a)[i] == x;
            if i < s.len() {
                assert(s[i] == x);
            }
        }
        if s.contains(x) {
            let i = choose|i: int| 0 <= i < s.len() && s[i] == x;
            assert(s.push(a)[i] == x);
        }
        if x == a {
            assert(s.push(a)[s.len() as int] == x);
        }
    }
}

pub(crate) fn text(s: &str) -> (r: String)
    ensures
        r@ == s@,
{
    String::from_str(s)
}

fn names_to_map(ns: &Vec<(u8, String)>) -> (m: BTreeMap<u8, String>)
    ensures
        map_chars(m@) == names_map(names_chars(ns@)),
{
    let ghost nv = names_chars(ns@);
    let mut m: BTreeMap<u8, String> = BTreeMap::new();
    let mut i: usize = 0;
    assert(nv.take(0) =~= Seq::<(u8, Seq<char>)>::empty());
    assert(map_chars(m@) =~= Map::<u8, Seq<char>>::empty());
    while i < ns.len()
        invariant
            i <= ns@.len(),
            nv == names_chars(ns@),
            map_chars(m@) == names_map(nv.take(i as int)),
        decreases ns@.len() - i,
    {
        let ghost before = m@;
        let name = ns[i].1.clone();
        m.insert(ns[i].0, name);
        assert(nv.take(i + 1).drop_last() =~= nv.take(i as int));
        assert(map_chars(m@) =~= map_chars(before).insert(ns@[i as int].0, ns@[i as int].1@));
        i += 1;
    }
    assert(nv.take(ns@.len() as int) =~= nv);
    m
}

fn arity_table_pairs(t: &Vec<u8>) -> (r: Vec<(u8, u8)>)
    ensures
        r@ == arity_pairs(t@),
{
    let mut r: Vec<(u8, u8)> = Vec::new();
    let mut i: usize = 0;
    while i < t.len()
        invariant
            i <= t@.len(),
            r@ =~= arity_pairs(t@).take(i as int),
        decreases t@.len() - i,
    {
        r.push((#[verifier::truncate] (i as u8), t[i]));
        i += 1;
    }
    assert(arity_pairs(t@).take(t@.len() as int) =~= arity_pairs(t@));
    r
}

fn global_descs(prog: &Program, gnames: &BTreeMap<u8, String>) -> (r: Vec<(usize, String)>)
    requires
        map_chars(gnames@) == names_map(prog@.global_names),
    ensures
        r@.len() == prog@.globals.len(),
        forall|i: int| 0 <= i < prog@.globals.len() ==> (#[trigger] r@[i]).0 == i && r@[i].1@ == global_desc(prog@, i),
{
    let mut r: Vec<(usize, String)> = Vec::new();
    let mut i: usize = 0;
    while i < prog.globals.len()
        invariant
            i <= prog@.globals.len(),
            map_chars(gnames@) == names_map(prog@.global_names),
            r@.len() == i,
            forall|j: int| 0 <= j < i ==> (#[trigger] r@[j]).0 == j && r@[j].1@ == global_desc(prog@, j),
        decreases prog@.globals.len() - i,
    {
        let mut addr_desc = text("@");
        let h = hex4_string(prog.globals[i]);
        addr_desc.append(h.as_str());
        let key = #[verifier::truncate] (i as u8);
        let desc = match gnames.get(&key) {
            Some(name) => {
                assert(map_chars(gnames@)[key] == name@);
                let mut d = name.clone();
                d.append(" = ");
                d.append(addr_desc.as_str());
                d
            },
            None => {
                assert(!map_chars(gnames@).contains_key(key));
                addr_desc
            },
        };
        r.push((i, desc));
        i += 1;
    }
    r
}

/// The labels of a program: `m` holds exactly the addresses that have one.
pub open spec fn labels_ok(m: Map<u16, Seq<char>>, p: PView, is: Seq<(u16, OpV)>) -> bool {
    forall|a: u16| #![trigger m.contains_key(a)] #![trigger label_of(p, is, a)]
        (m.contains_key(a) <==> label_of(p, is, a) is Some) && (m.contains_key(a) ==> m[a] == label_of(p, is, a)->0)
}

fn build_labels(
    prog: &Program,
    gnames: &BTreeMap<u8, String>,
    fnt: &Vec<u16>,
    mt: &Vec<u16>,
    Ghost(is): Ghost<Seq<(u16, OpV)>>,
) -> (m: BTreeMap<u16, String>)
    requires
        map_chars(gnames@) == names_map(prog@.global_names),
        forall|a: u16| fnt@.contains(a) <==> fn_target(is, a),
        forall|a: u16| mt@.contains(a) <==> match_target(is, a),
    ensures
        labels_ok(map_chars(m@), prog@, is),
{
    let ghost p = prog@;
    let mut labels: BTreeMap<u16, String> = BTreeMap::new();
    let mut i: usize = 0;
    assert(map_chars(labels@) =~= global_labels(p, 0));
    while i < prog.globals.len()
        invariant
            i <= p.globals.len(),
            p == prog@,
            map_chars(gnames@) == names_map(p.global_names),
            map_chars(labels@) == global_labels(p, i as nat),
        decreases p.globals.len() - i,
    {
        let key = #[verifier::truncate] (i as u8);
        let name = match gnames.get(&key) {
            Some(n) => {
                assert(map_chars(gnames@)[key] == n@);
                n.clone()
            },
            None => {
                assert(!map_chars(gnames@).contains_key(key));
                let mut g = text("g");
                let d = decimal_string(i);
                g.append(d.as_str());
                g
            },
        };
        let ghost before = labels@;
        labels.insert(prog.globals[i], name);
        assert(map_chars(labels@) =~= map_chars(before).insert(p.globals[i as int], name@));
        i += 1;
    }
    let ghost g = global_labels(p, p.globals.len());
    let mut k: usize = 0;
    while k < fnt.len()
        invariant
            k <= fnt@.len(),
            forall|a: u16| #![trigger map_chars(labels@).contains_key(a)]
                map_chars(labels@).contains_key(a) <==> (g.contains_key(a) || fnt@.take(k as int).contains(a)),
            forall|a: u16| #![trigger map_chars(labels@).contains_key(a)]
                map_chars(labels@).contains_key(a) ==> map_chars(labels@)[a] == (if g.contains_key(a) {
                    g[a]
                } else {
                    "fn_"@ + hex4(a)
                }),
        decreases fnt@.len() - k,
    {
        let a = fnt[k];
        assert(fnt@.take(k + 1) =~= fnt@.take(k as int).push(a));
        proof {
            lemma_push_contains(fnt@.take(k as int), a);
        }
        let present = labels.contains_key(&a);
        assert(present == labels@.contains_key(a));
        assert(map_chars(labels@).contains_key(a) == labels@.contains_key(a));
        if !present {
            let mut l = text("fn_");
            let h = hex4_string(a);
            l.append(h.as_str());
            let ghost before = labels@;
            labels.insert(a, l);
            assert(map_chars(labels@) =~= map_chars(before).insert(a, l@));
        }
        k += 1;
    }
    assert(fnt@.take(fnt@.len() as int) =~= fnt@);
    let mut k: usize = 0;
    while k < mt.len()
        invariant
            k <= mt@.len(),
            forall|a: u16| #![trigger map_chars(labels@).contains_key(a)]
                map_chars(labels@).contains_key(a) <==> (g.contains_key(a) || fnt@.contains(a) || mt@.take(k as int).contains(a)),
            forall|a: u16| #![trigger map_chars(labels@).contains_key(a)]
                map_chars(labels@).contains_key(a) ==> map_chars(labels@)[a] == (if g.contains_key(a) {
                    g[a]
                } else if fnt@.contains(a) {
                    "fn_"@ + hex4(a)
                } else {
                    "case_"@ + hex4(a)
                }),
        decreases mt@.len() - k,
    {
        let a = mt[k];
        assert(mt@.take(k + 1) =~= mt@.take(k as int).push(a));
        proof {
            lemma_push_contains(mt@.take(k as int), a);
        }
        let present = labels.contains_key(&a);
        assert(present == labels@.contains_key(a));
        assert(map_chars(labels@).contains_key(a) == labels@.contains_key(a));
        if !present {
            let mut l = text("case_");
            let h = hex4_string(a);
            l.append(h.as_str());
            let ghost before = labels@;
            labels.insert(a, l);
            assert(map_chars(labels@) =~= map_chars(before).insert(a, l@));
        }
        k += 1;
    }
    assert(mt@.take(mt@.len() as int) =~= mt@);
    labels
}


fn branch_string(
    tag: u8,
    addr: u16,
    cnames: &BTreeMap<u8, String>,
    labels: &BTreeMap<u16, String>,
    Ghost(p): Ghost<PView>,
    Ghost(is): Ghost<Seq<(u16, OpV)>>,
) -> (r: String)
    requires
        map_chars(cnames@) == names_map(p.ctor_names),
        labels_ok(map_chars(labels@), p, is),
    ensures
        r@ == branch_text(p, is, (tag, addr)),
{
    let mut s = match cnames.get(&tag) {
        Some(n) => {
            assert(map_chars(cnames@)[tag] == n@);
            n.clone()
        },
        None => {
            assert(!map_chars(cnames@).contains_key(tag));
            decimal_string(tag as usize)
        },
    };
    s.append(" -> ");
    match labels.get(&addr) {
        Some(l) => {
            assert(map_chars(labels@).contains_key(addr));
            assert(map_chars(labels@)[addr] == l@);
            s.append(l.as_str());
        },
        None => {
            assert(!map_chars(labels@).contains_key(addr));
            let h = hex4_string(addr);
            s.append(h.as_str());
        },
    }
    s
}

fn pack_comment(tag: u8, cnames: &BTreeMap<u8, String>, arity: &Vec<(u8, u8)>, Ghost(p): Ghost<PView>) -> (r: Option<String>)
    requires
        map_chars(cnames@) == names_map(p.ctor_names),
        arity@ == arity_pairs(p.arity),
    ensures
        opt_chars(r) == ({
            let c = names_map(p.ctor_names);
            let parts = (if c.contains_key(tag) { seq![c[tag]] } else { Seq::empty() }) + (if (tag as int) < p.arity.len() {
                seq!["arity="@ + decimal(p.arity[tag as int] as nat)]
            } else {
                Seq::empty()
            });
            if parts.len() == 0 {
                None
            } else {
                Some(join(parts, ", "@))
            }
        }),
{
    let has_arity = (tag as usize) < arity.len();
    let ghost c = names_map(p.ctor_names);
    let ghost ap: Seq<Seq<char>> = if (tag as int) < p.arity.len() {
        seq!["arity="@ + decimal(p.arity[tag as int] as nat)]
    } else {
        Seq::empty()
    };
    match cnames.get(&tag) {
        Some(n) => {
            assert(map_chars(cnames@)[tag] == n@);
            let mut s = n.clone();
            if has_arity {
                let d = decimal_string(arity[tag as usize].1 as usize);
                let ghost s0 = s@;
                s.append(", ");
                s.append("arity=");
                s.append(d.as_str());
                let ghost parts = seq![c[tag]] + ap;
                assert(parts.len() == 2);
                assert(parts.drop_last() =~= seq![c[tag]]);
                assert(join(parts.drop_last(), ", "@) == c[tag]);
                assert(parts.last() == "arity="@ + decimal(p.arity[tag as int] as nat));
                assert(s@ =~= s0 + ", "@ + ("arity="@ + decimal(p.arity[tag as int] as nat)));
            } else {
                assert(seq![c[tag]] + ap =~= seq![c[tag]]);
            }
            Some(s)
        },
        None => {
            assert(!map_chars(cnames@).contains_key(tag));
            if has_arity {
                let mut s = text("arity=");
                let d = decimal_string(arity[tag as usize].1 as usize);
                s.append(d.as_str());
                assert(Seq::<Seq<char>>::empty() + ap =~= ap);
                Some(s)
            } else {
                assert(Seq::<Seq<char>>::empty() + ap =~= Seq::<Seq<char>>::empty());
                None
            }
        },
    }
}

fn match_comment(
    table: &Vec<(u8, u16)>,
    cnames: &BTreeMap<u8, String>,
    labels: &BTreeMap<u16, String>,
    Ghost(p): Ghost<PView>,
    Ghost(is): Ghost<Seq<(u16, OpV)>>,
) -> (r: Option<String>)
    requires
        map_chars(cnames@) == names_map(p.ctor_names),
        labels_ok(map_chars(labels@), p, is),
    ensures
        opt_chars(r) == (if table@.len() == 0 {
            None
        } else {
            Some(join(Seq::new(table@.len(), |j: int| branch_text(p, is, table@[j])), " | "@))
        }),
{
    if table.len() == 0 {
        return None;
    }
    let ghost parts = Seq::new(table@.len(), |j: int| branch_text(p, is, table@[j]));
    let mut acc = branch_string(table[0].0, table[0].1, cnames, labels, Ghost(p), Ghost(is));
    assert(parts.take(1) =~= seq![parts[0]]);
    let mut j: usize = 1;
    while j < table.len()
        invariant
            1 <= j <= table@.len(),
            parts == Seq::new(table@.len(), |j: int| branch_text(p, is, table@[j])),
            map_chars(cnames@) == names_map(p.ctor_names),
            labels_ok(map_chars(labels@), p, is),
            acc@ == join(parts.take(j as int), " | "@),
        decreases table@.len() - j,
    {
        let b = branch_string(table[j].0, table[j].1, cnames, labels, Ghost(p), Ghost(is));
        acc.append(" | ");
        acc.append(b.as_str());
        assert(parts.take(j + 1).drop_last() =~= parts.take(j as int));
        assert(acc@ =~= join(parts.take(j + 1), " | "@));
        j += 1;
    }
    assert(parts.take(table@.len() as int) =~= parts);
    Some(acc)
}

fn comment_for(
    op: &Op,
    prog: &Program,
    cnames: &BTreeMap<u8, String>,
    gnames: &BTreeMap<u8, String>,
    globals: &Vec<(usize, String)>,
    arity: &Vec<(u8, u8)>,
    labels: &BTreeMap<u16, String>,
    Ghost(is): Ghost<Seq<(u16, OpV)>>,
) -> (r: Option<String>)
    requires
        map_chars(cnames@) == names_map(prog@.ctor_names),
        map_chars(gnames@) == names_map(prog@.global_names),
        globals@.len() == prog@.globals.len(),
        forall|i: int| 0 <= i < prog@.globals.len() ==> (#[trigger] globals@[i]).0 == i && globals@[i].1@ == global_desc(prog@, i),
        arity@ == arity_pairs(prog@.arity),
        labels_ok(map_chars(labels@), prog@, is),
    ensures
        opt_chars(r) == comment_of(prog@, is, op@),
{
    let ghost p = prog@;
    match op {
        Op::Global { idx, .. } => {
            match gnames.get(idx) {
                Some(n) => {
                    assert(map_chars(gnames@)[*idx] == n@);
                    Some(n.clone())
                },
                None => {
                    assert(!map_chars(gnames@).contains_key(*idx));
                    if (*idx as usize) < globals.len() {
                        Some(globals[*idx as usize].1.clone())
                    } else {
                        None
                    }
                },
            }
        },
        Op::Pack { tag, .. } => pack_comment(*tag, cnames, arity, Ghost(p)),
        Op::Unpack { tag, .. } => {
            match cnames.get(tag) {
                Some(n) => {
                    assert(map_chars(cnames@)[*tag] == n@);
                    Some(n.clone())
                },
                None => {
                    assert(!map_chars(cnames@).contains_key(*tag));
                    None
                },
            }
        },
        Op::Match { table, .. } => match_comment(table, cnames, labels, Ghost(p), Ghost(is)),
        _ => None,
    }
}

/// The listing of a program whose code is decodable.
pub fn decode_program(ops: &Opcodes, prog: &Program) -> (d: Disasm)
    requires
        decodable(*ops, prog@.code, arity_pairs(prog@.arity)),
    ensures
        disasm_ok(*ops, prog@, d),
{
    let ghost p = prog@;
    let arity_table = arity_table_pairs(&prog.arity_table);
    let ctor_names = names_to_map(&prog.ctor_names);
    let global_names = names_to_map(&prog.global_names);
    let globals = global_descs(prog, &global_names);
    let mut instructions = decode_instructions(ops, prog.code.as_slice(), arity_table.as_slice());
    let ghost is = instrs_view(instructions@);
    let fn_targets = collect_fn_targets(&instructions);
    let match_targets = collect_match_targets(&instructions);
    let labels = build_labels(prog, &global_names, &fn_targets, &match_targets, Ghost(is));
    let mut k: usize = 0;
    while k < instructions.len()
        invariant
            k <= instructions@.len(),
            is.len() == instructions@.len(),
            p == prog@,
            map_chars(ctor_names@) == names_map(p.ctor_names),
            map_chars(global_names@) == names_map(p.global_names),
            globals@.len() == p.globals.len(),
            forall|i: int| 0 <= i < p.globals.len() ==> (#[trigger] globals@[i]).0 == i && globals@[i].1@ == global_desc(p, i),
            arity_table@ == arity_pairs(p.arity),
            labels_ok(map_chars(labels@), p, is),
            forall|j: int| 0 <= j < is.len() ==> (#[trigger] instructions@[j]).addr == is[j].0 && instructions@[j].op@ == is[j].1,
            forall|j: int| 0 <= j < k ==> opt_chars((#[trigger] instructions@[j]).label) == label_of(p, is, is[j].0)
                && opt_chars(instructions@[j].comment) == comment_of(p, is, is[j].1),
        decreases instructions@.len() - k,
    {
        let addr = instructions[k].addr;
        let label = match labels.get(&addr) {
            Some(l) => {
                assert(map_chars(labels@).contains_key(addr));
                Some(l.clone())
            },
            None => {
                assert(!map_chars(labels@).contains_key(addr));
                None
            },
        };
        let comment = comment_for(&instructions[k].op, prog, &ctor_names, &global_names, &globals, &arity_table, &labels, Ghost(is));
        let e = &mut instructions[k];
        e.label = label;
        e.comment = comment;
        k += 1;
    }
    Disasm { arity_table, globals, instructions, code_len: prog.code.len(), ctor_names, global_names }
}

/// Why a byte string cannot be listed.
#[derive(Debug, Clone, Copy, PartialEq, Eq, Structural)]
pub enum DisasmError {
    /// It is not a program file.
    Program(ProgramError),
    /// An instruction of its code runs past the end of the code.
    Incomplete,
}

/// Read a program file and list its code.
pub fn decode(ops: &Opcodes, bytes: &[u8]) -> (r: Result<Disasm, DisasmError>)
    ensures
        match parse_spec(ops.magic@, bytes@) {
            Err(e) => r matches Err(DisasmError::Program(x)) && x == e,
            Ok(p) => if decodable(*ops, p.code, arity_pairs(p.arity)) {
                r matches Ok(d) && disasm_ok(*ops, p, d)
            } else {
                r matches Err(DisasmError::Incomplete)
            },
        },
{
    let parsed = parse_program(ops, bytes);
    let prog = match parsed {
        Ok(prog) => prog,
        Err(e) => return Err(DisasmError::Program(e)),
    };
    let arity = arity_table_pairs(&prog.arity_table);
    match try_decode_instructions(ops, prog.code.as_slice(), arity.as_slice()) {
        None => Err(DisasmError::Incomplete),
        Some(_) => Ok(decode_program(ops, &prog)),
    }
}

} // verus!
