// Bytecode emission. Function and continuation bodies are deferred: their
// creation site gets a two-byte hole that is patched with the body's address
// once the body is emitted, the most recently deferred body first.
use vstd::prelude::*;
use crate::ir::asm_ir::{self, ACase, AContLam, ADefine, AExpr, AFun, AVal, Case, ContLam, Expr, Fun, Reg, Val, acases_view, adefines_view, aexpr_view, A1, CONT, X01};
use crate::ir::prim::{BytesOp, IntOp, PrimOp};

verus! {

/// The instruction bytes of the virtual machine, the register it reads as
/// "no continuation", and the magic bytes that open a program.
pub struct Opcodes {
    pub op_fin: u8,
    pub op_mov: u8,
    pub op_capture: u8,
    pub op_global: u8,
    pub op_closure: u8,
    pub op_function: u8,
    pub op_pack: u8,
    pub op_field: u8,
    pub op_unpack: u8,
    pub op_match: u8,
    pub op_branch: u8,
    pub op_encore: u8,
    pub op_int: u8,
    pub op_int_0: u8,
    pub op_int_1: u8,
    pub op_int_2: u8,
    pub op_bytes: u8,
    pub op_int_add: u8,
    pub op_int_sub: u8,
    pub op_int_mul: u8,
    pub op_int_eq: u8,
    pub op_int_lt: u8,
    pub op_int_byte: u8,
    pub op_int_div: u8,
    pub op_int_mod: u8,
    pub op_int_sub_sat: u8,
    pub op_int_le: u8,
    pub op_int_and: u8,
    pub op_int_or: u8,
    pub op_int_xor: u8,
    pub op_int_shl: u8,
    pub op_int_shr: u8,
    pub op_bytes_len: u8,
    pub op_bytes_get: u8,
    pub op_bytes_concat: u8,
    pub op_bytes_slice: u8,
    pub op_bytes_eq: u8,
    pub op_extern: u8,
    pub null_reg: u8,
    pub magic: Vec<u8>,
}

/// Names of constructors and globals, written after the code.
pub struct Metadata {
    pub ctor_names: Vec<(u8, String)>,
    pub global_names: Vec<(u8, String)>,
}

pub open spec fn prim_opcode(ops: Opcodes, op: PrimOp) -> u8 {
    match op {
        PrimOp::Int(i) => match i {
            IntOp::Add => ops.op_int_add,
            IntOp::Sub => ops.op_int_sub,
            IntOp::Mul => ops.op_int_mul,
            IntOp::Eq => ops.op_int_eq,
            IntOp::Lt => ops.op_int_lt,
            IntOp::Byte => ops.op_int_byte,
            IntOp::Div => ops.op_int_div,
            IntOp::Mod => ops.op_int_mod,
            IntOp::SubSat => ops.op_int_sub_sat,
            IntOp::Le => ops.op_int_le,
            IntOp::And => ops.op_int_and,
            IntOp::Or => ops.op_int_or,
            IntOp::Xor => ops.op_int_xor,
            IntOp::Shl => ops.op_int_shl,
            IntOp::Shr => ops.op_int_shr,
        },
        PrimOp::Bytes(b) => match b {
            BytesOp::Len => ops.op_bytes_len,
            BytesOp::Get => ops.op_bytes_get,
            BytesOp::Concat => ops.op_bytes_concat,
            BytesOp::Slice => ops.op_bytes_slice,
            BytesOp::Eq => ops.op_bytes_eq,
        },
    }
}

/// Every opcode of the VM, each field once.
pub open spec fn all_opcodes(ops: Opcodes) -> Seq<u8> {
    seq![
        ops.op_fin,
        ops.op_mov,
        ops.op_capture,
        ops.op_global,
        ops.op_closure,
        ops.op_function,
        ops.op_pack,
        ops.op_field,
        ops.op_unpack,
        ops.op_match,
        ops.op_branch,
        ops.op_encore,
        ops.op_int,
        ops.op_int_0,
        ops.op_int_1,
        ops.op_int_2,
        ops.op_bytes,
        ops.op_int_add,
        ops.op_int_sub,
        ops.op_int_mul,
        ops.op_int_eq,
        ops.op_int_lt,
        ops.op_int_byte,
        ops.op_int_div,
        ops.op_int_mod,
        ops.op_int_sub_sat,
        ops.op_int_le,
        ops.op_int_and,
        ops.op_int_or,
        ops.op_int_xor,
        ops.op_int_shl,
        ops.op_int_shr,
        ops.op_bytes_len,
        ops.op_bytes_get,
        ops.op_bytes_concat,
        ops.op_bytes_slice,
        ops.op_bytes_eq,
        ops.op_extern,
    ]
}

/// No two entries of `s` are equal.
pub open spec fn all_distinct(s: Seq<u8>) -> bool {
    forall|i: int, j: int| 0 <= i < j < s.len() ==> s[i] != s[j]
}

/// Different primitive operations are emitted as different opcodes, when
/// the VM's opcodes are all different: no two operations share one.
pub proof fn lemma_prim_opcode_injective(ops: Opcodes, a: PrimOp, b: PrimOp)
    requires
        all_distinct(all_opcodes(ops)),
        a != b,
    ensures
        prim_opcode(ops, a) != prim_opcode(ops, b),
{
    let s = all_opcodes(ops);
    assert(s[17] == ops.op_int_add);
    assert(s[18] == ops.op_int_sub);
    assert(s[19] == ops.op_int_mul);
    assert(s[20] == ops.op_int_eq);
    assert(s[21] == ops.op_int_lt);
    assert(s[22] == ops.op_int_byte);
    assert(s[23] == ops.op_int_div);
    assert(s[24] == ops.op_int_mod);
    assert(s[25] == ops.op_int_sub_sat);
    assert(s[26] == ops.op_int_le);
    assert(s[27] == ops.op_int_and);
    assert(s[28] == ops.op_int_or);
    assert(s[29] == ops.op_int_xor);
    assert(s[30] == ops.op_int_shl);
    assert(s[31] == ops.op_int_shr);
    assert(s[32] == ops.op_bytes_len);
    assert(s[33] == ops.op_bytes_get);
    assert(s[34] == ops.op_bytes_concat);
    assert(s[35] == ops.op_bytes_slice);
    assert(s[36] == ops.op_bytes_eq);
}

// ── Specification: emitter state ────────────────────────────────────────────

/// The code so far, the arity of each constructor tag met, the deferred
/// bodies with the position of their address hole, and the extern stubs
/// (slot and address).
#[verifier::ext_equal]
pub struct EState {
    pub buf: Seq<u8>,
    pub arity: Seq<u8>,
    pub deferred: Seq<(int, AExpr)>,
    pub stubs: Seq<(u16, u16)>,
}

pub open spec fn put(st: EState, bytes: Seq<u8>) -> EState {
    EState { buf: st.buf + bytes, ..st }
}

/// Little-endian bytes of a 16-bit value.
pub open spec fn le16(v: u16) -> Seq<u8> {
    seq![v as u8, (v >> 8) as u8]
}

pub open spec fn patch(st: EState, off: int, v: u16) -> EState {
    EState { buf: st.buf.update(off, v as u8).update(off + 1, (v >> 8) as u8), ..st }
}

/// The arity table with `tag` set to `a`, grown with zeros as needed.
pub open spec fn set_arity(t: Seq<u8>, tag: u8, a: u8) -> Seq<u8> {
    if (tag as int) < t.len() {
        t.update(tag as int, a)
    } else {
        (t + Seq::new((tag as int + 1 - t.len()) as nat, |i: int| 0u8)).update(tag as int, a)
    }
}

pub open spec fn record_arity_spec(st: EState, tag: u8, a: u8) -> EState {
    EState { arity: set_arity(st.arity, tag, a), ..st }
}

pub open spec fn pos16(st: EState) -> u16 {
    st.buf.len() as u16
}

/// The address of the first stub for `slot` at index `i` or later.
pub open spec fn stub_addr_from(stubs: Seq<(u16, u16)>, slot: u16, i: int) -> u16
    decreases stubs.len() - i,
{
    if i < 0 || i >= stubs.len() {
        0
    } else if stubs[i].0 == slot {
        stubs[i].1
    } else {
        stub_addr_from(stubs, slot, i + 1)
    }
}

/// The address of the first stub for `slot`.
pub open spec fn stub_addr(stubs: Seq<(u16, u16)>, slot: u16) -> u16 {
    stub_addr_from(stubs, slot, 0)
}

pub open spec fn has_stub(stubs: Seq<(u16, u16)>, slot: u16) -> bool {
    exists|i: int| 0 <= i < stubs.len() && (#[trigger] stubs[i]).0 == slot
}

/// A function or continuation: its creation (with a hole for the address of
/// its body), the body being deferred.
pub open spec fn emit_lambda_spec(ops: Opcodes, st: EState, dest: Reg, caps: Seq<Reg>, body: AExpr) -> EState {
    let hole = st.buf.len() + 2int;
    let st1 = if caps.len() == 0 {
        put(st, seq![ops.op_function, dest, 0u8, 0u8])
    } else {
        put(st, seq![ops.op_closure, dest, 0u8, 0u8, caps.len() as u8] + caps)
    };
    EState { deferred: st1.deferred.push((hole, body)), ..st1 }
}

pub open spec fn int_bytes(n: i32) -> Seq<u8> {
    let bits = n as u32;
    seq![bits as u8, (bits >> 8) as u8, (bits >> 16) as u8]
}

pub open spec fn emit_val_spec(ops: Opcodes, st: EState, dest: Reg, v: AVal) -> EState {
    match v {
        AVal::Reg(src) => put(st, seq![ops.op_mov, dest, src]),
        AVal::Capture(i) => put(st, seq![ops.op_capture, dest, i]),
        AVal::Global(i) => put(st, seq![ops.op_global, dest, i]),
        AVal::ContLam(c) => emit_lambda_spec(ops, st, dest, c.captures, *c.body),
        AVal::Ctor(tag, fs) => put(record_arity_spec(st, tag, fs.len() as u8), seq![ops.op_pack, dest, tag] + fs),
        AVal::Field(src, i) => put(st, seq![ops.op_field, dest, src, i]),
        AVal::Int(n) => if n == 0 {
            put(st, seq![ops.op_int_0, dest])
        } else if n == 1 {
            put(st, seq![ops.op_int_1, dest])
        } else if n == 2 {
            put(st, seq![ops.op_int_2, dest])
        } else {
            put(st, seq![ops.op_int, dest] + int_bytes(n))
        },
        AVal::Bytes(d) => put(st, seq![ops.op_bytes, dest, d.len() as u8] + d),
        AVal::Prim(op, rs) => put(st, seq![prim_opcode(ops, op), dest] + rs),
        AVal::Extern(slot) => {
            let addr = stub_addr(st.stubs, slot);
            put(st, seq![ops.op_function, dest, addr as u8, (addr >> 8) as u8])
        },
    }
}

/// Load argument `i` into `A1 + i` unless it is there already.
pub open spec fn arg_moves(ops: Opcodes, args: Seq<Reg>) -> Seq<u8>
    decreases args.len(),
{
    if args.len() == 0 {
        Seq::empty()
    } else {
        let i = args.len() - 1;
        let ai = (2 + i) as u8;
        arg_moves(ops, args.drop_last()) + if args[i] != ai { seq![ops.op_mov, ai, args[i]] } else { Seq::empty() }
    }
}

/// The branch entry: its address patched in, then the unpacking of the
/// constructor's fields when it has any.
pub open spec fn case_entry(st: EState, hole: int, tag: u8, reg: Reg, c: ACase, ops: Opcodes) -> EState {
    let st1 = patch(st, hole, pos16(st));
    if c.arity > 0 {
        put(record_arity_spec(st1, tag, c.arity), seq![ops.op_unpack, c.unpack_base, tag, reg])
    } else {
        st1
    }
}

pub open spec fn emit_expr_spec(ops: Opcodes, st: EState, e: AExpr) -> EState
    decreases e, 0int,
{
    match e {
        AExpr::Let(dest, v, b) => emit_expr_spec(ops, emit_val_spec(ops, st, dest, v), *b),
        AExpr::Letrec(dest, f, b) => emit_expr_spec(ops, emit_lambda_spec(ops, st, dest, f.captures, *f.body), *b),
        AExpr::Encore(f, args, k) => put(st, arg_moves(ops, args) + seq![ops.op_encore, f, k]),
        AExpr::Match(reg, base, cs) => if cs.len() == 2 {
            let h = st.buf.len() as int;
            let st1 = put(st, seq![ops.op_branch, reg, base, 0u8, 0u8, 0u8, 0u8]);
            let st2 = emit_expr_spec(ops, case_entry(st1, h + 3, base, reg, cs[0], ops), cs[0].body);
            emit_expr_spec(ops, case_entry(st2, h + 5, (base + 1) as u8, reg, cs[1], ops), cs[1].body)
        } else {
            let h = st.buf.len() + 4int;
            let st1 = put(st, seq![ops.op_match, reg, base, cs.len() as u8] + Seq::new((2 * cs.len()) as nat, |i: int| 0u8));
            emit_cases_spec(ops, st1, h, reg, base, cs, 0)
        },
        AExpr::Fin(r) => put(st, seq![ops.op_fin, r]),
    }
}

/// The branches from `i` on, branch `j`'s hole at `h + 2 j`.
pub open spec fn emit_cases_spec(ops: Opcodes, st: EState, h: int, reg: Reg, base: u8, cs: Seq<ACase>, i: int) -> EState
    decreases cs, cs.len() - i,
{
    if i < 0 || i >= cs.len() {
        st
    } else {
        let tag = (base + (i as u8)) as u8;
        let st1 = emit_expr_spec(ops, case_entry(st, h + 2 * i, tag, reg, cs[i], ops), cs[i].body);
        emit_cases_spec(ops, st1, h, reg, base, cs, i + 1)
    }
}


// ── Sizes, for the termination of the deferred-body loop ────────────────────

pub open spec fn asize(e: AExpr) -> nat
    decreases e, 0int,
{
    match e {
        AExpr::Let(_, v, b) => 1 + vsize(v) + asize(*b),
        AExpr::Letrec(_, f, b) => 1 + asize(*f.body) + asize(*b),
        AExpr::Match(_, _, cs) => 1 + csize(cs, 0),
        _ => 1,
    }
}

pub open spec fn vsize(v: AVal) -> nat
    decreases v, 0int,
{
    match v {
        AVal::ContLam(c) => asize(*c.body),
        _ => 0,
    }
}

pub open spec fn csize(cs: Seq<ACase>, i: int) -> nat
    decreases cs, cs.len() - i,
{
    if i < 0 || i >= cs.len() {
        0
    } else {
        asize(cs[i].body) + csize(cs, i + 1)
    }
}

/// The total size of the deferred bodies.
pub open spec fn dsize(d: Seq<(int, AExpr)>) -> nat
    decreases d.len(),
{
    if d.len() == 0 {
        0
    } else {
        dsize(d.drop_last()) + asize(d.last().1)
    }
}

pub proof fn lemma_dsize_push(d: Seq<(int, AExpr)>, x: (int, AExpr))
    ensures
        dsize(d.push(x)) == dsize(d) + asize(x.1),
{
    assert(d.push(x).drop_last() =~= d);
}

/// Emitting `e` defers bodies that are, all together, smaller than `e`.
pub proof fn lemma_expr_dsize(ops: Opcodes, st: EState, e: AExpr)
    ensures
        dsize(emit_expr_spec(ops, st, e).deferred) < dsize(st.deferred) + asize(e),
    decreases e, 0int,
{
    match e {
        AExpr::Let(dest, v, b) => {
            let st1 = emit_val_spec(ops, st, dest, v);
            match v {
                AVal::ContLam(c) => {
                    lemma_dsize_push(st.deferred, (st.buf.len() + 2int, *c.body));
                },
                _ => {},
            }
            assert(dsize(st1.deferred) == dsize(st.deferred) + vsize(v));
            lemma_expr_dsize(ops, st1, *b);
        },
        AExpr::Letrec(dest, f, b) => {
            let st1 = emit_lambda_spec(ops, st, dest, f.captures, *f.body);
            lemma_dsize_push(st.deferred, (st.buf.len() + 2int, *f.body));
            lemma_expr_dsize(ops, st1, *b);
        },
        AExpr::Match(reg, base, cs) => {
            if cs.len() == 2 {
                let h = st.buf.len() as int;
                let st1 = put(st, seq![ops.op_branch, reg, base, 0u8, 0u8, 0u8, 0u8]);
                let s0 = case_entry(st1, h + 3, base, reg, cs[0], ops);
                lemma_expr_dsize(ops, s0, cs[0].body);
                let st2 = emit_expr_spec(ops, s0, cs[0].body);
                let s1 = case_entry(st2, h + 5, (base + 1) as u8, reg, cs[1], ops);
                lemma_expr_dsize(ops, s1, cs[1].body);
                assert(csize(cs, 2) == 0);
                assert(csize(cs, 1) == asize(cs[1].body) + csize(cs, 2));
                assert(csize(cs, 0) == asize(cs[0].body) + csize(cs, 1));
            } else {
                let h = st.buf.len() + 4int;
                let st1 = put(st, seq![ops.op_match, reg, base, cs.len() as u8] + Seq::new((2 * cs.len()) as nat, |i: int| 0u8));
                lemma_cases_dsize(ops, st1, h, reg, base, cs, 0);
            }
        },
        _ => {},
    }
}

pub proof fn lemma_cases_dsize(ops: Opcodes, st: EState, h: int, reg: Reg, base: u8, cs: Seq<ACase>, i: int)
    ensures
        dsize(emit_cases_spec(ops, st, h, reg, base, cs, i).deferred) <= dsize(st.deferred) + csize(cs, i),
    decreases cs, cs.len() - i,
{
    if 0 <= i < cs.len() {
        let tag = (base + (i as u8)) as u8;
        let s0 = case_entry(st, h + 2 * i, tag, reg, cs[i], ops);
        lemma_expr_dsize(ops, s0, cs[i].body);
        lemma_cases_dsize(ops, emit_expr_spec(ops, s0, cs[i].body), h, reg, base, cs, i + 1);
    }
}

/// Emit the deferred bodies, the most recently deferred first, each patched
/// into its hole, until none is left.
pub open spec fn drain_spec(ops: Opcodes, st: EState) -> EState
    decreases dsize(st.deferred),
{
    if st.deferred.len() == 0 {
        st
    } else {
        let d = st.deferred.last();
        let st1 = patch(EState { deferred: st.deferred.drop_last(), ..st }, d.0, pos16(st));
        proof {
            lemma_expr_dsize(ops, st1, d.1);
        }
        drain_spec(ops, emit_expr_spec(ops, st1, d.1))
    }
}

/// A define's body, then every body it deferred.
pub open spec fn toplevel_spec(ops: Opcodes, st: EState, e: AExpr) -> EState {
    drain_spec(ops, emit_expr_spec(ops, st, e))
}


// ── Specification: extern stubs, conditions, the whole module ───────────────

/// `EXTERN X01, A1, slot; MOV A1, X01; ENCORE CONT, NULL`.
pub open spec fn stub_bytes(ops: Opcodes, slot: u16) -> Seq<u8> {
    seq![ops.op_extern, X01, A1, slot as u8, (slot >> 8) as u8, ops.op_mov, A1, X01, ops.op_encore, CONT, ops.null_reg]
}

pub open spec fn stub_spec(ops: Opcodes, st: EState, slot: u16) -> EState {
    EState { stubs: st.stubs.push((slot, pos16(st))), ..put(st, stub_bytes(ops, slot)) }
}

pub open spec fn stubs_spec(ops: Opcodes, st: EState, slots: Seq<u16>) -> EState
    decreases slots.len(),
{
    if slots.len() == 0 {
        st
    } else {
        stub_spec(ops, stubs_spec(ops, st, slots.drop_last()), slots.last())
    }
}

/// Whether extern `s` is referenced in `e`.
pub open spec fn uses_extern(e: AExpr, s: u16) -> bool
    decreases e, 1int,
{
    match e {
        AExpr::Let(_, v, b) => val_uses_extern(v, s) || uses_extern(*b, s),
        AExpr::Letrec(_, f, b) => uses_extern(*f.body, s) || uses_extern(*b, s),
        AExpr::Match(_, _, cs) => exists|i: int| 0 <= i < cs.len() && uses_extern(#[trigger] cs[i].body, s),
        _ => false,
    }
}

pub open spec fn val_uses_extern(v: AVal, s: u16) -> bool
    decreases v, 0int,
{
    match v {
        AVal::Extern(x) => x == s,
        AVal::ContLam(c) => uses_extern(*c.body, s),
        _ => false,
    }
}

/// Every call passes at most 254 arguments (argument `i` goes to `A1 + i`),
/// and the tags of a match's branches do not pass 255.
pub open spec fn shape_fits(e: AExpr) -> bool
    decreases e,
{
    match e {
        AExpr::Let(_, v, b) => (match v {
            AVal::ContLam(c) => shape_fits(*c.body),
            _ => true,
        }) && shape_fits(*b),
        AExpr::Letrec(_, f, b) => shape_fits(*f.body) && shape_fits(*b),
        AExpr::Encore(_, a, _) => a.len() <= 254,
        AExpr::Match(_, base, cs) => base + cs.len() <= 256 && forall|i: int| 0 <= i < cs.len() ==> shape_fits(#[trigger] cs[i].body),
        AExpr::Fin(_) => true,
    }
}

/// `shape_fits`, and a stub exists for every extern referenced.
pub open spec fn emit_fits(stubs: Seq<(u16, u16)>, e: AExpr) -> bool
    decreases e,
{
    match e {
        AExpr::Let(_, v, b) => (match v {
            AVal::ContLam(c) => emit_fits(stubs, *c.body),
            AVal::Extern(x) => has_stub(stubs, x),
            _ => true,
        }) && emit_fits(stubs, *b),
        AExpr::Letrec(_, f, b) => emit_fits(stubs, *f.body) && emit_fits(stubs, *b),
        AExpr::Encore(_, a, _) => a.len() <= 254,
        AExpr::Match(_, base, cs) => base + cs.len() <= 256 && forall|i: int| 0 <= i < cs.len() ==> emit_fits(stubs, #[trigger] cs[i].body),
        AExpr::Fin(_) => true,
    }
}

pub proof fn lemma_emit_fits(stubs: Seq<(u16, u16)>, e: AExpr)
    requires
        shape_fits(e),
        forall|s: u16| uses_extern(e, s) ==> has_stub(stubs, s),
    ensures
        emit_fits(stubs, e),
    decreases e,
{
    match e {
        AExpr::Let(_, v, b) => {
            match v {
                AVal::ContLam(c) => {
                    assert forall|s: u16| uses_extern(*c.body, s) implies has_stub(stubs, s) by {
                        assert(val_uses_extern(v, s));
                        assert(uses_extern(e, s));
                    }
                    lemma_emit_fits(stubs, *c.body);
                },
                AVal::Extern(x) => {
                    assert(val_uses_extern(v, x));
                    assert(uses_extern(e, x));
                },
                _ => {},
            }
            lemma_emit_fits(stubs, *b);
        },
        AExpr::Letrec(_, f, b) => {
            lemma_emit_fits(stubs, *f.body);
            lemma_emit_fits(stubs, *b);
        },
        AExpr::Match(_, _, cs) => {
            assert forall|i: int| 0 <= i < cs.len() implies emit_fits(stubs, #[trigger] cs[i].body) by {
                assert forall|s: u16| uses_extern(cs[i].body, s) implies has_stub(stubs, s) by {
                    assert(uses_extern(e, s));
                }
                lemma_emit_fits(stubs, cs[i].body);
            }
        },
        _ => {},
    }
}

/// Every hole of a deferred body lies inside the code, and every deferred
/// body can be emitted.
pub open spec fn state_ok(st: EState) -> bool {
    forall|i: int| 0 <= i < st.deferred.len() ==> {
        &&& 0 <= (#[trigger] st.deferred[i]).0
        &&& st.deferred[i].0 + 1 < st.buf.len()
        &&& emit_fits(st.stubs, st.deferred[i].1)
    }
}

pub open spec fn strictly_increasing(s: Seq<u16>) -> bool {
    forall|i: int, j: int| 0 <= i < j < s.len() ==> s[i] < s[j]
}

pub open spec fn module_uses(ds: Seq<ADefine>, s: u16) -> bool {
    exists|i: int| 0 <= i < ds.len() && uses_extern(#[trigger] ds[i].body, s)
}

/// The externs that a module references, in increasing order.
pub open spec fn extern_slots(ds: Seq<ADefine>) -> Seq<u16> {
    choose|s: Seq<u16>| strictly_increasing(s) && forall|x: u16| s.contains(x) <==> module_uses(ds, x)
}

/// Two increasing sequences with the same elements are equal.
pub proof fn lemma_increasing_unique(a: Seq<u16>, b: Seq<u16>)
    requires
        strictly_increasing(a),
        strictly_increasing(b),
        forall|x: u16| a.contains(x) <==> b.contains(x),
    ensures
        a == b,
    decreases a.len(),
{
    if a.len() == 0 {
        if b.len() > 0 {
            assert(b.contains(b[0]));
        }
        assert(a =~= b);
    } else {
        assert(a.contains(a[0]));
        assert(b.len() > 0);
        assert(b.contains(b[0]));
        let j = choose|j: int| 0 <= j < b.len() && b[j] == a[0];
        let k = choose|k: int| 0 <= k < a.len() && a[k] == b[0];
        assert(b[0] <= b[j]);
        assert(a[0] <= a[k]);
        let a1 = a.drop_first();
        let b1 = b.drop_first();
        assert forall|x: u16| a1.contains(x) <==> b1.contains(x) by {
            if a1.contains(x) {
                let p = choose|p: int| 0 <= p < a1.len() && a1[p] == x;
                assert(a[p + 1] == x);
                assert(a.contains(x));
                let q = choose|q: int| 0 <= q < b.len() && b[q] == x;
                assert(q != 0);
                assert(b1[q - 1] == x);
            }
            if b1.contains(x) {
                let p = choose|p: int| 0 <= p < b1.len() && b1[p] == x;
                assert(b[p + 1] == x);
                assert(b.contains(x));
                let q = choose|q: int| 0 <= q < a.len() && a[q] == x;
                assert(q != 0);
                assert(a1[q - 1] == x);
            }
        }
        lemma_increasing_unique(a1, b1);
        if j > 0 {
            assert(b[0] < b[j]);
        }
        if k > 0 {
            assert(a[0] < a[k]);
        }
        assert(a[0] == b[0]);
        assert forall|i: int| 0 <= i < a.len() implies a[i] == b[i] by {
            if i > 0 {
                assert(a[i] == a1[i - 1]);
                assert(b[i] == b1[i - 1]);
            }
        }
        assert(a =~= b);
    }
}

/// Little-endian entry addresses.
pub open spec fn entries_bytes(es: Seq<u16>) -> Seq<u8>
    decreases es.len(),
{
    if es.len() == 0 {
        Seq::empty()
    } else {
        entries_bytes(es.drop_last()) + le16(es.last())
    }
}

pub open spec fn name_entries(ns: Seq<(u8, Seq<u8>)>) -> Seq<u8>
    decreases ns.len(),
{
    if ns.len() == 0 {
        Seq::empty()
    } else {
        name_entries(ns.drop_last()) + seq![ns.last().0, ns.last().1.len() as u8] + ns.last().1
    }
}

/// A name section: the count, then each index with its length-prefixed name.
pub open spec fn name_section(ns: Seq<(u8, Seq<u8>)>) -> Seq<u8> {
    le16(ns.len() as u16) + name_entries(ns)
}

pub open spec fn names_view(ns: Seq<(u8, String)>) -> Seq<(u8, Seq<u8>)> {
    ns.map_values(|p: (u8, String)| (p.0, vstd::utf8::encode_utf8(p.1@)))
}

pub open spec fn meta_view(m: Option<&Metadata>) -> Option<(Seq<(u8, Seq<u8>)>, Seq<(u8, Seq<u8>)>)> {
    match m {
        Some(md) => Some((names_view(md.ctor_names@), names_view(md.global_names@))),
        None => None,
    }
}

/// Magic, the three counts, the arity table, the entry addresses, the code,
/// then the name sections when there are names.
pub open spec fn program_bytes(
    ops: Opcodes,
    arity: Seq<u8>,
    code: Seq<u8>,
    entries: Seq<u16>,
    meta: Option<(Seq<(u8, Seq<u8>)>, Seq<(u8, Seq<u8>)>)>,
) -> Seq<u8> {
    ops.magic@ + le16(arity.len() as u16) + le16(entries.len() as u16) + le16(code.len() as u16) + arity
        + entries_bytes(entries) + code + match meta {
        Some((c, g)) => name_section(c) + name_section(g),
        None => Seq::empty(),
    }
}

pub open spec fn empty_state() -> EState {
    EState { buf: Seq::empty(), arity: Seq::empty(), deferred: Seq::empty(), stubs: Seq::empty() }
}

/// Each define in turn, its entry being the position where it starts.
pub open spec fn defines_spec(ops: Opcodes, st: EState, ds: Seq<ADefine>) -> (EState, Seq<u16>)
    decreases ds.len(),
{
    if ds.len() == 0 {
        (st, Seq::empty())
    } else {
        let (s, es) = defines_spec(ops, st, ds.drop_last());
        (toplevel_spec(ops, s, ds.last().body), es.push(pos16(s)))
    }
}

/// The return stub `FIN A1` at address 0, a stub per extern, the defines.
pub open spec fn module_state(ops: Opcodes, ds: Seq<ADefine>, slots: Seq<u16>) -> (EState, Seq<u16>) {
    let st0 = put(empty_state(), seq![ops.op_fin, A1]);
    defines_spec(ops, stubs_spec(ops, st0, slots), ds)
}

pub open spec fn module_bytes(
    ops: Opcodes,
    ds: Seq<ADefine>,
    meta: Option<(Seq<(u8, Seq<u8>)>, Seq<(u8, Seq<u8>)>)>,
) -> Seq<u8> {
    let (st, es) = module_state(ops, ds, extern_slots(ds));
    program_bytes(ops, st.arity, st.buf, es, meta)
}


// ── The emitter ──────────────────────────────────────────────────────────────

pub open spec fn val_fits(stubs: Seq<(u16, u16)>, v: AVal) -> bool {
    match v {
        AVal::ContLam(c) => emit_fits(stubs, *c.body),
        AVal::Extern(x) => has_stub(stubs, x),
        _ => true,
    }
}

proof fn lemma_patch_ok(st: EState, off: int, v: u16)
    requires
        state_ok(st),
        0 <= off,
        off + 1 < st.buf.len(),
    ensures
        state_ok(patch(st, off, v)),
        patch(st, off, v).buf.len() == st.buf.len(),
        patch(st, off, v).stubs == st.stubs,
{
    let p = patch(st, off, v);
    assert forall|i: int| 0 <= i < p.deferred.len() implies {
        &&& 0 <= (#[trigger] p.deferred[i]).0
        &&& p.deferred[i].0 + 1 < p.buf.len()
        &&& emit_fits(p.stubs, p.deferred[i].1)
    } by {
        assert(st.deferred[i] == p.deferred[i]);
    }
}

pub open spec fn deferred_view(d: Seq<(usize, &Expr)>) -> Seq<(int, AExpr)> {
    Seq::new(d.len(), |i: int| (d[i].0 as int, aexpr_view(*d[i].1)))
}

/// Bytecode under construction, with the constructor arities met so far,
/// the bodies still to emit and the extern stubs.
pub struct Emitter<'a> {
    buf: Vec<u8>,
    arity_table: Vec<u8>,
    deferred: Vec<(usize, &'a Expr)>,
    extern_stubs: Vec<(u16, u16)>,
}

impl<'a> View for Emitter<'a> {
    type V = EState;

    closed spec fn view(&self) -> EState {
        EState {
            buf: self.buf@,
            arity: self.arity_table@,
            deferred: deferred_view(self.deferred@),
            stubs: self.extern_stubs@,
        }
    }
}

pub proof fn lemma_put_put(st: EState, a: Seq<u8>, b: Seq<u8>)
    ensures
        put(put(st, a), b) == put(st, a + b),
{
    assert(st.buf + a + b =~= st.buf + (a + b));
    assert(put(put(st, a), b) =~= put(st, a + b));
}

proof fn lemma_put_ok(st: EState, a: Seq<u8>)
    requires
        state_ok(st),
    ensures
        state_ok(put(st, a)),
{
    assert forall|i: int| 0 <= i < put(st, a).deferred.len() implies {
        &&& 0 <= (#[trigger] put(st, a).deferred[i]).0
        &&& put(st, a).deferred[i].0 + 1 < put(st, a).buf.len()
        &&& emit_fits(put(st, a).stubs, put(st, a).deferred[i].1)
    } by {
        assert(st.deferred[i] == put(st, a).deferred[i]);
    }
}

impl<'a> Emitter<'a> {
    pub fn new() -> (e: Self)
        ensures
            e@ == empty_state(),
    {
        let e = Emitter { buf: Vec::new(), arity_table: Vec::new(), deferred: Vec::new(), extern_stubs: Vec::new() };
        assert(e@ =~= empty_state());
        e
    }

    fn record_arity(&mut self, tag: u8, arity: u8)
        ensures
            final(self)@ == record_arity_spec(old(self)@, tag, arity),
    {
        let t = tag as usize;
        let ghost t0 = self.arity_table@;
        if t >= self.arity_table.len() {
            while self.arity_table.len() <= t
                invariant
                    t0.len() <= self.arity_table.len() <= t + 1,
                    t == tag as usize,
                    t0.len() <= t,
                    self.arity_table@ =~= t0 + Seq::new((self.arity_table.len() - t0.len()) as nat, |i: int| 0u8),
                    t0 == old(self).arity_table@,
                    self.buf@ == old(self).buf@,
                    self.deferred@ == old(self).deferred@,
                    self.extern_stubs@ == old(self).extern_stubs@,
                decreases t + 1 - self.arity_table.len(),
            {
                self.arity_table.push(0);
            }
        }
        self.arity_table.set(t, arity);
        assert(self@ =~= record_arity_spec(old(self)@, tag, arity));
    }

    /// The arity of each constructor tag met so far.
    pub fn arity_table(&self) -> (r: &[u8])
        ensures
            r@ == self@.arity,
    {
        self.arity_table.as_slice()
    }

    pub fn pos(&self) -> (r: usize)
        ensures
            r == self@.buf.len(),
    {
        self.buf.len()
    }

    fn emit_u8(&mut self, b: u8)
        ensures
            final(self)@ == put(old(self)@, seq![b]),
    {
        self.buf.push(b);
        assert(self@ =~= put(old(self)@, seq![b]));
    }

    fn emit2(&mut self, a: u8, b: u8)
        ensures
            final(self)@ == put(old(self)@, seq![a, b]),
    {
        self.buf.push(a);
        self.buf.push(b);
        assert(self@ =~= put(old(self)@, seq![a, b]));
    }

    fn emit3(&mut self, a: u8, b: u8, c: u8)
        ensures
            final(self)@ == put(old(self)@, seq![a, b, c]),
    {
        self.buf.push(a);
        self.buf.push(b);
        self.buf.push(c);
        assert(self@ =~= put(old(self)@, seq![a, b, c]));
    }

    fn emit4(&mut self, a: u8, b: u8, c: u8, d: u8)
        ensures
            final(self)@ == put(old(self)@, seq![a, b, c, d]),
    {
        self.buf.push(a);
        self.buf.push(b);
        self.buf.push(c);
        self.buf.push(d);
        assert(self@ =~= put(old(self)@, seq![a, b, c, d]));
    }

    fn emit_seq(&mut self, bytes: &Vec<u8>)
        ensures
            final(self)@ == put(old(self)@, bytes@),
    {
        let mut i: usize = 0;
        while i < bytes.len()
            invariant
                i <= bytes.len(),
                self.buf@ =~= old(self).buf@ + bytes@.subrange(0, i as int),
                self.arity_table@ == old(self).arity_table@,
                self.deferred@ == old(self).deferred@,
                self.extern_stubs@ == old(self).extern_stubs@,
            decreases bytes.len() - i,
        {
            self.buf.push(bytes[i]);
            i += 1;
        }
        assert(bytes@.subrange(0, bytes@.len() as int) =~= bytes@);
        assert(self@ =~= put(old(self)@, bytes@));
    }

    fn patch_u16(&mut self, off: usize, val: u16)
        requires
            off + 1 < old(self)@.buf.len(),
        ensures
            final(self)@ == patch(old(self)@, off as int, val),
    {
        let n = self.buf.len();
        assert(off + 1 < n);
        self.buf.set(off, #[verifier::truncate] (val as u8));
        self.buf.set(off + 1, #[verifier::truncate] ((val >> 8) as u8));
        assert(self@ =~= patch(old(self)@, off as int, val));
    }

    /// The address of the stub for `slot`.
    fn extern_stub_addr(&self, slot: u16) -> (r: u16)
        requires
            has_stub(self@.stubs, slot),
        ensures
            r == stub_addr(self@.stubs, slot),
    {
        let mut i: usize = 0;
        while i < self.extern_stubs.len()
            invariant
                i <= self.extern_stubs.len(),
                has_stub(self@.stubs, slot),
                forall|j: int| 0 <= j < i ==> (#[trigger] self.extern_stubs@[j]).0 != slot,
                stub_addr_from(self@.stubs, slot, i as int) == stub_addr(self@.stubs, slot),
            decreases self.extern_stubs.len() - i,
        {
            if self.extern_stubs[i].0 == slot {
                return self.extern_stubs[i].1;
            }
            i += 1;
        }
        proof {
            let j = choose|j: int| 0 <= j < self@.stubs.len() && (#[trigger] self@.stubs[j]).0 == slot;
            assert(self.extern_stubs@[j].0 != slot);
        }
        0
    }

    /// A stub that calls extern `slot` and returns its result to the caller's
    /// continuation.
    pub fn emit_extern_stub(&mut self, ops: &Opcodes, slot: u16)
        ensures
            final(self)@ == stub_spec(*ops, old(self)@, slot),
    {
        let addr = #[verifier::truncate] (self.pos() as u16);
        self.extern_stubs.push((slot, addr));
        self.emit4(ops.op_extern, X01, A1, slot as u8);
        self.emit4((slot >> 8) as u8, ops.op_mov, A1, X01);
        self.emit3(ops.op_encore, CONT, ops.null_reg);
        proof {
            let st = old(self)@;
            let mid = EState { stubs: st.stubs.push((slot, pos16(st))), ..st };
            lemma_put_put(mid, seq![ops.op_extern, X01, A1, slot as u8], seq![(slot >> 8) as u8, ops.op_mov, A1, X01]);
            lemma_put_put(mid, seq![ops.op_extern, X01, A1, slot as u8] + seq![(slot >> 8) as u8, ops.op_mov, A1, X01], seq![ops.op_encore, CONT, ops.null_reg]);
            assert(seq![ops.op_extern, X01, A1, slot as u8] + seq![(slot >> 8) as u8, ops.op_mov, A1, X01] + seq![ops.op_encore, CONT, ops.null_reg] =~= stub_bytes(*ops, slot));
        }
    }


    pub fn prim_byte(ops: &Opcodes, op: PrimOp) -> (r: u8)
        ensures
            r == prim_opcode(*ops, op),
    {
        match op {
            PrimOp::Int(i) => match i {
                IntOp::Add => ops.op_int_add,
                IntOp::Sub => ops.op_int_sub,
                IntOp::Mul => ops.op_int_mul,
                IntOp::Eq => ops.op_int_eq,
                IntOp::Lt => ops.op_int_lt,
                IntOp::Byte => ops.op_int_byte,
                IntOp::Div => ops.op_int_div,
                IntOp::Mod => ops.op_int_mod,
                IntOp::SubSat => ops.op_int_sub_sat,
                IntOp::Le => ops.op_int_le,
                IntOp::And => ops.op_int_and,
                IntOp::Or => ops.op_int_or,
                IntOp::Xor => ops.op_int_xor,
                IntOp::Shl => ops.op_int_shl,
                IntOp::Shr => ops.op_int_shr,
            },
            PrimOp::Bytes(b) => match b {
                BytesOp::Len => ops.op_bytes_len,
                BytesOp::Get => ops.op_bytes_get,
                BytesOp::Concat => ops.op_bytes_concat,
                BytesOp::Slice => ops.op_bytes_slice,
                BytesOp::Eq => ops.op_bytes_eq,
            },
        }
    }

    fn emit_lambda(&mut self, ops: &Opcodes, dest: Reg, caps: &Vec<Reg>, body: &'a Expr)
        requires
            state_ok(old(self)@),
            emit_fits(old(self)@.stubs, body@),
        ensures
            final(self)@ == emit_lambda_spec(*ops, old(self)@, dest, caps@, body@),
            state_ok(final(self)@),
            final(self)@.stubs == old(self)@.stubs,
            final(self)@.buf.len() >= old(self)@.buf.len() + 4,
    {
        let ghost st = self@;
        let hole;
        if caps.len() == 0 {
            self.emit4(ops.op_function, dest, 0, 0);
            hole = self.pos() - 2;
        } else {
            self.emit4(ops.op_closure, dest, 0, 0);
            hole = self.pos() - 2;
            self.emit_u8(#[verifier::truncate] (caps.len() as u8));
            self.emit_seq(caps);
            proof {
                let a = seq![ops.op_closure, dest, 0u8, 0u8];
                let b = seq![caps@.len() as u8];
                lemma_put_put(st, a, b);
                lemma_put_put(st, a + b, caps@);
                assert(a + b =~= seq![ops.op_closure, dest, 0u8, 0u8, caps@.len() as u8]);
            }
        }
        let ghost st1 = self@;
        proof {
            if caps.len() == 0 {
                lemma_put_ok(st, seq![ops.op_function, dest, 0u8, 0u8]);
            } else {
                lemma_put_ok(st, seq![ops.op_closure, dest, 0u8, 0u8, caps@.len() as u8] + caps@);
            }
        }
        self.deferred.push((hole, body));
        assert(deferred_view(self.deferred@) =~= st1.deferred.push((hole as int, body@)));
        assert(self@ =~= emit_lambda_spec(*ops, st, dest, caps@, body@));
        proof {
            let fin = self@;
            assert forall|i: int| 0 <= i < fin.deferred.len() implies {
                &&& 0 <= (#[trigger] fin.deferred[i]).0
                &&& fin.deferred[i].0 + 1 < fin.buf.len()
                &&& emit_fits(fin.stubs, fin.deferred[i].1)
            } by {
                if i < st1.deferred.len() {
                    assert(fin.deferred[i] == st1.deferred[i]);
                }
            }
        }
    }

    fn emit_val(&mut self, ops: &Opcodes, dest: Reg, val: &'a Val)
        requires
            state_ok(old(self)@),
            val_fits(old(self)@.stubs, val@),
        ensures
            final(self)@ == emit_val_spec(*ops, old(self)@, dest, val@),
            state_ok(final(self)@),
            final(self)@.stubs == old(self)@.stubs,
            final(self)@.buf.len() >= old(self)@.buf.len(),
    {
        let ghost st = self@;
        match val {
            Val::Reg(src) => {
                self.emit3(ops.op_mov, dest, *src);
                proof {
                    lemma_put_ok(st, seq![ops.op_mov, dest, *src]);
                }
            },
            Val::Capture(idx) => {
                self.emit3(ops.op_capture, dest, *idx);
                proof {
                    lemma_put_ok(st, seq![ops.op_capture, dest, *idx]);
                }
            },
            Val::Global(idx) => {
                self.emit3(ops.op_global, dest, *idx);
                proof {
                    lemma_put_ok(st, seq![ops.op_global, dest, *idx]);
                }
            },
            Val::ContLam(c) => {
                self.emit_lambda(ops, dest, &c.captures, &*c.body);
            },
            Val::Ctor(tag, fields) => {
                self.record_arity(*tag, #[verifier::truncate] (fields.len() as u8));
                let ghost st1 = self@;
                self.emit3(ops.op_pack, dest, *tag);
                self.emit_seq(fields);
                proof {
                    lemma_put_put(st1, seq![ops.op_pack, dest, *tag], fields@);
                    lemma_put_ok(st1, seq![ops.op_pack, dest, *tag] + fields@);
                }
            },
            Val::Field(src, idx) => {
                self.emit4(ops.op_field, dest, *src, *idx);
                proof {
                    lemma_put_ok(st, seq![ops.op_field, dest, *src, *idx]);
                }
            },
            Val::Int(n) => {
                if *n == 0 {
                    self.emit2(ops.op_int_0, dest);
                    proof {
                        lemma_put_ok(st, seq![ops.op_int_0, dest]);
                    }
                } else if *n == 1 {
                    self.emit2(ops.op_int_1, dest);
                    proof {
                        lemma_put_ok(st, seq![ops.op_int_1, dest]);
                    }
                } else if *n == 2 {
                    self.emit2(ops.op_int_2, dest);
                    proof {
                        lemma_put_ok(st, seq![ops.op_int_2, dest]);
                    }
                } else {
                    let bits = #[verifier::truncate] (*n as u32);
                    self.emit2(ops.op_int, dest);
                    self.emit3(
                        #[verifier::truncate] (bits as u8),
                        #[verifier::truncate] ((bits >> 8) as u8),
                        #[verifier::truncate] ((bits >> 16) as u8),
                    );
                    proof {
                        lemma_put_put(st, seq![ops.op_int, dest], int_bytes(*n));
                        lemma_put_ok(st, seq![ops.op_int, dest] + int_bytes(*n));
                    }
                }
            },
            Val::Bytes(data) => {
                self.emit3(ops.op_bytes, dest, #[verifier::truncate] (data.len() as u8));
                self.emit_seq(data);
                proof {
                    lemma_put_put(st, seq![ops.op_bytes, dest, data@.len() as u8], data@);
                    lemma_put_ok(st, seq![ops.op_bytes, dest, data@.len() as u8] + data@);
                }
            },
            Val::Prim(op, regs) => {
                let opc = Self::prim_byte(ops, *op);
                self.emit2(opc, dest);
                self.emit_seq(regs);
                proof {
                    lemma_put_put(st, seq![opc, dest], regs@);
                    lemma_put_ok(st, seq![opc, dest] + regs@);
                }
            },
            Val::Extern(slot) => {
                let addr = self.extern_stub_addr(*slot);
                self.emit4(ops.op_function, dest, #[verifier::truncate] (addr as u8), #[verifier::truncate] ((addr >> 8) as u8));
                proof {
                    lemma_put_ok(st, seq![ops.op_function, dest, addr as u8, (addr >> 8) as u8]);
                }
            },
        }
    }

    /// Patch the branch's address into `hole`, then unpack its fields.
    fn emit_case_entry(&mut self, ops: &Opcodes, hole: usize, tag: u8, reg: Reg, c: &Case)
        requires
            hole + 1 < old(self)@.buf.len(),
            state_ok(old(self)@),
        ensures
            final(self)@ == case_entry(old(self)@, hole as int, tag, reg, c@, *ops),
            state_ok(final(self)@),
            final(self)@.stubs == old(self)@.stubs,
            final(self)@.buf.len() >= old(self)@.buf.len(),
    {
        let ghost st = self@;
        let p = #[verifier::truncate] (self.pos() as u16);
        self.patch_u16(hole, p);
        proof {
            lemma_patch_ok(st, hole as int, p);
        }
        if c.arity > 0 {
            let ghost st1 = self@;
            self.record_arity(tag, c.arity);
            let ghost st2 = self@;
            self.emit4(ops.op_unpack, c.unpack_base, tag, reg);
            proof {
                lemma_put_ok(st2, seq![ops.op_unpack, c.unpack_base, tag, reg]);
            }
        }
    }

    fn emit_encore(&mut self, ops: &Opcodes, fun: Reg, args: &Vec<Reg>, cont: Reg)
        requires
            state_ok(old(self)@),
            args.len() <= 254,
        ensures
            final(self)@ == emit_expr_spec(*ops, old(self)@, AExpr::Encore(fun, args@, cont)),
            state_ok(final(self)@),
            final(self)@.stubs == old(self)@.stubs,
            final(self)@.buf.len() >= old(self)@.buf.len(),
    {
        let ghost st = self@;
        let mut i: usize = 0;
        while i < args.len()
            invariant
                i <= args.len() <= 254,
                self@ == put(st, arg_moves(*ops, args@.subrange(0, i as int))),
                state_ok(st),
            decreases args.len() - i,
        {
            let ai: u8 = 2 + i as u8;
            let ghost pre = self@;
            let ghost sub = args@.subrange(0, i as int + 1);
            assert(sub.drop_last() =~= args@.subrange(0, i as int));
            if args[i] != ai {
                self.emit3(ops.op_mov, ai, args[i]);
                proof {
                    lemma_put_put(st, arg_moves(*ops, args@.subrange(0, i as int)), seq![ops.op_mov, ai, args@[i as int]]);
                }
            } else {
                assert(arg_moves(*ops, args@.subrange(0, i as int)) + Seq::<u8>::empty() =~= arg_moves(*ops, args@.subrange(0, i as int)));
            }
            i += 1;
        }
        assert(args@.subrange(0, args@.len() as int) =~= args@);
        self.emit3(ops.op_encore, fun, cont);
        proof {
            lemma_put_put(st, arg_moves(*ops, args@), seq![ops.op_encore, fun, cont]);
            lemma_put_ok(st, arg_moves(*ops, args@) + seq![ops.op_encore, fun, cont]);
        }
    }


    fn emit_zeros(&mut self, count: usize)
        ensures
            final(self)@ == put(old(self)@, Seq::new(count as nat, |i: int| 0u8)),
    {
        let mut j: usize = 0;
        while j < count
            invariant
                j <= count,
                self.buf@ =~= old(self).buf@ + Seq::new(j as nat, |i: int| 0u8),
                self.arity_table@ == old(self).arity_table@,
                self.deferred@ == old(self).deferred@,
                self.extern_stubs@ == old(self).extern_stubs@,
            decreases count - j,
        {
            self.buf.push(0);
            j += 1;
        }
        assert(self@ =~= put(old(self)@, Seq::new(count as nat, |i: int| 0u8)));
    }

    /// Emit `expr`; the bodies of the functions and continuations it creates
    /// are deferred.
    pub fn emit_expr(&mut self, ops: &Opcodes, expr: &'a Expr)
        requires
            state_ok(old(self)@),
            emit_fits(old(self)@.stubs, expr@),
        ensures
            final(self)@ == emit_expr_spec(*ops, old(self)@, expr@),
            state_ok(final(self)@),
            final(self)@.stubs == old(self)@.stubs,
            final(self)@.buf.len() >= old(self)@.buf.len(),
        decreases expr, 1int,
    {
        let ghost st = self@;
        match expr {
            Expr::Let(dest, val, body) => {
                assert(expr@ == AExpr::Let(*dest, val@, Box::new((**body)@)));
                self.emit_val(ops, *dest, val);
                let ghost st1 = self@;
                self.emit_expr(ops, &**body);
                assert(self@ == emit_expr_spec(*ops, st1, (**body)@));
            },
            Expr::Letrec(dest, fun, body) => {
                assert(fun@.body == Box::new((*fun.body)@));
                assert(fun@.captures == fun.captures@);
                self.emit_lambda(ops, *dest, &fun.captures, &*fun.body);
                self.emit_expr(ops, &**body);
            },
            Expr::Encore(fun, args, cont) => {
                self.emit_encore(ops, *fun, args, *cont);
            },
            Expr::Match(reg, base, cases) => {
                if cases.len() == 2 {
                    self.emit_branch(ops, *reg, *base, cases);
                } else {
                    self.emit_match(ops, *reg, *base, cases);
                }
            },
            Expr::Fin(reg) => {
                self.emit2(ops.op_fin, *reg);
                proof {
                    lemma_put_ok(st, seq![ops.op_fin, *reg]);
                }
            },
        }
    }

    /// A two-way match: `BRANCH reg, base, hole0, hole1`, then both branches.
    fn emit_branch(&mut self, ops: &Opcodes, reg: Reg, base: u8, cases: &'a Vec<Case>)
        requires
            state_ok(old(self)@),
            cases.len() == 2,
            emit_fits(old(self)@.stubs, AExpr::Match(reg, base, acases_view(cases@))),
        ensures
            final(self)@ == emit_expr_spec(*ops, old(self)@, AExpr::Match(reg, base, acases_view(cases@))),
            state_ok(final(self)@),
            final(self)@.stubs == old(self)@.stubs,
            final(self)@.buf.len() >= old(self)@.buf.len(),
        decreases cases, 0int,
    {
        let ghost st = self@;
        let ghost acs = acases_view(cases@);
        self.emit3(ops.op_branch, reg, base);
        self.emit4(0, 0, 0, 0);
        proof {
            lemma_put_put(st, seq![ops.op_branch, reg, base], seq![0u8, 0u8, 0u8, 0u8]);
            assert(seq![ops.op_branch, reg, base] + seq![0u8, 0u8, 0u8, 0u8] =~= seq![ops.op_branch, reg, base, 0u8, 0u8, 0u8, 0u8]);
            lemma_put_ok(st, seq![ops.op_branch, reg, base, 0u8, 0u8, 0u8, 0u8]);
            assert(acs[0] == cases@[0]@);
            assert(acs[1] == cases@[1]@);
            assert(emit_fits(st.stubs, acs[0].body));
            assert(emit_fits(st.stubs, acs[1].body));
        }
        let p = self.pos();
        let hole0 = p - 4;
        let hole1 = p - 2;
        self.emit_case_entry(ops, hole0, base, reg, &cases[0]);
        proof {
            assert(decreases_to!(cases => cases@));
            assert(decreases_to!(cases@ => cases@[0]));
            assert(decreases_to!(cases@[0] => cases@[0].body));
        }
        self.emit_expr(ops, &cases[0].body);
        self.emit_case_entry(ops, hole1, base + 1, reg, &cases[1]);
        proof {
            assert(decreases_to!(cases => cases@));
            assert(decreases_to!(cases@ => cases@[1]));
            assert(decreases_to!(cases@[1] => cases@[1].body));
        }
        self.emit_expr(ops, &cases[1].body);
    }

    /// A match of any other width: `MATCH reg, base, n`, `n` holes, then
    /// each branch in turn.
    fn emit_match(&mut self, ops: &Opcodes, reg: Reg, base: u8, cases: &'a Vec<Case>)
        requires
            state_ok(old(self)@),
            cases.len() != 2,
            emit_fits(old(self)@.stubs, AExpr::Match(reg, base, acases_view(cases@))),
        ensures
            final(self)@ == emit_expr_spec(*ops, old(self)@, AExpr::Match(reg, base, acases_view(cases@))),
            state_ok(final(self)@),
            final(self)@.stubs == old(self)@.stubs,
            final(self)@.buf.len() >= old(self)@.buf.len(),
        decreases cases, 0int,
    {
        let ghost st = self@;
        let ghost acs = acases_view(cases@);
        let n = cases.len();
        self.emit4(ops.op_match, reg, base, #[verifier::truncate] (n as u8));
        let h = self.pos();
        self.emit_zeros(2 * n);
        let ghost st2 = self@;
        proof {
            let hdr = seq![ops.op_match, reg, base, #[verifier::truncate] (n as u8)];
            let zs = Seq::new((2 * n) as nat, |i: int| 0u8);
            lemma_put_put(st, hdr, zs);
            lemma_put_ok(st, hdr + zs);
        }
        let ghost target = emit_cases_spec(*ops, st2, h as int, reg, base, acs, 0);
        let mut i: usize = 0;
        while i < n
            invariant
                i <= n,
                n == cases.len(),
                n != 2,
                acs == acases_view(cases@),
                base + n <= 256,
                forall|j: int| 0 <= j < acs.len() ==> emit_fits(st.stubs, #[trigger] acs[j].body),
                state_ok(self@),
                self@.stubs == st.stubs,
                self@.buf.len() >= h + 2 * n,
                h == st.buf.len() + 4,
                emit_cases_spec(*ops, self@, h as int, reg, base, acs, i as int) == target,
            decreases n - i,
        {
            let tag: u8 = base + i as u8;
            let cur = self.pos();
            assert(h + 2 * i + 1 < cur);
            proof {
                assert(acs[i as int] == cases@[i as int]@);
                assert(emit_fits(st.stubs, acs[i as int].body));
            }
            self.emit_case_entry(ops, h + 2 * i, tag, reg, &cases[i]);
            proof {
                assert(decreases_to!(cases => cases@));
                assert(decreases_to!(cases@ => cases@[i as int]));
                assert(decreases_to!(cases@[i as int] => cases@[i as int].body));
            }
            self.emit_expr(ops, &cases[i].body);
            i += 1;
        }
    }

    /// Emit a define's body, then every body it deferred, each patched into
    /// its hole, until none is left.
    pub fn emit_toplevel(&mut self, ops: &Opcodes, expr: &'a Expr)
        requires
            state_ok(old(self)@),
            emit_fits(old(self)@.stubs, expr@),
        ensures
            final(self)@ == toplevel_spec(*ops, old(self)@, expr@),
            final(self)@.deferred.len() == 0,
            final(self)@.stubs == old(self)@.stubs,
            final(self)@.buf.len() >= old(self)@.buf.len(),
    {
        let ghost st = self@;
        self.emit_expr(ops, expr);
        let ghost target = drain_spec(*ops, self@);
        while self.deferred.len() > 0
            invariant
                state_ok(self@),
                drain_spec(*ops, self@) == target,
                self@.stubs == st.stubs,
                self@.buf.len() >= st.buf.len(),
            decreases dsize(self@.deferred),
        {
            let ghost pre = self@;
            let (hole, body) = self.deferred.pop().unwrap();
            let ghost popped = self@;
            proof {
                assert(deferred_view(self.deferred@) =~= pre.deferred.drop_last());
                assert(pre.deferred.last() == (hole as int, body@));
                assert(popped == EState { deferred: pre.deferred.drop_last(), ..pre });
                assert(state_ok(popped)) by {
                    assert forall|i: int| 0 <= i < popped.deferred.len() implies {
                        &&& 0 <= (#[trigger] popped.deferred[i]).0
                        &&& popped.deferred[i].0 + 1 < popped.buf.len()
                        &&& emit_fits(popped.stubs, popped.deferred[i].1)
                    } by {
                        assert(popped.deferred[i] == pre.deferred[i]);
                    }
                }
                assert(pre.deferred[pre.deferred.len() - 1] == (hole as int, body@));
            }
            let p = #[verifier::truncate] (self.pos() as u16);
            self.patch_u16(hole, p);
            proof {
                lemma_patch_ok(popped, hole as int, p);
                lemma_expr_dsize(*ops, self@, body@);
            }
            self.emit_expr(ops, body);
        }
    }


    /// The program file: header, arity table, entry addresses, code, and the
    /// name sections when `metadata` is given.
    pub fn serialize(self, ops: &Opcodes, entries: &[u16], metadata: Option<&Metadata>) -> (r: Vec<u8>)
        ensures
            r@ == program_bytes(*ops, self@.arity, self@.buf, entries@, meta_view(metadata)),
    {
        let arity_table = self.arity_table;
        let code = self.buf;
        let n_globals = #[verifier::truncate] (entries.len() as u16);
        let mut out: Vec<u8> = Vec::new();
        push_all(&mut out, ops.magic.as_slice());
        push_le16(&mut out, #[verifier::truncate] (arity_table.len() as u16));
        push_le16(&mut out, n_globals);
        push_le16(&mut out, #[verifier::truncate] (code.len() as u16));
        push_all(&mut out, arity_table.as_slice());
        let ghost o1 = out@;
        let mut i: usize = 0;
        while i < entries.len()
            invariant
                i <= entries.len(),
                out@ == o1 + entries_bytes(entries@.subrange(0, i as int)),
            decreases entries.len() - i,
        {
            assert(entries@.subrange(0, i as int + 1).drop_last() =~= entries@.subrange(0, i as int));
            push_le16(&mut out, entries[i]);
            assert(o1 + entries_bytes(entries@.subrange(0, i as int)) + le16(entries@[i as int])
                =~= o1 + (entries_bytes(entries@.subrange(0, i as int)) + le16(entries@[i as int])));
            i += 1;
        }
        assert(entries@.subrange(0, entries@.len() as int) =~= entries@);
        let ghost o2 = out@;
        push_all(&mut out, code.as_slice());
        match metadata {
            Some(meta) => {
                let ghost o3 = out@;
                serialize_name_section(&mut out, &meta.ctor_names);
                serialize_name_section(&mut out, &meta.global_names);
                assert(out@ =~= o3 + (name_section(names_view(meta.ctor_names@)) + name_section(names_view(meta.global_names@))));
            },
            None => {
                assert(out@ =~= out@ + Seq::<u8>::empty());
            },
        }
        assert(out@ =~= program_bytes(*ops, arity_table@, code@, entries@, meta_view(metadata)));
        out
    }

    /// The program for a module: the return stub, a stub per extern it
    /// references, then its defines.
    pub fn emit_module(module: &asm_ir::Module, metadata: Option<&Metadata>, ops: &Opcodes) -> (r: Vec<u8>)
        requires
            forall|i: int| 0 <= i < module@.len() ==> shape_fits(#[trigger] module@[i].body),
        ensures
            r@ == module_bytes(*ops, module@, meta_view(metadata)),
    {
        let ghost ds = module@;
        let mut emitter = Emitter::new();
        emitter.emit2(ops.op_fin, A1);
        let ghost st0 = emitter@;
        let slots = collect_extern_slots_module(module);
        proof {
            assert(strictly_increasing(slots@) && forall|x: u16| slots@.contains(x) <==> module_uses(ds, x));
            let w = extern_slots(ds);
            lemma_increasing_unique(slots@, w);
        }
        let mut k: usize = 0;
        while k < slots.len()
            invariant
                k <= slots.len(),
                emitter@ == stubs_spec(*ops, st0, slots@.subrange(0, k as int)),
            decreases slots.len() - k,
        {
            assert(slots@.subrange(0, k as int + 1).drop_last() =~= slots@.subrange(0, k as int));
            emitter.emit_extern_stub(ops, slots[k]);
            k += 1;
        }
        assert(slots@.subrange(0, slots@.len() as int) =~= slots@);
        let ghost st1 = emitter@;
        proof {
            lemma_stubs_spec(*ops, st0, slots@);
            lemma_stubs_deferred(*ops, st0, slots@);
            assert(st0.stubs.len() == 0);
            assert forall|j: int| 0 <= j < slots@.len() implies (#[trigger] st1.stubs[j]).0 == slots@[j] by {
                assert(stubs_spec(*ops, st0, slots@).stubs[st0.stubs.len() + j].0 == slots@[j]);
            }
        }
        let mut entries: Vec<u16> = Vec::new();
        let mut i: usize = 0;
        while i < module.defines.len()
            invariant
                i <= module.defines.len(),
                ds == module@,
                ds.len() == module.defines.len(),
                forall|j: int| 0 <= j < ds.len() ==> shape_fits(#[trigger] ds[j].body),
                (emitter@, entries@) == defines_spec(*ops, st1, ds.subrange(0, i as int)),
                emitter@.deferred.len() == 0,
                emitter@.stubs == st1.stubs,
                st1.stubs.len() == slots@.len(),
                forall|j: int| 0 <= j < slots@.len() ==> (#[trigger] st1.stubs[j]).0 == slots@[j],
                forall|x: u16| slots@.contains(x) <==> module_uses(ds, x),
            decreases module.defines.len() - i,
        {
            let ghost s = emitter@;
            let ghost es = entries@;
            assert(ds.subrange(0, i as int + 1).drop_last() =~= ds.subrange(0, i as int));
            assert(ds[i as int].body == module.defines@[i as int].body@);
            proof {
                assert forall|x: u16| uses_extern(ds[i as int].body, x) implies has_stub(s.stubs, x) by {
                    assert(module_uses(ds, x));
                    let j = choose|j: int| 0 <= j < slots@.len() && slots@[j] == x;
                    assert(s.stubs[j].0 == x);
                }
                lemma_emit_fits(s.stubs, ds[i as int].body);
            }
            entries.push(#[verifier::truncate] (emitter.pos() as u16));
            emitter.emit_toplevel(ops, &module.defines[i].body);
            i += 1;
        }
        assert(ds.subrange(0, ds.len() as int) =~= ds);
        emitter.serialize(ops, entries.as_slice(), metadata)
    }

    pub fn into_bytes(self) -> (r: Vec<u8>)
        ensures
            r@ == self@.buf,
    {
        self.buf
    }
}


proof fn lemma_stubs_spec(ops: Opcodes, st: EState, slots: Seq<u16>)
    ensures
        stubs_spec(ops, st, slots).stubs.len() == st.stubs.len() + slots.len(),
        forall|j: int| 0 <= j < st.stubs.len() ==> stubs_spec(ops, st, slots).stubs[j] == st.stubs[j],
        forall|j: int| 0 <= j < slots.len() ==> (#[trigger] stubs_spec(ops, st, slots).stubs[st.stubs.len() + j]).0 == slots[j],
    decreases slots.len(),
{
    if slots.len() > 0 {
        lemma_stubs_spec(ops, st, slots.drop_last());
        let prev = stubs_spec(ops, st, slots.drop_last());
        assert forall|j: int| 0 <= j < slots.len() implies (#[trigger] stubs_spec(ops, st, slots).stubs[st.stubs.len() + j]).0 == slots[j] by {
            if j < slots.len() - 1 {
                assert(stubs_spec(ops, st, slots).stubs[st.stubs.len() + j] == prev.stubs[st.stubs.len() + j]);
                assert(slots.drop_last()[j] == slots[j]);
            }
        }
    }
}

proof fn lemma_stubs_deferred(ops: Opcodes, st: EState, slots: Seq<u16>)
    ensures
        stubs_spec(ops, st, slots).deferred == st.deferred,
    decreases slots.len(),
{
    if slots.len() > 0 {
        lemma_stubs_deferred(ops, st, slots.drop_last());
    }
}

fn push_all(out: &mut Vec<u8>, bytes: &[u8])
    ensures
        final(out)@ == old(out)@ + bytes@,
{
    let mut i: usize = 0;
    while i < bytes.len()
        invariant
            i <= bytes.len(),
            out@ =~= old(out)@ + bytes@.subrange(0, i as int),
        decreases bytes.len() - i,
    {
        out.push(bytes[i]);
        i += 1;
    }
    assert(bytes@.subrange(0, bytes@.len() as int) =~= bytes@);
}

fn push_le16(out: &mut Vec<u8>, v: u16)
    ensures
        final(out)@ == old(out)@ + le16(v),
{
    out.push(#[verifier::truncate] (v as u8));
    out.push(#[verifier::truncate] ((v >> 8) as u8));
    assert(out@ =~= old(out)@ + le16(v));
}

fn serialize_name_section(out: &mut Vec<u8>, entries: &Vec<(u8, String)>)
    ensures
        final(out)@ == old(out)@ + name_section(names_view(entries@)),
{
    let ghost nv = names_view(entries@);
    push_le16(out, #[verifier::truncate] (entries.len() as u16));
    let ghost o1 = out@;
    let mut i: usize = 0;
    while i < entries.len()
        invariant
            i <= entries.len(),
            nv == names_view(entries@),
            nv.len() == entries@.len(),
            out@ == o1 + name_entries(nv.subrange(0, i as int)),
        decreases entries.len() - i,
    {
        let entry = &entries[i];
        let bytes = entry.1.as_str().as_bytes();
        assert(nv[i as int] == (entry.0, bytes@));
        assert(nv.subrange(0, i as int + 1).drop_last() =~= nv.subrange(0, i as int));
        let ghost pre = out@;
        out.push(entry.0);
        out.push(#[verifier::truncate] (bytes.len() as u8));
        push_all(out, bytes);
        assert(out@ =~= o1 + name_entries(nv.subrange(0, i as int + 1)));
        i += 1;
    }
    assert(nv.subrange(0, nv.len() as int) =~= nv);
    assert(out@ =~= old(out)@ + name_section(nv));
}

/// Insert `x` at its place in an increasing sequence, unless it is there.
pub(crate) fn insert_slot(slots: &mut Vec<u16>, x: u16)
    requires
        strictly_increasing(old(slots)@),
    ensures
        strictly_increasing(final(slots)@),
        forall|y: u16| final(slots)@.contains(y) <==> (old(slots)@.contains(y) || y == x),
{
    let mut i: usize = 0;
    while i < slots.len() && slots[i] < x
        invariant
            i <= slots.len(),
            forall|j: int| 0 <= j < i ==> slots@[j] < x,
        decreases slots.len() - i,
    {
        i += 1;
    }
    if i < slots.len() && slots[i] == x {
        return;
    }
    let ghost s0 = slots@;
    slots.insert(i, x);
    proof {
        let s1 = slots@;
        assert(s1 =~= s0.insert(i as int, x));
        assert forall|a: int, b: int| 0 <= a < b < s1.len() implies s1[a] < s1[b] by {
            if b < i {
            } else if b == i {
            } else if a < i {
                assert(s0[a] < x);
                assert(x <= s0[i as int]);
                assert(s0[i as int] <= s0[b - 1]);
            } else if a == i {
                assert(x <= s0[i as int]);
                assert(s0[i as int] != x);
                assert(s0[i as int] <= s0[b - 1]);
            } else {
            }
        }
        assert forall|y: u16| s1.contains(y) <==> (s0.contains(y) || y == x) by {
            if s1.contains(y) {
                let k = choose|k: int| 0 <= k < s1.len() && s1[k] == y;
                if k < i {
                    assert(s0[k] == y);
                } else if k > i {
                    assert(s0[k - 1] == y);
                }
            }
            if s0.contains(y) {
                let k = choose|k: int| 0 <= k < s0.len() && s0[k] == y;
                if k < i {
                    assert(s1[k] == y);
                } else {
                    assert(s1[k + 1] == y);
                }
            }
            if y == x {
                assert(s1[i as int] == y);
            }
        }
    }
}

/// Whether every define of `module` satisfies `shape_fits`.
pub fn module_shape_ok(module: &asm_ir::Module) -> (b: bool)
    ensures
        b == module_shape_fits(module@),
{
    let ghost ds = module@;
    let mut i: usize = 0;
    while i < module.defines.len()
        invariant
            i <= module.defines.len(),
            ds == module@,
            ds.len() == module.defines.len(),
            forall|j: int| 0 <= j < i ==> shape_fits(#[trigger] ds[j].body),
        decreases module.defines.len() - i,
    {
        assert(ds[i as int].body == module.defines@[i as int].body@);
        if !expr_shape_ok(&module.defines[i].body) {
            return false;
        }
        i += 1;
    }
    true
}

pub open spec fn module_shape_fits(ds: Seq<ADefine>) -> bool {
    forall|i: int| 0 <= i < ds.len() ==> shape_fits(#[trigger] ds[i].body)
}

fn expr_shape_ok(expr: &Expr) -> (b: bool)
    ensures
        b == shape_fits(expr@),
    decreases expr, 1int,
{
    match expr {
        Expr::Let(_, val, body) => {
            assert(expr@ == AExpr::Let(expr->Let_0, val@, Box::new((**body)@)));
            let v_ok = match val {
                Val::ContLam(c) => {
                    assert(val@ == AVal::ContLam(c@));
                    assert(c@.body == Box::new((*c.body)@));
                    expr_shape_ok(&*c.body)
                },
                _ => {
                    assert(!(val@ is ContLam));
                    true
                },
            };
            assert(v_ok == (match val@ {
                AVal::ContLam(c) => shape_fits(*c.body),
                _ => true,
            }));
            let b_ok = expr_shape_ok(&**body);
            assert(shape_fits(expr@) == (v_ok && b_ok));
            v_ok && b_ok
        },
        Expr::Letrec(_, fun, body) => {
            assert(fun@.body == Box::new((*fun.body)@));
            assert(expr@ == AExpr::Letrec(expr->Letrec_0, fun@, Box::new((**body)@)));
            let f_ok = expr_shape_ok(&*fun.body);
            let b_ok = expr_shape_ok(&**body);
            f_ok && b_ok
        },
        Expr::Encore(_, args, _) => args.len() <= 254,
        Expr::Match(_, base, cases) => {
            assert(expr@ == AExpr::Match(expr->Match_0, *base, acases_view(cases@)));
            if cases.len() > 256 || (*base as usize) + cases.len() > 256 {
                false
            } else {
                cases_shape_ok(cases)
            }
        },
        Expr::Fin(_) => true,
    }
}

fn cases_shape_ok(cases: &Vec<Case>) -> (b: bool)
    ensures
        b == forall|j: int| 0 <= j < cases@.len() ==> shape_fits(#[trigger] acases_view(cases@)[j].body),
    decreases cases, 0int,
{
    let ghost acs = acases_view(cases@);
    let mut i: usize = 0;
    while i < cases.len()
        invariant
            i <= cases.len(),
            acs == acases_view(cases@),
            forall|j: int| 0 <= j < i ==> shape_fits(#[trigger] acs[j].body),
        decreases cases.len() - i,
    {
        assert(acs[i as int].body == cases@[i as int].body@);
        proof {
            assert(decreases_to!(cases => cases@));
            assert(decreases_to!(cases@ => cases@[i as int]));
            assert(decreases_to!(cases@[i as int] => cases@[i as int].body));
        }
        if !expr_shape_ok(&cases[i].body) {
            return false;
        }
        i += 1;
    }
    true
}

fn collect_extern_slots_module(module: &asm_ir::Module) -> (slots: Vec<u16>)
    ensures
        strictly_increasing(slots@),
        forall|x: u16| slots@.contains(x) <==> module_uses(module@, x),
{
    let ghost ds = module@;
    let mut slots: Vec<u16> = Vec::new();
    let mut i: usize = 0;
    while i < module.defines.len()
        invariant
            i <= module.defines.len(),
            ds == module@,
            ds.len() == module.defines.len(),
            strictly_increasing(slots@),
            forall|x: u16| slots@.contains(x) <==> exists|j: int| 0 <= j < i && uses_extern(#[trigger] ds[j].body, x),
        decreases module.defines.len() - i,
    {
        assert(ds[i as int].body == module.defines@[i as int].body@);
        let ghost pre = slots@;
        slots = collect_extern_slots_expr(&module.defines[i].body, slots);
        proof {
            assert forall|x: u16| slots@.contains(x) <==> exists|j: int| 0 <= j < i + 1 && uses_extern(#[trigger] ds[j].body, x) by {
                if exists|j: int| 0 <= j < i + 1 && uses_extern(#[trigger] ds[j].body, x) {
                    let j = choose|j: int| 0 <= j < i + 1 && uses_extern(#[trigger] ds[j].body, x);
                    if j < i {
                        assert(exists|j: int| 0 <= j < i && uses_extern(#[trigger] ds[j].body, x));
                    }
                }
                if exists|j: int| 0 <= j < i && uses_extern(#[trigger] ds[j].body, x) {
                    let j = choose|j: int| 0 <= j < i && uses_extern(#[trigger] ds[j].body, x);
                    assert(0 <= j < i + 1 && uses_extern(ds[j].body, x));
                }
                if uses_extern(ds[i as int].body, x) {
                    assert(0 <= i < i + 1 && uses_extern(ds[i as int].body, x));
                }
            }
        }
        i += 1;
    }
    slots
}

fn collect_extern_slots_expr(expr: &Expr, slots: Vec<u16>) -> (r: Vec<u16>)
    requires
        strictly_increasing(slots@),
    ensures
        strictly_increasing(r@),
        forall|x: u16| r@.contains(x) <==> (slots@.contains(x) || uses_extern(expr@, x)),
    decreases expr, 1int,
{
    match expr {
        Expr::Let(_, val, body) => {
            assert(expr@ == AExpr::Let(expr->Let_0, val@, Box::new((**body)@)));
            let s1 = collect_extern_slots_val(val, slots);
            let s2 = collect_extern_slots_expr(&**body, s1);
            assert forall|x: u16| uses_extern(expr@, x) <==> (val_uses_extern(val@, x) || uses_extern((**body)@, x)) by {}
            s2
        },
        Expr::Letrec(_, fun, body) => {
            assert(fun@.body == Box::new((*fun.body)@));
            let s1 = collect_extern_slots_expr(&*fun.body, slots);
            collect_extern_slots_expr(&**body, s1)
        },
        Expr::Match(_, _, cases) => {
            collect_extern_slots_cases(cases, slots)
        },
        _ => slots,
    }
}

fn collect_extern_slots_cases(cases: &Vec<Case>, slots: Vec<u16>) -> (r: Vec<u16>)
    requires
        strictly_increasing(slots@),
    ensures
        strictly_increasing(r@),
        forall|x: u16| r@.contains(x) <==> (slots@.contains(x)
            || exists|j: int| 0 <= j < cases@.len() && uses_extern(#[trigger] acases_view(cases@)[j].body, x)),
    decreases cases, 0int,
{
    let ghost acs = acases_view(cases@);
    let ghost s0 = slots@;
    let mut out = slots;
    let mut i: usize = 0;
    while i < cases.len()
        invariant
            i <= cases.len(),
            acs == acases_view(cases@),
            strictly_increasing(out@),
            forall|x: u16| out@.contains(x) <==> (s0.contains(x)
                || exists|j: int| 0 <= j < i && uses_extern(#[trigger] acs[j].body, x)),
        decreases cases.len() - i,
    {
        assert(acs[i as int] == cases@[i as int]@);
        assert(acs[i as int].body == cases@[i as int].body@);
        proof {
            assert(decreases_to!(cases => cases@));
            assert(decreases_to!(cases@ => cases@[i as int]));
            assert(decreases_to!(cases@[i as int] => cases@[i as int].body));
        }
        let ghost pre = out@;
        assert(forall|x: u16| pre.contains(x) <==> (s0.contains(x) || exists|j: int| 0 <= j < i && uses_extern(#[trigger] acs[j].body, x)));
        out = collect_extern_slots_expr(&cases[i].body, out);
        let ghost k = i as int;
        i += 1;
        proof {
            assert(forall|x: u16| out@.contains(x) <==> (pre.contains(x) || uses_extern(acs[k].body, x)));
            assert forall|x: u16| out@.contains(x) <==> (s0.contains(x)
                || exists|j: int| 0 <= j < i && uses_extern(#[trigger] acs[j].body, x)) by {
                assert(pre.contains(x) <==> (s0.contains(x) || exists|j: int| 0 <= j < k && uses_extern(#[trigger] acs[j].body, x)));
                if exists|j: int| 0 <= j < i && uses_extern(#[trigger] acs[j].body, x) {
                    let j = choose|j: int| 0 <= j < i && uses_extern(#[trigger] acs[j].body, x);
                    if j < k {
                        assert(exists|j: int| 0 <= j < k && uses_extern(#[trigger] acs[j].body, x));
                    }
                }
                if exists|j: int| 0 <= j < k && uses_extern(#[trigger] acs[j].body, x) {
                    let j = choose|j: int| 0 <= j < k && uses_extern(#[trigger] acs[j].body, x);
                    assert(0 <= j < i && uses_extern(acs[j].body, x));
                }
                if uses_extern(acs[k].body, x) {
                    assert(0 <= k < i && uses_extern(acs[k].body, x));
                }
            }
        }
    }
    out
}

fn collect_extern_slots_val(val: &Val, slots: Vec<u16>) -> (r: Vec<u16>)
    requires
        strictly_increasing(slots@),
    ensures
        strictly_increasing(r@),
        forall|x: u16| r@.contains(x) <==> (slots@.contains(x) || val_uses_extern(val@, x)),
    decreases val,
{
    let mut slots = slots;
    match val {
        Val::Extern(slot) => {
            assert(val@ == AVal::Extern(*slot));
            insert_slot(&mut slots, *slot);
            assert forall|x: u16| val_uses_extern(val@, x) <==> x == *slot by {}
            slots
        },
        Val::ContLam(cont) => {
            assert(cont@.body == Box::new((*cont.body)@));
            collect_extern_slots_expr(&*cont.body, slots)
        },
        _ => slots,
    }
}

} // verus!