use encore_compiler::ir::asm_ir::{Case, ContLam, Define, Expr, Fun, Module, Val, A1, CONT, X01};
use encore_compiler::ir::prim::{IntOp, PrimOp};
use encore_compiler::pass::asm_emit::{Emitter, Metadata, Opcodes};
use encore_compiler::program::parse_program;

const FIN: u8 = 0x01;
const MOV: u8 = 0x02;
const CAPTURE: u8 = 0x03;
const GLOBAL: u8 = 0x04;
const CLOSURE: u8 = 0x05;
const FUNCTION: u8 = 0x06;
const PACK: u8 = 0x07;
const FIELD: u8 = 0x08;
const UNPACK: u8 = 0x09;
const MATCH: u8 = 0x0A;
const BRANCH: u8 = 0x0B;
const ENCORE: u8 = 0x0C;
const INT: u8 = 0x0D;
const INT_0: u8 = 0x0E;
const INT_1: u8 = 0x0F;
const INT_2: u8 = 0x10;
const BYTES: u8 = 0x11;
const INT_ADD: u8 = 0x20;
const EXTERN: u8 = 0x40;
const NULL: u8 = 0xFF;

fn ops() -> Opcodes {
    Opcodes {
        op_fin: FIN,
        op_mov: MOV,
        op_capture: CAPTURE,
        op_global: GLOBAL,
        op_closure: CLOSURE,
        op_function: FUNCTION,
        op_pack: PACK,
        op_field: FIELD,
        op_unpack: UNPACK,
        op_match: MATCH,
        op_branch: BRANCH,
        op_encore: ENCORE,
        op_int: INT,
        op_int_0: INT_0,
        op_int_1: INT_1,
        op_int_2: INT_2,
        op_bytes: BYTES,
        op_int_add: INT_ADD,
        op_int_sub: 0x21,
        op_int_mul: 0x22,
        op_int_eq: 0x23,
        op_int_lt: 0x24,
        op_int_byte: 0x25,
        op_int_div: 0x26,
        op_int_mod: 0x27,
        op_int_sub_sat: 0x28,
        op_int_le: 0x29,
        op_int_and: 0x2A,
        op_int_or: 0x2B,
        op_int_xor: 0x2C,
        op_int_shl: 0x2D,
        op_int_shr: 0x2E,
        op_bytes_len: 0x30,
        op_bytes_get: 0x31,
        op_bytes_concat: 0x32,
        op_bytes_slice: 0x33,
        op_bytes_eq: 0x34,
        op_extern: EXTERN,
        null_reg: NULL,
        magic: b"ENC0".to_vec(),
    }
}

fn emit_one(expr: &Expr) -> Vec<u8> {
    let ops = ops();
    let mut emitter = Emitter::new();
    emitter.emit_toplevel(&ops, expr);
    emitter.into_bytes()
}

#[test]
fn test_fin_reg() {
    let expr = Expr::Fin(A1);
    let code = emit_one(&expr);
    assert_eq!(code, [FIN, A1]);
}

#[test]
fn test_let_global_fin() {
    let expr = Expr::Let(X01, Val::Global(0), Box::new(Expr::Fin(X01)));
    let code = emit_one(&expr);
    assert_eq!(code, [GLOBAL, X01, 0, FIN, X01]);
}

#[test]
fn test_let_capture_fin() {
    let expr = Expr::Let(X01, Val::Capture(2), Box::new(Expr::Fin(X01)));
    let code = emit_one(&expr);
    assert_eq!(code, [CAPTURE, X01, 2, FIN, X01]);
}

#[test]
fn test_mov() {
    let expr = Expr::Let(X01, Val::Reg(A1), Box::new(Expr::Fin(X01)));
    let code = emit_one(&expr);
    assert_eq!(code, [MOV, X01, A1, FIN, X01]);
}

#[test]
fn test_match_two_branches() {
    let expr = Expr::Match(
        X01,
        0,
        vec![
            Case { arity: 0, unpack_base: X01, body: Expr::Fin(A1) },
            Case { arity: 0, unpack_base: X01, body: Expr::Fin(CONT) },
        ],
    );
    let code = emit_one(&expr);

    assert_eq!(code[0], BRANCH);
    assert_eq!(code[1], X01);
    assert_eq!(code[2], 0);
    let addr0 = u16::from_le_bytes([code[3], code[4]]);
    let addr1 = u16::from_le_bytes([code[5], code[6]]);
    assert_eq!(code[addr0 as usize], FIN);
    assert_eq!(code[addr0 as usize + 1], A1);
    assert_eq!(code[addr1 as usize], FIN);
    assert_eq!(code[addr1 as usize + 1], CONT);
}

#[test]
fn test_letrec_deferred_body() {
    let expr = Expr::Letrec(
        X01,
        Fun {
            captures: vec![CONT],
            body: Box::new(Expr::Let(X01, Val::Capture(0), Box::new(Expr::Fin(X01)))),
        },
        Box::new(Expr::Fin(X01)),
    );
    let code = emit_one(&expr);

    assert_eq!(code[0], CLOSURE);
    assert_eq!(code[1], X01);
    let body_addr = u16::from_le_bytes([code[2], code[3]]);
    assert_eq!(code[4], 1);
    assert_eq!(code[5], CONT);
    assert_eq!(code[6], FIN);
    assert_eq!(code[7], X01);
    assert_eq!(body_addr, 8);
    assert_eq!(code[8], CAPTURE);
    assert_eq!(code[9], X01);
    assert_eq!(code[10], 0);
    assert_eq!(code[11], FIN);
    assert_eq!(code[12], X01);
}

#[test]
fn test_serialize_roundtrip() {
    let ops = ops();
    let expr = Expr::Let(X01, Val::Global(0), Box::new(Expr::Fin(X01)));
    let mut emitter = Emitter::new();
    emitter.emit_toplevel(&ops, &expr);
    let binary = emitter.serialize(&ops, &[0], None);

    let prog = parse_program(&ops, &binary).unwrap();
    assert_eq!(prog.globals.len(), 1);
    assert_eq!(prog.globals[0], 0);
    assert_eq!(prog.code, [GLOBAL, X01, 0, FIN, X01]);
}

#[test]
fn serialize_layout() {
    let ops = ops();
    let expr = Expr::Let(X01, Val::Global(0), Box::new(Expr::Fin(X01)));
    let mut emitter = Emitter::new();
    emitter.emit_toplevel(&ops, &expr);
    let binary = emitter.serialize(&ops, &[0], None);

    // magic, arity count, global count, code length, entry 0, code
    let mut expected = b"ENC0".to_vec();
    expected.extend_from_slice(&[0, 0, 1, 0, 5, 0, 0, 0]);
    expected.extend_from_slice(&[GLOBAL, X01, 0, FIN, X01]);
    assert_eq!(binary, expected);
}

#[test]
fn test_extern_stub_and_function() {
    let ops = ops();
    let define_body = Expr::Let(X01, Val::Extern(0), Box::new(Expr::Fin(X01)));
    let mut emitter = Emitter::new();
    emitter.emit_extern_stub(&ops, 0);
    emitter.emit_toplevel(&ops, &define_body);
    let code = emitter.into_bytes();

    assert_eq!(code[0], EXTERN);
    assert_eq!(code[1], 10);
    assert_eq!(code[2], 2);
    assert_eq!(code[3], 0);
    assert_eq!(code[4], 0);
    assert_eq!(code[5], MOV);
    assert_eq!(code[6], 2);
    assert_eq!(code[7], 10);
    assert_eq!(code[8], ENCORE);
    assert_eq!(code[9], 1);
    assert_eq!(code[10], NULL);

    assert_eq!(code[11], FUNCTION);
    assert_eq!(code[12], X01);
    assert_eq!(code[13], 0);
    assert_eq!(code[14], 0);
    assert_eq!(code[15], FIN);
    assert_eq!(code[16], X01);
}

#[test]
fn emit_small_ints_use_short_forms() {
    let expr = Expr::Let(
        X01,
        Val::Int(0),
        Box::new(Expr::Let(
            X01,
            Val::Int(2),
            Box::new(Expr::Let(X01, Val::Int(-1), Box::new(Expr::Fin(X01)))),
        )),
    );
    let code = emit_one(&expr);
    assert_eq!(code, [INT_0, X01, INT_2, X01, INT, X01, 0xFF, 0xFF, 0xFF, FIN, X01]);
}

#[test]
fn emit_int_little_endian() {
    let expr = Expr::Let(X01, Val::Int(0x012345), Box::new(Expr::Fin(X01)));
    let code = emit_one(&expr);
    assert_eq!(code, [INT, X01, 0x45, 0x23, 0x01, FIN, X01]);
}

#[test]
fn emit_ctor_records_arity() {
    let ops = ops();
    let expr = Expr::Let(X01, Val::Ctor(3, vec![A1, CONT]), Box::new(Expr::Fin(X01)));
    let mut emitter = Emitter::new();
    emitter.emit_toplevel(&ops, &expr);
    assert_eq!(emitter.arity_table(), &[0, 0, 0, 2]);
    assert_eq!(emitter.into_bytes(), vec![PACK, X01, 3, A1, CONT, FIN, X01]);
}

#[test]
fn emit_call_moves_only_misplaced_arguments() {
    // argument 0 is already in A1; argument 1 must move to A2
    let expr = Expr::Encore(X01, vec![A1, X01], CONT);
    let code = emit_one(&expr);
    assert_eq!(code, [MOV, 3, X01, ENCORE, X01, CONT]);
}

#[test]
fn emit_prim_and_bytes() {
    let expr = Expr::Let(
        X01,
        Val::Prim(PrimOp::Int(IntOp::Add), vec![A1, CONT]),
        Box::new(Expr::Let(X01, Val::Bytes(vec![7, 8]), Box::new(Expr::Fin(X01)))),
    );
    let code = emit_one(&expr);
    assert_eq!(code, [INT_ADD, X01, A1, CONT, BYTES, X01, 2, 7, 8, FIN, X01]);
}

#[test]
fn emit_three_way_match_with_unpack() {
    let expr = Expr::Match(
        A1,
        4,
        vec![
            Case { arity: 0, unpack_base: X01, body: Expr::Fin(A1) },
            Case { arity: 2, unpack_base: X01, body: Expr::Fin(X01) },
            Case { arity: 0, unpack_base: X01, body: Expr::Fin(CONT) },
        ],
    );
    let ops = ops();
    let mut emitter = Emitter::new();
    emitter.emit_toplevel(&ops, &expr);
    assert_eq!(emitter.arity_table(), &[0, 0, 0, 0, 0, 2]);
    let code = emitter.into_bytes();
    // header, three holes patched with the branch addresses
    assert_eq!(&code[0..4], &[MATCH, A1, 4, 3]);
    assert_eq!(&code[4..10], &[10, 0, 12, 0, 18, 0]);
    assert_eq!(&code[10..12], &[FIN, A1]);
    assert_eq!(&code[12..18], &[UNPACK, X01, 5, A1, FIN, X01]);
    assert_eq!(&code[18..20], &[FIN, CONT]);
}

#[test]
fn emit_continuations_last_deferred_first() {
    // two continuations: the second one's body is emitted first
    let expr = Expr::Let(
        X01,
        Val::ContLam(ContLam { captures: vec![], body: Box::new(Expr::Fin(A1)) }),
        Box::new(Expr::Let(
            X01,
            Val::ContLam(ContLam { captures: vec![], body: Box::new(Expr::Fin(CONT)) }),
            Box::new(Expr::Fin(X01)),
        )),
    );
    let code = emit_one(&expr);
    assert_eq!(code, [FUNCTION, X01, 12, 0, FUNCTION, X01, 10, 0, FIN, X01, FIN, CONT, FIN, A1]);
}

#[test]
fn emit_module_with_extern_and_names() {
    let ops = ops();
    let module = Module {
        defines: vec![
            Define { global: 0, body: Expr::Let(X01, Val::Extern(1), Box::new(Expr::Fin(X01))) },
            Define { global: 1, body: Expr::Fin(A1) },
        ],
    };
    let meta = Metadata { ctor_names: vec![(0, "Nil".to_string())], global_names: vec![] };
    let binary = Emitter::emit_module(&module, Some(&meta), &ops);

    let mut code = vec![FIN, A1];
    code.extend_from_slice(&[EXTERN, X01, A1, 1, 0, MOV, A1, X01, ENCORE, CONT, NULL]);
    code.extend_from_slice(&[FUNCTION, X01, 2, 0, FIN, X01]);
    code.extend_from_slice(&[FIN, A1]);
    let mut expected = b"ENC0".to_vec();
    expected.extend_from_slice(&[0, 0, 2, 0, code.len() as u8, 0]);
    expected.extend_from_slice(&[13, 0, 19, 0]);
    expected.extend_from_slice(&code);
    expected.extend_from_slice(&[1, 0, 0, 3, b'N', b'i', b'l']);
    expected.extend_from_slice(&[0, 0]);
    assert_eq!(binary, expected);
}
