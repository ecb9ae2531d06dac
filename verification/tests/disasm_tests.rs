use encore_compiler::disasm::{decode, decode_op, try_decode_instructions, DisasmError, Op};
use encore_compiler::listing::{disasm, disasm_program, left_panel, reg_name, op_string, render, right_panel};
use encore_compiler::ir::asm_ir::{Define, Expr, Fun, Module, Val, A1, X01};
use encore_compiler::pass::asm_emit::{Emitter, Metadata, Opcodes};
use encore_compiler::program::{parse_program, ProgramError};

const FIN: u8 = 0x01;
const MOV: u8 = 0x02;
const CAPTURE: u8 = 0x03;
const GLOBAL: u8 = 0x04;
const CLOSURE: u8 = 0x05;
const FUNCTION: u8 = 0x06;
const PACK: u8 = 0x07;
const FIELD: u8 = 0x08;
const UNPACK: u8 = 0x09;
const MATCH: u8 = 0x0A;
const BRANCH: u8 = 0x0B;
const ENCORE: u8 = 0x0C;
const INT: u8 = 0x0D;
const INT_0: u8 = 0x0E;
const INT_1: u8 = 0x0F;
const INT_2: u8 = 0x10;
const BYTES: u8 = 0x11;
const INT_ADD: u8 = 0x20;
const EXTERN: u8 = 0x40;
const NULL: u8 = 0xFF;

fn ops() -> Opcodes {
    Opcodes {
        op_fin: FIN,
        op_mov: MOV,
        op_capture: CAPTURE,
        op_global: GLOBAL,
        op_closure: CLOSURE,
        op_function: FUNCTION,
        op_pack: PACK,
        op_field: FIELD,
        op_unpack: UNPACK,
        op_match: MATCH,
        op_branch: BRANCH,
        op_encore: ENCORE,
        op_int: INT,
        op_int_0: INT_0,
        op_int_1: INT_1,
        op_int_2: INT_2,
        op_bytes: BYTES,
        op_int_add: INT_ADD,
        op_int_sub: 0x21,
        op_int_mul: 0x22,
        op_int_eq: 0x23,
        op_int_lt: 0x24,
        op_int_byte: 0x25,
        op_int_div: 0x26,
        op_int_mod: 0x27,
        op_int_sub_sat: 0x28,
        op_int_le: 0x29,
        op_int_and: 0x2A,
        op_int_or: 0x2B,
        op_int_xor: 0x2C,
        op_int_shl: 0x2D,
        op_int_shr: 0x2E,
        op_bytes_len: 0x30,
        op_bytes_get: 0x31,
        op_bytes_concat: 0x32,
        op_bytes_slice: 0x33,
        op_bytes_eq: 0x34,
        op_extern: EXTERN,
        null_reg: NULL,
        magic: b"ENC0".to_vec(),
    }
}


fn program(arity: &[u8], globals: &[u16], code: &[u8], names: &[u8]) -> Vec<u8> {
    let mut b = b"ENC0".to_vec();
    b.extend_from_slice(&(arity.len() as u16).to_le_bytes());
    b.extend_from_slice(&(globals.len() as u16).to_le_bytes());
    b.extend_from_slice(&(code.len() as u16).to_le_bytes());
    b.extend_from_slice(arity);
    for g in globals {
        b.extend_from_slice(&g.to_le_bytes());
    }
    b.extend_from_slice(code);
    b.extend_from_slice(names);
    b
}

#[test]
fn program_roundtrip_with_names() {
    let ops = ops();
    let module = Module {
        defines: vec![Define {
            global: 0,
            body: Expr::Letrec(X01, Fun { captures: vec![], body: Box::new(Expr::Fin(A1)) }, Box::new(Expr::Fin(X01))),
        }],
    };
    let meta = Metadata {
        ctor_names: vec![(0, "Nil".to_string()), (1, "Cons".to_string())],
        global_names: vec![(0, "main".to_string())],
    };
    let binary = Emitter::emit_module(&module, Some(&meta), &ops);
    let prog = parse_program(&ops, &binary).unwrap();
    assert_eq!(prog.arity_table, Vec::<u8>::new());
    assert_eq!(prog.globals, vec![2]);
    assert_eq!(prog.code, vec![FIN, A1, FUNCTION, X01, 8, 0, FIN, X01, FIN, A1]);
    assert_eq!(prog.ctor_names, meta.ctor_names);
    assert_eq!(prog.global_names, meta.global_names);
}

#[test]
fn parse_rejects_bad_magic() {
    let ops = ops();
    assert!(matches!(parse_program(&ops, b"ENC1\0\0\0\0\0\0"), Err(ProgramError::BadMagic)));
    assert!(matches!(parse_program(&ops, b"EN"), Err(ProgramError::BadMagic)));
}

#[test]
fn parse_rejects_truncated_code() {
    let ops = ops();
    let mut b = program(&[], &[0], &[FIN, A1], &[]);
    b.pop();
    assert!(matches!(parse_program(&ops, &b), Err(ProgramError::Truncated)));
}

#[test]
fn parse_rejects_trailing_bytes() {
    let ops = ops();
    let b = program(&[], &[0], &[FIN, A1], &[0, 0, 0, 0, 9]);
    assert!(matches!(parse_program(&ops, &b), Err(ProgramError::TrailingBytes)));
}

#[test]
fn parse_rejects_invalid_name() {
    let ops = ops();
    let b = program(&[], &[0], &[FIN, A1], &[1, 0, 0, 1, 0xFF, 0, 0]);
    assert!(matches!(parse_program(&ops, &b), Err(ProgramError::InvalidName)));
}

#[test]
fn parse_without_names() {
    let ops = ops();
    let b = program(&[3], &[0, 2], &[FIN, A1, FIN, X01], &[]);
    let prog = parse_program(&ops, &b).unwrap();
    assert_eq!(prog.arity_table, vec![3]);
    assert_eq!(prog.globals, vec![0, 2]);
    assert!(prog.ctor_names.is_empty());
    assert!(prog.global_names.is_empty());
}

#[test]
fn decode_lists_labels_and_comments() {
    let ops = ops();
    let code = [
        MATCH, A1, 0, 3, 10, 0, 12, 0, 14, 0,
        FIN, A1,
        FIN, A1,
        PACK, X01, 1, A1,
        GLOBAL, X01, 0,
        INT, X01, 0xFF, 0xFF, 0xFF,
        0x99,
    ];
    let names = [
        2, 0, 0, 3, b'N', b'i', b'l', 1, 4, b'C', b'o', b'n', b's',
        1, 0, 0, 4, b'm', b'a', b'i', b'n',
    ];
    let b = program(&[0, 1], &[0], &code, &names);
    let d = decode(&ops, &b).unwrap();
    assert_eq!(d.arity_table, vec![(0, 0), (1, 1)]);
    assert_eq!(d.globals, vec![(0, "main = @0000".to_string())]);
    assert_eq!(d.code_len, code.len());
    assert_eq!(d.ctor_names.get(&1).map(|s| s.as_str()), Some("Cons"));
    let listing: Vec<(u16, Option<&str>, Option<&str>)> = d
        .instructions
        .iter()
        .map(|i| (i.addr, i.label.as_deref(), i.comment.as_deref()))
        .collect();
    assert_eq!(
        listing,
        vec![
            (0, Some("main"), Some("Nil -> case_000a | Cons -> case_000c | 2 -> case_000e")),
            (10, Some("case_000a"), None),
            (12, Some("case_000c"), None),
            (14, Some("case_000e"), Some("Cons, arity=1")),
            (18, None, Some("main")),
            (21, None, None),
            (26, None, None),
        ]
    );
    assert_eq!(d.instructions[0].op, Op::Match { rs: A1, table: vec![(0, 10), (1, 12), (2, 14)] });
    assert_eq!(d.instructions[3].op, Op::Pack { rd: X01, tag: 1, fields: vec![A1] });
    assert_eq!(d.instructions[5].op, Op::Int { rd: X01, val: -1 });
    assert_eq!(d.instructions[6].op, Op::Unknown(0x99));
}

#[test]
fn decode_labels_function_targets() {
    let ops = ops();
    let b = program(&[], &[2], &[FIN, A1, FUNCTION, X01, 8, 0, FIN, X01, FIN, A1], &[]);
    let d = decode(&ops, &b).unwrap();
    let labels: Vec<Option<&str>> = d.instructions.iter().map(|i| i.label.as_deref()).collect();
    assert_eq!(labels, vec![None, Some("g0"), None, Some("fn_0008")]);
    assert_eq!(d.globals, vec![(0, "@0002".to_string())]);
}

#[test]
fn decode_reports_incomplete_instruction() {
    let ops = ops();
    let b = program(&[], &[], &[FIN], &[]);
    assert!(matches!(decode(&ops, &b), Err(DisasmError::Incomplete)));
    let b = program(&[], &[], &[FIN, A1], &[]);
    assert!(matches!(decode(&ops, &b[1..]), Err(DisasmError::Program(ProgramError::BadMagic))));
}

#[test]
fn decode_op_int_sign_extends() {
    let ops = ops();
    let code = [INT, X01, 0x00, 0x00, 0x80, INT, X01, 0xFF, 0xFF, 0x7F];
    let (op, next) = decode_op(&ops, &code, &[], 0).unwrap();
    assert_eq!(op, Op::Int { rd: X01, val: -0x800000 });
    assert_eq!(next, 5);
    let (op, next) = decode_op(&ops, &code, &[], 5).unwrap();
    assert_eq!(op, Op::Int { rd: X01, val: 0x7FFFFF });
    assert_eq!(next, 10);
}

#[test]
fn decode_op_match_tag_overflow_is_rejected() {
    let ops = ops();
    let code = [MATCH, A1, 255, 2, 0, 0, 0, 0];
    assert!(decode_op(&ops, &code, &[], 0).is_none());
}

#[test]
fn listing_of_matches_and_globals() {
    let ops = ops();
    let code = [
        MATCH, A1, 0, 3, 10, 0, 12, 0, 14, 0,
        FIN, A1,
        FIN, A1,
        PACK, X01, 1, A1,
        GLOBAL, X01, 0,
        INT, X01, 0xFF, 0xFF, 0xFF,
        0x99,
    ];
    let names = [
        2, 0, 0, 3, b'N', b'i', b'l', 1, 4, b'C', b'o', b'n', b's',
        1, 0, 0, 4, b'm', b'a', b'i', b'n',
    ];
    let b = program(&[0, 1], &[0], &code, &names);
    let text = disasm(&ops, &b).unwrap();
    let mut want = String::new();
    want.push_str("--- Arity table (2 entries) ---\n");
    want.push_str("  tag 0: arity 0  (Nil)\n");
    want.push_str("  tag 1: arity 1  (Cons)\n");
    want.push_str("\n--- Globals (1 entries) ---\n");
    want.push_str("  g0 = main = @0000\n");
    want.push_str("\n--- Code (27 bytes) ---\n");
    want.push_str("\n<main>:\n");
    want.push_str(&format!(
        "0000:  {:<40} ; Nil -> case_000a | Cons -> case_000c | 2 -> case_000e\n",
        "MATCH A1 [0:@000a, 1:@000c, 2:@000e]"
    ));
    want.push_str("\n<case_000a>:\n000a:  FIN A1\n");
    want.push_str("\n<case_000c>:\n000c:  FIN A1\n");
    want.push_str(&format!("\n<case_000e>:\n000e:  {:<40} ; Cons, arity=1\n", "PACK X01, tag=1, A1"));
    want.push_str(&format!("0012:  {:<40} ; main\n", "GLOBAL X01, g0"));
    want.push_str("0015:  INT X01, -1\n");
    want.push_str("001a:  ??? (0x99)\n");
    assert_eq!(text, want);
}

#[test]
fn listing_separates_code_after_a_return() {
    let ops = ops();
    let b = program(&[], &[0], &[FIN, A1, FIN, X01], &[]);
    let d = decode(&ops, &b).unwrap();
    let want = "--- Arity table (0 entries) ---\n\
                \n--- Globals (1 entries) ---\n  g0 = @0000\n\
                \n--- Code (4 bytes) ---\n\
                \n<g0>:\n0000:  FIN A1\n\n0002:  FIN X01\n";
    assert_eq!(render(&d), want);
}

#[test]
fn listing_reports_errors() {
    let ops = ops();
    let b = program(&[], &[], &[FIN], &[]);
    assert!(matches!(disasm(&ops, &b), Err(DisasmError::Incomplete)));
    assert!(matches!(disasm(&ops, b"XXXX"), Err(DisasmError::Program(ProgramError::BadMagic))));
}

#[test]
fn op_text_of_each_form() {
    assert_eq!(op_string(&Op::Mov { rd: A1, rs: X01 }), "MOV A1, X01");
    assert_eq!(op_string(&Op::Fin { rs: 0 }), "FIN SELF");
    assert_eq!(op_string(&Op::Encore { rf: 1, rk: NULL }), "ENCORE CONT, NULL");
    assert_eq!(op_string(&Op::Capture { rd: 9, idx: 3 }), "CAPTURE A8, 3");
    assert_eq!(op_string(&Op::Global { rd: 19, idx: 12 }), "GLOBAL X10, g12");
    assert_eq!(op_string(&Op::Closure { rd: X01, target: 0x1f, ncap: 2, caps: vec![A1, 20] }), "CLOSURE X01, @001f, 2, A1, r20");
    assert_eq!(op_string(&Op::Function { rd: X01, target: 0xabcd }), "FUNCTION X01, @abcd");
    assert_eq!(op_string(&Op::Pack { rd: X01, tag: 7, fields: vec![] }), "PACK X01, tag=7");
    assert_eq!(op_string(&Op::Field { rd: X01, rs: A1, idx: 0 }), "FIELD X01, A1, 0");
    assert_eq!(op_string(&Op::Unpack { rd: X01, tag: 2, rs: A1 }), "UNPACK X01, tag=2, A1");
    assert_eq!(op_string(&Op::Match { rs: A1, table: vec![] }), "MATCH A1 []");
    assert_eq!(op_string(&Op::Int { rd: X01, val: -1 }), "INT X01, -1");
    assert_eq!(op_string(&Op::Int { rd: X01, val: 8388607 }), "INT X01, 8388607");
    assert_eq!(op_string(&Op::Int0 { rd: X01 }), "INT_0 X01");
    assert_eq!(op_string(&Op::Int2 { rd: X01 }), "INT_2 X01");
    assert_eq!(op_string(&Op::IntAdd { rd: X01, ra: A1, rb: 3 }), "ADD X01, A1, A2");
    assert_eq!(op_string(&Op::IntLt { rd: X01, ra: A1, rb: 3 }), "LT X01, A1, A2");
    assert_eq!(op_string(&Op::Extern { rd: X01, slot: 300, ra: A1 }), "EXTERN X01, 300, A1");
    assert_eq!(op_string(&Op::Unknown(0x0b)), "??? (0x0b)");
}

#[test]
fn viewer_panels() {
    let ops = ops();
    let code = [
        MATCH, A1, 0, 3, 10, 0, 12, 0, 14, 0,
        FIN, A1,
        FIN, A1,
        PACK, X01, 1, A1,
        GLOBAL, X01, 0,
        INT, X01, 0xFF, 0xFF, 0xFF,
        0x99,
    ];
    let names = [
        2, 0, 0, 3, b'N', b'i', b'l', 1, 4, b'C', b'o', b'n', b's',
        1, 0, 0, 4, b'm', b'a', b'i', b'n',
    ];
    let b = program(&[0, 1], &[0], &code, &names);
    let d = decode(&ops, &b).unwrap();
    assert_eq!(
        left_panel(&d),
        vec![
            "── Arity table (2 entries) ──".to_string(),
            "  tag 0: arity 0".to_string(),
            "  tag 1: arity 1".to_string(),
            String::new(),
            "── Globals (1 entries) ──".to_string(),
            "  g0 = main = @0000".to_string(),
        ]
    );
    let want = vec![
        String::new(),
        "<main>:".to_string(),
        format!("0000:  {:<30} ; Nil -> case_000a | Cons -> case_000c | 2 -> case_000e", "MATCH A1 [0:@000a, 1:@000c, 2:@000e]"),
        String::new(),
        "<case_000a>:".to_string(),
        "000a:  FIN A1".to_string(),
        String::new(),
        "<case_000c>:".to_string(),
        "000c:  FIN A1".to_string(),
        String::new(),
        "<case_000e>:".to_string(),
        format!("000e:  {:<30} ; Cons, arity=1", "PACK X01, tag=1, A1"),
        format!("0012:  {:<30} ; main", "GLOBAL X01, g0"),
        "0015:  INT X01, -1".to_string(),
        "001a:  ??? (0x99)".to_string(),
    ];
    assert_eq!(right_panel(&d), want);
    let plain = program(&[], &[0], &[FIN, A1], &[]);
    let d2 = decode(&ops, &plain).unwrap();
    assert_eq!(left_panel(&d2), vec!["── Globals (1 entries) ──".to_string(), "  g0 = @0000".to_string()]);
}

#[test]
fn listing_of_a_parsed_program() {
    let ops = ops();
    let b = program(&[], &[0], &[FIN, A1, FIN, X01], &[]);
    let prog = parse_program(&ops, &b).unwrap();
    let want = "--- Arity table (0 entries) ---\n\
                \n--- Globals (1 entries) ---\n  g0 = @0000\n\
                \n--- Code (4 bytes) ---\n\
                \n<g0>:\n0000:  FIN A1\n\n0002:  FIN X01\n";
    assert_eq!(disasm_program(&ops, &prog), want);
    assert_eq!(disasm_program(&ops, &prog), disasm(&ops, &b).unwrap());
}

#[test]
fn emitted_integers_decode_back() {
    let ops = ops();
    for n in [-(1 << 23), -7, -1, 3, 1000, (1 << 23) - 1] {
        let mut e = Emitter::new();
        let expr = Expr::Let(X01, Val::Int(n), Box::new(Expr::Fin(X01)));
        e.emit_toplevel(&ops, &expr);
        let code = e.into_bytes();
        let is = try_decode_instructions(&ops, &code, &[]).unwrap();
        assert_eq!(is.len(), 2);
        assert_eq!(is[0].addr, 0);
        assert_eq!(is[0].op, Op::Int { rd: X01, val: n });
        assert_eq!(is[1].addr, 5);
        assert_eq!(is[1].op, Op::Fin { rs: X01 });
    }
}

#[test]
fn register_names() {
    assert_eq!(reg_name(0), "SELF");
    assert_eq!(reg_name(1), "CONT");
    assert_eq!(reg_name(5), "A4");
    assert_eq!(reg_name(12), "X03");
    assert_eq!(reg_name(19), "X10");
    assert_eq!(reg_name(0xFF), "NULL");
    assert_eq!(reg_name(30), "r30");
}
