use encore_compiler::disasm::decode;
use encore_compiler::ir::ds::{Define, Expr, Module};
use encore_compiler::ir::dsi;
use encore_compiler::pass::asm_emit::Opcodes;
use encore_compiler::pass::cps_optimize::OptimizeConfig;
use encore_compiler::pass::dsi_resolve;
use encore_compiler::pipeline::{compile_module, global_names, try_compile_module};
use encore_compiler::program::parse_program;

fn ops() -> Opcodes {
    Opcodes {
        op_fin: 0x01,
        op_mov: 0x02,
        op_capture: 0x03,
        op_global: 0x04,
        op_closure: 0x05,
        op_function: 0x06,
        op_pack: 0x07,
        op_field: 0x08,
        op_unpack: 0x09,
        op_match: 0x0A,
        op_branch: 0x0B,
        op_encore: 0x0C,
        op_int: 0x0D,
        op_int_0: 0x0E,
        op_int_1: 0x0F,
        op_int_2: 0x10,
        op_bytes: 0x11,
        op_int_add: 0x20,
        op_int_sub: 0x21,
        op_int_mul: 0x22,
        op_int_eq: 0x23,
        op_int_lt: 0x24,
        op_int_byte: 0x25,
        op_int_div: 0x26,
        op_int_mod: 0x27,
        op_int_sub_sat: 0x28,
        op_int_le: 0x29,
        op_int_and: 0x2A,
        op_int_or: 0x2B,
        op_int_xor: 0x2C,
        op_int_shl: 0x2D,
        op_int_shr: 0x2E,
        op_bytes_len: 0x30,
        op_bytes_get: 0x31,
        op_bytes_concat: 0x32,
        op_bytes_slice: 0x33,
        op_bytes_eq: 0x34,
        op_extern: 0x40,
        null_reg: 0xFF,
        magic: b"ENC0".to_vec(),
    }
}


fn var(s: &str) -> Expr {
    Expr::Var(s.to_string())
}

fn define(name: &str, body: Expr) -> Define {
    Define { name: name.to_string(), body }
}

fn identity_module() -> Module {
    Module {
        defines: vec![
            define("id", Expr::Lambda(vec!["x".to_string()], Box::new(var("x")))),
            define("main", Expr::Apply(Box::new(var("id")), vec![Expr::Ctor(1, vec![])])),
        ],
    }
}

#[test]
fn resolve_gives_de_bruijn_indices() {
    let m = dsi_resolve::try_resolve_module(identity_module()).unwrap();
    assert_eq!(m.defines.len(), 2);
    match &m.defines[0].body {
        dsi::Expr::Lambda(1, body) => assert!(matches!(**body, dsi::Expr::Var(0))),
        _ => panic!("expected a one-parameter lambda"),
    }
    match &m.defines[1].body {
        dsi::Expr::Apply(f, args) => {
            // `id` is the first define: one binder below `main`
            assert!(matches!(**f, dsi::Expr::Var(1)));
            assert_eq!(args.len(), 1);
        },
        _ => panic!("expected an application"),
    }
}

#[test]
fn resolve_rejects_unbound_names() {
    let m = Module { defines: vec![define("main", var("nowhere"))] };
    assert!(dsi_resolve::try_resolve_module(m).is_none());
}

#[test]
fn resolve_sees_later_defines_as_outer() {
    // a define may refer to itself and to defines before it
    let m = Module { defines: vec![define("a", Expr::Int(1)), define("b", var("a"))] };
    let r = dsi_resolve::try_resolve_module(m).unwrap();
    assert!(matches!(r.defines[1].body, dsi::Expr::Var(1)));
}

#[test]
fn compile_identity_program() {
    let ops = ops();
    let bytes = try_compile_module(identity_module(), None, None, &ops).unwrap();
    let prog = parse_program(&ops, &bytes).unwrap();
    assert_eq!(prog.globals.len(), 2);
    assert_eq!(&prog.code[0..2], &[0x01, 0x02]);
    let listing = decode(&ops, &bytes).unwrap();
    assert_eq!(listing.globals.len(), 2);
    assert!(listing.instructions.len() > 2);
}

#[test]
fn compile_module_matches_checked_version() {
    let ops = ops();
    let checked = try_compile_module(identity_module(), Some(OptimizeConfig::default()), None, &ops).unwrap();
    let direct = compile_module(identity_module(), Some(OptimizeConfig::default()), None, &ops);
    assert_eq!(checked, direct);
}

#[test]
fn compile_rejects_unbound_names() {
    let ops = ops();
    let m = Module { defines: vec![define("main", var("missing"))] };
    assert!(try_compile_module(m, None, None, &ops).is_none());
}

#[test]
fn compile_is_deterministic() {
    let ops = ops();
    let a = try_compile_module(identity_module(), None, None, &ops).unwrap();
    let b = try_compile_module(identity_module(), None, None, &ops).unwrap();
    assert_eq!(a, b);
}

#[test]
fn global_names_index_the_defines() {
    let names = global_names(&identity_module());
    assert_eq!(names, vec![(0, "id".to_string()), (1, "main".to_string())]);
}
