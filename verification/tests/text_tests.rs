use encore_compiler::error::CompileError;
use encore_compiler::ir::cps::{Case, Cont, Define, Expr, Fun, Module, Val};
use encore_compiler::ir::prim::{BytesOp, IntOp, PrimOp};
use encore_compiler::pipeline::{bindings_text, rust_const_name};

fn n(s: &str) -> String {
    s.to_string()
}

fn names(xs: &[&str]) -> Vec<String> {
    xs.iter().map(|x| x.to_string()).collect()
}

fn let_(name: &str, val: Val, body: Expr) -> Expr {
    Expr::Let(n(name), val, Box::new(body))
}

fn fin(x: &str) -> Expr {
    Expr::Fin(n(x))
}

fn val_line(v: Val) -> String {
    let_("v", v, fin("v")).to_text()
}

#[test]
fn cps_text_nests_bodies() {
    let e = let_(
        "x",
        Val::Int(-3),
        Expr::Letrec(
            n("f"),
            Fun {
                args: names(&["a", "b"]),
                cont: n("k"),
                body: Box::new(Expr::Encore(n("k"), names(&["a"]), n("k2"))),
            },
            Box::new(Expr::Match(
                n("x"),
                2,
                vec![
                    Case { binds: vec![], body: fin("x") },
                    Case {
                        binds: names(&["p", "q"]),
                        body: let_(
                            "c",
                            Val::Cont(Cont { params: names(&["r"]), body: Box::new(fin("r")) }),
                            fin("c"),
                        ),
                    },
                ],
            )),
        ),
    );
    let want = "let x = -3\n\
                letrec f(a, b) -> k =\n  encore k(a) -> k2\n\
                match x (base=2)\n\
                | 2 ->\n  fin x\n\
                | 3(p, q) ->\n  let c = cont(r) =>\n    fin r\n  fin c";
    assert_eq!(e.to_text(), want);
}

#[test]
fn cps_text_of_values() {
    assert_eq!(val_line(Val::Var(n("y"))), "let v = y\nfin v");
    assert_eq!(val_line(Val::NullCont), "let v = null_cont\nfin v");
    assert_eq!(val_line(Val::Extern(7)), "let v = extern(7)\nfin v");
    assert_eq!(val_line(Val::Field(n("p"), 2)), "let v = field(p, 2)\nfin v");
    assert_eq!(val_line(Val::Ctor(1, names(&["a", "b"]))), "let v = ctor(1, a, b)\nfin v");
    assert_eq!(val_line(Val::Ctor(0, vec![])), "let v = ctor(0)\nfin v");
    assert_eq!(val_line(Val::Bytes(vec![65, 0, 255])), "let v = bytes([65, 0, 255])\nfin v");
    assert_eq!(val_line(Val::Bytes(vec![])), "let v = bytes([])\nfin v");
    assert_eq!(val_line(Val::Int(0)), "let v = 0\nfin v");
    assert_eq!(
        val_line(Val::Prim(PrimOp::Int(IntOp::Add), names(&["a", "b"]))),
        "let v = int.add(a, b)\nfin v"
    );
    assert_eq!(val_line(Val::Prim(PrimOp::Bytes(BytesOp::Len), names(&["s"]))), "let v = bytes.len(s)\nfin v");
}

#[test]
fn prim_names() {
    assert_eq!(PrimOp::Int(IntOp::Lt).name(), "int.lt");
    assert_eq!(PrimOp::Int(IntOp::Byte).name(), "int.byte");
    assert_eq!(PrimOp::Int(IntOp::SubSat).name(), "int.sub_sat");
    assert_eq!(PrimOp::Bytes(BytesOp::Concat).name(), "bytes.concat");
    assert_eq!(PrimOp::Bytes(BytesOp::Eq).name(), "bytes.eq");
}

#[test]
fn module_text_separates_defines() {
    let m = Module {
        defines: vec![
            Define { name: n("one"), body: fin("a") },
            Define { name: n("two"), body: let_("b", Val::Int(2), fin("b")) },
        ],
    };
    assert_eq!(m.to_text(), "define one =\nfin a\n\ndefine two =\nlet b = 2\nfin b");
    assert_eq!(Module { defines: vec![] }.to_text(), "");
}

#[test]
fn compile_error_messages() {
    assert_eq!(
        CompileError::TooManyGlobals { count: 300, max: 256 }.message(),
        "too many top-level defines: 300 (max 256)"
    );
    assert_eq!(
        CompileError::CodeTooLarge { size: 70000, max: 65535 }.message(),
        "bytecode too large: 70000 bytes (max 65535, code addresses are u16)"
    );
    assert_eq!(
        CompileError::BytesLiteralTooLong { len: 300, max: 255 }.message(),
        "byte-string literal too long: 300 bytes (max 255)"
    );
    assert_eq!(
        CompileError::TooManyCaptures { count: 9, max: 8 }.message(),
        "closure captures too many values: 9 (max 8)"
    );
    assert_eq!(
        CompileError::CtorTooWide { tag: 12, arity: 9, max: 8 }.message(),
        "constructor tag 12 has too many fields: 9 (max 8)"
    );
}

#[test]
fn const_names() {
    assert_eq!(rust_const_name("main"), "MAIN");
    assert_eq!(rust_const_name("fooBar"), "FOO_BAR");
    assert_eq!(rust_const_name("Cons"), "CONS");
    assert_eq!(rust_const_name("listNatOfBytes"), "LIST_NAT_OF_BYTES");
    assert_eq!(rust_const_name("a_b"), "A_B");
    assert_eq!(rust_const_name(""), "");
}

#[test]
fn bindings_source() {
    let globals = vec![(0u8, n("main")), (1u8, n("mapList"))];
    let ctors = vec![(5u8, n("Some"))];
    let want = "pub mod funcs {\n\
                \x20   #[allow(dead_code)]\n    pub const MAIN: usize = 0;\n\
                \x20   #[allow(dead_code)]\n    pub const MAP_LIST: usize = 1;\n\
                }\n\npub mod ctors {\n\
                \x20   #[allow(dead_code)]\n    pub const SOME: u8 = 5;\n\
                }\n";
    assert_eq!(bindings_text(&globals, &ctors), want);
    assert_eq!(bindings_text(&vec![], &vec![]), "pub mod funcs {\n}\n\npub mod ctors {\n}\n");
}
