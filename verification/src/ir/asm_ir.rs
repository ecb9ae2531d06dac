use vstd::prelude::*;
use super::prim::PrimOp;

verus! {

pub type Tag = u8;
pub type Reg = u8;

pub const SELF: Reg = 0;
pub const CONT: Reg = 1;
pub const A1: Reg = 2;
pub const A2: Reg = 3;
pub const A3: Reg = 4;
pub const A4: Reg = 5;
pub const A5: Reg = 6;
pub const A6: Reg = 7;
pub const A7: Reg = 8;
pub const A8: Reg = 9;
pub const X01: Reg = 10;
pub const NULL: Reg = 0xFF;

/// A function: the registers it captures and its body.
#[derive(Debug, PartialEq)]
pub struct Fun {
    pub captures: Vec<Reg>,
    pub body: Box<Expr>,
}

/// A continuation: the registers it captures and its body.
#[derive(Debug, PartialEq)]
pub struct ContLam {
    pub captures: Vec<Reg>,
    pub body: Box<Expr>,
}

/// A match branch: how many fields it unpacks, into consecutive registers
/// starting at `unpack_base`.
#[derive(Debug, PartialEq)]
pub struct Case {
    pub arity: u8,
    pub unpack_base: Reg,
    pub body: Expr,
}

#[derive(Debug, PartialEq)]
pub enum Val {
    Reg(Reg),
    Capture(u8),
    Global(u8),
    ContLam(ContLam),
    Ctor(Tag, Vec<Reg>),
    Field(Reg, u8),
    Int(i32),
    Bytes(Vec<u8>),
    Prim(PrimOp, Vec<Reg>),
    Extern(u16),
}

#[derive(Debug, PartialEq)]
pub enum Expr {
    Let(Reg, Val, Box<Expr>),
    Letrec(Reg, Fun, Box<Expr>),
    Encore(Reg, Vec<Reg>, Reg),
    Match(Reg, Tag, Vec<Case>),
    Fin(Reg),
}

#[derive(Debug, PartialEq)]
pub struct Define {
    pub global: u8,
    pub body: Expr,
}

#[derive(Debug, PartialEq)]
pub struct Module {
    pub defines: Vec<Define>,
}

// ── Mathematical model ───────────────────────────────────────────────────────

pub struct AFun {
    pub captures: Seq<Reg>,
    pub body: Box<AExpr>,
}

pub struct AContLam {
    pub captures: Seq<Reg>,
    pub body: Box<AExpr>,
}

pub struct ACase {
    pub arity: u8,
    pub unpack_base: Reg,
    pub body: AExpr,
}

pub enum AVal {
    Reg(Reg),
    Capture(u8),
    Global(u8),
    ContLam(AContLam),
    Ctor(Tag, Seq<Reg>),
    Field(Reg, u8),
    Int(i32),
    Bytes(Seq<u8>),
    Prim(PrimOp, Seq<Reg>),
    Extern(u16),
}

pub enum AExpr {
    Let(Reg, AVal, Box<AExpr>),
    Letrec(Reg, AFun, Box<AExpr>),
    Encore(Reg, Seq<Reg>, Reg),
    Match(Reg, Tag, Seq<ACase>),
    Fin(Reg),
}

pub struct ADefine {
    pub global: u8,
    pub body: AExpr,
}

pub open spec fn aexpr_view(e: Expr) -> AExpr
    decreases e,
{
    match e {
        Expr::Let(r, v, b) => AExpr::Let(r, aval_view(v), Box::new(aexpr_view(*b))),
        Expr::Letrec(r, f, b) => AExpr::Letrec(r, afun_view(f), Box::new(aexpr_view(*b))),
        Expr::Encore(f, a, k) => AExpr::Encore(f, a@, k),
        Expr::Match(r, t, cs) => AExpr::Match(r, t, acases_view(cs@)),
        Expr::Fin(r) => AExpr::Fin(r),
    }
}

pub open spec fn aval_view(v: Val) -> AVal
    decreases v,
{
    match v {
        Val::Reg(r) => AVal::Reg(r),
        Val::Capture(i) => AVal::Capture(i),
        Val::Global(i) => AVal::Global(i),
        Val::ContLam(c) => AVal::ContLam(acont_view(c)),
        Val::Ctor(t, fs) => AVal::Ctor(t, fs@),
        Val::Field(r, i) => AVal::Field(r, i),
        Val::Int(n) => AVal::Int(n),
        Val::Bytes(b) => AVal::Bytes(b@),
        Val::Prim(op, rs) => AVal::Prim(op, rs@),
        Val::Extern(s) => AVal::Extern(s),
    }
}

pub open spec fn afun_view(f: Fun) -> AFun
    decreases f,
{
    AFun { captures: f.captures@, body: Box::new(aexpr_view(*f.body)) }
}

pub open spec fn acont_view(c: ContLam) -> AContLam
    decreases c,
{
    AContLam { captures: c.captures@, body: Box::new(aexpr_view(*c.body)) }
}

pub open spec fn acase_view(c: Case) -> ACase
    decreases c,
{
    ACase { arity: c.arity, unpack_base: c.unpack_base, body: aexpr_view(c.body) }
}

pub open spec fn acases_view(cs: Seq<Case>) -> Seq<ACase>
    decreases cs,
{
    Seq::new(cs.len(), |i: int| if 0 <= i < cs.len() { acase_view(cs[i]) } else { arbitrary() })
}

pub open spec fn adefines_view(ds: Seq<Define>) -> Seq<ADefine> {
    ds.map_values(|d: Define| ADefine { global: d.global, body: aexpr_view(d.body) })
}

impl View for Expr {
    type V = AExpr;

    open spec fn view(&self) -> AExpr {
        aexpr_view(*self)
    }
}

impl View for Val {
    type V = AVal;

    open spec fn view(&self) -> AVal {
        aval_view(*self)
    }
}

impl View for Fun {
    type V = AFun;

    open spec fn view(&self) -> AFun {
        afun_view(*self)
    }
}

impl View for ContLam {
    type V = AContLam;

    open spec fn view(&self) -> AContLam {
        acont_view(*self)
    }
}

impl View for Case {
    type V = ACase;

    open spec fn view(&self) -> ACase {
        acase_view(*self)
    }
}

impl View for Module {
    type V = Seq<ADefine>;

    open spec fn view(&self) -> Seq<ADefine> {
        adefines_view(self.defines@)
    }
}

/// Every call passes at most 254 arguments, so that argument `i` has the
/// register `A1 + i`.
pub open spec fn encores_fit(e: AExpr) -> bool
    decreases e,
{
    match e {
        AExpr::Let(_, v, b) => encores_fit_v(v) && encores_fit(*b),
        AExpr::Letrec(_, f, b) => encores_fit(*f.body) && encores_fit(*b),
        AExpr::Encore(_, a, _) => a.len() <= 254,
        AExpr::Match(_, _, cs) => forall|i: int| 0 <= i < cs.len() ==> encores_fit(#[trigger] cs[i].body),
        AExpr::Fin(_) => true,
    }
}

pub open spec fn encores_fit_v(v: AVal) -> bool
    decreases v,
{
    match v {
        AVal::ContLam(c) => encores_fit(*c.body),
        _ => true,
    }
}

} // verus!
