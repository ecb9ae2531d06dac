use vstd::prelude::*;
use super::prim::PrimOp;
use super::cps::{clone_bytes, clone_names};

verus! {

pub type Name = String;
pub type Tag = u8;

/// Direct-style expressions with named variables.
#[derive(Debug)]
pub enum Expr {
    Var(Name),
    Lambda(Vec<Name>, Box<Expr>),
    Apply(Box<Expr>, Vec<Expr>),
    /// `Let(x, bound, body)`.
    Let(Name, Box<Expr>, Box<Expr>),
    /// `Letrec(f, x, fun_body, rest)`: the one-parameter function `f`.
    Letrec(Name, Name, Box<Expr>, Box<Expr>),
    Ctor(Tag, Vec<Expr>),
    Field(Box<Expr>, u8),
    Match(Box<Expr>, Tag, Vec<Case>),
    Int(i32),
    Bytes(Vec<u8>),
    Prim(PrimOp, Vec<Expr>),
    Extern(u16),
}

#[derive(Debug)]
pub struct Case {
    pub binds: Vec<Name>,
    pub body: Expr,
}

#[derive(Debug)]
pub struct Define {
    pub name: Name,
    pub body: Expr,
}

#[derive(Debug)]
pub struct Module {
    pub defines: Vec<Define>,
}

// ── Mathematical model ───────────────────────────────────────────────────────

pub type DName = Seq<char>;

pub enum DExpr {
    Var(DName),
    Lambda(Seq<DName>, Box<DExpr>),
    Apply(Box<DExpr>, Seq<DExpr>),
    Let(DName, Box<DExpr>, Box<DExpr>),
    Letrec(DName, DName, Box<DExpr>, Box<DExpr>),
    Ctor(Tag, Seq<DExpr>),
    Field(Box<DExpr>, u8),
    Match(Box<DExpr>, Tag, Seq<DCase>),
    Int(i32),
    Bytes(Seq<u8>),
    Prim(PrimOp, Seq<DExpr>),
    Extern(u16),
}

pub struct DCase {
    pub binds: Seq<DName>,
    pub body: DExpr,
}

pub struct DDefine {
    pub name: DName,
    pub body: DExpr,
}

pub open spec fn dnames_view(ns: Seq<Name>) -> Seq<DName> {
    ns.map_values(|s: Name| s@)
}

pub open spec fn dexpr_view(e: Expr) -> DExpr
    decreases e,
{
    match e {
        Expr::Var(n) => DExpr::Var(n@),
        Expr::Lambda(ps, b) => DExpr::Lambda(dnames_view(ps@), Box::new(dexpr_view(*b))),
        Expr::Apply(f, a) => DExpr::Apply(Box::new(dexpr_view(*f)), dexprs_view(a@)),
        Expr::Let(n, a, b) => DExpr::Let(n@, Box::new(dexpr_view(*a)), Box::new(dexpr_view(*b))),
        Expr::Letrec(f, x, a, b) => DExpr::Letrec(f@, x@, Box::new(dexpr_view(*a)), Box::new(dexpr_view(*b))),
        Expr::Ctor(t, fs) => DExpr::Ctor(t, dexprs_view(fs@)),
        Expr::Field(e, i) => DExpr::Field(Box::new(dexpr_view(*e)), i),
        Expr::Match(e, t, cs) => DExpr::Match(Box::new(dexpr_view(*e)), t, dcases_view(cs@)),
        Expr::Int(n) => DExpr::Int(n),
        Expr::Bytes(b) => DExpr::Bytes(b@),
        Expr::Prim(op, a) => DExpr::Prim(op, dexprs_view(a@)),
        Expr::Extern(s) => DExpr::Extern(s),
    }
}

pub open spec fn dexprs_view(es: Seq<Expr>) -> Seq<DExpr>
    decreases es,
{
    Seq::new(es.len(), |i: int| if 0 <= i < es.len() { dexpr_view(es[i]) } else { arbitrary() })
}

pub open spec fn dcase_view(c: Case) -> DCase
    decreases c,
{
    DCase { binds: dnames_view(c.binds@), body: dexpr_view(c.body) }
}

pub open spec fn dcases_view(cs: Seq<Case>) -> Seq<DCase>
    decreases cs,
{
    Seq::new(cs.len(), |i: int| if 0 <= i < cs.len() { dcase_view(cs[i]) } else { arbitrary() })
}

pub open spec fn ddefines_view(ds: Seq<Define>) -> Seq<DDefine> {
    ds.map_values(|d: Define| DDefine { name: d.name@, body: dexpr_view(d.body) })
}

impl View for Expr {
    type V = DExpr;

    open spec fn view(&self) -> DExpr {
        dexpr_view(*self)
    }
}

impl View for Case {
    type V = DCase;

    open spec fn view(&self) -> DCase {
        dcase_view(*self)
    }
}

impl View for Module {
    type V = Seq<DDefine>;

    open spec fn view(&self) -> Seq<DDefine> {
        ddefines_view(self.defines@)
    }
}

// ── Deep copies ──────────────────────────────────────────────────────────────

pub fn clone_dexpr(e: &Expr) -> (res: Expr)
    ensures
        res@ == e@,
    decreases *e,
{
    match e {
        Expr::Var(n) => Expr::Var(n.clone()),
        Expr::Lambda(ps, b) => {
            let ps2 = clone_names(ps);
            assert(dnames_view(ps2@) =~= dnames_view(ps@));
            Expr::Lambda(ps2, Box::new(clone_dexpr(b)))
        },
        Expr::Apply(f, a) => Expr::Apply(Box::new(clone_dexpr(f)), clone_dexprs(a)),
        Expr::Let(n, a, b) => Expr::Let(n.clone(), Box::new(clone_dexpr(a)), Box::new(clone_dexpr(b))),
        Expr::Letrec(f, x, a, b) => Expr::Letrec(f.clone(), x.clone(), Box::new(clone_dexpr(a)), Box::new(clone_dexpr(b))),
        Expr::Ctor(t, fs) => Expr::Ctor(*t, clone_dexprs(fs)),
        Expr::Field(x, i) => Expr::Field(Box::new(clone_dexpr(x)), *i),
        Expr::Match(x, t, cs) => Expr::Match(Box::new(clone_dexpr(x)), *t, clone_dcases(cs)),
        Expr::Int(n) => Expr::Int(*n),
        Expr::Bytes(b) => Expr::Bytes(clone_bytes(b)),
        Expr::Prim(op, a) => Expr::Prim(*op, clone_dexprs(a)),
        Expr::Extern(s) => Expr::Extern(*s),
    }
}

pub fn clone_dexprs(es: &Vec<Expr>) -> (res: Vec<Expr>)
    ensures
        dexprs_view(res@) == dexprs_view(es@),
    decreases *es,
{
    let mut out: Vec<Expr> = Vec::new();
    let mut i: usize = 0;
    while i < es.len()
        invariant
            i <= es@.len(),
            out@.len() == i,
            forall|j: int| 0 <= j < i ==> (#[trigger] out@[j])@ == es@[j]@,
        decreases es@.len() - i,
    {
        out.push(clone_dexpr(&es[i]));
        i += 1;
    }
    assert(dexprs_view(out@) =~= dexprs_view(es@));
    out
}

pub fn clone_dcases(cs: &Vec<Case>) -> (res: Vec<Case>)
    ensures
        dcases_view(res@) == dcases_view(cs@),
    decreases *cs,
{
    let mut out: Vec<Case> = Vec::new();
    let mut i: usize = 0;
    while i < cs.len()
        invariant
            i <= cs@.len(),
            out@.len() == i,
            forall|j: int| 0 <= j < i ==> (#[trigger] out@[j])@ == cs@[j]@,
        decreases cs@.len() - i,
    {
        let c = &cs[i];
        let binds = clone_names(&c.binds);
        assert(dnames_view(binds@) =~= dnames_view(c.binds@));
        out.push(Case { binds, body: clone_dexpr(&c.body) });
        i += 1;
    }
    assert(dcases_view(out@) =~= dcases_view(cs@));
    out
}

impl Clone for Expr {
    fn clone(&self) -> (res: Self)
        ensures
            res@ == self@,
    {
        clone_dexpr(self)
    }
}

impl Clone for Case {
    fn clone(&self) -> (res: Self)
        ensures
            res@ == self@,
    {
        let binds = clone_names(&self.binds);
        assert(dnames_view(binds@) =~= dnames_view(self.binds@));
        Case { binds, body: clone_dexpr(&self.body) }
    }
}

impl Clone for Define {
    fn clone(&self) -> (res: Self)
        ensures
            res.name@ == self.name@,
            res.body@ == self.body@,
    {
        Define { name: self.name.clone(), body: clone_dexpr(&self.body) }
    }
}

impl Clone for Module {
    fn clone(&self) -> (res: Self)
        ensures
            res@ == self@,
    {
        let mut out: Vec<Define> = Vec::new();
        let mut i: usize = 0;
        while i < self.defines.len()
            invariant
                i <= self.defines@.len(),
                out@.len() == i,
                forall|j: int| 0 <= j < i ==> (#[trigger] out@[j]).name@ == self.defines@[j].name@
                    && out@[j].body@ == self.defines@[j].body@,
            decreases self.defines@.len() - i,
        {
            let d = &self.defines[i];
            out.push(Define { name: d.name.clone(), body: clone_dexpr(&d.body) });
            i += 1;
        }
        let res = Module { defines: out };
        assert(res@ =~= self@);
        res
    }
}

} // verus!
