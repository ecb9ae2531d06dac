use vstd::prelude::*;
use super::prim::PrimOp;

verus! {

pub type Tag = u8;
pub type Index = usize;

/// Direct-style expressions whose variables are de Bruijn indices: `Var(0)`
/// is the innermost binder.
pub enum Expr {
    Var(Index),
    /// A function of the given number of parameters.
    Lambda(usize, Box<Expr>),
    Apply(Box<Expr>, Vec<Expr>),
    /// `Let(bound, body)`: `body` sees the bound value as index 0.
    Let(Box<Expr>, Box<Expr>),
    /// `Letrec(fun_body, rest)`: `fun_body` sees the function as index 1 and
    /// its parameter as index 0; `rest` sees the function as index 0.
    Letrec(Box<Expr>, Box<Expr>),
    Ctor(Tag, Vec<Expr>),
    Field(Box<Expr>, u8),
    Match(Box<Expr>, Tag, Vec<Case>),
    Int(i32),
    Bytes(Vec<u8>),
    Prim(PrimOp, Vec<Expr>),
    Extern(u16),
}

/// A match branch binding `arity` fields.
pub struct Case {
    pub arity: usize,
    pub body: Expr,
}

pub struct Define {
    pub name: String,
    pub body: Expr,
}

pub struct Module {
    pub defines: Vec<Define>,
}

// ── Mathematical model ───────────────────────────────────────────────────────

pub enum IExpr {
    Var(nat),
    Lambda(nat, Box<IExpr>),
    Apply(Box<IExpr>, Seq<IExpr>),
    Let(Box<IExpr>, Box<IExpr>),
    Letrec(Box<IExpr>, Box<IExpr>),
    Ctor(Tag, Seq<IExpr>),
    Field(Box<IExpr>, u8),
    Match(Box<IExpr>, Tag, Seq<ICase>),
    Int(i32),
    Bytes(Seq<u8>),
    Prim(PrimOp, Seq<IExpr>),
    Extern(u16),
}

pub struct ICase {
    pub arity: nat,
    pub body: IExpr,
}

pub struct IDefine {
    pub name: Seq<char>,
    pub body: IExpr,
}

pub open spec fn iexpr_view(e: Expr) -> IExpr
    decreases e,
{
    match e {
        Expr::Var(i) => IExpr::Var(i as nat),
        Expr::Lambda(n, b) => IExpr::Lambda(n as nat, Box::new(iexpr_view(*b))),
        Expr::Apply(f, a) => IExpr::Apply(Box::new(iexpr_view(*f)), iexprs_view(a@)),
        Expr::Let(a, b) => IExpr::Let(Box::new(iexpr_view(*a)), Box::new(iexpr_view(*b))),
        Expr::Letrec(a, b) => IExpr::Letrec(Box::new(iexpr_view(*a)), Box::new(iexpr_view(*b))),
        Expr::Ctor(t, fs) => IExpr::Ctor(t, iexprs_view(fs@)),
        Expr::Field(e, i) => IExpr::Field(Box::new(iexpr_view(*e)), i),
        Expr::Match(e, t, cs) => IExpr::Match(Box::new(iexpr_view(*e)), t, icases_view(cs@)),
        Expr::Int(n) => IExpr::Int(n),
        Expr::Bytes(b) => IExpr::Bytes(b@),
        Expr::Prim(op, a) => IExpr::Prim(op, iexprs_view(a@)),
        Expr::Extern(s) => IExpr::Extern(s),
    }
}

pub open spec fn iexprs_view(es: Seq<Expr>) -> Seq<IExpr>
    decreases es,
{
    Seq::new(es.len(), |i: int| if 0 <= i < es.len() { iexpr_view(es[i]) } else { arbitrary() })
}

pub open spec fn icase_view(c: Case) -> ICase
    decreases c,
{
    ICase { arity: c.arity as nat, body: iexpr_view(c.body) }
}

pub open spec fn icases_view(cs: Seq<Case>) -> Seq<ICase>
    decreases cs,
{
    Seq::new(cs.len(), |i: int| if 0 <= i < cs.len() { icase_view(cs[i]) } else { arbitrary() })
}

pub open spec fn idefines_view(ds: Seq<Define>) -> Seq<IDefine> {
    ds.map_values(|d: Define| IDefine { name: d.name@, body: iexpr_view(d.body) })
}

impl View for Expr {
    type V = IExpr;

    open spec fn view(&self) -> IExpr {
        iexpr_view(*self)
    }
}

impl View for Case {
    type V = ICase;

    open spec fn view(&self) -> ICase {
        icase_view(*self)
    }
}

impl View for Module {
    type V = Seq<IDefine>;

    open spec fn view(&self) -> Seq<IDefine> {
        idefines_view(self.defines@)
    }
}

/// Every index refers to an enclosing binder, `depth` binders being in scope.
pub open spec fn scoped(e: IExpr, depth: nat) -> bool
    decreases e,
{
    match e {
        IExpr::Var(i) => i < depth,
        IExpr::Lambda(n, b) => scoped(*b, depth + n),
        IExpr::Apply(f, a) => scoped(*f, depth) && scoped_all(a, depth),
        IExpr::Let(a, b) => scoped(*a, depth) && scoped(*b, depth + 1),
        IExpr::Letrec(a, b) => scoped(*a, depth + 2) && scoped(*b, depth + 1),
        IExpr::Ctor(_, fs) => scoped_all(fs, depth),
        IExpr::Field(e, _) => scoped(*e, depth),
        IExpr::Match(e, _, cs) => scoped(*e, depth) && scoped_cases(cs, depth),
        IExpr::Prim(_, a) => scoped_all(a, depth),
        _ => true,
    }
}

pub open spec fn scoped_all(es: Seq<IExpr>, depth: nat) -> bool
    decreases es,
{
    forall|i: int| 0 <= i < es.len() ==> scoped(#[trigger] es[i], depth)
}

pub open spec fn scoped_cases(cs: Seq<ICase>, depth: nat) -> bool
    decreases cs,
{
    forall|i: int| 0 <= i < cs.len() ==> scoped(#[trigger] cs[i].body, depth + cs[i].arity)
}

/// Every define's body is scoped under the globals.
pub open spec fn scoped_module(ds: Seq<IDefine>) -> bool {
    forall|i: int| 0 <= i < ds.len() ==> scoped(#[trigger] ds[i].body, ds.len())
}

} // verus!
