use vstd::prelude::*;
use super::prim::PrimOp;

verus! {

pub type Name = String;
pub type Tag = u8;

/// A known function: parameters, return continuation and body.
#[derive(Debug, PartialEq)]
pub struct Fun {
    pub args: Vec<Name>,
    pub cont: Name,
    pub body: Box<Expr>,
}

/// A continuation lambda.
#[derive(Debug, PartialEq)]
pub struct Cont {
    pub params: Vec<Name>,
    pub body: Box<Expr>,
}

/// One branch of a match; the branch index is its tag minus the match base.
#[derive(Debug, PartialEq)]
pub struct Case {
    pub binds: Vec<Name>,
    pub body: Expr,
}

#[derive(Debug, PartialEq)]
pub enum Val {
    Var(Name),
    Cont(Cont),
    NullCont,
    Ctor(Tag, Vec<Name>),
    Field(Name, u8),
    Int(i32),
    Bytes(Vec<u8>),
    Prim(PrimOp, Vec<Name>),
    Extern(u16),
}

#[derive(Debug, PartialEq)]
pub enum Expr {
    Let(Name, Val, Box<Expr>),
    Letrec(Name, Fun, Box<Expr>),
    Encore(Name, Vec<Name>, Name),
    Match(Name, Tag, Vec<Case>),
    Fin(Name),
}

/// A named top-level definition.
#[derive(Debug, PartialEq)]
pub struct Define {
    pub name: Name,
    pub body: Expr,
}

#[derive(Debug, PartialEq)]
pub struct Module {
    pub defines: Vec<Define>,
}

// ── Mathematical model ───────────────────────────────────────────────────────

pub type SName = Seq<char>;

pub struct SFun {
    pub args: Seq<SName>,
    pub cont: SName,
    pub body: Box<SExpr>,
}

pub struct SCont {
    pub params: Seq<SName>,
    pub body: Box<SExpr>,
}

pub struct SCase {
    pub binds: Seq<SName>,
    pub body: SExpr,
}

pub enum SVal {
    Var(SName),
    Cont(SCont),
    NullCont,
    Ctor(Tag, Seq<SName>),
    Field(SName, u8),
    Int(i32),
    Bytes(Seq<u8>),
    Prim(PrimOp, Seq<SName>),
    Extern(u16),
}

pub enum SExpr {
    Let(SName, SVal, Box<SExpr>),
    Letrec(SName, SFun, Box<SExpr>),
    Encore(SName, Seq<SName>, SName),
    Match(SName, Tag, Seq<SCase>),
    Fin(SName),
}

pub struct SDefine {
    pub name: SName,
    pub body: SExpr,
}

pub open spec fn define_view(d: Define) -> SDefine {
    SDefine { name: d.name@, body: d.body@ }
}

pub open spec fn defines_view(ds: Seq<Define>) -> Seq<SDefine> {
    ds.map_values(|d: Define| define_view(d))
}

pub open spec fn names_view(ns: Seq<Name>) -> Seq<SName> {
    ns.map_values(|s: Name| s@)
}

pub open spec fn expr_view(e: Expr) -> SExpr
    decreases e,
{
    match e {
        Expr::Let(n, v, b) => SExpr::Let(n@, val_view(v), Box::new(expr_view(*b))),
        Expr::Letrec(n, f, b) => SExpr::Letrec(n@, fun_view(f), Box::new(expr_view(*b))),
        Expr::Encore(f, a, k) => SExpr::Encore(f@, names_view(a@), k@),
        Expr::Match(n, t, cs) => SExpr::Match(n@, t, cases_view(cs@)),
        Expr::Fin(n) => SExpr::Fin(n@),
    }
}

pub open spec fn val_view(v: Val) -> SVal
    decreases v,
{
    match v {
        Val::Var(n) => SVal::Var(n@),
        Val::Cont(c) => SVal::Cont(cont_view(c)),
        Val::NullCont => SVal::NullCont,
        Val::Ctor(t, fs) => SVal::Ctor(t, names_view(fs@)),
        Val::Field(n, i) => SVal::Field(n@, i),
        Val::Int(i) => SVal::Int(i),
        Val::Bytes(b) => SVal::Bytes(b@),
        Val::Prim(op, a) => SVal::Prim(op, names_view(a@)),
        Val::Extern(s) => SVal::Extern(s),
    }
}

pub open spec fn fun_view(f: Fun) -> SFun
    decreases f,
{
    SFun { args: names_view(f.args@), cont: f.cont@, body: Box::new(expr_view(*f.body)) }
}

pub open spec fn cont_view(c: Cont) -> SCont
    decreases c,
{
    SCont { params: names_view(c.params@), body: Box::new(expr_view(*c.body)) }
}

pub open spec fn case_view(c: Case) -> SCase
    decreases c,
{
    SCase { binds: names_view(c.binds@), body: expr_view(c.body) }
}

pub open spec fn cases_view(cs: Seq<Case>) -> Seq<SCase>
    decreases cs,
{
    Seq::new(cs.len(), |i: int| if 0 <= i < cs.len() { case_view(cs[i]) } else { arbitrary() })
}

/// Size of an expression: one per node, a continuation value counting its body.
pub open spec fn size_e(e: SExpr) -> nat
    decreases e,
{
    match e {
        SExpr::Let(_, v, b) => 1 + size_v(v) + size_e(*b),
        SExpr::Letrec(_, f, b) => 1 + size_e(*f.body) + size_e(*b),
        SExpr::Encore(_, _, _) => 1,
        SExpr::Match(_, _, cs) => 1 + size_cases(cs),
        SExpr::Fin(_) => 1,
    }
}

pub open spec fn size_v(v: SVal) -> nat
    decreases v,
{
    match v {
        SVal::Cont(c) => size_e(*c.body),
        _ => 1,
    }
}

pub open spec fn size_cases(cs: Seq<SCase>) -> nat
    decreases cs,
{
    if cs.len() == 0 {
        0
    } else {
        size_cases(cs.drop_last()) + size_e(cs.last().body)
    }
}

pub proof fn lemma_size_case_le(cs: Seq<SCase>, i: int)
    requires
        0 <= i < cs.len(),
    ensures
        size_e(cs[i].body) <= size_cases(cs),
    decreases cs.len(),
{
    if i < cs.len() - 1 {
        lemma_size_case_le(cs.drop_last(), i);
    }
}

pub proof fn lemma_size_cases_pointwise(a: Seq<SCase>, b: Seq<SCase>)
    requires
        a.len() == b.len(),
        forall|i: int| 0 <= i < a.len() ==> size_e(#[trigger] a[i].body) == size_e(b[i].body),
    ensures
        size_cases(a) == size_cases(b),
    decreases a.len(),
{
    if a.len() > 0 {
        assert forall|i: int| 0 <= i < a.drop_last().len() implies size_e(#[trigger] a.drop_last()[i].body) == size_e(b.drop_last()[i].body) by {
            assert(a.drop_last()[i] == a[i]);
            assert(b.drop_last()[i] == b[i]);
        }
        lemma_size_cases_pointwise(a.drop_last(), b.drop_last());
    }
}

impl View for Expr {
    type V = SExpr;

    open spec fn view(&self) -> SExpr {
        expr_view(*self)
    }
}

impl View for Val {
    type V = SVal;

    open spec fn view(&self) -> SVal {
        val_view(*self)
    }
}

impl View for Fun {
    type V = SFun;

    open spec fn view(&self) -> SFun {
        fun_view(*self)
    }
}

impl View for Cont {
    type V = SCont;

    open spec fn view(&self) -> SCont {
        cont_view(*self)
    }
}

impl View for Case {
    type V = SCase;

    open spec fn view(&self) -> SCase {
        case_view(*self)
    }
}

impl View for Define {
    type V = SDefine;

    open spec fn view(&self) -> SDefine {
        define_view(*self)
    }
}

impl View for Module {
    type V = Seq<SDefine>;

    open spec fn view(&self) -> Seq<SDefine> {
        defines_view(self.defines@)
    }
}

// ── Name lists ───────────────────────────────────────────────────────────────

/// Whether `n` occurs in `ns`.
pub fn names_contain(ns: &Vec<Name>, n: &Name) -> (res: bool)
    ensures
        res == names_view(ns@).contains(n@),
{
    let mut i: usize = 0;
    while i < ns.len()
        invariant
            i <= ns@.len(),
            forall|j: int| 0 <= j < i ==> ns@[j]@ != n@,
        decreases ns@.len() - i,
    {
        if ns[i] == *n {
            assert(names_view(ns@)[i as int] == n@);
            return true;
        }
        i += 1;
    }
    assert forall|j: int| 0 <= j < names_view(ns@).len() implies names_view(ns@)[j] != n@ by {}
    false
}

// ── Deep copies ──────────────────────────────────────────────────────────────

pub fn clone_names(ns: &Vec<Name>) -> (res: Vec<Name>)
    ensures
        names_view(res@) == names_view(ns@),
{
    let mut out: Vec<Name> = Vec::new();
    let mut i: usize = 0;
    while i < ns.len()
        invariant
            i <= ns@.len(),
            out@.len() == i,
            forall|j: int| 0 <= j < i ==> out@[j]@ == ns@[j]@,
        decreases ns@.len() - i,
    {
        out.push(ns[i].clone());
        i += 1;
    }
    assert(names_view(out@) =~= names_view(ns@));
    out
}

pub fn clone_bytes(bs: &Vec<u8>) -> (res: Vec<u8>)
    ensures
        res@ == bs@,
{
    let mut out: Vec<u8> = Vec::new();
    let mut i: usize = 0;
    while i < bs.len()
        invariant
            i <= bs@.len(),
            out@ == bs@.take(i as int),
        decreases bs@.len() - i,
    {
        out.push(bs[i]);
        i += 1;
        assert(out@ =~= bs@.take(i as int));
    }
    assert(bs@.take(bs@.len() as int) =~= bs@);
    out
}

pub fn clone_expr(e: &Expr) -> (res: Expr)
    ensures
        res@ == e@,
    decreases *e,
{
    match e {
        Expr::Let(n, v, b) => Expr::Let(n.clone(), clone_val(v), Box::new(clone_expr(b))),
        Expr::Letrec(n, f, b) => Expr::Letrec(n.clone(), clone_fun(f), Box::new(clone_expr(b))),
        Expr::Encore(f, a, k) => Expr::Encore(f.clone(), clone_names(a), k.clone()),
        Expr::Match(n, t, cs) => Expr::Match(n.clone(), *t, clone_cases(cs)),
        Expr::Fin(n) => Expr::Fin(n.clone()),
    }
}

pub fn clone_val(v: &Val) -> (res: Val)
    ensures
        res@ == v@,
    decreases *v,
{
    match v {
        Val::Var(n) => Val::Var(n.clone()),
        Val::Cont(c) => Val::Cont(clone_cont(c)),
        Val::NullCont => Val::NullCont,
        Val::Ctor(t, fs) => Val::Ctor(*t, clone_names(fs)),
        Val::Field(n, i) => Val::Field(n.clone(), *i),
        Val::Int(i) => Val::Int(*i),
        Val::Bytes(b) => Val::Bytes(clone_bytes(b)),
        Val::Prim(op, a) => Val::Prim(*op, clone_names(a)),
        Val::Extern(s) => Val::Extern(*s),
    }
}

pub fn clone_fun(f: &Fun) -> (res: Fun)
    ensures
        res@ == f@,
    decreases *f,
{
    Fun { args: clone_names(&f.args), cont: f.cont.clone(), body: Box::new(clone_expr(&f.body)) }
}

pub fn clone_cont(c: &Cont) -> (res: Cont)
    ensures
        res@ == c@,
    decreases *c,
{
    Cont { params: clone_names(&c.params), body: Box::new(clone_expr(&c.body)) }
}

pub fn clone_cases(cs: &Vec<Case>) -> (res: Vec<Case>)
    ensures
        cases_view(res@) == cases_view(cs@),
    decreases *cs,
{
    let mut out: Vec<Case> = Vec::new();
    let mut i: usize = 0;
    while i < cs.len()
        invariant
            i <= cs@.len(),
            out@.len() == i,
            forall|j: int| 0 <= j < i ==> (#[trigger] out@[j])@ == cs@[j]@,
        decreases cs@.len() - i,
    {
        let c = &cs[i];
        out.push(Case { binds: clone_names(&c.binds), body: clone_expr(&c.body) });
        i += 1;
    }
    assert(cases_view(out@) =~= cases_view(cs@));
    out
}

impl Clone for Expr {
    fn clone(&self) -> (res: Self)
        ensures
            res@ == self@,
    {
        clone_expr(self)
    }
}

impl Clone for Val {
    fn clone(&self) -> (res: Self)
        ensures
            res@ == self@,
    {
        clone_val(self)
    }
}

impl Clone for Fun {
    fn clone(&self) -> (res: Self)
        ensures
            res@ == self@,
    {
        clone_fun(self)
    }
}

impl Clone for Cont {
    fn clone(&self) -> (res: Self)
        ensures
            res@ == self@,
    {
        clone_cont(self)
    }
}

impl Clone for Case {
    fn clone(&self) -> (res: Self)
        ensures
            res@ == self@,
    {
        Case { binds: clone_names(&self.binds), body: clone_expr(&self.body) }
    }
}

// ── Structural equality on the model ─────────────────────────────────────────

pub fn names_eq(a: &Vec<Name>, b: &Vec<Name>) -> (res: bool)
    ensures
        res == (names_view(a@) == names_view(b@)),
{
    if a.len() != b.len() {
        assert(names_view(a@).len() != names_view(b@).len());
        return false;
    }
    let mut i: usize = 0;
    while i < a.len()
        invariant
            i <= a@.len(),
            a@.len() == b@.len(),
            forall|j: int| 0 <= j < i ==> a@[j]@ == b@[j]@,
        decreases a@.len() - i,
    {
        if a[i] != b[i] {
            assert(names_view(a@)[i as int] != names_view(b@)[i as int]);
            return false;
        }
        i += 1;
    }
    assert(names_view(a@) =~= names_view(b@));
    true
}

pub fn bytes_eq(a: &Vec<u8>, b: &Vec<u8>) -> (res: bool)
    ensures
        res == (a@ == b@),
{
    if a.len() != b.len() {
        return false;
    }
    let mut i: usize = 0;
    while i < a.len()
        invariant
            i <= a@.len(),
            a@.len() == b@.len(),
            forall|j: int| 0 <= j < i ==> a@[j] == b@[j],
        decreases a@.len() - i,
    {
        if a[i] != b[i] {
            return false;
        }
        i += 1;
    }
    assert(a@ =~= b@);
    true
}

pub fn expr_eq(a: &Expr, b: &Expr) -> (res: bool)
    ensures
        res == (a@ == b@),
    decreases *a,
{
    match a {
        Expr::Let(n1, v1, b1) => match b {
            Expr::Let(n2, v2, b2) => *n1 == *n2 && val_eq(v1, v2) && expr_eq(b1, b2),
            _ => false,
        },
        Expr::Letrec(n1, f1, b1) => match b {
            Expr::Letrec(n2, f2, b2) => *n1 == *n2 && fun_eq(f1, f2) && expr_eq(b1, b2),
            _ => false,
        },
        Expr::Encore(f1, a1, k1) => match b {
            Expr::Encore(f2, a2, k2) => *f1 == *f2 && names_eq(a1, a2) && *k1 == *k2,
            _ => false,
        },
        Expr::Match(n1, t1, c1) => match b {
            Expr::Match(n2, t2, c2) => *n1 == *n2 && *t1 == *t2 && cases_eq(c1, c2),
            _ => false,
        },
        Expr::Fin(n1) => match b {
            Expr::Fin(n2) => *n1 == *n2,
            _ => false,
        },
    }
}

pub fn val_eq(a: &Val, b: &Val) -> (res: bool)
    ensures
        res == (a@ == b@),
    decreases *a,
{
    match a {
        Val::Var(x) => match b {
            Val::Var(y) => *x == *y,
            _ => false,
        },
        Val::Cont(x) => match b {
            Val::Cont(y) => cont_eq(x, y),
            _ => false,
        },
        Val::NullCont => match b {
            Val::NullCont => true,
            _ => false,
        },
        Val::Ctor(t1, f1) => match b {
            Val::Ctor(t2, f2) => *t1 == *t2 && names_eq(f1, f2),
            _ => false,
        },
        Val::Field(x, i) => match b {
            Val::Field(y, j) => *x == *y && *i == *j,
            _ => false,
        },
        Val::Int(x) => match b {
            Val::Int(y) => *x == *y,
            _ => false,
        },
        Val::Bytes(x) => match b {
            Val::Bytes(y) => bytes_eq(x, y),
            _ => false,
        },
        Val::Prim(o1, a1) => match b {
            Val::Prim(o2, a2) => *o1 == *o2 && names_eq(a1, a2),
            _ => false,
        },
        Val::Extern(x) => match b {
            Val::Extern(y) => *x == *y,
            _ => false,
        },
    }
}

pub fn fun_eq(a: &Fun, b: &Fun) -> (res: bool)
    ensures
        res == (a@ == b@),
    decreases *a,
{
    names_eq(&a.args, &b.args) && a.cont == b.cont && expr_eq(&a.body, &b.body)
}

pub fn cont_eq(a: &Cont, b: &Cont) -> (res: bool)
    ensures
        res == (a@ == b@),
    decreases *a,
{
    names_eq(&a.params, &b.params) && expr_eq(&a.body, &b.body)
}

pub fn cases_eq(a: &Vec<Case>, b: &Vec<Case>) -> (res: bool)
    ensures
        res == (cases_view(a@) == cases_view(b@)),
    decreases *a,
{
    if a.len() != b.len() {
        assert(cases_view(a@).len() != cases_view(b@).len());
        return false;
    }
    let mut i: usize = 0;
    while i < a.len()
        invariant
            i <= a@.len(),
            a@.len() == b@.len(),
            forall|j: int| 0 <= j < i ==> (#[trigger] a@[j])@ == b@[j]@,
        decreases a@.len() - i,
    {
        let same = names_eq(&a[i].binds, &b[i].binds) && expr_eq(&a[i].body, &b[i].body);
        if !same {
            assert(cases_view(a@)[i as int] != cases_view(b@)[i as int]);
            return false;
        }
        i += 1;
    }
    assert(cases_view(a@) =~= cases_view(b@));
    true
}

} // verus!
