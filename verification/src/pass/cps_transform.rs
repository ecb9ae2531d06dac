// Conversion of direct-style code (with de Bruijn indices) to CPS. The
// continuation of the expression being converted is a meta-level value: what
// to build once the name holding the expression's value is known.
use vstd::prelude::*;
use vstd::string::StringExecFns;
use crate::disasm::decimal_string;
use crate::ir::cps::{self, Name, SCase, SCont, SDefine, SExpr, SFun, SName, SVal, names_view};
use crate::ir::dsi::{self, ICase, IDefine, IExpr, Tag, scoped, scoped_all, scoped_cases, scoped_module};
use crate::ir::prim::PrimOp;
use crate::pass::cps_rewrite::rewrite_01_inlining::{decimal, next_id};

verus! {

// ── Specification: fresh names ──────────────────────────────────────────────

/// `_`, the prefix, and the decimal form of the counter.
pub open spec fn label(prefix: Seq<char>, n: usize) -> SName {
    seq!['_'] + prefix + decimal(n as nat)
}

/// `m` fresh names with one prefix, and the counter after them.
pub open spec fn labels(prefix: Seq<char>, n: usize, m: nat) -> (Seq<SName>, usize)
    decreases m,
{
    if m == 0 {
        (Seq::empty(), n)
    } else {
        let r = labels(prefix, n, (m - 1) as nat);
        (r.0.push(label(prefix, r.1)), next_id(r.1))
    }
}

// ── Specification: meta-continuations ───────────────────────────────────────

/// What the pending list of operands becomes once all are named.
pub enum ListKind {
    Call(SName),
    Ctor(Tag),
    Prim(PrimOp),
}

/// What to build once the value of the expression at hand is named.
pub enum MK {
    /// Stop with the value.
    Halt,
    /// Return the value to the continuation variable.
    Ret(SName),
    /// The value is a function: convert the arguments and call it.
    Call(Seq<SName>, Seq<IExpr>, Box<MK>),
    /// The value is one more operand: convert the rest.
    Rest(Seq<SName>, Seq<IExpr>, Seq<SName>, ListKind, Box<MK>),
    /// The value is bound: convert the body with it in scope.
    LetBody(Seq<SName>, IExpr, Box<MK>),
    /// Project a field of the value.
    FieldOf(u8, Box<MK>),
    /// Match on the value; each branch returns to the named continuation.
    Cases(Seq<SName>, Seq<ICase>, Tag, SName),
}

// ── Specification: sizes, for termination ──────────────────────────────────

pub open spec fn isz(e: IExpr) -> nat
    decreases e,
{
    match e {
        IExpr::Lambda(_, b) => 1 + isz(*b),
        IExpr::Apply(f, a) => 2 + isz(*f) + iszl(a),
        IExpr::Let(a, b) => 1 + isz(*a) + isz(*b),
        IExpr::Letrec(a, b) => 1 + isz(*a) + isz(*b),
        IExpr::Ctor(_, fs) => 2 + iszl(fs),
        IExpr::Field(e, _) => 2 + isz(*e),
        IExpr::Match(e, _, cs) => 1 + isz(*e) + iszc(cs),
        IExpr::Prim(_, a) => 2 + iszl(a),
        _ => 1,
    }
}

pub open spec fn iszl(es: Seq<IExpr>) -> nat
    decreases es,
{
    if es.len() == 0 {
        0
    } else {
        isz(es[0]) + iszl(es.drop_first())
    }
}

pub open spec fn iszc(cs: Seq<ICase>) -> nat
    decreases cs,
{
    if cs.len() == 0 {
        0
    } else {
        isz(cs[0].body) + iszc(cs.drop_first())
    }
}

pub proof fn lemma_isz_pos(e: IExpr)
    ensures
        isz(e) >= 1,
{
}

pub open spec fn mksz(k: MK) -> nat
    decreases k,
{
    match k {
        MK::Call(_, a, k2) => iszl(a) + mksz(*k2) + 1,
        MK::Rest(_, rest, _, _, k2) => iszl(rest) + mksz(*k2) + 1,
        MK::LetBody(_, b, k2) => isz(b) + mksz(*k2),
        MK::FieldOf(_, k2) => mksz(*k2) + 1,
        MK::Cases(_, cs, _, _) => iszc(cs),
        _ => 0,
    }
}

// ── Specification: the conversion ───────────────────────────────────────────

/// Convert `e` under the names `env` (index 0 is the last), continuing with
/// `k`; `n` is the fresh-name counter. Returns the code and the counter after.
pub open spec fn tr(env: Seq<SName>, e: IExpr, k: MK, n: usize) -> (SExpr, usize)
    decreases isz(e) + mksz(k), 0int,
{
    match e {
        IExpr::Var(i) => apply_k(k, env[env.len() - 1 - i], n),
        IExpr::Lambda(m, b) => {
            let f = label("f"@, n);
            let kv = label("k"@, next_id(n));
            let xs = labels("x"@, next_id(next_id(n)), m);
            let body = tr(env + xs.0, *b, MK::Ret(kv), xs.1);
            let rest = apply_k(k, f, body.1);
            (SExpr::Letrec(f, SFun { args: xs.0, cont: kv, body: Box::new(body.0) }, Box::new(rest.0)), rest.1)
        },
        IExpr::Apply(f, a) => tr(env, *f, MK::Call(env, a, Box::new(k)), n),
        IExpr::Let(a, b) => tr(env, *a, MK::LetBody(env, *b, Box::new(k)), n),
        IExpr::Letrec(a, b) => {
            let f = label("f"@, n);
            let x = label("x"@, next_id(n));
            let kv = label("k"@, next_id(next_id(n)));
            let body = tr(env.push(f).push(x), *a, MK::Ret(kv), next_id(next_id(next_id(n))));
            let rest = tr(env.push(f), *b, k, body.1);
            (SExpr::Letrec(f, SFun { args: seq![x], cont: kv, body: Box::new(body.0) }, Box::new(rest.0)), rest.1)
        },
        IExpr::Ctor(t, fs) => tr_list(env, fs, Seq::empty(), ListKind::Ctor(t), k, n),
        IExpr::Field(e1, i) => tr(env, *e1, MK::FieldOf(i, Box::new(k)), n),
        IExpr::Match(e1, t, cs) => {
            let kn = label("k"@, n);
            let r = label("r"@, next_id(n));
            let kb = apply_k(k, r, next_id(next_id(n)));
            let m = tr(env, *e1, MK::Cases(env, cs, t, kn), kb.1);
            (SExpr::Let(kn, SVal::Cont(SCont { params: seq![r], body: Box::new(kb.0) }), Box::new(m.0)), m.1)
        },
        IExpr::Int(v) => {
            let tmp = label("i"@, n);
            let rest = apply_k(k, tmp, next_id(n));
            (SExpr::Let(tmp, SVal::Int(v), Box::new(rest.0)), rest.1)
        },
        IExpr::Bytes(bs) => {
            let tmp = label("bytes"@, n);
            let rest = apply_k(k, tmp, next_id(n));
            (SExpr::Let(tmp, SVal::Bytes(bs), Box::new(rest.0)), rest.1)
        },
        IExpr::Prim(op, a) => tr_list(env, a, Seq::empty(), ListKind::Prim(op), k, n),
        IExpr::Extern(s) => {
            let tmp = label("ext"@, n);
            let rest = apply_k(k, tmp, next_id(n));
            (SExpr::Let(tmp, SVal::Extern(s), Box::new(rest.0)), rest.1)
        },
    }
}

/// Convert the operands `rest` in order, `acc` holding the names of those
/// already converted.
pub open spec fn tr_list(env: Seq<SName>, rest: Seq<IExpr>, acc: Seq<SName>, lk: ListKind, k: MK, n: usize) -> (SExpr, usize)
    decreases iszl(rest) + mksz(k) + 1, 1int,
{
    if rest.len() == 0 {
        match lk {
            ListKind::Call(f) => {
                let kn = label("k"@, n);
                let r = label("r"@, next_id(n));
                let kb = apply_k(k, r, next_id(next_id(n)));
                (SExpr::Let(kn, SVal::Cont(SCont { params: seq![r], body: Box::new(kb.0) }), Box::new(SExpr::Encore(f, acc, kn))), kb.1)
            },
            ListKind::Ctor(t) => {
                let c = label("c"@, n);
                let b = apply_k(k, c, next_id(n));
                (SExpr::Let(c, SVal::Ctor(t, acc), Box::new(b.0)), b.1)
            },
            ListKind::Prim(op) => {
                let p = label("p"@, n);
                let b = apply_k(k, p, next_id(n));
                (SExpr::Let(p, SVal::Prim(op, acc), Box::new(b.0)), b.1)
            },
        }
    } else {
        tr(env, rest[0], MK::Rest(env, rest.drop_first(), acc, lk, Box::new(k)), n)
    }
}

/// Continue with `k`, the value being named `v`.
pub open spec fn apply_k(k: MK, v: SName, n: usize) -> (SExpr, usize)
    decreases mksz(k), 2int,
{
    match k {
        MK::Halt => (SExpr::Fin(v), n),
        MK::Ret(kv) => {
            let nc = label("nc"@, n);
            (SExpr::Let(nc, SVal::NullCont, Box::new(SExpr::Encore(kv, seq![v], nc))), next_id(n))
        },
        MK::Call(env, a, k2) => tr_list(env, a, Seq::empty(), ListKind::Call(v), *k2, n),
        MK::Rest(env, rest, acc, lk, k2) => tr_list(env, rest, acc.push(v), lk, *k2, n),
        MK::LetBody(env, b, k2) => tr(env.push(v), b, *k2, n),
        MK::FieldOf(i, k2) => {
            let tmp = label("fld"@, n);
            let b = apply_k(*k2, tmp, next_id(n));
            (SExpr::Let(tmp, SVal::Field(v, i), Box::new(b.0)), b.1)
        },
        MK::Cases(env, cs, t, kn) => {
            let r = tr_cases(env, cs, kn, n);
            (SExpr::Match(v, t, r.0), r.1)
        },
    }
}

/// Convert the branches in order; each binds fresh names for its fields and
/// returns to `kn`.
pub open spec fn tr_cases(env: Seq<SName>, cs: Seq<ICase>, kn: SName, n: usize) -> (Seq<SCase>, usize)
    decreases iszc(cs), 1int,
{
    if cs.len() == 0 {
        (Seq::empty(), n)
    } else {
        let binds = labels("b"@, n, cs[0].arity);
        let body = tr(env + binds.0, cs[0].body, MK::Ret(kn), binds.1);
        let rest = {
            proof {
                lemma_isz_pos(cs[0].body);
            }
            tr_cases(env, cs.drop_first(), kn, body.1)
        };
        (seq![SCase { binds: binds.0, body: body.0 }] + rest.0, rest.1)
    }
}

pub proof fn lemma_labels_len(prefix: Seq<char>, n: usize, m: nat)
    ensures
        labels(prefix, n, m).0.len() == m,
    decreases m,
{
    if m > 0 {
        lemma_labels_len(prefix, n, (m - 1) as nat);
    }
}

pub open spec fn define_names(ds: Seq<IDefine>) -> Seq<SName> {
    ds.map_values(|d: IDefine| d.name)
}

/// Each define converted on its own, its counter starting at zero, under
/// the names of all the defines.
pub open spec fn transform_module_spec(ds: Seq<IDefine>) -> Seq<SDefine> {
    Seq::new(ds.len(), |i: int| SDefine { name: ds[i].name, body: tr(define_names(ds), ds[i].body, MK::Halt, 0).0 })
}

/// The stored operands and bodies of a meta-continuation are scoped in the
/// names stored with them.
pub open spec fn kont_ok(k: MK) -> bool
    decreases k,
{
    match k {
        MK::Call(env, a, k2) => scoped_all(a, env.len()) && kont_ok(*k2),
        MK::Rest(env, rest, _, _, k2) => scoped_all(rest, env.len()) && kont_ok(*k2),
        MK::LetBody(env, b, k2) => scoped(b, env.len() + 1) && kont_ok(*k2),
        MK::FieldOf(_, k2) => kont_ok(*k2),
        MK::Cases(env, cs, _, _) => scoped_cases(cs, env.len()),
        _ => true,
    }
}

// ── Implementation ───────────────────────────────────────────────────────────

/// An underscore, then `prefix`, then the decimal digits of `n`.
fn fresh_label(prefix: &str, n: usize) -> (res: Name)
    ensures
        res@ == label(prefix@, n),
{
    let mut r = String::from_str("_");
    r.append(prefix);
    let d = decimal_string(n);
    r.append(d.as_str());
    proof {
        reveal_strlit("_");
        assert(r@ =~= label(prefix@, n));
    }
    r
}

fn fresh(fg: &mut usize, prefix: &str) -> (res: Name)
    ensures
        res@ == label(prefix@, *old(fg)),
        *final(fg) == next_id(*old(fg)),
{
    let r = fresh_label(prefix, *fg);
    *fg = if *fg == usize::MAX { 0 } else { *fg + 1 };
    r
}

fn fresh_many(fg: &mut usize, prefix: &str, m: usize) -> (res: Vec<Name>)
    ensures
        (names_view(res@), *final(fg)) == labels(prefix@, *old(fg), m as nat),
{
    let ghost n0 = *fg;
    let mut out: Vec<Name> = Vec::new();
    let mut i: usize = 0;
    assert(names_view(out@) =~= Seq::<SName>::empty());
    while i < m
        invariant
            i <= m,
            (names_view(out@), *fg) == labels(prefix@, n0, i as nat),
        decreases m - i,
    {
        let ghost before = names_view(out@);
        let x = fresh(fg, prefix);
        out.push(x);
        assert(names_view(out@) =~= before.push(x@));
        i += 1;
    }
    out
}

fn extend(env: &Vec<Name>, more: &Vec<Name>) -> (res: Vec<Name>)
    ensures
        names_view(res@) == names_view(env@) + names_view(more@),
{
    let mut res = crate::ir::cps::clone_names(env);
    let mut i: usize = 0;
    while i < more.len()
        invariant
            i <= more@.len(),
            names_view(res@) == names_view(env@) + names_view(more@).take(i as int),
        decreases more@.len() - i,
    {
        let ghost before = names_view(res@);
        res.push(more[i].clone());
        assert(names_view(res@) =~= before.push(more@[i as int]@));
        assert(names_view(more@).take(i + 1) =~= names_view(more@).take(i as int).push(more@[i as int]@));
        i += 1;
    }
    assert(names_view(more@).take(more@.len() as int) =~= names_view(more@));
    res
}

fn extend1(env: &Vec<Name>, n: &Name) -> (res: Vec<Name>)
    ensures
        names_view(res@) == names_view(env@).push(n@),
{
    let mut res = crate::ir::cps::clone_names(env);
    let ghost before = names_view(res@);
    res.push(n.clone());
    assert(names_view(res@) =~= before.push(n@));
    res
}

enum Lk {
    Call(Name),
    Ctor(Tag),
    Prim(PrimOp),
}

spec fn lk_view(l: Lk) -> ListKind {
    match l {
        Lk::Call(f) => ListKind::Call(f@),
        Lk::Ctor(t) => ListKind::Ctor(t),
        Lk::Prim(op) => ListKind::Prim(op),
    }
}

enum Kont {
    Halt,
    Ret(Name),
    Call(Vec<Name>, Vec<dsi::Expr>, Box<Kont>),
    Rest(Vec<Name>, Vec<dsi::Expr>, Vec<Name>, Lk, Box<Kont>),
    LetBody(Vec<Name>, dsi::Expr, Box<Kont>),
    FieldOf(u8, Box<Kont>),
    Cases(Vec<Name>, Vec<dsi::Case>, Tag, Name),
}

spec fn kont_view(k: Kont) -> MK
    decreases k,
{
    match k {
        Kont::Halt => MK::Halt,
        Kont::Ret(kv) => MK::Ret(kv@),
        Kont::Call(env, a, k2) => MK::Call(names_view(env@), dsi::iexprs_view(a@), Box::new(kont_view(*k2))),
        Kont::Rest(env, rest, acc, lk, k2) => MK::Rest(
            names_view(env@),
            dsi::iexprs_view(rest@),
            names_view(acc@),
            lk_view(lk),
            Box::new(kont_view(*k2)),
        ),
        Kont::LetBody(env, b, k2) => MK::LetBody(names_view(env@), b@, Box::new(kont_view(*k2))),
        Kont::FieldOf(i, k2) => MK::FieldOf(i, Box::new(kont_view(*k2))),
        Kont::Cases(env, cs, t, kn) => MK::Cases(names_view(env@), dsi::icases_view(cs@), t, kn@),
    }
}

fn no_names() -> (res: Vec<Name>)
    ensures
        names_view(res@) == Seq::<SName>::empty(),
{
    let res: Vec<Name> = Vec::new();
    assert(names_view(res@) =~= Seq::<SName>::empty());
    res
}

/// `let tmp = val in k(tmp)`, `tmp` fresh with the given prefix.
fn bind_then(fg: &mut usize, prefix: &str, val: cps::Val, k: Kont) -> (res: cps::Expr)
    requires
        kont_ok(kont_view(k)),
    ensures
        (res@, *final(fg)) == ({
            let tmp = label(prefix@, *old(fg));
            let rest = apply_k(kont_view(k), tmp, next_id(*old(fg)));
            (SExpr::Let(tmp, val@, Box::new(rest.0)), rest.1)
        }),
    decreases mksz(kont_view(k)) + 1, 0int,
{
    let tmp = fresh(fg, prefix);
    let rest = apply_exec(fg, k, tmp.clone());
    cps::Expr::Let(tmp, val, Box::new(rest))
}

/// `let kn = cont(r). k(r) in`, returning `kn`, the continuation's value and the code of `k`.
fn reify(fg: &mut usize, k: Kont) -> (res: (Name, cps::Val))
    requires
        kont_ok(kont_view(k)),
    ensures
        ({
            let kn = label("k"@, *old(fg));
            let r = label("r"@, next_id(*old(fg)));
            let kb = apply_k(kont_view(k), r, next_id(next_id(*old(fg))));
            res.0@ == kn && res.1@ == SVal::Cont(SCont { params: seq![r], body: Box::new(kb.0) })
                && *final(fg) == kb.1
        }),
    decreases mksz(kont_view(k)) + 1, 0int,
{
    let kn = fresh(fg, "k");
    let r = fresh(fg, "r");
    let kb = apply_exec(fg, k, r.clone());
    let ghost kbv = kb@;
    let params = vec![r];
    assert(names_view(params@) =~= seq![params@[0]@]);
    let c = cps::Cont { params, body: Box::new(kb) };
    assert(c@ == SCont { params: c@.params, body: Box::new(kbv) });
    let ghost cv = c@;
    let v = cps::Val::Cont(c);
    assert(v@ == SVal::Cont(cv));
    (kn, v)
}

fn tr_lambda(fg: &mut usize, env: &Vec<Name>, m: usize, b: dsi::Expr, k: Kont) -> (res: cps::Expr)
    requires
        scoped(b@, names_view(env@).len() + m as nat),
        kont_ok(kont_view(k)),
    ensures
        (res@, *final(fg)) == tr(names_view(env@), IExpr::Lambda(m as nat, Box::new(b@)), kont_view(k), *old(fg)),
    decreases 1 + isz(b@) + mksz(kont_view(k)), 0int,
{
    let f = fresh(fg, "f");
    let kv = fresh(fg, "k");
    let xs = fresh_many(fg, "x", m);
    proof {
        lemma_labels_len("x"@, next_id(next_id(*old(fg))), m as nat);
    }
    let env_body = extend(env, &xs);
    assert(names_view(env_body@).len() == names_view(env@).len() + m);
    let body = tr_exec(fg, &env_body, b, Kont::Ret(kv.clone()));
    let rest = apply_exec(fg, k, f.clone());
    let ghost bv = body@;
    let fun = cps::Fun { args: xs, cont: kv, body: Box::new(body) };
    assert(fun@ == SFun { args: fun@.args, cont: fun@.cont, body: Box::new(bv) });
    cps::Expr::Letrec(f, fun, Box::new(rest))
}

fn tr_letrec(fg: &mut usize, env: &Vec<Name>, a: dsi::Expr, b: dsi::Expr, k: Kont) -> (res: cps::Expr)
    requires
        scoped(a@, names_view(env@).len() + 2),
        scoped(b@, names_view(env@).len() + 1),
        kont_ok(kont_view(k)),
    ensures
        (res@, *final(fg)) == tr(names_view(env@), IExpr::Letrec(Box::new(a@), Box::new(b@)), kont_view(k), *old(fg)),
    decreases 1 + isz(a@) + isz(b@) + mksz(kont_view(k)), 0int,
{
    let f = fresh(fg, "f");
    let x = fresh(fg, "x");
    let kv = fresh(fg, "k");
    let env_f = extend1(env, &f);
    let env_fx = extend1(&env_f, &x);
    assert(names_view(env_fx@).len() == names_view(env@).len() + 2);
    assert(names_view(env_f@).len() == names_view(env@).len() + 1);
    let body = tr_exec(fg, &env_fx, a, Kont::Ret(kv.clone()));
    let rest = tr_exec(fg, &env_f, b, k);
    let ghost bv = body@;
    let args = vec![x];
    assert(names_view(args@) =~= seq![args@[0]@]);
    let fun = cps::Fun { args, cont: kv, body: Box::new(body) };
    assert(fun@ == SFun { args: fun@.args, cont: fun@.cont, body: Box::new(bv) });
    cps::Expr::Letrec(f, fun, Box::new(rest))
}

fn tr_match(fg: &mut usize, env: &Vec<Name>, e1: dsi::Expr, t: Tag, cs: Vec<dsi::Case>, k: Kont) -> (res: cps::Expr)
    requires
        scoped(e1@, names_view(env@).len()),
        scoped_cases(dsi::icases_view(cs@), names_view(env@).len()),
        kont_ok(kont_view(k)),
    ensures
        (res@, *final(fg)) == tr(
            names_view(env@),
            IExpr::Match(Box::new(e1@), t, dsi::icases_view(cs@)),
            kont_view(k),
            *old(fg),
        ),
    decreases 1 + isz(e1@) + iszc(dsi::icases_view(cs@)) + mksz(kont_view(k)), 0int,
{
    let (kn, v) = reify(fg, k);
    let k2 = Kont::Cases(crate::ir::cps::clone_names(env), cs, t, kn.clone());
    let m = tr_exec(fg, env, e1, k2);
    cps::Expr::Let(kn, v, Box::new(m))
}

fn tr_exec(fg: &mut usize, env: &Vec<Name>, e: dsi::Expr, k: Kont) -> (res: cps::Expr)
    requires
        scoped(e@, names_view(env@).len()),
        kont_ok(kont_view(k)),
    ensures
        (res@, *final(fg)) == tr(names_view(env@), e@, kont_view(k), *old(fg)),
    decreases isz(e@) + mksz(kont_view(k)), 1int,
{
    match e {
        dsi::Expr::Var(i) => {
            assert(names_view(env@).len() == env@.len());
            let name = env[env.len() - 1 - i].clone();
            assert(name@ == names_view(env@)[names_view(env@).len() - 1 - i]);
            apply_exec(fg, k, name)
        },
        dsi::Expr::Lambda(m, b) => tr_lambda(fg, env, m, *b, k),
        dsi::Expr::Apply(f, a) => {
            let k2 = Kont::Call(crate::ir::cps::clone_names(env), a, Box::new(k));
            tr_exec(fg, env, *f, k2)
        },
        dsi::Expr::Let(a, b) => {
            let k2 = Kont::LetBody(crate::ir::cps::clone_names(env), *b, Box::new(k));
            tr_exec(fg, env, *a, k2)
        },
        dsi::Expr::Letrec(a, b) => tr_letrec(fg, env, *a, *b, k),
        dsi::Expr::Ctor(t, fs) => tr_list_exec(fg, crate::ir::cps::clone_names(env), fs, no_names(), Lk::Ctor(t), k),
        dsi::Expr::Field(e1, i) => tr_exec(fg, env, *e1, Kont::FieldOf(i, Box::new(k))),
        dsi::Expr::Match(e1, t, cs) => tr_match(fg, env, *e1, t, cs, k),
        dsi::Expr::Int(n) => bind_then(fg, "i", cps::Val::Int(n), k),
        dsi::Expr::Bytes(bs) => {
            let ghost bsv = bs@;
            let v = cps::Val::Bytes(bs);
            assert(v@ == SVal::Bytes(bsv));
            bind_then(fg, "bytes", v, k)
        },
        dsi::Expr::Prim(op, a) => tr_list_exec(fg, crate::ir::cps::clone_names(env), a, no_names(), Lk::Prim(op), k),
        dsi::Expr::Extern(slot) => bind_then(fg, "ext", cps::Val::Extern(slot), k),
    }
}

fn tr_list_exec(fg: &mut usize, env: Vec<Name>, rest: Vec<dsi::Expr>, acc: Vec<Name>, lk: Lk, k: Kont) -> (res: cps::Expr)
    requires
        scoped_all(dsi::iexprs_view(rest@), names_view(env@).len()),
        kont_ok(kont_view(k)),
    ensures
        (res@, *final(fg)) == tr_list(
            names_view(env@),
            dsi::iexprs_view(rest@),
            names_view(acc@),
            lk_view(lk),
            kont_view(k),
            *old(fg),
        ),
    decreases iszl(dsi::iexprs_view(rest@)) + mksz(kont_view(k)) + 1, 2int,
{
    if rest.len() == 0 {
        assert(dsi::iexprs_view(rest@).len() == 0);
        match lk {
            Lk::Call(f) => {
                let (kn, v) = reify(fg, k);
                let ghost fv = f@;
                let ghost av = names_view(acc@);
                let ghost knv = kn@;
                let ghost vv = v@;
                let inner = cps::Expr::Encore(f, acc, kn.clone());
                assert(inner@ == SExpr::Encore(fv, av, knv));
                let r = cps::Expr::Let(kn, v, Box::new(inner));
                assert(r@ == SExpr::Let(knv, vv, Box::new(SExpr::Encore(fv, av, knv))));
                r
            },
            Lk::Ctor(t) => {
                let ghost av = names_view(acc@);
                let v = cps::Val::Ctor(t, acc);
                assert(v@ == SVal::Ctor(t, av));
                bind_then(fg, "c", v, k)
            },
            Lk::Prim(op) => {
                let ghost av = names_view(acc@);
                let v = cps::Val::Prim(op, acc);
                assert(v@ == SVal::Prim(op, av));
                bind_then(fg, "p", v, k)
            },
        }
    } else {
        let ghost rv = dsi::iexprs_view(rest@);
        let mut rest = rest;
        let head = rest.remove(0);
        assert(dsi::iexprs_view(rest@) =~= rv.drop_first());
        assert(head@ == rv[0]);
        let env2 = crate::ir::cps::clone_names(&env);
        assert(scoped(rv[0], names_view(env@).len()));
        assert(scoped_all(rv.drop_first(), names_view(env2@).len())) by {
            assert forall|j: int| 0 <= j < rv.drop_first().len() implies scoped(#[trigger] rv.drop_first()[j], names_view(env2@).len()) by {
                assert(rv.drop_first()[j] == rv[j + 1]);
            }
        }
        tr_exec(fg, &env, head, Kont::Rest(env2, rest, acc, lk, Box::new(k)))
    }
}

fn apply_exec(fg: &mut usize, k: Kont, v: Name) -> (res: cps::Expr)
    requires
        kont_ok(kont_view(k)),
    ensures
        (res@, *final(fg)) == apply_k(kont_view(k), v@, *old(fg)),
    decreases mksz(kont_view(k)), 3int,
{
    let ghost kv0 = kont_view(k);
    let ghost f0 = *fg;
    let ghost vv = v@;
    match k {
        Kont::Halt => {
            let r = cps::Expr::Fin(v);
            assert((r@, *fg) == apply_k(kv0, vv, f0));
            r
        },
        Kont::Ret(kv) => {
            let nc = fresh(fg, "nc");
            let args = vec![v];
            assert(names_view(args@) =~= seq![vv]);
            let ghost kvv = kv@;
            let ghost ncv = nc@;
            let inner = cps::Expr::Encore(kv, args, nc.clone());
            assert(inner@ == SExpr::Encore(kvv, seq![vv], ncv));
            let nv = cps::Val::NullCont;
            assert(nv@ == SVal::NullCont);
            let r = cps::Expr::Let(nc, nv, Box::new(inner));
            assert(r@ == SExpr::Let(ncv, SVal::NullCont, Box::new(SExpr::Encore(kvv, seq![vv], ncv))));
            assert(kv0 == MK::Ret(kvv));
            assert((r@, *fg) == apply_k(kv0, vv, f0));
            r
        },
        Kont::Call(env, a, k2) => {
            let r = tr_list_exec(fg, env, a, no_names(), Lk::Call(v), *k2);
            assert((r@, *fg) == apply_k(kv0, vv, f0));
            r
        },
        Kont::Rest(env, rest, acc, lk, k2) => {
            let mut acc = acc;
            let ghost before = names_view(acc@);
            acc.push(v);
            assert(names_view(acc@) =~= before.push(vv));
            let r = tr_list_exec(fg, env, rest, acc, lk, *k2);
            assert((r@, *fg) == apply_k(kv0, vv, f0));
            r
        },
        Kont::LetBody(env, b, k2) => {
            let env2 = extend1(&env, &v);
            assert(names_view(env2@).len() == names_view(env@).len() + 1);
            let r = tr_exec(fg, &env2, b, *k2);
            assert((r@, *fg) == apply_k(kv0, vv, f0));
            r
        },
        Kont::FieldOf(i, k2) => {
            let r = bind_then(fg, "fld", cps::Val::Field(v, i), *k2);
            assert((r@, *fg) == apply_k(kv0, vv, f0));
            r
        },
        Kont::Cases(env, cs, t, kn) => {
            let out = tr_cases_exec(fg, &env, cs, &kn);
            let r = cps::Expr::Match(v, t, out);
            assert((r@, *fg) == apply_k(kv0, vv, f0));
            r
        },
    }
}

fn tr_cases_exec(fg: &mut usize, env: &Vec<Name>, cs: Vec<dsi::Case>, kn: &Name) -> (res: Vec<cps::Case>)
    requires
        scoped_cases(dsi::icases_view(cs@), names_view(env@).len()),
    ensures
        (crate::ir::cps::cases_view(res@), *final(fg)) == tr_cases(names_view(env@), dsi::icases_view(cs@), kn@, *old(fg)),
    decreases iszc(dsi::icases_view(cs@)), 2int,
{
    if cs.len() == 0 {
        let out: Vec<cps::Case> = Vec::new();
        assert(crate::ir::cps::cases_view(out@) =~= Seq::<SCase>::empty());
        return out;
    }
    let ghost cv = dsi::icases_view(cs@);
    let mut cs = cs;
    let c = cs.remove(0);
    assert(dsi::icases_view(cs@) =~= cv.drop_first());
    assert(c@ == cv[0]);
    let dsi::Case { arity, body } = c;
    let binds = fresh_many(fg, "b", arity);
    proof {
        lemma_labels_len("b"@, *old(fg), arity as nat);
        assert(scoped(cv[0].body, names_view(env@).len() + cv[0].arity));
        lemma_isz_pos(cv[0].body);
    }
    let env2 = extend(env, &binds);
    assert(names_view(env2@).len() == names_view(env@).len() + arity);
    let b = tr_exec(fg, &env2, body, Kont::Ret(kn.clone()));
    assert(scoped_cases(cv.drop_first(), names_view(env@).len())) by {
        assert forall|j: int| 0 <= j < cv.drop_first().len() implies scoped(#[trigger] cv.drop_first()[j].body, names_view(env@).len() + cv.drop_first()[j].arity) by {
            assert(cv.drop_first()[j] == cv[j + 1]);
        }
    }
    let rest = tr_cases_exec(fg, env, cs, kn);
    let ghost restv = crate::ir::cps::cases_view(rest@);
    let mut out = rest;
    let case = cps::Case { binds, body: b };
    let ghost casev = case@;
    out.insert(0, case);
    assert(crate::ir::cps::cases_view(out@) =~= seq![casev] + restv);
    out
}

/// Convert every define to CPS under the names of all the defines; each
/// define's fresh names are numbered from zero.
pub fn transform_module(module: dsi::Module) -> (res: cps::Module)
    requires
        scoped_module(module@),
    ensures
        res@ == transform_module_spec(module@),
{
    let ghost dv = module@;
    let mut globals: Vec<Name> = Vec::new();
    let mut i: usize = 0;
    while i < module.defines.len()
        invariant
            i <= module.defines@.len(),
            dv == dsi::idefines_view(module.defines@),
            names_view(globals@) == define_names(dv).take(i as int),
        decreases module.defines@.len() - i,
    {
        let ghost before = names_view(globals@);
        globals.push(module.defines[i].name.clone());
        assert(names_view(globals@) =~= before.push(dv[i as int].name));
        assert(define_names(dv).take(i + 1) =~= define_names(dv).take(i as int).push(dv[i as int].name));
        i += 1;
    }
    assert(define_names(dv).take(dv.len() as int) =~= define_names(dv));
    let mut rest = module.defines;
    let mut out: Vec<cps::Define> = Vec::new();
    while rest.len() > 0
        invariant
            out@.len() + rest@.len() == dv.len(),
            dsi::idefines_view(rest@) == dv.skip(out@.len() as int),
            names_view(globals@) == define_names(dv),
            scoped_module(dv),
            forall|j: int| 0 <= j < out@.len() ==> (#[trigger] out@[j])@ == transform_module_spec(dv)[j],
        decreases rest@.len(),
    {
        let ghost k = out@.len() as int;
        let ghost rv = dsi::idefines_view(rest@);
        let d = rest.remove(0);
        assert(dsi::idefines_view(rest@) =~= rv.drop_first());
        assert(rv.drop_first() =~= dv.skip(k + 1));
        assert(rv[0] == (IDefine { name: d.name@, body: d.body@ }));
        assert(dv.skip(k)[0] == dv[k]);
        assert(scoped(dv[k].body, dv.len()));
        assert(names_view(globals@).len() == dv.len());
        let mut fg: usize = 0;
        let body = tr_exec(&mut fg, &globals, d.body, Kont::Halt);
        out.push(cps::Define { name: d.name, body });
    }
    let res = cps::Module { defines: out };
    assert(res@ =~= transform_module_spec(dv));
    res
}

} // verus!
