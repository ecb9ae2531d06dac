use vstd::prelude::*;
use crate::pass::cps_census::{occ_cases, occ_e, occ_ns, occ_v};
use crate::ir::cps::{lemma_size_cases_pointwise, size_cases, size_e, size_v, Case, Cont, Expr, Fun, Name, SCase, SCont, SExpr, SFun, SName, SVal, Val, cases_view, names_contain, names_view};

verus! {

// ── Specification ────────────────────────────────────────────────────────────

/// A single name after replacing `from` by `to`.
pub open spec fn subst_n(from: SName, to: SName, n: SName) -> SName {
    if n == from { to } else { n }
}

pub open spec fn subst_ns(from: SName, to: SName, ns: Seq<SName>) -> Seq<SName> {
    ns.map_values(|n: SName| subst_n(from, to, n))
}

/// Capture-avoiding renaming of the free occurrences of `from` to `to` in a value:
/// a continuation that binds `from` is left alone.
pub open spec fn subst_v(from: SName, to: SName, v: SVal) -> SVal
    decreases v,
{
    match v {
        SVal::Var(n) => SVal::Var(subst_n(from, to, n)),
        SVal::Cont(c) => if c.params.contains(from) {
            v
        } else {
            SVal::Cont(SCont { params: c.params, body: Box::new(subst_e(from, to, *c.body)) })
        },
        SVal::Ctor(t, fs) => SVal::Ctor(t, subst_ns(from, to, fs)),
        SVal::Field(n, i) => SVal::Field(subst_n(from, to, n), i),
        SVal::Prim(op, a) => SVal::Prim(op, subst_ns(from, to, a)),
        _ => v,
    }
}

/// Renaming of the free occurrences of `from` to `to` in an expression; the
/// walk stops below any binder of `from`.
pub open spec fn subst_e(from: SName, to: SName, e: SExpr) -> SExpr
    decreases e,
{
    match e {
        SExpr::Let(b, v, body) => SExpr::Let(
            b,
            subst_v(from, to, v),
            if b != from { Box::new(subst_e(from, to, *body)) } else { body },
        ),
        SExpr::Letrec(b, f, body) => if b != from {
            SExpr::Letrec(
                b,
                if !f.args.contains(from) && f.cont != from {
                    SFun { args: f.args, cont: f.cont, body: Box::new(subst_e(from, to, *f.body)) }
                } else {
                    f
                },
                Box::new(subst_e(from, to, *body)),
            )
        } else {
            e
        },
        SExpr::Encore(f, a, k) => SExpr::Encore(
            subst_n(from, to, f),
            subst_ns(from, to, a),
            subst_n(from, to, k),
        ),
        SExpr::Match(n, t, cs) => SExpr::Match(
            subst_n(from, to, n),
            t,
            Seq::new(
                cs.len(),
                |i: int|
                    if 0 <= i < cs.len() {
                        if cs[i].binds.contains(from) {
                            cs[i]
                        } else {
                            SCase { binds: cs[i].binds, body: subst_e(from, to, cs[i].body) }
                        }
                    } else {
                        arbitrary()
                    },
            ),
        ),
        SExpr::Fin(n) => SExpr::Fin(subst_n(from, to, n)),
    }
}

/// Sequential renaming `ps[0] -> as[0]`, then `ps[1] -> as[1]`, ... over the
/// shorter of the two lists.
pub open spec fn subst_seq(ps: Seq<SName>, args: Seq<SName>, e: SExpr) -> SExpr
    decreases ps.len(),
{
    if ps.len() == 0 || args.len() == 0 {
        e
    } else {
        subst_seq(ps.drop_first(), args.drop_first(), subst_e(ps[0], args[0], e))
    }
}


// ── Laws of renaming ─────────────────────────────────────────────────────────

/// Renaming a name to itself changes nothing.
pub proof fn lemma_subst_self(x: SName, e: SExpr)
    ensures
        subst_e(x, x, e) == e,
    decreases e, 1int,
{
    match e {
        SExpr::Let(b, v, body) => {
            lemma_subst_self_v(x, v);
            lemma_subst_self(x, *body);

        },
        SExpr::Letrec(b, f, body) => {
            if b != x {
                lemma_subst_self(x, *f.body);
                lemma_subst_self(x, *body);
                assert(SFun { args: f.args, cont: f.cont, body: Box::new(subst_e(x, x, *f.body)) } == f);
            }
        },
        SExpr::Encore(f, a, k) => {
            assert(subst_ns(x, x, a) =~= a);
        },
        SExpr::Match(n, t, cs) => {
            assert forall|i: int| 0 <= i < cs.len() && !cs[i].binds.contains(x) implies subst_e(x, x, #[trigger] cs[i].body) == cs[i].body by {
                lemma_subst_self(x, cs[i].body);
            }
            match subst_e(x, x, e) {
                SExpr::Match(_, _, cs2) => {
                    assert(cs2.len() == cs.len());
                    assert forall|i: int| 0 <= i < cs.len() implies cs2[i] == cs[i] by {
                        if !cs[i].binds.contains(x) {
                            assert(subst_e(x, x, cs[i].body) == cs[i].body);
                        }
                    }
                    assert(cs2 =~= cs);
                },
                _ => {},
            }
        },
        SExpr::Fin(_) => {},
    }
}

pub proof fn lemma_subst_self_v(x: SName, v: SVal)
    ensures
        subst_v(x, x, v) == v,
    decreases v, 0int,
{
    match v {
        SVal::Cont(c) => {
            if !c.params.contains(x) {
                lemma_subst_self(x, *c.body);
            }
        },
        SVal::Ctor(_, fs) => {
            assert(subst_ns(x, x, fs) =~= fs);
        },
        SVal::Prim(_, a) => {
            assert(subst_ns(x, x, a) =~= a);
        },
        _ => {},
    }
}

proof fn lemma_occ_ns_zero(ns: Seq<SName>, n: SName)
    requires
        occ_ns(ns, n) == 0,
    ensures
        !ns.contains(n),
    decreases ns.len(),
{
    if ns.len() > 0 {
        lemma_occ_ns_zero(ns.drop_last(), n);
        if ns.contains(n) {
            let i = choose|i: int| 0 <= i < ns.len() && ns[i] == n;
            if i < ns.len() - 1 {
                assert(ns.drop_last()[i] == n);
            }
        }
    }
}

proof fn lemma_subst_ns_absent(from: SName, to: SName, ns: Seq<SName>)
    requires
        occ_ns(ns, from) == 0,
    ensures
        subst_ns(from, to, ns) == ns,
{
    lemma_occ_ns_zero(ns, from);
    assert forall|i: int| 0 <= i < ns.len() implies subst_ns(from, to, ns)[i] == ns[i] by {
        assert(ns[i] != from);
    }
    assert(subst_ns(from, to, ns) =~= ns);
}

proof fn lemma_occ_cases_zero(cs: Seq<SCase>, n: SName)
    requires
        occ_cases(cs, n) == 0,
    ensures
        forall|i: int| 0 <= i < cs.len() ==> occ_e(#[trigger] cs[i].body, n) == 0,
    decreases cs.len(),
{
    if cs.len() > 0 {
        lemma_occ_cases_zero(cs.drop_last(), n);
        assert forall|i: int| 0 <= i < cs.len() implies occ_e(#[trigger] cs[i].body, n) == 0 by {
            if i < cs.len() - 1 {
                assert(cs.drop_last()[i] == cs[i]);
            }
        }
    }
}

/// Renaming a name that the census does not count leaves the expression as
/// it is.
pub proof fn lemma_subst_absent(from: SName, to: SName, e: SExpr)
    requires
        occ_e(e, from) == 0,
    ensures
        subst_e(from, to, e) == e,
    decreases e, 1int,
{
    match e {
        SExpr::Let(b, v, body) => {
            lemma_subst_absent_v(from, to, v);
            lemma_subst_absent(from, to, *body);

        },
        SExpr::Letrec(b, f, body) => {
            lemma_subst_absent(from, to, *f.body);
            lemma_subst_absent(from, to, *body);
            assert(SFun { args: f.args, cont: f.cont, body: Box::new(subst_e(from, to, *f.body)) } == f);
        },
        SExpr::Encore(f, a, k) => {
            lemma_subst_ns_absent(from, to, a);
        },
        SExpr::Match(n, t, cs) => {
            lemma_occ_cases_zero(cs, from);
            assert forall|i: int| 0 <= i < cs.len() implies subst_e(from, to, #[trigger] cs[i].body) == cs[i].body by {
                lemma_subst_absent(from, to, cs[i].body);
            }
            match subst_e(from, to, e) {
                SExpr::Match(_, _, cs2) => {
                    assert(cs2.len() == cs.len());
                    assert forall|i: int| 0 <= i < cs.len() implies cs2[i] == cs[i] by {
                        assert(subst_e(from, to, cs[i].body) == cs[i].body);
                    }
                    assert(cs2 =~= cs);
                },
                _ => {},
            }
        },
        SExpr::Fin(_) => {},
    }
}

pub proof fn lemma_subst_absent_v(from: SName, to: SName, v: SVal)
    requires
        occ_v(v, from) == 0,
    ensures
        subst_v(from, to, v) == v,
    decreases v, 0int,
{
    match v {
        SVal::Cont(c) => {
            lemma_subst_absent(from, to, *c.body);
        },
        SVal::Ctor(_, fs) => {
            lemma_subst_ns_absent(from, to, fs);
        },
        SVal::Prim(_, a) => {
            lemma_subst_ns_absent(from, to, a);
        },
        _ => {},
    }
}

// ── Renaming keeps the size ──────────────────────────────────────────────────

pub proof fn lemma_subst_size(from: SName, to: SName, e: SExpr)
    ensures
        size_e(subst_e(from, to, e)) == size_e(e),
    decreases e,
{
    match e {
        SExpr::Let(b, v, body) => {
            lemma_subst_size_v(from, to, v);
            if b != from {
                lemma_subst_size(from, to, *body);
            }
        },
        SExpr::Letrec(b, f, body) => {
            if b != from {
                if !f.args.contains(from) && f.cont != from {
                    lemma_subst_size(from, to, *f.body);
                }
                lemma_subst_size(from, to, *body);
            }
        },
        SExpr::Match(n, t, cs) => {
            let r = subst_e(from, to, e);
            if let SExpr::Match(_, _, rcs) = r {
                assert forall|i: int| 0 <= i < rcs.len() implies size_e(#[trigger] rcs[i].body) == size_e(cs[i].body) by {
                    if !cs[i].binds.contains(from) {
                        lemma_subst_size(from, to, cs[i].body);
                    }
                }
                lemma_size_cases_pointwise(rcs, cs);
            }
        },
        _ => {},
    }
}

pub proof fn lemma_subst_size_v(from: SName, to: SName, v: SVal)
    ensures
        size_v(subst_v(from, to, v)) == size_v(v),
    decreases v,
{
    match v {
        SVal::Cont(c) => {
            if !c.params.contains(from) {
                lemma_subst_size(from, to, *c.body);
            }
        },
        _ => {},
    }
}

pub proof fn lemma_subst_seq_size(ps: Seq<SName>, args: Seq<SName>, e: SExpr)
    ensures
        size_e(subst_seq(ps, args, e)) == size_e(e),
    decreases ps.len(),
{
    if ps.len() > 0 && args.len() > 0 {
        lemma_subst_size(ps[0], args[0], e);
        lemma_subst_seq_size(ps.drop_first(), args.drop_first(), subst_e(ps[0], args[0], e));
    }
}

// ── Implementation on names held as `String` ────────────────────────────────

pub fn subst_name_in(from: &Name, to: &Name, name: Name) -> (res: Name)
    ensures
        res@ == subst_n(from@, to@, name@),
{
    if name == *from {
        to.clone()
    } else {
        name
    }
}

pub fn subst_names_in(from: &Name, to: &Name, ns: &Vec<Name>) -> (res: Vec<Name>)
    ensures
        names_view(res@) == subst_ns(from@, to@, names_view(ns@)),
{
    let mut out: Vec<Name> = Vec::new();
    let mut i: usize = 0;
    while i < ns.len()
        invariant
            i <= ns@.len(),
            out@.len() == i,
            forall|j: int| 0 <= j < i ==> (#[trigger] out@[j])@ == subst_n(from@, to@, ns@[j]@),
        decreases ns@.len() - i,
    {
        out.push(subst_name_in(from, to, ns[i].clone()));
        i += 1;
    }
    assert(names_view(out@) =~= subst_ns(from@, to@, names_view(ns@)));
    out
}

pub fn subst_val_in(from: &Name, to: &Name, v: Val) -> (res: Val)
    ensures
        res@ == subst_v(from@, to@, v@),
    decreases v,
{
    match v {
        Val::Var(n) => Val::Var(subst_name_in(from, to, n)),
        Val::Cont(c) => {
            if names_contain(&c.params, from) {
                Val::Cont(c)
            } else {
                let Cont { params, body } = c;
                Val::Cont(Cont { params, body: Box::new(subst_expr_in(from, to, *body)) })
            }
        },
        Val::Ctor(t, fs) => Val::Ctor(t, subst_names_in(from, to, &fs)),
        Val::Field(n, i) => Val::Field(subst_name_in(from, to, n), i),
        Val::Prim(op, a) => Val::Prim(op, subst_names_in(from, to, &a)),
        other => other,
    }
}

pub fn subst_expr_in(from: &Name, to: &Name, e: Expr) -> (res: Expr)
    ensures
        res@ == subst_e(from@, to@, e@),
    decreases e,
{
    match e {
        Expr::Let(b, v, body) => {
            let v2 = subst_val_in(from, to, v);
            if !(b == *from) {
                Expr::Let(b, v2, Box::new(subst_expr_in(from, to, *body)))
            } else {
                Expr::Let(b, v2, body)
            }
        },
        Expr::Letrec(b, f, body) => {
            if !(b == *from) {
                let f2 = if !names_contain(&f.args, from) && !(f.cont == *from) {
                    let ghost fv = f@;
                    let Fun { args, cont, body: fb } = f;
                    let nf = Fun { args, cont, body: Box::new(subst_expr_in(from, to, *fb)) };
                    assert(nf@ == SFun { args: fv.args, cont: fv.cont, body: Box::new(subst_e(from@, to@, *fv.body)) });
                    nf
                } else {
                    f
                };
                Expr::Letrec(b, f2, Box::new(subst_expr_in(from, to, *body)))
            } else {
                Expr::Letrec(b, f, body)
            }
        },
        Expr::Encore(f, a, k) => Expr::Encore(
            subst_name_in(from, to, f),
            subst_names_in(from, to, &a),
            subst_name_in(from, to, k),
        ),
        Expr::Match(n, t, cs) => {
            let ghost orig = cs@;
            let ghost cs0 = cs;
            let ghost n0 = n;
            assert(decreases_to!(e => cs0));
            let mut rest = cs;
            let mut out: Vec<Case> = Vec::new();
            while rest.len() > 0
                invariant
                    out@.len() + rest@.len() == orig.len(),
                    rest@ == orig.subrange(out@.len() as int, orig.len() as int),
                    cs0@ == orig,
                    decreases_to!(e => cs0),
                    forall|j: int|
                        0 <= j < out@.len() ==> (#[trigger] out@[j])@ == (if orig[j]@.binds.contains(from@) {
                            orig[j]@
                        } else {
                            SCase { binds: orig[j]@.binds, body: subst_e(from@, to@, orig[j]@.body) }
                        }),
                decreases rest@.len(),
            {
                let c = rest.remove(0);
                assert(c == orig[out@.len() as int]);
                if names_contain(&c.binds, from) {
                    out.push(c);
                } else {
                    let Case { binds, body } = c;
                    proof {
                        let k = out@.len() as int;
                        assert(decreases_to!(cs0 => cs0@));
                        assert(decreases_to!(cs0@ => cs0@[k]));
                        assert(decreases_to!(cs0@[k] => cs0@[k].body));
                    }
                    out.push(Case { binds, body: subst_expr_in(from, to, body) });
                }
            }
            let res = Expr::Match(subst_name_in(from, to, n), t, out);
            proof {
                let target = match subst_e(from@, to@, e@) {
                    SExpr::Match(_, _, x) => x,
                    _ => arbitrary(),
                };
                let cv = cases_view(orig);
                assert(e@ == SExpr::Match(n0@, t, cv));
                assert(target.len() == out@.len());
                assert forall|i: int| 0 <= i < out@.len() implies #[trigger] cases_view(out@)[i] == target[i] by {
                    assert(cv[i] == orig[i]@);
                    assert(cases_view(out@)[i] == out@[i]@);
                }
                assert(cases_view(out@) =~= target);
            }
            res
        },
        Expr::Fin(n) => Expr::Fin(subst_name_in(from, to, n)),
    }
}

// ── Public entry points ──────────────────────────────────────────────────────

/// Replace `name` by `to` when it is `from`.
pub fn subst_name(from: &str, to: &str, name: &mut String)
    ensures
        final(name)@ == subst_n(from@, to@, old(name)@),
{
    if *name == from.to_owned() {
        *name = to.to_owned();
    }
}

/// Rename the free occurrences of `from` to `to` in a value.
pub fn subst_val(from: &str, to: &str, val: &mut Val)
    ensures
        final(val)@ == subst_v(from@, to@, old(val)@),
{
    let f = from.to_owned();
    let t = to.to_owned();
    let mut tmp = Val::NullCont;
    core::mem::swap(&mut tmp, val);
    *val = subst_val_in(&f, &t, tmp);
}

/// Rename the free occurrences of `from` to `to` in an expression.
pub fn subst_expr(from: &str, to: &str, expr: &mut Expr)
    ensures
        final(expr)@ == subst_e(from@, to@, old(expr)@),
{
    let f = from.to_owned();
    let t = to.to_owned();
    let mut tmp = Expr::Fin(String::new());
    core::mem::swap(&mut tmp, expr);
    *expr = subst_expr_in(&f, &t, tmp);
}

/// Rename `ps[i]` to `args[i]` in turn, for each `i` below the shorter length.
pub fn subst_all(ps: &Vec<Name>, args: &Vec<Name>, e: Expr) -> (res: Expr)
    ensures
        res@ == subst_seq(names_view(ps@), names_view(args@), e@),
{
    let mut i: usize = 0;
    let mut cur = e;
    assert(names_view(ps@).skip(0) =~= names_view(ps@));
    assert(names_view(args@).skip(0) =~= names_view(args@));
    while i < ps.len() && i < args.len()
        invariant
            i <= ps@.len(),
            i <= args@.len(),
            subst_seq(names_view(ps@), names_view(args@), e@)
                == subst_seq(names_view(ps@).skip(i as int), names_view(args@).skip(i as int), cur@),
        decreases ps@.len() - i,
    {
        let ghost p = names_view(ps@).skip(i as int);
        let ghost a = names_view(args@).skip(i as int);
        assert(p.drop_first() =~= names_view(ps@).skip(i + 1));
        assert(a.drop_first() =~= names_view(args@).skip(i + 1));
        cur = subst_expr_in(&ps[i], &args[i], cur);
        i += 1;
    }
    cur
}

} // verus!
