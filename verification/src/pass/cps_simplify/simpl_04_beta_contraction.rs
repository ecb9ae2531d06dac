// Inline a continuation that is called exactly once, removing the closure allocation.
// The CPS transform produces an administrative continuation per application;
// nearly all of them are single-use and this pass eliminates them.
//
//   let k = cont(x). x in let _nc = nullcont in encore k arg _nc     ──►   arg
//
use vstd::prelude::*;
use crate::ir::cps::{Case, Cont, Expr, Fun, Name, SCase, SCont, SExpr, SFun, SName, SVal, Val, cases_view, clone_cases, clone_expr, clone_fun, clone_val};
use crate::pass::cps_census::{occ_e, uses_in_expr};
use crate::pass::cps_subst::{subst_all, subst_seq};

verus! {

/// The expression with the one call `return name args` (behind a `let _ =
/// nullcont`) replaced by the continuation body, if such a call is reached
/// along `let`, `letrec` and the first match branch that has one.
pub open spec fn try_inline_e(name: SName, c: SCont, e: SExpr) -> Option<SExpr>
    decreases e, 0int,
{
    match e {
        SExpr::Let(x, v, body) => match v {
            SVal::NullCont => match *body {
                SExpr::Encore(k, args, _) => if k == name && args.len() == c.params.len() {
                    Some(subst_seq(c.params, args, *c.body))
                } else {
                    None
                },
                _ => None,
            },
            _ => match try_inline_e(name, c, *body) {
                Some(nb) => Some(SExpr::Let(x, v, Box::new(nb))),
                None => None,
            },
        },
        SExpr::Letrec(x, f, body) => match try_inline_e(name, c, *body) {
            Some(nb) => Some(SExpr::Letrec(x, f, Box::new(nb))),
            None => None,
        },
        SExpr::Match(s, t, cs) => match try_inline_cases(name, c, cs, 0) {
            Some(ncs) => Some(SExpr::Match(s, t, ncs)),
            None => None,
        },
        _ => None,
    }
}

/// The branches with the first one (from index `i` on) that inlines replaced.
pub open spec fn try_inline_cases(name: SName, c: SCont, cs: Seq<SCase>, i: int) -> Option<Seq<SCase>>
    decreases cs, cs.len() - i,
{
    if 0 <= i < cs.len() {
        match try_inline_e(name, c, cs[i].body) {
            Some(nb) => Some(cs.update(i, SCase { binds: cs[i].binds, body: nb })),
            None => try_inline_cases(name, c, cs, i + 1),
        }
    } else {
        None
    }
}

/// Beta contraction on the model.
pub open spec fn beta_e(e: SExpr) -> SExpr
    decreases e,
{
    match e {
        SExpr::Let(n, v, b) => match v {
            SVal::Cont(c) => {
                let b2 = beta_e(*b);
                if occ_e(b2, n) == 1 && try_inline_e(n, c, b2) is Some {
                    try_inline_e(n, c, b2).unwrap()
                } else {
                    SExpr::Let(
                        n,
                        SVal::Cont(SCont { params: c.params, body: Box::new(beta_e(*c.body)) }),
                        Box::new(b2),
                    )
                }
            },
            _ => SExpr::Let(n, v, Box::new(beta_e(*b))),
        },
        SExpr::Letrec(n, f, b) => SExpr::Letrec(
            n,
            SFun { args: f.args, cont: f.cont, body: Box::new(beta_e(*f.body)) },
            Box::new(beta_e(*b)),
        ),
        SExpr::Match(s, t, cs) => SExpr::Match(
            s,
            t,
            Seq::new(
                cs.len(),
                |i: int|
                    if 0 <= i < cs.len() {
                        SCase { binds: cs[i].binds, body: beta_e(cs[i].body) }
                    } else {
                        arbitrary()
                    },
            ),
        ),
        _ => e,
    }
}

fn try_inline(name: &Name, cont: &Cont, expr: &Expr) -> (res: Option<Expr>)
    ensures
        match res {
            Some(r) => try_inline_e(name@, cont@, expr@) == Some(r@),
            None => try_inline_e(name@, cont@, expr@) is None,
        },
    decreases *expr,
{
    match expr {
        Expr::Let(x, v, body) => match v {
            Val::NullCont => match &**body {
                Expr::Encore(k, args, kk) => {
                    assert(v@ == SVal::NullCont);
                    assert((**body)@ == SExpr::Encore(k@, crate::ir::cps::names_view(args@), kk@));
                    assert(cont@.params == crate::ir::cps::names_view(cont.params@));
                    assert(cont@.body == Box::new(cont.body@));
                    if *k == *name && args.len() == cont.params.len() {
                        Some(subst_all(&cont.params, args, clone_expr(&cont.body)))
                    } else {
                        None
                    }
                },
                _ => {
                    assert(v@ == SVal::NullCont);
                    None
                },
            },
            _ => match try_inline(name, cont, body) {
                Some(nb) => {
                    assert(!(v@ is NullCont));
                    let v2 = clone_val(v);
                    Some(Expr::Let(x.clone(), v2, Box::new(nb)))
                },
                None => {
                    assert(!(v@ is NullCont));
                    None
                },
            },
        },
        Expr::Letrec(x, f, body) => match try_inline(name, cont, body) {
            Some(nb) => {
                let f2 = clone_fun(f);
                Some(Expr::Letrec(x.clone(), f2, Box::new(nb)))
            },
            None => None,
        },
        Expr::Match(s, t, cs) => {
            let ghost cv = cases_view(cs@);
            assert(decreases_to!(*expr => *cs));
            assert(expr@ == SExpr::Match(s@, *t, cv));
            let mut i: usize = 0;
            while i < cs.len()
                invariant
                    expr@ == SExpr::Match(s@, *t, cv),
                    i <= cs@.len(),
                    cv == cases_view(cs@),
                    decreases_to!(*expr => *cs),
                    try_inline_cases(name@, cont@, cv, 0) == try_inline_cases(name@, cont@, cv, i as int),
                decreases cs@.len() - i,
            {
                proof {
                    assert(cv[i as int] == cs@[i as int]@);
                    assert(decreases_to!(*cs => cs@));
                    assert(decreases_to!(cs@ => cs@[i as int]));
                    assert(decreases_to!(cs@[i as int] => cs@[i as int].body));
                }
                match try_inline(name, cont, &cs[i].body) {
                    Some(nb) => {
                        assert(cv[i as int].body == cs@[i as int].body@);
                        let mut out = clone_cases(cs);
                        let ghost nbv = nb@;
                        let nc = Case { binds: crate::ir::cps::clone_names(&cs[i].binds), body: nb };
                        assert(nc@ == SCase { binds: cv[i as int].binds, body: nbv });
                        out.set(i, nc);
                        assert(cases_view(out@) =~= cv.update(i as int, SCase { binds: cv[i as int].binds, body: nbv }));
                        assert(expr@ == SExpr::Match(s@, *t, cv));
                        assert(try_inline_e(name@, cont@, cv[i as int].body) == Some(nbv));
                        assert(try_inline_cases(name@, cont@, cv, i as int)
                            == Some(cv.update(i as int, SCase { binds: cv[i as int].binds, body: nbv })));
                        let r = Expr::Match(s.clone(), *t, out);
                        assert(r@ == SExpr::Match(s@, *t, cases_view(out@)));
                        return Some(r);
                    },
                    None => {},
                }
                i += 1;
            }
            None
        },
        _ => None,
    }
}

/// Inline each continuation that is mentioned exactly once, at its call.
pub fn beta_contraction(expr: Expr) -> (res: Expr)
    ensures
        res@ == beta_e(expr@),
    decreases expr,
{
    match expr {
        Expr::Let(name, val, body) => {
            let ghost gv = val;
            match val {
                Val::Cont(cont) => {
                    assert(gv@ == SVal::Cont(cont@));
                    let body = beta_contraction(*body);
                    if uses_in_expr(&name, &body) == 1 {
                        match try_inline(&name, &cont, &body) {
                            Some(inlined) => {
                                return inlined;
                            },
                            None => {},
                        }
                    }
                    let ghost cv = cont@;
                    let Cont { params, body: cb } = cont;
                    let c2 = Cont { params, body: Box::new(beta_contraction(*cb)) };
                    assert(c2@ == SCont { params: cv.params, body: Box::new(beta_e(*cv.body)) });
                    let ghost c2v = c2@;
                    let v = Val::Cont(c2);
                    assert(v@ == SVal::Cont(c2v));
                    Expr::Let(name, v, Box::new(body))
                },
                other => {
                    assert(!(gv@ is Cont));
                    Expr::Let(name, other, Box::new(beta_contraction(*body)))
                },
            }
        },
        Expr::Letrec(name, fun, body) => {
            let ghost fv = fun@;
            let Fun { args, cont, body: fb } = fun;
            let fun = Fun { args, cont, body: Box::new(beta_contraction(*fb)) };
            assert(fun@ == SFun { args: fv.args, cont: fv.cont, body: Box::new(beta_e(*fv.body)) });
            Expr::Letrec(name, fun, Box::new(beta_contraction(*body)))
        },
        Expr::Match(s, t, cs) => {
            let ghost e0 = expr;
            let ghost orig = cs@;
            let ghost cs0 = cs;
            assert(decreases_to!(expr => cs0));
            let mut rest = cs;
            let mut out: Vec<Case> = Vec::new();
            while rest.len() > 0
                invariant
                    out@.len() + rest@.len() == orig.len(),
                    rest@ == orig.subrange(out@.len() as int, orig.len() as int),
                    cs0@ == orig,
                    decreases_to!(expr => cs0),
                    forall|j: int| 0 <= j < out@.len() ==> (#[trigger] out@[j])@
                        == (SCase { binds: orig[j]@.binds, body: beta_e(orig[j]@.body) }),
                decreases rest@.len(),
            {
                let c = rest.remove(0);
                proof {
                    let k = out@.len() as int;
                    assert(c == orig[k]);
                    assert(decreases_to!(cs0 => cs0@));
                    assert(decreases_to!(cs0@ => cs0@[k]));
                    assert(decreases_to!(cs0@[k] => cs0@[k].body));
                }
                let Case { binds, body } = c;
                out.push(Case { binds, body: beta_contraction(body) });
            }
            proof {
                let target = match beta_e(e0@) {
                    SExpr::Match(_, _, x) => x,
                    _ => arbitrary(),
                };
                let cv = cases_view(orig);
                assert(e0@ == SExpr::Match(s@, t, cv));
                assert forall|i: int| 0 <= i < out@.len() implies #[trigger] cases_view(out@)[i] == target[i] by {
                    assert(cv[i] == orig[i]@);
                    assert(cases_view(out@)[i] == out@[i]@);
                }
                assert(cases_view(out@) =~= target);
            }
            Expr::Match(s, t, out)
        },
        other => other,
    }
}

} // verus!
