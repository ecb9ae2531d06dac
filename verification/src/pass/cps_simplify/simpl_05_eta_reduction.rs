// Collapse a continuation that just forwards its argument to another continuation.
//
//   let g = cont(x). let _nc = nullcont in encore f x _nc
//   in let _nc2 = nullcont in encore g arg _nc2
//   ──►   let g = var(f) in let _nc2 = nullcont in encore g arg _nc2
//
use vstd::prelude::*;
use crate::ir::cps::{Case, Cont, Expr, Fun, Name, SCase, SCont, SExpr, SFun, SName, SVal, Val, cases_view, names_contain, names_eq};

verus! {

/// The continuation `f` a continuation only forwards its parameters to, if any.
pub open spec fn eta_target(c: SCont) -> Option<SName> {
    match *c.body {
        SExpr::Let(_, SVal::NullCont, inner) => match *inner {
            SExpr::Encore(f, args, _) => if args == c.params && !c.params.contains(f) {
                Some(f)
            } else {
                None
            },
            _ => None,
        },
        _ => None,
    }
}

/// Eta reduction on the model.
pub open spec fn eta_e(e: SExpr) -> SExpr
    decreases e,
{
    match e {
        SExpr::Let(n, v, b) => match v {
            SVal::Cont(c) => match eta_target(c) {
                Some(f) => SExpr::Let(n, SVal::Var(f), Box::new(eta_e(*b))),
                None => SExpr::Let(
                    n,
                    SVal::Cont(SCont { params: c.params, body: Box::new(eta_e(*c.body)) }),
                    Box::new(eta_e(*b)),
                ),
            },
            _ => SExpr::Let(n, v, Box::new(eta_e(*b))),
        },
        SExpr::Letrec(n, f, b) => SExpr::Letrec(
            n,
            SFun { args: f.args, cont: f.cont, body: Box::new(eta_e(*f.body)) },
            Box::new(eta_e(*b)),
        ),
        SExpr::Match(s, t, cs) => SExpr::Match(
            s,
            t,
            Seq::new(
                cs.len(),
                |i: int|
                    if 0 <= i < cs.len() {
                        SCase { binds: cs[i].binds, body: eta_e(cs[i].body) }
                    } else {
                        arbitrary()
                    },
            ),
        ),
        _ => e,
    }
}

fn forward_target(c: &Cont) -> (res: Option<Name>)
    ensures
        match res {
            Some(f) => eta_target(c@) == Some(f@),
            None => eta_target(c@) is None,
        },
{
    match &*c.body {
        Expr::Let(_, Val::NullCont, inner) => match &**inner {
            Expr::Encore(f, args, _) => {
                if names_eq(args, &c.params) && !names_contain(&c.params, f) {
                    Some(f.clone())
                } else {
                    None
                }
            },
            _ => None,
        },
        _ => None,
    }
}

/// Replace each continuation that only forwards its parameters to `f` by `f`.
pub fn eta_reduction(expr: Expr) -> (res: Expr)
    ensures
        res@ == eta_e(expr@),
    decreases expr,
{
    match expr {
        Expr::Let(name, val, body) => {
            let ghost gv = val;
            match val {
                Val::Cont(cont) => {
                    assert(gv@ == SVal::Cont(cont@));
                    let ghost b0 = *body;
                    assert(expr@ == SExpr::Let(name@, SVal::Cont(cont@), Box::new(b0@)));
                    let body = eta_reduction(*body);
                    match forward_target(&cont) {
                        Some(f) => {
                            assert(eta_target(cont@) == Some(f@));
                            assert(eta_e(expr@) == SExpr::Let(name@, SVal::Var(f@), Box::new(eta_e(b0@))));
                            let ghost fv = f@;
                            let v = Val::Var(f);
                            assert(v@ == SVal::Var(fv));
                            let r = Expr::Let(name, v, Box::new(body));
                            assert(r@ == eta_e(expr@));
                            r
                        },
                        None => {
                            let ghost cv = cont@;
                            let Cont { params, body: cb } = cont;
                            let c2 = Cont { params, body: Box::new(eta_reduction(*cb)) };
                            assert(c2@ == SCont { params: cv.params, body: Box::new(eta_e(*cv.body)) });
                            let ghost c2v = c2@;
                            let v = Val::Cont(c2);
                            assert(v@ == SVal::Cont(c2v));
                            let r = Expr::Let(name, v, Box::new(body));
                            assert(r@ == eta_e(expr@));
                            r
                        },
                    }
                },
                other => {
                    assert(!(gv@ is Cont));
                    let r = Expr::Let(name, other, Box::new(eta_reduction(*body)));
                    assert(r@ == eta_e(expr@));
                    r
                },
            }
        },
        Expr::Letrec(name, fun, body) => {
            let ghost fv = fun@;
            let Fun { args, cont, body: fb } = fun;
            let fun = Fun { args, cont, body: Box::new(eta_reduction(*fb)) };
            assert(fun@ == SFun { args: fv.args, cont: fv.cont, body: Box::new(eta_e(*fv.body)) });
            Expr::Letrec(name, fun, Box::new(eta_reduction(*body)))
        },
        Expr::Match(s, t, cs) => {
            let ghost e0 = expr;
            let ghost orig = cs@;
            let ghost cs0 = cs;
            assert(decreases_to!(expr => cs0));
            let mut rest = cs;
            let mut out: Vec<Case> = Vec::new();
            while rest.len() > 0
                invariant
                    out@.len() + rest@.len() == orig.len(),
                    rest@ == orig.subrange(out@.len() as int, orig.len() as int),
                    cs0@ == orig,
                    decreases_to!(expr => cs0),
                    forall|j: int| 0 <= j < out@.len() ==> (#[trigger] out@[j])@
                        == (SCase { binds: orig[j]@.binds, body: eta_e(orig[j]@.body) }),
                decreases rest@.len(),
            {
                let c = rest.remove(0);
                proof {
                    let k = out@.len() as int;
                    assert(c == orig[k]);
                    assert(decreases_to!(cs0 => cs0@));
                    assert(decreases_to!(cs0@ => cs0@[k]));
                    assert(decreases_to!(cs0@[k] => cs0@[k].body));
                }
                let Case { binds, body } = c;
                out.push(Case { binds, body: eta_reduction(body) });
            }
            proof {
                let target = match eta_e(e0@) {
                    SExpr::Match(_, _, x) => x,
                    _ => arbitrary(),
                };
                let cv = cases_view(orig);
                assert(e0@ == SExpr::Match(s@, t, cv));
                assert forall|i: int| 0 <= i < out@.len() implies #[trigger] cases_view(out@)[i] == target[i] by {
                    assert(cv[i] == orig[i]@);
                    assert(cases_view(out@)[i] == out@[i]@);
                }
                assert(cases_view(out@) =~= target);
            }
            Expr::Match(s, t, out)
        },
        other => other,
    }
}

} // verus!
