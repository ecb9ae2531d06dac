// Drop bindings whose name is never referenced in the body.
//
//   let unused = Succ(x) in unused     ──►   unused
//
use vstd::prelude::*;
use crate::ir::cps::{Case, Cont, Expr, Fun, SCase, SCont, SExpr, SFun, SVal, Val, cases_view};
use crate::pass::cps_census::{is_pure, is_pure_v, occ_e, uses_in_expr};

verus! {

/// Dead-code elimination on the model, bottom-up.
pub open spec fn dc_e(e: SExpr) -> SExpr
    decreases e,
{
    match e {
        SExpr::Let(n, v, b) => {
            let v2 = dc_v(v);
            let b2 = dc_e(*b);
            if occ_e(b2, n) == 0 && is_pure_v(v2) {
                b2
            } else {
                SExpr::Let(n, v2, Box::new(b2))
            }
        },
        SExpr::Letrec(n, f, b) => {
            let f2 = SFun { args: f.args, cont: f.cont, body: Box::new(dc_e(*f.body)) };
            let b2 = dc_e(*b);
            if occ_e(b2, n) == 0 {
                b2
            } else {
                SExpr::Letrec(n, f2, Box::new(b2))
            }
        },
        SExpr::Match(s, t, cs) => SExpr::Match(
            s,
            t,
            Seq::new(
                cs.len(),
                |i: int|
                    if 0 <= i < cs.len() {
                        SCase { binds: cs[i].binds, body: dc_e(cs[i].body) }
                    } else {
                        arbitrary()
                    },
            ),
        ),
        _ => e,
    }
}

pub open spec fn dc_v(v: SVal) -> SVal
    decreases v,
{
    match v {
        SVal::Cont(c) => SVal::Cont(SCont { params: c.params, body: Box::new(dc_e(*c.body)) }),
        _ => v,
    }
}

/// Every binding of `e`, at every depth, names something that its body
/// mentions.
pub open spec fn binders_used(e: SExpr) -> bool
    decreases e,
{
    match e {
        SExpr::Let(n, v, b) => occ_e(*b, n) > 0 && binders_used_v(v) && binders_used(*b),
        SExpr::Letrec(n, f, b) => occ_e(*b, n) > 0 && binders_used(*f.body) && binders_used(*b),
        SExpr::Match(_, _, cs) => forall|i: int| 0 <= i < cs.len() ==> binders_used(#[trigger] cs[i].body),
        _ => true,
    }
}

pub open spec fn binders_used_v(v: SVal) -> bool
    decreases v,
{
    match v {
        SVal::Cont(c) => binders_used(*c.body),
        _ => true,
    }
}

/// Dead-code elimination leaves no binding whose name goes unmentioned, at
/// any depth, and so a second run changes nothing.
pub proof fn lemma_dead_code(e: SExpr)
    ensures
        binders_used(dc_e(e)),
        dc_e(dc_e(e)) == dc_e(e),
    decreases e,
{
    match e {
        SExpr::Let(n, v, b) => {
            lemma_dead_code_v(v);
            lemma_dead_code(*b);
            let v2 = dc_v(v);
            let b2 = dc_e(*b);
            if !(occ_e(b2, n) == 0 && is_pure_v(v2)) {
                let k = SExpr::Let(n, v2, Box::new(b2));
                assert(dc_e(e) == k);
                assert(dc_e(k) == k);
            }
        },
        SExpr::Letrec(n, f, b) => {
            lemma_dead_code(*f.body);
            lemma_dead_code(*b);
            let f2 = SFun { args: f.args, cont: f.cont, body: Box::new(dc_e(*f.body)) };
            let b2 = dc_e(*b);
            if occ_e(b2, n) != 0 {
                let k = SExpr::Letrec(n, f2, Box::new(b2));
                assert(dc_e(e) == k);
                let f3 = SFun { args: f2.args, cont: f2.cont, body: Box::new(dc_e(*f2.body)) };
                assert(f3 == f2);
                assert(dc_e(k) == k);
            }
        },
        SExpr::Match(s, t, cs) => {
            let x = match dc_e(e) {
                SExpr::Match(_, _, x) => x,
                _ => arbitrary(),
            };
            assert(dc_e(e) == SExpr::Match(s, t, x));
            assert(x.len() == cs.len());
            assert forall|i: int| 0 <= i < x.len() implies binders_used(#[trigger] x[i].body) && dc_e(x[i].body)
                == x[i].body by {
                assert(x[i] == SCase { binds: cs[i].binds, body: dc_e(cs[i].body) });
                lemma_dead_code(cs[i].body);
            }
            let y = match dc_e(SExpr::Match(s, t, x)) {
                SExpr::Match(_, _, y) => y,
                _ => arbitrary(),
            };
            assert(dc_e(SExpr::Match(s, t, x)) == SExpr::Match(s, t, y));
            assert(y =~= x);
        },
        _ => {},
    }
}

pub proof fn lemma_dead_code_v(v: SVal)
    ensures
        binders_used_v(dc_v(v)),
        dc_v(dc_v(v)) == dc_v(v),
    decreases v,
{
    match v {
        SVal::Cont(c) => {
            lemma_dead_code(*c.body);
        },
        _ => {},
    }
}

/// Remove every pure binding (and every function binding) whose name the
/// rest of its scope never mentions.
pub fn dead_code(expr: Expr) -> (res: Expr)
    ensures
        res@ == dc_e(expr@),
    decreases expr,
{
    match expr {
        Expr::Let(name, val, body) => {
            let val = dead_code_val(val);
            let body = dead_code(*body);
            if uses_in_expr(&name, &body) == 0 && is_pure(&val) {
                body
            } else {
                Expr::Let(name, val, Box::new(body))
            }
        },
        Expr::Letrec(name, fun, body) => {
            let ghost fv = fun@;
            let Fun { args, cont, body: fb } = fun;
            let fun = Fun { args, cont, body: Box::new(dead_code(*fb)) };
            assert(fun@ == SFun { args: fv.args, cont: fv.cont, body: Box::new(dc_e(*fv.body)) });
            let body = dead_code(*body);
            if uses_in_expr(&name, &body) == 0 {
                body
            } else {
                Expr::Letrec(name, fun, Box::new(body))
            }
        },
        Expr::Match(s, t, cs) => {
            let ghost e0 = expr;
            let ghost orig = cs@;
            let ghost cs0 = cs;
            assert(decreases_to!(expr => cs0));
            let mut rest = cs;
            let mut out: Vec<Case> = Vec::new();
            while rest.len() > 0
                invariant
                    out@.len() + rest@.len() == orig.len(),
                    rest@ == orig.subrange(out@.len() as int, orig.len() as int),
                    cs0@ == orig,
                    decreases_to!(expr => cs0),
                    forall|j: int| 0 <= j < out@.len() ==> (#[trigger] out@[j])@
                        == (SCase { binds: orig[j]@.binds, body: dc_e(orig[j]@.body) }),
                decreases rest@.len(),
            {
                let c = rest.remove(0);
                proof {
                    let k = out@.len() as int;
                    assert(c == orig[k]);
                    assert(decreases_to!(cs0 => cs0@));
                    assert(decreases_to!(cs0@ => cs0@[k]));
                    assert(decreases_to!(cs0@[k] => cs0@[k].body));
                }
                let Case { binds, body } = c;
                out.push(Case { binds, body: dead_code(body) });
            }
            proof {
                let target = match dc_e(e0@) {
                    SExpr::Match(_, _, x) => x,
                    _ => arbitrary(),
                };
                let cv = cases_view(orig);
                assert(e0@ == SExpr::Match(s@, t, cv));
                assert forall|i: int| 0 <= i < out@.len() implies #[trigger] cases_view(out@)[i] == target[i] by {
                    assert(cv[i] == orig[i]@);
                    assert(cases_view(out@)[i] == out@[i]@);
                }
                assert(cases_view(out@) =~= target);
            }
            Expr::Match(s, t, out)
        },
        other => other,
    }
}

fn dead_code_val(val: Val) -> (res: Val)
    ensures
        res@ == dc_v(val@),
    decreases val,
{
    match val {
        Val::Cont(c) => {
            let Cont { params, body } = c;
            Val::Cont(Cont { params, body: Box::new(dead_code(*body)) })
        },
        other => other,
    }
}

} // verus!
