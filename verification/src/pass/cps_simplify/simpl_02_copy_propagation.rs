// Replace a name that is just an alias for another with the original.
//
//   let y = x in f y     ──►   f x
//
use vstd::prelude::*;
use crate::ir::cps::{Case, Cont, Expr, Fun, SCase, SCont, SExpr, SFun, SVal, Val, cases_view};
use crate::pass::cps_subst::{subst_e, subst_expr_in};

verus! {

/// Copy propagation on the model: `let y = x in b` becomes `b[y := x]`.
pub open spec fn cp_e(e: SExpr) -> SExpr
    decreases e,
{
    match e {
        SExpr::Let(n, v, b) => match v {
            SVal::Var(y) => subst_e(n, y, cp_e(*b)),
            _ => SExpr::Let(n, cp_v(v), Box::new(cp_e(*b))),
        },
        SExpr::Letrec(n, f, b) => SExpr::Letrec(
            n,
            SFun { args: f.args, cont: f.cont, body: Box::new(cp_e(*f.body)) },
            Box::new(cp_e(*b)),
        ),
        SExpr::Match(s, t, cs) => SExpr::Match(
            s,
            t,
            Seq::new(
                cs.len(),
                |i: int|
                    if 0 <= i < cs.len() {
                        SCase { binds: cs[i].binds, body: cp_e(cs[i].body) }
                    } else {
                        arbitrary()
                    },
            ),
        ),
        _ => e,
    }
}

pub open spec fn cp_v(v: SVal) -> SVal
    decreases v,
{
    match v {
        SVal::Cont(c) => SVal::Cont(SCont { params: c.params, body: Box::new(cp_e(*c.body)) }),
        _ => v,
    }
}

/// Replace every alias binding `let y = x` by renaming `y` to `x` in its scope.
pub fn copy_propagation(expr: Expr) -> (res: Expr)
    ensures
        res@ == cp_e(expr@),
    decreases expr,
{
    match expr {
        Expr::Let(name, val, body) => {
            let ghost gv = val;
            match val {
                Val::Var(y) => {
                    assert(gv@ == SVal::Var(y@));
                    let body = copy_propagation(*body);
                    subst_expr_in(&name, &y, body)
                },
                other => {
                    assert(!(gv@ is Var));
                    let v = copy_propagation_val(other);
                    Expr::Let(name, v, Box::new(copy_propagation(*body)))
                },
            }
        },
        Expr::Letrec(name, fun, body) => {
            let ghost fv = fun@;
            let Fun { args, cont, body: fb } = fun;
            let fun = Fun { args, cont, body: Box::new(copy_propagation(*fb)) };
            assert(fun@ == SFun { args: fv.args, cont: fv.cont, body: Box::new(cp_e(*fv.body)) });
            Expr::Letrec(name, fun, Box::new(copy_propagation(*body)))
        },
        Expr::Match(s, t, cs) => {
            let ghost e0 = expr;
            let ghost orig = cs@;
            let ghost cs0 = cs;
            assert(decreases_to!(expr => cs0));
            let mut rest = cs;
            let mut out: Vec<Case> = Vec::new();
            while rest.len() > 0
                invariant
                    out@.len() + rest@.len() == orig.len(),
                    rest@ == orig.subrange(out@.len() as int, orig.len() as int),
                    cs0@ == orig,
                    decreases_to!(expr => cs0),
                    forall|j: int| 0 <= j < out@.len() ==> (#[trigger] out@[j])@
                        == (SCase { binds: orig[j]@.binds, body: cp_e(orig[j]@.body) }),
                decreases rest@.len(),
            {
                let c = rest.remove(0);
                proof {
                    let k = out@.len() as int;
                    assert(c == orig[k]);
                    assert(decreases_to!(cs0 => cs0@));
                    assert(decreases_to!(cs0@ => cs0@[k]));
                    assert(decreases_to!(cs0@[k] => cs0@[k].body));
                }
                let Case { binds, body } = c;
                out.push(Case { binds, body: copy_propagation(body) });
            }
            proof {
                let target = match cp_e(e0@) {
                    SExpr::Match(_, _, x) => x,
                    _ => arbitrary(),
                };
                let cv = cases_view(orig);
                assert(e0@ == SExpr::Match(s@, t, cv));
                assert forall|i: int| 0 <= i < out@.len() implies #[trigger] cases_view(out@)[i] == target[i] by {
                    assert(cv[i] == orig[i]@);
                    assert(cases_view(out@)[i] == out@[i]@);
                }
                assert(cases_view(out@) =~= target);
            }
            Expr::Match(s, t, out)
        },
        other => other,
    }
}

fn copy_propagation_val(val: Val) -> (res: Val)
    ensures
        res@ == cp_v(val@),
    decreases val,
{
    match val {
        Val::Cont(c) => {
            let Cont { params, body } = c;
            Val::Cont(Cont { params, body: Box::new(copy_propagation(*body)) })
        },
        other => other,
    }
}

} // verus!
