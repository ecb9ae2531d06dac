// Reuse a previously computed value instead of recomputing it.
//
//   let a = field 0 of x in       let a = field 0 of x in
//   let b = field 0 of x in       ... a ... a ...
//   ... a ... b ...         ──►
//
use vstd::prelude::*;
use crate::ir::cps::{
    Case, Cont, Expr, Fun, Name, SCase, SCont, SExpr, SFun, SName, SVal, Val, cases_view, clone_val,
    lemma_size_case_le, names_contain, names_view, size_cases, size_e, size_v, val_eq,
};
use crate::pass::cps_subst::{lemma_subst_size, subst_e, subst_expr_in};

verus! {

// ── Specification ────────────────────────────────────────────────────────────

/// The values available for reuse, each with the name that holds it; later
/// entries are more recent.
pub type SAvail = Seq<(SVal, SName)>;

pub open spec fn is_cse_candidate_spec(v: SVal) -> bool {
    v is Field || v is Prim || v is Ctor
}

/// Whether the value reads `name` directly (a continuation's body is not inspected).
pub open spec fn val_mentions_spec(v: SVal, name: SName) -> bool {
    match v {
        SVal::Var(n) => n == name,
        SVal::Ctor(_, fs) => fs.contains(name),
        SVal::Field(n, _) => n == name,
        SVal::Prim(_, a) => a.contains(name),
        _ => false,
    }
}

/// The name of the most recent entry that holds exactly `v`.
pub open spec fn find_last(avail: SAvail, v: SVal) -> Option<SName>
    decreases avail.len(),
{
    if avail.len() == 0 {
        None
    } else if avail.last().0 == v {
        Some(avail.last().1)
    } else {
        find_last(avail.drop_last(), v)
    }
}

pub open spec fn find_avail_spec(avail: SAvail, v: SVal) -> Option<SName> {
    if is_cse_candidate_spec(v) {
        find_last(avail, v)
    } else {
        None
    }
}

/// An entry is stale once one of `shadows` is rebound: its holder or one of
/// the names its value reads.
pub open spec fn stale(p: (SVal, SName), shadows: Seq<SName>) -> bool {
    exists|j: int| 0 <= j < shadows.len() && (p.1 == shadows[j] || val_mentions_spec(p.0, #[trigger] shadows[j]))
}

/// The entries of `avail` that are not stale, in order.
pub open spec fn invalidate_spec(avail: SAvail, shadows: Seq<SName>) -> SAvail
    decreases avail.len(),
{
    if avail.len() == 0 {
        avail
    } else {
        let r = invalidate_spec(avail.drop_last(), shadows);
        if stale(avail.last(), shadows) {
            r
        } else {
            r.push(avail.last())
        }
    }
}

pub open spec fn cse_e(avail: SAvail, e: SExpr) -> SExpr
    decreases size_e(e),
{
    match e {
        SExpr::Let(n, v, b) => {
            let v2 = match v {
                SVal::Cont(c) => {
                    proof {
                        assert(size_v(v) == size_e(*c.body));
                    }
                    SVal::Cont(SCont { params: c.params, body: Box::new(cse_e(avail, *c.body)) })
                },
                _ => v,
            };
            match find_avail_spec(avail, v2) {
                Some(existing) => {
                    proof {
                        lemma_subst_size(n, existing, *b);
                    }
                    cse_e(avail, subst_e(n, existing, *b))
                },
                None => SExpr::Let(n, v2, Box::new(cse_e(invalidate_spec(avail, seq![n]).push((v2, n)), *b))),
            }
        },
        SExpr::Letrec(n, f, b) => SExpr::Letrec(
            n,
            SFun { args: f.args, cont: f.cont, body: Box::new(cse_e(Seq::empty(), *f.body)) },
            Box::new(cse_e(avail, *b)),
        ),
        SExpr::Match(s, t, cs) => SExpr::Match(
            s,
            t,
            Seq::new(
                cs.len(),
                |i: int|
                    if 0 <= i < cs.len() {
                        proof {
                            lemma_size_case_le(cs, i);
                        }
                        SCase { binds: cs[i].binds, body: cse_e(invalidate_spec(avail, cs[i].binds), cs[i].body) }
                    } else {
                        arbitrary()
                    },
            ),
        ),
        _ => e,
    }
}

pub open spec fn avail_view(a: Seq<(Val, Name)>) -> SAvail {
    a.map_values(|p: (Val, Name)| (p.0@, p.1@))
}

// ── Implementation ───────────────────────────────────────────────────────────

fn is_cse_candidate(val: &Val) -> (res: bool)
    ensures
        res == is_cse_candidate_spec(val@),
{
    match val {
        Val::Field(_, _) | Val::Prim(_, _) | Val::Ctor(_, _) => true,
        _ => false,
    }
}

fn val_mentions(val: &Val, name: &Name) -> (res: bool)
    ensures
        res == val_mentions_spec(val@, name@),
{
    match val {
        Val::Var(n) => *n == *name,
        Val::Ctor(t, fields) => {
            assert(val@ == SVal::Ctor(*t, names_view(fields@)));
            names_contain(fields, name)
        },
        Val::Field(n, i) => {
            assert(val@ == SVal::Field(n@, *i));
            *n == *name
        },
        Val::Prim(op, args) => {
            assert(val@ == SVal::Prim(*op, names_view(args@)));
            names_contain(args, name)
        },
        _ => false,
    }
}

fn find_available(avail: &Vec<(Val, Name)>, val: &Val) -> (res: Option<Name>)
    ensures
        res is Some == find_avail_spec(avail_view(avail@), val@) is Some,
        res is Some ==> res->0@ == find_avail_spec(avail_view(avail@), val@)->0,
{
    if !is_cse_candidate(val) {
        return None;
    }
    let ghost av = avail_view(avail@);
    let mut i: usize = avail.len();
    assert(av.take(i as int) =~= av);
    while i > 0
        invariant
            i <= avail@.len(),
            av == avail_view(avail@),
            is_cse_candidate_spec(val@),
            find_last(av, val@) == find_last(av.take(i as int), val@),
        decreases i,
    {
        let ghost pre = av.take(i as int);
        assert(pre.drop_last() =~= av.take(i - 1));
        assert(pre.last() == av[i - 1]);
        assert(av[i - 1] == (avail@[i - 1].0@, avail@[i - 1].1@));
        if val_eq(&avail[i - 1].0, val) {
            return Some(avail[i - 1].1.clone());
        }
        i -= 1;
    }
    None
}

fn is_stale(entry: &(Val, Name), shadows: &Vec<Name>) -> (res: bool)
    ensures
        res == stale((entry.0@, entry.1@), names_view(shadows@)),
{
    let ghost sh = names_view(shadows@);
    let mut j: usize = 0;
    while j < shadows.len()
        invariant
            j <= shadows@.len(),
            sh == names_view(shadows@),
            forall|k: int| 0 <= k < j ==> !(entry.1@ == sh[k] || val_mentions_spec(entry.0@, #[trigger] sh[k])),
        decreases shadows@.len() - j,
    {
        if entry.1 == shadows[j] || val_mentions(&entry.0, &shadows[j]) {
            assert(sh[j as int] == shadows@[j as int]@);
            return true;
        }
        assert(sh[j as int] == shadows@[j as int]@);
        j += 1;
    }
    false
}

/// Copy of `avail` without the entries made stale by rebinding `shadows`.
fn invalidate(avail: &Vec<(Val, Name)>, shadows: &Vec<Name>) -> (res: Vec<(Val, Name)>)
    ensures
        avail_view(res@) == invalidate_spec(avail_view(avail@), names_view(shadows@)),
{
    let ghost av = avail_view(avail@);
    let ghost sh = names_view(shadows@);
    let mut out: Vec<(Val, Name)> = Vec::new();
    let mut i: usize = 0;
    assert(av.take(0) =~= Seq::<(SVal, SName)>::empty());
    assert(avail_view(out@) =~= Seq::<(SVal, SName)>::empty());
    while i < avail.len()
        invariant
            i <= avail@.len(),
            av == avail_view(avail@),
            sh == names_view(shadows@),
            avail_view(out@) == invalidate_spec(av.take(i as int), sh),
        decreases avail@.len() - i,
    {
        let ghost pre = av.take(i + 1);
        assert(pre.drop_last() =~= av.take(i as int));
        assert(pre.last() == av[i as int]);
        if !is_stale(&avail[i], shadows) {
            let ghost before = avail_view(out@);
            let v = clone_val(&avail[i].0);
            let n = avail[i].1.clone();
            out.push((v, n));
            assert(avail_view(out@) =~= before.push(av[i as int]));
        }
        i += 1;
    }
    assert(av.take(avail@.len() as int) =~= av);
    out
}

fn cse_expr(avail: &Vec<(Val, Name)>, e: Expr) -> (res: Expr)
    ensures
        res@ == cse_e(avail_view(avail@), e@),
    decreases size_e(e@),
{
    let ghost av = avail_view(avail@);
    match e {
        Expr::Let(name, val, body) => {
            let ghost gv = val@;
            let ghost b0 = (*body)@;
            assert(e@ == SExpr::Let(name@, gv, Box::new(b0)));
            let val = match val {
                Val::Cont(c) => {
                    let ghost cv = c@;
                    assert(size_v(gv) == size_e(*cv.body));
                    let Cont { params, body: cb } = c;
                    let c2 = Cont { params, body: Box::new(cse_expr(avail, *cb)) };
                    assert(c2@ == SCont { params: cv.params, body: Box::new(cse_e(av, *cv.body)) });
                    let ghost c2v = c2@;
                    let v = Val::Cont(c2);
                    assert(v@ == SVal::Cont(c2v));
                    v
                },
                other => other,
            };
            match find_available(avail, &val) {
                Some(existing) => {
                    proof {
                        lemma_subst_size(name@, existing@, b0);
                    }
                    let b = subst_expr_in(&name, &existing, *body);
                    cse_expr(avail, b)
                },
                None => {
                    let shadows = vec![name.clone()];
                    assert(names_view(shadows@) =~= seq![name@]);
                    let mut next = invalidate(avail, &shadows);
                    let ghost before = avail_view(next@);
                    let v = clone_val(&val);
                    next.push((v, name.clone()));
                    assert(avail_view(next@) =~= before.push((val@, name@)));
                    let b = cse_expr(&next, *body);
                    Expr::Let(name, val, Box::new(b))
                },
            }
        },
        Expr::Letrec(name, fun, body) => {
            let ghost fv = fun@;
            assert(e@ == SExpr::Letrec(name@, fv, Box::new((*body)@)));
            let empty: Vec<(Val, Name)> = Vec::new();
            assert(avail_view(empty@) =~= Seq::<(SVal, SName)>::empty());
            let Fun { args, cont, body: fb } = fun;
            let fun = Fun { args, cont, body: Box::new(cse_expr(&empty, *fb)) };
            assert(fun@ == SFun { args: fv.args, cont: fv.cont, body: Box::new(cse_e(Seq::empty(), *fv.body)) });
            let b = cse_expr(avail, *body);
            Expr::Letrec(name, fun, Box::new(b))
        },
        Expr::Match(s, base, cs) => {
            let ghost orig = cs@;
            let ghost cv = cases_view(orig);
            assert(e@ == SExpr::Match(s@, base, cv));
            let mut rest = cs;
            let mut out: Vec<Case> = Vec::new();
            while rest.len() > 0
                invariant
                    out@.len() + rest@.len() == orig.len(),
                    rest@ == orig.subrange(out@.len() as int, orig.len() as int),
                    cv == cases_view(orig),
                    av == avail_view(avail@),
                    size_cases(cv) < size_e(e@),
                    forall|j: int| 0 <= j < out@.len() ==> (#[trigger] out@[j])@
                        == (SCase { binds: cv[j].binds, body: cse_e(invalidate_spec(av, cv[j].binds), cv[j].body) }),
                decreases rest@.len(),
            {
                let c = rest.remove(0);
                let k = out.len();
                assert(c@ == cv[k as int]);
                proof {
                    lemma_size_case_le(cv, k as int);
                }
                let branch = invalidate(avail, &c.binds);
                let Case { binds, body } = c;
                out.push(Case { binds, body: cse_expr(&branch, body) });
            }
            proof {
                let target = match cse_e(av, e@) {
                    SExpr::Match(_, _, x) => x,
                    _ => arbitrary(),
                };
                assert forall|i: int| 0 <= i < out@.len() implies #[trigger] cases_view(out@)[i] == target[i] by {
                    assert(cases_view(out@)[i] == out@[i]@);
                }
                assert(cases_view(out@) =~= target);
            }
            Expr::Match(s, base, out)
        },
        other => other,
    }
}

/// Common-subexpression elimination: a field projection, primitive call or
/// constructor already bound to a name in scope is replaced by that name.
pub fn cse(expr: Expr) -> (res: Expr)
    ensures
        res@ == cse_e(Seq::empty(), expr@),
{
    let avail: Vec<(Val, Name)> = Vec::new();
    assert(avail_view(avail@) =~= Seq::<(SVal, SName)>::empty());
    cse_expr(&avail, expr)
}

} // verus!
