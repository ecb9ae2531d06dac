// Turn a non-recursive `letrec` into direct inlining (one call site) or into a
// continuation `let` (several call sites sharing one return continuation).
//
// Single use:
//   letrec f = fun(x, k). B in <ctx>[encore f arg k0]
//   ──►  <ctx>[B[x := arg, k := k0]]
//
// Several uses, same continuation, that continuation not rebound inside:
//   letrec f = fun(x, k). B in <ctx>[encore f a1 k0] ... [encore f a2 k0]
//   ──►  let f = cont(x). B[k := k0] in <ctx>[return f a1] ... [return f a2]
//
use vstd::prelude::*;
use crate::ir::cps::{
    Case, Cont, Expr, Fun, Name, SCase, SCont, SExpr, SFun, SName, SVal, Val, cases_view, clone_expr,
    names_contain, names_view,
};
use crate::pass::cps_census::{min2, occ_e, uses_in_expr};
use crate::pass::cps_subst::{subst_all, subst_e, subst_expr_in, subst_seq};

verus! {

// ── Specification: how a name is used ───────────────────────────────────────

/// Number of calls `encore x ...` in `e`, not counting those under a binder
/// of `x` or inside a function body.
pub open spec fn calls_e(x: SName, e: SExpr) -> nat
    decreases e,
{
    match e {
        SExpr::Let(b, v, body) => calls_v(x, v) + if b != x { calls_e(x, *body) } else { 0 },
        SExpr::Letrec(b, _, body) => if b != x { calls_e(x, *body) } else { 0 },
        SExpr::Encore(f, _, _) => if f == x { 1 } else { 0 },
        SExpr::Match(_, _, cs) => calls_cases(x, cs),
        SExpr::Fin(_) => 0,
    }
}

pub open spec fn calls_v(x: SName, v: SVal) -> nat
    decreases v,
{
    match v {
        SVal::Cont(c) => if !c.params.contains(x) { calls_e(x, *c.body) } else { 0 },
        _ => 0,
    }
}

pub open spec fn calls_cases(x: SName, cs: Seq<SCase>) -> nat
    decreases cs,
{
    if cs.len() == 0 {
        0
    } else {
        calls_cases(x, cs.drop_last()) + if !cs.last().binds.contains(x) {
            calls_e(x, cs.last().body)
        } else {
            0
        }
    }
}

/// Whether `x` is used other than as the head of a call: as a value, an
/// argument, a continuation, a scrutinee, a result, or in any way inside the
/// body of an inner function.
pub open spec fn esc_e(x: SName, e: SExpr) -> bool
    decreases e,
{
    match e {
        SExpr::Let(b, v, body) => esc_v(x, v) || (b != x && esc_e(x, *body)),
        SExpr::Letrec(b, f, body) => b != x && (
            (!f.args.contains(x) && f.cont != x && (calls_e(x, *f.body) > 0 || esc_e(x, *f.body)))
            || esc_e(x, *body)),
        SExpr::Encore(_, a, k) => a.contains(x) || k == x,
        SExpr::Match(s, _, cs) => s == x || esc_cases(x, cs),
        SExpr::Fin(n) => n == x,
    }
}

pub open spec fn esc_v(x: SName, v: SVal) -> bool
    decreases v,
{
    match v {
        SVal::Var(n) => n == x,
        SVal::Cont(c) => !c.params.contains(x) && esc_e(x, *c.body),
        SVal::Ctor(_, fs) => fs.contains(x),
        SVal::Field(n, _) => n == x,
        SVal::Prim(_, a) => a.contains(x),
        _ => false,
    }
}

pub open spec fn esc_cases(x: SName, cs: Seq<SCase>) -> bool
    decreases cs,
{
    if cs.len() == 0 {
        false
    } else {
        esc_cases(x, cs.drop_last()) || (!cs.last().binds.contains(x) && esc_e(x, cs.last().body))
    }
}

/// Walk the calls of `x` in order, remembering the continuation of the first
/// one in `acc`; `None` as soon as a call uses another continuation.
pub open spec fn conts_e(x: SName, e: SExpr, acc: Option<SName>) -> Option<Option<SName>>
    decreases e, 0int,
{
    match e {
        SExpr::Let(b, v, body) => {
            let r = match v {
                SVal::Cont(c) => if !c.params.contains(x) { conts_e(x, *c.body, acc) } else { Some(acc) },
                _ => Some(acc),
            };
            match r {
                None => None,
                Some(a1) => if b != x { conts_e(x, *body, a1) } else { Some(a1) },
            }
        },
        SExpr::Letrec(b, f, body) => if b != x {
            let r = if !f.args.contains(x) && f.cont != x { conts_e(x, *f.body, acc) } else { Some(acc) };
            match r {
                None => None,
                Some(a1) => conts_e(x, *body, a1),
            }
        } else {
            Some(acc)
        },
        SExpr::Encore(f, _, k) => if f == x {
            match acc {
                None => Some(Some(k)),
                Some(k0) => if k0 == k { Some(acc) } else { None },
            }
        } else {
            Some(acc)
        },
        SExpr::Match(_, _, cs) => conts_cases(x, cs, 0, acc),
        SExpr::Fin(_) => Some(acc),
    }
}

pub open spec fn conts_cases(x: SName, cs: Seq<SCase>, i: int, acc: Option<SName>) -> Option<Option<SName>>
    decreases cs, cs.len() - i,
{
    if i < 0 || i >= cs.len() {
        Some(acc)
    } else if cs[i].binds.contains(x) {
        conts_cases(x, cs, i + 1, acc)
    } else {
        match conts_e(x, cs[i].body, acc) {
            None => None,
            Some(a1) => conts_cases(x, cs, i + 1, a1),
        }
    }
}

/// The one continuation that every call of `x` uses, if there is one.
pub open spec fn single_cont_spec(x: SName, e: SExpr) -> Option<SName> {
    match conts_e(x, e, None) {
        Some(Some(k)) => Some(k),
        _ => None,
    }
}

/// Whether `t` is bound by a `let`, `letrec`, continuation parameter or
/// match case somewhere in `e`.
pub open spec fn bound_e(t: SName, e: SExpr) -> bool
    decreases e,
{
    match e {
        SExpr::Let(b, v, body) => b == t || bound_v(t, v) || bound_e(t, *body),
        SExpr::Letrec(b, f, body) => b == t || bound_e(t, *f.body) || bound_e(t, *body),
        SExpr::Match(_, _, cs) => bound_cases(t, cs),
        _ => false,
    }
}

pub open spec fn bound_v(t: SName, v: SVal) -> bool
    decreases v,
{
    match v {
        SVal::Cont(c) => c.params.contains(t) || bound_e(t, *c.body),
        _ => false,
    }
}

pub open spec fn bound_cases(t: SName, cs: Seq<SCase>) -> bool
    decreases cs,
{
    if cs.len() == 0 {
        false
    } else {
        bound_cases(t, cs.drop_last()) || cs.last().binds.contains(t) || bound_e(t, cs.last().body)
    }
}

/// A function mentions itself in its own body (and no parameter shadows it).
pub open spec fn self_recursive_spec(x: SName, f: SFun) -> bool {
    !f.args.contains(x) && f.cont != x && occ_e(*f.body, x) > 0
}

// ── Implementation: how a name is used ──────────────────────────────────────

fn is_self_recursive(name: &Name, fun: &Fun) -> (res: bool)
    ensures
        res == self_recursive_spec(name@, fun@),
{
    if names_contain(&fun.args, name) || fun.cont == *name {
        return false;
    }
    assert(fun@.body == Box::new(fun.body@));
    uses_in_expr(name, &fun.body) > 0
}

fn add2(a: usize, b: usize) -> (res: usize)
    requires
        a <= 2,
        b <= 2,
    ensures
        res == min2((a + b) as nat),
{
    if a + b < 2 { a + b } else { 2 }
}

/// `(min(2, calls of name), whether name escapes)` for a value.
fn classify_val(name: &Name, val: &Val) -> (res: (usize, bool))
    ensures
        res.0 == min2(calls_v(name@, val@)),
        res.1 == esc_v(name@, val@),
    decreases *val,
{
    match val {
        Val::Var(n) => (0, *n == *name),
        Val::Cont(c) => {
            assert(val@ == SVal::Cont(c@));
            assert(c@.body == Box::new(c.body@));
            if !names_contain(&c.params, name) {
                classify_expr(name, &c.body)
            } else {
                (0, false)
            }
        },
        Val::Ctor(t, fields) => {
            assert(val@ == SVal::Ctor(*t, names_view(fields@)));
            (0, names_contain(fields, name))
        },
        Val::Field(n, i) => {
            assert(val@ == SVal::Field(n@, *i));
            (0, *n == *name)
        },
        Val::Prim(op, args) => {
            assert(val@ == SVal::Prim(*op, names_view(args@)));
            (0, names_contain(args, name))
        },
        _ => (0, false),
    }
}

/// `(min(2, calls of name), whether name escapes)` for an expression.
fn classify_expr(name: &Name, e: &Expr) -> (res: (usize, bool))
    ensures
        res.0 == min2(calls_e(name@, e@)),
        res.1 == esc_e(name@, e@),
    decreases *e,
{
    match e {
        Expr::Let(binder, val, body) => {
            let (c1, e1) = classify_val(name, val);
            if !(*binder == *name) {
                let (c2, e2) = classify_expr(name, body);
                (add2(c1, c2), e1 || e2)
            } else {
                (c1, e1)
            }
        },
        Expr::Letrec(binder, fun, body) => {
            if !(*binder == *name) {
                assert(fun@.body == Box::new(fun.body@));
                let mut esc = false;
                if !names_contain(&fun.args, name) && !(fun.cont == *name) {
                    let (ic, ie) = classify_expr(name, &fun.body);
                    if ic > 0 || ie {
                        esc = true;
                    }
                }
                let (c2, e2) = classify_expr(name, body);
                (c2, esc || e2)
            } else {
                (0, false)
            }
        },
        Expr::Encore(f, args, k) => {
            let c: usize = if *f == *name { 1 } else { 0 };
            (c, names_contain(args, name) || *k == *name)
        },
        Expr::Match(s, _, cs) => {
            let ghost cv = cases_view(cs@);
            assert(decreases_to!(*e => *cs));
            let mut calls: usize = 0;
            let mut esc = false;
            let mut i: usize = 0;
            while i < cs.len()
                invariant
                    i <= cs@.len(),
                    cv == cases_view(cs@),
                    decreases_to!(*e => *cs),
                    calls == min2(calls_cases(name@, cv.take(i as int))),
                    esc == esc_cases(name@, cv.take(i as int)),
                decreases cs@.len() - i,
            {
                assert(cv.take(i + 1).drop_last() =~= cv.take(i as int));
                assert(cv[i as int] == cs@[i as int]@);
                if !names_contain(&cs[i].binds, name) {
                    proof {
                        assert(decreases_to!(*cs => cs@));
                        assert(decreases_to!(cs@ => cs@[i as int]));
                        assert(decreases_to!(cs@[i as int] => cs@[i as int].body));
                    }
                    let (c, x) = classify_expr(name, &cs[i].body);
                    calls = add2(calls, c);
                    esc = esc || x;
                }
                i += 1;
            }
            assert(cv.take(cs@.len() as int) =~= cv);
            (calls, *s == *name || esc)
        },
        Expr::Fin(n) => (0, *n == *name),
    }
}

fn conts_val(name: &Name, val: &Val, acc: Option<Name>) -> (res: Option<Option<Name>>)
    ensures
        res is Some == (match val@ {
            SVal::Cont(c) => if !c.params.contains(name@) { conts_e(name@, *c.body, opt_view(acc)) } else { Some(opt_view(acc)) },
            _ => Some(opt_view(acc)),
        }) is Some,
        res is Some ==> opt_view(res->0) == (match val@ {
            SVal::Cont(c) => if !c.params.contains(name@) { conts_e(name@, *c.body, opt_view(acc)) } else { Some(opt_view(acc)) },
            _ => Some(opt_view(acc)),
        })->0,
    decreases *val,
{
    match val {
        Val::Cont(c) => {
            assert(val@ == SVal::Cont(c@));
            assert(c@.body == Box::new(c.body@));
            if !names_contain(&c.params, name) {
                collect_conts(name, &c.body, acc)
            } else {
                Some(acc)
            }
        },
        _ => Some(acc),
    }
}

pub open spec fn opt_view(o: Option<Name>) -> Option<SName> {
    match o {
        Some(n) => Some(n@),
        None => None,
    }
}

/// `conts_e`, with `Some(acc)` carrying the continuation seen so far.
fn collect_conts(name: &Name, e: &Expr, acc: Option<Name>) -> (res: Option<Option<Name>>)
    ensures
        res is Some == conts_e(name@, e@, opt_view(acc)) is Some,
        res is Some ==> opt_view(res->0) == conts_e(name@, e@, opt_view(acc))->0,
    decreases *e,
{
    match e {
        Expr::Let(binder, val, body) => {
            let r = conts_val(name, val, acc);
            match r {
                None => None,
                Some(a1) => {
                    if !(*binder == *name) {
                        collect_conts(name, body, a1)
                    } else {
                        Some(a1)
                    }
                },
            }
        },
        Expr::Letrec(binder, fun, body) => {
            if !(*binder == *name) {
                assert(fun@.body == Box::new(fun.body@));
                let r = if !names_contain(&fun.args, name) && !(fun.cont == *name) {
                    collect_conts(name, &fun.body, acc)
                } else {
                    Some(acc)
                };
                match r {
                    None => None,
                    Some(a1) => collect_conts(name, body, a1),
                }
            } else {
                Some(acc)
            }
        },
        Expr::Encore(f, _, k) => {
            if *f == *name {
                match acc {
                    None => Some(Some(k.clone())),
                    Some(k0) => {
                        if k0 == *k {
                            Some(Some(k0))
                        } else {
                            None
                        }
                    },
                }
            } else {
                Some(acc)
            }
        },
        Expr::Match(_, _, cs) => {
            let ghost cv = cases_view(cs@);
            assert(decreases_to!(*e => *cs));
            let mut cur = acc;
            let mut i: usize = 0;
            while i < cs.len()
                invariant
                    i <= cs@.len(),
                    cv == cases_view(cs@),
                    decreases_to!(*e => *cs),
                    conts_e(name@, e@, opt_view(acc)) == conts_cases(name@, cv, i as int, opt_view(cur)),
                decreases cs@.len() - i,
            {
                assert(cv[i as int] == cs@[i as int]@);
                if !names_contain(&cs[i].binds, name) {
                    proof {
                        assert(decreases_to!(*cs => cs@));
                        assert(decreases_to!(cs@ => cs@[i as int]));
                        assert(decreases_to!(cs@[i as int] => cs@[i as int].body));
                    }
                    match collect_conts(name, &cs[i].body, cur) {
                        None => {
                            return None;
                        },
                        Some(a1) => {
                            cur = a1;
                        },
                    }
                }
                i += 1;
            }
            Some(cur)
        },
        Expr::Fin(_) => Some(acc),
    }
}

fn single_continuation(name: &Name, e: &Expr) -> (res: Option<Name>)
    ensures
        opt_view(res) == single_cont_spec(name@, e@),
{
    match collect_conts(name, e, None) {
        Some(Some(k)) => Some(k),
        _ => None,
    }
}

fn is_bound_val(target: &Name, val: &Val) -> (res: bool)
    ensures
        res == bound_v(target@, val@),
    decreases *val,
{
    match val {
        Val::Cont(c) => {
            assert(val@ == SVal::Cont(c@));
            assert(c@.body == Box::new(c.body@));
            names_contain(&c.params, target) || is_bound(target, &c.body)
        },
        _ => false,
    }
}

fn is_bound(target: &Name, e: &Expr) -> (res: bool)
    ensures
        res == bound_e(target@, e@),
    decreases *e,
{
    match e {
        Expr::Let(binder, val, body) => *binder == *target || is_bound_val(target, val) || is_bound(target, body),
        Expr::Letrec(binder, fun, body) => {
            assert(fun@.body == Box::new(fun.body@));
            *binder == *target || is_bound(target, &fun.body) || is_bound(target, body)
        },
        Expr::Match(_, _, cs) => {
            let ghost cv = cases_view(cs@);
            assert(decreases_to!(*e => *cs));
            let mut found = false;
            let mut i: usize = 0;
            while i < cs.len()
                invariant
                    i <= cs@.len(),
                    cv == cases_view(cs@),
                    decreases_to!(*e => *cs),
                    found == bound_cases(target@, cv.take(i as int)),
                decreases cs@.len() - i,
            {
                assert(cv.take(i + 1).drop_last() =~= cv.take(i as int));
                assert(cv[i as int] == cs@[i as int]@);
                proof {
                    assert(decreases_to!(*cs => cs@));
                    assert(decreases_to!(cs@ => cs@[i as int]));
                    assert(decreases_to!(cs@[i as int] => cs@[i as int].body));
                }
                let here = names_contain(&cs[i].binds, target) || is_bound(target, &cs[i].body);
                found = found || here;
                i += 1;
            }
            assert(cv.take(cs@.len() as int) =~= cv);
            found
        },
        _ => false,
    }
}

// ── Specification: the rewrite ───────────────────────────────────────────────

/// Replace each call `encore x a k` by the function's body with its
/// parameters renamed to `a` and its continuation to `k`.
pub open spec fn inline_call_e(x: SName, f: SFun, e: SExpr) -> SExpr
    decreases e,
{
    match e {
        SExpr::Encore(g, a, k) => if g == x { subst_e(f.cont, k, subst_seq(f.args, a, *f.body)) } else { e },
        SExpr::Let(n, v, b) => SExpr::Let(n, inline_call_v(x, f, v), Box::new(inline_call_e(x, f, *b))),
        SExpr::Letrec(n, g, b) => SExpr::Letrec(n, g, Box::new(inline_call_e(x, f, *b))),
        SExpr::Match(s, t, cs) => SExpr::Match(
            s,
            t,
            Seq::new(
                cs.len(),
                |i: int|
                    if 0 <= i < cs.len() {
                        SCase { binds: cs[i].binds, body: inline_call_e(x, f, cs[i].body) }
                    } else {
                        arbitrary()
                    },
            ),
        ),
        _ => e,
    }
}

pub open spec fn inline_call_v(x: SName, f: SFun, v: SVal) -> SVal
    decreases v,
{
    match v {
        SVal::Cont(c) => SVal::Cont(SCont { params: c.params, body: Box::new(inline_call_e(x, f, *c.body)) }),
        _ => v,
    }
}

/// The name bound to the null continuation in front of a rewritten call.
pub open spec fn nc_name() -> SName {
    "_nc"@
}

/// Replace each call `encore x a k` by `let _nc = nullcont in encore x a _nc`.
pub open spec fn rewrite_calls_e(x: SName, e: SExpr) -> SExpr
    decreases e,
{
    match e {
        SExpr::Encore(g, a, _) => if g == x {
            SExpr::Let(nc_name(), SVal::NullCont, Box::new(SExpr::Encore(g, a, nc_name())))
        } else {
            e
        },
        SExpr::Let(n, v, b) => SExpr::Let(n, rewrite_calls_v(x, v), Box::new(rewrite_calls_e(x, *b))),
        SExpr::Letrec(n, g, b) => SExpr::Letrec(n, g, Box::new(rewrite_calls_e(x, *b))),
        SExpr::Match(s, t, cs) => SExpr::Match(
            s,
            t,
            Seq::new(
                cs.len(),
                |i: int|
                    if 0 <= i < cs.len() {
                        SCase { binds: cs[i].binds, body: rewrite_calls_e(x, cs[i].body) }
                    } else {
                        arbitrary()
                    },
            ),
        ),
        _ => e,
    }
}

pub open spec fn rewrite_calls_v(x: SName, v: SVal) -> SVal
    decreases v,
{
    match v {
        SVal::Cont(c) => SVal::Cont(SCont { params: c.params, body: Box::new(rewrite_calls_e(x, *c.body)) }),
        _ => v,
    }
}

/// `let x = cont(f.args). f.body[f.cont := k0] in outer`, with the calls of
/// `x` in `outer` rewritten.
pub open spec fn contify_to_cont_spec(x: SName, f: SFun, outer: SExpr, k0: SName) -> SExpr {
    SExpr::Let(
        x,
        SVal::Cont(SCont { params: f.args, body: Box::new(subst_e(f.cont, k0, *f.body)) }),
        Box::new(rewrite_calls_e(x, outer)),
    )
}

/// What becomes of `letrec x = f in b` once `f` and `b` are rewritten.
pub open spec fn contify_letrec_spec(x: SName, f: SFun, b: SExpr) -> SExpr {
    if self_recursive_spec(x, f) || esc_e(x, b) {
        SExpr::Letrec(x, f, Box::new(b))
    } else if calls_e(x, b) == 1 {
        inline_call_e(x, f, b)
    } else if calls_e(x, b) > 1 && single_cont_spec(x, b) is Some && !bound_e(single_cont_spec(x, b)->0, b) {
        contify_to_cont_spec(x, f, b, single_cont_spec(x, b)->0)
    } else {
        SExpr::Letrec(x, f, Box::new(b))
    }
}

pub open spec fn contify_e(e: SExpr) -> SExpr
    decreases e,
{
    match e {
        SExpr::Letrec(n, f, b) => contify_letrec_spec(
            n,
            SFun { args: f.args, cont: f.cont, body: Box::new(contify_e(*f.body)) },
            contify_e(*b),
        ),
        SExpr::Let(n, v, b) => SExpr::Let(n, contify_v(v), Box::new(contify_e(*b))),
        SExpr::Match(s, t, cs) => SExpr::Match(
            s,
            t,
            Seq::new(
                cs.len(),
                |i: int|
                    if 0 <= i < cs.len() {
                        SCase { binds: cs[i].binds, body: contify_e(cs[i].body) }
                    } else {
                        arbitrary()
                    },
            ),
        ),
        _ => e,
    }
}

pub open spec fn contify_v(v: SVal) -> SVal
    decreases v,
{
    match v {
        SVal::Cont(c) => SVal::Cont(SCont { params: c.params, body: Box::new(contify_e(*c.body)) }),
        _ => v,
    }
}

// ── Implementation: the rewrite ─────────────────────────────────────────────

fn inline_call(name: &Name, fun: &Fun, e: Expr) -> (res: Expr)
    ensures
        res@ == inline_call_e(name@, fun@, e@),
    decreases e,
{
    match e {
        Expr::Encore(f, args, k) => {
            if f == *name {
                assert(fun@.body == Box::new(fun.body@));
                let body = clone_expr(&fun.body);
                let body = subst_all(&fun.args, &args, body);
                subst_expr_in(&fun.cont, &k, body)
            } else {
                Expr::Encore(f, args, k)
            }
        },
        Expr::Let(n, val, body) => {
            let val = inline_call_val(name, fun, val);
            Expr::Let(n, val, Box::new(inline_call(name, fun, *body)))
        },
        Expr::Letrec(n, f, body) => Expr::Letrec(n, f, Box::new(inline_call(name, fun, *body))),
        Expr::Match(s, t, cs) => {
            let ghost e0 = e;
            let ghost orig = cs@;
            let ghost cs0 = cs;
            assert(decreases_to!(e => cs0));
            let mut rest = cs;
            let mut out: Vec<Case> = Vec::new();
            while rest.len() > 0
                invariant
                    out@.len() + rest@.len() == orig.len(),
                    rest@ == orig.subrange(out@.len() as int, orig.len() as int),
                    cs0@ == orig,
                    decreases_to!(e => cs0),
                    forall|j: int| 0 <= j < out@.len() ==> (#[trigger] out@[j])@
                        == (SCase { binds: orig[j]@.binds, body: inline_call_e(name@, fun@, orig[j]@.body) }),
                decreases rest@.len(),
            {
                let c = rest.remove(0);
                proof {
                    let k = out@.len() as int;
                    assert(c == orig[k]);
                    assert(decreases_to!(cs0 => cs0@));
                    assert(decreases_to!(cs0@ => cs0@[k]));
                    assert(decreases_to!(cs0@[k] => cs0@[k].body));
                }
                let Case { binds, body } = c;
                out.push(Case { binds, body: inline_call(name, fun, body) });
            }
            proof {
                let target = match inline_call_e(name@, fun@, e0@) {
                    SExpr::Match(_, _, x) => x,
                    _ => arbitrary(),
                };
                let cv = cases_view(orig);
                assert(e0@ == SExpr::Match(s@, t, cv));
                assert forall|i: int| 0 <= i < out@.len() implies #[trigger] cases_view(out@)[i] == target[i] by {
                    assert(cv[i] == orig[i]@);
                    assert(cases_view(out@)[i] == out@[i]@);
                }
                assert(cases_view(out@) =~= target);
            }
            Expr::Match(s, t, out)
        },
        other => other,
    }
}

fn inline_call_val(name: &Name, fun: &Fun, val: Val) -> (res: Val)
    ensures
        res@ == inline_call_v(name@, fun@, val@),
    decreases val,
{
    match val {
        Val::Cont(c) => {
            let Cont { params, body } = c;
            Val::Cont(Cont { params, body: Box::new(inline_call(name, fun, *body)) })
        },
        other => other,
    }
}

fn nc() -> (res: Name)
    ensures
        res@ == nc_name(),
{
    "_nc".to_owned()
}

fn rewrite_calls(name: &Name, e: Expr) -> (res: Expr)
    ensures
        res@ == rewrite_calls_e(name@, e@),
    decreases e,
{
    match e {
        Expr::Encore(f, args, k) => {
            if f == *name {
                let ghost fv = f@;
                let ghost av = names_view(args@);
                let inner = Expr::Encore(f, args, nc());
                assert(inner@ == SExpr::Encore(fv, av, nc_name()));
                let ghost iv = inner@;
                let v = Val::NullCont;
                assert(v@ == SVal::NullCont);
                let n2 = nc();
                let r = Expr::Let(n2, v, Box::new(inner));
                assert(r@ == SExpr::Let(nc_name(), SVal::NullCont, Box::new(iv)));
                assert(e@ == SExpr::Encore(fv, av, k@));
                r
            } else {
                Expr::Encore(f, args, k)
            }
        },
        Expr::Let(n, val, body) => {
            let val = rewrite_calls_val(name, val);
            Expr::Let(n, val, Box::new(rewrite_calls(name, *body)))
        },
        Expr::Letrec(n, f, body) => Expr::Letrec(n, f, Box::new(rewrite_calls(name, *body))),
        Expr::Match(s, t, cs) => {
            let ghost e0 = e;
            let ghost orig = cs@;
            let ghost cs0 = cs;
            assert(decreases_to!(e => cs0));
            let mut rest = cs;
            let mut out: Vec<Case> = Vec::new();
            while rest.len() > 0
                invariant
                    out@.len() + rest@.len() == orig.len(),
                    rest@ == orig.subrange(out@.len() as int, orig.len() as int),
                    cs0@ == orig,
                    decreases_to!(e => cs0),
                    forall|j: int| 0 <= j < out@.len() ==> (#[trigger] out@[j])@
                        == (SCase { binds: orig[j]@.binds, body: rewrite_calls_e(name@, orig[j]@.body) }),
                decreases rest@.len(),
            {
                let c = rest.remove(0);
                proof {
                    let k = out@.len() as int;
                    assert(c == orig[k]);
                    assert(decreases_to!(cs0 => cs0@));
                    assert(decreases_to!(cs0@ => cs0@[k]));
                    assert(decreases_to!(cs0@[k] => cs0@[k].body));
                }
                let Case { binds, body } = c;
                out.push(Case { binds, body: rewrite_calls(name, body) });
            }
            proof {
                let target = match rewrite_calls_e(name@, e0@) {
                    SExpr::Match(_, _, x) => x,
                    _ => arbitrary(),
                };
                let cv = cases_view(orig);
                assert(e0@ == SExpr::Match(s@, t, cv));
                assert forall|i: int| 0 <= i < out@.len() implies #[trigger] cases_view(out@)[i] == target[i] by {
                    assert(cv[i] == orig[i]@);
                    assert(cases_view(out@)[i] == out@[i]@);
                }
                assert(cases_view(out@) =~= target);
            }
            Expr::Match(s, t, out)
        },
        other => other,
    }
}

fn rewrite_calls_val(name: &Name, val: Val) -> (res: Val)
    ensures
        res@ == rewrite_calls_v(name@, val@),
    decreases val,
{
    match val {
        Val::Cont(c) => {
            let Cont { params, body } = c;
            Val::Cont(Cont { params, body: Box::new(rewrite_calls(name, *body)) })
        },
        other => other,
    }
}

fn contify_to_cont(name: Name, fun: Fun, outer: Expr, k0: &Name) -> (res: Expr)
    ensures
        res@ == contify_to_cont_spec(name@, fun@, outer@, k0@),
{
    let ghost fv = fun@;
    let Fun { args, cont, body } = fun;
    let body = subst_expr_in(&cont, k0, *body);
    let c = Cont { params: args, body: Box::new(body) };
    assert(c@ == SCont { params: fv.args, body: Box::new(subst_e(fv.cont, k0@, *fv.body)) });
    let ghost cv = c@;
    let v = Val::Cont(c);
    assert(v@ == SVal::Cont(cv));
    let outer = rewrite_calls(&name, outer);
    Expr::Let(name, v, Box::new(outer))
}

fn contify_letrec(name: Name, fun: Fun, body: Expr) -> (res: Expr)
    ensures
        res@ == contify_letrec_spec(name@, fun@, body@),
{
    if is_self_recursive(&name, &fun) {
        return Expr::Letrec(name, fun, Box::new(body));
    }
    let (calls, escapes) = classify_expr(&name, &body);
    if escapes {
        return Expr::Letrec(name, fun, Box::new(body));
    }
    if calls == 1 {
        return inline_call(&name, &fun, body);
    }
    if calls > 1 {
        if let Some(k0) = single_continuation(&name, &body) {
            if !is_bound(&k0, &body) {
                return contify_to_cont(name, fun, body, &k0);
            }
        }
    }
    Expr::Letrec(name, fun, Box::new(body))
}

fn contify_expr(e: Expr) -> (res: Expr)
    ensures
        res@ == contify_e(e@),
    decreases e,
{
    match e {
        Expr::Letrec(name, fun, body) => {
            let ghost fv = fun@;
            let Fun { args, cont, body: fb } = fun;
            let fun = Fun { args, cont, body: Box::new(contify_expr(*fb)) };
            assert(fun@ == SFun { args: fv.args, cont: fv.cont, body: Box::new(contify_e(*fv.body)) });
            let body = contify_expr(*body);
            contify_letrec(name, fun, body)
        },
        Expr::Let(n, val, body) => {
            let val = contify_val(val);
            Expr::Let(n, val, Box::new(contify_expr(*body)))
        },
        Expr::Match(s, t, cs) => {
            let ghost e0 = e;
            let ghost orig = cs@;
            let ghost cs0 = cs;
            assert(decreases_to!(e => cs0));
            let mut rest = cs;
            let mut out: Vec<Case> = Vec::new();
            while rest.len() > 0
                invariant
                    out@.len() + rest@.len() == orig.len(),
                    rest@ == orig.subrange(out@.len() as int, orig.len() as int),
                    cs0@ == orig,
                    decreases_to!(e => cs0),
                    forall|j: int| 0 <= j < out@.len() ==> (#[trigger] out@[j])@
                        == (SCase { binds: orig[j]@.binds, body: contify_e(orig[j]@.body) }),
                decreases rest@.len(),
            {
                let c = rest.remove(0);
                proof {
                    let k = out@.len() as int;
                    assert(c == orig[k]);
                    assert(decreases_to!(cs0 => cs0@));
                    assert(decreases_to!(cs0@ => cs0@[k]));
                    assert(decreases_to!(cs0@[k] => cs0@[k].body));
                }
                let Case { binds, body } = c;
                out.push(Case { binds, body: contify_expr(body) });
            }
            proof {
                let target = match contify_e(e0@) {
                    SExpr::Match(_, _, x) => x,
                    _ => arbitrary(),
                };
                let cv = cases_view(orig);
                assert(e0@ == SExpr::Match(s@, t, cv));
                assert forall|i: int| 0 <= i < out@.len() implies #[trigger] cases_view(out@)[i] == target[i] by {
                    assert(cv[i] == orig[i]@);
                    assert(cases_view(out@)[i] == out@[i]@);
                }
                assert(cases_view(out@) =~= target);
            }
            Expr::Match(s, t, out)
        },
        other => other,
    }
}

fn contify_val(val: Val) -> (res: Val)
    ensures
        res@ == contify_v(val@),
    decreases val,
{
    match val {
        Val::Cont(c) => {
            let Cont { params, body } = c;
            Val::Cont(Cont { params, body: Box::new(contify_expr(*body)) })
        },
        other => other,
    }
}

/// Inline each non-recursive function called exactly once, and turn each
/// non-recursive function whose calls all share one continuation into a
/// continuation; a function that escapes is kept.
pub fn contification(expr: Expr) -> (res: Expr)
    ensures
        res@ == contify_e(expr@),
{
    contify_expr(expr)
}

} // verus!
