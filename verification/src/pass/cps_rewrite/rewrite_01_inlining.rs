// Inline small continuations at their calls, and small non-recursive global
// functions at theirs (with every binder of the copy renamed apart).
//
use vstd::prelude::*;
use vstd::string::StringExecFns;
use crate::disasm::decimal_string;
use crate::ir::cps::{
    Case, Cont, Expr, Fun, Name, SCase, SCont, SExpr, SFun, SName, SVal, Val, cases_view,
    clone_cont, clone_expr, clone_fun, names_view, size_cases, size_e, size_v,
};
use crate::pass::cps_subst::{subst_all, subst_e, subst_expr_in, subst_seq};

verus! {

/// Known global functions by name; a later entry hides an earlier one.
pub type GlobalFuns = Vec<(Name, Fun)>;

pub type SGlobals = Seq<(SName, SFun)>;

pub open spec fn globals_view(gs: Seq<(Name, Fun)>) -> SGlobals {
    gs.map_values(|p: (Name, Fun)| (p.0@, p.1@))
}

pub open spec fn lookup_fun(gs: SGlobals, n: SName) -> Option<SFun>
    decreases gs.len(),
{
    if gs.len() == 0 {
        None
    } else if gs.last().0 == n {
        Some(gs.last().1)
    } else {
        lookup_fun(gs.drop_last(), n)
    }
}

pub open spec fn lookup_cont(env: Seq<(SName, SCont)>, n: SName) -> Option<SCont>
    decreases env.len(),
{
    if env.len() == 0 {
        None
    } else if env.last().0 == n {
        Some(env.last().1)
    } else {
        lookup_cont(env.drop_last(), n)
    }
}

pub open spec fn lookup_name(rn: Seq<(SName, SName)>, n: SName) -> Option<SName>
    decreases rn.len(),
{
    if rn.len() == 0 {
        None
    } else if rn.last().0 == n {
        Some(rn.last().1)
    } else {
        lookup_name(rn.drop_last(), n)
    }
}

// ── Fresh names ──────────────────────────────────────────────────────────────

pub open spec fn digit_char(d: nat) -> char {
    (48 + d) as char
}

/// Decimal digits of `n`, most significant first.
pub open spec fn decimal(n: nat) -> Seq<char>
    decreases n,
{
    if n < 10 {
        seq![digit_char(n)]
    } else {
        decimal(n / 10).push(digit_char(n % 10))
    }
}

/// `base` followed by `_i` and the decimal form of `id`.
pub open spec fn fresh_spec(base: SName, id: usize) -> SName {
    base + seq!['_', 'i'] + decimal(id as nat)
}

/// The id after `id`, wrapping at the top of `usize`.
pub open spec fn next_id(id: usize) -> usize {
    if id == usize::MAX { 0 } else { (id + 1) as usize }
}

/// The name `base`, then `_i`, then the decimal digits of `id`.
fn fresh_name(base: &Name, id: usize) -> (res: Name)
    ensures
        res@ == fresh_spec(base@, id),
{
    let mut r = String::from_str(base.as_str());
    r.append("_i");
    let d = decimal_string(id);
    r.append(d.as_str());
    proof {
        reveal_strlit("_i");
        assert(r@ =~= fresh_spec(base@, id));
    }
    r
}

fn bump(id: usize) -> (res: usize)
    ensures
        res == next_id(id),
{
    if id == usize::MAX { 0 } else { id + 1 }
}

// ── Alpha renaming (specification) ──────────────────────────────────────────

pub open spec fn rename_spec(rn: Seq<(SName, SName)>, n: SName) -> SName {
    match lookup_name(rn, n) {
        Some(m) => m,
        None => n,
    }
}

pub open spec fn rename_list(rn: Seq<(SName, SName)>, ns: Seq<SName>) -> Seq<SName> {
    ns.map_values(|n: SName| rename_spec(rn, n))
}

/// Give each of `ns[i..]` a fresh name in turn, recording each renaming.
pub open spec fn fresh_list(ns: Seq<SName>, i: int, rn: Seq<(SName, SName)>, id: usize)
    -> (Seq<SName>, Seq<(SName, SName)>, usize)
    decreases ns.len() - i,
{
    if 0 <= i < ns.len() {
        let f = fresh_spec(ns[i], id);
        let (rest, rn2, id2) = fresh_list(ns, i + 1, rn.push((ns[i], f)), next_id(id));
        (seq![f] + rest, rn2, id2)
    } else {
        (Seq::empty(), rn, id)
    }
}

/// Rename every binder apart, threading the table of renamings and the next id.
pub open spec fn alpha_e(e: SExpr, rn: Seq<(SName, SName)>, id: usize)
    -> (SExpr, Seq<(SName, SName)>, usize)
    decreases e, 0int,
{
    match e {
        SExpr::Let(b, v, body) => {
            let (v2, rn1, id1) = alpha_v(v, rn, id);
            let f = fresh_spec(b, id1);
            let (body2, rn2, id2) = alpha_e(*body, rn1.push((b, f)), next_id(id1));
            (SExpr::Let(f, v2, Box::new(body2)), rn2, id2)
        },
        SExpr::Letrec(b, fun, body) => {
            let fb = fresh_spec(b, id);
            let (args2, rn1, id1) = fresh_list(fun.args, 0, rn.push((b, fb)), next_id(id));
            let fc = fresh_spec(fun.cont, id1);
            let (fbody, rn2, id2) = alpha_e(*fun.body, rn1.push((fun.cont, fc)), next_id(id1));
            let (body2, rn3, id3) = alpha_e(*body, rn2, id2);
            (SExpr::Letrec(fb, SFun { args: args2, cont: fc, body: Box::new(fbody) }, Box::new(body2)), rn3, id3)
        },
        SExpr::Encore(f, a, k) => (
            SExpr::Encore(rename_spec(rn, f), rename_list(rn, a), rename_spec(rn, k)),
            rn,
            id,
        ),
        SExpr::Match(n, t, cs) => {
            let n2 = rename_spec(rn, n);
            let (cs2, rn1, id1) = alpha_cases(cs, 0, rn, id);
            (SExpr::Match(n2, t, cs2), rn1, id1)
        },
        SExpr::Fin(n) => (SExpr::Fin(rename_spec(rn, n)), rn, id),
    }
}

pub open spec fn alpha_v(v: SVal, rn: Seq<(SName, SName)>, id: usize) -> (SVal, Seq<(SName, SName)>, usize)
    decreases v, 0int,
{
    match v {
        SVal::Var(n) => (SVal::Var(rename_spec(rn, n)), rn, id),
        SVal::Cont(c) => {
            let (ps, rn1, id1) = fresh_list(c.params, 0, rn, id);
            let (body2, rn2, id2) = alpha_e(*c.body, rn1, id1);
            (SVal::Cont(SCont { params: ps, body: Box::new(body2) }), rn2, id2)
        },
        SVal::Ctor(t, fs) => (SVal::Ctor(t, rename_list(rn, fs)), rn, id),
        SVal::Field(n, i) => (SVal::Field(rename_spec(rn, n), i), rn, id),
        SVal::Prim(op, a) => (SVal::Prim(op, rename_list(rn, a)), rn, id),
        _ => (v, rn, id),
    }
}

pub open spec fn alpha_cases(cs: Seq<SCase>, i: int, rn: Seq<(SName, SName)>, id: usize)
    -> (Seq<SCase>, Seq<(SName, SName)>, usize)
    decreases cs, cs.len() - i,
{
    if 0 <= i < cs.len() {
        let (bs, rn1, id1) = fresh_list(cs[i].binds, 0, rn, id);
        let (body2, rn2, id2) = alpha_e(cs[i].body, rn1, id1);
        let (rest, rn3, id3) = alpha_cases(cs, i + 1, rn2, id2);
        (seq![SCase { binds: bs, body: body2 }] + rest, rn3, id3)
    } else {
        (Seq::empty(), rn, id)
    }
}

/// A copy of a global function's body for the call `f(args) -> k`: its
/// parameters and continuation get fresh names first, then every binder of
/// the body, and finally the arguments and `k` are substituted in.
pub open spec fn inline_global_spec(fun: SFun, args: Seq<SName>, k: SName, id: usize) -> (SExpr, usize) {
    let (ps, rn1, id1) = fresh_list(fun.args, 0, Seq::empty(), id);
    let fc = fresh_spec(fun.cont, id1);
    let (body, _, id2) = alpha_e(*fun.body, rn1.push((fun.cont, fc)), next_id(id1));
    (subst_e(fc, k, subst_seq(ps, args, body)), id2)
}

/// `min(size, usize::MAX)`: the size as `expr_size` computes it.
pub open spec fn capped_size(e: SExpr) -> nat {
    if size_e(e) < usize::MAX { size_e(e) } else { usize::MAX as nat }
}

/// Inlining on the model: `env` holds the small continuations in scope.
pub open spec fn inl_e(thr: usize, gs: SGlobals, env: Seq<(SName, SCont)>, id: usize, e: SExpr) -> (SExpr, usize)
    decreases e, 0int,
{
    match e {
        SExpr::Let(n, v, b) => match v {
            SVal::Cont(c) => {
                let (cb, id1) = inl_e(thr, gs, env, id, *c.body);
                let c2 = SCont { params: c.params, body: Box::new(cb) };
                let env2 = if capped_size(cb) <= thr { env.push((n, c2)) } else { env };
                let (b2, id2) = inl_e(thr, gs, env2, id1, *b);
                (SExpr::Let(n, SVal::Cont(c2), Box::new(b2)), id2)
            },
            _ => {
                let (b2, id1) = inl_e(thr, gs, env, id, *b);
                (SExpr::Let(n, v, Box::new(b2)), id1)
            },
        },
        SExpr::Letrec(n, f, b) => {
            let (fb, id1) = inl_e(thr, gs, env, id, *f.body);
            let (b2, id2) = inl_e(thr, gs, env, id1, *b);
            (SExpr::Letrec(n, SFun { args: f.args, cont: f.cont, body: Box::new(fb) }, Box::new(b2)), id2)
        },
        SExpr::Encore(f, args, k) => {
            let by_cont = match lookup_cont(env, f) {
                Some(c) => if args.len() == c.params.len() { Some(subst_seq(c.params, args, *c.body)) } else { None },
                None => None,
            };
            match by_cont {
                Some(r) => (r, id),
                None => match lookup_fun(gs, f) {
                    Some(fun) => if fun.args.len() == args.len() {
                        inline_global_spec(fun, args, k, id)
                    } else {
                        (e, id)
                    },
                    None => (e, id),
                },
            }
        },
        SExpr::Match(s, t, cs) => {
            let (cs2, id1) = inl_cases(thr, gs, env, id, cs, 0);
            (SExpr::Match(s, t, cs2), id1)
        },
        SExpr::Fin(_) => (e, id),
    }
}

pub open spec fn inl_cases(thr: usize, gs: SGlobals, env: Seq<(SName, SCont)>, id: usize, cs: Seq<SCase>, i: int)
    -> (Seq<SCase>, usize)
    decreases cs, cs.len() - i,
{
    if 0 <= i < cs.len() {
        let (b, id1) = inl_e(thr, gs, env, id, cs[i].body);
        let (rest, id2) = inl_cases(thr, gs, env, id1, cs, i + 1);
        (seq![SCase { binds: cs[i].binds, body: b }] + rest, id2)
    } else {
        (Seq::empty(), id)
    }
}

} // verus!
verus! {

// ── Implementation ───────────────────────────────────────────────────────────

pub open spec fn conts_view(env: Seq<(Name, Cont)>) -> Seq<(SName, SCont)> {
    env.map_values(|p: (Name, Cont)| (p.0@, p.1@))
}

pub open spec fn renames_view(rn: Seq<(Name, Name)>) -> Seq<(SName, SName)> {
    rn.map_values(|p: (Name, Name)| (p.0@, p.1@))
}

fn find_cont<'a>(env: &'a Vec<(Name, Cont)>, n: &Name) -> (res: Option<&'a Cont>)
    ensures
        match res {
            Some(c) => lookup_cont(conts_view(env@), n@) == Some(c@),
            None => lookup_cont(conts_view(env@), n@) is None,
        },
{
    let ghost ev = conts_view(env@);
    let mut i: usize = env.len();
    assert(ev.take(i as int) =~= ev);
    while i > 0
        invariant
            i <= env@.len(),
            ev == conts_view(env@),
            lookup_cont(ev, n@) == lookup_cont(ev.take(i as int), n@),
        decreases i,
    {
        assert(ev.take(i as int).drop_last() =~= ev.take(i - 1));
        i -= 1;
        if env[i].0 == *n {
            return Some(&env[i].1);
        }
    }
    None
}

fn find_global<'a>(gs: &'a GlobalFuns, n: &Name) -> (res: Option<&'a Fun>)
    ensures
        match res {
            Some(f) => lookup_fun(globals_view(gs@), n@) == Some(f@),
            None => lookup_fun(globals_view(gs@), n@) is None,
        },
{
    let ghost gv = globals_view(gs@);
    let mut i: usize = gs.len();
    assert(gv.take(i as int) =~= gv);
    while i > 0
        invariant
            i <= gs@.len(),
            gv == globals_view(gs@),
            lookup_fun(gv, n@) == lookup_fun(gv.take(i as int), n@),
        decreases i,
    {
        assert(gv.take(i as int).drop_last() =~= gv.take(i - 1));
        i -= 1;
        if gs[i].0 == *n {
            return Some(&gs[i].1);
        }
    }
    None
}

fn rename(rn: &Vec<(Name, Name)>, n: Name) -> (res: Name)
    ensures
        res@ == rename_spec(renames_view(rn@), n@),
{
    let ghost rv = renames_view(rn@);
    let mut i: usize = rn.len();
    assert(rv.take(i as int) =~= rv);
    while i > 0
        invariant
            i <= rn@.len(),
            rv == renames_view(rn@),
            lookup_name(rv, n@) == lookup_name(rv.take(i as int), n@),
        decreases i,
    {
        assert(rv.take(i as int).drop_last() =~= rv.take(i - 1));
        i -= 1;
        if rn[i].0 == n {
            return rn[i].1.clone();
        }
    }
    n
}

fn rename_names(rn: &Vec<(Name, Name)>, ns: &Vec<Name>) -> (res: Vec<Name>)
    ensures
        names_view(res@) == rename_list(renames_view(rn@), names_view(ns@)),
{
    let mut out: Vec<Name> = Vec::new();
    let mut i: usize = 0;
    while i < ns.len()
        invariant
            i <= ns@.len(),
            out@.len() == i,
            forall|j: int| 0 <= j < i ==> (#[trigger] out@[j])@ == rename_spec(renames_view(rn@), ns@[j]@),
        decreases ns@.len() - i,
    {
        out.push(rename(rn, ns[i].clone()));
        i += 1;
    }
    assert(names_view(out@) =~= rename_list(renames_view(rn@), names_view(ns@)));
    out
}

fn fresh_names(ns: &Vec<Name>, rn: &mut Vec<(Name, Name)>, id: &mut usize) -> (res: Vec<Name>)
    ensures
        (names_view(res@), renames_view(final(rn)@), *final(id))
            == fresh_list(names_view(ns@), 0, renames_view(old(rn)@), *old(id)),
{
    let ghost nv = names_view(ns@);
    let ghost rn0 = renames_view(rn@);
    let ghost id0 = *id;
    let mut out: Vec<Name> = Vec::new();
    let mut i: usize = 0;
    while i < ns.len()
        invariant
            i <= ns@.len(),
            nv == names_view(ns@),
            out@.len() == i,
            fresh_list(nv, 0, rn0, id0) == (names_view(out@) + fresh_list(nv, i as int, renames_view(rn@), *id).0,
                fresh_list(nv, i as int, renames_view(rn@), *id).1, fresh_list(nv, i as int, renames_view(rn@), *id).2),
        decreases ns@.len() - i,
    {
        let ghost r0 = renames_view(rn@);
        let ghost cur = fresh_list(nv, i as int, r0, *id);
        let f = fresh_name(&ns[i], *id);
        let ghost fv = f@;
        let ghost nxt = fresh_list(nv, i + 1, r0.push((nv[i as int], fv)), next_id(*id));
        assert(cur == (seq![fv] + nxt.0, nxt.1, nxt.2));
        let ghost prev_out = names_view(out@);
        rn.push((ns[i].clone(), f.clone()));
        assert(renames_view(rn@) =~= r0.push((nv[i as int], fv)));
        out.push(f);
        assert(names_view(out@) =~= prev_out.push(fv));
        *id = bump(*id);
        i += 1;
        assert(prev_out + (seq![fv] + nxt.0) =~= names_view(out@) + nxt.0);
    }
    assert(names_view(out@) + Seq::<SName>::empty() =~= names_view(out@));
    out
}


fn push_rename(rn: &mut Vec<(Name, Name)>, from: Name, to: &Name)
    ensures
        renames_view(final(rn)@) == renames_view(old(rn)@).push((from@, to@)),
{
    rn.push((from, to.clone()));
    assert(renames_view(rn@) =~= renames_view(old(rn)@).push((from@, to@)));
}

fn alpha_expr(e: Expr, rn: &mut Vec<(Name, Name)>, id: &mut usize) -> (res: Expr)
    ensures
        (res@, renames_view(final(rn)@), *final(id)) == alpha_e(e@, renames_view(old(rn)@), *old(id)),
    decreases e,
{
    match e {
        Expr::Let(b, v, body) => {
            let ghost bv = b@;
            let ghost b0 = (*body)@;
            assert(e@ == SExpr::Let(bv, v@, Box::new(b0)));
            let v2 = alpha_val(v, rn, id);
            let f = fresh_name(&b, *id);
            push_rename(rn, b, &f);
            *id = bump(*id);
            let body2 = alpha_expr(*body, rn, id);
            Expr::Let(f, v2, Box::new(body2))
        },
        Expr::Letrec(b, fun, body) => {
            let ghost fv = fun@;
            let ghost b0 = (*body)@;
            assert(e@ == SExpr::Letrec(b@, fv, Box::new(b0)));
            let fb = fresh_name(&b, *id);
            push_rename(rn, b, &fb);
            *id = bump(*id);
            let Fun { args, cont, body: fbody } = fun;
            let args2 = fresh_names(&args, rn, id);
            let fc = fresh_name(&cont, *id);
            push_rename(rn, cont, &fc);
            *id = bump(*id);
            let fbody2 = alpha_expr(*fbody, rn, id);
            let body2 = alpha_expr(*body, rn, id);
            let nf = Fun { args: args2, cont: fc, body: Box::new(fbody2) };
            let ghost nfv = nf@;
            let r = Expr::Letrec(fb, nf, Box::new(body2));
            assert(r@ == SExpr::Letrec(fb@, nfv, Box::new(body2@)));
            r
        },
        Expr::Encore(f, a, k) => {
            let f2 = rename(rn, f);
            let a2 = rename_names(rn, &a);
            let k2 = rename(rn, k);
            Expr::Encore(f2, a2, k2)
        },
        Expr::Match(n, t, cs) => {
            let ghost orig = cs@;
            let ghost cv = cases_view(orig);
            let ghost cs0 = cs;
            let ghost r0 = renames_view(rn@);
            let ghost id0 = *id;
            assert(e@ == SExpr::Match(n@, t, cv));
            assert(decreases_to!(e => cs0));
            let n2 = rename(rn, n);
            let mut rest = cs;
            let mut out: Vec<Case> = Vec::new();
            assert(cases_view(out@) + alpha_cases(cv, 0, r0, id0).0 =~= alpha_cases(cv, 0, r0, id0).0);
            while rest.len() > 0
                invariant
                    out@.len() + rest@.len() == orig.len(),
                    rest@ == orig.subrange(out@.len() as int, orig.len() as int),
                    cs0@ == orig,
                    cv == cases_view(orig),
                    decreases_to!(e => cs0),
                    alpha_cases(cv, 0, r0, id0) == (
                        cases_view(out@) + alpha_cases(cv, out@.len() as int, renames_view(rn@), *id).0,
                        alpha_cases(cv, out@.len() as int, renames_view(rn@), *id).1,
                        alpha_cases(cv, out@.len() as int, renames_view(rn@), *id).2,
                    ),
                decreases rest@.len(),
            {
                let c = rest.remove(0);
                let k = out.len();
                proof {
                    assert(c == orig[k as int]);
                    assert(decreases_to!(cs0 => cs0@));
                    assert(decreases_to!(cs0@ => cs0@[k as int]));
                    assert(decreases_to!(cs0@[k as int] => cs0@[k as int].body));
                }
                let ghost rk = renames_view(rn@);
                let ghost idk = *id;
                let ghost cur = alpha_cases(cv, k as int, rk, idk);
                let Case { binds, body } = c;
                let bs = fresh_names(&binds, rn, id);
                let body2 = alpha_expr(body, rn, id);
                let ghost nxt = alpha_cases(cv, k + 1, renames_view(rn@), *id);
                assert(cv[k as int] == orig[k as int]@);
                assert(cur == (seq![SCase { binds: names_view(bs@), body: body2@ }] + nxt.0, nxt.1, nxt.2));
                let ghost prev = cases_view(out@);
                let nc = Case { binds: bs, body: body2 };
                let ghost ncv = nc@;
                out.push(nc);
                assert(cases_view(out@) =~= prev.push(ncv));
                assert(prev + (seq![ncv] + nxt.0) =~= cases_view(out@) + nxt.0);
            }
            assert(cases_view(out@) + Seq::<SCase>::empty() =~= cases_view(out@));
            Expr::Match(n2, t, out)
        },
        Expr::Fin(n) => Expr::Fin(rename(rn, n)),
    }
}

fn alpha_val(v: Val, rn: &mut Vec<(Name, Name)>, id: &mut usize) -> (res: Val)
    ensures
        (res@, renames_view(final(rn)@), *final(id)) == alpha_v(v@, renames_view(old(rn)@), *old(id)),
    decreases v,
{
    match v {
        Val::Var(n) => Val::Var(rename(rn, n)),
        Val::Cont(c) => {
            let ghost cv = c@;
            let Cont { params, body } = c;
            let ps = fresh_names(&params, rn, id);
            let body2 = alpha_expr(*body, rn, id);
            let nc = Cont { params: ps, body: Box::new(body2) };
            let ghost ncv = nc@;
            let r = Val::Cont(nc);
            assert(r@ == SVal::Cont(ncv));
            r
        },
        Val::Ctor(t, fs) => Val::Ctor(t, rename_names(rn, &fs)),
        Val::Field(n, i) => Val::Field(rename(rn, n), i),
        Val::Prim(op, a) => Val::Prim(op, rename_names(rn, &a)),
        other => other,
    }
}

fn inline_global(fun: &Fun, args: &Vec<Name>, k: &Name, id: &mut usize) -> (res: Expr)
    ensures
        (res@, *final(id)) == inline_global_spec(fun@, names_view(args@), k@, *old(id)),
{
    let mut body = clone_expr(&fun.body);
    let mut renames: Vec<(Name, Name)> = Vec::new();
    assert(renames_view(renames@) =~= Seq::<(SName, SName)>::empty());
    let renamed_params = fresh_names(&fun.args, &mut renames, id);
    let renamed_cont = fresh_name(&fun.cont, *id);
    push_rename(&mut renames, fun.cont.clone(), &renamed_cont);
    *id = bump(*id);
    body = alpha_expr(body, &mut renames, id);
    body = subst_all(&renamed_params, args, body);
    subst_expr_in(&renamed_cont, k, body)
}

fn inline_expr(thr: usize, gs: &GlobalFuns, env: &mut Vec<(Name, Cont)>, id: &mut usize, e: Expr) -> (res: Expr)
    ensures
        final(env)@ == old(env)@,
        (res@, *final(id)) == inl_e(thr, globals_view(gs@), conts_view(old(env)@), *old(id), e@),
    decreases e,
{
    let ghost env0 = conts_view(env@);
    match e {
        Expr::Let(name, val, body) => {
            let ghost gv = val;
            let ghost b0 = (*body)@;
            assert(e@ == SExpr::Let(name@, gv@, Box::new(b0)));
            match val {
                Val::Cont(cont) => {
                    let ghost cv = cont@;
                    assert(gv@ == SVal::Cont(cv));
                    let Cont { params, body: cb } = cont;
                    let cb2 = inline_expr(thr, gs, env, id, *cb);
                    let c2 = Cont { params, body: Box::new(cb2) };
                    let ghost c2v = c2@;
                    assert(c2v == SCont { params: cv.params, body: Box::new(cb2@) });
                    let small = expr_size(&c2.body) <= thr;
                    let b2 = if small {
                        env.push((name.clone(), clone_cont(&c2)));
                        assert(conts_view(env@) =~= env0.push((name@, c2v)));
                        let b2 = inline_expr(thr, gs, env, id, *body);
                        env.pop();
                        b2
                    } else {
                        inline_expr(thr, gs, env, id, *body)
                    };
                    let v = Val::Cont(c2);
                    assert(v@ == SVal::Cont(c2v));
                    Expr::Let(name, v, Box::new(b2))
                },
                other => {
                    assert(!(gv@ is Cont));
                    let b2 = inline_expr(thr, gs, env, id, *body);
                    Expr::Let(name, other, Box::new(b2))
                },
            }
        },
        Expr::Letrec(name, fun, body) => {
            let ghost fv = fun@;
            assert(e@ == SExpr::Letrec(name@, fv, Box::new((*body)@)));
            let Fun { args, cont, body: fb } = fun;
            let fb2 = inline_expr(thr, gs, env, id, *fb);
            let b2 = inline_expr(thr, gs, env, id, *body);
            let nf = Fun { args, cont, body: Box::new(fb2) };
            assert(nf@ == SFun { args: fv.args, cont: fv.cont, body: Box::new(fb2@) });
            Expr::Letrec(name, nf, Box::new(b2))
        },
        Expr::Encore(f, args, k) => {
            match find_cont(env, &f) {
                Some(cont) => {
                    if args.len() == cont.params.len() {
                        assert(cont@.params == names_view(cont.params@));
                        assert(cont@.body == Box::new(cont.body@));
                        return subst_all(&cont.params, &args, clone_expr(&cont.body));
                    }
                    assert(cont@.params == names_view(cont.params@));
                },
                None => {},
            }
            match find_global(gs, &f) {
                Some(fun) => {
                    assert(fun@.args == names_view(fun.args@));
                    if fun.args.len() == args.len() {
                        return inline_global(fun, &args, &k, id);
                    }
                },
                None => {},
            }
            Expr::Encore(f, args, k)
        },
        Expr::Match(s, t, cs) => {
            let ghost orig = cs@;
            let ghost cv = cases_view(orig);
            let ghost cs0 = cs;
            let ghost id0 = *id;
            let ghost th = thr;
            let ghost gsv = globals_view(gs@);
            assert(e@ == SExpr::Match(s@, t, cv));
            assert(decreases_to!(e => cs0));
            let mut rest = cs;
            let mut out: Vec<Case> = Vec::new();
            assert(cases_view(out@) + inl_cases(th, gsv, env0, id0, cv, 0).0 =~= inl_cases(th, gsv, env0, id0, cv, 0).0);
            while rest.len() > 0
                invariant
                    out@.len() + rest@.len() == orig.len(),
                    rest@ == orig.subrange(out@.len() as int, orig.len() as int),
                    cs0@ == orig,
                    cv == cases_view(orig),
                    th == thr,
                    gsv == globals_view(gs@),
                    conts_view(env@) == env0,
                    env@ == old(env)@,
                    decreases_to!(e => cs0),
                    inl_cases(th, gsv, env0, id0, cv, 0) == (
                        cases_view(out@) + inl_cases(th, gsv, env0, *id, cv, out@.len() as int).0,
                        inl_cases(th, gsv, env0, *id, cv, out@.len() as int).1,
                    ),
                decreases rest@.len(),
            {
                let c = rest.remove(0);
                let k = out.len();
                proof {
                    assert(c == orig[k as int]);
                    assert(decreases_to!(cs0 => cs0@));
                    assert(decreases_to!(cs0@ => cs0@[k as int]));
                    assert(decreases_to!(cs0@[k as int] => cs0@[k as int].body));
                }
                let ghost idk = *id;
                let ghost cur = inl_cases(th, gsv, env0, idk, cv, k as int);
                let Case { binds, body } = c;
                let body2 = inline_expr(thr, gs, env, id, body);
                let ghost nxt = inl_cases(th, gsv, env0, *id, cv, k + 1);
                assert(cv[k as int] == orig[k as int]@);
                let ghost prev = cases_view(out@);
                let nc = Case { binds, body: body2 };
                let ghost ncv = nc@;
                assert(cur == (seq![ncv] + nxt.0, nxt.1));
                out.push(nc);
                assert(cases_view(out@) =~= prev.push(ncv));
                assert(prev + (seq![ncv] + nxt.0) =~= cases_view(out@) + nxt.0);
            }
            assert(cases_view(out@) + Seq::<SCase>::empty() =~= cases_view(out@));
            Expr::Match(s, t, out)
        },
        Expr::Fin(n) => Expr::Fin(n),
    }
}

/// Size of an expression: one per node, a continuation value counting as its
/// body; saturates at `usize::MAX`.
pub fn expr_size(expr: &Expr) -> (res: usize)
    ensures
        res == capped_size(expr@),
    decreases *expr,
{
    match expr {
        Expr::Let(_, val, body) => {
            let v = match val {
                Val::Cont(c) => expr_size(&c.body),
                _ => 1,
            };
            assert(v == (if size_v(val@) < usize::MAX { size_v(val@) } else { usize::MAX as nat }));
            let b = expr_size(body);
            1usize.saturating_add(v).saturating_add(b)
        },
        Expr::Letrec(_, fun, body) => {
            assert(fun@.body == Box::new(fun.body@));
            let f = expr_size(&fun.body);
            let b = expr_size(body);
            1usize.saturating_add(f).saturating_add(b)
        },
        Expr::Encore(_, _, _) => 1,
        Expr::Match(_, _, cs) => {
            let ghost cv = cases_view(cs@);
            assert(decreases_to!(*expr => *cs));
            let mut total: usize = 1;
            let mut i: usize = 0;
            while i < cs.len()
                invariant
                    i <= cs@.len(),
                    cv == cases_view(cs@),
                    decreases_to!(*expr => *cs),
                    total == (if 1 + size_cases(cv.take(i as int)) < usize::MAX { 1 + size_cases(cv.take(i as int)) } else { usize::MAX as nat }),
                decreases cs@.len() - i,
            {
                proof {
                    assert(cv.take(i + 1).drop_last() =~= cv.take(i as int));
                    assert(cv[i as int] == cs@[i as int]@);
                    assert(decreases_to!(*cs => cs@));
                    assert(decreases_to!(cs@ => cs@[i as int]));
                    assert(decreases_to!(cs@[i as int] => cs@[i as int].body));
                }
                let b = expr_size(&cs[i].body);
                total = total.saturating_add(b);
                i += 1;
            }
            assert(cv.take(cs@.len() as int) =~= cv);
            total
        },
        Expr::Fin(_) => 1,
    }
}

/// Inline small continuations and small global functions at their calls,
/// taking fresh-name ids from `next_id_in` onwards.
pub fn inlining_from(expr: Expr, threshold: usize, globals: &GlobalFuns, next: &mut usize) -> (res: Expr)
    ensures
        (res@, *final(next)) == inl_e(threshold, globals_view(globals@), Seq::empty(), *old(next), expr@),
{
    let mut env: Vec<(Name, Cont)> = Vec::new();
    assert(conts_view(env@) =~= Seq::<(SName, SCont)>::empty());
    inline_expr(threshold, globals, &mut env, next, expr)
}

/// Inline each call of a continuation whose body has at most `threshold`
/// nodes, and each call of a global function of `globals` with matching
/// arity; fresh names for the copies of global functions are numbered from 0.
pub fn inlining(expr: Expr, threshold: usize, globals: &GlobalFuns) -> (res: Expr)
    ensures
        res@ == inl_e(threshold, globals_view(globals@), Seq::empty(), 0, expr@).0,
{
    let mut next: usize = 0;
    inlining_from(expr, threshold, globals, &mut next)
}

} // verus!
