// Name resolution: every variable becomes the de Bruijn index of its nearest
// binder; the defines are the outermost binders, in order.
use vstd::prelude::*;
use crate::ir::ds::{self, DCase, DDefine, DExpr, DName, Name, dnames_view, ddefines_view};
use crate::ir::dsi::{self, ICase, IDefine, IExpr, scoped, scoped_all, scoped_cases, scoped_module};

verus! {

// ── Specification ────────────────────────────────────────────────────────────

/// How many binders lie between the nearest binding of `n` and the top of `env`.
pub open spec fn index_of(env: Seq<DName>, n: DName) -> Option<nat>
    decreases env.len(),
{
    if env.len() == 0 {
        None
    } else if env.last() == n {
        Some(0)
    } else {
        match index_of(env.drop_last(), n) {
            Some(i) => Some(i + 1),
            None => None,
        }
    }
}

/// The expression with indices for names; `None` where a name is unbound.
pub open spec fn res_e(env: Seq<DName>, e: DExpr) -> Option<IExpr>
    decreases e,
{
    match e {
        DExpr::Var(n) => match index_of(env, n) {
            Some(i) => Some(IExpr::Var(i)),
            None => None,
        },
        DExpr::Lambda(ps, b) => match res_e(env + ps, *b) {
            Some(rb) => Some(IExpr::Lambda(ps.len(), Box::new(rb))),
            None => None,
        },
        DExpr::Apply(f, a) => match (res_e(env, *f), res_list(env, a)) {
            (Some(rf), Some(ra)) => Some(IExpr::Apply(Box::new(rf), ra)),
            _ => None,
        },
        DExpr::Let(x, a, b) => match (res_e(env, *a), res_e(env.push(x), *b)) {
            (Some(ra), Some(rb)) => Some(IExpr::Let(Box::new(ra), Box::new(rb))),
            _ => None,
        },
        DExpr::Letrec(f, x, a, b) => match (res_e(env.push(f).push(x), *a), res_e(env.push(f), *b)) {
            (Some(ra), Some(rb)) => Some(IExpr::Letrec(Box::new(ra), Box::new(rb))),
            _ => None,
        },
        DExpr::Ctor(t, fs) => match res_list(env, fs) {
            Some(r) => Some(IExpr::Ctor(t, r)),
            None => None,
        },
        DExpr::Field(x, i) => match res_e(env, *x) {
            Some(r) => Some(IExpr::Field(Box::new(r), i)),
            None => None,
        },
        DExpr::Match(x, t, cs) => match (res_e(env, *x), res_cases(env, cs)) {
            (Some(rx), Some(rc)) => Some(IExpr::Match(Box::new(rx), t, rc)),
            _ => None,
        },
        DExpr::Int(n) => Some(IExpr::Int(n)),
        DExpr::Bytes(b) => Some(IExpr::Bytes(b)),
        DExpr::Prim(op, a) => match res_list(env, a) {
            Some(r) => Some(IExpr::Prim(op, r)),
            None => None,
        },
        DExpr::Extern(s) => Some(IExpr::Extern(s)),
    }
}

pub open spec fn res_list(env: Seq<DName>, es: Seq<DExpr>) -> Option<Seq<IExpr>>
    decreases es,
{
    if es.len() == 0 {
        Some(Seq::empty())
    } else {
        match (res_list(env, es.drop_last()), res_e(env, es.last())) {
            (Some(r), Some(x)) => Some(r.push(x)),
            _ => None,
        }
    }
}

pub open spec fn res_cases(env: Seq<DName>, cs: Seq<DCase>) -> Option<Seq<ICase>>
    decreases cs,
{
    if cs.len() == 0 {
        Some(Seq::empty())
    } else {
        match (res_cases(env, cs.drop_last()), res_e(env + cs.last().binds, cs.last().body)) {
            (Some(r), Some(b)) => Some(r.push(ICase { arity: cs.last().binds.len(), body: b })),
            _ => None,
        }
    }
}

pub open spec fn define_names_d(ds: Seq<DDefine>) -> Seq<DName> {
    ds.map_values(|d: DDefine| d.name)
}

pub open spec fn res_defines(ds: Seq<DDefine>, k: int) -> Option<Seq<IDefine>>
    decreases k,
{
    if k <= 0 {
        Some(Seq::empty())
    } else {
        match (res_defines(ds, k - 1), res_e(define_names_d(ds), ds[k - 1].body)) {
            (Some(r), Some(b)) => Some(r.push(IDefine { name: ds[k - 1].name, body: b })),
            _ => None,
        }
    }
}

/// The resolved module, or `None` where a name is unbound.
pub open spec fn resolve_module_spec(ds: Seq<DDefine>) -> Option<Seq<IDefine>> {
    res_defines(ds, ds.len() as int)
}

// ── Resolution yields scoped code ───────────────────────────────────────────

pub proof fn lemma_index_of_bound(env: Seq<DName>, n: DName)
    ensures
        index_of(env, n) matches Some(i) ==> i < env.len(),
    decreases env.len(),
{
    if env.len() > 0 {
        lemma_index_of_bound(env.drop_last(), n);
    }
}

/// What resolution produces refers only to binders in scope.
pub proof fn lemma_res_scoped(env: Seq<DName>, e: DExpr)
    ensures
        res_e(env, e) matches Some(r) ==> scoped(r, env.len()),
    decreases e,
{
    match e {
        DExpr::Var(n) => lemma_index_of_bound(env, n),
        DExpr::Lambda(ps, b) => lemma_res_scoped(env + ps, *b),
        DExpr::Apply(f, a) => {
            lemma_res_scoped(env, *f);
            lemma_res_list_scoped(env, a);
        },
        DExpr::Let(x, a, b) => {
            lemma_res_scoped(env, *a);
            lemma_res_scoped(env.push(x), *b);
        },
        DExpr::Letrec(f, x, a, b) => {
            lemma_res_scoped(env.push(f).push(x), *a);
            lemma_res_scoped(env.push(f), *b);
        },
        DExpr::Ctor(_, fs) => lemma_res_list_scoped(env, fs),
        DExpr::Field(x, _) => lemma_res_scoped(env, *x),
        DExpr::Match(x, _, cs) => {
            lemma_res_scoped(env, *x);
            lemma_res_cases_scoped(env, cs);
        },
        DExpr::Prim(_, a) => lemma_res_list_scoped(env, a),
        _ => {},
    }
}

pub proof fn lemma_res_list_scoped(env: Seq<DName>, es: Seq<DExpr>)
    ensures
        res_list(env, es) matches Some(r) ==> scoped_all(r, env.len()),
    decreases es,
{
    if es.len() > 0 {
        lemma_res_list_scoped(env, es.drop_last());
        lemma_res_scoped(env, es.last());
        if let Some(r) = res_list(env, es) {
            let r0 = res_list(env, es.drop_last())->0;
            assert forall|i: int| 0 <= i < r.len() implies scoped(#[trigger] r[i], env.len()) by {
                if i < r0.len() {
                    assert(r[i] == r0[i]);
                }
            }
        }
    }
}

pub proof fn lemma_res_cases_scoped(env: Seq<DName>, cs: Seq<DCase>)
    ensures
        res_cases(env, cs) matches Some(r) ==> scoped_cases(r, env.len()),
    decreases cs,
{
    if cs.len() > 0 {
        lemma_res_cases_scoped(env, cs.drop_last());
        lemma_res_scoped(env + cs.last().binds, cs.last().body);
        if let Some(r) = res_cases(env, cs) {
            let r0 = res_cases(env, cs.drop_last())->0;
            assert forall|i: int| 0 <= i < r.len() implies scoped(#[trigger] r[i].body, env.len() + r[i].arity) by {
                if i < r0.len() {
                    assert(r[i] == r0[i]);
                }
            }
        }
    }
}

/// A resolved module is scoped: every index of every define refers to a
/// binder in scope, the defines included.
pub proof fn lemma_resolve_module_scoped(ds: Seq<DDefine>)
    ensures
        resolve_module_spec(ds) matches Some(r) ==> scoped_module(r) && r.len() == ds.len(),
{
    lemma_res_defines_scoped(ds, ds.len() as int);
}

proof fn lemma_res_defines_scoped(ds: Seq<DDefine>, k: int)
    requires
        0 <= k <= ds.len(),
    ensures
        res_defines(ds, k) matches Some(r) ==> r.len() == k && forall|i: int| 0 <= i < r.len()
            ==> scoped(#[trigger] r[i].body, ds.len()),
    decreases k,
{
    if k > 0 {
        lemma_res_defines_scoped(ds, k - 1);
        lemma_res_scoped(define_names_d(ds), ds[k - 1].body);
        if let Some(r) = res_defines(ds, k) {
            let r0 = res_defines(ds, k - 1)->0;
            assert forall|i: int| 0 <= i < r.len() implies scoped(#[trigger] r[i].body, ds.len()) by {
                if i < r0.len() {
                    assert(r[i] == r0[i]);
                }
            }
        }
    }
}

// ── Implementation ───────────────────────────────────────────────────────────

fn find_index(env: &Vec<Name>, n: &Name) -> (res: Option<usize>)
    ensures
        match index_of(dnames_view(env@), n@) {
            Some(i) => res is Some && res->0 as nat == i,
            None => res is None,
        },
{
    let ghost ev = dnames_view(env@);
    let mut i: usize = env.len();
    assert(ev.take(i as int) =~= ev);
    while i > 0
        invariant
            i <= env@.len(),
            ev == dnames_view(env@),
            index_of(ev, n@) == (match index_of(ev.take(i as int), n@) {
                Some(j) => Some(j + (env@.len() - i) as nat),
                None => None,
            }),
        decreases i,
    {
        assert(ev.take(i as int).drop_last() =~= ev.take(i - 1));
        if env[i - 1] == *n {
            return Some(env.len() - i);
        }
        i -= 1;
    }
    None
}

fn push_name(env: &Vec<Name>, n: &Name) -> (res: Vec<Name>)
    ensures
        dnames_view(res@) == dnames_view(env@).push(n@),
{
    let mut res = crate::ir::cps::clone_names(env);
    assert(dnames_view(res@) =~= dnames_view(env@));
    let ghost before = dnames_view(res@);
    res.push(n.clone());
    assert(dnames_view(res@) =~= before.push(n@));
    res
}

fn push_names(env: &Vec<Name>, more: &Vec<Name>) -> (res: Vec<Name>)
    ensures
        dnames_view(res@) == dnames_view(env@) + dnames_view(more@),
{
    let mut res = crate::ir::cps::clone_names(env);
    assert(dnames_view(res@) =~= dnames_view(env@));
    let mut i: usize = 0;
    while i < more.len()
        invariant
            i <= more@.len(),
            dnames_view(res@) == dnames_view(env@) + dnames_view(more@).take(i as int),
        decreases more@.len() - i,
    {
        let ghost before = dnames_view(res@);
        res.push(more[i].clone());
        assert(dnames_view(res@) =~= before.push(more@[i as int]@));
        assert(dnames_view(more@).take(i + 1) =~= dnames_view(more@).take(i as int).push(more@[i as int]@));
        i += 1;
    }
    assert(dnames_view(more@).take(more@.len() as int) =~= dnames_view(more@));
    res
}

fn resolve_list(env: &Vec<Name>, es: &Vec<ds::Expr>) -> (res: Option<Vec<dsi::Expr>>)
    ensures
        match res_list(dnames_view(env@), ds::dexprs_view(es@)) {
            Some(r) => res is Some && dsi::iexprs_view(res->0@) == r,
            None => res is None,
        },
    decreases *es,
{
    let ghost ev = dnames_view(env@);
    let ghost dv = ds::dexprs_view(es@);
    let mut out: Vec<dsi::Expr> = Vec::new();
    let mut i: usize = 0;
    assert(dv.take(0) =~= Seq::<DExpr>::empty());
    assert(dsi::iexprs_view(out@) =~= Seq::<IExpr>::empty());
    while i < es.len()
        invariant
            i <= es@.len(),
            ev == dnames_view(env@),
            dv == ds::dexprs_view(es@),
            res_list(ev, dv.take(i as int)) == Some(dsi::iexprs_view(out@)),
        decreases es@.len() - i,
    {
        assert(dv.take(i + 1).drop_last() =~= dv.take(i as int));
        assert(dv.take(i + 1).last() == es@[i as int]@);
        match resolve(env, &es[i]) {
            None => {
                proof {
                    lemma_res_list_prefix_none(ev, dv, i + 1);
                }
                return None;
            },
            Some(x) => {
                let ghost before = dsi::iexprs_view(out@);
                let ghost xv = x@;
                out.push(x);
                assert(dsi::iexprs_view(out@) =~= before.push(xv));
            },
        }
        i += 1;
    }
    assert(dv.take(es@.len() as int) =~= dv);
    Some(out)
}

proof fn lemma_res_list_prefix_none(env: Seq<DName>, es: Seq<DExpr>, k: int)
    requires
        0 <= k <= es.len(),
        res_list(env, es.take(k)) is None,
    ensures
        res_list(env, es) is None,
    decreases es.len() - k,
{
    if k < es.len() {
        assert(es.take(k + 1).drop_last() =~= es.take(k));
        lemma_res_list_prefix_none(env, es, k + 1);
    } else {
        assert(es.take(k) =~= es);
    }
}

proof fn lemma_res_cases_prefix_none(env: Seq<DName>, cs: Seq<DCase>, k: int)
    requires
        0 <= k <= cs.len(),
        res_cases(env, cs.take(k)) is None,
    ensures
        res_cases(env, cs) is None,
    decreases cs.len() - k,
{
    if k < cs.len() {
        assert(cs.take(k + 1).drop_last() =~= cs.take(k));
        lemma_res_cases_prefix_none(env, cs, k + 1);
    } else {
        assert(cs.take(k) =~= cs);
    }
}

fn resolve_cases(env: &Vec<Name>, cs: &Vec<ds::Case>) -> (res: Option<Vec<dsi::Case>>)
    ensures
        match res_cases(dnames_view(env@), ds::dcases_view(cs@)) {
            Some(r) => res is Some && dsi::icases_view(res->0@) == r,
            None => res is None,
        },
    decreases *cs,
{
    let ghost ev = dnames_view(env@);
    let ghost cv = ds::dcases_view(cs@);
    let mut out: Vec<dsi::Case> = Vec::new();
    let mut i: usize = 0;
    assert(cv.take(0) =~= Seq::<DCase>::empty());
    assert(dsi::icases_view(out@) =~= Seq::<ICase>::empty());
    while i < cs.len()
        invariant
            i <= cs@.len(),
            ev == dnames_view(env@),
            cv == ds::dcases_view(cs@),
            res_cases(ev, cv.take(i as int)) == Some(dsi::icases_view(out@)),
        decreases cs@.len() - i,
    {
        assert(cv.take(i + 1).drop_last() =~= cv.take(i as int));
        assert(cv.take(i + 1).last() == cs@[i as int]@);
        let inner = push_names(env, &cs[i].binds);
        match resolve(&inner, &cs[i].body) {
            None => {
                proof {
                    lemma_res_cases_prefix_none(ev, cv, i + 1);
                }
                return None;
            },
            Some(b) => {
                let ghost before = dsi::icases_view(out@);
                let c = dsi::Case { arity: cs[i].binds.len(), body: b };
                assert(cv[i as int].binds.len() == cs@[i as int].binds@.len());
                let ghost c_v = c@;
                out.push(c);
                assert(dsi::icases_view(out@) =~= before.push(c_v));
            },
        }
        i += 1;
    }
    assert(cv.take(cs@.len() as int) =~= cv);
    Some(out)
}

fn resolve(env: &Vec<Name>, e: &ds::Expr) -> (res: Option<dsi::Expr>)
    ensures
        match res_e(dnames_view(env@), e@) {
            Some(r) => res is Some && res->0@ == r,
            None => res is None,
        },
    decreases *e,
{
    let ghost ev = dnames_view(env@);
    let ghost e_v = e@;
    let r = match e {
        ds::Expr::Var(n) => {
            proof {
                lemma_index_of_bound(dnames_view(env@), n@);
                assert(dnames_view(env@).len() == env@.len());
            }
            match find_index(env, n) {
                Some(i) => Some(dsi::Expr::Var(i)),
                None => None,
            }
        },
        ds::Expr::Lambda(ps, b) => {
            assert(dnames_view(ps@).len() == ps@.len());
            let inner = push_names(env, ps);
            match resolve(&inner, b) {
                Some(rb) => Some(dsi::Expr::Lambda(ps.len(), Box::new(rb))),
                None => None,
            }
        },
        ds::Expr::Apply(f, a) => {
            let rf = resolve(env, f);
            let ra = resolve_list(env, a);
            match (rf, ra) {
                (Some(rf), Some(ra)) => Some(dsi::Expr::Apply(Box::new(rf), ra)),
                _ => None,
            }
        },
        ds::Expr::Let(x, a, b) => {
            let ra = resolve(env, a);
            let inner = push_name(env, x);
            let rb = resolve(&inner, b);
            match (ra, rb) {
                (Some(ra), Some(rb)) => Some(dsi::Expr::Let(Box::new(ra), Box::new(rb))),
                _ => None,
            }
        },
        ds::Expr::Letrec(f, x, a, b) => {
            let env_f = push_name(env, f);
            let env_fx = push_name(&env_f, x);
            let ra = resolve(&env_fx, a);
            let rb = resolve(&env_f, b);
            match (ra, rb) {
                (Some(ra), Some(rb)) => Some(dsi::Expr::Letrec(Box::new(ra), Box::new(rb))),
                _ => None,
            }
        },
        ds::Expr::Ctor(t, fs) => match resolve_list(env, fs) {
            Some(r) => Some(dsi::Expr::Ctor(*t, r)),
            None => None,
        },
        ds::Expr::Field(x, i) => match resolve(env, x) {
            Some(r) => Some(dsi::Expr::Field(Box::new(r), *i)),
            None => None,
        },
        ds::Expr::Match(x, t, cs) => {
            let rx = resolve(env, x);
            let rc = resolve_cases(env, cs);
            match (rx, rc) {
                (Some(rx), Some(rc)) => Some(dsi::Expr::Match(Box::new(rx), *t, rc)),
                _ => None,
            }
        },
        ds::Expr::Int(n) => Some(dsi::Expr::Int(*n)),
        ds::Expr::Bytes(b) => Some(dsi::Expr::Bytes(crate::ir::cps::clone_bytes(b))),
        ds::Expr::Prim(op, a) => match resolve_list(env, a) {
            Some(r) => Some(dsi::Expr::Prim(*op, r)),
            None => None,
        },
        ds::Expr::Extern(s) => Some(dsi::Expr::Extern(*s)),
    };
    assert(match res_e(ev, e_v) {
        Some(x) => r is Some && r->0@ == x,
        None => r is None,
    });
    r
}

proof fn lemma_res_defines_prefix_none(ds: Seq<DDefine>, k: int)
    requires
        0 <= k <= ds.len(),
        res_defines(ds, k) is None,
    ensures
        res_defines(ds, ds.len() as int) is None,
    decreases ds.len() - k,
{
    if k < ds.len() {
        lemma_res_defines_prefix_none(ds, k + 1);
    }
}

/// Resolve every define, or `None` where a name is unbound.
pub fn try_resolve_module(module: ds::Module) -> (res: Option<dsi::Module>)
    ensures
        match resolve_module_spec(module@) {
            Some(r) => res is Some && res->0@ == r,
            None => res is None,
        },
{
    let ghost dv = module@;
    let mut globals: Vec<Name> = Vec::new();
    let mut i: usize = 0;
    assert(dnames_view(globals@) =~= define_names_d(dv).take(0));
    while i < module.defines.len()
        invariant
            i <= module.defines@.len(),
            dv == ddefines_view(module.defines@),
            dnames_view(globals@) == define_names_d(dv).take(i as int),
        decreases module.defines@.len() - i,
    {
        let ghost before = dnames_view(globals@);
        globals.push(module.defines[i].name.clone());
        assert(dnames_view(globals@) =~= before.push(dv[i as int].name));
        assert(define_names_d(dv).take(i + 1) =~= define_names_d(dv).take(i as int).push(dv[i as int].name));
        i += 1;
    }
    assert(define_names_d(dv).take(dv.len() as int) =~= define_names_d(dv));
    let mut out: Vec<dsi::Define> = Vec::new();
    let mut i: usize = 0;
    assert(dsi::idefines_view(out@) =~= Seq::<IDefine>::empty());
    while i < module.defines.len()
        invariant
            i <= module.defines@.len(),
            dv == ddefines_view(module.defines@),
            dnames_view(globals@) == define_names_d(dv),
            res_defines(dv, i as int) == Some(dsi::idefines_view(out@)),
        decreases module.defines@.len() - i,
    {
        assert(dv[i as int].body == module.defines@[i as int].body@);
        match resolve(&globals, &module.defines[i].body) {
            None => {
                proof {
                    lemma_res_defines_prefix_none(dv, i + 1);
                }
                return None;
            },
            Some(b) => {
                let ghost before = dsi::idefines_view(out@);
                let d = dsi::Define { name: module.defines[i].name.clone(), body: b };
                let ghost d_v = IDefine { name: d.name@, body: d.body@ };
                out.push(d);
                assert(dsi::idefines_view(out@) =~= before.push(d_v));
            },
        }
        i += 1;
    }
    Some(dsi::Module { defines: out })
}

/// Resolve every define of a module whose names are all bound. The result
/// is scoped.
pub fn resolve_module(module: ds::Module) -> (res: dsi::Module)
    requires
        resolve_module_spec(module@) is Some,
    ensures
        res@ == resolve_module_spec(module@)->0,
        scoped_module(res@),
{
    proof {
        lemma_resolve_module_scoped(module@);
    }
    match try_resolve_module(module) {
        Some(m) => m,
        None => dsi::Module { defines: Vec::new() },
    }
}

} // verus!
