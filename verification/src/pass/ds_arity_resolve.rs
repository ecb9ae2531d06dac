// Saturate applications of functions whose arity is known: an exact call
// stays, a partial one is wrapped in a lambda over fresh parameters, an
// over-application calls with the known arity and applies the result to the
// rest one argument at a time. Calls of unknown functions are curried.
use vstd::prelude::*;
use vstd::string::StringExecFns;
use crate::disasm::decimal_string;
use crate::ir::ds::{self, DCase, DDefine, DExpr, DName, Name, dcases_view, ddefines_view, dexprs_view, dnames_view};
use crate::pass::cps_rewrite::rewrite_01_inlining::decimal;

verus! {

// ── Specification ────────────────────────────────────────────────────────────

/// A name in scope and the number of parameters of the function it holds, if known.
pub type ArityEnv = Seq<(DName, Option<nat>)>;

pub open spec fn lambda_arity(e: DExpr) -> Option<nat> {
    match e {
        DExpr::Lambda(ps, _) => Some(ps.len()),
        _ => None,
    }
}

/// The arity recorded by the nearest binding of `n`.
pub open spec fn arity_of(env: ArityEnv, n: DName) -> Option<nat>
    decreases env.len(),
{
    if env.len() == 0 {
        None
    } else if env.last().0 == n {
        env.last().1
    } else {
        arity_of(env.drop_last(), n)
    }
}

pub open spec fn unknown_arities(ns: Seq<DName>) -> ArityEnv {
    ns.map_values(|n: DName| (n, None::<nat>))
}

/// `head a0 a1 ...`, one argument at a time.
pub open spec fn curry_spec(head: DExpr, args: Seq<DExpr>) -> DExpr
    decreases args.len(),
{
    if args.len() == 0 {
        head
    } else {
        DExpr::Apply(Box::new(curry_spec(head, args.drop_last())), seq![args.last()])
    }
}

/// The `i`-th fresh parameter of a saturating lambda.
pub open spec fn pa_name(i: nat) -> DName {
    "__pa"@ + decimal(i)
}

pub open spec fn pa_names(m: nat) -> Seq<DName> {
    Seq::new(m, |i: int| pa_name(i as nat))
}

pub open spec fn vars_of(ns: Seq<DName>) -> Seq<DExpr> {
    ns.map_values(|n: DName| DExpr::Var(n))
}

/// `\ps[0] -> \ps[1] -> ... inner`, one parameter per lambda.
pub open spec fn nest_lambdas(ps: Seq<DName>, inner: DExpr) -> DExpr
    decreases ps.len(),
{
    if ps.len() == 0 {
        inner
    } else {
        nest_lambdas(ps.drop_last(), DExpr::Lambda(seq![ps.last()], Box::new(inner)))
    }
}

/// The arity of the head of an application, when known: that of a variable
/// from the environment, and, with `lambdas`, that of a literal lambda.
pub open spec fn head_arity(env: ArityEnv, head: DExpr, lambdas: bool) -> Option<nat> {
    match head {
        DExpr::Var(n) => arity_of(env, n),
        DExpr::Lambda(ps, _) => if lambdas { Some(ps.len()) } else { None },
        _ => None,
    }
}

/// An application of `head` to `args`, saturated against the head's known
/// arity. With `nested`, a partial application is wrapped in one lambda per
/// missing argument rather than one lambda for all.
pub open spec fn rewrite_apply_spec(env: ArityEnv, head: DExpr, args: Seq<DExpr>, nested: bool) -> DExpr {
    if args.len() == 0 {
        head
    } else {
        match head_arity(env, head, nested) {
            Some(n) => if args.len() == n {
                DExpr::Apply(Box::new(head), args)
            } else if args.len() < n {
                let ps = pa_names((n - args.len()) as nat);
                let inner = DExpr::Apply(Box::new(head), args + vars_of(ps));
                if nested { nest_lambdas(ps, inner) } else { DExpr::Lambda(ps, Box::new(inner)) }
            } else {
                curry_spec(DExpr::Apply(Box::new(head), args.take(n as int)), args.skip(n as int))
            },
            None => curry_spec(head, args),
        }
    }
}

/// Saturate every application in `e`, bottom-up.
pub open spec fn ar_e(env: ArityEnv, e: DExpr, nested: bool) -> DExpr
    decreases e,
{
    match e {
        DExpr::Lambda(ps, b) => DExpr::Lambda(ps, Box::new(ar_e(env + unknown_arities(ps), *b, nested))),
        DExpr::Apply(f, a) => rewrite_apply_spec(env, ar_e(env, *f, nested), ar_list(env, a, nested), nested),
        DExpr::Let(x, a, b) => {
            let a2 = ar_e(env, *a, nested);
            DExpr::Let(x, Box::new(a2), Box::new(ar_e(env.push((x, lambda_arity(a2))), *b, nested)))
        },
        DExpr::Letrec(f, p, a, b) => DExpr::Letrec(
            f,
            p,
            Box::new(ar_e(env.push((f, Some(1nat))).push((p, None)), *a, nested)),
            Box::new(ar_e(env.push((f, Some(1nat))), *b, nested)),
        ),
        DExpr::Ctor(t, fs) => DExpr::Ctor(t, ar_list(env, fs, nested)),
        DExpr::Field(x, i) => DExpr::Field(Box::new(ar_e(env, *x, nested)), i),
        DExpr::Match(x, t, cs) => DExpr::Match(
            Box::new(ar_e(env, *x, nested)),
            t,
            Seq::new(
                cs.len(),
                |i: int|
                    if 0 <= i < cs.len() {
                        DCase { binds: cs[i].binds, body: ar_e(env + unknown_arities(cs[i].binds), cs[i].body, nested) }
                    } else {
                        arbitrary()
                    },
            ),
        ),
        DExpr::Prim(op, a) => DExpr::Prim(op, ar_list(env, a, nested)),
        _ => e,
    }
}

pub open spec fn ar_list(env: ArityEnv, es: Seq<DExpr>, nested: bool) -> Seq<DExpr>
    decreases es,
{
    Seq::new(es.len(), |i: int| if 0 <= i < es.len() { ar_e(env, es[i], nested) } else { arbitrary() })
}

/// Each define with the arity of its body when that is a lambda.
pub open spec fn global_arities(ds: Seq<DDefine>) -> ArityEnv {
    ds.map_values(|d: DDefine| (d.name, lambda_arity(d.body)))
}

pub open spec fn arity_resolve_spec(ds: Seq<DDefine>) -> Seq<DDefine> {
    ds.map_values(|d: DDefine| DDefine { name: d.name, body: ar_e(global_arities(ds), d.body, false) })
}

// ── Implementation ───────────────────────────────────────────────────────────

pub open spec fn opt_nat(o: Option<usize>) -> Option<nat> {
    match o {
        Some(n) => Some(n as nat),
        None => None,
    }
}

pub open spec fn aenv_view(env: Seq<(Name, Option<usize>)>) -> ArityEnv {
    env.map_values(|p: (Name, Option<usize>)| (p.0@, opt_nat(p.1)))
}

pub(crate) fn expr_arity(e: &ds::Expr) -> (res: Option<usize>)
    ensures
        opt_nat(res) == lambda_arity(e@),
{
    match e {
        ds::Expr::Lambda(ps, _) => {
            assert(dnames_view(ps@).len() == ps@.len());
            Some(ps.len())
        },
        _ => None,
    }
}

fn lookup_arity(env: &Vec<(Name, Option<usize>)>, n: &Name) -> (res: Option<usize>)
    ensures
        opt_nat(res) == arity_of(aenv_view(env@), n@),
{
    let ghost ev = aenv_view(env@);
    let mut i: usize = env.len();
    assert(ev.take(i as int) =~= ev);
    while i > 0
        invariant
            i <= env@.len(),
            ev == aenv_view(env@),
            arity_of(ev, n@) == arity_of(ev.take(i as int), n@),
        decreases i,
    {
        assert(ev.take(i as int).drop_last() =~= ev.take(i - 1));
        if env[i - 1].0 == *n {
            return env[i - 1].1;
        }
        i -= 1;
    }
    None
}

pub(crate) fn extend_unknown(env: &Vec<(Name, Option<usize>)>, ns: &Vec<Name>) -> (res: Vec<(Name, Option<usize>)>)
    ensures
        aenv_view(res@) == aenv_view(env@) + unknown_arities(dnames_view(ns@)),
{
    let mut res: Vec<(Name, Option<usize>)> = Vec::new();
    let mut i: usize = 0;
    while i < env.len()
        invariant
            i <= env@.len(),
            aenv_view(res@) == aenv_view(env@).take(i as int),
        decreases env@.len() - i,
    {
        let ghost before = aenv_view(res@);
        res.push((env[i].0.clone(), env[i].1));
        assert(aenv_view(res@) =~= before.push(aenv_view(env@)[i as int]));
        assert(aenv_view(env@).take(i + 1) =~= aenv_view(env@).take(i as int).push(aenv_view(env@)[i as int]));
        i += 1;
    }
    assert(aenv_view(env@).take(env@.len() as int) =~= aenv_view(env@));
    let ghost base = aenv_view(env@);
    let ghost extra = unknown_arities(dnames_view(ns@));
    let mut j: usize = 0;
    assert(extra.take(0) =~= Seq::<(DName, Option<nat>)>::empty());
    assert(base + extra.take(0) =~= base);
    while j < ns.len()
        invariant
            j <= ns@.len(),
            extra == unknown_arities(dnames_view(ns@)),
            aenv_view(res@) == base + extra.take(j as int),
        decreases ns@.len() - j,
    {
        let ghost before = aenv_view(res@);
        res.push((ns[j].clone(), None));
        assert(extra[j as int] == (ns@[j as int]@, None::<nat>));
        assert(aenv_view(res@) =~= before.push(extra[j as int]));
        assert(extra.take(j + 1) =~= extra.take(j as int).push(extra[j as int]));
        j += 1;
    }
    assert(extra.take(ns@.len() as int) =~= extra);
    res
}

pub(crate) fn extend_one(env: &Vec<(Name, Option<usize>)>, n: &Name, a: Option<usize>) -> (res: Vec<(Name, Option<usize>)>)
    ensures
        aenv_view(res@) == aenv_view(env@).push((n@, opt_nat(a))),
{
    let none: Vec<Name> = Vec::new();
    let mut res = extend_unknown(env, &none);
    assert(unknown_arities(dnames_view(none@)) =~= Seq::<(DName, Option<nat>)>::empty());
    assert(aenv_view(env@) + Seq::<(DName, Option<nat>)>::empty() =~= aenv_view(env@));
    let ghost before = aenv_view(res@);
    res.push((n.clone(), a));
    assert(aenv_view(res@) =~= before.push((n@, opt_nat(a))));
    res
}

/// `head a0 a1 ...`, one argument at a time.
fn curry(head: ds::Expr, args: Vec<ds::Expr>) -> (res: ds::Expr)
    ensures
        res@ == curry_spec(head@, dexprs_view(args@)),
{
    let ghost av = dexprs_view(args@);
    let ghost h0 = head@;
    let mut cur = head;
    let mut rest = args;
    let ghost mut k: int = 0;
    assert(av.take(0) =~= Seq::<DExpr>::empty());
    assert(dexprs_view(rest@) =~= av.skip(0));
    while rest.len() > 0
        invariant
            0 <= k <= av.len(),
            dexprs_view(rest@) == av.skip(k),
            cur@ == curry_spec(h0, av.take(k)),
        decreases rest@.len(),
    {
        let ghost rv = dexprs_view(rest@);
        assert(rv.len() > 0);
        assert(rv[0] == av[k]);
        assert(rv[0] == rest@[0]@);
        let a = rest.remove(0);
        assert(dexprs_view(rest@) =~= rv.drop_first());
        assert(rv.drop_first() =~= av.skip(k + 1));
        assert(av.take(k + 1).drop_last() =~= av.take(k));
        let ghost cv = cur@;
        let ghost a_v = a@;
        let one = vec![a];
        assert(dexprs_view(one@) =~= seq![a_v]);
        cur = ds::Expr::Apply(Box::new(cur), one);
        proof {
            k = k + 1;
        }
    }
    assert(av.take(k) =~= av);
    cur
}

/// `__pa`, then the decimal digits of `i`.
fn pa_label(i: usize) -> (res: Name)
    ensures
        res@ == pa_name(i as nat),
{
    let mut r = String::from_str("__pa");
    let d = decimal_string(i);
    r.append(d.as_str());
    proof {
        reveal_strlit("__pa");
    }
    r
}

fn saturating_params(m: usize) -> (res: Vec<Name>)
    ensures
        dnames_view(res@) == pa_names(m as nat),
{
    let mut out: Vec<Name> = Vec::new();
    let mut i: usize = 0;
    while i < m
        invariant
            i <= m,
            dnames_view(out@) == pa_names(m as nat).take(i as int),
        decreases m - i,
    {
        let ghost before = dnames_view(out@);
        out.push(pa_label(i));
        assert(dnames_view(out@) =~= before.push(pa_name(i as nat)));
        assert(pa_names(m as nat).take(i + 1) =~= pa_names(m as nat).take(i as int).push(pa_name(i as nat)));
        i += 1;
    }
    assert(pa_names(m as nat).take(m as int) =~= pa_names(m as nat));
    out
}

fn nest(ps: &Vec<Name>, inner: ds::Expr) -> (res: ds::Expr)
    ensures
        res@ == nest_lambdas(dnames_view(ps@), inner@),
{
    let ghost pv = dnames_view(ps@);
    let ghost i0 = inner@;
    let mut cur = inner;
    let mut i: usize = ps.len();
    assert(pv.take(i as int) =~= pv);
    while i > 0
        invariant
            i <= ps@.len(),
            pv == dnames_view(ps@),
            nest_lambdas(pv, i0) == nest_lambdas(pv.take(i as int), cur@),
        decreases i,
    {
        assert(pv.take(i as int).drop_last() =~= pv.take(i - 1));
        let one = vec![ps[i - 1].clone()];
        assert(dnames_view(one@) =~= seq![pv[i - 1]]);
        cur = ds::Expr::Lambda(one, Box::new(cur));
        i -= 1;
    }
    assert(pv.take(0) =~= Seq::<DName>::empty());
    cur
}

fn head_arity_exec(env: &Vec<(Name, Option<usize>)>, head: &ds::Expr, nested: bool) -> (res: Option<usize>)
    ensures
        opt_nat(res) == head_arity(aenv_view(env@), head@, nested),
{
    match head {
        ds::Expr::Var(n) => lookup_arity(env, n),
        ds::Expr::Lambda(ps, _) => {
            if nested {
                assert(dnames_view(ps@).len() == ps@.len());
                Some(ps.len())
            } else {
                None
            }
        },
        _ => None,
    }
}

fn rewrite_apply(env: &Vec<(Name, Option<usize>)>, head: ds::Expr, args: Vec<ds::Expr>, nested: bool) -> (res: ds::Expr)
    ensures
        res@ == rewrite_apply_spec(aenv_view(env@), head@, dexprs_view(args@), nested),
{
    let ghost av = dexprs_view(args@);
    let ghost hv = head@;
    assert(av.len() == args@.len());
    if args.len() == 0 {
        return head;
    }
    match head_arity_exec(env, &head, nested) {
        Some(n) => {
            if args.len() == n {
                let r = ds::Expr::Apply(Box::new(head), args);
                assert(r@ == rewrite_apply_spec(aenv_view(env@), hv, av, nested));
                r
            } else if args.len() < n {
                let ps = saturating_params(n - args.len());
                let mut full = args;
                let mut i: usize = 0;
                let ghost vs = vars_of(dnames_view(ps@));
                while i < ps.len()
                    invariant
                        i <= ps@.len(),
                        vs == vars_of(dnames_view(ps@)),
                        dexprs_view(full@) == av + vs.take(i as int),
                    decreases ps@.len() - i,
                {
                    let ghost before = dexprs_view(full@);
                    let v = ds::Expr::Var(ps[i].clone());
                    assert(v@ == vs[i as int]);
                    full.push(v);
                    assert(dexprs_view(full@) =~= before.push(vs[i as int]));
                    assert(vs.take(i + 1) =~= vs.take(i as int).push(vs[i as int]));
                    i += 1;
                }
                assert(vs.take(ps@.len() as int) =~= vs);
                let inner = ds::Expr::Apply(Box::new(head), full);
                let ghost psv = dnames_view(ps@);
                assert(psv == pa_names((n - av.len()) as nat));
                assert(inner@ == DExpr::Apply(Box::new(hv), av + vars_of(psv)));
                let r = if nested {
                    nest(&ps, inner)
                } else {
                    ds::Expr::Lambda(ps, Box::new(inner))
                };
                assert(r@ == rewrite_apply_spec(aenv_view(env@), hv, av, nested));
                r
            } else {
                let mut exact = args;
                let rest = exact.split_off(n);
                assert(dexprs_view(exact@) =~= av.take(n as int));
                assert(dexprs_view(rest@) =~= av.skip(n as int));
                let inner = ds::Expr::Apply(Box::new(head), exact);
                let r = curry(inner, rest);
                assert(r@ == rewrite_apply_spec(aenv_view(env@), hv, av, nested));
                r
            }
        },
        None => curry(head, args),
    }
}

fn resolve_list(env: &Vec<(Name, Option<usize>)>, es: Vec<ds::Expr>, nested: bool) -> (res: Vec<ds::Expr>)
    ensures
        dexprs_view(res@) == ar_list(aenv_view(env@), dexprs_view(es@), nested),
    decreases es,
{
    let ghost orig = es@;
    let ghost es0 = es;
    let mut rest = es;
    let mut out: Vec<ds::Expr> = Vec::new();
    while rest.len() > 0
        invariant
            out@.len() + rest@.len() == orig.len(),
            rest@ == orig.subrange(out@.len() as int, orig.len() as int),
            es0@ == orig,
            es0 == es,
            forall|j: int| 0 <= j < out@.len() ==> (#[trigger] out@[j])@ == ar_e(aenv_view(env@), orig[j]@, nested),
        decreases rest@.len(),
    {
        let x = rest.remove(0);
        proof {
            let k = out@.len() as int;
            assert(x == orig[k]);
            assert(decreases_to!(es0 => es0@));
            assert(decreases_to!(es0@ => es0@[k]));
        }
        out.push(resolve(env, x, nested));
    }
    assert(dexprs_view(out@) =~= ar_list(aenv_view(env@), dexprs_view(orig), nested));
    out
}

fn resolve_cases(env: &Vec<(Name, Option<usize>)>, cs: Vec<ds::Case>, nested: bool) -> (res: Vec<ds::Case>)
    ensures
        dcases_view(res@) == Seq::new(
            dcases_view(cs@).len(),
            |i: int| DCase {
                binds: dcases_view(cs@)[i].binds,
                body: ar_e(aenv_view(env@) + unknown_arities(dcases_view(cs@)[i].binds), dcases_view(cs@)[i].body, nested),
            },
        ),
    decreases cs,
{
    let ghost orig = cs@;
    let ghost cs0 = cs;
    let mut rest = cs;
    let mut out: Vec<ds::Case> = Vec::new();
    while rest.len() > 0
        invariant
            out@.len() + rest@.len() == orig.len(),
            rest@ == orig.subrange(out@.len() as int, orig.len() as int),
            cs0@ == orig,
            cs0 == cs,
            forall|j: int| 0 <= j < out@.len() ==> (#[trigger] out@[j])@ == (DCase {
                binds: orig[j]@.binds,
                body: ar_e(aenv_view(env@) + unknown_arities(orig[j]@.binds), orig[j]@.body, nested),
            }),
        decreases rest@.len(),
    {
        let c = rest.remove(0);
        proof {
            let k = out@.len() as int;
            assert(c == orig[k]);
            assert(decreases_to!(cs0 => cs0@));
            assert(decreases_to!(cs0@ => cs0@[k]));
            assert(decreases_to!(cs0@[k] => cs0@[k].body));
        }
        let ds::Case { binds, body } = c;
        let inner = extend_unknown(env, &binds);
        let b = resolve(&inner, body, nested);
        out.push(ds::Case { binds, body: b });
    }
    let ghost target = Seq::new(
        dcases_view(orig).len(),
        |i: int| DCase {
            binds: dcases_view(orig)[i].binds,
            body: ar_e(aenv_view(env@) + unknown_arities(dcases_view(orig)[i].binds), dcases_view(orig)[i].body, nested),
        },
    );
    assert forall|i: int| 0 <= i < out@.len() implies #[trigger] dcases_view(out@)[i] == target[i] by {
        assert(dcases_view(orig)[i] == orig[i]@);
    }
    assert(dcases_view(out@) =~= target);
    out
}

/// Saturate every application in `e` against the arities known in `env`.
pub(crate) fn resolve(env: &Vec<(Name, Option<usize>)>, e: ds::Expr, nested: bool) -> (res: ds::Expr)
    ensures
        res@ == ar_e(aenv_view(env@), e@, nested),
    decreases e,
{
    let ghost ev = aenv_view(env@);
    let ghost e_v = e@;
    match e {
        ds::Expr::Lambda(ps, b) => {
            let inner = extend_unknown(env, &ps);
            let rb = resolve(&inner, *b, nested);
            let ghost pv = dnames_view(ps@);
            let r = ds::Expr::Lambda(ps, Box::new(rb));
            assert(r@ == ar_e(ev, e_v, nested));
            r
        },
        ds::Expr::Apply(f, a) => {
            let rf = resolve(env, *f, nested);
            let ra = resolve_list(env, a, nested);
            rewrite_apply(env, rf, ra, nested)
        },
        ds::Expr::Let(x, a, b) => {
            let ra = resolve(env, *a, nested);
            let arity = expr_arity(&ra);
            let inner = extend_one(env, &x, arity);
            let rb = resolve(&inner, *b, nested);
            ds::Expr::Let(x, Box::new(ra), Box::new(rb))
        },
        ds::Expr::Letrec(f, p, a, b) => {
            let env_f = extend_one(env, &f, Some(1));
            let env_fp = extend_one(&env_f, &p, None);
            let ra = resolve(&env_fp, *a, nested);
            let rb = resolve(&env_f, *b, nested);
            ds::Expr::Letrec(f, p, Box::new(ra), Box::new(rb))
        },
        ds::Expr::Ctor(t, fs) => ds::Expr::Ctor(t, resolve_list(env, fs, nested)),
        ds::Expr::Field(x, i) => ds::Expr::Field(Box::new(resolve(env, *x, nested)), i),
        ds::Expr::Match(x, t, cs) => {
            let rx = resolve(env, *x, nested);
            let rc = resolve_cases(env, cs, nested);
            let r = ds::Expr::Match(Box::new(rx), t, rc);
            assert(dcases_view(rc@) =~= match ar_e(ev, e_v, nested) {
                DExpr::Match(_, _, y) => y,
                _ => arbitrary(),
            });
            r
        },
        ds::Expr::Prim(op, a) => ds::Expr::Prim(op, resolve_list(env, a, nested)),
        other => other,
    }
}

pub(crate) fn arities_of(defines: &Vec<ds::Define>) -> (res: Vec<(Name, Option<usize>)>)
    ensures
        aenv_view(res@) == global_arities(ddefines_view(defines@)),
{
    let ghost dv = ddefines_view(defines@);
    let mut out: Vec<(Name, Option<usize>)> = Vec::new();
    let mut i: usize = 0;
    while i < defines.len()
        invariant
            i <= defines@.len(),
            dv == ddefines_view(defines@),
            aenv_view(out@) == global_arities(dv).take(i as int),
        decreases defines@.len() - i,
    {
        let ghost before = aenv_view(out@);
        let a = expr_arity(&defines[i].body);
        out.push((defines[i].name.clone(), a));
        assert(aenv_view(out@) =~= before.push(global_arities(dv)[i as int]));
        assert(global_arities(dv).take(i + 1) =~= global_arities(dv).take(i as int).push(global_arities(dv)[i as int]));
        i += 1;
    }
    assert(global_arities(dv).take(dv.len() as int) =~= global_arities(dv));
    out
}

/// Saturate the applications of every define, the defines' own arities
/// being those of the lambdas they are.
pub fn resolve_module(module: ds::Module) -> (res: ds::Module)
    ensures
        res@ == arity_resolve_spec(module@),
{
    let ghost dv = module@;
    let globals = arities_of(&module.defines);
    let mut rest = module.defines;
    let mut out: Vec<ds::Define> = Vec::new();
    while rest.len() > 0
        invariant
            out@.len() + rest@.len() == dv.len(),
            ddefines_view(rest@) == dv.skip(out@.len() as int),
            aenv_view(globals@) == global_arities(dv),
            forall|j: int| 0 <= j < out@.len() ==> (DDefine { name: (#[trigger] out@[j]).name@, body: out@[j].body@ })
                == arity_resolve_spec(dv)[j],
        decreases rest@.len(),
    {
        let ghost k = out@.len() as int;
        let ghost rv = ddefines_view(rest@);
        let d = rest.remove(0);
        assert(ddefines_view(rest@) =~= rv.drop_first());
        assert(rv.drop_first() =~= dv.skip(k + 1));
        assert(rv[0] == (DDefine { name: d.name@, body: d.body@ }));
        assert(dv.skip(k)[0] == dv[k]);
        let body = resolve(&globals, d.body, false);
        out.push(ds::Define { name: d.name, body });
    }
    let res = ds::Module { defines: out };
    assert(res@ =~= arity_resolve_spec(dv));
    res
}

} // verus!
