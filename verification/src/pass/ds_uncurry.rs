// Uncurrying: a global that is only ever called (never passed around as a
// value) and is a chain of lambdas becomes one lambda over all their
// parameters; then applications are saturated against the arities.
use vstd::prelude::*;
use crate::ir::ds::{self, DCase, DDefine, DExpr, DName, Name, dcases_view, ddefines_view, dexprs_view, dnames_view};
use crate::ir::cps::names_contain;
use crate::pass::ds_arity_resolve::{ArityEnv, aenv_view, ar_e, arity_of, lambda_arity, opt_nat, resolve};

verus! {

// ── Specification ────────────────────────────────────────────────────────────

/// The mentions of globals in `e` other than as the head of an application
/// (a global may be shadowed; the mention still counts).
pub open spec fn esc_e(gs: Seq<DName>, e: DExpr) -> Seq<DName>
    decreases e,
{
    match e {
        DExpr::Apply(f, a) => esc_list(gs, a) + match *f {
            DExpr::Var(_) => Seq::empty(),
            _ => esc_e(gs, *f),
        },
        DExpr::Var(n) => if gs.contains(n) { seq![n] } else { Seq::empty() },
        DExpr::Lambda(_, b) => esc_e(gs, *b),
        DExpr::Let(_, a, b) => esc_e(gs, *a) + esc_e(gs, *b),
        DExpr::Letrec(_, _, a, b) => esc_e(gs, *a) + esc_e(gs, *b),
        DExpr::Ctor(_, fs) => esc_list(gs, fs),
        DExpr::Field(x, _) => esc_e(gs, *x),
        DExpr::Match(x, _, cs) => esc_e(gs, *x) + esc_cases(gs, cs),
        DExpr::Prim(_, a) => esc_list(gs, a),
        _ => Seq::empty(),
    }
}

pub open spec fn esc_list(gs: Seq<DName>, es: Seq<DExpr>) -> Seq<DName>
    decreases es,
{
    if es.len() == 0 {
        Seq::empty()
    } else {
        esc_list(gs, es.drop_last()) + esc_e(gs, es.last())
    }
}

pub open spec fn esc_cases(gs: Seq<DName>, cs: Seq<DCase>) -> Seq<DName>
    decreases cs,
{
    if cs.len() == 0 {
        Seq::empty()
    } else {
        esc_cases(gs, cs.drop_last()) + esc_e(gs, cs.last().body)
    }
}

pub open spec fn global_names(ds: Seq<DDefine>) -> Seq<DName> {
    ds.map_values(|d: DDefine| d.name)
}

/// The escaping mentions over all the defines, in order.
pub open spec fn escaping_upto(ds: Seq<DDefine>, k: int) -> Seq<DName>
    decreases k,
{
    if k <= 0 {
        Seq::empty()
    } else {
        escaping_upto(ds, k - 1) + esc_e(global_names(ds), ds[k - 1].body)
    }
}

pub open spec fn escaping(ds: Seq<DDefine>) -> Seq<DName> {
    escaping_upto(ds, ds.len() as int)
}

/// The parameters of a chain of lambdas below the first.
pub open spec fn nested_arity(e: DExpr) -> nat
    decreases e,
{
    match e {
        DExpr::Lambda(ps, b) => ps.len() + nested_arity(*b),
        _ => 0,
    }
}

pub open spec fn deep_arity(e: DExpr) -> Option<nat> {
    match e {
        DExpr::Lambda(ps, b) => Some(ps.len() + nested_arity(*b)),
        _ => None,
    }
}

/// The merged arity of a chain of lambdas fits in a `usize`.
pub open spec fn arity_fits(e: DExpr) -> bool {
    match deep_arity(e) {
        Some(n) => n <= usize::MAX,
        None => true,
    }
}

pub open spec fn chain_params(e: DExpr) -> Seq<DName>
    decreases e,
{
    match e {
        DExpr::Lambda(ps, b) => ps + chain_params(*b),
        _ => Seq::empty(),
    }
}

pub open spec fn chain_body(e: DExpr) -> DExpr
    decreases e,
{
    match e {
        DExpr::Lambda(_, b) => chain_body(*b),
        _ => e,
    }
}

/// A chain of lambdas merged into one.
pub open spec fn uncurry_spec(e: DExpr) -> DExpr {
    match e {
        DExpr::Lambda(ps, b) => DExpr::Lambda(ps + chain_params(*b), Box::new(chain_body(*b))),
        _ => e,
    }
}

pub open spec fn uncurry_arities(ds: Seq<DDefine>) -> ArityEnv {
    let esc = escaping(ds);
    ds.map_values(|d: DDefine| (d.name, if esc.contains(d.name) { lambda_arity(d.body) } else { deep_arity(d.body) }))
}

pub open spec fn uncurry_module_spec(ds: Seq<DDefine>) -> Seq<DDefine> {
    let esc = escaping(ds);
    let env = uncurry_arities(ds);
    ds.map_values(|d: DDefine| DDefine {
        name: d.name,
        body: ar_e(env, if esc.contains(d.name) { d.body } else { uncurry_spec(d.body) }, true),
    })
}

// ── Implementation ───────────────────────────────────────────────────────────

fn collect_list(gs: &Vec<Name>, es: &Vec<ds::Expr>, out: &mut Vec<Name>)
    ensures
        dnames_view(final(out)@) == dnames_view(old(out)@) + esc_list(dnames_view(gs@), dexprs_view(es@)),
    decreases *es,
{
    let ghost o0 = dnames_view(out@);
    let ghost ev = dexprs_view(es@);
    let ghost gv = dnames_view(gs@);
    let mut i: usize = 0;
    assert(ev.take(0) =~= Seq::<DExpr>::empty());
    assert(o0 + Seq::<DName>::empty() =~= o0);
    while i < es.len()
        invariant
            i <= es@.len(),
            ev == dexprs_view(es@),
            gv == dnames_view(gs@),
            dnames_view(out@) == o0 + esc_list(gv, ev.take(i as int)),
        decreases es@.len() - i,
    {
        assert(ev.take(i + 1).drop_last() =~= ev.take(i as int));
        assert(ev.take(i + 1).last() == es@[i as int]@);
        let ghost o1 = dnames_view(out@);
        collect_escaping(gs, &es[i], out);
        assert(o0 + esc_list(gv, ev.take(i + 1)) =~= o1 + esc_e(gv, es@[i as int]@));
        i += 1;
    }
    assert(ev.take(es@.len() as int) =~= ev);
}

fn collect_escaping(gs: &Vec<Name>, e: &ds::Expr, out: &mut Vec<Name>)
    ensures
        dnames_view(final(out)@) == dnames_view(old(out)@) + esc_e(dnames_view(gs@), e@),
    decreases *e,
{
    let ghost o0 = dnames_view(out@);
    let ghost gv = dnames_view(gs@);
    match e {
        ds::Expr::Apply(f, a) => {
            collect_list(gs, a, out);
            let ghost o1 = dnames_view(out@);
            match &**f {
                ds::Expr::Var(_) => {
                    assert(o1 + Seq::<DName>::empty() =~= o1);
                },
                _ => {
                    collect_escaping(gs, f, out);
                },
            }
            assert(o0 + (esc_list(gv, dexprs_view(a@)) + match (**f)@ {
                DExpr::Var(_) => Seq::empty(),
                _ => esc_e(gv, (**f)@),
            }) =~= dnames_view(out@));
        },
        ds::Expr::Var(n) => {
            if names_contain(gs, n) {
                let ghost before = dnames_view(out@);
                out.push(n.clone());
                assert(dnames_view(out@) =~= before + seq![n@]);
            } else {
                assert(o0 + Seq::<DName>::empty() =~= o0);
            }
        },
        ds::Expr::Lambda(_, b) => collect_escaping(gs, b, out),
        ds::Expr::Let(_, a, b) => {
            collect_escaping(gs, a, out);
            let ghost o1 = dnames_view(out@);
            collect_escaping(gs, b, out);
            assert(o0 + (esc_e(gv, (**a)@) + esc_e(gv, (**b)@)) =~= o1 + esc_e(gv, (**b)@));
        },
        ds::Expr::Letrec(_, _, a, b) => {
            collect_escaping(gs, a, out);
            let ghost o1 = dnames_view(out@);
            collect_escaping(gs, b, out);
            assert(o0 + (esc_e(gv, (**a)@) + esc_e(gv, (**b)@)) =~= o1 + esc_e(gv, (**b)@));
        },
        ds::Expr::Ctor(_, fs) => collect_list(gs, fs, out),
        ds::Expr::Field(x, _) => collect_escaping(gs, x, out),
        ds::Expr::Match(x, _, cs) => {
            collect_escaping(gs, x, out);
            let ghost o1 = dnames_view(out@);
            let ghost cv = dcases_view(cs@);
            assert(decreases_to!(*e => *cs));
            let mut i: usize = 0;
            assert(cv.take(0) =~= Seq::<DCase>::empty());
            assert(o1 + Seq::<DName>::empty() =~= o1);
            while i < cs.len()
                invariant
                    i <= cs@.len(),
                    cv == dcases_view(cs@),
                    gv == dnames_view(gs@),
                    decreases_to!(*e => *cs),
                    dnames_view(out@) == o1 + esc_cases(gv, cv.take(i as int)),
                decreases cs@.len() - i,
            {
                assert(cv.take(i + 1).drop_last() =~= cv.take(i as int));
                assert(cv[i as int] == cs@[i as int]@);
                proof {
                    assert(decreases_to!(*cs => cs@));
                    assert(decreases_to!(cs@ => cs@[i as int]));
                    assert(decreases_to!(cs@[i as int] => cs@[i as int].body));
                }
                let ghost o2 = dnames_view(out@);
                collect_escaping(gs, &cs[i].body, out);
                assert(o1 + esc_cases(gv, cv.take(i + 1)) =~= o2 + esc_e(gv, cv[i as int].body));
                i += 1;
            }
            assert(cv.take(cs@.len() as int) =~= cv);
            assert(o0 + (esc_e(gv, (**x)@) + esc_cases(gv, cv)) =~= o1 + esc_cases(gv, cv));
        },
        ds::Expr::Prim(_, a) => collect_list(gs, a, out),
        _ => {
            assert(o0 + Seq::<DName>::empty() =~= o0);
        },
    }
}

fn nested_lambda_arity(e: &ds::Expr) -> (res: usize)
    requires
        nested_arity(e@) <= usize::MAX,
    ensures
        res == nested_arity(e@),
    decreases *e,
{
    match e {
        ds::Expr::Lambda(ps, b) => {
            assert(dnames_view(ps@).len() == ps@.len());
            ps.len() + nested_lambda_arity(b)
        },
        _ => 0,
    }
}

/// Flatten a chain of lambdas, appending their parameters to `acc`.
fn flatten(e: ds::Expr, acc: &mut Vec<Name>) -> (res: ds::Expr)
    ensures
        dnames_view(final(acc)@) == dnames_view(old(acc)@) + chain_params(e@),
        res@ == chain_body(e@),
    decreases e,
{
    let ghost a0 = dnames_view(acc@);
    match e {
        ds::Expr::Lambda(ps, b) => {
            let mut i: usize = 0;
            while i < ps.len()
                invariant
                    i <= ps@.len(),
                    dnames_view(acc@) == a0 + dnames_view(ps@).take(i as int),
                decreases ps@.len() - i,
            {
                let ghost before = dnames_view(acc@);
                acc.push(ps[i].clone());
                assert(dnames_view(acc@) =~= before.push(ps@[i as int]@));
                assert(dnames_view(ps@).take(i + 1) =~= dnames_view(ps@).take(i as int).push(ps@[i as int]@));
                i += 1;
            }
            assert(dnames_view(ps@).take(ps@.len() as int) =~= dnames_view(ps@));
            let ghost a1 = dnames_view(acc@);
            let r = flatten(*b, acc);
            assert(a0 + (dnames_view(ps@) + chain_params((*b)@)) =~= a1 + chain_params((*b)@));
            r
        },
        other => {
            assert(a0 + Seq::<DName>::empty() =~= a0);
            other
        },
    }
}

fn uncurry_expr(e: ds::Expr) -> (res: ds::Expr)
    ensures
        res@ == uncurry_spec(e@),
{
    match e {
        ds::Expr::Lambda(ps, b) => {
            let mut all = ps;
            let inner = flatten(*b, &mut all);
            ds::Expr::Lambda(all, Box::new(inner))
        },
        other => other,
    }
}

/// Uncurry every global that never escapes, then saturate the applications
/// against the arities: the merged arity for those, the outer lambda's for
/// the rest.
pub fn resolve_module(module: ds::Module) -> (res: ds::Module)
    requires
        forall|i: int| 0 <= i < module@.len() ==> arity_fits(#[trigger] module@[i].body),
    ensures
        res@ == uncurry_module_spec(module@),
{
    let ghost dv = module@;
    let mut names: Vec<Name> = Vec::new();
    let mut i: usize = 0;
    while i < module.defines.len()
        invariant
            i <= module.defines@.len(),
            dv == ddefines_view(module.defines@),
            dnames_view(names@) == global_names(dv).take(i as int),
        decreases module.defines@.len() - i,
    {
        let ghost before = dnames_view(names@);
        names.push(module.defines[i].name.clone());
        assert(dnames_view(names@) =~= before.push(dv[i as int].name));
        assert(global_names(dv).take(i + 1) =~= global_names(dv).take(i as int).push(dv[i as int].name));
        i += 1;
    }
    assert(global_names(dv).take(dv.len() as int) =~= global_names(dv));
    let mut esc: Vec<Name> = Vec::new();
    let mut i: usize = 0;
    assert(dnames_view(esc@) =~= Seq::<DName>::empty());
    while i < module.defines.len()
        invariant
            i <= module.defines@.len(),
            dv == ddefines_view(module.defines@),
            dnames_view(names@) == global_names(dv),
            dnames_view(esc@) == escaping_upto(dv, i as int),
        decreases module.defines@.len() - i,
    {
        assert(dv[i as int].body == module.defines@[i as int].body@);
        collect_escaping(&names, &module.defines[i].body, &mut esc);
        i += 1;
    }
    let ghost escv = escaping(dv);
    let mut globals: Vec<(Name, Option<usize>)> = Vec::new();
    let mut i: usize = 0;
    while i < module.defines.len()
        invariant
            i <= module.defines@.len(),
            dv == ddefines_view(module.defines@),
            dnames_view(esc@) == escv,
            escv == escaping(dv),
            forall|j: int| 0 <= j < dv.len() ==> arity_fits(#[trigger] dv[j].body),
            aenv_view(globals@) == uncurry_arities(dv).take(i as int),
        decreases module.defines@.len() - i,
    {
        let d = &module.defines[i];
        assert(dv[i as int] == (DDefine { name: d.name@, body: d.body@ }));
        let a = if names_contain(&esc, &d.name) {
            crate::pass::ds_arity_resolve::expr_arity(&d.body)
        } else {
            match &d.body {
                ds::Expr::Lambda(ps, b) => {
                    assert(arity_fits(dv[i as int].body));
                    assert(dnames_view(ps@).len() == ps@.len());
                    Some(ps.len() + nested_lambda_arity(b))
                },
                _ => None,
            }
        };
        let ghost before = aenv_view(globals@);
        globals.push((d.name.clone(), a));
        assert(aenv_view(globals@) =~= before.push(uncurry_arities(dv)[i as int]));
        assert(uncurry_arities(dv).take(i + 1) =~= uncurry_arities(dv).take(i as int).push(uncurry_arities(dv)[i as int]));
        i += 1;
    }
    assert(uncurry_arities(dv).take(dv.len() as int) =~= uncurry_arities(dv));
    let mut rest = module.defines;
    let mut out: Vec<ds::Define> = Vec::new();
    while rest.len() > 0
        invariant
            out@.len() + rest@.len() == dv.len(),
            ddefines_view(rest@) == dv.skip(out@.len() as int),
            aenv_view(globals@) == uncurry_arities(dv),
            dnames_view(esc@) == escaping(dv),
            forall|j: int| 0 <= j < out@.len() ==> (DDefine { name: (#[trigger] out@[j]).name@, body: out@[j].body@ })
                == uncurry_module_spec(dv)[j],
        decreases rest@.len(),
    {
        let ghost k = out@.len() as int;
        let ghost rv = ddefines_view(rest@);
        let d = rest.remove(0);
        assert(ddefines_view(rest@) =~= rv.drop_first());
        assert(rv.drop_first() =~= dv.skip(k + 1));
        assert(rv[0] == (DDefine { name: d.name@, body: d.body@ }));
        assert(dv.skip(k)[0] == dv[k]);
        let ds::Define { name, body } = d;
        let body = if names_contain(&esc, &name) { body } else { uncurry_expr(body) };
        let body = resolve(&globals, body, true);
        out.push(ds::Define { name, body });
    }
    let res = ds::Module { defines: out };
    assert(res@ =~= uncurry_module_spec(dv));
    res
}

} // verus!
