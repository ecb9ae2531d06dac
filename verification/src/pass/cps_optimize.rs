// The optimizer: the simplification passes run to a fixed point (or until the
// fuel runs out), interleaved with the rewrites.
use vstd::prelude::*;
use crate::ir::cps::{
    Define, Expr, Fun, Module, Name, SDefine, SExpr, SFun, SName, SVal, Val, cases_view, clone_expr,
    clone_fun, defines_view, expr_eq, names_contain, names_view,
};
use crate::pass::cps_rewrite::{self, GlobalFuns};
use crate::pass::cps_rewrite::rewrite_01_inlining::{SGlobals, capped_size, globals_view, inl_e};
use crate::pass::cps_rewrite::rewrite_02_hoisting::hoist_e;
use crate::pass::cps_rewrite::rewrite_03_cse::cse_e;
use crate::pass::cps_rewrite::rewrite_04_contification::contify_e;
use crate::pass::cps_simplify;
use crate::pass::cps_simplify::simpl_01_dead_code::dc_e;
use crate::pass::cps_simplify::simpl_02_copy_propagation::cp_e;
use crate::pass::cps_simplify::simpl_03_constant_fold::cf_e;
use crate::pass::cps_simplify::simpl_04_beta_contraction::beta_e;
use crate::pass::cps_simplify::simpl_05_eta_reduction::eta_e;

verus! {

// ── Configuration ───────────────────────────────────────────────────────────

/// Which passes run, how many rounds they may take and how large a function
/// may be to be inlined. `verbose` asks the caller to trace the passes.
pub struct OptimizeConfig {
    pub fuel: usize,
    pub inline_threshold: usize,
    pub verbose: bool,
    pub simplify_dead_code: bool,
    pub simplify_copy_propagation: bool,
    pub simplify_constant_fold: bool,
    pub simplify_beta_contraction: bool,
    pub simplify_eta_reduction: bool,
    pub rewrite_inlining: bool,
    pub rewrite_hoisting: bool,
    pub rewrite_cse: bool,
    pub rewrite_contification: bool,
}

impl Default for OptimizeConfig {
    /// Every pass on, a fuel of 100 and an inlining threshold of 8.
    fn default() -> (res: Self)
        ensures
            res == (OptimizeConfig {
                fuel: 100,
                inline_threshold: 8,
                verbose: false,
                simplify_dead_code: true,
                simplify_copy_propagation: true,
                simplify_constant_fold: true,
                simplify_beta_contraction: true,
                simplify_eta_reduction: true,
                rewrite_inlining: true,
                rewrite_hoisting: true,
                rewrite_cse: true,
                rewrite_contification: true,
            }),
    {
        OptimizeConfig {
            fuel: 100,
            inline_threshold: 8,
            verbose: false,
            simplify_dead_code: true,
            simplify_copy_propagation: true,
            simplify_constant_fold: true,
            simplify_beta_contraction: true,
            simplify_eta_reduction: true,
            rewrite_inlining: true,
            rewrite_hoisting: true,
            rewrite_cse: true,
            rewrite_contification: true,
        }
    }
}

// ── Specification ────────────────────────────────────────────────────────────

/// One round of the enabled simplification passes, in their fixed order.
pub open spec fn simp_step(c: OptimizeConfig, e: SExpr) -> SExpr {
    let e1 = if c.simplify_dead_code { dc_e(e) } else { e };
    let e2 = if c.simplify_copy_propagation { cp_e(e1) } else { e1 };
    let e3 = if c.simplify_constant_fold { cf_e(Seq::empty(), e2) } else { e2 };
    let e4 = if c.simplify_beta_contraction { beta_e(e3) } else { e3 };
    if c.simplify_eta_reduction { eta_e(e4) } else { e4 }
}

/// Simplify until a round changes nothing or the fuel is spent; each round
/// that changes something costs one unit. Returns the result and the fuel left.
pub open spec fn run_simplify_spec(c: OptimizeConfig, e: SExpr, fuel: usize) -> (SExpr, usize)
    decreases fuel,
{
    if fuel == 0 {
        (e, fuel)
    } else {
        let e2 = simp_step(c, e);
        if e2 == e {
            (e2, fuel)
        } else {
            run_simplify_spec(c, e2, (fuel - 1) as usize)
        }
    }
}

/// A rewrite followed by simplification, when the rewrite is enabled.
pub open spec fn then_simplify(c: OptimizeConfig, on: bool, rewritten: SExpr, e: SExpr, fuel: usize) -> (SExpr, usize) {
    if on {
        run_simplify_spec(c, rewritten, fuel)
    } else {
        (e, fuel)
    }
}

/// One round of the optimizer loop from `e` with `fuel` and the next fresh
/// id: the expression, the fuel and the id after it.
pub open spec fn opt_round(c: OptimizeConfig, e: SExpr, fuel: usize, id: usize) -> (SExpr, usize, usize) {
    let (e1, f1) = run_simplify_spec(c, e, fuel);
    let inl = inl_e(c.inline_threshold, Seq::empty(), Seq::empty(), id, e1);
    let (e2, f2) = then_simplify(c, c.rewrite_inlining, inl.0, e1, f1);
    let id2 = if c.rewrite_inlining { inl.1 } else { id };
    let (e3, f3) = then_simplify(c, c.rewrite_hoisting, hoist_e(e2), e2, f2);
    let (e4, f4) = then_simplify(c, c.rewrite_cse, cse_e(Seq::empty(), e3), e3, f3);
    let (e5, f5) = then_simplify(c, c.rewrite_contification, contify_e(e4), e4, f4);
    (e5, f5, id2)
}

pub open spec fn sat_dec(f: usize) -> usize {
    if f == 0 { 0 } else { (f - 1) as usize }
}

/// Rounds until a round changes nothing or the fuel is spent.
pub open spec fn opt_loop(c: OptimizeConfig, e: SExpr, fuel: usize, id: usize) -> (SExpr, usize, usize)
    decreases fuel,
{
    if fuel == 0 {
        (e, fuel, id)
    } else {
        let r = opt_round(c, e, fuel, id);
        if r.0 == e {
            r
        } else {
            proof {
                lemma_opt_round_fuel(c, e, fuel, id);
            }
            opt_loop(c, r.0, sat_dec(r.1), r.2)
        }
    }
}

/// The whole optimization of one definition's body: a first inlining of the
/// global functions (when there are any), then the optimizer loop.
pub open spec fn opt_expr(c: OptimizeConfig, gs: SGlobals, e: SExpr, fuel: usize, id: usize) -> (SExpr, usize, usize) {
    if c.rewrite_inlining && gs.len() > 0 {
        let inl = inl_e(c.inline_threshold, gs, Seq::empty(), id, e);
        let (e1, f1) = run_simplify_spec(c, inl.0, fuel);
        opt_loop(c, e1, f1, inl.1)
    } else {
        opt_loop(c, e, fuel, id)
    }
}

/// Whether `x` occurs free in a value or expression, a function's own name
/// shadowing it in the function body.
pub open spec fn mentions_e(x: SName, e: SExpr) -> bool
    decreases e,
{
    match e {
        SExpr::Let(_, v, b) => mentions_v(x, v) || mentions_e(x, *b),
        SExpr::Letrec(n, f, b) => (n != x && mentions_e(x, *f.body)) || mentions_e(x, *b),
        SExpr::Encore(f, a, k) => f == x || a.contains(x) || k == x,
        SExpr::Match(n, _, cs) => n == x || mentions_cases(x, cs),
        SExpr::Fin(n) => n == x,
    }
}

pub open spec fn mentions_v(x: SName, v: SVal) -> bool
    decreases v,
{
    match v {
        SVal::Cont(c) => mentions_e(x, *c.body),
        SVal::Var(n) => n == x,
        SVal::Ctor(_, fs) => fs.contains(x),
        SVal::Field(n, _) => n == x,
        SVal::Prim(_, a) => a.contains(x),
        _ => false,
    }
}

pub open spec fn mentions_cases(x: SName, cs: Seq<crate::ir::cps::SCase>) -> bool
    decreases cs,
{
    if cs.len() == 0 {
        false
    } else {
        mentions_cases(x, cs.drop_last()) || mentions_e(x, cs.last().body)
    }
}

/// A definition of the form `letrec f = fun in f`: the function it names.
pub open spec fn extract_fun_spec(body: SExpr) -> Option<(SName, SFun)> {
    match body {
        SExpr::Letrec(n, f, rest) => match *rest {
            SExpr::Fin(m) => if m == n { Some((n, f)) } else { None },
            _ => None,
        },
        _ => None,
    }
}

/// The definitions that are small non-recursive functions, in order, under
/// the definition's name.
pub open spec fn collect_globals_spec(ds: Seq<SDefine>, thr: usize) -> SGlobals
    decreases ds.len(),
{
    if ds.len() == 0 {
        Seq::empty()
    } else {
        let r = collect_globals_spec(ds.drop_last(), thr);
        let d = ds.last();
        match extract_fun_spec(d.body) {
            Some((inner, f)) => if !mentions_e(inner, *f.body) && capped_size(*f.body) <= thr {
                r.push((d.name, f))
            } else {
                r
            },
            None => r,
        }
    }
}

/// The definitions optimized in order, each with the configured fuel, the
/// fresh-name counter running on from one to the next.
pub open spec fn opt_defines(c: OptimizeConfig, gs: SGlobals, ds: Seq<SDefine>, id: usize) -> (Seq<SDefine>, usize)
    decreases ds.len(),
{
    if ds.len() == 0 {
        (ds, id)
    } else {
        let r = opt_expr(c, gs, ds[0].body, c.fuel, id);
        let rest = opt_defines(c, gs, ds.drop_first(), r.2);
        (seq![SDefine { name: ds[0].name, body: r.0 }] + rest.0, rest.1)
    }
}

// ── Fuel only goes down ──────────────────────────────────────────────────────

pub proof fn lemma_run_simplify_fuel(c: OptimizeConfig, e: SExpr, fuel: usize)
    ensures
        run_simplify_spec(c, e, fuel).1 <= fuel,
    decreases fuel,
{
    if fuel > 0 {
        let e2 = simp_step(c, e);
        if e2 != e {
            lemma_run_simplify_fuel(c, e2, (fuel - 1) as usize);
        }
    }
}

pub proof fn lemma_opt_round_fuel(c: OptimizeConfig, e: SExpr, fuel: usize, id: usize)
    ensures
        opt_round(c, e, fuel, id).1 <= fuel,
{
    let (e1, f1) = run_simplify_spec(c, e, fuel);
    lemma_run_simplify_fuel(c, e, fuel);
    let inl = inl_e(c.inline_threshold, Seq::empty(), Seq::empty(), id, e1);
    lemma_run_simplify_fuel(c, inl.0, f1);
    let (e2, f2) = then_simplify(c, c.rewrite_inlining, inl.0, e1, f1);
    lemma_run_simplify_fuel(c, hoist_e(e2), f2);
    let (e3, f3) = then_simplify(c, c.rewrite_hoisting, hoist_e(e2), e2, f2);
    lemma_run_simplify_fuel(c, cse_e(Seq::empty(), e3), f3);
    let (e4, f4) = then_simplify(c, c.rewrite_cse, cse_e(Seq::empty(), e3), e3, f3);
    lemma_run_simplify_fuel(c, contify_e(e4), f4);
}

// ── Implementation ───────────────────────────────────────────────────────────

fn run_simplify(expr: Expr, config: &OptimizeConfig, fuel: &mut usize) -> (res: Expr)
    ensures
        (res@, *final(fuel)) == run_simplify_spec(*config, expr@, *old(fuel)),
{
    let ghost e0 = expr@;
    let ghost f0 = *fuel;
    let mut expr = expr;
    loop
        invariant_except_break
            run_simplify_spec(*config, e0, f0) == run_simplify_spec(*config, expr@, *fuel),
        ensures
            run_simplify_spec(*config, e0, f0) == (expr@, *fuel),
        decreases *fuel,
    {
        if *fuel == 0 {
            break;
        }
        let before = clone_expr(&expr);
        if config.simplify_dead_code {
            expr = cps_simplify::dead_code(expr);
        }
        if config.simplify_copy_propagation {
            expr = cps_simplify::copy_propagation(expr);
        }
        if config.simplify_constant_fold {
            expr = cps_simplify::constant_fold(expr);
        }
        if config.simplify_beta_contraction {
            expr = cps_simplify::beta_contraction(expr);
        }
        if config.simplify_eta_reduction {
            expr = cps_simplify::eta_reduction(expr);
        }
        assert(expr@ == simp_step(*config, before@));
        if expr_eq(&expr, &before) {
            break;
        }
        *fuel -= 1;
    }
    expr
}

fn then_simplify_exec(
    rewritten: Expr,
    config: &OptimizeConfig,
    fuel: &mut usize,
) -> (res: Expr)
    ensures
        (res@, *final(fuel)) == run_simplify_spec(*config, rewritten@, *old(fuel)),
{
    run_simplify(rewritten, config, fuel)
}

fn optimize_loop(expr: Expr, config: &OptimizeConfig, fuel: &mut usize, next: &mut usize) -> (res: Expr)
    ensures
        (res@, *final(fuel), *final(next)) == opt_loop(*config, expr@, *old(fuel), *old(next)),
{
    let ghost e0 = expr@;
    let ghost f0 = *fuel;
    let ghost n0 = *next;
    let mut expr = expr;
    let empty: GlobalFuns = Vec::new();
    assert(globals_view(empty@) =~= Seq::<(SName, SFun)>::empty());
    loop
        invariant_except_break
            opt_loop(*config, e0, f0, n0) == opt_loop(*config, expr@, *fuel, *next),
        invariant
            globals_view(empty@) == Seq::<(SName, SFun)>::empty(),
        ensures
            opt_loop(*config, e0, f0, n0) == (expr@, *fuel, *next),
        decreases *fuel,
    {
        if *fuel == 0 {
            break;
        }
        let ghost fstart = *fuel;
        let ghost nstart = *next;
        let before = clone_expr(&expr);
        expr = run_simplify(expr, config, fuel);
        if config.rewrite_inlining {
            expr = cps_rewrite::inlining_from(expr, config.inline_threshold, &empty, next);
            expr = then_simplify_exec(expr, config, fuel);
        }
        if config.rewrite_hoisting {
            expr = cps_rewrite::hoisting(expr);
            expr = then_simplify_exec(expr, config, fuel);
        }
        if config.rewrite_cse {
            expr = cps_rewrite::cse(expr);
            expr = then_simplify_exec(expr, config, fuel);
        }
        if config.rewrite_contification {
            expr = cps_rewrite::contification(expr);
            expr = then_simplify_exec(expr, config, fuel);
        }
        assert((expr@, *fuel, *next) == opt_round(*config, before@, fstart, nstart));
        if expr_eq(&expr, &before) {
            break;
        }
        proof {
            lemma_opt_round_fuel(*config, before@, fstart, nstart);
        }
        *fuel = fuel.saturating_sub(1);
    }
    expr
}

fn optimize_expr(expr: Expr, config: &OptimizeConfig, fuel: &mut usize, globals: &GlobalFuns, next: &mut usize) -> (res: Expr)
    ensures
        (res@, *final(fuel), *final(next)) == opt_expr(*config, globals_view(globals@), expr@, *old(fuel), *old(next)),
{
    let expr = if config.rewrite_inlining && globals.len() > 0 {
        let e = cps_rewrite::inlining_from(expr, config.inline_threshold, globals, next);
        run_simplify(e, config, fuel)
    } else {
        expr
    };
    optimize_loop(expr, config, fuel, next)
}

fn extract_fun(body: &Expr) -> (res: Option<(&Name, &Fun)>)
    ensures
        match res {
            Some((n, f)) => extract_fun_spec(body@) == Some((n@, f@)),
            None => extract_fun_spec(body@) is None,
        },
{
    match body {
        Expr::Letrec(name, fun, rest) => {
            let r: &Expr = rest;
            assert(body@ == SExpr::Letrec(name@, fun@, Box::new(r@)));
            match r {
                Expr::Fin(n) => {
                    assert(r@ == SExpr::Fin(n@));
                    if *n == *name {
                        Some((name, fun))
                    } else {
                        None
                    }
                },
                _ => None,
            }
        },
        _ => None,
    }
}

fn mentions_val(name: &Name, val: &Val) -> (res: bool)
    ensures
        res == mentions_v(name@, val@),
    decreases *val,
{
    match val {
        Val::Cont(cont) => {
            assert(val@ == SVal::Cont(cont@));
            assert(cont@.body == Box::new(cont.body@));
            mentions(name, &cont.body)
        },
        Val::Var(n) => *n == *name,
        Val::Ctor(t, fields) => {
            assert(val@ == SVal::Ctor(*t, names_view(fields@)));
            names_contain(fields, name)
        },
        Val::Field(n, i) => {
            assert(val@ == SVal::Field(n@, *i));
            *n == *name
        },
        Val::Prim(op, args) => {
            assert(val@ == SVal::Prim(*op, names_view(args@)));
            names_contain(args, name)
        },
        _ => false,
    }
}

fn mentions(name: &Name, expr: &Expr) -> (res: bool)
    ensures
        res == mentions_e(name@, expr@),
    decreases *expr,
{
    match expr {
        Expr::Let(_, val, body) => mentions_val(name, val) || mentions(name, body),
        Expr::Letrec(n, fun, body) => {
            assert(fun@.body == Box::new(fun.body@));
            (!(*n == *name) && mentions(name, &fun.body)) || mentions(name, body)
        },
        Expr::Encore(f, args, k) => *f == *name || names_contain(args, name) || *k == *name,
        Expr::Match(n, _, cs) => {
            let ghost cv = cases_view(cs@);
            assert(decreases_to!(*expr => *cs));
            let mut found = false;
            let mut i: usize = 0;
            while i < cs.len()
                invariant
                    i <= cs@.len(),
                    cv == cases_view(cs@),
                    decreases_to!(*expr => *cs),
                    found == mentions_cases(name@, cv.take(i as int)),
                decreases cs@.len() - i,
            {
                assert(cv.take(i + 1).drop_last() =~= cv.take(i as int));
                assert(cv[i as int] == cs@[i as int]@);
                proof {
                    assert(decreases_to!(*cs => cs@));
                    assert(decreases_to!(cs@ => cs@[i as int]));
                    assert(decreases_to!(cs@[i as int] => cs@[i as int].body));
                }
                let here = mentions(name, &cs[i].body);
                found = found || here;
                i += 1;
            }
            assert(cv.take(cs@.len() as int) =~= cv);
            *n == *name || found
        },
        Expr::Fin(n) => *n == *name,
    }
}

fn collect_global_funs(defines: &Vec<Define>, threshold: usize) -> (res: GlobalFuns)
    ensures
        globals_view(res@) == collect_globals_spec(defines_view(defines@), threshold),
{
    let ghost dv = defines_view(defines@);
    let mut globals: GlobalFuns = Vec::new();
    let mut i: usize = 0;
    assert(globals_view(globals@) =~= Seq::<(SName, SFun)>::empty());
    while i < defines.len()
        invariant
            i <= defines@.len(),
            dv == defines_view(defines@),
            globals_view(globals@) == collect_globals_spec(dv.take(i as int), threshold),
        decreases defines@.len() - i,
    {
        let d = &defines[i];
        assert(dv.take(i + 1).drop_last() =~= dv.take(i as int));
        assert(dv.take(i + 1).last() == d@);
        if let Some((inner_name, fun)) = extract_fun(&d.body) {
            assert(fun@.body == Box::new(fun.body@));
            if !mentions(inner_name, &fun.body) && cps_rewrite::expr_size(&fun.body) <= threshold {
                let ghost before = globals_view(globals@);
                globals.push((d.name.clone(), clone_fun(fun)));
                assert(globals_view(globals@) =~= before.push((d@.name, fun@)));
            }
        }
        i += 1;
    }
    assert(dv.take(defines@.len() as int) =~= dv);
    globals
}

/// Optimize every definition of a module: first the small non-recursive
/// global functions are collected, then each body is optimized with the
/// configured fuel, inlining those functions.
pub fn optimize_module(module: Module, config: OptimizeConfig) -> (res: Module)
    ensures
        res@ == opt_defines(
            config,
            collect_globals_spec(module@, config.inline_threshold),
            module@,
            0,
        ).0,
{
    let globals = collect_global_funs(&module.defines, config.inline_threshold);
    let ghost gv = globals_view(globals@);
    let ghost dv = module@;
    let mut next: usize = 0;
    let mut out: Vec<Define> = Vec::new();
    let mut rest = module.defines;
    assert(defines_view(rest@) == dv);
    assert(defines_view(out@) =~= Seq::<SDefine>::empty());
    while rest.len() > 0
        invariant
            gv == globals_view(globals@),
            opt_defines(config, gv, dv, 0).0 == defines_view(out@) + opt_defines(config, gv, defines_view(rest@), next).0,
        decreases rest@.len(),
    {
        let ghost rv = defines_view(rest@);
        let d = rest.remove(0);
        assert(defines_view(rest@) =~= rv.drop_first());
        assert(d@ == rv[0]);
        let Define { name, body } = d;
        let mut fuel = config.fuel;
        let ghost nprev = next;
        let body = optimize_expr(body, &config, &mut fuel, &globals, &mut next);
        let ghost before = defines_view(out@);
        let nd = Define { name, body };
        out.push(nd);
        assert(defines_view(out@) =~= before.push(nd@));
        let ghost tail = opt_defines(config, gv, defines_view(rest@), next).0;
        assert(opt_defines(config, gv, rv, nprev).0 == seq![nd@] + tail);
        assert(before.push(nd@) + tail =~= before + (seq![nd@] + tail));
    }
    assert(opt_defines(config, gv, defines_view(rest@), next).0 =~= Seq::<SDefine>::empty());
    assert(defines_view(out@) + Seq::<SDefine>::empty() =~= defines_view(out@));
    Module { defines: out }
}

} // verus!
