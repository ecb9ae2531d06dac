// Move loop-invariant bindings out of recursive functions.
//
//   fix loop = n ->               let one = 1 in
//     let one = 1 in              fix loop = n ->
//     builtin add n one    ──►      builtin add n one
//
use vstd::prelude::*;
use crate::ir::cps::{Case, Cont, Expr, Fun, Name, SCase, SCont, SExpr, SFun, SName, SVal, Val, cases_view, clone_names, names_contain, names_view};

verus! {

// ── Specification ────────────────────────────────────────────────────────────

/// Whether some element of `ns` is one of `names`.
pub open spec fn any_contained(ns: Seq<SName>, names: Seq<SName>) -> bool {
    exists|i: int| 0 <= i < ns.len() && names.contains(#[trigger] ns[i])
}

/// Whether the value reads one of `names`; a continuation always counts as
/// reading them, since its body is not inspected.
pub open spec fn val_uses_any_spec(v: SVal, names: Seq<SName>) -> bool {
    match v {
        SVal::Var(n) => names.contains(n),
        SVal::Cont(_) => true,
        SVal::Ctor(_, fs) => any_contained(fs, names),
        SVal::Field(n, _) => names.contains(n),
        SVal::Prim(_, a) => any_contained(a, names),
        _ => false,
    }
}

/// Split the chain of `let`s at the top of `e`: the bindings that read no
/// variant name are lifted out (in order); a binding that stays makes its
/// own name variant.
pub open spec fn extract_spec(e: SExpr, variant: Seq<SName>) -> (SExpr, Seq<(SName, SVal)>)
    decreases e,
{
    match e {
        SExpr::Let(n, v, b) => if val_uses_any_spec(v, variant) {
            let r = extract_spec(*b, variant.push(n));
            (SExpr::Let(n, v, Box::new(r.0)), r.1)
        } else {
            let r = extract_spec(*b, variant);
            (r.0, seq![(n, v)] + r.1)
        },
        _ => (e, Seq::empty()),
    }
}

/// `let h[0] in let h[1] in ... inner`.
pub open spec fn wrap_lets(h: Seq<(SName, SVal)>, inner: SExpr) -> SExpr
    decreases h.len(),
{
    if h.len() == 0 {
        inner
    } else {
        wrap_lets(h.drop_last(), SExpr::Let(h.last().0, h.last().1, Box::new(inner)))
    }
}

/// The names whose values change from one call of the function to the next.
pub open spec fn initial_variant(name: SName, f: SFun) -> Seq<SName> {
    seq![name] + f.args + seq![f.cont]
}

pub open spec fn hoist_e(e: SExpr) -> SExpr
    decreases e,
{
    match e {
        SExpr::Let(n, v, b) => SExpr::Let(n, hoist_v(v), Box::new(hoist_e(*b))),
        SExpr::Letrec(n, f, b) => {
            let inner = hoist_e(*f.body);
            let outer = hoist_e(*b);
            let r = extract_spec(inner, initial_variant(n, f));
            wrap_lets(
                r.1,
                SExpr::Letrec(n, SFun { args: f.args, cont: f.cont, body: Box::new(r.0) }, Box::new(outer)),
            )
        },
        SExpr::Match(s, t, cs) => SExpr::Match(
            s,
            t,
            Seq::new(
                cs.len(),
                |i: int|
                    if 0 <= i < cs.len() {
                        SCase { binds: cs[i].binds, body: hoist_e(cs[i].body) }
                    } else {
                        arbitrary()
                    },
            ),
        ),
        _ => e,
    }
}

pub open spec fn hoist_v(v: SVal) -> SVal
    decreases v,
{
    match v {
        SVal::Cont(c) => SVal::Cont(SCont { params: c.params, body: Box::new(hoist_e(*c.body)) }),
        _ => v,
    }
}

pub open spec fn binds_view(h: Seq<(Name, Val)>) -> Seq<(SName, SVal)> {
    h.map_values(|p: (Name, Val)| (p.0@, p.1@))
}

// ── Implementation ───────────────────────────────────────────────────────────

fn any_in(ns: &Vec<Name>, names: &Vec<Name>) -> (res: bool)
    ensures
        res == any_contained(names_view(ns@), names_view(names@)),
{
    let mut i: usize = 0;
    while i < ns.len()
        invariant
            i <= ns@.len(),
            forall|j: int| 0 <= j < i ==> !names_view(names@).contains(#[trigger] names_view(ns@)[j]),
        decreases ns@.len() - i,
    {
        if names_contain(names, &ns[i]) {
            assert(names_view(ns@)[i as int] == ns@[i as int]@);
            return true;
        }
        assert(names_view(ns@)[i as int] == ns@[i as int]@);
        i += 1;
    }
    false
}

fn val_uses_any(val: &Val, names: &Vec<Name>) -> (res: bool)
    ensures
        res == val_uses_any_spec(val@, names_view(names@)),
{
    let ghost nv = names_view(names@);
    match val {
        Val::Var(n) => {
            assert(val@ == SVal::Var(n@));
            let r = names_contain(names, n);
            assert(r == val_uses_any_spec(val@, nv));
            r
        },
        Val::Cont(c) => {
            assert(val@ == SVal::Cont(c@));
            true
        },
        Val::Ctor(t, fields) => {
            assert(val@ == SVal::Ctor(*t, names_view(fields@)));
            let r = any_in(fields, names);
            assert(r == val_uses_any_spec(val@, nv));
            r
        },
        Val::Field(n, i) => {
            assert(val@ == SVal::Field(n@, *i));
            names_contain(names, n)
        },
        Val::Prim(op, args) => {
            assert(val@ == SVal::Prim(*op, names_view(args@)));
            any_in(args, names)
        },
        Val::NullCont => false,
        Val::Int(_) => false,
        Val::Bytes(_) => false,
        Val::Extern(_) => false,
    }
}

fn extract_hoistable(expr: Expr, variant: Vec<Name>, hoisted: &mut Vec<(Name, Val)>) -> (res: Expr)
    ensures
        res@ == extract_spec(expr@, names_view(variant@)).0,
        binds_view(final(hoisted)@) == binds_view(old(hoisted)@) + extract_spec(expr@, names_view(variant@)).1,
    decreases expr,
{
    match expr {
        Expr::Let(name, val, body) => {
            if val_uses_any(&val, &variant) {
                let mut variant = variant;
                let ghost v0 = names_view(variant@);
                variant.push(name.clone());
                assert(names_view(variant@) =~= v0.push(name@));
                let body = extract_hoistable(*body, variant, hoisted);
                Expr::Let(name, val, Box::new(body))
            } else {
                let ghost h0 = binds_view(hoisted@);
                let ghost p = (name@, val@);
                hoisted.push((name, val));
                assert(binds_view(hoisted@) =~= h0.push(p));
                let res = extract_hoistable(*body, variant, hoisted);
                let ghost rest = extract_spec(body@, names_view(variant@)).1;
                assert(h0.push(p) + rest =~= h0 + (seq![p] + rest));
                res
            }
        },
        other => {
            assert(binds_view(hoisted@) + Seq::<(SName, SVal)>::empty() =~= binds_view(hoisted@));
            other
        },
    }
}

fn hoist_letrec(expr: Expr) -> (res: Expr)
    requires
        expr is Letrec,
    ensures
        res@ == hoist_e(expr@),
    decreases expr, 0int,
{
    let ghost e0 = expr@;
    let Expr::Letrec(name, fun, body) = expr else { return expr; };
    let ghost fv = fun@;
    let Fun { args, cont, body: fb } = fun;
    assert(decreases_to!(expr => fun));
    let inner = hoisting(*fb);
    let outer = hoisting(*body);

    let mut variant: Vec<Name> = Vec::new();
    variant.push(name.clone());
    let mut i: usize = 0;
    while i < args.len()
        invariant
            i <= args@.len(),
            names_view(variant@) == seq![name@] + names_view(args@).take(i as int),
        decreases args@.len() - i,
    {
        let ghost v0 = names_view(variant@);
        variant.push(args[i].clone());
        assert(names_view(variant@) =~= v0.push(args@[i as int]@));
        assert(names_view(args@).take(i + 1) =~= names_view(args@).take(i as int).push(args@[i as int]@));
        i += 1;
    }
    let ghost v1 = names_view(variant@);
    variant.push(cont.clone());
    assert(names_view(variant@) =~= v1.push(cont@));
    assert(names_view(args@).take(args@.len() as int) =~= names_view(args@));
    assert(names_view(variant@) =~= initial_variant(name@, fv));

    let mut hoisted: Vec<(Name, Val)> = Vec::new();
    let remaining = extract_hoistable(inner, variant, &mut hoisted);
    assert(binds_view(Seq::<(Name, Val)>::empty()) =~= Seq::<(SName, SVal)>::empty());
    let ghost h = binds_view(hoisted@);
    assert(h =~= extract_spec(hoist_e(*fv.body), initial_variant(name@, fv)).1);

    let fun = Fun { args, cont, body: Box::new(remaining) };
    assert(fun@ == SFun { args: fv.args, cont: fv.cont, body: Box::new(extract_spec(hoist_e(*fv.body), initial_variant(name@, fv)).0) });
    let mut result = Expr::Letrec(name, fun, Box::new(outer));
    assert(result@ == SExpr::Letrec(
        name@,
        SFun { args: fv.args, cont: fv.cont, body: Box::new(extract_spec(hoist_e(*fv.body), initial_variant(name@, fv)).0) },
        Box::new(hoist_e((*body)@)),
    ));
    while hoisted.len() > 0
        invariant
            wrap_lets(binds_view(hoisted@), result@) == hoist_e(e0),
        decreases hoisted@.len(),
    {
        let ghost before = binds_view(hoisted@);
        let (n, v) = hoisted.pop().unwrap();
        assert(binds_view(hoisted@) =~= before.drop_last());
        result = Expr::Let(n, v, Box::new(result));
    }
    result
}

/// Lift the loop-invariant bindings at the top of each recursive function's
/// body out in front of the function.
pub fn hoisting(expr: Expr) -> (res: Expr)
    ensures
        res@ == hoist_e(expr@),
    decreases expr, 1int,
{
    if let Expr::Letrec(..) = &expr {
        return hoist_letrec(expr);
    }
    match expr {
        Expr::Let(name, val, body) => {
            let val = hoist_val(val);
            Expr::Let(name, val, Box::new(hoisting(*body)))
        },
        Expr::Match(s, t, cs) => {
            let ghost e0 = expr;
            let ghost orig = cs@;
            let ghost cs0 = cs;
            assert(decreases_to!(expr => cs0));
            let mut rest = cs;
            let mut out: Vec<Case> = Vec::new();
            while rest.len() > 0
                invariant
                    out@.len() + rest@.len() == orig.len(),
                    rest@ == orig.subrange(out@.len() as int, orig.len() as int),
                    cs0@ == orig,
                    decreases_to!(expr => cs0),
                    forall|j: int| 0 <= j < out@.len() ==> (#[trigger] out@[j])@
                        == (SCase { binds: orig[j]@.binds, body: hoist_e(orig[j]@.body) }),
                decreases rest@.len(),
            {
                let c = rest.remove(0);
                proof {
                    let k = out@.len() as int;
                    assert(c == orig[k]);
                    assert(decreases_to!(cs0 => cs0@));
                    assert(decreases_to!(cs0@ => cs0@[k]));
                    assert(decreases_to!(cs0@[k] => cs0@[k].body));
                }
                let Case { binds, body } = c;
                out.push(Case { binds, body: hoisting(body) });
            }
            proof {
                let target = match hoist_e(e0@) {
                    SExpr::Match(_, _, x) => x,
                    _ => arbitrary(),
                };
                let cv = cases_view(orig);
                assert(e0@ == SExpr::Match(s@, t, cv));
                assert forall|i: int| 0 <= i < out@.len() implies #[trigger] cases_view(out@)[i] == target[i] by {
                    assert(cv[i] == orig[i]@);
                    assert(cases_view(out@)[i] == out@[i]@);
                }
                assert(cases_view(out@) =~= target);
            }
            Expr::Match(s, t, out)
        },
        other => other,
    }
}

fn hoist_val(val: Val) -> (res: Val)
    ensures
        res@ == hoist_v(val@),
    decreases val,
{
    match val {
        Val::Cont(c) => {
            let Cont { params, body } = c;
            Val::Cont(Cont { params, body: Box::new(hoisting(*body)) })
        },
        other => other,
    }
}

} // verus!
