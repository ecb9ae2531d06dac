// Register sinking: a local that is only passed on as one argument of the
// final call (or returned) is computed directly into its argument register,
// saving a move.
use vstd::prelude::*;
use crate::ir::asm_ir::{self, ACase, ADefine, AExpr, AFun, AVal, Case, Expr, Fun, Reg, Val, A1, X01, acases_view, adefines_view, encores_fit};

verus! {

// ── Specification ────────────────────────────────────────────────────────────

pub open spec fn val_reads_spec(v: AVal, r: Reg) -> bool
    decreases v,
{
    match v {
        AVal::Reg(x) => x == r,
        AVal::ContLam(c) => expr_reads_spec(*c.body, r),
        AVal::Ctor(_, fs) => fs.contains(r),
        AVal::Field(x, _) => x == r,
        AVal::Prim(_, rs) => rs.contains(r),
        _ => false,
    }
}

/// Whether `r` is read before being overwritten.
pub open spec fn expr_reads_spec(e: AExpr, r: Reg) -> bool
    decreases e,
{
    match e {
        AExpr::Let(rd, v, b) => val_reads_spec(v, r) || (rd != r && expr_reads_spec(*b, r)),
        AExpr::Letrec(rd, f, b) => expr_reads_spec(*f.body, r) || (rd != r && expr_reads_spec(*b, r)),
        AExpr::Encore(rf, a, rk) => rf == r || rk == r || a.contains(r),
        AExpr::Match(rs, _, cs) => rs == r || exists|i: int| 0 <= i < cs.len() && expr_reads_spec(#[trigger] cs[i].body, r),
        AExpr::Fin(x) => x == r,
    }
}

/// Number of entries of `rs` equal to `r`.
pub open spec fn count_reg(rs: Seq<Reg>, r: Reg) -> nat
    decreases rs.len(),
{
    if rs.len() == 0 {
        0
    } else {
        count_reg(rs.drop_last(), r) + if rs.last() == r { 1nat } else { 0nat }
    }
}

/// The register that `rd` can be computed into instead, if any.
pub open spec fn sink_target_spec(rd: Reg, v: AVal, body: AExpr) -> Option<Reg> {
    if rd < X01 {
        None
    } else {
        match body {
            AExpr::Fin(r) => if r == rd && !val_reads_spec(v, A1) { Some(A1) } else { None },
            AExpr::Encore(rf, a, rk) => if rf == rd || rk == rd || count_reg(a, rd) != 1 {
                None
            } else {
                let p = choose|p: int| 0 <= p < a.len() && a[p] == rd;
                let t = (A1 + p) as u8;
                if val_reads_spec(v, t) || exists|i: int| 0 <= i < a.len() && i != p && a[i] == t {
                    None
                } else {
                    Some(t)
                }
            },
            _ => None,
        }
    }
}

pub open spec fn subst_reg(r: Reg, from: Reg, to: Reg) -> Reg {
    if r == from { to } else { r }
}

pub open spec fn subst_regs(rs: Seq<Reg>, from: Reg, to: Reg) -> Seq<Reg> {
    rs.map_values(|r: Reg| subst_reg(r, from, to))
}

pub open spec fn rewrite_val_spec(v: AVal, from: Reg, to: Reg) -> AVal {
    match v {
        AVal::Reg(r) => AVal::Reg(subst_reg(r, from, to)),
        AVal::Ctor(t, fs) => AVal::Ctor(t, subst_regs(fs, from, to)),
        AVal::Field(r, i) => AVal::Field(subst_reg(r, from, to), i),
        AVal::Prim(op, rs) => AVal::Prim(op, subst_regs(rs, from, to)),
        _ => v,
    }
}

/// Only a final call or result is rewritten.
pub open spec fn rewrite_expr_spec(e: AExpr, from: Reg, to: Reg) -> AExpr {
    match e {
        AExpr::Encore(rf, a, rk) => AExpr::Encore(subst_reg(rf, from, to), subst_regs(a, from, to), subst_reg(rk, from, to)),
        AExpr::Fin(r) => AExpr::Fin(subst_reg(r, from, to)),
        _ => e,
    }
}

pub open spec fn peep_e(e: AExpr) -> AExpr
    decreases e,
{
    match e {
        AExpr::Let(rd, v, b) => {
            let b2 = peep_e(*b);
            match sink_target_spec(rd, v, b2) {
                Some(t) => AExpr::Let(t, rewrite_val_spec(v, rd, t), Box::new(rewrite_expr_spec(b2, rd, t))),
                None => AExpr::Let(rd, v, Box::new(b2)),
            }
        },
        AExpr::Letrec(rd, f, b) => AExpr::Letrec(rd, AFun { captures: f.captures, body: Box::new(peep_e(*f.body)) }, Box::new(peep_e(*b))),
        AExpr::Match(rs, t, cs) => AExpr::Match(
            rs,
            t,
            Seq::new(
                cs.len(),
                |i: int|
                    if 0 <= i < cs.len() {
                        ACase { arity: cs[i].arity, unpack_base: cs[i].unpack_base, body: peep_e(cs[i].body) }
                    } else {
                        arbitrary()
                    },
            ),
        ),
        _ => e,
    }
}

// ── Implementation ───────────────────────────────────────────────────────────

fn regs_contain(rs: &Vec<Reg>, r: Reg) -> (res: bool)
    ensures
        res == rs@.contains(r),
{
    let mut i: usize = 0;
    while i < rs.len()
        invariant
            i <= rs@.len(),
            forall|j: int| 0 <= j < i ==> rs@[j] != r,
        decreases rs@.len() - i,
    {
        if rs[i] == r {
            assert(rs@[i as int] == r);
            return true;
        }
        i += 1;
    }
    false
}

fn val_reads(v: &Val, r: Reg) -> (res: bool)
    ensures
        res == val_reads_spec(v@, r),
    decreases *v,
{
    match v {
        Val::Reg(x) => *x == r,
        Val::ContLam(c) => {
            assert(v@ == AVal::ContLam(c@));
            assert(c@.body == Box::new(c.body@));
            expr_reads(&c.body, r)
        },
        Val::Ctor(t, fs) => {
            assert(v@ == AVal::Ctor(*t, fs@));
            regs_contain(fs, r)
        },
        Val::Field(x, i) => {
            assert(v@ == AVal::Field(*x, *i));
            *x == r
        },
        Val::Prim(op, rs) => {
            assert(v@ == AVal::Prim(*op, rs@));
            regs_contain(rs, r)
        },
        _ => false,
    }
}

fn expr_reads(e: &Expr, r: Reg) -> (res: bool)
    ensures
        res == expr_reads_spec(e@, r),
    decreases *e,
{
    match e {
        Expr::Let(rd, v, b) => val_reads(v, r) || (*rd != r && expr_reads(b, r)),
        Expr::Letrec(rd, f, b) => {
            assert(f@.body == Box::new(f.body@));
            expr_reads(&f.body, r) || (*rd != r && expr_reads(b, r))
        },
        Expr::Encore(rf, a, rk) => *rf == r || *rk == r || regs_contain(a, r),
        Expr::Match(rs, base, cs) => {
            if *rs == r {
                return true;
            }
            let ghost cv = acases_view(cs@);
            assert(e@ == AExpr::Match(*rs, *base, cv));
            assert(decreases_to!(*e => *cs));
            let mut i: usize = 0;
            while i < cs.len()
                invariant
                    i <= cs@.len(),
                    cv == acases_view(cs@),
                    e@ == AExpr::Match(*rs, *base, cv),
                    *rs != r,
                    decreases_to!(*e => *cs),
                    forall|j: int| 0 <= j < i ==> !expr_reads_spec(#[trigger] cv[j].body, r),
                decreases cs@.len() - i,
            {
                assert(cv[i as int] == cs@[i as int]@);
                proof {
                    assert(decreases_to!(*cs => cs@));
                    assert(decreases_to!(cs@ => cs@[i as int]));
                    assert(decreases_to!(cs@[i as int] => cs@[i as int].body));
                }
                if expr_reads(&cs[i].body, r) {
                    assert(expr_reads_spec(cv[i as int].body, r));
                    return true;
                }
                i += 1;
            }
            false
        },
        Expr::Fin(x) => *x == r,
    }
}

proof fn lemma_count_reg_unique(rs: Seq<Reg>, r: Reg, p: int)
    requires
        0 <= p < rs.len(),
        rs[p] == r,
        forall|j: int| 0 <= j < rs.len() && j != p ==> rs[j] != r,
    ensures
        count_reg(rs, r) == 1,
    decreases rs.len(),
{
    if p < rs.len() - 1 {
        lemma_count_reg_unique(rs.drop_last(), r, p);
    } else {
        lemma_count_reg_none(rs.drop_last(), r);
    }
}

proof fn lemma_count_reg_none(rs: Seq<Reg>, r: Reg)
    requires
        forall|j: int| 0 <= j < rs.len() ==> rs[j] != r,
    ensures
        count_reg(rs, r) == 0,
    decreases rs.len(),
{
    if rs.len() > 0 {
        lemma_count_reg_none(rs.drop_last(), r);
    }
}

proof fn lemma_count_reg_two(rs: Seq<Reg>, r: Reg, p: int, q: int)
    requires
        0 <= p < q < rs.len(),
        rs[p] == r,
        rs[q] == r,
    ensures
        count_reg(rs, r) >= 2,
    decreases rs.len(),
{
    if q < rs.len() - 1 {
        lemma_count_reg_two(rs.drop_last(), r, p, q);
    } else {
        lemma_count_reg_pos(rs.drop_last(), r, p);
    }
}

proof fn lemma_count_reg_pos(rs: Seq<Reg>, r: Reg, p: int)
    requires
        0 <= p < rs.len(),
        rs[p] == r,
    ensures
        count_reg(rs, r) >= 1,
    decreases rs.len(),
{
    if p < rs.len() - 1 {
        lemma_count_reg_pos(rs.drop_last(), r, p);
    }
}

fn sink_target(rd: Reg, v: &Val, body: &Expr) -> (res: Option<Reg>)
    requires
        encores_fit(body@),
    ensures
        res == sink_target_spec(rd, v@, body@),
{
    if rd < X01 {
        return None;
    }
    match body {
        Expr::Fin(r) => {
            if *r == rd && !val_reads(v, A1) {
                Some(A1)
            } else {
                None
            }
        },
        Expr::Encore(rf, a, rk) => {
            assert(body@ == AExpr::Encore(*rf, a@, *rk));
            if *rf == rd || *rk == rd {
                return None;
            }
            // the one position of `rd` among the arguments
            let mut pos: Option<usize> = None;
            let mut i: usize = 0;
            while i < a.len()
                invariant
                    i <= a@.len(),
                    body@ == AExpr::Encore(*rf, a@, *rk),
                    rd >= X01,
                    *rf != rd,
                    *rk != rd,
                    match pos {
                        None => forall|j: int| 0 <= j < i ==> a@[j] != rd,
                        Some(p) => p < i && a@[p as int] == rd && forall|j: int| 0 <= j < i && j != p ==> a@[j] != rd,
                    },
                decreases a@.len() - i,
            {
                if a[i] == rd {
                    match pos {
                        None => {
                            pos = Some(i);
                        },
                        Some(p) => {
                            proof {
                                lemma_count_reg_two(a@, rd, p as int, i as int);
                            }
                            return None;
                        },
                    }
                }
                i += 1;
            }
            let p = match pos {
                None => {
                    proof {
                        lemma_count_reg_none(a@, rd);
                    }
                    return None;
                },
                Some(p) => p,
            };
            proof {
                lemma_count_reg_unique(a@, rd, p as int);
                let pc = choose|q: int| 0 <= q < a@.len() && a@[q] == rd;
                assert(0 <= p < a@.len() && a@[p as int] == rd);
                assert(pc == p);
            }
            assert(p < 254);
            let t = A1 + p as u8;
            if val_reads(v, t) {
                return None;
            }
            assert(sink_target_spec(rd, v@, body@) == (if exists|i: int| 0 <= i < a@.len() && i != p && a@[i] == t {
                None
            } else {
                Some(t)
            }));
            let mut j: usize = 0;
            while j < a.len()
                invariant
                    j <= a@.len(),
                    sink_target_spec(rd, v@, body@) == (if exists|i: int| 0 <= i < a@.len() && i != p && a@[i] == t {
                        None
                    } else {
                        Some(t)
                    }),
                    forall|k: int| 0 <= k < j && k != p ==> a@[k] != t,
                decreases a@.len() - j,
            {
                if j != p && a[j] == t {
                    assert(0 <= j < a@.len() && j != p && a@[j as int] == t);
                    return None;
                }
                j += 1;
            }
            Some(t)
        },
        _ => None,
    }
}

fn subst_reg_exec(r: Reg, from: Reg, to: Reg) -> (res: Reg)
    ensures
        res == subst_reg(r, from, to),
{
    if r == from { to } else { r }
}

fn subst_regs_exec(rs: Vec<Reg>, from: Reg, to: Reg) -> (res: Vec<Reg>)
    ensures
        res@ == subst_regs(rs@, from, to),
{
    let mut out: Vec<Reg> = Vec::new();
    let mut i: usize = 0;
    while i < rs.len()
        invariant
            i <= rs@.len(),
            out@ == subst_regs(rs@, from, to).take(i as int),
        decreases rs@.len() - i,
    {
        out.push(subst_reg_exec(rs[i], from, to));
        assert(out@ =~= subst_regs(rs@, from, to).take(i + 1));
        i += 1;
    }
    assert(subst_regs(rs@, from, to).take(rs@.len() as int) =~= subst_regs(rs@, from, to));
    out
}

fn rewrite_val_reg(v: Val, from: Reg, to: Reg) -> (res: Val)
    ensures
        res@ == rewrite_val_spec(v@, from, to),
{
    match v {
        Val::Reg(r) => Val::Reg(subst_reg_exec(r, from, to)),
        Val::Ctor(t, fs) => Val::Ctor(t, subst_regs_exec(fs, from, to)),
        Val::Field(r, i) => Val::Field(subst_reg_exec(r, from, to), i),
        Val::Prim(op, rs) => Val::Prim(op, subst_regs_exec(rs, from, to)),
        other => other,
    }
}

fn rewrite_expr_reg(e: Expr, from: Reg, to: Reg) -> (res: Expr)
    ensures
        res@ == rewrite_expr_spec(e@, from, to),
{
    match e {
        Expr::Encore(rf, a, rk) => Expr::Encore(subst_reg_exec(rf, from, to), subst_regs_exec(a, from, to), subst_reg_exec(rk, from, to)),
        Expr::Fin(r) => Expr::Fin(subst_reg_exec(r, from, to)),
        other => other,
    }
}

proof fn lemma_peep_keeps_calls(e: AExpr)
    ensures
        peep_e(e) is Encore ==> peep_e(e) == e,
{
}

fn optimize_expr(e: Expr) -> (res: Expr)
    requires
        encores_fit(e@),
    ensures
        res@ == peep_e(e@),
    decreases e,
{
    match e {
        Expr::Let(rd, v, b) => {
            let b2 = optimize_expr(*b);
            proof {
                lemma_peep_keeps_calls((*b)@);
            }
            match sink_target_fit(rd, &v, &b2) {
                Some(t) => {
                    let v2 = rewrite_val_reg(v, rd, t);
                    Expr::Let(t, v2, Box::new(rewrite_expr_reg(b2, rd, t)))
                },
                None => Expr::Let(rd, v, Box::new(b2)),
            }
        },
        Expr::Letrec(rd, f, b) => {
            let ghost fv = f@;
            let Fun { captures, body } = f;
            let nf = Fun { captures, body: Box::new(optimize_expr(*body)) };
            assert(nf@ == AFun { captures: fv.captures, body: Box::new(peep_e(*fv.body)) });
            Expr::Letrec(rd, nf, Box::new(optimize_expr(*b)))
        },
        Expr::Match(rs, t, cs) => {
            let ghost e0 = e;
            let ghost orig = cs@;
            let ghost cs0 = cs;
            assert(decreases_to!(e => cs0));
            let mut rest = cs;
            let mut out: Vec<Case> = Vec::new();
            while rest.len() > 0
                invariant
                    out@.len() + rest@.len() == orig.len(),
                    rest@ == orig.subrange(out@.len() as int, orig.len() as int),
                    cs0@ == orig,
                    decreases_to!(e => cs0),
                    encores_fit(e0@),
                    e0@ == AExpr::Match(rs, t, acases_view(orig)),
                    forall|j: int| 0 <= j < out@.len() ==> (#[trigger] out@[j])@ == (ACase {
                        arity: orig[j]@.arity,
                        unpack_base: orig[j]@.unpack_base,
                        body: peep_e(orig[j]@.body),
                    }),
                decreases rest@.len(),
            {
                let c = rest.remove(0);
                proof {
                    let k = out@.len() as int;
                    assert(c == orig[k]);
                    assert(acases_view(orig)[k] == orig[k]@);
                    assert(encores_fit(acases_view(orig)[k].body));
                    assert(decreases_to!(cs0 => cs0@));
                    assert(decreases_to!(cs0@ => cs0@[k]));
                    assert(decreases_to!(cs0@[k] => cs0@[k].body));
                }
                let Case { arity, unpack_base, body } = c;
                out.push(Case { arity, unpack_base, body: optimize_expr(body) });
            }
            proof {
                let target = match peep_e(e0@) {
                    AExpr::Match(_, _, x) => x,
                    _ => arbitrary(),
                };
                let cv = acases_view(orig);
                assert forall|i: int| 0 <= i < out@.len() implies #[trigger] acases_view(out@)[i] == target[i] by {
                    assert(cv[i] == orig[i]@);
                    assert(acases_view(out@)[i] == out@[i]@);
                }
                assert(acases_view(out@) =~= target);
            }
            Expr::Match(rs, t, out)
        },
        other => other,
    }
}

fn sink_target_fit(rd: Reg, v: &Val, body: &Expr) -> (res: Option<Reg>)
    requires
        body@ is Encore ==> encores_fit(body@),
    ensures
        res == sink_target_spec(rd, v@, body@),
{
    match body {
        Expr::Encore(_, _, _) => sink_target(rd, v, body),
        Expr::Fin(r) => {
            if rd >= X01 && *r == rd && !val_reads(v, A1) {
                Some(A1)
            } else {
                None
            }
        },
        _ => None,
    }
}

pub open spec fn module_fits(ds: Seq<ADefine>) -> bool {
    forall|i: int| 0 <= i < ds.len() ==> encores_fit(#[trigger] ds[i].body)
}

/// Sink the registers of every define, each call passing at most 254 arguments.
pub fn optimize_module(module: asm_ir::Module) -> (res: asm_ir::Module)
    requires
        module_fits(module@),
    ensures
        res@ == module@.map_values(|d: ADefine| ADefine { global: d.global, body: peep_e(d.body) }),
{
    let ghost dv = module@;
    let mut rest = module.defines;
    let mut out: Vec<asm_ir::Define> = Vec::new();
    while rest.len() > 0
        invariant
            out@.len() + rest@.len() == dv.len(),
            adefines_view(rest@) == dv.skip(out@.len() as int),
            module_fits(dv),
            forall|j: int| 0 <= j < out@.len() ==> (ADefine { global: (#[trigger] out@[j]).global, body: out@[j].body@ })
                == (ADefine { global: dv[j].global, body: peep_e(dv[j].body) }),
        decreases rest@.len(),
    {
        let ghost k = out@.len() as int;
        let ghost rv = adefines_view(rest@);
        let d = rest.remove(0);
        assert(adefines_view(rest@) =~= rv.drop_first());
        assert(rv.drop_first() =~= dv.skip(k + 1));
        assert(rv[0] == (ADefine { global: d.global, body: d.body@ }));
        assert(dv.skip(k)[0] == dv[k]);
        assert(encores_fit(dv[k].body));
        let body = optimize_expr(d.body);
        out.push(asm_ir::Define { global: d.global, body });
    }
    let res = asm_ir::Module { defines: out };
    assert(res@ =~= dv.map_values(|d: ADefine| ADefine { global: d.global, body: peep_e(d.body) }));
    res
}

} // verus!
