// Register allocation: every name of the CPS program gets a register.
//
// Inside a function or continuation, the parameters come first (loaded from
// A1, A2, ...), then the captured values (in name order), then the globals it
// reads (in define order); each further binding takes the next free local
// register, X01 to X17.
use vstd::prelude::*;
use crate::ir::asm_ir::{self, ACase, AContLam, ADefine, AExpr, AFun, AVal, Reg, A1, CONT, NULL, SELF, X01};
use crate::ir::cps::{self, Name, SCase, SCont, SDefine, SExpr, SFun, SName, SVal, cases_view, clone_names, defines_view, names_contain, names_view};

verus! {

// ── Specification: environments ─────────────────────────────────────────────

/// Names bound to registers (the latest binding of a name wins) and the
/// number of local registers in use.
pub struct REnv {
    pub binds: Seq<(SName, Reg)>,
    pub count: nat,
}

pub open spec fn env_find(binds: Seq<(SName, Reg)>, n: SName) -> Option<Reg>
    decreases binds.len(),
{
    if binds.len() == 0 {
        None
    } else if binds.last().0 == n {
        Some(binds.last().1)
    } else {
        env_find(binds.drop_last(), n)
    }
}

/// The registers of all of `ns`, if every one is bound.
pub open spec fn find_all(binds: Seq<(SName, Reg)>, ns: Seq<SName>) -> Option<Seq<Reg>>
    decreases ns.len(),
{
    if ns.len() == 0 {
        Some(Seq::empty())
    } else {
        match (find_all(binds, ns.drop_last()), env_find(binds, ns.last())) {
            (Some(rs), Some(r)) => Some(rs.push(r)),
            _ => None,
        }
    }
}

/// The registers found for a list of names are, position by position, the
/// registers bound to those names; the list is found exactly when every
/// name is bound.
pub proof fn lemma_find_all_pointwise(binds: Seq<(SName, Reg)>, ns: Seq<SName>)
    ensures
        find_all(binds, ns) is Some <==> forall|i: int| 0 <= i < ns.len() ==> env_find(binds, #[trigger] ns[i]) is Some,
        find_all(binds, ns) matches Some(rs) ==> rs.len() == ns.len() && forall|i: int|
            0 <= i < ns.len() ==> env_find(binds, #[trigger] ns[i]) == Some(rs[i]),
    decreases ns.len(),
{
    if ns.len() > 0 {
        let p = ns.drop_last();
        lemma_find_all_pointwise(binds, p);
        let k = ns.len() - 1;
        assert forall|i: int| 0 <= i < p.len() implies #[trigger] p[i] == ns[i] by {}
        match (find_all(binds, p), env_find(binds, ns[k])) {
            (Some(rs0), Some(r)) => {
                let rs = rs0.push(r);
                assert(find_all(binds, ns) == Some(rs));
                assert forall|i: int| 0 <= i < ns.len() implies env_find(binds, #[trigger] ns[i]) == Some(rs[i]) by {
                    if i < k {
                        assert(p[i] == ns[i]);
                        assert(env_find(binds, p[i]) == Some(rs0[i]));
                    }
                }
            },
            (None, _) => {
                assert(find_all(binds, ns) is None);
                let i = choose|i: int| 0 <= i < p.len() && !(env_find(binds, #[trigger] p[i]) is Some);
                assert(p[i] == ns[i]);
            },
            (_, None) => {
                assert(find_all(binds, ns) is None);
            },
        }
    }
}

/// Seventeen local registers are available.
pub open spec fn max_locals() -> nat {
    17
}

/// Bind `n` to the next local register.
pub open spec fn bind_local_spec(env: REnv, n: SName) -> Option<(REnv, Reg)> {
    if env.count < max_locals() {
        let r = (X01 + env.count) as u8;
        Some((REnv { binds: env.binds.push((n, r)), count: env.count + 1 }, r))
    } else {
        None
    }
}

pub open spec fn bind_locals_spec(env: REnv, ns: Seq<SName>) -> Option<(REnv, Seq<Reg>)>
    decreases ns.len(),
{
    if ns.len() == 0 {
        Some((env, Seq::empty()))
    } else {
        match bind_locals_spec(env, ns.drop_last()) {
            None => None,
            Some((e1, rs)) => match bind_local_spec(e1, ns.last()) {
                None => None,
                Some((e2, r)) => Some((e2, rs.push(r))),
            },
        }
    }
}

// ── Specification: free variables ────────────────────────────────────────────

/// The entries of `ns` not in `bound`, in order.
pub open spec fn uses_spec(bound: Seq<SName>, ns: Seq<SName>) -> Seq<SName>
    decreases ns.len(),
{
    if ns.len() == 0 {
        Seq::empty()
    } else {
        let r = uses_spec(bound, ns.drop_last());
        if bound.contains(ns.last()) { r } else { r.push(ns.last()) }
    }
}

/// The free occurrences of names in `e` under the binders `bound`, in order
/// (a name may occur several times).
pub open spec fn fv_e(e: SExpr, bound: Seq<SName>) -> Seq<SName>
    decreases e,
{
    match e {
        SExpr::Let(n, v, b) => fv_v(v, bound) + fv_e(*b, bound.push(n)),
        SExpr::Letrec(n, f, b) => fv_e(*f.body, bound.push(n) + f.args + seq![f.cont]) + fv_e(*b, bound.push(n)),
        SExpr::Encore(f, a, k) => uses_spec(bound, seq![f] + a + seq![k]),
        SExpr::Match(n, _, cs) => uses_spec(bound, seq![n]) + fv_cases(cs, bound),
        SExpr::Fin(n) => uses_spec(bound, seq![n]),
    }
}

pub open spec fn fv_v(v: SVal, bound: Seq<SName>) -> Seq<SName>
    decreases v,
{
    match v {
        SVal::Var(n) => uses_spec(bound, seq![n]),
        SVal::Cont(c) => fv_e(*c.body, bound + c.params),
        SVal::Ctor(_, fs) => uses_spec(bound, fs),
        SVal::Field(n, _) => uses_spec(bound, seq![n]),
        SVal::Prim(_, a) => uses_spec(bound, a),
        _ => Seq::empty(),
    }
}

pub open spec fn fv_cases(cs: Seq<SCase>, bound: Seq<SName>) -> Seq<SName>
    decreases cs,
{
    if cs.len() == 0 {
        Seq::empty()
    } else {
        fv_cases(cs.drop_last(), bound) + fv_e(cs.last().body, bound + cs.last().binds)
    }
}

// ── Specification: captures and globals ─────────────────────────────────────

/// Strict lexicographic order on names, by character code.
pub open spec fn name_lt_from(a: SName, b: SName, i: int) -> bool
    decreases a.len() - i,
{
    if i < 0 {
        false
    } else if i >= a.len() {
        i < b.len()
    } else if i >= b.len() {
        false
    } else if a[i] != b[i] {
        (a[i] as u32) < (b[i] as u32)
    } else {
        name_lt_from(a, b, i + 1)
    }
}

pub open spec fn name_lt(a: SName, b: SName) -> bool {
    name_lt_from(a, b, 0)
}

/// Insert `x` into `s` before the first entry it precedes, unless it is met first.
pub open spec fn insert_name(s: Seq<SName>, x: SName) -> Seq<SName>
    decreases s.len(),
{
    if s.len() == 0 {
        seq![x]
    } else if x == s[0] {
        s
    } else if name_lt(x, s[0]) {
        seq![x] + s
    } else {
        seq![s[0]] + insert_name(s.drop_first(), x)
    }
}

/// The names of `s`, sorted, each once.
pub open spec fn sort_names(s: Seq<SName>) -> Seq<SName>
    decreases s.len(),
{
    if s.len() == 0 {
        Seq::empty()
    } else {
        insert_name(sort_names(s.drop_last()), s.last())
    }
}

/// The free names that are neither excluded nor globals.
pub open spec fn capture_cands(free: Seq<SName>, excl: Seq<SName>, gl: Seq<(SName, Reg)>) -> Seq<SName>
    decreases free.len(),
{
    if free.len() == 0 {
        Seq::empty()
    } else {
        let r = capture_cands(free.drop_last(), excl, gl);
        let n = free.last();
        if !excl.contains(n) && env_find(gl, n) is None { r.push(n) } else { r }
    }
}

/// No later define has the same name.
pub open spec fn live_global(gl: Seq<(SName, u8)>, i: int) -> bool {
    forall|j: int| i < j < gl.len() ==> (#[trigger] gl[j]).0 != gl[i].0
}

/// The globals among the first `k` whose names are free and not excluded, in
/// index order.
pub open spec fn used_globals_upto(gl: Seq<(SName, u8)>, free: Seq<SName>, excl: Seq<SName>, k: int) -> Seq<(SName, u8)>
    decreases k,
{
    if k <= 0 {
        Seq::empty()
    } else {
        let r = used_globals_upto(gl, free, excl, k - 1);
        let e = gl[k - 1];
        if live_global(gl, k - 1) && free.contains(e.0) && !excl.contains(e.0) { r.push(e) } else { r }
    }
}

pub open spec fn used_globals(gl: Seq<(SName, u8)>, free: Seq<SName>, excl: Seq<SName>) -> Seq<(SName, u8)> {
    used_globals_upto(gl, free, excl, gl.len() as int)
}

pub open spec fn entry_names(ug: Seq<(SName, u8)>) -> Seq<SName> {
    ug.map_values(|p: (SName, u8)| p.0)
}

// ── Specification: the prologue of a body ───────────────────────────────────

/// `let ls[0] in let ls[1] in ... body`.
pub open spec fn wrap_alets(ls: Seq<(Reg, AVal)>, body: AExpr) -> AExpr
    decreases ls.len(),
{
    if ls.len() == 0 {
        body
    } else {
        wrap_alets(ls.drop_last(), AExpr::Let(ls.last().0, ls.last().1, Box::new(body)))
    }
}

/// Parameter `i` is read from argument register `A1 + i`.
pub open spec fn param_lets(rs: Seq<Reg>) -> Seq<(Reg, AVal)> {
    Seq::new(rs.len(), |i: int| (rs[i], AVal::Reg((A1 + i) as u8)))
}

/// Capture `i` is read from slot `i` of the closure.
pub open spec fn capture_lets(rs: Seq<Reg>) -> Seq<(Reg, AVal)> {
    Seq::new(rs.len(), |i: int| (rs[i], AVal::Capture(i as u8)))
}

pub open spec fn global_lets(rs: Seq<Reg>, ug: Seq<(SName, u8)>) -> Seq<(Reg, AVal)> {
    Seq::new(rs.len(), |i: int| (rs[i], AVal::Global(ug[i].1)))
}

// ── Specification: resolution ───────────────────────────────────────────────

/// The environment a function body starts in: its continuation in CONT and
/// itself in SELF.
pub open spec fn fun_env(name: SName, f: SFun) -> REnv {
    REnv { binds: seq![(f.cont, CONT), (name, SELF)], count: 0 }
}

pub open spec fn empty_env() -> REnv {
    REnv { binds: Seq::empty(), count: 0 }
}

/// A function or continuation body: the registers it captures from `env`
/// and its resolved body with the prologue. `None` where a name is unbound or
/// more than the available local registers are needed.
pub open spec fn resolve_lambda(
    env: REnv,
    inner: REnv,
    params: Seq<SName>,
    excl: Seq<SName>,
    body: SExpr,
    gl: Seq<(SName, Reg)>,
) -> Option<(Seq<Reg>, AExpr)>
    decreases body, 1int,
{
    let free = fv_e(body, Seq::empty());
    let caps = sort_names(capture_cands(free, excl, gl));
    let ug = used_globals(gl, free, excl);
    match find_all(env.binds, caps) {
        None => None,
        Some(cap_regs) => match bind_locals_spec(inner, params) {
            None => None,
            Some((e1, pregs)) => match bind_locals_spec(e1, caps) {
                None => None,
                Some((e2, cregs)) => match bind_locals_spec(e2, entry_names(ug)) {
                    None => None,
                    Some((e3, gregs)) => match resolve_e(e3, body, gl) {
                        None => None,
                        Some(ab) => Some((
                            cap_regs,
                            wrap_alets(param_lets(pregs) + capture_lets(cregs) + global_lets(gregs, ug), ab),
                        )),
                    },
                },
            },
        },
    }
}

pub open spec fn resolve_v(env: REnv, v: SVal, gl: Seq<(SName, Reg)>) -> Option<AVal>
    decreases v, 1int,
{
    match v {
        SVal::Var(n) => match env_find(env.binds, n) {
            Some(r) => Some(AVal::Reg(r)),
            None => None,
        },
        SVal::Cont(c) => match resolve_lambda(env, empty_env(), c.params, c.params, *c.body, gl) {
            Some((caps, b)) => Some(AVal::ContLam(AContLam { captures: caps, body: Box::new(b) })),
            None => None,
        },
        SVal::Ctor(t, fs) => match find_all(env.binds, fs) {
            Some(rs) => Some(AVal::Ctor(t, rs)),
            None => None,
        },
        SVal::Field(n, i) => match env_find(env.binds, n) {
            Some(r) => Some(AVal::Field(r, i)),
            None => None,
        },
        SVal::Int(n) => Some(AVal::Int(n)),
        SVal::Bytes(b) => Some(AVal::Bytes(b)),
        SVal::Prim(op, a) => match find_all(env.binds, a) {
            Some(rs) => Some(AVal::Prim(op, rs)),
            None => None,
        },
        SVal::Extern(s) => Some(AVal::Extern(s)),
        SVal::NullCont => Some(AVal::Reg(NULL)),
    }
}

/// Register allocation keeps a value's operands in place: a variable, a
/// field access, a constructor or a primitive resolves exactly when each
/// name it reads is bound, and then to the register bound to each name, in
/// the same order, with the same operation, tag and field index.
pub proof fn lemma_resolve_v_operands(env: REnv, v: SVal, gl: Seq<(SName, Reg)>)
    ensures
        v matches SVal::Var(n) ==> resolve_v(env, v, gl) == match env_find(env.binds, n) {
            Some(r) => Some(AVal::Reg(r)),
            None => None::<AVal>,
        },
        v matches SVal::Field(n, i) ==> resolve_v(env, v, gl) == match env_find(env.binds, n) {
            Some(r) => Some(AVal::Field(r, i)),
            None => None::<AVal>,
        },
        v matches SVal::Prim(op, ns) ==> {
            &&& (resolve_v(env, v, gl) is Some <==> forall|i: int|
                0 <= i < ns.len() ==> env_find(env.binds, #[trigger] ns[i]) is Some)
            &&& resolve_v(env, v, gl) matches Some(a) ==> (a matches AVal::Prim(op2, rs) && op2 == op && rs.len()
                == ns.len() && forall|i: int| 0 <= i < ns.len() ==> env_find(env.binds, #[trigger] ns[i]) == Some(rs[i]))
        },
        v matches SVal::Ctor(t, ns) ==> {
            &&& (resolve_v(env, v, gl) is Some <==> forall|i: int|
                0 <= i < ns.len() ==> env_find(env.binds, #[trigger] ns[i]) is Some)
            &&& resolve_v(env, v, gl) matches Some(a) ==> (a matches AVal::Ctor(t2, rs) && t2 == t && rs.len()
                == ns.len() && forall|i: int| 0 <= i < ns.len() ==> env_find(env.binds, #[trigger] ns[i]) == Some(rs[i]))
        },
{
    match v {
        SVal::Prim(_, ns) => lemma_find_all_pointwise(env.binds, ns),
        SVal::Ctor(_, ns) => lemma_find_all_pointwise(env.binds, ns),
        _ => {},
    }
}

pub open spec fn resolve_e(env: REnv, e: SExpr, gl: Seq<(SName, Reg)>) -> Option<AExpr>
    decreases e, 0int,
{
    match e {
        SExpr::Let(n, v, b) => if v is NullCont {
            resolve_e(REnv { binds: env.binds.push((n, NULL)), count: env.count }, *b, gl)
        } else {
            match resolve_v(env, v, gl) {
                None => None,
                Some(av) => match bind_local_spec(env, n) {
                    None => None,
                    Some((e2, r)) => match resolve_e(e2, *b, gl) {
                        None => None,
                        Some(ab) => Some(AExpr::Let(r, av, Box::new(ab))),
                    },
                },
            }
        },
        SExpr::Letrec(n, f, b) => match resolve_lambda(env, fun_env(n, f), f.args, f.args + seq![f.cont, n], *f.body, gl) {
            None => None,
            Some((caps, fb)) => match bind_local_spec(env, n) {
                None => None,
                Some((e2, r)) => match resolve_e(e2, *b, gl) {
                    None => None,
                    Some(ab) => Some(AExpr::Letrec(r, AFun { captures: caps, body: Box::new(fb) }, Box::new(ab))),
                },
            },
        },
        SExpr::Encore(f, a, k) => match (env_find(env.binds, f), find_all(env.binds, a), env_find(env.binds, k)) {
            (Some(rf), Some(ra), Some(rk)) => Some(AExpr::Encore(rf, ra, rk)),
            _ => None,
        },
        SExpr::Match(n, t, cs) => match env_find(env.binds, n) {
            None => None,
            Some(r) => match resolve_cases(env, cs, 0, gl) {
                None => None,
                Some(acs) => Some(AExpr::Match(r, t, acs)),
            },
        },
        SExpr::Fin(n) => match env_find(env.binds, n) {
            Some(r) => Some(AExpr::Fin(r)),
            None => None,
        },
    }
}

/// Each branch binds its fields to the next local registers of the match's
/// environment.
pub open spec fn resolve_cases(env: REnv, cs: Seq<SCase>, i: int, gl: Seq<(SName, Reg)>) -> Option<Seq<ACase>>
    decreases cs, cs.len() - i,
{
    if i < 0 || i >= cs.len() {
        Some(Seq::empty())
    } else {
        match bind_locals_spec(env, cs[i].binds) {
            None => None,
            Some((e2, _)) => match resolve_e(e2, cs[i].body, gl) {
                None => None,
                Some(ab) => match resolve_cases(env, cs, i + 1, gl) {
                    None => None,
                    Some(rest) => Some(seq![ACase {
                        arity: cs[i].binds.len() as u8,
                        unpack_base: (X01 + env.count) as u8,
                        body: ab,
                    }] + rest),
                },
            },
        }
    }
}

/// Each define is global number `i`.
pub open spec fn globals_list(ds: Seq<SDefine>) -> Seq<(SName, u8)> {
    Seq::new(ds.len(), |i: int| (ds[i].name, i as u8))
}

pub open spec fn resolve_define(d: SDefine, i: int, gl: Seq<(SName, u8)>) -> Option<ADefine> {
    let free = fv_e(d.body, Seq::empty());
    let ug = used_globals(gl, free, Seq::empty());
    match bind_locals_spec(empty_env(), entry_names(ug)) {
        None => None,
        Some((e1, gregs)) => match resolve_e(e1, d.body, gl) {
            None => None,
            Some(ab) => Some(ADefine { global: i as u8, body: wrap_alets(global_lets(gregs, ug), ab) }),
        },
    }
}

pub open spec fn resolve_defines(ds: Seq<SDefine>, gl: Seq<(SName, u8)>, k: int) -> Option<Seq<ADefine>>
    decreases k,
{
    if k <= 0 {
        Some(Seq::empty())
    } else {
        match (resolve_defines(ds, gl, k - 1), resolve_define(ds[k - 1], k - 1, gl)) {
            (Some(r), Some(d)) => Some(r.push(d)),
            _ => None,
        }
    }
}

/// The resolved module; `None` where a name is unbound or a body needs more
/// local registers than there are.
pub open spec fn resolve_module_spec(ds: Seq<SDefine>) -> Option<Seq<ADefine>> {
    resolve_defines(ds, globals_list(ds), ds.len() as int)
}

// ── Implementation: environments ────────────────────────────────────────────

pub open spec fn binds_view(b: Seq<(Name, Reg)>) -> Seq<(SName, Reg)> {
    b.map_values(|p: (Name, Reg)| (p.0@, p.1))
}

/// Names bound to registers, and the number of local registers in use.
struct Env {
    binds: Vec<(Name, Reg)>,
    count: u8,
}

impl Env {
    spec fn renv(&self) -> REnv {
        REnv { binds: binds_view(self.binds@), count: self.count as nat }
    }

    spec fn wf(&self) -> bool {
        self.count <= max_locals()
    }

    fn empty() -> (res: Env)
        ensures
            res.renv() == empty_env(),
            res.wf(),
    {
        let res = Env { binds: Vec::new(), count: 0 };
        assert(binds_view(res.binds@) =~= Seq::<(SName, Reg)>::empty());
        res
    }

    fn duplicate(&self) -> (res: Env)
        ensures
            res.renv() == self.renv(),
            res.count == self.count,
    {
        let mut binds: Vec<(Name, Reg)> = Vec::new();
        let mut i: usize = 0;
        while i < self.binds.len()
            invariant
                i <= self.binds@.len(),
                binds_view(binds@) == binds_view(self.binds@).take(i as int),
            decreases self.binds@.len() - i,
        {
            let ghost before = binds_view(binds@);
            binds.push((self.binds[i].0.clone(), self.binds[i].1));
            assert(binds_view(binds@) =~= before.push(binds_view(self.binds@)[i as int]));
            assert(binds_view(self.binds@).take(i + 1) =~= binds_view(self.binds@).take(i as int).push(binds_view(self.binds@)[i as int]));
            i += 1;
        }
        assert(binds_view(self.binds@).take(self.binds@.len() as int) =~= binds_view(self.binds@));
        Env { binds, count: self.count }
    }

    fn lookup(&self, n: &Name) -> (res: Option<Reg>)
        ensures
            res == env_find(self.renv().binds, n@),
    {
        let ghost bv = binds_view(self.binds@);
        let mut i: usize = self.binds.len();
        assert(bv.take(i as int) =~= bv);
        while i > 0
            invariant
                i <= self.binds@.len(),
                bv == binds_view(self.binds@),
                env_find(bv, n@) == env_find(bv.take(i as int), n@),
            decreases i,
        {
            assert(bv.take(i as int).drop_last() =~= bv.take(i - 1));
            if self.binds[i - 1].0 == *n {
                return Some(self.binds[i - 1].1);
            }
            i -= 1;
        }
        None
    }

    fn lookup_all(&self, ns: &Vec<Name>) -> (res: Option<Vec<Reg>>)
        ensures
            match find_all(self.renv().binds, names_view(ns@)) {
                Some(rs) => res is Some && res->0@ == rs,
                None => res is None,
            },
    {
        let ghost nv = names_view(ns@);
        let mut out: Vec<Reg> = Vec::new();
        let mut i: usize = 0;
        assert(nv.take(0) =~= Seq::<SName>::empty());
        while i < ns.len()
            invariant
                i <= ns@.len(),
                nv == names_view(ns@),
                find_all(self.renv().binds, nv.take(i as int)) == Some(out@),
            decreases ns@.len() - i,
        {
            assert(nv.take(i + 1).drop_last() =~= nv.take(i as int));
            match self.lookup(&ns[i]) {
                Some(r) => {
                    out.push(r);
                },
                None => {
                    proof {
                        lemma_find_all_prefix_none(self.renv().binds, nv, i + 1);
                    }
                    return None;
                },
            }
            i += 1;
        }
        assert(nv.take(ns@.len() as int) =~= nv);
        Some(out)
    }

    fn bind(&mut self, n: Name, r: Reg)
        ensures
            final(self).renv() == (REnv { binds: old(self).renv().binds.push((n@, r)), count: old(self).renv().count }),
            final(self).count == old(self).count,
    {
        let ghost before = binds_view(self.binds@);
        self.binds.push((n, r));
        assert(binds_view(self.binds@) =~= before.push((n@, r)));
    }

    fn bind_local(&mut self, n: Name) -> (res: Option<Reg>)
        requires
            old(self).wf(),
        ensures
            final(self).wf(),
            match bind_local_spec(old(self).renv(), n@) {
                Some((e2, r)) => res == Some(r) && final(self).renv() == e2,
                None => res is None,
            },
    {
        if self.count >= 17 {
            return None;
        }
        let r = X01 + self.count;
        let ghost before = binds_view(self.binds@);
        self.binds.push((n, r));
        self.count = self.count + 1;
        assert(binds_view(self.binds@) =~= before.push((n@, r)));
        Some(r)
    }

    fn bind_locals(&mut self, ns: &Vec<Name>) -> (res: Option<Vec<Reg>>)
        requires
            old(self).wf(),
        ensures
            final(self).wf(),
            match bind_locals_spec(old(self).renv(), names_view(ns@)) {
                Some((e2, rs)) => res is Some && res->0@ == rs && final(self).renv() == e2,
                None => res is None,
            },
    {
        let ghost e0 = self.renv();
        let ghost nv = names_view(ns@);
        let mut out: Vec<Reg> = Vec::new();
        let mut i: usize = 0;
        assert(nv.take(0) =~= Seq::<SName>::empty());
        while i < ns.len()
            invariant
                i <= ns@.len(),
                nv == names_view(ns@),
                e0 == old(self).renv(),
                self.wf(),
                bind_locals_spec(e0, nv.take(i as int)) == Some((self.renv(), out@)),
            decreases ns@.len() - i,
        {
            assert(nv.take(i + 1).drop_last() =~= nv.take(i as int));
            let nm = ns[i].clone();
            assert(nm@ == nv.take(i + 1).last());
            let ghost pre = self.renv();
            match self.bind_local(nm) {
                Some(r) => {
                    out.push(r);
                },
                None => {
                    proof {
                        assert(bind_local_spec(pre, nv.take(i + 1).last()) is None);
                        assert(bind_locals_spec(e0, nv.take(i + 1)) is None);
                        lemma_bind_locals_prefix_none(e0, nv, i + 1);
                    }
                    return None;
                },
            }
            i += 1;
        }
        assert(nv.take(ns@.len() as int) =~= nv);
        Some(out)
    }
}

proof fn lemma_find_all_prefix_none(binds: Seq<(SName, Reg)>, ns: Seq<SName>, k: int)
    requires
        0 <= k <= ns.len(),
        find_all(binds, ns.take(k)) is None,
    ensures
        find_all(binds, ns) is None,
    decreases ns.len() - k,
{
    if k < ns.len() {
        assert(ns.take(k + 1).drop_last() =~= ns.take(k));
        lemma_find_all_prefix_none(binds, ns, k + 1);
    } else {
        assert(ns.take(k) =~= ns);
    }
}

proof fn lemma_bind_locals_prefix_none(env: REnv, ns: Seq<SName>, k: int)
    requires
        0 <= k <= ns.len(),
        bind_locals_spec(env, ns.take(k)) is None,
    ensures
        bind_locals_spec(env, ns) is None,
    decreases ns.len() - k,
{
    if k < ns.len() {
        assert(ns.take(k + 1).drop_last() =~= ns.take(k));
        lemma_bind_locals_prefix_none(env, ns, k + 1);
    } else {
        assert(ns.take(k) =~= ns);
    }
}

// ── Implementation: free variables ──────────────────────────────────────────

fn push_uses(bound: &Vec<Name>, ns: &Vec<Name>, out: &mut Vec<Name>)
    ensures
        names_view(final(out)@) == names_view(old(out)@) + uses_spec(names_view(bound@), names_view(ns@)),
{
    let ghost o0 = names_view(out@);
    let ghost nv = names_view(ns@);
    let ghost bv = names_view(bound@);
    let mut i: usize = 0;
    assert(nv.take(0) =~= Seq::<SName>::empty());
    assert(o0 + Seq::<SName>::empty() =~= o0);
    while i < ns.len()
        invariant
            i <= ns@.len(),
            nv == names_view(ns@),
            bv == names_view(bound@),
            names_view(out@) == o0 + uses_spec(bv, nv.take(i as int)),
        decreases ns@.len() - i,
    {
        assert(nv.take(i + 1).drop_last() =~= nv.take(i as int));
        assert(nv.take(i + 1).last() == ns@[i as int]@);
        if !names_contain(bound, &ns[i]) {
            let ghost before = names_view(out@);
            out.push(ns[i].clone());
            assert(names_view(out@) =~= before.push(ns@[i as int]@));
            assert(o0 + uses_spec(bv, nv.take(i as int)).push(ns@[i as int]@)
                =~= (o0 + uses_spec(bv, nv.take(i as int))).push(ns@[i as int]@));
        }
        i += 1;
    }
    assert(nv.take(ns@.len() as int) =~= nv);
}

fn push_use(bound: &Vec<Name>, n: &Name, out: &mut Vec<Name>)
    ensures
        names_view(final(out)@) == names_view(old(out)@) + uses_spec(names_view(bound@), seq![n@]),
{
    let one = vec![n.clone()];
    assert(names_view(one@) =~= seq![n@]);
    push_uses(bound, &one, out);
}

fn extend_names(bound: &Vec<Name>, more: &Vec<Name>) -> (res: Vec<Name>)
    ensures
        names_view(res@) == names_view(bound@) + names_view(more@),
{
    let mut res = clone_names(bound);
    let mut i: usize = 0;
    while i < more.len()
        invariant
            i <= more@.len(),
            names_view(res@) == names_view(bound@) + names_view(more@).take(i as int),
        decreases more@.len() - i,
    {
        let ghost before = names_view(res@);
        res.push(more[i].clone());
        assert(names_view(res@) =~= before.push(more@[i as int]@));
        assert(names_view(more@).take(i + 1) =~= names_view(more@).take(i as int).push(more@[i as int]@));
        i += 1;
    }
    assert(names_view(more@).take(more@.len() as int) =~= names_view(more@));
    res
}

fn with_name(bound: &Vec<Name>, n: &Name) -> (res: Vec<Name>)
    ensures
        names_view(res@) == names_view(bound@).push(n@),
{
    let mut res = clone_names(bound);
    let ghost before = names_view(res@);
    res.push(n.clone());
    assert(names_view(res@) =~= before.push(n@));
    res
}

fn free_vars_val(v: &cps::Val, bound: &Vec<Name>, out: &mut Vec<Name>)
    ensures
        names_view(final(out)@) == names_view(old(out)@) + fv_v(v@, names_view(bound@)),
    decreases *v,
{
    let ghost o0 = names_view(out@);
    match v {
        cps::Val::Var(n) => push_use(bound, n, out),
        cps::Val::Cont(c) => {
            assert(v@ == SVal::Cont(c@));
            assert(c@.body == Box::new(c.body@));
            let inner = extend_names(bound, &c.params);
            free_vars_expr(&c.body, &inner, out);
        },
        cps::Val::Ctor(t, fs) => {
            assert(v@ == SVal::Ctor(*t, names_view(fs@)));
            push_uses(bound, fs, out);
        },
        cps::Val::Field(n, i) => {
            assert(v@ == SVal::Field(n@, *i));
            push_use(bound, n, out);
        },
        cps::Val::Prim(op, a) => {
            assert(v@ == SVal::Prim(*op, names_view(a@)));
            push_uses(bound, a, out);
        },
        _ => {
            assert(o0 + Seq::<SName>::empty() =~= o0);
        },
    }
}

fn free_vars_expr(e: &cps::Expr, bound: &Vec<Name>, out: &mut Vec<Name>)
    ensures
        names_view(final(out)@) == names_view(old(out)@) + fv_e(e@, names_view(bound@)),
    decreases *e,
{
    let ghost o0 = names_view(out@);
    let ghost bv = names_view(bound@);
    match e {
        cps::Expr::Let(n, v, b) => {
            free_vars_val(v, bound, out);
            let ghost o1 = names_view(out@);
            let inner = with_name(bound, n);
            free_vars_expr(b, &inner, out);
            assert(o0 + (fv_v(v@, bv) + fv_e(b@, bv.push(n@))) =~= o1 + fv_e(b@, bv.push(n@)));
        },
        cps::Expr::Letrec(n, f, b) => {
            assert(f@.body == Box::new(f.body@));
            let inner = with_name(bound, n);
            let fb = extend_names(&inner, &f.args);
            let fb = with_name(&fb, &f.cont);
            assert(names_view(fb@) =~= bv.push(n@) + names_view(f.args@) + seq![f.cont@]);
            free_vars_expr(&f.body, &fb, out);
            let ghost o1 = names_view(out@);
            free_vars_expr(b, &inner, out);
            assert(o0 + (fv_e(*f@.body, bv.push(n@) + f@.args + seq![f@.cont]) + fv_e(b@, bv.push(n@)))
                =~= o1 + fv_e(b@, bv.push(n@)));
        },
        cps::Expr::Encore(f, a, k) => {
            let head = vec![f.clone()];
            assert(names_view(head@) =~= seq![f@]);
            let all = with_name(&extend_names(&head, a), k);
            assert(names_view(all@) =~= seq![f@] + names_view(a@) + seq![k@]);
            push_uses(bound, &all, out);
        },
        cps::Expr::Match(n, _, cs) => {
            push_use(bound, n, out);
            let ghost o1 = names_view(out@);
            let ghost cv = cases_view(cs@);
            assert(decreases_to!(*e => *cs));
            let mut i: usize = 0;
            assert(cv.take(0) =~= Seq::<SCase>::empty());
            assert(o1 + Seq::<SName>::empty() =~= o1);
            while i < cs.len()
                invariant
                    i <= cs@.len(),
                    cv == cases_view(cs@),
                    bv == names_view(bound@),
                    decreases_to!(*e => *cs),
                    names_view(out@) == o1 + fv_cases(cv.take(i as int), bv),
                decreases cs@.len() - i,
            {
                assert(cv.take(i + 1).drop_last() =~= cv.take(i as int));
                assert(cv[i as int] == cs@[i as int]@);
                proof {
                    assert(decreases_to!(*cs => cs@));
                    assert(decreases_to!(cs@ => cs@[i as int]));
                    assert(decreases_to!(cs@[i as int] => cs@[i as int].body));
                }
                let inner = extend_names(bound, &cs[i].binds);
                let ghost o2 = names_view(out@);
                free_vars_expr(&cs[i].body, &inner, out);
                assert(o1 + fv_cases(cv.take(i + 1), bv) =~= o2 + fv_e(cv[i as int].body, bv + cv[i as int].binds));
                i += 1;
            }
            assert(cv.take(cs@.len() as int) =~= cv);
            assert(o0 + (uses_spec(bv, seq![n@]) + fv_cases(cv, bv)) =~= o1 + fv_cases(cv, bv));
        },
        cps::Expr::Fin(n) => push_use(bound, n, out),
    }
}

// ── Implementation: captures and globals ────────────────────────────────────

pub(crate) fn name_less(a: &Name, b: &Name) -> (res: bool)
    ensures
        res == name_lt(a@, b@),
{
    let sa = a.as_str();
    let sb = b.as_str();
    let la = sa.unicode_len();
    let lb = sb.unicode_len();
    let mut i: usize = 0;
    while i < la && i < lb
        invariant
            la == a@.len(),
            lb == b@.len(),
            sa@ == a@,
            sb@ == b@,
            i <= la,
            i <= lb,
            name_lt(a@, b@) == name_lt_from(a@, b@, i as int),
        decreases la - i,
    {
        let ca = sa.get_char(i);
        let cb = sb.get_char(i);
        if ca != cb {
            return (ca as u32) < (cb as u32);
        }
        i += 1;
    }
    la < lb
}

proof fn lemma_insert_at(s: Seq<SName>, x: SName, j: int)
    requires
        0 <= j <= s.len(),
        forall|i: int| 0 <= i < j ==> s[i] != x && !name_lt(x, #[trigger] s[i]),
        j == s.len() || s[j] == x || name_lt(x, s[j]),
    ensures
        insert_name(s, x) == if j < s.len() && s[j] == x {
            s
        } else {
            s.take(j) + seq![x] + s.skip(j)
        },
    decreases j,
{
    if j == 0 {
        assert(s.take(0) + seq![x] + s.skip(0) =~= seq![x] + s);
    } else {
        let t = s.drop_first();
        assert forall|i: int| 0 <= i < j - 1 implies t[i] != x && !name_lt(x, #[trigger] t[i]) by {
            assert(t[i] == s[i + 1]);
        }
        lemma_insert_at(t, x, j - 1);
        if j < s.len() && s[j] == x {
            assert(seq![s[0]] + t =~= s);
        } else {
            assert(seq![s[0]] + (t.take(j - 1) + seq![x] + t.skip(j - 1)) =~= s.take(j) + seq![x] + s.skip(j));
        }
    }
}

fn insert_sorted(s: &mut Vec<Name>, x: Name)
    ensures
        names_view(final(s)@) == insert_name(names_view(old(s)@), x@),
{
    let ghost sv = names_view(s@);
    let mut j: usize = 0;
    loop
        invariant
            j <= s@.len(),
            sv == names_view(s@),
            forall|i: int| 0 <= i < j ==> sv[i] != x@ && !name_lt(x@, #[trigger] sv[i]),
        ensures
            j <= s@.len(),
            forall|i: int| 0 <= i < j ==> sv[i] != x@ && !name_lt(x@, #[trigger] sv[i]),
            j == s@.len() || sv[j as int] == x@ || name_lt(x@, sv[j as int]),
        decreases s@.len() - j,
    {
        if j >= s.len() {
            break;
        }
        assert(sv[j as int] == s@[j as int]@);
        if s[j] == x || name_less(&x, &s[j]) {
            break;
        }
        j += 1;
    }
    proof {
        lemma_insert_at(sv, x@, j as int);
    }
    if j < s.len() && s[j] == x {
        return;
    }
    s.insert(j, x);
    assert(names_view(s@) =~= sv.take(j as int) + seq![x@] + sv.skip(j as int));
}

fn sorted_names(ns: &Vec<Name>) -> (res: Vec<Name>)
    ensures
        names_view(res@) == sort_names(names_view(ns@)),
{
    let ghost nv = names_view(ns@);
    let mut out: Vec<Name> = Vec::new();
    let mut i: usize = 0;
    assert(nv.take(0) =~= Seq::<SName>::empty());
    assert(names_view(out@) =~= Seq::<SName>::empty());
    while i < ns.len()
        invariant
            i <= ns@.len(),
            nv == names_view(ns@),
            names_view(out@) == sort_names(nv.take(i as int)),
        decreases ns@.len() - i,
    {
        assert(nv.take(i + 1).drop_last() =~= nv.take(i as int));
        assert(nv.take(i + 1).last() == ns@[i as int]@);
        insert_sorted(&mut out, ns[i].clone());
        i += 1;
    }
    assert(nv.take(ns@.len() as int) =~= nv);
    out
}

pub open spec fn gl_view(gl: Seq<(Name, u8)>) -> Seq<(SName, u8)> {
    gl.map_values(|p: (Name, u8)| (p.0@, p.1))
}

fn global_index(gl: &Vec<(Name, u8)>, n: &Name) -> (res: Option<u8>)
    ensures
        res == env_find(gl_view(gl@), n@),
{
    let ghost bv = gl_view(gl@);
    let mut i: usize = gl.len();
    assert(bv.take(i as int) =~= bv);
    while i > 0
        invariant
            i <= gl@.len(),
            bv == gl_view(gl@),
            env_find(bv, n@) == env_find(bv.take(i as int), n@),
        decreases i,
    {
        assert(bv.take(i as int).drop_last() =~= bv.take(i - 1));
        if gl[i - 1].0 == *n {
            return Some(gl[i - 1].1);
        }
        i -= 1;
    }
    None
}

fn capture_candidates(free: &Vec<Name>, excl: &Vec<Name>, gl: &Vec<(Name, u8)>) -> (res: Vec<Name>)
    ensures
        names_view(res@) == capture_cands(names_view(free@), names_view(excl@), gl_view(gl@)),
{
    let ghost fv = names_view(free@);
    let mut out: Vec<Name> = Vec::new();
    let mut i: usize = 0;
    assert(fv.take(0) =~= Seq::<SName>::empty());
    assert(names_view(out@) =~= Seq::<SName>::empty());
    while i < free.len()
        invariant
            i <= free@.len(),
            fv == names_view(free@),
            names_view(out@) == capture_cands(fv.take(i as int), names_view(excl@), gl_view(gl@)),
        decreases free@.len() - i,
    {
        assert(fv.take(i + 1).drop_last() =~= fv.take(i as int));
        assert(fv.take(i + 1).last() == free@[i as int]@);
        if !names_contain(excl, &free[i]) && global_index(gl, &free[i]).is_none() {
            let ghost before = names_view(out@);
            out.push(free[i].clone());
            assert(names_view(out@) =~= before.push(free@[i as int]@));
        }
        i += 1;
    }
    assert(fv.take(free@.len() as int) =~= fv);
    out
}

fn is_live(gl: &Vec<(Name, u8)>, i: usize) -> (res: bool)
    requires
        i < gl@.len(),
    ensures
        res == live_global(gl_view(gl@), i as int),
{
    let ghost bv = gl_view(gl@);
    let n = gl.len();
    let mut j: usize = i + 1;
    while j < gl.len()
        invariant
            i < j <= gl@.len(),
            bv == gl_view(gl@),
            forall|k: int| i < k < j ==> (#[trigger] bv[k]).0 != bv[i as int].0,
        decreases gl@.len() - j,
    {
        if gl[j].0 == gl[i].0 {
            assert(bv[j as int].0 == bv[i as int].0);
            return false;
        }
        j += 1;
    }
    true
}

fn collect_used_globals(gl: &Vec<(Name, u8)>, free: &Vec<Name>, excl: &Vec<Name>) -> (res: Vec<(Name, u8)>)
    ensures
        gl_view(res@) == used_globals(gl_view(gl@), names_view(free@), names_view(excl@)),
{
    let ghost bv = gl_view(gl@);
    let mut out: Vec<(Name, u8)> = Vec::new();
    let mut i: usize = 0;
    assert(gl_view(out@) =~= Seq::<(SName, u8)>::empty());
    while i < gl.len()
        invariant
            i <= gl@.len(),
            bv == gl_view(gl@),
            gl_view(out@) == used_globals_upto(bv, names_view(free@), names_view(excl@), i as int),
        decreases gl@.len() - i,
    {
        assert(bv[i as int] == (gl@[i as int].0@, gl@[i as int].1));
        if is_live(gl, i) && names_contain(free, &gl[i].0) && !names_contain(excl, &gl[i].0) {
            let ghost before = gl_view(out@);
            out.push((gl[i].0.clone(), gl[i].1));
            assert(gl_view(out@) =~= before.push(bv[i as int]));
        }
        i += 1;
    }
    out
}

fn entry_name_list(ug: &Vec<(Name, u8)>) -> (res: Vec<Name>)
    ensures
        names_view(res@) == entry_names(gl_view(ug@)),
{
    let mut out: Vec<Name> = Vec::new();
    let mut i: usize = 0;
    while i < ug.len()
        invariant
            i <= ug@.len(),
            names_view(out@) == entry_names(gl_view(ug@)).take(i as int),
        decreases ug@.len() - i,
    {
        let ghost before = names_view(out@);
        out.push(ug[i].0.clone());
        assert(names_view(out@) =~= before.push(ug@[i as int].0@));
        assert(entry_names(gl_view(ug@)).take(i + 1) =~= entry_names(gl_view(ug@)).take(i as int).push(ug@[i as int].0@));
        i += 1;
    }
    assert(entry_names(gl_view(ug@)).take(ug@.len() as int) =~= entry_names(gl_view(ug@)));
    out
}

// ── Implementation: resolution ──────────────────────────────────────────────

proof fn lemma_bind_locals_count(env: REnv, ns: Seq<SName>)
    requires
        bind_locals_spec(env, ns) is Some,
    ensures
        (bind_locals_spec(env, ns)->0).1.len() == ns.len(),
        (bind_locals_spec(env, ns)->0).0.count == env.count + ns.len(),
    decreases ns.len(),
{
    if ns.len() > 0 {
        lemma_bind_locals_count(env, ns.drop_last());
    }
}

pub open spec fn lets_view(ls: Seq<(Reg, asm_ir::Val)>) -> Seq<(Reg, AVal)> {
    ls.map_values(|p: (Reg, asm_ir::Val)| (p.0, p.1@))
}

fn wrap_lets(lets: Vec<(Reg, asm_ir::Val)>, body: asm_ir::Expr) -> (res: asm_ir::Expr)
    ensures
        res@ == wrap_alets(lets_view(lets@), body@),
{
    let ghost l0 = lets_view(lets@);
    let ghost b0 = body@;
    let mut lets = lets;
    let mut cur = body;
    while lets.len() > 0
        invariant
            wrap_alets(l0, b0) == wrap_alets(lets_view(lets@), cur@),
        decreases lets@.len(),
    {
        let ghost before = lets_view(lets@);
        let (r, v) = lets.pop().unwrap();
        assert(lets_view(lets@) =~= before.drop_last());
        cur = asm_ir::Expr::Let(r, v, Box::new(cur));
    }
    cur
}

fn prologue(pregs: &Vec<Reg>, cregs: &Vec<Reg>, gregs: &Vec<Reg>, ug: &Vec<(Name, u8)>) -> (res: Vec<(Reg, asm_ir::Val)>)
    requires
        pregs@.len() <= 17,
        cregs@.len() <= 17,
        gregs@.len() == ug@.len(),
    ensures
        lets_view(res@) == param_lets(pregs@) + capture_lets(cregs@) + global_lets(gregs@, gl_view(ug@)),
{
    let ghost target = param_lets(pregs@) + capture_lets(cregs@) + global_lets(gregs@, gl_view(ug@));
    let mut out: Vec<(Reg, asm_ir::Val)> = Vec::new();
    let mut i: usize = 0;
    while i < pregs.len()
        invariant
            i <= pregs@.len() <= 17,
            out@.len() == i,
            forall|j: int| 0 <= j < i ==> lets_view(out@)[j] == #[trigger] param_lets(pregs@)[j],
        decreases pregs@.len() - i,
    {
        out.push((pregs[i], asm_ir::Val::Reg(A1 + i as u8)));
        i += 1;
    }
    let mut i: usize = 0;
    while i < cregs.len()
        invariant
            pregs@.len() <= 17,
            i <= cregs@.len() <= 17,
            out@.len() == pregs@.len() + i,
            forall|j: int| 0 <= j < pregs@.len() ==> lets_view(out@)[j] == #[trigger] param_lets(pregs@)[j],
            forall|j: int| 0 <= j < i ==> lets_view(out@)[pregs@.len() + j] == #[trigger] capture_lets(cregs@)[j],
        decreases cregs@.len() - i,
    {
        out.push((cregs[i], asm_ir::Val::Capture(i as u8)));
        i += 1;
    }
    let mut i: usize = 0;
    while i < gregs.len()
        invariant
            pregs@.len() <= 17,
            cregs@.len() <= 17,
            gregs@.len() == ug@.len(),
            i <= gregs@.len(),
            out@.len() == pregs@.len() + cregs@.len() + i,
            forall|j: int| 0 <= j < pregs@.len() ==> lets_view(out@)[j] == #[trigger] param_lets(pregs@)[j],
            forall|j: int| 0 <= j < cregs@.len() ==> lets_view(out@)[pregs@.len() + j] == #[trigger] capture_lets(cregs@)[j],
            forall|j: int| 0 <= j < i ==> lets_view(out@)[pregs@.len() + cregs@.len() + j]
                == #[trigger] global_lets(gregs@, gl_view(ug@))[j],
        decreases gregs@.len() - i,
    {
        out.push((gregs[i], asm_ir::Val::Global(ug[i].1)));
        i += 1;
    }
    assert forall|j: int| 0 <= j < target.len() implies lets_view(out@)[j] == target[j] by {
        if j < pregs@.len() {
            assert(lets_view(out@)[j] == param_lets(pregs@)[j]);
        } else if j < pregs@.len() + cregs@.len() {
            assert(lets_view(out@)[pregs@.len() + (j - pregs@.len())] == capture_lets(cregs@)[j - pregs@.len()]);
        } else {
            let k = j - pregs@.len() - cregs@.len();
            assert(lets_view(out@)[pregs@.len() + cregs@.len() + k] == global_lets(gregs@, gl_view(ug@))[k]);
        }
    }
    assert(lets_view(out@) =~= target);
    out
}

fn resolve_body(
    env: &Env,
    inner: Env,
    params: &Vec<Name>,
    excl: &Vec<Name>,
    body: &cps::Expr,
    gl: &Vec<(Name, u8)>,
) -> (res: Option<(Vec<Reg>, asm_ir::Expr)>)
    requires
        inner.wf(),
    ensures
        match resolve_lambda(env.renv(), inner.renv(), names_view(params@), names_view(excl@), body@, gl_view(gl@)) {
            Some((caps, ab)) => res is Some && (res->0).0@ == caps && (res->0).1@ == ab,
            None => res is None,
        },
    decreases *body, 1int,
{
    let ghost ienv = inner.renv();
    let none: Vec<Name> = Vec::new();
    assert(names_view(none@) =~= Seq::<SName>::empty());
    let mut free: Vec<Name> = Vec::new();
    free_vars_expr(body, &none, &mut free);
    assert(names_view(free@) =~= fv_e(body@, Seq::empty()));
    let cands = capture_candidates(&free, excl, gl);
    let caps = sorted_names(&cands);
    let ug = collect_used_globals(gl, &free, excl);
    let cap_regs = match env.lookup_all(&caps) {
        None => {
            return None;
        },
        Some(r) => r,
    };
    let mut inner = inner;
    let pregs = match inner.bind_locals(params) {
        None => {
            return None;
        },
        Some(r) => r,
    };
    proof {
        lemma_bind_locals_count(ienv, names_view(params@));
    }
    let ghost e1 = inner.renv();
    let cregs = match inner.bind_locals(&caps) {
        None => {
            return None;
        },
        Some(r) => r,
    };
    proof {
        lemma_bind_locals_count(e1, names_view(caps@));
    }
    let ghost e2 = inner.renv();
    let gnames = entry_name_list(&ug);
    let gregs = match inner.bind_locals(&gnames) {
        None => {
            return None;
        },
        Some(r) => r,
    };
    proof {
        lemma_bind_locals_count(e2, names_view(gnames@));
    }
    let ab = match resolve_expr(inner, body, gl) {
        None => {
            return None;
        },
        Some(b) => b,
    };
    let lets = prologue(&pregs, &cregs, &gregs, &ug);
    Some((cap_regs, wrap_lets(lets, ab)))
}

fn resolve_val(env: &Env, v: &cps::Val, gl: &Vec<(Name, u8)>) -> (res: Option<asm_ir::Val>)
    ensures
        match resolve_v(env.renv(), v@, gl_view(gl@)) {
            Some(av) => res is Some && res->0@ == av,
            None => res is None,
        },
    decreases *v, 1int,
{
    match v {
        cps::Val::Var(n) => match env.lookup(n) {
            Some(r) => Some(asm_ir::Val::Reg(r)),
            None => None,
        },
        cps::Val::Cont(c) => {
            assert(v@ == SVal::Cont(c@));
            assert(c@.body == Box::new(c.body@));
            match resolve_body(env, Env::empty(), &c.params, &c.params, &c.body, gl) {
                Some((caps, b)) => {
                    let ghost cv = caps@;
                    let ghost bv = b@;
                    let cl = asm_ir::ContLam { captures: caps, body: Box::new(b) };
                    assert(cl@ == AContLam { captures: cv, body: Box::new(bv) });
                    Some(asm_ir::Val::ContLam(cl))
                },
                None => None,
            }
        },
        cps::Val::Ctor(t, fs) => {
            assert(v@ == SVal::Ctor(*t, names_view(fs@)));
            match env.lookup_all(fs) {
                Some(rs) => Some(asm_ir::Val::Ctor(*t, rs)),
                None => None,
            }
        },
        cps::Val::Field(n, i) => {
            assert(v@ == SVal::Field(n@, *i));
            match env.lookup(n) {
                Some(r) => Some(asm_ir::Val::Field(r, *i)),
                None => None,
            }
        },
        cps::Val::Int(n) => Some(asm_ir::Val::Int(*n)),
        cps::Val::Bytes(b) => {
            assert(v@ == SVal::Bytes(b@));
            Some(asm_ir::Val::Bytes(crate::ir::cps::clone_bytes(b)))
        },
        cps::Val::Prim(op, a) => {
            assert(v@ == SVal::Prim(*op, names_view(a@)));
            match env.lookup_all(a) {
                Some(rs) => Some(asm_ir::Val::Prim(*op, rs)),
                None => None,
            }
        },
        cps::Val::Extern(s) => Some(asm_ir::Val::Extern(*s)),
        cps::Val::NullCont => Some(asm_ir::Val::Reg(NULL)),
    }
}

pub open spec fn opt_prepend(p: Seq<ACase>, o: Option<Seq<ACase>>) -> Option<Seq<ACase>> {
    match o {
        Some(r) => Some(p + r),
        None => None,
    }
}

fn resolve_expr(start: Env, e: &cps::Expr, gl: &Vec<(Name, u8)>) -> (res: Option<asm_ir::Expr>)
    requires
        start.wf(),
    ensures
        match resolve_e(start.renv(), e@, gl_view(gl@)) {
            Some(ae) => res is Some && res->0@ == ae,
            None => res is None,
        },
    decreases *e, 0int,
{
    let ghost glv = gl_view(gl@);
    let ghost e0 = start.renv();
    let mut env = start;
    match e {
        cps::Expr::Let(n, v, b) => {
            if let cps::Val::NullCont = v {
                assert(v@ == SVal::NullCont);
                assert(e@ == SExpr::Let(n@, v@, Box::new(b@)));
                env.bind(n.clone(), NULL);
                return resolve_expr(env, b, gl);
            }
            let av = match resolve_val(&env, v, gl) {
                None => {
                    return None;
                },
                Some(av) => av,
            };
            let r = match env.bind_local(n.clone()) {
                None => {
                    return None;
                },
                Some(r) => r,
            };
            match resolve_expr(env, b, gl) {
                None => None,
                Some(ab) => Some(asm_ir::Expr::Let(r, av, Box::new(ab))),
            }
        },
        cps::Expr::Letrec(n, f, b) => {
            assert(f@.body == Box::new(f.body@));
            let mut inner = Env::empty();
            inner.bind(f.cont.clone(), CONT);
            inner.bind(n.clone(), SELF);
            assert(inner.renv().binds =~= seq![(f.cont@, CONT), (n@, SELF)]);
            let mut excl = clone_names(&f.args);
            excl.push(f.cont.clone());
            excl.push(n.clone());
            assert(names_view(excl@) =~= names_view(f.args@) + seq![f.cont@, n@]);
            let (caps, fb) = match resolve_body(&env, inner, &f.args, &excl, &f.body, gl) {
                None => {
                    return None;
                },
                Some(x) => x,
            };
            let r = match env.bind_local(n.clone()) {
                None => {
                    return None;
                },
                Some(r) => r,
            };
            match resolve_expr(env, b, gl) {
                None => None,
                Some(ab) => {
                    let ghost cv = caps@;
                    let ghost fbv = fb@;
                    let af = asm_ir::Fun { captures: caps, body: Box::new(fb) };
                    assert(af@ == AFun { captures: cv, body: Box::new(fbv) });
                    Some(asm_ir::Expr::Letrec(r, af, Box::new(ab)))
                },
            }
        },
        cps::Expr::Encore(f, a, k) => {
            let rf = env.lookup(f);
            let ra = env.lookup_all(a);
            let rk = env.lookup(k);
            match (rf, ra, rk) {
                (Some(rf), Some(ra), Some(rk)) => Some(asm_ir::Expr::Encore(rf, ra, rk)),
                _ => None,
            }
        },
        cps::Expr::Match(n, t, cs) => {
            let r = match env.lookup(n) {
                None => {
                    return None;
                },
                Some(r) => r,
            };
            let ghost cv = cases_view(cs@);
            assert(e@ == SExpr::Match(n@, *t, cv));
            assert(decreases_to!(*e => *cs));
            let mut out: Vec<asm_ir::Case> = Vec::new();
            let mut i: usize = 0;
            assert(acases_view_of(out@) =~= Seq::<ACase>::empty());
            assert(Seq::<ACase>::empty() + Seq::<ACase>::empty() =~= Seq::<ACase>::empty());
            while i < cs.len()
                invariant
                    i <= cs@.len(),
                    cv == cases_view(cs@),
                    env.wf(),
                    env.renv() == e0,
                    e0 == start.renv(),
                    glv == gl_view(gl@),
                    decreases_to!(*e => *cs),
                    resolve_e(e0, e@, glv) == (match resolve_cases(e0, cv, 0, glv) {
                        None => None,
                        Some(acs) => Some(AExpr::Match(r, *t, acs)),
                    }),
                    resolve_cases(e0, cv, 0, glv) == opt_prepend(acases_view_of(out@), resolve_cases(e0, cv, i as int, glv)),
                decreases cs@.len() - i,
            {
                assert(cv[i as int] == cs@[i as int]@);
                proof {
                    assert(decreases_to!(*cs => cs@));
                    assert(decreases_to!(cs@ => cs@[i as int]));
                    assert(decreases_to!(cs@[i as int] => cs@[i as int].body));
                }
                let mut case_env = env.duplicate();
                let unpack_base = X01 + env.count;
                if case_env.bind_locals(&cs[i].binds).is_none() {
                    return None;
                }
                proof {
                    lemma_bind_locals_count(e0, cv[i as int].binds);
                }
                let ab = match resolve_expr(case_env, &cs[i].body, gl) {
                    None => {
                        return None;
                    },
                    Some(ab) => ab,
                };
                let ghost before = acases_view_of(out@);
                let c = asm_ir::Case { arity: cs[i].binds.len() as u8, unpack_base, body: ab };
                out.push(c);
                assert(acases_view_of(out@) =~= before.push(c@));
                proof {
                    let rest = resolve_cases(e0, cv, i + 1, glv);
                    if rest is Some {
                        assert(before + (seq![c@] + rest->0) =~= before.push(c@) + rest->0);
                    }
                }
                i += 1;
            }
            assert(acases_view_of(out@) + Seq::<ACase>::empty() =~= acases_view_of(out@));
            assert(acases_view_of(out@) =~= crate::ir::asm_ir::acases_view(out@)) by {
                assert forall|j: int| 0 <= j < out@.len() implies acases_view_of(out@)[j] == crate::ir::asm_ir::acases_view(out@)[j] by {}
            }
            Some(asm_ir::Expr::Match(r, *t, out))
        },
        cps::Expr::Fin(n) => match env.lookup(n) {
            Some(r) => Some(asm_ir::Expr::Fin(r)),
            None => None,
        },
    }
}

pub open spec fn acases_view_of(cs: Seq<asm_ir::Case>) -> Seq<ACase> {
    cs.map_values(|c: asm_ir::Case| c@)
}

// ── Implementation: modules ─────────────────────────────────────────────────

proof fn lemma_resolve_defines_prefix_none(ds: Seq<SDefine>, gl: Seq<(SName, u8)>, k: int)
    requires
        0 <= k <= ds.len(),
        resolve_defines(ds, gl, k) is None,
    ensures
        resolve_defines(ds, gl, ds.len() as int) is None,
    decreases ds.len() - k,
{
    if k < ds.len() {
        lemma_resolve_defines_prefix_none(ds, gl, k + 1);
    }
}

fn resolve_define_exec(d: &cps::Define, i: usize, gl: &Vec<(Name, u8)>) -> (res: Option<asm_ir::Define>)
    ensures
        match resolve_define(d@, i as int, gl_view(gl@)) {
            Some(ad) => res is Some && ad == (ADefine { global: res->0.global, body: res->0.body@ }),
            None => res is None,
        },
{
    let none: Vec<Name> = Vec::new();
    assert(names_view(none@) =~= Seq::<SName>::empty());
    let mut free: Vec<Name> = Vec::new();
    free_vars_expr(&d.body, &none, &mut free);
    assert(names_view(free@) =~= fv_e(d@.body, Seq::empty()));
    let ug = collect_used_globals(gl, &free, &none);
    let gnames = entry_name_list(&ug);
    let mut env = Env::empty();
    let gregs = match env.bind_locals(&gnames) {
        None => {
            return None;
        },
        Some(r) => r,
    };
    proof {
        lemma_bind_locals_count(empty_env(), names_view(gnames@));
    }
    let ab = match resolve_expr(env, &d.body, gl) {
        None => {
            return None;
        },
        Some(ab) => ab,
    };
    let lets = prologue(&none_regs(), &none_regs(), &gregs, &ug);
    assert(param_lets(Seq::<Reg>::empty()) + capture_lets(Seq::<Reg>::empty()) + global_lets(gregs@, gl_view(ug@))
        =~= global_lets(gregs@, gl_view(ug@)));
    let global = #[verifier::truncate] (i as u8);
    Some(asm_ir::Define { global, body: wrap_lets(lets, ab) })
}

fn none_regs() -> (res: Vec<Reg>)
    ensures
        res@ == Seq::<Reg>::empty(),
{
    Vec::new()
}

/// Allocate registers for a module, or `None` where a name is unbound or a
/// body needs more local registers than there are.
pub fn try_resolve_module(module: &cps::Module) -> (res: Option<asm_ir::Module>)
    ensures
        match resolve_module_spec(module@) {
            Some(ds) => res is Some && res->0@ == ds,
            None => res is None,
        },
{
    let ghost dv = module@;
    let mut gl: Vec<(Name, u8)> = Vec::new();
    let mut i: usize = 0;
    while i < module.defines.len()
        invariant
            i <= module.defines@.len(),
            dv == defines_view(module.defines@),
            gl_view(gl@) == globals_list(dv).take(i as int),
        decreases module.defines@.len() - i,
    {
        let idx = #[verifier::truncate] (i as u8);
        assert(dv[i as int].name == module.defines@[i as int].name@);
        let ghost before = gl_view(gl@);
        gl.push((module.defines[i].name.clone(), idx));
        assert(gl_view(gl@) =~= before.push(globals_list(dv)[i as int]));
        assert(globals_list(dv).take(i + 1) =~= globals_list(dv).take(i as int).push(globals_list(dv)[i as int]));
        i += 1;
    }
    assert(globals_list(dv).take(dv.len() as int) =~= globals_list(dv));
    let ghost glv = gl_view(gl@);
    let mut out: Vec<asm_ir::Define> = Vec::new();
    let mut i: usize = 0;
    assert(asm_ir::adefines_view(out@) =~= Seq::<ADefine>::empty());
    while i < module.defines.len()
        invariant
            i <= module.defines@.len(),
            dv == defines_view(module.defines@),
            glv == gl_view(gl@),
            glv == globals_list(dv),
            resolve_defines(dv, glv, i as int) == Some(asm_ir::adefines_view(out@)),
        decreases module.defines@.len() - i,
    {
        assert(dv[i as int] == module.defines@[i as int]@);
        match resolve_define_exec(&module.defines[i], i, &gl) {
            None => {
                proof {
                    lemma_resolve_defines_prefix_none(dv, glv, i + 1);
                }
                return None;
            },
            Some(d) => {
                let ghost before = asm_ir::adefines_view(out@);
                let ghost dd = ADefine { global: d.global, body: d.body@ };
                out.push(d);
                assert(asm_ir::adefines_view(out@) =~= before.push(dd));
            },
        }
        i += 1;
    }
    Some(asm_ir::Module { defines: out })
}

/// Allocate registers for a module whose names are all bound and whose bodies
/// fit in the local registers.
pub fn resolve_module(module: &cps::Module) -> (res: asm_ir::Module)
    requires
        resolve_module_spec(module@) is Some,
    ensures
        res@ == resolve_module_spec(module@)->0,
{
    match try_resolve_module(module) {
        Some(m) => m,
        None => asm_ir::Module { defines: Vec::new() },
    }
}

} // verus!
