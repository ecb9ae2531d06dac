use vstd::prelude::*;
use crate::ir::cps::{Case, Cont, Expr, Fun, Name, SCase, SExpr, SName, SVal, Val, cases_view, names_view};

verus! {

// ── Specification: how often a name is mentioned ─────────────────────────────

/// Number of entries of `ns` equal to `n`.
pub open spec fn occ_ns(ns: Seq<SName>, n: SName) -> nat
    decreases ns.len(),
{
    if ns.len() == 0 {
        0
    } else {
        occ_ns(ns.drop_last(), n) + if ns.last() == n { 1nat } else { 0nat }
    }
}

/// Number of mentions of `n` in a value (binders are not mentions).
pub open spec fn occ_v(v: SVal, n: SName) -> nat
    decreases v,
{
    match v {
        SVal::Var(x) => if x == n { 1 } else { 0 },
        SVal::Cont(c) => occ_e(*c.body, n),
        SVal::Ctor(_, fs) => occ_ns(fs, n),
        SVal::Field(x, _) => if x == n { 1 } else { 0 },
        SVal::Prim(_, a) => occ_ns(a, n),
        _ => 0,
    }
}

/// Number of mentions of `n` anywhere in an expression, shadowing ignored.
pub open spec fn occ_e(e: SExpr, n: SName) -> nat
    decreases e,
{
    match e {
        SExpr::Let(_, v, b) => occ_v(v, n) + occ_e(*b, n),
        SExpr::Letrec(_, f, b) => occ_e(*f.body, n) + occ_e(*b, n),
        SExpr::Encore(f, a, k) => (if f == n { 1nat } else { 0nat }) + occ_ns(a, n) + (if k == n { 1nat } else { 0nat }),
        SExpr::Match(s, _, cs) => (if s == n { 1nat } else { 0nat }) + occ_cases(cs, n),
        SExpr::Fin(x) => if x == n { 1 } else { 0 },
    }
}

pub open spec fn occ_cases(cs: Seq<SCase>, n: SName) -> nat
    decreases cs,
{
    if cs.len() == 0 {
        0
    } else {
        occ_cases(cs.drop_last(), n) + occ_e(cs.last().body, n)
    }
}

pub open spec fn min2(x: nat) -> nat {
    if x < 2 { x } else { 2 }
}

// ── Capped counting used by the passes ──────────────────────────────────────

pub fn uses_in_names(name: &Name, ns: &Vec<Name>) -> (res: usize)
    ensures
        res == min2(occ_ns(names_view(ns@), name@)),
{
    let mut c: usize = 0;
    let mut i: usize = 0;
    while i < ns.len()
        invariant
            i <= ns@.len(),
            c == min2(occ_ns(names_view(ns@).take(i as int), name@)),
        decreases ns@.len() - i,
    {
        assert(names_view(ns@).take(i + 1).drop_last() =~= names_view(ns@).take(i as int));
        if ns[i] == *name && c < 2 {
            c += 1;
        }
        i += 1;
    }
    assert(names_view(ns@).take(ns@.len() as int) =~= names_view(ns@));
    c
}

/// `min(2, mentions of name in v)`.
pub fn uses_in_val(name: &Name, v: &Val) -> (res: usize)
    ensures
        res == min2(occ_v(v@, name@)),
    decreases *v,
{
    match v {
        Val::Var(x) => if *x == *name { 1 } else { 0 },
        Val::Cont(c) => uses_in_expr(name, &c.body),
        Val::Ctor(_, fs) => uses_in_names(name, fs),
        Val::Field(x, _) => if *x == *name { 1 } else { 0 },
        Val::Prim(_, a) => uses_in_names(name, a),
        _ => 0,
    }
}

/// `min(2, mentions of name in e)`.
pub fn uses_in_expr(name: &Name, e: &Expr) -> (res: usize)
    ensures
        res == min2(occ_e(e@, name@)),
    decreases *e,
{
    match e {
        Expr::Let(_, v, b) => {
            let x = uses_in_val(name, v);
            let y = uses_in_expr(name, b);
            assert(occ_e(e@, name@) == occ_v(v@, name@) + occ_e(b@, name@));
            if x + y < 2 { x + y } else { 2 }
        },
        Expr::Letrec(_, f, b) => {
            let x = uses_in_expr(name, &f.body);
            let y = uses_in_expr(name, b);
            assert(f@.body == Box::new(f.body@));
            assert(occ_e(e@, name@) == occ_e(f.body@, name@) + occ_e(b@, name@));
            if x + y < 2 { x + y } else { 2 }
        },
        Expr::Encore(f, a, k) => {
            let x: usize = if *f == *name { 1 } else { 0 };
            let y = uses_in_names(name, a);
            let z: usize = if *k == *name { 1 } else { 0 };
            if x + y + z < 2 { x + y + z } else { 2 }
        },
        Expr::Match(s, _, cs) => {
            let ghost cv = cases_view(cs@);
            assert(decreases_to!(*e => *cs));
            let mut c: usize = if *s == *name { 1 } else { 0 };
            let mut i: usize = 0;
            while i < cs.len()
                invariant
                    i <= cs@.len(),
                    cv == cases_view(cs@),
                    decreases_to!(*e => *cs),
                    c == min2((if s@ == name@ { 1nat } else { 0nat }) + occ_cases(cv.take(i as int), name@)),
                decreases cs@.len() - i,
            {
                assert(cv.take(i + 1).drop_last() =~= cv.take(i as int));
                assert(cv[i as int] == cs@[i as int]@);
                proof {
                    assert(decreases_to!(*cs => cs@));
                    assert(decreases_to!(cs@ => cs@[i as int]));
                    assert(decreases_to!(cs@[i as int] => cs@[i as int].body));
                }
                let y = uses_in_expr(name, &cs[i].body);
                c = if c + y < 2 { c + y } else { 2 };
                i += 1;
            }
            assert(cv.take(cs@.len() as int) =~= cv);
            c
        },
        Expr::Fin(x) => if *x == *name { 1 } else { 0 },
    }
}

// ── Census: a table of mention counts ───────────────────────────────────────

/// How often each name is mentioned; names absent from the table count zero.
pub struct Census {
    names: Vec<Name>,
    counts: Vec<usize>,
}

impl Census {
    /// The table's entries are keyed by distinct names.
    pub closed spec fn wf(&self) -> bool {
        &&& self.names@.len() == self.counts@.len()
        &&& forall|i: int, j: int|
            0 <= i < self.names@.len() && 0 <= j < self.names@.len() && i != j
                ==> self.names@[i]@ != self.names@[j]@
    }

    /// The count recorded for `n`.
    pub closed spec fn get(&self, n: SName) -> nat {
        if exists|i: int| 0 <= i < self.names@.len() && self.names@[i]@ == n {
            self.counts@[choose|i: int| 0 <= i < self.names@.len() && self.names@[i]@ == n] as nat
        } else {
            0
        }
    }

    /// The empty census.
    pub fn new() -> (res: Census)
        ensures
            res.wf(),
            forall|n: SName| res.get(n) == 0,
    {
        Census { names: Vec::new(), counts: Vec::new() }
    }

    fn find(&self, name: &Name) -> (res: Option<usize>)
        requires
            self.wf(),
        ensures
            match res {
                Some(i) => i < self.names@.len() && self.names@[i as int]@ == name@
                    && self.get(name@) == self.counts@[i as int],
                None => forall|j: int| 0 <= j < self.names@.len() ==> self.names@[j]@ != name@,
            },
            res is None ==> self.get(name@) == 0,
    {
        let mut i: usize = 0;
        while i < self.names.len()
            invariant
                self.wf(),
                i <= self.names@.len(),
                forall|j: int| 0 <= j < i ==> self.names@[j]@ != name@,
            decreases self.names@.len() - i,
        {
            if self.names[i] == *name {
                proof {
                    assert(self.names@[i as int]@ == name@);
                    let k = choose|k: int| 0 <= k < self.names@.len() && self.names@[k]@ == name@;
                    if k != i {
                        assert(self.names@[k]@ != self.names@[i as int]@);
                    }
                }
                return Some(i);
            }
            i += 1;
        }
        None
    }
}

/// Record one mention of `name`.
pub fn census_name(census: &mut Census, name: &str)
    requires
        old(census).wf(),
        old(census).get(name@) < usize::MAX,
    ensures
        final(census).wf(),
        final(census).get(name@) == old(census).get(name@) + 1,
        forall|n: SName| n != name@ ==> final(census).get(n) == old(census).get(n),
{
    let key = name.to_owned();
    add_one(census, key);
}

fn add_one(census: &mut Census, key: Name)
    requires
        old(census).wf(),
        old(census).get(key@) < usize::MAX,
    ensures
        final(census).wf(),
        final(census).get(key@) == old(census).get(key@) + 1,
        forall|n: SName| n != key@ ==> final(census).get(n) == old(census).get(n),
{
    match census.find(&key) {
        Some(i) => {
            let ghost before = *census;
            let c = census.counts[i];
            census.counts.set(i, c + 1);
            proof {
                assert forall|n: SName| n != key@ implies census.get(n) == before.get(n) by {
                    if exists|j: int| 0 <= j < census.names@.len() && census.names@[j]@ == n {
                        let j = choose|j: int| 0 <= j < census.names@.len() && census.names@[j]@ == n;
                        assert(j != i);
                    }
                }
                let k = choose|k: int| 0 <= k < census.names@.len() && census.names@[k]@ == key@;
                assert(k == i);
            }
        },
        None => {
            let ghost before = *census;
            census.names.push(key);
            census.counts.push(1);
            proof {
                let last = census.names@.len() - 1;
                assert(census.names@[last]@ == key@);
                let k = choose|k: int| 0 <= k < census.names@.len() && census.names@[k]@ == key@;
                assert(k == last);
                assert forall|n: SName| n != key@ implies census.get(n) == before.get(n) by {
                    if exists|j: int| 0 <= j < census.names@.len() && census.names@[j]@ == n {
                        let j = choose|j: int| 0 <= j < census.names@.len() && census.names@[j]@ == n;
                        assert(j < last);
                        assert(before.names@[j]@ == n);
                        let j2 = choose|j2: int| 0 <= j2 < before.names@.len() && before.names@[j2]@ == n;
                        assert(j2 == j);
                    } else {
                        assert forall|j: int| 0 <= j < before.names@.len() implies before.names@[j]@ != n by {
                            assert(census.names@[j] == before.names@[j]);
                        }
                    }
                }
            }
        },
    }
}

fn census_names(census: &mut Census, ns: &Vec<Name>)
    requires
        old(census).wf(),
        forall|n: SName| old(census).get(n) + occ_ns(names_view(ns@), n) <= usize::MAX,
    ensures
        final(census).wf(),
        forall|n: SName| #[trigger] final(census).get(n) == old(census).get(n) + occ_ns(names_view(ns@), n),
{
    let ghost start = *census;
    let mut i: usize = 0;
    while i < ns.len()
        invariant
            census.wf(),
            i <= ns@.len(),
            forall|n: SName| start.get(n) + occ_ns(names_view(ns@), n) <= usize::MAX,
            forall|n: SName| #[trigger] census.get(n) == start.get(n) + occ_ns(names_view(ns@).take(i as int), n),
        decreases ns@.len() - i,
    {
        proof {
            assert forall|n: SName| occ_ns(names_view(ns@).take(i + 1), n)
                == occ_ns(names_view(ns@).take(i as int), n) + (if ns@[i as int]@ == n { 1nat } else { 0nat }) by {
                assert(names_view(ns@).take(i + 1).drop_last() =~= names_view(ns@).take(i as int));
            }
            lemma_occ_ns_take_le(names_view(ns@), (i + 1) as int, ns@[i as int]@);
        }
        add_one(census, ns[i].clone());
        i += 1;
    }
    assert(names_view(ns@).take(ns@.len() as int) =~= names_view(ns@));
}

proof fn lemma_occ_ns_take_le(s: Seq<SName>, k: int, n: SName)
    requires
        0 <= k <= s.len(),
    ensures
        occ_ns(s.take(k), n) <= occ_ns(s, n),
    decreases s.len(),
{
    if k < s.len() {
        assert(s.drop_last().take(k) =~= s.take(k));
        lemma_occ_ns_take_le(s.drop_last(), k, n);
    } else {
        assert(s.take(k) =~= s);
    }
}

proof fn lemma_occ_cases_take_le(s: Seq<SCase>, k: int, n: SName)
    requires
        0 <= k <= s.len(),
    ensures
        occ_cases(s.take(k), n) <= occ_cases(s, n),
    decreases s.len(),
{
    if k < s.len() {
        assert(s.drop_last().take(k) =~= s.take(k));
        lemma_occ_cases_take_le(s.drop_last(), k, n);
    } else {
        assert(s.take(k) =~= s);
    }
}

/// Record every mention in a value.
pub fn census_val(census: &mut Census, val: &Val)
    requires
        old(census).wf(),
        forall|n: SName| old(census).get(n) + occ_v(val@, n) <= usize::MAX,
    ensures
        final(census).wf(),
        forall|n: SName| #[trigger] final(census).get(n) == old(census).get(n) + occ_v(val@, n),
    decreases *val,
{
    match val {
        Val::Var(x) => add_one(census, x.clone()),
        Val::Cont(c) => census_cont(census, c),
        Val::Ctor(_, fs) => census_names(census, fs),
        Val::Field(x, _) => add_one(census, x.clone()),
        Val::Prim(_, a) => census_names(census, a),
        _ => {},
    }
}

/// Record every mention in a function body.
pub fn census_fun(census: &mut Census, fun: &Fun)
    requires
        old(census).wf(),
        forall|n: SName| old(census).get(n) + occ_e(fun.body@, n) <= usize::MAX,
    ensures
        final(census).wf(),
        forall|n: SName| #[trigger] final(census).get(n) == old(census).get(n) + occ_e(fun.body@, n),
    decreases *fun,
{
    census_expr(census, &fun.body);
}

/// Record every mention in a continuation body.
pub fn census_cont(census: &mut Census, cont: &Cont)
    requires
        old(census).wf(),
        forall|n: SName| old(census).get(n) + occ_e(cont.body@, n) <= usize::MAX,
    ensures
        final(census).wf(),
        forall|n: SName| #[trigger] final(census).get(n) == old(census).get(n) + occ_e(cont.body@, n),
    decreases *cont,
{
    census_expr(census, &cont.body);
}

/// Record every mention in an expression.
pub fn census_expr(census: &mut Census, expr: &Expr)
    requires
        old(census).wf(),
        forall|n: SName| old(census).get(n) + occ_e(expr@, n) <= usize::MAX,
    ensures
        final(census).wf(),
        forall|n: SName| #[trigger] final(census).get(n) == old(census).get(n) + occ_e(expr@, n),
    decreases *expr,
{
    let ghost start = *census;
    match expr {
        Expr::Let(_, v, b) => {
            assert(forall|n: SName| occ_e(expr@, n) == occ_v(v@, n) + occ_e(b@, n));
            census_val(census, v);
            census_expr(census, b);
        },
        Expr::Letrec(_, f, b) => {
            assert(f@.body == Box::new(f.body@));
            assert(forall|n: SName| occ_e(expr@, n) == occ_e(f.body@, n) + occ_e(b@, n));
            census_fun(census, f);
            census_expr(census, b);
        },
        Expr::Encore(f, a, k) => {
            add_one(census, f.clone());
            census_names(census, a);
            add_one(census, k.clone());
        },
        Expr::Match(s, _, cs) => {
            add_one(census, s.clone());
            let ghost cv = cases_view(cs@);
            let ghost mid = *census;
            assert(decreases_to!(*expr => *cs));
            let mut i: usize = 0;
            while i < cs.len()
                invariant
                    census.wf(),
                    i <= cs@.len(),
                    cv == cases_view(cs@),
                    decreases_to!(*expr => *cs),
                    forall|n: SName| mid.get(n) + occ_cases(cv, n) <= usize::MAX,
                    forall|n: SName| #[trigger] census.get(n) == mid.get(n) + occ_cases(cv.take(i as int), n),
                decreases cs@.len() - i,
            {
                proof {
                    assert(cv.take(i + 1).drop_last() =~= cv.take(i as int));
                    assert(cv[i as int] == cs@[i as int]@);
                    assert forall|n: SName| mid.get(n) + occ_cases(cv.take(i as int), n) + occ_e(cs@[i as int].body@, n) <= usize::MAX by {
                        lemma_occ_cases_take_le(cv, i + 1, n);
                    }
                    assert(decreases_to!(*cs => cs@));
                    assert(decreases_to!(cs@ => cs@[i as int]));
                    assert(decreases_to!(cs@[i as int] => cs@[i as int].body));
                }
                census_expr(census, &cs[i].body);
                i += 1;
            }
            assert(cv.take(cs@.len() as int) =~= cv);
        },
        Expr::Fin(x) => add_one(census, x.clone()),
    }
}

/// The count recorded for `name`.
pub fn count(census: &Census, name: &str) -> (res: usize)
    requires
        census.wf(),
    ensures
        res == census.get(name@),
{
    let key = name.to_owned();
    match census.find(&key) {
        Some(i) => census.counts[i],
        None => 0,
    }
}

/// Every value may be dropped when its result is unused.
pub fn is_pure(val: &Val) -> (res: bool)
    ensures
        res == is_pure_v(val@),
{
    match val {
        Val::Var(_) | Val::Int(_) | Val::NullCont | Val::Cont(_) | Val::Extern(_) => true,
        Val::Ctor(_, _) | Val::Field(_, _) | Val::Prim(_, _) | Val::Bytes(_) => true,
    }
}

pub open spec fn is_pure_v(v: SVal) -> bool {
    true
}

} // verus!
