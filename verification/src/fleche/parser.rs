// The Fleche parser: data declarations, which fill the constructor registry,
// and definitions, read by recursive descent into direct-style expressions.
// What each function gives is the matching function of `grammar`.
use vstd::prelude::*;
use crate::disasm::{decimal_string, join, text};
use crate::fleche::grammar::{
    PR, PState, build_match, builtin_op, case_for, fold_destructs,
    fold_ifs, fold_lambdas, fold_lets, if_match, is_atom_start, min_tag, missing_names, p_app, p_app_args, p_atom,
    p_atoms, p_builtin, p_cases, p_ctor, p_ctor_binding, p_data, p_define, p_destructs, p_expr, p_field, p_fields,
    p_if, p_if_binds, p_let, p_let_binds, p_match, p_module, p_more_binds, p_paren_binds, p_params, p_variant,
    p_variants, stuck_text, tag_pos, underscores,
};
use crate::fleche::lexer::{Lexer, LexerV, Token, lex_ok, mark_of, token_text};
use crate::frontend::{
    BuiltinCtors, CtorRegistry, builtins_known, lemma_builtins_known_at_start, lemma_resolve_keeps_builtins, ParseError, RegistryV, builtin_entries, find_ctor, has_name,
    lemma_first_named_unique, name_with_tag, names_sorted, of_type, sort_by_tag, insert_by_tag,
};
use crate::ir::cps::clone_names;
use crate::ir::ds::{
    self, Case, DCase, DDefine, DExpr, DName, Expr, Name, clone_dexpr, dcase_view, dexprs_view, dnames_view,
    ddefines_view,
};
use crate::ir::prim::{BytesOp, IntOp, PrimOp};
use crate::pass::cps_rewrite::rewrite_01_inlining::decimal;
use vstd::string::{StrSliceExecFns, StringExecFns};

verus! {

// ── Lemmas ────────────────────────────────────────────────────────────────────

proof fn lemma_insert_by_tag_members(r: Seq<(u8, u8)>, x: (u8, u8))
    ensures
        insert_by_tag(r, x).len() == r.len() + 1,
        insert_by_tag(r, x).contains(x),
        forall|y: (u8, u8)| r.contains(y) ==> insert_by_tag(r, x).contains(y),
        forall|y: (u8, u8)| insert_by_tag(r, x).contains(y) ==> y == x || r.contains(y),
    decreases r.len(),
{
    if r.len() == 0 {
        assert(insert_by_tag(r, x) =~= seq![x]);
        assert(insert_by_tag(r, x)[0] == x);
    } else if r.last().0 <= x.0 {
        let t = r.push(x);
        assert(t[r.len() as int] == x);
        assert forall|y: (u8, u8)| r.contains(y) implies t.contains(y) by {
            let k = choose|k: int| 0 <= k < r.len() && r[k] == y;
            assert(t[k] == y);
        }
        assert forall|y: (u8, u8)| t.contains(y) implies y == x || r.contains(y) by {
            let k = choose|k: int| 0 <= k < t.len() && t[k] == y;
            if k < r.len() {
                assert(r[k] == y);
            }
        }
    } else {
        let d = r.drop_last();
        lemma_insert_by_tag_members(d, x);
        let u = insert_by_tag(d, x);
        let t = u.push(r.last());
        assert(insert_by_tag(r, x) == t);
        let kx = choose|k: int| 0 <= k < u.len() && u[k] == x;
        assert(t[kx] == x);
        assert(t[u.len() as int] == r.last());
        assert forall|y: (u8, u8)| r.contains(y) implies t.contains(y) by {
            let k = choose|k: int| 0 <= k < r.len() && r[k] == y;
            if k < r.len() - 1 {
                assert(d[k] == y);
                assert(d.contains(y));
                let j = choose|j: int| 0 <= j < u.len() && u[j] == y;
                assert(t[j] == y);
            }
        }
        assert forall|y: (u8, u8)| t.contains(y) implies y == x || r.contains(y) by {
            let k = choose|k: int| 0 <= k < t.len() && t[k] == y;
            if k < u.len() {
                assert(u[k] == y);
                assert(u.contains(y));
                if y != x {
                    assert(d.contains(y));
                    let j = choose|j: int| 0 <= j < d.len() && d[j] == y;
                    assert(r[j] == y);
                }
            } else {
                assert(r[r.len() - 1] == y);
            }
        }
    }
}

/// Sorting by tag keeps exactly the entries it was given.
pub proof fn lemma_sort_by_tag_members(r: Seq<(u8, u8)>)
    ensures
        forall|y: (u8, u8)| #[trigger] sort_by_tag(r).contains(y) <==> r.contains(y),
    decreases r.len(),
{
    if r.len() > 0 {
        let d = r.drop_last();
        lemma_sort_by_tag_members(d);
        lemma_insert_by_tag_members(sort_by_tag(d), r.last());
        let sd = sort_by_tag(d);
        let x = r.last();
        assert(sort_by_tag(r) == insert_by_tag(sd, x));
        assert forall|y: (u8, u8)| #[trigger] sort_by_tag(r).contains(y) <==> r.contains(y) by {
            if r.contains(y) {
                let k = choose|k: int| 0 <= k < r.len() && r[k] == y;
                if k < r.len() - 1 {
                    assert(d[k] == y);
                    assert(d.contains(y));
                    assert(sd.contains(y));
                    assert(insert_by_tag(sd, x).contains(y));
                } else {
                    assert(y == x);
                    assert(insert_by_tag(sd, x).contains(x));
                }
            }
            if sort_by_tag(r).contains(y) {
                assert(insert_by_tag(sd, x).contains(y));
                if y != x {
                    assert(sd.contains(y));
                    assert(d.contains(y));
                    let j = choose|j: int| 0 <= j < d.len() && d[j] == y;
                    assert(r[j] == y);
                } else {
                    assert(r[r.len() - 1] == y);
                }
            }
        }
    }
}

/// The constructors of a type, as listed, come from the registry's entries.
proof fn lemma_of_type_members(s: Seq<(Seq<char>, (u8, u8, u8))>, t: u8)
    ensures
        forall|y: (u8, u8)| #[trigger] of_type(s, t).contains(y) ==> exists|i: int|
            0 <= i < s.len() && s[i].1.0 == y.0 && s[i].1.1 == y.1 && s[i].1.2 == t,
        forall|i: int| 0 <= i < s.len() && s[i].1.2 == t ==> #[trigger] of_type(s, t).contains((s[i].1.0, s[i].1.1)),
    decreases s.len(),
{
    if s.len() > 0 {
        let d = s.drop_last();
        lemma_of_type_members(d, t);
        let e = s.last();
        let tail: Seq<(u8, u8)> = if e.1.2 == t { seq![(e.1.0, e.1.1)] } else { Seq::empty() };
        let o = of_type(s, t);
        assert(o == of_type(d, t) + tail);
        assert forall|y: (u8, u8)| #[trigger] o.contains(y) implies exists|i: int|
            0 <= i < s.len() && s[i].1.0 == y.0 && s[i].1.1 == y.1 && s[i].1.2 == t by {
            let k = choose|k: int| 0 <= k < o.len() && o[k] == y;
            if k < of_type(d, t).len() {
                assert(of_type(d, t)[k] == y);
                assert(of_type(d, t).contains(y));
                let i = choose|i: int| 0 <= i < d.len() && d[i].1.0 == y.0 && d[i].1.1 == y.1 && d[i].1.2 == t;
                assert(s[i] == d[i]);
            } else {
                assert(s[s.len() - 1] == e);
            }
        }
        assert forall|i: int| 0 <= i < s.len() && s[i].1.2 == t implies #[trigger] o.contains((s[i].1.0, s[i].1.1)) by {
            if i < s.len() - 1 {
                assert(d[i] == s[i]);
                assert(of_type(d, t).contains((s[i].1.0, s[i].1.1)));
                let k = choose|k: int| 0 <= k < of_type(d, t).len() && of_type(d, t)[k] == (s[i].1.0, s[i].1.1);
                assert(o[k] == of_type(d, t)[k]);
            } else {
                assert(o[of_type(d, t).len() as int] == (e.1.0, e.1.1));
            }
        }
    }
}

proof fn lemma_tag_pos(tc: Seq<(u8, u8)>, tag: u8, k: int)
    requires
        0 <= k < tc.len(),
        tc[k].0 == tag,
    ensures
        tag_pos(tc, tag) <= k,
        tc[tag_pos(tc, tag) as int].0 == tag,
        forall|j: int| 0 <= j < tag_pos(tc, tag) ==> tc[j].0 != tag,
    decreases k,
{
    if tc[0].0 != tag {
        let d = tc.drop_first();
        assert(d[k - 1] == tc[k]);
        lemma_tag_pos(d, tag, k - 1);
        assert forall|j: int| 0 <= j < tag_pos(tc, tag) implies tc[j].0 != tag by {
            if j > 0 {
                assert(tc[j] == d[j - 1]);
            }
        }
    }
}

/// Where no constructor's name is missing, every constructor whose tag has
/// a name has a branch.
proof fn lemma_none_missing(tc: Seq<(u8, u8)>, cases: Seq<(u8, DCase)>, ctors: Seq<(Seq<char>, (u8, u8, u8))>)
    requires
        missing_names(tc, cases, ctors).len() == 0,
        forall|i: int| 0 <= i < tc.len() ==> name_with_tag(ctors, #[trigger] tc[i].0) is Some,
    ensures
        forall|i: int| 0 <= i < tc.len() ==> case_for(cases, #[trigger] tc[i].0) is Some,
    decreases tc.len(),
{
    if tc.len() > 0 {
        let d = tc.drop_last();
        assert forall|i: int| 0 <= i < d.len() implies name_with_tag(ctors, #[trigger] d[i].0) is Some by {
            assert(d[i] == tc[i]);
        }
        lemma_none_missing(d, cases, ctors);
        assert forall|i: int| 0 <= i < tc.len() implies case_for(cases, #[trigger] tc[i].0) is Some by {
            if i < tc.len() - 1 {
                assert(d[i] == tc[i]);
            } else {
                assert(name_with_tag(ctors, tc[tc.len() - 1].0) is Some);
            }
        }
    }
}

/// Each constructor of a type has a name for its tag.
proof fn lemma_type_tags_named(ctors: Seq<(Seq<char>, (u8, u8, u8))>, t: u8)
    ensures
        forall|i: int| 0 <= i < sort_by_tag(of_type(ctors, t)).len() ==> name_with_tag(
            ctors,
            #[trigger] sort_by_tag(of_type(ctors, t))[i].0,
        ) is Some,
{
    lemma_sort_by_tag_members(of_type(ctors, t));
    lemma_of_type_members(ctors, t);
    let tc = sort_by_tag(of_type(ctors, t));
    assert forall|i: int| 0 <= i < tc.len() implies name_with_tag(ctors, #[trigger] tc[i].0) is Some by {
        let y = tc[i];
        assert(tc.contains(y));
        assert(of_type(ctors, t).contains(y));
        let k = choose|k: int| 0 <= k < ctors.len() && ctors[k].1.0 == y.0 && ctors[k].1.1 == y.1 && ctors[k].1.2 == t;
        assert(exists|j: int| 0 <= j < ctors.len() && ctors[j].1.0 == y.0);
    }
}

/// The constructor found under a name is among the constructors of its
/// type.
proof fn lemma_found_in_type(ctors: Seq<(Seq<char>, (u8, u8, u8))>, n: Seq<char>)
    requires
        names_sorted(ctors),
        find_ctor(ctors, n) is Some,
    ensures
        ({
            let c = find_ctor(ctors, n)->0;
            sort_by_tag(of_type(ctors, c.2)).contains((c.0, c.1))
        }),
{
    assert(has_name(ctors, n));
    let k = choose|k: int| 0 <= k < ctors.len() && ctors[k].0 == n;
    lemma_first_named_unique(ctors, n, k);
    let c = ctors[k].1;
    lemma_of_type_members(ctors, c.2);
    assert(of_type(ctors, c.2).contains((c.0, c.1)));
    lemma_sort_by_tag_members(of_type(ctors, c.2));
}

// ── The parser ────────────────────────────────────────────────────────────────

/// Reads a Fleche source text, declaring its constructors as it goes.
pub struct Parser {
    tokens: Lexer,
    ctors: CtorRegistry,
    builtins: BuiltinCtors,
}

impl View for Parser {
    type V = PState;

    closed spec fn view(&self) -> PState {
        PState { lex: self.tokens@, reg: self.ctors@ }
    }
}

pub open spec fn pairs_view(v: Seq<(Name, Expr)>) -> Seq<(DName, DExpr)> {
    v.map_values(|p: (Name, Expr)| (p.0@, p.1@))
}

pub open spec fn destructs_view(v: Seq<(u8, Vec<Name>, Expr)>) -> Seq<(u8, Seq<DName>, DExpr)> {
    v.map_values(|p: (u8, Vec<Name>, Expr)| (p.0, dnames_view(p.1@), p.2@))
}

pub open spec fn bindings_view(v: Seq<(u8, u8, Vec<Name>, Expr)>) -> Seq<(u8, u8, Seq<DName>, DExpr)> {
    v.map_values(|p: (u8, u8, Vec<Name>, Expr)| (p.0, p.1, dnames_view(p.2@), p.3@))
}

pub open spec fn tagged_cases_view(v: Seq<(u8, Case)>) -> Seq<(u8, DCase)> {
    v.map_values(|p: (u8, Case)| (p.0, dcase_view(p.1)))
}

pub open spec fn opt_expr_view(o: Option<Expr>) -> Option<DExpr> {
    match o {
        Some(e) => Some(e@),
        None => None,
    }
}

/// `r` is what `p` says, and `fin` the state it ends in.
pub open spec fn res_expr(p: PR<DExpr>, r: Result<Expr, ParseError>, fin: PState) -> bool {
    match p {
        PR::Done(v, s) => r matches Ok(x) && x@ == v && fin == s,
        PR::Fail(m) => r matches Err(e) && e.message@ == m,
        PR::Stuck => r matches Err(e) && e.message@ == stuck_text(),
    }
}

pub open spec fn res_names(p: PR<Seq<DName>>, r: Result<Vec<Name>, ParseError>, fin: PState) -> bool {
    match p {
        PR::Done(v, s) => r matches Ok(x) && dnames_view(x@) == v && fin == s,
        PR::Fail(m) => r matches Err(e) && e.message@ == m,
        PR::Stuck => r matches Err(e) && e.message@ == stuck_text(),
    }
}

pub open spec fn res_exprs(p: PR<Seq<DExpr>>, r: Result<Vec<Expr>, ParseError>, fin: PState) -> bool {
    match p {
        PR::Done(v, s) => r matches Ok(x) && dexprs_view(x@) == v && fin == s,
        PR::Fail(m) => r matches Err(e) && e.message@ == m,
        PR::Stuck => r matches Err(e) && e.message@ == stuck_text(),
    }
}

pub open spec fn res_unit(p: PR<()>, r: Result<(), ParseError>, fin: PState) -> bool {
    match p {
        PR::Done(_, s) => r is Ok && fin == s,
        PR::Fail(m) => r matches Err(e) && e.message@ == m,
        PR::Stuck => r matches Err(e) && e.message@ == stuck_text(),
    }
}

pub open spec fn res_binding(
    p: PR<(u8, u8, Seq<DName>, DExpr)>,
    r: Result<(u8, u8, Vec<Name>, Expr), ParseError>,
    fin: PState,
) -> bool {
    match p {
        PR::Done(v, s) => r matches Ok(x) && (x.0, x.1, dnames_view(x.2@), x.3@) == v && fin == s,
        PR::Fail(m) => r matches Err(e) && e.message@ == m,
        PR::Stuck => r matches Err(e) && e.message@ == stuck_text(),
    }
}

pub open spec fn res_cases(
    p: PR<(Seq<(u8, DCase)>, Option<DExpr>, Option<u8>)>,
    r: Result<(Vec<(u8, Case)>, Option<Expr>, Option<u8>), ParseError>,
    fin: PState,
) -> bool {
    match p {
        PR::Done(v, s) => r matches Ok(x) && (tagged_cases_view(x.0@), opt_expr_view(x.1), x.2) == v && fin == s,
        PR::Fail(m) => r matches Err(e) && e.message@ == m,
        PR::Stuck => r matches Err(e) && e.message@ == stuck_text(),
    }
}

pub open spec fn res_define(p: PR<DDefine>, r: Result<ds::Define, ParseError>, fin: PState) -> bool {
    match p {
        PR::Done(v, s) => r matches Ok(x) && x.name@ == v.name && x.body@ == v.body && fin == s,
        PR::Fail(m) => r matches Err(e) && e.message@ == m,
        PR::Stuck => r matches Err(e) && e.message@ == stuck_text(),
    }
}

fn stuck() -> (e: ParseError)
    ensures
        e.message@ == stuck_text(),
{
    ParseError { message: text("the parser did not advance") }
}

fn named_error(head: &str, n: &String) -> (e: ParseError)
    ensures
        e.message@ == head@ + n@,
{
    let mut m = text(head);
    m.append(n.as_str());
    ParseError { message: m }
}

fn arity_error(n: &String, mid: &str, arity: u8, tail_head: &str, k: usize, tail: &str) -> (e: ParseError)
    ensures
        e.message@ == "constructor "@ + n@ + mid@ + decimal(arity as nat) + tail_head@ + decimal(k as nat) + tail@,
{
    let mut m = text("constructor ");
    m.append(n.as_str());
    m.append(mid);
    let a = decimal_string(arity as usize);
    m.append(a.as_str());
    m.append(tail_head);
    let b = decimal_string(k);
    m.append(b.as_str());
    m.append(tail);
    ParseError { message: m }
}

fn one_name(n: Name) -> (r: Vec<Name>)
    ensures
        dnames_view(r@) == seq![n@],
{
    let r = vec![n];
    assert(dnames_view(r@) =~= seq![n@]);
    r
}

fn wrap_lambdas(ps: Vec<Name>, body: Expr) -> (r: Expr)
    ensures
        r@ == fold_lambdas(dnames_view(ps@), body@),
{
    let mut ps = ps;
    let mut acc = body;
    let ghost want = fold_lambdas(dnames_view(ps@), body@);
    while ps.len() > 0
        invariant
            fold_lambdas(dnames_view(ps@), acc@) == want,
        decreases ps@.len(),
    {
        let ghost before = ps@;
        let p = match ps.pop() {
            Some(p) => p,
            None => return acc,
        };
        assert(dnames_view(before).drop_last() =~= dnames_view(ps@));
        let ps1 = one_name(p);
        acc = ds::Expr::Lambda(ps1, Box::new(acc));
    }
    assert(dnames_view(ps@) =~= Seq::<DName>::empty());
    acc
}

fn wrap_lets(bs: Vec<(Name, Expr)>, body: Expr) -> (r: Expr)
    ensures
        r@ == fold_lets(pairs_view(bs@), body@),
{
    let mut bs = bs;
    let mut acc = body;
    let ghost want = fold_lets(pairs_view(bs@), body@);
    while bs.len() > 0
        invariant
            fold_lets(pairs_view(bs@), acc@) == want,
        decreases bs@.len(),
    {
        let ghost before = bs@;
        let (n, b) = match bs.pop() {
            Some(p) => p,
            None => return acc,
        };
        assert(pairs_view(before).drop_last() =~= pairs_view(bs@));
        acc = ds::Expr::Let(n, Box::new(b), Box::new(acc));
    }
    assert(pairs_view(bs@) =~= Seq::<(DName, DExpr)>::empty());
    acc
}

fn wrap_destructs(bs: Vec<(u8, Vec<Name>, Expr)>, body: Expr) -> (r: Expr)
    ensures
        r@ == fold_destructs(destructs_view(bs@), body@),
{
    let mut bs = bs;
    let mut acc = body;
    let ghost want = fold_destructs(destructs_view(bs@), body@);
    while bs.len() > 0
        invariant
            fold_destructs(destructs_view(bs@), acc@) == want,
        decreases bs@.len(),
    {
        let ghost before = bs@;
        let (tag, binds, scrut) = match bs.pop() {
            Some(p) => p,
            None => return acc,
        };
        assert(destructs_view(before).drop_last() =~= destructs_view(bs@));
        let ghost c = DCase { binds: dnames_view(binds@), body: acc@ };
        let case = Case { binds, body: acc };
        let cases = vec![case];
        assert(ds::dcases_view(cases@) =~= seq![c]);
        acc = ds::Expr::Match(Box::new(scrut), tag, cases);
    }
    assert(destructs_view(bs@) =~= Seq::<(u8, Seq<DName>, DExpr)>::empty());
    acc
}

fn underscore_names(k: u8) -> (r: Vec<Name>)
    ensures
        dnames_view(r@) == underscores(k),
{
    let mut r: Vec<Name> = Vec::new();
    let mut i: u8 = 0;
    while i < k
        invariant
            i <= k,
            r@.len() == i,
            forall|j: int| 0 <= j < i ==> (#[trigger] r@[j])@ == "_"@,
        decreases k - i,
    {
        r.push(text("_"));
        i += 1;
    }
    assert(dnames_view(r@) =~= underscores(k));
    r
}

fn least_tag(tc: &Vec<(u8, u8)>, d: u8) -> (r: u8)
    ensures
        r == min_tag(tc@, d),
{
    if tc.len() == 0 {
        return d;
    }
    let mut best = tc[0].0;
    proof {
        let u = tc@.take(1);
        assert(u.drop_last() =~= Seq::<(u8, u8)>::empty());
        assert(u.last() == tc@[0]);
        assert(min_tag(u.drop_last(), u.last().0) == u.last().0);
        assert(min_tag(u, d) == tc@[0].0);
    }
    let mut i: usize = 1;
    while i < tc.len()
        invariant
            1 <= i <= tc@.len(),
            best == min_tag(tc@.take(i as int), d),
        decreases tc@.len() - i,
    {
        let t = tc[i].0;
        proof {
            let u = tc@.take(i + 1);
            assert(u.drop_last() =~= tc@.take(i as int));
            assert(u.last() == tc@[i as int]);
            assert(min_tag(tc@.take(i as int), t) == min_tag(tc@.take(i as int), d));
        }
        if t < best {
            best = t;
        }
        i += 1;
    }
    assert(tc@.take(tc@.len() as int) =~= tc@);
    best
}

fn position_of_tag(tc: &Vec<(u8, u8)>, tag: u8) -> (r: usize)
    ensures
        r == tag_pos(tc@, tag),
{
    let mut i: usize = 0;
    assert(tc@.skip(0) =~= tc@);
    while i < tc.len() && tc[i].0 != tag
        invariant
            i <= tc@.len(),
            tag_pos(tc@, tag) == i + tag_pos(tc@.skip(i as int), tag),
        decreases tc@.len() - i,
    {
        proof {
            let u = tc@.skip(i as int);
            assert(u[0] == tc@[i as int]);
            assert(u.drop_first() =~= tc@.skip(i + 1));
        }
        i += 1;
    }
    proof {
        let u = tc@.skip(i as int);
        if i < tc@.len() {
            assert(u[0] == tc@[i as int]);
        } else {
            assert(u.len() == 0);
        }
    }
    i
}

/// The first branch written for `tag`.
fn find_case(cases: &Vec<(u8, Case)>, tag: u8) -> (r: Option<usize>)
    ensures
        match r {
            Some(k) => k < cases@.len() && case_for(tagged_cases_view(cases@), tag) == Some(
                dcase_view(cases@[k as int].1),
            ),
            None => case_for(tagged_cases_view(cases@), tag) is None,
        },
{
    let ghost cv = tagged_cases_view(cases@);
    let mut i: usize = 0;
    assert(cv.skip(0) =~= cv);
    while i < cases.len()
        invariant
            i <= cases@.len(),
            cv == tagged_cases_view(cases@),
            case_for(cv, tag) == case_for(cv.skip(i as int), tag),
        decreases cases@.len() - i,
    {
        proof {
            let u = cv.skip(i as int);
            assert(u[0] == cv[i as int]);
            assert(u.drop_first() =~= cv.skip(i + 1));
        }
        if cases[i].0 == tag {
            return Some(i);
        }
        i += 1;
    }
    assert(cv.skip(i as int).len() == 0);
    None
}

fn clone_case(c: &Case) -> (r: Case)
    ensures
        dcase_view(r) == dcase_view(*c),
{
    let b = clone_names(&c.binds);
    assert(dnames_view(b@) =~= dnames_view(c.binds@)) by {
        assert forall|i: int| 0 <= i < b@.len() implies dnames_view(b@)[i] == dnames_view(c.binds@)[i] by {
            assert(crate::ir::cps::names_view(b@)[i] == crate::ir::cps::names_view(c.binds@)[i]);
        }
    }
    Case { binds: b, body: clone_dexpr(&c.body) }
}

/// The match of a `match` expression: a branch per constructor of the type.
fn make_match(scrut: Expr, cases: &Vec<(u8, Case)>, tc: &Vec<(u8, u8)>, wild: &Option<Expr>) -> (r: Expr)
    requires
        wild is None ==> forall|i: int| 0 <= i < tc@.len() ==> case_for(tagged_cases_view(cases@), #[trigger] tc@[i].0) is Some,
    ensures
        r@ == build_match(scrut@, tagged_cases_view(cases@), tc@, opt_expr_view(*wild)),
{
    let ghost cv = tagged_cases_view(cases@);
    let ghost wc = Seq::new(
        tc@.len(),
        |i: int|
            match case_for(cv, tc@[i].0) {
                Some(c) => c,
                None => DCase { binds: underscores(tc@[i].1), body: opt_expr_view(*wild)->0 },
            },
    );
    let base = least_tag(tc, 0);
    let mut out: Vec<Case> = Vec::new();
    let mut i: usize = 0;
    while i < tc.len()
        invariant
            i <= tc@.len(),
            out@.len() == i,
            cv == tagged_cases_view(cases@),
            wc.len() == tc@.len(),
            wc == Seq::new(
                tc@.len(),
                |i: int|
                    match case_for(cv, tc@[i].0) {
                        Some(c) => c,
                        None => DCase { binds: underscores(tc@[i].1), body: opt_expr_view(*wild)->0 },
                    },
            ),
            wild is None ==> forall|i: int| 0 <= i < tc@.len() ==> case_for(cv, #[trigger] tc@[i].0) is Some,
            forall|j: int| 0 <= j < i ==> dcase_view(#[trigger] out@[j]) == wc[j],
        decreases tc@.len() - i,
    {
        let (tag, arity) = tc[i];
        match find_case(cases, tag) {
            Some(k) => {
                out.push(clone_case(&cases[k].1));
            },
            None => {
                assert(case_for(cv, tc@[i as int].0) is None);
                let body = match wild {
                    Some(w) => clone_dexpr(w),
                    None => return scrut,
                };
                out.push(Case { binds: underscore_names(arity), body });
            },
        }
        i += 1;
    }
    assert(ds::dcases_view(out@) =~= wc);
    ds::Expr::Match(Box::new(scrut), base, out)
}

/// The match that an `if` binding stands for.
fn make_if_match(tag: u8, tc: &Vec<(u8, u8)>, binds: Vec<Name>, scrut: Expr, alt: &Expr, body: Expr) -> (r: Expr)
    requires
        tag_pos(tc@, tag) < tc@.len(),
    ensures
        r@ == if_match(tag, tc@, dnames_view(binds@), scrut@, alt@, body@),
{
    let ghost wc = Seq::new(
        tc@.len(),
        |i: int|
            if i == tag_pos(tc@, tag) {
                DCase { binds: dnames_view(binds@), body: body@ }
            } else {
                DCase { binds: underscores(tc@[i].1), body: alt@ }
            },
    );
    let base = least_tag(tc, tag);
    let idx = position_of_tag(tc, tag);
    let mut out: Vec<Case> = Vec::new();
    let mut i: usize = 0;
    while i < tc.len()
        invariant
            i <= tc@.len(),
            out@.len() == i,
            idx == tag_pos(tc@, tag),
            idx < tc@.len(),
            wc == Seq::new(
                tc@.len(),
                |i: int|
                    if i == tag_pos(tc@, tag) {
                        DCase { binds: dnames_view(binds@), body: body@ }
                    } else {
                        DCase { binds: underscores(tc@[i].1), body: alt@ }
                    },
            ),
            forall|j: int| 0 <= j < i && j != idx ==> dcase_view(#[trigger] out@[j]) == wc[j],
        decreases tc@.len() - i,
    {
        let arity = tc[i].1;
        out.push(Case { binds: underscore_names(arity), body: clone_dexpr(alt) });
        i += 1;
    }
    let ghost bv = dnames_view(binds@);
    let ghost bodyv = body@;
    out.set(idx, Case { binds, body });
    assert(dcase_view(out@[idx as int]) == DCase { binds: bv, body: bodyv });
    assert(ds::dcases_view(out@) =~= wc);
    ds::Expr::Match(Box::new(scrut), base, out)
}


/// Every tag of a binding's constructor is among the constructors of its
/// type.
pub open spec fn binding_ok(reg: RegistryV, tag: u8, tid: u8) -> bool {
    tag_pos(sort_by_tag(of_type(reg.ctors, tid)), tag) < sort_by_tag(of_type(reg.ctors, tid)).len()
}

fn is_atom_token(t: &Token) -> (r: bool)
    ensures
        r == is_atom_start(t@),
{
    match t {
        Token::LowerIdent(_) => true,
        Token::UpperIdent(_) => true,
        Token::Number(_) => true,
        Token::StringLit(_) => true,
        Token::LParen => true,
        _ => false,
    }
}

fn builtin_lookup(name: &String) -> (r: Option<(PrimOp, usize)>)
    ensures
        match builtin_op(name@) {
            Some(x) => r matches Some(y) && y.0 == x.0 && y.1 == x.1,
            None => r is None,
        },
{
    if name.eq(&text("add")) {
        Some((PrimOp::Int(IntOp::Add), 2))
    } else if name.eq(&text("sub")) {
        Some((PrimOp::Int(IntOp::Sub), 2))
    } else if name.eq(&text("mul")) {
        Some((PrimOp::Int(IntOp::Mul), 2))
    } else if name.eq(&text("eq")) {
        Some((PrimOp::Int(IntOp::Eq), 2))
    } else if name.eq(&text("lt")) {
        Some((PrimOp::Int(IntOp::Lt), 2))
    } else if name.eq(&text("int_byte")) {
        Some((PrimOp::Int(IntOp::Byte), 1))
    } else if name.eq(&text("bytes_len")) {
        Some((PrimOp::Bytes(BytesOp::Len), 1))
    } else if name.eq(&text("bytes_get")) {
        Some((PrimOp::Bytes(BytesOp::Get), 2))
    } else if name.eq(&text("bytes_concat")) {
        Some((PrimOp::Bytes(BytesOp::Concat), 2))
    } else if name.eq(&text("bytes_slice")) {
        Some((PrimOp::Bytes(BytesOp::Slice), 3))
    } else if name.eq(&text("bytes_eq")) {
        Some((PrimOp::Bytes(BytesOp::Eq), 2))
    } else {
        None
    }
}

fn join_names(ns: &Vec<String>, sep: &str) -> (r: String)
    ensures
        r@ == join(dnames_view(ns@), sep@),
{
    let ghost parts = dnames_view(ns@);
    let mut out = String::new();
    let mut i: usize = 0;
    while i < ns.len()
        invariant
            i <= ns@.len(),
            parts == dnames_view(ns@),
            out@ == join(parts.take(i as int), sep@),
        decreases ns@.len() - i,
    {
        if i > 0 {
            out.append(sep);
        }
        out.append(ns[i].as_str());
        assert(parts.take(i + 1).drop_last() =~= parts.take(i as int));
        if i == 0 {
            assert(out@ =~= parts[0]);
        }
        assert(out@ =~= join(parts.take(i + 1), sep@));
        i += 1;
    }
    assert(parts.take(ns@.len() as int) =~= parts);
    out
}

impl Parser {
    /// The registry's entries are in order, and it knows each built-in
    /// constructor.
    pub closed spec fn wf(&self) -> bool {
        self.ctors.wf() && builtins_known(self.ctors@.ctors, self.builtins)
    }

    /// The built-in constructors the parser was made with.
    pub closed spec fn builtins(&self) -> BuiltinCtors {
        self.builtins
    }

    /// A parser at the start of `input`, knowing only the built-in
    /// constructors.
    pub fn new(input: &str, builtins: &BuiltinCtors) -> (r: Self)
        ensures
            r.wf(),
            r.builtins() == *builtins,
            r@ == (PState {
                lex: LexerV { input: input@, pos: 0, peeked: None },
                reg: RegistryV {
                    ctors: builtin_entries(*builtins),
                    next_tag: builtins.first_user_tag as u16,
                    next_type_id: 3,
                },
            }),
    {
        proof {
            lemma_builtins_known_at_start(*builtins);
        }
        Parser { tokens: Lexer::new(input), ctors: CtorRegistry::new(builtins), builtins: *builtins }
    }

    /// The tag and name of each constructor declared so far, in name order.
    pub fn ctor_names(&self) -> (r: Vec<(u8, String)>)
        requires
            self.wf(),
        ensures
            r@.len() == self@.reg.ctors.len(),
            forall|i: int| 0 <= i < r@.len() ==> (#[trigger] r@[i]).0 == self@.reg.ctors[i].1.0 && r@[i].1@ == self@.reg.ctors[i].0,
    {
        self.ctors.ctor_names()
    }

    /// The whole input: its data declarations and its definitions.
    pub fn parse_module(&mut self) -> (r: Result<ds::Module, ParseError>)
        requires
            old(self).wf(),
            lex_ok(old(self)@.lex.input),
        ensures
            final(self).wf(),
            final(self).builtins() == old(self).builtins(),
            crate::frontend::names_sorted(final(self)@.reg.ctors),
            builtins_known(final(self)@.reg.ctors, final(self).builtins()),
            match p_module(old(self)@, Seq::empty()) {
                PR::Done(v, s) => r matches Ok(m) && m@ == v && final(self)@ == s,
                PR::Fail(msg) => r matches Err(e) && e.message@ == msg,
                PR::Stuck => r matches Err(e) && e.message@ == stuck_text(),
            },
    {
        let ds: Vec<ds::Define> = Vec::new();
        assert(ddefines_view(ds@) =~= Seq::<DDefine>::empty());
        match self.parse_declarations(ds) {
            Ok(ds) => Ok(ds::Module { defines: ds }),
            Err(e) => Err(e),
        }
    }

    fn parse_declarations(&mut self, ds: Vec<ds::Define>) -> (r: Result<Vec<ds::Define>, ParseError>)
        requires
            old(self).wf(),
            lex_ok(old(self)@.lex.input),
        ensures
            final(self).wf(),
            final(self).builtins() == old(self).builtins(),
            final(self)@.lex.input == old(self)@.lex.input,
            match p_module(old(self)@, ddefines_view(ds@)) {
                PR::Done(v, s) => r matches Ok(x) && ddefines_view(x@) == v && final(self)@ == s,
                PR::Fail(msg) => r matches Err(e) && e.message@ == msg,
                PR::Stuck => r matches Err(e) && e.message@ == stuck_text(),
            },
        decreases mark_of(self@.lex),
    {
        let m0 = self.tokens.mark();
        let kind: u8 = match self.tokens.peek_token() {
            Ok(Token::Eof) => 0,
            Ok(Token::Data) => 1,
            Ok(_) => 2,
            Err(e) => return Err(e),
        };
        if kind == 0 {
            return Ok(ds);
        }
        if kind == 1 {
            match self.parse_data() {
                Ok(()) => {},
                Err(e) => return Err(e),
            }
            if !(self.tokens.mark() < m0) {
                return Err(stuck());
            }
            return self.parse_declarations(ds);
        }
        let d = match self.parse_define() {
            Ok(d) => d,
            Err(e) => return Err(e),
        };
        if !(self.tokens.mark() < m0) {
            return Err(stuck());
        }
        let mut ds = ds;
        let ghost before = ddefines_view(ds@);
        let ghost dv = DDefine { name: d.name@, body: d.body@ };
        ds.push(d);
        assert(ddefines_view(ds@) =~= before.push(dv));
        self.parse_declarations(ds)
    }

    fn parse_define(&mut self) -> (r: Result<ds::Define, ParseError>)
        requires
            old(self).wf(),
            lex_ok(old(self)@.lex.input),
        ensures
            final(self).wf(),
            final(self).builtins() == old(self).builtins(),
            final(self)@.lex.input == old(self)@.lex.input,
            final(self)@.reg == old(self)@.reg,
            res_define(p_define(old(self)@), r, final(self)@),
    {
        match self.tokens.expect_token(&Token::Let) {
            Ok(()) => {},
            Err(e) => return Err(e),
        }
        match self.tokens.try_consume(&Token::Extern) {
            Ok(true) => {
                let name = match self.tokens.expect_lower_identifier() {
                    Ok(n) => n,
                    Err(e) => return Err(e),
                };
                let n = match self.tokens.expect_number() {
                    Ok(n) => n,
                    Err(e) => return Err(e),
                };
                return Ok(ds::Define { name, body: ds::Expr::Extern(#[verifier::truncate] (n as u16)) });
            },
            Ok(false) => {},
            Err(e) => return Err(e),
        }
        match self.tokens.try_consume(&Token::Rec) {
            Ok(true) => {
                let name = match self.tokens.expect_lower_identifier() {
                    Ok(n) => n,
                    Err(e) => return Err(e),
                };
                let x = match self.tokens.expect_lower_identifier() {
                    Ok(n) => n,
                    Err(e) => return Err(e),
                };
                match self.tokens.expect_token(&Token::Eq) {
                    Ok(()) => {},
                    Err(e) => return Err(e),
                }
                let body = match self.parse_expr() {
                    Ok(b) => b,
                    Err(e) => return Err(e),
                };
                let ps = one_name(x);
                return Ok(ds::Define { name, body: ds::Expr::Lambda(ps, Box::new(body)) });
            },
            Ok(false) => {},
            Err(e) => return Err(e),
        }
        let name = match self.tokens.expect_lower_identifier() {
            Ok(n) => n,
            Err(e) => return Err(e),
        };
        match self.tokens.expect_token(&Token::Eq) {
            Ok(()) => {},
            Err(e) => return Err(e),
        }
        match self.parse_expr() {
            Ok(body) => Ok(ds::Define { name, body }),
            Err(e) => Err(e),
        }
    }

    fn parse_data(&mut self) -> (r: Result<(), ParseError>)
        requires
            old(self).wf(),
            lex_ok(old(self)@.lex.input),
        ensures
            final(self).wf(),
            final(self).builtins() == old(self).builtins(),
            final(self)@.lex.input == old(self)@.lex.input,
            res_unit(p_data(old(self)@), r, final(self)@),
    {
        match self.tokens.expect_token(&Token::Data) {
            Ok(()) => {},
            Err(e) => return Err(e),
        }
        let tid = self.ctors.alloc_type_id();
        match self.tokens.try_consume(&Token::Pipe) {
            Ok(_) => {},
            Err(e) => return Err(e),
        }
        match self.parse_variant(tid) {
            Ok(()) => {},
            Err(e) => return Err(e),
        }
        self.parse_variants(tid)
    }

    fn parse_variants(&mut self, tid: u8) -> (r: Result<(), ParseError>)
        requires
            old(self).wf(),
            lex_ok(old(self)@.lex.input),
        ensures
            final(self).wf(),
            final(self).builtins() == old(self).builtins(),
            final(self)@.lex.input == old(self)@.lex.input,
            res_unit(p_variants(old(self)@, tid), r, final(self)@),
        decreases mark_of(self@.lex),
    {
        let m0 = self.tokens.mark();
        match self.tokens.try_consume(&Token::Pipe) {
            Ok(true) => {},
            Ok(false) => return Ok(()),
            Err(e) => return Err(e),
        }
        match self.parse_variant(tid) {
            Ok(()) => {},
            Err(e) => return Err(e),
        }
        if !(self.tokens.mark() < m0) {
            return Err(stuck());
        }
        self.parse_variants(tid)
    }

    fn parse_variant(&mut self, tid: u8) -> (r: Result<(), ParseError>)
        requires
            old(self).wf(),
            lex_ok(old(self)@.lex.input),
        ensures
            final(self).wf(),
            final(self).builtins() == old(self).builtins(),
            final(self)@.lex.input == old(self)@.lex.input,
            res_unit(p_variant(old(self)@, tid), r, final(self)@),
    {
        let name = match self.tokens.expect_upper_identifier() {
            Ok(n) => n,
            Err(e) => return Err(e),
        };
        let bs = match self.paren_binds() {
            Ok(b) => b,
            Err(e) => return Err(e),
        };
        if self.ctors.get(name.as_str()).is_none() && self.ctors.next_tag() == u16::MAX {
            return match self.ctors.check_capacity() {
                Err(e) => Err(e),
                Ok(()) => Err(stuck()),
            };
        }
        proof {
            lemma_resolve_keeps_builtins(self.ctors@, self.builtins, name@, (bs@.len() as u8), tid);
        }
        self.ctors.resolve_with_type(name.as_str(), #[verifier::truncate] (bs.len() as u8), tid);
        Ok(())
    }

    fn paren_binds(&mut self) -> (r: Result<Vec<Name>, ParseError>)
        requires
            old(self).wf(),
            lex_ok(old(self)@.lex.input),
        ensures
            final(self).wf(),
            final(self).builtins() == old(self).builtins(),
            final(self)@.lex.input == old(self)@.lex.input,
            final(self)@.reg == old(self)@.reg,
            res_names(p_paren_binds(old(self)@), r, final(self)@),
    {
        match self.tokens.try_consume(&Token::LParen) {
            Ok(true) => {},
            Ok(false) => {
                let v: Vec<Name> = Vec::new();
                assert(dnames_view(v@) =~= Seq::<DName>::empty());
                return Ok(v);
            },
            Err(e) => return Err(e),
        }
        let close = match self.tokens.peek_token() {
            Ok(Token::RParen) => true,
            Ok(_) => false,
            Err(e) => return Err(e),
        };
        let binds = if close {
            let v: Vec<Name> = Vec::new();
            assert(dnames_view(v@) =~= Seq::<DName>::empty());
            v
        } else {
            let n = match self.tokens.expect_lower_identifier() {
                Ok(n) => n,
                Err(e) => return Err(e),
            };
            match self.more_binds(one_name(n)) {
                Ok(b) => b,
                Err(e) => return Err(e),
            }
        };
        match self.tokens.expect_token(&Token::RParen) {
            Ok(()) => Ok(binds),
            Err(e) => Err(e),
        }
    }

    fn more_binds(&mut self, acc: Vec<Name>) -> (r: Result<Vec<Name>, ParseError>)
        requires
            old(self).wf(),
            lex_ok(old(self)@.lex.input),
        ensures
            final(self).wf(),
            final(self).builtins() == old(self).builtins(),
            final(self)@.lex.input == old(self)@.lex.input,
            final(self)@.reg == old(self)@.reg,
            res_names(p_more_binds(old(self)@, dnames_view(acc@)), r, final(self)@),
        decreases mark_of(self@.lex),
    {
        let m0 = self.tokens.mark();
        match self.tokens.try_consume(&Token::Comma) {
            Ok(true) => {},
            Ok(false) => return Ok(acc),
            Err(e) => return Err(e),
        }
        let n = match self.tokens.expect_lower_identifier() {
            Ok(n) => n,
            Err(e) => return Err(e),
        };
        if !(self.tokens.mark() < m0) {
            return Err(stuck());
        }
        let mut acc = acc;
        let ghost before = dnames_view(acc@);
        let ghost nv = n@;
        acc.push(n);
        assert(dnames_view(acc@) =~= before.push(nv));
        self.more_binds(acc)
    }

    fn parse_expr(&mut self) -> (r: Result<Expr, ParseError>)
        requires
            old(self).wf(),
            lex_ok(old(self)@.lex.input),
        ensures
            final(self).wf(),
            final(self).builtins() == old(self).builtins(),
            final(self)@.lex.input == old(self)@.lex.input,
            final(self)@.reg == old(self)@.reg,
            res_expr(p_expr(old(self)@), r, final(self)@),
        decreases mark_of(self@.lex), 3nat,
    {
        let m0 = self.tokens.mark();
        let kind: u8 = match self.tokens.peek_token() {
            Ok(Token::Let) => 1,
            Ok(Token::Match) => 2,
            Ok(Token::Field) => 3,
            Ok(Token::Builtin) => 4,
            Ok(Token::If) => 5,
            Ok(Token::LowerIdent(_)) => 6,
            Ok(_) => 0,
            Err(e) => return Err(e),
        };
        if kind >= 1 && kind <= 5 {
            if !(self.tokens.mark() <= m0) {
                return Err(stuck());
            }
            if kind == 1 {
                return self.parse_let();
            } else if kind == 2 {
                return self.parse_match();
            } else if kind == 3 {
                return self.parse_field();
            } else if kind == 4 {
                return self.parse_builtin();
            } else {
                return self.parse_if_binding();
            }
        }
        if kind == 6 {
            let name = match self.tokens.expect_lower_identifier() {
                Ok(n) => n,
                Err(e) => return Err(e),
            };
            let arrow = match self.tokens.peek_token() {
                Ok(Token::Arrow) => true,
                Ok(_) => false,
                Err(e) => return Err(e),
            };
            if arrow {
                match self.tokens.next_token() {
                    Ok(_) => {},
                    Err(e) => return Err(e),
                }
                if !(self.tokens.mark() < m0) {
                    return Err(stuck());
                }
                return self.parse_params(one_name(name));
            }
            if !(self.tokens.mark() <= m0) {
                return Err(stuck());
            }
            let args: Vec<Expr> = Vec::new();
            assert(dexprs_view(args@) =~= Seq::<DExpr>::empty());
            return self.parse_app_args(ds::Expr::Var(name), args);
        }
        if !(self.tokens.mark() <= m0) {
            return Err(stuck());
        }
        self.parse_app()
    }

    fn parse_params(&mut self, ps: Vec<Name>) -> (r: Result<Expr, ParseError>)
        requires
            old(self).wf(),
            lex_ok(old(self)@.lex.input),
        ensures
            final(self).wf(),
            final(self).builtins() == old(self).builtins(),
            final(self)@.lex.input == old(self)@.lex.input,
            final(self)@.reg == old(self)@.reg,
            res_expr(p_params(old(self)@, dnames_view(ps@)), r, final(self)@),
        decreases mark_of(self@.lex), 4nat,
    {
        let m0 = self.tokens.mark();
        let lower = match self.tokens.peek_token() {
            Ok(Token::LowerIdent(_)) => true,
            Ok(_) => false,
            Err(e) => return Err(e),
        };
        if lower {
            let x = match self.tokens.expect_lower_identifier() {
                Ok(n) => n,
                Err(e) => return Err(e),
            };
            let arrow = match self.tokens.peek_token() {
                Ok(Token::Arrow) => true,
                Ok(_) => false,
                Err(e) => return Err(e),
            };
            if arrow {
                match self.tokens.next_token() {
                    Ok(_) => {},
                    Err(e) => return Err(e),
                }
                if !(self.tokens.mark() < m0) {
                    return Err(stuck());
                }
                let mut ps = ps;
                let ghost before = dnames_view(ps@);
                let ghost xv = x@;
                ps.push(x);
                assert(dnames_view(ps@) =~= before.push(xv));
                return self.parse_params(ps);
            }
            if !(self.tokens.mark() <= m0) {
                return Err(stuck());
            }
            let args: Vec<Expr> = Vec::new();
            assert(dexprs_view(args@) =~= Seq::<DExpr>::empty());
            return match self.parse_app_args(ds::Expr::Var(x), args) {
                Ok(b) => Ok(wrap_lambdas(ps, b)),
                Err(e) => Err(e),
            };
        }
        if !(self.tokens.mark() <= m0) {
            return Err(stuck());
        }
        match self.parse_expr() {
            Ok(b) => Ok(wrap_lambdas(ps, b)),
            Err(e) => Err(e),
        }
    }

    fn parse_let(&mut self) -> (r: Result<Expr, ParseError>)
        requires
            old(self).wf(),
            lex_ok(old(self)@.lex.input),
        ensures
            final(self).wf(),
            final(self).builtins() == old(self).builtins(),
            final(self)@.lex.input == old(self)@.lex.input,
            final(self)@.reg == old(self)@.reg,
            res_expr(p_let(old(self)@), r, final(self)@),
        decreases mark_of(self@.lex), 0nat,
    {
        let m0 = self.tokens.mark();
        match self.tokens.expect_token(&Token::Let) {
            Ok(()) => {},
            Err(e) => return Err(e),
        }
        match self.tokens.try_consume(&Token::Rec) {
            Ok(true) => {
                let f = match self.tokens.expect_lower_identifier() {
                    Ok(n) => n,
                    Err(e) => return Err(e),
                };
                let x = match self.tokens.expect_lower_identifier() {
                    Ok(n) => n,
                    Err(e) => return Err(e),
                };
                match self.tokens.expect_token(&Token::Eq) {
                    Ok(()) => {},
                    Err(e) => return Err(e),
                }
                if !(self.tokens.mark() < m0) {
                    return Err(stuck());
                }
                let body = match self.parse_expr() {
                    Ok(b) => b,
                    Err(e) => return Err(e),
                };
                match self.tokens.expect_token(&Token::In) {
                    Ok(()) => {},
                    Err(e) => return Err(e),
                }
                if !(self.tokens.mark() < m0) {
                    return Err(stuck());
                }
                let rest = match self.parse_expr() {
                    Ok(b) => b,
                    Err(e) => return Err(e),
                };
                return Ok(ds::Expr::Letrec(f, x, Box::new(body), Box::new(rest)));
            },
            Ok(false) => {},
            Err(e) => return Err(e),
        }
        let upper = match self.tokens.peek_token() {
            Ok(Token::UpperIdent(_)) => true,
            Ok(_) => false,
            Err(e) => return Err(e),
        };
        if upper {
            if !(self.tokens.mark() < m0) {
                return Err(stuck());
            }
            let acc: Vec<(u8, Vec<Name>, Expr)> = Vec::new();
            assert(destructs_view(acc@) =~= Seq::<(u8, Seq<DName>, DExpr)>::empty());
            return self.parse_destructs(acc);
        }
        let n = match self.tokens.expect_lower_identifier() {
            Ok(n) => n,
            Err(e) => return Err(e),
        };
        match self.tokens.expect_token(&Token::Eq) {
            Ok(()) => {},
            Err(e) => return Err(e),
        }
        if !(self.tokens.mark() < m0) {
            return Err(stuck());
        }
        let b = match self.parse_expr() {
            Ok(b) => b,
            Err(e) => return Err(e),
        };
        if !(self.tokens.mark() < m0) {
            return Err(stuck());
        }
        let ghost pv = (n@, b@);
        let bs = vec![(n, b)];
        assert(pairs_view(bs@) =~= seq![pv]);
        self.parse_let_binds(bs)
    }

    fn parse_let_binds(&mut self, bs: Vec<(Name, Expr)>) -> (r: Result<Expr, ParseError>)
        requires
            old(self).wf(),
            lex_ok(old(self)@.lex.input),
        ensures
            final(self).wf(),
            final(self).builtins() == old(self).builtins(),
            final(self)@.lex.input == old(self)@.lex.input,
            final(self)@.reg == old(self)@.reg,
            res_expr(p_let_binds(old(self)@, pairs_view(bs@)), r, final(self)@),
        decreases mark_of(self@.lex), 0nat,
    {
        let m0 = self.tokens.mark();
        match self.tokens.try_consume(&Token::Comma) {
            Ok(true) => {
                let n = match self.tokens.expect_lower_identifier() {
                    Ok(n) => n,
                    Err(e) => return Err(e),
                };
                match self.tokens.expect_token(&Token::Eq) {
                    Ok(()) => {},
                    Err(e) => return Err(e),
                }
                if !(self.tokens.mark() < m0) {
                    return Err(stuck());
                }
                let b = match self.parse_expr() {
                    Ok(b) => b,
                    Err(e) => return Err(e),
                };
                if !(self.tokens.mark() < m0) {
                    return Err(stuck());
                }
                let mut bs = bs;
                let ghost before = pairs_view(bs@);
                let ghost pv = (n@, b@);
                bs.push((n, b));
                assert(pairs_view(bs@) =~= before.push(pv));
                return self.parse_let_binds(bs);
            },
            Ok(false) => {},
            Err(e) => return Err(e),
        }
        match self.tokens.expect_token(&Token::In) {
            Ok(()) => {},
            Err(e) => return Err(e),
        }
        if !(self.tokens.mark() < m0) {
            return Err(stuck());
        }
        match self.parse_expr() {
            Ok(body) => Ok(wrap_lets(bs, body)),
            Err(e) => Err(e),
        }
    }

    fn parse_ctor_binding(&mut self) -> (r: Result<(u8, u8, Vec<Name>, Expr), ParseError>)
        requires
            old(self).wf(),
            lex_ok(old(self)@.lex.input),
        ensures
            final(self).wf(),
            final(self).builtins() == old(self).builtins(),
            final(self)@.lex.input == old(self)@.lex.input,
            final(self)@.reg == old(self)@.reg,
            res_binding(p_ctor_binding(old(self)@), r, final(self)@),
            r matches Ok(x) ==> binding_ok(final(self)@.reg, x.0, x.1),
        decreases mark_of(self@.lex), 0nat,
    {
        let m0 = self.tokens.mark();
        let name = match self.tokens.expect_upper_identifier() {
            Ok(n) => n,
            Err(e) => return Err(e),
        };
        let c = match self.ctors.get_with_type(name.as_str()) {
            Some(c) => c,
            None => return Err(named_error("unknown constructor: ", &name)),
        };
        proof {
            lemma_found_in_type(self@.reg.ctors, name@);
            let tc = sort_by_tag(of_type(self@.reg.ctors, c.2));
            let k = choose|k: int| 0 <= k < tc.len() && tc[k] == (c.0, c.1);
            lemma_tag_pos(tc, c.0, k);
        }
        let bs = match self.paren_binds() {
            Ok(b) => b,
            Err(e) => return Err(e),
        };
        if bs.len() != c.1 as usize {
            return Err(arity_error(&name, " has arity ", c.1, ", but ", bs.len(), " binds given"));
        }
        match self.tokens.expect_token(&Token::Eq) {
            Ok(()) => {},
            Err(e) => return Err(e),
        }
        if !(self.tokens.mark() < m0) {
            return Err(stuck());
        }
        match self.parse_expr() {
            Ok(e) => Ok((c.0, c.2, bs, e)),
            Err(e) => Err(e),
        }
    }

    fn parse_destructs(&mut self, acc: Vec<(u8, Vec<Name>, Expr)>) -> (r: Result<Expr, ParseError>)
        requires
            old(self).wf(),
            lex_ok(old(self)@.lex.input),
        ensures
            final(self).wf(),
            final(self).builtins() == old(self).builtins(),
            final(self)@.lex.input == old(self)@.lex.input,
            final(self)@.reg == old(self)@.reg,
            res_expr(p_destructs(old(self)@, destructs_view(acc@)), r, final(self)@),
        decreases mark_of(self@.lex), 1nat,
    {
        let m0 = self.tokens.mark();
        let (tag, _tid, binds, scrut) = match self.parse_ctor_binding() {
            Ok(b) => b,
            Err(e) => return Err(e),
        };
        let mut acc = acc;
        let ghost before = destructs_view(acc@);
        let ghost bv = (tag, dnames_view(binds@), scrut@);
        acc.push((tag, binds, scrut));
        assert(destructs_view(acc@) =~= before.push(bv));
        match self.tokens.try_consume(&Token::Comma) {
            Ok(true) => {
                if !(self.tokens.mark() < m0) {
                    return Err(stuck());
                }
                return self.parse_destructs(acc);
            },
            Ok(false) => {},
            Err(e) => return Err(e),
        }
        match self.tokens.expect_token(&Token::In) {
            Ok(()) => {},
            Err(e) => return Err(e),
        }
        if !(self.tokens.mark() < m0) {
            return Err(stuck());
        }
        match self.parse_expr() {
            Ok(body) => Ok(wrap_destructs(acc, body)),
            Err(e) => Err(e),
        }
    }

    fn parse_if_binding(&mut self) -> (r: Result<Expr, ParseError>)
        requires
            old(self).wf(),
            lex_ok(old(self)@.lex.input),
        ensures
            final(self).wf(),
            final(self).builtins() == old(self).builtins(),
            final(self)@.lex.input == old(self)@.lex.input,
            final(self)@.reg == old(self)@.reg,
            res_expr(p_if(old(self)@), r, final(self)@),
        decreases mark_of(self@.lex), 0nat,
    {
        let m0 = self.tokens.mark();
        match self.tokens.expect_token(&Token::If) {
            Ok(()) => {},
            Err(e) => return Err(e),
        }
        if !(self.tokens.mark() < m0) {
            return Err(stuck());
        }
        let acc: Vec<(u8, u8, Vec<Name>, Expr)> = Vec::new();
        assert(bindings_view(acc@) =~= Seq::<(u8, u8, Seq<DName>, DExpr)>::empty());
        self.parse_if_binds(acc)
    }

    fn parse_if_binds(&mut self, acc: Vec<(u8, u8, Vec<Name>, Expr)>) -> (r: Result<Expr, ParseError>)
        requires
            old(self).wf(),
            lex_ok(old(self)@.lex.input),
            forall|i: int| 0 <= i < acc@.len() ==> binding_ok(old(self)@.reg, (#[trigger] acc@[i]).0, acc@[i].1),
        ensures
            final(self).wf(),
            final(self).builtins() == old(self).builtins(),
            final(self)@.lex.input == old(self)@.lex.input,
            final(self)@.reg == old(self)@.reg,
            res_expr(p_if_binds(old(self)@, bindings_view(acc@)), r, final(self)@),
        decreases mark_of(self@.lex), 1nat,
    {
        let m0 = self.tokens.mark();
        let b = match self.parse_ctor_binding() {
            Ok(b) => b,
            Err(e) => return Err(e),
        };
        let mut acc = acc;
        let ghost before = bindings_view(acc@);
        let ghost bv = (b.0, b.1, dnames_view(b.2@), b.3@);
        acc.push(b);
        assert(bindings_view(acc@) =~= before.push(bv));
        match self.tokens.try_consume(&Token::Comma) {
            Ok(true) => {
                if !(self.tokens.mark() < m0) {
                    return Err(stuck());
                }
                return self.parse_if_binds(acc);
            },
            Ok(false) => {},
            Err(e) => return Err(e),
        }
        match self.tokens.expect_token(&Token::Then) {
            Ok(()) => {},
            Err(e) => return Err(e),
        }
        if !(self.tokens.mark() < m0) {
            return Err(stuck());
        }
        let body = match self.parse_expr() {
            Ok(b) => b,
            Err(e) => return Err(e),
        };
        match self.tokens.expect_token(&Token::Else) {
            Ok(()) => {},
            Err(e) => return Err(e),
        }
        if !(self.tokens.mark() < m0) {
            return Err(stuck());
        }
        let alt = match self.parse_expr() {
            Ok(b) => b,
            Err(e) => return Err(e),
        };
        Ok(self.wrap_ifs(acc, alt, body))
    }

    fn wrap_ifs(&self, bs: Vec<(u8, u8, Vec<Name>, Expr)>, alt: Expr, body: Expr) -> (r: Expr)
        requires
            self.wf(),
            forall|i: int| 0 <= i < bs@.len() ==> binding_ok(self@.reg, (#[trigger] bs@[i]).0, bs@[i].1),
        ensures
            r@ == fold_ifs(bindings_view(bs@), self@.reg, alt@, body@),
    {
        let ghost want = fold_ifs(bindings_view(bs@), self@.reg, alt@, body@);
        let mut bs = bs;
        let mut acc = body;
        while bs.len() > 0
            invariant
                self.wf(),
                forall|i: int| 0 <= i < bs@.len() ==> binding_ok(self@.reg, (#[trigger] bs@[i]).0, bs@[i].1),
                fold_ifs(bindings_view(bs@), self@.reg, alt@, acc@) == want,
            decreases bs@.len(),
        {
            let ghost before = bs@;
            let (tag, tid, binds, scrut) = match bs.pop() {
                Some(p) => p,
                None => return acc,
            };
            assert(bindings_view(before).drop_last() =~= bindings_view(bs@));
            assert(before[before.len() - 1] == (tag, tid, binds, scrut));
            let tc = self.ctors.ctors_of_type(tid);
            acc = make_if_match(tag, &tc, binds, scrut, &alt, acc);
        }
        assert(bindings_view(bs@) =~= Seq::<(u8, u8, Seq<DName>, DExpr)>::empty());
        acc
    }

    fn missing_names(&self, tc: &Vec<(u8, u8)>, cases: &Vec<(u8, Case)>) -> (r: Vec<String>)
        requires
            self.wf(),
        ensures
            dnames_view(r@) == missing_names(tc@, tagged_cases_view(cases@), self@.reg.ctors),
    {
        let ghost cv = tagged_cases_view(cases@);
        let mut out: Vec<String> = Vec::new();
        let mut i: usize = 0;
        assert(dnames_view(out@) =~= Seq::<Seq<char>>::empty());
        while i < tc.len()
            invariant
                i <= tc@.len(),
                cv == tagged_cases_view(cases@),
                dnames_view(out@) == missing_names(tc@.take(i as int), cv, self@.reg.ctors),
            decreases tc@.len() - i,
        {
            let tag = tc[i].0;
            let ghost before = dnames_view(out@);
            if find_case(cases, tag).is_none() {
                match self.ctors.name_of_tag(tag) {
                    Some(n) => {
                        let s = text(n);
                        let ghost sv = s@;
                        out.push(s);
                        assert(dnames_view(out@) =~= before.push(sv));
                    },
                    None => {},
                }
            }
            proof {
                let u = tc@.take(i + 1);
                assert(u.drop_last() =~= tc@.take(i as int));
                assert(u.last() == tc@[i as int]);
            }
            assert(dnames_view(out@) =~= missing_names(tc@.take(i + 1), cv, self@.reg.ctors));
            i += 1;
        }
        assert(tc@.take(tc@.len() as int) =~= tc@);
        out
    }

    fn parse_match(&mut self) -> (r: Result<Expr, ParseError>)
        requires
            old(self).wf(),
            lex_ok(old(self)@.lex.input),
        ensures
            final(self).wf(),
            final(self).builtins() == old(self).builtins(),
            final(self)@.lex.input == old(self)@.lex.input,
            final(self)@.reg == old(self)@.reg,
            res_expr(p_match(old(self)@), r, final(self)@),
        decreases mark_of(self@.lex), 0nat,
    {
        let m0 = self.tokens.mark();
        match self.tokens.expect_token(&Token::Match) {
            Ok(()) => {},
            Err(e) => return Err(e),
        }
        if !(self.tokens.mark() < m0) {
            return Err(stuck());
        }
        let scrut = match self.parse_app() {
            Ok(e) => e,
            Err(e) => return Err(e),
        };
        if !(self.tokens.mark() < m0) {
            return Err(stuck());
        }
        let cases0: Vec<(u8, Case)> = Vec::new();
        assert(tagged_cases_view(cases0@) =~= Seq::<(u8, DCase)>::empty());
        let (cases, wild, tid) = match self.parse_cases(cases0, None, None) {
            Ok(r) => r,
            Err(e) => return Err(e),
        };
        match self.tokens.expect_token(&Token::End) {
            Ok(()) => {},
            Err(e) => return Err(e),
        }
        let tid = match tid {
            Some(t) => t,
            None => return Err(ParseError { message: text("match requires at least one constructor branch") }),
        };
        let tc = self.ctors.ctors_of_type(tid);
        if wild.is_none() {
            let missing = self.missing_names(&tc, &cases);
            if missing.len() > 0 {
                let mut m = text("non-exhaustive match: missing constructor(s) ");
                let j = join_names(&missing, ", ");
                m.append(j.as_str());
                return Err(ParseError { message: m });
            }
            proof {
                lemma_type_tags_named(self@.reg.ctors, tid);
                lemma_none_missing(tc@, tagged_cases_view(cases@), self@.reg.ctors);
            }
        }
        Ok(make_match(scrut, &cases, &tc, &wild))
    }

    fn parse_cases(&mut self, cases: Vec<(u8, Case)>, wild: Option<Expr>, tid: Option<u8>) -> (r: Result<
        (Vec<(u8, Case)>, Option<Expr>, Option<u8>),
        ParseError,
    >)
        requires
            old(self).wf(),
            lex_ok(old(self)@.lex.input),
        ensures
            final(self).wf(),
            final(self).builtins() == old(self).builtins(),
            final(self)@.lex.input == old(self)@.lex.input,
            final(self)@.reg == old(self)@.reg,
            res_cases(p_cases(old(self)@, tagged_cases_view(cases@), opt_expr_view(wild), tid), r, final(self)@),
        decreases mark_of(self@.lex), 0nat,
    {
        let m0 = self.tokens.mark();
        match self.tokens.try_consume(&Token::Pipe) {
            Ok(true) => {},
            Ok(false) => return Ok((cases, wild, tid)),
            Err(e) => return Err(e),
        }
        let is_wild = match self.tokens.peek_token() {
            Ok(Token::LowerIdent(x)) => x.eq(&text("_")),
            Ok(_) => false,
            Err(e) => return Err(e),
        };
        if is_wild {
            match self.tokens.next_token() {
                Ok(_) => {},
                Err(e) => return Err(e),
            }
            match self.tokens.expect_token(&Token::Arrow) {
                Ok(()) => {},
                Err(e) => return Err(e),
            }
            if !(self.tokens.mark() < m0) {
                return Err(stuck());
            }
            let body = match self.parse_expr() {
                Ok(b) => b,
                Err(e) => return Err(e),
            };
            if wild.is_some() {
                return Err(ParseError { message: text("duplicate wildcard case in match") });
            }
            if !(self.tokens.mark() < m0) {
                return Err(stuck());
            }
            return self.parse_cases(cases, Some(body), tid);
        }
        if wild.is_some() {
            return Err(ParseError { message: text("no case branches allowed after wildcard `_`") });
        }
        let name = match self.tokens.expect_upper_identifier() {
            Ok(n) => n,
            Err(e) => return Err(e),
        };
        let c = match self.ctors.get_with_type(name.as_str()) {
            Some(c) => c,
            None => return Err(named_error("unknown constructor: ", &name)),
        };
        match tid {
            Some(p) => {
                if p != c.2 {
                    return Err(ParseError { message: text("match branches mix constructors from different types") });
                }
            },
            None => {},
        }
        let bs = match self.paren_binds() {
            Ok(b) => b,
            Err(e) => return Err(e),
        };
        if bs.len() != c.1 as usize {
            return Err(arity_error(&name, " has arity ", c.1, ", but ", bs.len(), " binds given"));
        }
        match self.tokens.expect_token(&Token::Arrow) {
            Ok(()) => {},
            Err(e) => return Err(e),
        }
        if !(self.tokens.mark() < m0) {
            return Err(stuck());
        }
        let body = match self.parse_expr() {
            Ok(b) => b,
            Err(e) => return Err(e),
        };
        if !(self.tokens.mark() < m0) {
            return Err(stuck());
        }
        let mut cases = cases;
        let ghost before = tagged_cases_view(cases@);
        let ghost cv = (c.0, DCase { binds: dnames_view(bs@), body: body@ });
        cases.push((c.0, Case { binds: bs, body }));
        assert(tagged_cases_view(cases@) =~= before.push(cv));
        self.parse_cases(cases, wild, Some(c.2))
    }

    fn parse_field(&mut self) -> (r: Result<Expr, ParseError>)
        requires
            old(self).wf(),
            lex_ok(old(self)@.lex.input),
        ensures
            final(self).wf(),
            final(self).builtins() == old(self).builtins(),
            final(self)@.lex.input == old(self)@.lex.input,
            final(self)@.reg == old(self)@.reg,
            res_expr(p_field(old(self)@), r, final(self)@),
        decreases mark_of(self@.lex), 0nat,
    {
        let m0 = self.tokens.mark();
        match self.tokens.expect_token(&Token::Field) {
            Ok(()) => {},
            Err(e) => return Err(e),
        }
        let n = match self.tokens.expect_number() {
            Ok(n) => n,
            Err(e) => return Err(e),
        };
        match self.tokens.expect_token(&Token::Of) {
            Ok(()) => {},
            Err(e) => return Err(e),
        }
        if !(self.tokens.mark() < m0) {
            return Err(stuck());
        }
        match self.parse_expr() {
            Ok(e) => Ok(ds::Expr::Field(Box::new(e), #[verifier::truncate] (n as u8))),
            Err(e) => Err(e),
        }
    }

    fn parse_builtin(&mut self) -> (r: Result<Expr, ParseError>)
        requires
            old(self).wf(),
            lex_ok(old(self)@.lex.input),
        ensures
            final(self).wf(),
            final(self).builtins() == old(self).builtins(),
            final(self)@.lex.input == old(self)@.lex.input,
            final(self)@.reg == old(self)@.reg,
            res_expr(p_builtin(old(self)@), r, final(self)@),
        decreases mark_of(self@.lex), 0nat,
    {
        let m0 = self.tokens.mark();
        match self.tokens.expect_token(&Token::Builtin) {
            Ok(()) => {},
            Err(e) => return Err(e),
        }
        let name = match self.tokens.expect_lower_identifier() {
            Ok(n) => n,
            Err(e) => return Err(e),
        };
        let (op, k) = match builtin_lookup(&name) {
            Some(x) => x,
            None => return Err(named_error("unknown builtin operation: ", &name)),
        };
        if !(self.tokens.mark() < m0) {
            return Err(stuck());
        }
        let args: Vec<Expr> = Vec::new();
        assert(dexprs_view(args@) =~= Seq::<DExpr>::empty());
        match self.parse_atoms(k, args) {
            Ok(args) => Ok(ds::Expr::Prim(op, args)),
            Err(e) => Err(e),
        }
    }

    fn parse_atoms(&mut self, k: usize, acc: Vec<Expr>) -> (r: Result<Vec<Expr>, ParseError>)
        requires
            old(self).wf(),
            lex_ok(old(self)@.lex.input),
        ensures
            final(self).wf(),
            final(self).builtins() == old(self).builtins(),
            final(self)@.lex.input == old(self)@.lex.input,
            final(self)@.reg == old(self)@.reg,
            res_exprs(p_atoms(old(self)@, k as nat, dexprs_view(acc@)), r, final(self)@),
        decreases mark_of(self@.lex), 2nat,
    {
        if k == 0 {
            return Ok(acc);
        }
        let m0 = self.tokens.mark();
        let a = match self.parse_atom() {
            Ok(a) => a,
            Err(e) => return Err(e),
        };
        if !(self.tokens.mark() < m0) {
            return Err(stuck());
        }
        let mut acc = acc;
        let ghost before = dexprs_view(acc@);
        let ghost av = a@;
        acc.push(a);
        assert(dexprs_view(acc@) =~= before.push(av));
        self.parse_atoms(k - 1, acc)
    }

    fn parse_app(&mut self) -> (r: Result<Expr, ParseError>)
        requires
            old(self).wf(),
            lex_ok(old(self)@.lex.input),
        ensures
            final(self).wf(),
            final(self).builtins() == old(self).builtins(),
            final(self)@.lex.input == old(self)@.lex.input,
            final(self)@.reg == old(self)@.reg,
            res_expr(p_app(old(self)@), r, final(self)@),
        decreases mark_of(self@.lex), 2nat,
    {
        let m0 = self.tokens.mark();
        let h = match self.parse_atom() {
            Ok(a) => a,
            Err(e) => return Err(e),
        };
        if !(self.tokens.mark() < m0) {
            return Err(stuck());
        }
        let args: Vec<Expr> = Vec::new();
        assert(dexprs_view(args@) =~= Seq::<DExpr>::empty());
        self.parse_app_args(h, args)
    }

    fn parse_app_args(&mut self, head: Expr, args: Vec<Expr>) -> (r: Result<Expr, ParseError>)
        requires
            old(self).wf(),
            lex_ok(old(self)@.lex.input),
        ensures
            final(self).wf(),
            final(self).builtins() == old(self).builtins(),
            final(self)@.lex.input == old(self)@.lex.input,
            final(self)@.reg == old(self)@.reg,
            res_expr(p_app_args(old(self)@, head@, dexprs_view(args@)), r, final(self)@),
        decreases mark_of(self@.lex), 2nat,
    {
        let m0 = self.tokens.mark();
        let start = match self.tokens.peek_token() {
            Ok(t) => is_atom_token(t),
            Err(e) => return Err(e),
        };
        if start {
            if !(self.tokens.mark() <= m0) {
                return Err(stuck());
            }
            let a = match self.parse_atom() {
                Ok(a) => a,
                Err(e) => return Err(e),
            };
            if !(self.tokens.mark() < m0) {
                return Err(stuck());
            }
            let mut args = args;
            let ghost before = dexprs_view(args@);
            let ghost av = a@;
            args.push(a);
            assert(dexprs_view(args@) =~= before.push(av));
            return self.parse_app_args(head, args);
        }
        if args.len() == 0 {
            Ok(head)
        } else {
            Ok(ds::Expr::Apply(Box::new(head), args))
        }
    }

    fn parse_atom(&mut self) -> (r: Result<Expr, ParseError>)
        requires
            old(self).wf(),
            lex_ok(old(self)@.lex.input),
        ensures
            final(self).wf(),
            final(self).builtins() == old(self).builtins(),
            final(self)@.lex.input == old(self)@.lex.input,
            final(self)@.reg == old(self)@.reg,
            res_expr(p_atom(old(self)@), r, final(self)@),
        decreases mark_of(self@.lex), 1nat,
    {
        let m0 = self.tokens.mark();
        let kind: u8 = match self.tokens.peek_token() {
            Ok(Token::LowerIdent(_)) => 1,
            Ok(Token::UpperIdent(_)) => 2,
            Ok(Token::Number(_)) => 3,
            Ok(Token::StringLit(_)) => 4,
            Ok(Token::LParen) => 5,
            Ok(t) => {
                let d = token_text(t);
                let mut m = text("expected expression, got ");
                m.append(d.as_str());
                return Err(ParseError { message: m });
            },
            Err(e) => return Err(e),
        };
        if kind == 1 {
            return match self.tokens.expect_lower_identifier() {
                Ok(n) => Ok(ds::Expr::Var(n)),
                Err(e) => Err(e),
            };
        }
        if kind == 2 {
            if !(self.tokens.mark() <= m0) {
                return Err(stuck());
            }
            return self.parse_ctor();
        }
        if kind == 3 {
            return match self.tokens.expect_number() {
                Ok(n) => Ok(ds::Expr::Int(#[verifier::truncate] (n as i32))),
                Err(e) => Err(e),
            };
        }
        if kind == 4 {
            return match self.tokens.next_token() {
                Ok(Token::StringLit(d)) => Ok(ds::Expr::Bytes(d)),
                Ok(_) => Err(ParseError { message: String::new() }),
                Err(e) => Err(e),
            };
        }
        match self.tokens.next_token() {
            Ok(_) => {},
            Err(e) => return Err(e),
        }
        if !(self.tokens.mark() < m0) {
            return Err(stuck());
        }
        let e = match self.parse_expr() {
            Ok(e) => e,
            Err(e) => return Err(e),
        };
        match self.tokens.expect_token(&Token::RParen) {
            Ok(()) => Ok(e),
            Err(e) => Err(e),
        }
    }

    #[verifier::rlimit(50)]
    #[verifier::spinoff_prover]
    fn parse_ctor(&mut self) -> (r: Result<Expr, ParseError>)
        requires
            old(self).wf(),
            lex_ok(old(self)@.lex.input),
        ensures
            final(self).wf(),
            final(self).builtins() == old(self).builtins(),
            final(self)@.lex.input == old(self)@.lex.input,
            final(self)@.reg == old(self)@.reg,
            res_expr(p_ctor(old(self)@), r, final(self)@),
        decreases mark_of(self@.lex), 0nat,
    {
        let m0 = self.tokens.mark();
        let name = match self.tokens.expect_upper_identifier() {
            Ok(n) => n,
            Err(e) => return Err(e),
        };
        let (tag, arity) = match self.ctors.get(name.as_str()) {
            Some(c) => c,
            None => return Err(named_error("unknown constructor: ", &name)),
        };
        if arity == 0 {
            let fs: Vec<Expr> = Vec::new();
            assert(dexprs_view(fs@) =~= Seq::<DExpr>::empty());
            return Ok(ds::Expr::Ctor(tag, fs));
        }
        match self.tokens.expect_token(&Token::LParen) {
            Ok(()) => {},
            Err(e) => return Err(e),
        }
        if !(self.tokens.mark() < m0) {
            return Err(stuck());
        }
        let f = match self.parse_expr() {
            Ok(e) => e,
            Err(e) => return Err(e),
        };
        if !(self.tokens.mark() < m0) {
            return Err(stuck());
        }
        let ghost fv = f@;
        let fs0 = vec![f];
        assert(dexprs_view(fs0@) =~= seq![fv]);
        let fs = match self.parse_fields(fs0) {
            Ok(fs) => fs,
            Err(e) => return Err(e),
        };
        match self.tokens.expect_token(&Token::RParen) {
            Ok(()) => {},
            Err(e) => return Err(e),
        }
        if fs.len() != arity as usize {
            proof {
                reveal_strlit("");
            }
            return Err(arity_error(&name, " expects ", arity, " fields, got ", fs.len(), ""));
        }
        Ok(ds::Expr::Ctor(tag, fs))
    }

    fn parse_fields(&mut self, fs: Vec<Expr>) -> (r: Result<Vec<Expr>, ParseError>)
        requires
            old(self).wf(),
            lex_ok(old(self)@.lex.input),
        ensures
            final(self).wf(),
            final(self).builtins() == old(self).builtins(),
            final(self)@.lex.input == old(self)@.lex.input,
            final(self)@.reg == old(self)@.reg,
            res_exprs(p_fields(old(self)@, dexprs_view(fs@)), r, final(self)@),
        decreases mark_of(self@.lex), 0nat,
    {
        let m0 = self.tokens.mark();
        match self.tokens.try_consume(&Token::Comma) {
            Ok(true) => {},
            Ok(false) => return Ok(fs),
            Err(e) => return Err(e),
        }
        if !(self.tokens.mark() < m0) {
            return Err(stuck());
        }
        let f = match self.parse_expr() {
            Ok(e) => e,
            Err(e) => return Err(e),
        };
        if !(self.tokens.mark() < m0) {
            return Err(stuck());
        }
        let mut fs = fs;
        let ghost before = dexprs_view(fs@);
        let ghost fv = f@;
        fs.push(f);
        assert(dexprs_view(fs@) =~= before.push(fv));
        self.parse_fields(fs)
    }
}

} // verus!
