// The grammar of Fleche as spec functions over the parser's state: what each
// step of the parser reads and gives, and the proof that every step that
// recurses has read a token first.
use vstd::prelude::*;
use crate::disasm::join;
use crate::fleche::lexer::{
    LexerV, TokenV, lemma_next_progress, lemma_peek_progress, letters_ok, lexer_wf, lx_expect, lx_lower, lx_next,
    lx_number, lx_peek, lx_try, lx_upper, mark_of, token_debug,
};
use crate::frontend::{RegistryV, capacity_text, find_ctor, name_with_tag, of_type, resolve_spec, sort_by_tag};
use crate::ir::ds::{DCase, DDefine, DExpr, DName};
use crate::ir::prim::{BytesOp, IntOp, PrimOp};
use crate::ir::cps_text::prim_name;
use crate::pass::cps_rewrite::rewrite_01_inlining::decimal;

verus! {

// ── Specification: state and tokens ──────────────────────────────────────────

/// The state of a parser: its token reader and its constructor registry.
pub struct PState {
    pub lex: LexerV,
    pub reg: RegistryV,
}

/// What a step of the parser gives: a value and the state after it, or the
/// message that stopped it.
pub enum PR<T> {
    Done(T, PState),
    Fail(Seq<char>),
    /// A recursive step would not have advanced: the parser stops rather
    /// than loop.
    Stuck,
}

pub open spec fn with_lex(s: PState, l: LexerV) -> PState {
    PState { lex: l, reg: s.reg }
}

pub open spec fn p_peek(s: PState) -> PR<TokenV> {
    match lx_peek(s.lex) {
        Ok((t, l)) => PR::Done(t, with_lex(s, l)),
        Err(m) => PR::Fail(m),
    }
}

pub open spec fn p_next(s: PState) -> PR<TokenV> {
    match lx_next(s.lex) {
        Ok((t, l)) => PR::Done(t, with_lex(s, l)),
        Err(m) => PR::Fail(m),
    }
}

pub open spec fn p_try(s: PState, t: TokenV) -> PR<bool> {
    match lx_try(s.lex, t) {
        Ok((b, l)) => PR::Done(b, with_lex(s, l)),
        Err(m) => PR::Fail(m),
    }
}

pub open spec fn p_expect(s: PState, t: TokenV) -> PR<()> {
    match lx_expect(s.lex, t) {
        Ok((_, l)) => PR::Done((), with_lex(s, l)),
        Err(m) => PR::Fail(m),
    }
}

pub open spec fn p_lower(s: PState) -> PR<DName> {
    match lx_lower(s.lex) {
        Ok((n, l)) => PR::Done(n, with_lex(s, l)),
        Err(m) => PR::Fail(m),
    }
}

pub open spec fn p_upper(s: PState) -> PR<DName> {
    match lx_upper(s.lex) {
        Ok((n, l)) => PR::Done(n, with_lex(s, l)),
        Err(m) => PR::Fail(m),
    }
}

pub open spec fn p_number(s: PState) -> PR<i128> {
    match lx_number(s.lex) {
        Ok((n, l)) => PR::Done(n, with_lex(s, l)),
        Err(m) => PR::Fail(m),
    }
}

/// `s1` is further on than `s0`, or as far with a smaller rank: each
/// recursive step of the parser takes one of these, else it stops with
/// `stuck_text`. Every step that the grammar takes reads a token first,
/// so none stops.
pub open spec fn advances(s1: PState, r1: nat, s0: PState, r0: nat) -> bool {
    mark_of(s1.lex) < mark_of(s0.lex) || (mark_of(s1.lex) == mark_of(s0.lex) && r1 < r0)
}

pub open spec fn stuck_text() -> Seq<char> {
    "the parser did not advance"@
}

// ── Specification: messages ───────────────────────────────────────────────────

pub open spec fn unknown_ctor_text(n: Seq<char>) -> Seq<char> {
    "unknown constructor: "@ + n
}

pub open spec fn binds_arity_text(n: Seq<char>, arity: u8, k: nat) -> Seq<char> {
    "constructor "@ + n + " has arity "@ + decimal(arity as nat) + ", but "@ + decimal(k) + " binds given"@
}

pub open spec fn fields_arity_text(n: Seq<char>, arity: u8, k: nat) -> Seq<char> {
    "constructor "@ + n + " expects "@ + decimal(arity as nat) + " fields, got "@ + decimal(k)
}

// ── Specification: building expressions ───────────────────────────────────────

/// `fun p1 -> fun p2 -> ... body`, one parameter per lambda.
pub open spec fn fold_lambdas(ps: Seq<DName>, body: DExpr) -> DExpr
    decreases ps.len(),
{
    if ps.len() == 0 {
        body
    } else {
        fold_lambdas(ps.drop_last(), DExpr::Lambda(seq![ps.last()], Box::new(body)))
    }
}

/// Nested `let`s, the first binding outermost.
pub open spec fn fold_lets(bs: Seq<(DName, DExpr)>, body: DExpr) -> DExpr
    decreases bs.len(),
{
    if bs.len() == 0 {
        body
    } else {
        fold_lets(bs.drop_last(), DExpr::Let(bs.last().0, Box::new(bs.last().1), Box::new(body)))
    }
}

/// Nested one-branch matches that take constructors apart, the first
/// outermost.
pub open spec fn fold_destructs(bs: Seq<(u8, Seq<DName>, DExpr)>, body: DExpr) -> DExpr
    decreases bs.len(),
{
    if bs.len() == 0 {
        body
    } else {
        let b = bs.last();
        fold_destructs(bs.drop_last(), DExpr::Match(Box::new(b.2), b.0, seq![DCase { binds: b.1, body }]))
    }
}

/// `k` names `_`.
pub open spec fn underscores(k: u8) -> Seq<DName> {
    Seq::new(k as nat, |i: int| "_"@)
}

/// The least tag of `tc`, or `d` if it is empty.
pub open spec fn min_tag(tc: Seq<(u8, u8)>, d: u8) -> u8
    decreases tc.len(),
{
    if tc.len() == 0 {
        d
    } else {
        let r = min_tag(tc.drop_last(), tc.last().0);
        if tc.last().0 < r {
            tc.last().0
        } else {
            r
        }
    }
}

/// Where tag `tag` first stands in `tc`.
pub open spec fn tag_pos(tc: Seq<(u8, u8)>, tag: u8) -> nat
    decreases tc.len(),
{
    if tc.len() == 0 || tc[0].0 == tag {
        0
    } else {
        1 + tag_pos(tc.drop_first(), tag)
    }
}

/// The match that `if C(x) = e then a else b` stands for: the branch of `C`
/// takes `a`, every other constructor of its type takes `b`.
pub open spec fn if_match(tag: u8, tc: Seq<(u8, u8)>, binds: Seq<DName>, scrut: DExpr, alt: DExpr, body: DExpr) -> DExpr {
    DExpr::Match(
        Box::new(scrut),
        min_tag(tc, tag),
        Seq::new(
            tc.len(),
            |i: int|
                if i == tag_pos(tc, tag) {
                    DCase { binds, body }
                } else {
                    DCase { binds: underscores(tc[i].1), body: alt }
                },
        ),
    )
}

pub open spec fn fold_ifs(bs: Seq<(u8, u8, Seq<DName>, DExpr)>, reg: RegistryV, alt: DExpr, body: DExpr) -> DExpr
    decreases bs.len(),
{
    if bs.len() == 0 {
        body
    } else {
        let b = bs.last();
        fold_ifs(bs.drop_last(), reg, alt, if_match(b.0, sort_by_tag(of_type(reg.ctors, b.1)), b.2, b.3, alt, body))
    }
}

/// The first branch for tag `tag`.
pub open spec fn case_for(cases: Seq<(u8, DCase)>, tag: u8) -> Option<DCase>
    decreases cases.len(),
{
    if cases.len() == 0 {
        None
    } else if cases[0].0 == tag {
        Some(cases[0].1)
    } else {
        case_for(cases.drop_first(), tag)
    }
}

/// A match with one branch per constructor of the type, in tag order: the
/// branch written for it, or else the wildcard's body.
pub open spec fn build_match(scrut: DExpr, cases: Seq<(u8, DCase)>, tc: Seq<(u8, u8)>, wild: Option<DExpr>) -> DExpr {
    DExpr::Match(
        Box::new(scrut),
        min_tag(tc, 0),
        Seq::new(
            tc.len(),
            |i: int|
                match case_for(cases, tc[i].0) {
                    Some(c) => c,
                    None => DCase { binds: underscores(tc[i].1), body: wild->0 },
                },
        ),
    )
}

/// The names of the constructors of `tc` that no branch covers.
pub open spec fn missing_names(tc: Seq<(u8, u8)>, cases: Seq<(u8, DCase)>, ctors: Seq<(Seq<char>, (u8, u8, u8))>) -> Seq<Seq<char>>
    decreases tc.len(),
{
    if tc.len() == 0 {
        Seq::empty()
    } else {
        let tag = tc.last().0;
        missing_names(tc.drop_last(), cases, ctors) + if case_for(cases, tag) is None {
            match name_with_tag(ctors, tag) {
                Some(n) => seq![n],
                None => Seq::empty(),
            }
        } else {
            Seq::empty()
        }
    }
}

/// The primitive that `builtin name` stands for, and how many arguments it
/// takes.
pub open spec fn builtin_op(n: Seq<char>) -> Option<(PrimOp, nat)> {
    if n == "add"@ {
        Some((PrimOp::Int(IntOp::Add), 2))
    } else if n == "sub"@ {
        Some((PrimOp::Int(IntOp::Sub), 2))
    } else if n == "mul"@ {
        Some((PrimOp::Int(IntOp::Mul), 2))
    } else if n == "eq"@ {
        Some((PrimOp::Int(IntOp::Eq), 2))
    } else if n == "lt"@ {
        Some((PrimOp::Int(IntOp::Lt), 2))
    } else if n == "int_byte"@ {
        Some((PrimOp::Int(IntOp::Byte), 1))
    } else if n == "bytes_len"@ {
        Some((PrimOp::Bytes(BytesOp::Len), 1))
    } else if n == "bytes_get"@ {
        Some((PrimOp::Bytes(BytesOp::Get), 2))
    } else if n == "bytes_concat"@ {
        Some((PrimOp::Bytes(BytesOp::Concat), 2))
    } else if n == "bytes_slice"@ {
        Some((PrimOp::Bytes(BytesOp::Slice), 3))
    } else if n == "bytes_eq"@ {
        Some((PrimOp::Bytes(BytesOp::Eq), 2))
    } else {
        None
    }
}

/// A name with its first underscore made a dot.
pub open spec fn dotted(n: Seq<char>, i: int) -> bool {
    0 <= i < n.len() && n[i] == '_' && forall|j: int| 0 <= j < i ==> n[j] != '_'
}

/// The builtin that a source names is the primitive of that name: the
/// primitive's printed name is `int.` followed by the source name, or the
/// source name with its first underscore made a dot; and the builtin takes
/// as many operands as the primitive reads.
pub proof fn lemma_builtin_names(n: Seq<char>)
    ensures
        builtin_op(n) matches Some((op, k)) ==> {
            &&& (prim_name(op) == "int."@ + n || exists|i: int| dotted(n, i) && prim_name(op) == n.update(i, '.'))
            &&& k == op.operand_count()
        },
{
    reveal_strlit("int.");
    let found = builtin_op(n);
    if found is None {
        return;
    }
    let pair = found->Some_0;
    let op = pair.0;
    if n == "add"@ {
        reveal_strlit("add");
        reveal_strlit("int.add");
        assert(prim_name(op) =~= "int."@ + n);
    } else if n == "sub"@ {
        reveal_strlit("sub");
        reveal_strlit("int.sub");
        assert(prim_name(op) =~= "int."@ + n);
    } else if n == "mul"@ {
        reveal_strlit("mul");
        reveal_strlit("int.mul");
        assert(prim_name(op) =~= "int."@ + n);
    } else if n == "eq"@ {
        reveal_strlit("eq");
        reveal_strlit("int.eq");
        assert(prim_name(op) =~= "int."@ + n);
    } else if n == "lt"@ {
        reveal_strlit("lt");
        reveal_strlit("int.lt");
        assert(prim_name(op) =~= "int."@ + n);
    } else if n == "int_byte"@ {
        reveal_strlit("int_byte");
        reveal_strlit("int.byte");
        assert(n[3] == '_' && forall|j: int| 0 <= j < 3 ==> n[j] != '_');
        assert(prim_name(op) =~= n.update(3, '.'));
        assert(dotted(n, 3));
    } else if n == "bytes_len"@ {
        reveal_strlit("bytes_len");
        reveal_strlit("bytes.len");
        assert(n[5] == '_' && forall|j: int| 0 <= j < 5 ==> n[j] != '_');
        assert(prim_name(op) =~= n.update(5, '.'));
        assert(dotted(n, 5));
    } else if n == "bytes_get"@ {
        reveal_strlit("bytes_get");
        reveal_strlit("bytes.get");
        assert(n[5] == '_' && forall|j: int| 0 <= j < 5 ==> n[j] != '_');
        assert(prim_name(op) =~= n.update(5, '.'));
        assert(dotted(n, 5));
    } else if n == "bytes_concat"@ {
        reveal_strlit("bytes_concat");
        reveal_strlit("bytes.concat");
        assert(n[5] == '_' && forall|j: int| 0 <= j < 5 ==> n[j] != '_');
        assert(prim_name(op) =~= n.update(5, '.'));
        assert(dotted(n, 5));
    } else if n == "bytes_slice"@ {
        reveal_strlit("bytes_slice");
        reveal_strlit("bytes.slice");
        assert(n[5] == '_' && forall|j: int| 0 <= j < 5 ==> n[j] != '_');
        assert(prim_name(op) =~= n.update(5, '.'));
        assert(dotted(n, 5));
    } else if n == "bytes_eq"@ {
        reveal_strlit("bytes_eq");
        reveal_strlit("bytes.eq");
        assert(n[5] == '_' && forall|j: int| 0 <= j < 5 ==> n[j] != '_');
        assert(prim_name(op) =~= n.update(5, '.'));
        assert(dotted(n, 5));
    }
}

pub open spec fn is_atom_start(t: TokenV) -> bool {
    t is LowerIdent || t is UpperIdent || t is Number || t is StringLit || t is LParen
}

// ── Specification: the grammar ────────────────────────────────────────────────

/// `( name, name, ... )` after a constructor, or nothing.
pub open spec fn p_paren_binds(s: PState) -> PR<Seq<DName>> {
    match p_try(s, TokenV::LParen) {
        PR::Fail(m) => PR::Fail(m),
        PR::Stuck => PR::Stuck,
        PR::Done(false, s1) => PR::Done(Seq::empty(), s1),
        PR::Done(true, s1) => match p_peek(s1) {
            PR::Fail(m) => PR::Fail(m),
            PR::Stuck => PR::Stuck,
            PR::Done(t, s2) => {
                let inner = if t == TokenV::RParen {
                    PR::Done(Seq::empty(), s2)
                } else {
                    match p_lower(s2) {
                        PR::Fail(m) => PR::Fail(m),
                        PR::Stuck => PR::Stuck,
                        PR::Done(n, s3) => p_more_binds(s3, seq![n]),
                    }
                };
                match inner {
                    PR::Fail(m) => PR::Fail(m),
                    PR::Stuck => PR::Stuck,
                    PR::Done(bs, s4) => match p_expect(s4, TokenV::RParen) {
                        PR::Fail(m) => PR::Fail(m),
                        PR::Stuck => PR::Stuck,
                        PR::Done(_, s5) => PR::Done(bs, s5),
                    },
                }
            },
        },
    }
}

/// `, name` as often as it comes.
pub open spec fn p_more_binds(s: PState, acc: Seq<DName>) -> PR<Seq<DName>>
    decreases mark_of(s.lex),
{
    match p_try(s, TokenV::Comma) {
        PR::Fail(m) => PR::Fail(m),
        PR::Stuck => PR::Stuck,
        PR::Done(false, s1) => PR::Done(acc, s1),
        PR::Done(true, s1) => match p_lower(s1) {
            PR::Fail(m) => PR::Fail(m),
            PR::Stuck => PR::Stuck,
            PR::Done(n, s2) => if mark_of(s2.lex) < mark_of(s.lex) {
                p_more_binds(s2, acc.push(n))
            } else {
                PR::Stuck
            },
        },
    }
}

/// An expression.
pub open spec fn p_expr(s: PState) -> PR<DExpr>
    decreases mark_of(s.lex), 3nat,
{
    match p_peek(s) {
        PR::Fail(m) => PR::Fail(m),
        PR::Stuck => PR::Stuck,
        PR::Done(t, s1) => if t == TokenV::Let {
            if advances(s1, 0, s, 3) { p_let(s1) } else { PR::Stuck }
        } else if t == TokenV::Match {
            if advances(s1, 0, s, 3) { p_match(s1) } else { PR::Stuck }
        } else if t == TokenV::Field {
            if advances(s1, 0, s, 3) { p_field(s1) } else { PR::Stuck }
        } else if t == TokenV::Builtin {
            if advances(s1, 0, s, 3) { p_builtin(s1) } else { PR::Stuck }
        } else if t == TokenV::If {
            if advances(s1, 0, s, 3) { p_if(s1) } else { PR::Stuck }
        } else if t is LowerIdent {
            match p_lower(s1) {
                PR::Fail(m) => PR::Fail(m),
                PR::Stuck => PR::Stuck,
                PR::Done(name, s2) => match p_peek(s2) {
                    PR::Fail(m) => PR::Fail(m),
                    PR::Stuck => PR::Stuck,
                    PR::Done(t2, s3) => if t2 == TokenV::Arrow {
                        match p_next(s3) {
                            PR::Fail(m) => PR::Fail(m),
                            PR::Stuck => PR::Stuck,
                            PR::Done(_, s4) => if advances(s4, 4, s, 3) {
                                p_params(s4, seq![name])
                            } else {
                                PR::Stuck
                            },
                        }
                    } else if advances(s3, 2, s, 3) {
                        p_app_args(s3, DExpr::Var(name), Seq::empty())
                    } else {
                        PR::Stuck
                    },
                },
            }
        } else if advances(s1, 2, s, 3) {
            p_app(s1)
        } else {
            PR::Stuck
        },
    }
}

/// After `x ->`: more parameters, each followed by `->`, then the body.
pub open spec fn p_params(s: PState, ps: Seq<DName>) -> PR<DExpr>
    decreases mark_of(s.lex), 4nat,
{
    match p_peek(s) {
        PR::Fail(m) => PR::Fail(m),
        PR::Stuck => PR::Stuck,
        PR::Done(t, s1) => if t is LowerIdent {
            match p_lower(s1) {
                PR::Fail(m) => PR::Fail(m),
                PR::Stuck => PR::Stuck,
                PR::Done(x, s2) => match p_peek(s2) {
                    PR::Fail(m) => PR::Fail(m),
                    PR::Stuck => PR::Stuck,
                    PR::Done(t2, s3) => if t2 == TokenV::Arrow {
                        match p_next(s3) {
                            PR::Fail(m) => PR::Fail(m),
                            PR::Stuck => PR::Stuck,
                            PR::Done(_, s4) => if advances(s4, 4, s, 4) {
                                p_params(s4, ps.push(x))
                            } else {
                                PR::Stuck
                            },
                        }
                    } else if advances(s3, 2, s, 4) {
                        match p_app_args(s3, DExpr::Var(x), Seq::empty()) {
                            PR::Fail(m) => PR::Fail(m),
                            PR::Stuck => PR::Stuck,
                            PR::Done(b, s5) => PR::Done(fold_lambdas(ps, b), s5),
                        }
                    } else {
                        PR::Stuck
                    },
                },
            }
        } else if advances(s1, 3, s, 4) {
            match p_expr(s1) {
                PR::Fail(m) => PR::Fail(m),
                PR::Stuck => PR::Stuck,
                PR::Done(b, s2) => PR::Done(fold_lambdas(ps, b), s2),
            }
        } else {
            PR::Stuck
        },
    }
}

/// `let rec f x = e in b`, `let C(x) = e, ... in b`, or
/// `let x = e, y = e in b`.
pub open spec fn p_let(s: PState) -> PR<DExpr>
    decreases mark_of(s.lex), 0nat,
{
    match p_expect(s, TokenV::Let) {
        PR::Fail(m) => PR::Fail(m),
        PR::Stuck => PR::Stuck,
        PR::Done(_, s1) => match p_try(s1, TokenV::Rec) {
            PR::Fail(m) => PR::Fail(m),
            PR::Stuck => PR::Stuck,
            PR::Done(true, s2) => match p_lower(s2) {
                PR::Fail(m) => PR::Fail(m),
                PR::Stuck => PR::Stuck,
                PR::Done(f, s3) => match p_lower(s3) {
                    PR::Fail(m) => PR::Fail(m),
                    PR::Stuck => PR::Stuck,
                    PR::Done(x, s4) => match p_expect(s4, TokenV::Eq) {
                        PR::Fail(m) => PR::Fail(m),
                        PR::Stuck => PR::Stuck,
                        PR::Done(_, s5) => if advances(s5, 3, s, 0) {
                            match p_expr(s5) {
                                PR::Fail(m) => PR::Fail(m),
                                PR::Stuck => PR::Stuck,
                                PR::Done(body, s6) => match p_expect(s6, TokenV::In) {
                                    PR::Fail(m) => PR::Fail(m),
                                    PR::Stuck => PR::Stuck,
                                    PR::Done(_, s7) => if advances(s7, 3, s, 0) {
                                        match p_expr(s7) {
                                            PR::Fail(m) => PR::Fail(m),
                                            PR::Stuck => PR::Stuck,
                                            PR::Done(rest, s8) => PR::Done(
                                                DExpr::Letrec(f, x, Box::new(body), Box::new(rest)),
                                                s8,
                                            ),
                                        }
                                    } else {
                                        PR::Stuck
                                    },
                                },
                            }
                        } else {
                            PR::Stuck
                        },
                    },
                },
            },
            PR::Done(false, s2) => match p_peek(s2) {
                PR::Fail(m) => PR::Fail(m),
                PR::Stuck => PR::Stuck,
                PR::Done(t, s3) => if t is UpperIdent {
                    if advances(s3, 1, s, 0) {
                        p_destructs(s3, Seq::empty())
                    } else {
                        PR::Stuck
                    }
                } else {
                    match p_lower(s3) {
                        PR::Fail(m) => PR::Fail(m),
                        PR::Stuck => PR::Stuck,
                        PR::Done(n, s4) => match p_expect(s4, TokenV::Eq) {
                            PR::Fail(m) => PR::Fail(m),
                            PR::Stuck => PR::Stuck,
                            PR::Done(_, s5) => if advances(s5, 3, s, 0) {
                                match p_expr(s5) {
                                    PR::Fail(m) => PR::Fail(m),
                                    PR::Stuck => PR::Stuck,
                                    PR::Done(b, s6) => if advances(s6, 0, s, 0) {
                                        p_let_binds(s6, seq![(n, b)])
                                    } else {
                                        PR::Stuck
                                    },
                                }
                            } else {
                                PR::Stuck
                            },
                        },
                    }
                },
            },
        },
    }
}

/// `, y = e` as often as it comes, then `in` and the body.
pub open spec fn p_let_binds(s: PState, bs: Seq<(DName, DExpr)>) -> PR<DExpr>
    decreases mark_of(s.lex), 0nat,
{
    match p_try(s, TokenV::Comma) {
        PR::Fail(m) => PR::Fail(m),
        PR::Stuck => PR::Stuck,
        PR::Done(true, s1) => match p_lower(s1) {
            PR::Fail(m) => PR::Fail(m),
            PR::Stuck => PR::Stuck,
            PR::Done(n, s2) => match p_expect(s2, TokenV::Eq) {
                PR::Fail(m) => PR::Fail(m),
                PR::Stuck => PR::Stuck,
                PR::Done(_, s3) => if advances(s3, 3, s, 0) {
                    match p_expr(s3) {
                        PR::Fail(m) => PR::Fail(m),
                        PR::Stuck => PR::Stuck,
                        PR::Done(b, s4) => if advances(s4, 0, s, 0) {
                            p_let_binds(s4, bs.push((n, b)))
                        } else {
                            PR::Stuck
                        },
                    }
                } else {
                    PR::Stuck
                },
            },
        },
        PR::Done(false, s1) => match p_expect(s1, TokenV::In) {
            PR::Fail(m) => PR::Fail(m),
            PR::Stuck => PR::Stuck,
            PR::Done(_, s2) => if advances(s2, 3, s, 0) {
                match p_expr(s2) {
                    PR::Fail(m) => PR::Fail(m),
                    PR::Stuck => PR::Stuck,
                    PR::Done(body, s3) => PR::Done(fold_lets(bs, body), s3),
                }
            } else {
                PR::Stuck
            },
        },
    }
}

/// `C(x, ...) = e`: the constructor's tag and type, the names, and `e`.
pub open spec fn p_ctor_binding(s: PState) -> PR<(u8, u8, Seq<DName>, DExpr)>
    decreases mark_of(s.lex), 0nat,
{
    match p_upper(s) {
        PR::Fail(m) => PR::Fail(m),
        PR::Stuck => PR::Stuck,
        PR::Done(name, s1) => match find_ctor(s1.reg.ctors, name) {
            None => PR::Fail(unknown_ctor_text(name)),
            Some(c) => match p_paren_binds(s1) {
                PR::Fail(m) => PR::Fail(m),
                PR::Stuck => PR::Stuck,
                PR::Done(bs, s2) => if bs.len() != c.1 {
                    PR::Fail(binds_arity_text(name, c.1, bs.len()))
                } else {
                    match p_expect(s2, TokenV::Eq) {
                        PR::Fail(m) => PR::Fail(m),
                        PR::Stuck => PR::Stuck,
                        PR::Done(_, s3) => if advances(s3, 3, s, 0) {
                            match p_expr(s3) {
                                PR::Fail(m) => PR::Fail(m),
                                PR::Stuck => PR::Stuck,
                                PR::Done(e, s4) => PR::Done((c.0, c.2, bs, e), s4),
                            }
                        } else {
                            PR::Stuck
                        },
                    }
                },
            },
        },
    }
}

/// The bindings of `let C(x) = e, ... in b`, then the body.
pub open spec fn p_destructs(s: PState, acc: Seq<(u8, Seq<DName>, DExpr)>) -> PR<DExpr>
    decreases mark_of(s.lex), 1nat,
{
    match p_ctor_binding(s) {
        PR::Fail(m) => PR::Fail(m),
        PR::Stuck => PR::Stuck,
        PR::Done(b, s1) => {
            let acc1 = acc.push((b.0, b.2, b.3));
            match p_try(s1, TokenV::Comma) {
                PR::Fail(m) => PR::Fail(m),
                PR::Stuck => PR::Stuck,
                PR::Done(true, s2) => if advances(s2, 1, s, 1) {
                    p_destructs(s2, acc1)
                } else {
                    PR::Stuck
                },
                PR::Done(false, s2) => match p_expect(s2, TokenV::In) {
                    PR::Fail(m) => PR::Fail(m),
                    PR::Stuck => PR::Stuck,
                    PR::Done(_, s3) => if advances(s3, 3, s, 1) {
                        match p_expr(s3) {
                            PR::Fail(m) => PR::Fail(m),
                            PR::Stuck => PR::Stuck,
                            PR::Done(body, s4) => PR::Done(fold_destructs(acc1, body), s4),
                        }
                    } else {
                        PR::Stuck
                    },
                },
            }
        },
    }
}

/// `if C(x) = e, ... then a else b`.
pub open spec fn p_if(s: PState) -> PR<DExpr>
    decreases mark_of(s.lex), 0nat,
{
    match p_expect(s, TokenV::If) {
        PR::Fail(m) => PR::Fail(m),
        PR::Stuck => PR::Stuck,
        PR::Done(_, s1) => if advances(s1, 1, s, 0) {
            p_if_binds(s1, Seq::empty())
        } else {
            PR::Stuck
        },
    }
}

/// The bindings of an `if`, then its two branches.
pub open spec fn p_if_binds(s: PState, acc: Seq<(u8, u8, Seq<DName>, DExpr)>) -> PR<DExpr>
    decreases mark_of(s.lex), 1nat,
{
    match p_ctor_binding(s) {
        PR::Fail(m) => PR::Fail(m),
        PR::Stuck => PR::Stuck,
        PR::Done(b, s1) => {
            let acc1 = acc.push(b);
            match p_try(s1, TokenV::Comma) {
                PR::Fail(m) => PR::Fail(m),
                PR::Stuck => PR::Stuck,
                PR::Done(true, s2) => if advances(s2, 1, s, 1) {
                    p_if_binds(s2, acc1)
                } else {
                    PR::Stuck
                },
                PR::Done(false, s2) => match p_expect(s2, TokenV::Then) {
                    PR::Fail(m) => PR::Fail(m),
                    PR::Stuck => PR::Stuck,
                    PR::Done(_, s3) => if advances(s3, 3, s, 1) {
                        match p_expr(s3) {
                            PR::Fail(m) => PR::Fail(m),
                            PR::Stuck => PR::Stuck,
                            PR::Done(body, s4) => match p_expect(s4, TokenV::Else) {
                                PR::Fail(m) => PR::Fail(m),
                                PR::Stuck => PR::Stuck,
                                PR::Done(_, s5) => if advances(s5, 3, s, 1) {
                                    match p_expr(s5) {
                                        PR::Fail(m) => PR::Fail(m),
                                        PR::Stuck => PR::Stuck,
                                        PR::Done(alt, s6) => PR::Done(fold_ifs(acc1, s6.reg, alt, body), s6),
                                    }
                                } else {
                                    PR::Stuck
                                },
                            },
                        }
                    } else {
                        PR::Stuck
                    },
                },
            }
        },
    }
}

/// `match e | C(x) -> a | _ -> b end`.
pub open spec fn p_match(s: PState) -> PR<DExpr>
    decreases mark_of(s.lex), 0nat,
{
    match p_expect(s, TokenV::Match) {
        PR::Fail(m) => PR::Fail(m),
        PR::Stuck => PR::Stuck,
        PR::Done(_, s1) => if advances(s1, 2, s, 0) {
            match p_app(s1) {
                PR::Fail(m) => PR::Fail(m),
                PR::Stuck => PR::Stuck,
                PR::Done(scrut, s2) => if advances(s2, 0, s, 0) {
                    match p_cases(s2, Seq::empty(), None, None) {
                        PR::Fail(m) => PR::Fail(m),
                        PR::Stuck => PR::Stuck,
                        PR::Done(r, s3) => match p_expect(s3, TokenV::End) {
                            PR::Fail(m) => PR::Fail(m),
                            PR::Stuck => PR::Stuck,
                            PR::Done(_, s4) => match r.2 {
                                None => PR::Fail("match requires at least one constructor branch"@),
                                Some(tid) => {
                                    let tc = sort_by_tag(of_type(s4.reg.ctors, tid));
                                    let missing = missing_names(tc, r.0, s4.reg.ctors);
                                    if r.1 is None && missing.len() > 0 {
                                        PR::Fail("non-exhaustive match: missing constructor(s) "@ + join(missing, ", "@))
                                    } else {
                                        PR::Done(build_match(scrut, r.0, tc, r.1), s4)
                                    }
                                },
                            },
                        },
                    }
                } else {
                    PR::Stuck
                },
            }
        } else {
            PR::Stuck
        },
    }
}

/// The branches of a match: those for constructors, by tag, the wildcard's
/// body, and the type of the constructors.
pub open spec fn p_cases(s: PState, cases: Seq<(u8, DCase)>, wild: Option<DExpr>, tid: Option<u8>) -> PR<
    (Seq<(u8, DCase)>, Option<DExpr>, Option<u8>),
>
    decreases mark_of(s.lex), 0nat,
{
    match p_try(s, TokenV::Pipe) {
        PR::Fail(m) => PR::Fail(m),
        PR::Stuck => PR::Stuck,
        PR::Done(false, s1) => PR::Done((cases, wild, tid), s1),
        PR::Done(true, s1) => match p_peek(s1) {
            PR::Fail(m) => PR::Fail(m),
            PR::Stuck => PR::Stuck,
            PR::Done(t, s2) => if t == TokenV::LowerIdent("_"@) {
                match p_next(s2) {
                    PR::Fail(m) => PR::Fail(m),
                    PR::Stuck => PR::Stuck,
                    PR::Done(_, s3) => match p_expect(s3, TokenV::Arrow) {
                        PR::Fail(m) => PR::Fail(m),
                        PR::Stuck => PR::Stuck,
                        PR::Done(_, s4) => if advances(s4, 3, s, 0) {
                            match p_expr(s4) {
                                PR::Fail(m) => PR::Fail(m),
                                PR::Stuck => PR::Stuck,
                                PR::Done(body, s5) => if wild is Some {
                                    PR::Fail("duplicate wildcard case in match"@)
                                } else if advances(s5, 0, s, 0) {
                                    p_cases(s5, cases, Some(body), tid)
                                } else {
                                    PR::Stuck
                                },
                            }
                        } else {
                            PR::Stuck
                        },
                    },
                }
            } else if wild is Some {
                PR::Fail("no case branches allowed after wildcard `_`"@)
            } else {
                match p_upper(s2) {
                    PR::Fail(m) => PR::Fail(m),
                    PR::Stuck => PR::Stuck,
                    PR::Done(name, s3) => match find_ctor(s3.reg.ctors, name) {
                        None => PR::Fail(unknown_ctor_text(name)),
                        Some(c) => if tid is Some && tid->0 != c.2 {
                            PR::Fail("match branches mix constructors from different types"@)
                        } else {
                            match p_paren_binds(s3) {
                                PR::Fail(m) => PR::Fail(m),
                                PR::Stuck => PR::Stuck,
                                PR::Done(bs, s4) => if bs.len() != c.1 {
                                    PR::Fail(binds_arity_text(name, c.1, bs.len()))
                                } else {
                                    match p_expect(s4, TokenV::Arrow) {
                                        PR::Fail(m) => PR::Fail(m),
                                        PR::Stuck => PR::Stuck,
                                        PR::Done(_, s5) => if advances(s5, 3, s, 0) {
                                            match p_expr(s5) {
                                                PR::Fail(m) => PR::Fail(m),
                                                PR::Stuck => PR::Stuck,
                                                PR::Done(body, s6) => if advances(s6, 0, s, 0) {
                                                    p_cases(
                                                        s6,
                                                        cases.push((c.0, DCase { binds: bs, body })),
                                                        wild,
                                                        Some(c.2),
                                                    )
                                                } else {
                                                    PR::Stuck
                                                },
                                            }
                                        } else {
                                            PR::Stuck
                                        },
                                    }
                                },
                            }
                        },
                    },
                }
            },
        },
    }
}

/// `field n of e`.
pub open spec fn p_field(s: PState) -> PR<DExpr>
    decreases mark_of(s.lex), 0nat,
{
    match p_expect(s, TokenV::Field) {
        PR::Fail(m) => PR::Fail(m),
        PR::Stuck => PR::Stuck,
        PR::Done(_, s1) => match p_number(s1) {
            PR::Fail(m) => PR::Fail(m),
            PR::Stuck => PR::Stuck,
            PR::Done(n, s2) => match p_expect(s2, TokenV::Of) {
                PR::Fail(m) => PR::Fail(m),
                PR::Stuck => PR::Stuck,
                PR::Done(_, s3) => if advances(s3, 3, s, 0) {
                    match p_expr(s3) {
                        PR::Fail(m) => PR::Fail(m),
                        PR::Stuck => PR::Stuck,
                        PR::Done(e, s4) => PR::Done(DExpr::Field(Box::new(e), n as u8), s4),
                    }
                } else {
                    PR::Stuck
                },
            },
        },
    }
}

/// `builtin op a b ...`, with as many atoms as the operation takes.
pub open spec fn p_builtin(s: PState) -> PR<DExpr>
    decreases mark_of(s.lex), 0nat,
{
    match p_expect(s, TokenV::Builtin) {
        PR::Fail(m) => PR::Fail(m),
        PR::Stuck => PR::Stuck,
        PR::Done(_, s1) => match p_lower(s1) {
            PR::Fail(m) => PR::Fail(m),
            PR::Stuck => PR::Stuck,
            PR::Done(name, s2) => match builtin_op(name) {
                None => PR::Fail("unknown builtin operation: "@ + name),
                Some(op) => if advances(s2, 2, s, 0) {
                    match p_atoms(s2, op.1, Seq::empty()) {
                        PR::Fail(m) => PR::Fail(m),
                        PR::Stuck => PR::Stuck,
                        PR::Done(args, s3) => PR::Done(DExpr::Prim(op.0, args), s3),
                    }
                } else {
                    PR::Stuck
                },
            },
        },
    }
}

/// `k` more atoms.
pub open spec fn p_atoms(s: PState, k: nat, acc: Seq<DExpr>) -> PR<Seq<DExpr>>
    decreases mark_of(s.lex), 2nat,
{
    if k == 0 {
        PR::Done(acc, s)
    } else {
        match p_atom(s) {
            PR::Fail(m) => PR::Fail(m),
            PR::Stuck => PR::Stuck,
            PR::Done(a, s1) => if advances(s1, 2, s, 2) {
                p_atoms(s1, (k - 1) as nat, acc.push(a))
            } else {
                PR::Stuck
            },
        }
    }
}

/// An atom applied to the atoms that follow it.
pub open spec fn p_app(s: PState) -> PR<DExpr>
    decreases mark_of(s.lex), 2nat,
{
    match p_atom(s) {
        PR::Fail(m) => PR::Fail(m),
        PR::Stuck => PR::Stuck,
        PR::Done(h, s1) => if advances(s1, 2, s, 2) {
            p_app_args(s1, h, Seq::empty())
        } else {
            PR::Stuck
        },
    }
}

/// The atoms that follow `head`: `head` alone if none do.
pub open spec fn p_app_args(s: PState, head: DExpr, args: Seq<DExpr>) -> PR<DExpr>
    decreases mark_of(s.lex), 2nat,
{
    match p_peek(s) {
        PR::Fail(m) => PR::Fail(m),
        PR::Stuck => PR::Stuck,
        PR::Done(t, s1) => if is_atom_start(t) {
            if advances(s1, 1, s, 2) {
                match p_atom(s1) {
                    PR::Fail(m) => PR::Fail(m),
                    PR::Stuck => PR::Stuck,
                    PR::Done(a, s2) => if advances(s2, 2, s, 2) {
                        p_app_args(s2, head, args.push(a))
                    } else {
                        PR::Stuck
                    },
                }
            } else {
                PR::Stuck
            }
        } else if args.len() == 0 {
            PR::Done(head, s1)
        } else {
            PR::Done(DExpr::Apply(Box::new(head), args), s1)
        },
    }
}

/// A variable, a constructor, a number, a string, or an expression in
/// parentheses.
pub open spec fn p_atom(s: PState) -> PR<DExpr>
    decreases mark_of(s.lex), 1nat,
{
    match p_peek(s) {
        PR::Fail(m) => PR::Fail(m),
        PR::Stuck => PR::Stuck,
        PR::Done(t, s1) => match t {
            TokenV::LowerIdent(_) => match p_lower(s1) {
                PR::Fail(m) => PR::Fail(m),
                PR::Stuck => PR::Stuck,
                PR::Done(n, s2) => PR::Done(DExpr::Var(n), s2),
            },
            TokenV::UpperIdent(_) => if advances(s1, 0, s, 1) {
                p_ctor(s1)
            } else {
                PR::Stuck
            },
            TokenV::Number(_) => match p_number(s1) {
                PR::Fail(m) => PR::Fail(m),
                PR::Stuck => PR::Stuck,
                PR::Done(n, s2) => PR::Done(DExpr::Int(n as i32), s2),
            },
            TokenV::StringLit(_) => match p_next(s1) {
                PR::Fail(m) => PR::Fail(m),
                PR::Stuck => PR::Stuck,
                PR::Done(x, s2) => match x {
                    TokenV::StringLit(d) => PR::Done(DExpr::Bytes(d), s2),
                    _ => PR::Fail(Seq::empty()),
                },
            },
            TokenV::LParen => match p_next(s1) {
                PR::Fail(m) => PR::Fail(m),
                PR::Stuck => PR::Stuck,
                PR::Done(_, s2) => if advances(s2, 3, s, 1) {
                    match p_expr(s2) {
                        PR::Fail(m) => PR::Fail(m),
                        PR::Stuck => PR::Stuck,
                        PR::Done(e, s3) => match p_expect(s3, TokenV::RParen) {
                            PR::Fail(m) => PR::Fail(m),
                            PR::Stuck => PR::Stuck,
                            PR::Done(_, s4) => PR::Done(e, s4),
                        },
                    }
                } else {
                    PR::Stuck
                },
            },
            _ => PR::Fail("expected expression, got "@ + token_debug(t)),
        },
    }
}

/// A constructor and, if it has fields, `(e, ...)`.
pub open spec fn p_ctor(s: PState) -> PR<DExpr>
    decreases mark_of(s.lex), 0nat,
{
    match p_upper(s) {
        PR::Fail(m) => PR::Fail(m),
        PR::Stuck => PR::Stuck,
        PR::Done(name, s1) => match find_ctor(s1.reg.ctors, name) {
            None => PR::Fail(unknown_ctor_text(name)),
            Some(c) => if c.1 > 0 {
                match p_expect(s1, TokenV::LParen) {
                    PR::Fail(m) => PR::Fail(m),
                    PR::Stuck => PR::Stuck,
                    PR::Done(_, s2) => if advances(s2, 3, s, 0) {
                        match p_expr(s2) {
                            PR::Fail(m) => PR::Fail(m),
                            PR::Stuck => PR::Stuck,
                            PR::Done(f, s3) => if advances(s3, 0, s, 0) {
                                match p_fields(s3, seq![f]) {
                                    PR::Fail(m) => PR::Fail(m),
                                    PR::Stuck => PR::Stuck,
                                    PR::Done(fs, s4) => match p_expect(s4, TokenV::RParen) {
                                        PR::Fail(m) => PR::Fail(m),
                                        PR::Stuck => PR::Stuck,
                                        PR::Done(_, s5) => if fs.len() != c.1 {
                                            PR::Fail(fields_arity_text(name, c.1, fs.len()))
                                        } else {
                                            PR::Done(DExpr::Ctor(c.0, fs), s5)
                                        },
                                    },
                                }
                            } else {
                                PR::Stuck
                            },
                        }
                    } else {
                        PR::Stuck
                    },
                }
            } else {
                PR::Done(DExpr::Ctor(c.0, Seq::empty()), s1)
            },
        },
    }
}

/// `, e` as often as it comes.
pub open spec fn p_fields(s: PState, fs: Seq<DExpr>) -> PR<Seq<DExpr>>
    decreases mark_of(s.lex), 0nat,
{
    match p_try(s, TokenV::Comma) {
        PR::Fail(m) => PR::Fail(m),
        PR::Stuck => PR::Stuck,
        PR::Done(false, s1) => PR::Done(fs, s1),
        PR::Done(true, s1) => if advances(s1, 3, s, 0) {
            match p_expr(s1) {
                PR::Fail(m) => PR::Fail(m),
                PR::Stuck => PR::Stuck,
                PR::Done(f, s2) => if advances(s2, 0, s, 0) {
                    p_fields(s2, fs.push(f))
                } else {
                    PR::Stuck
                },
            }
        } else {
            PR::Stuck
        },
    }
}

// ── Specification: declarations ───────────────────────────────────────────────

/// `let extern f n`, `let rec f x = e`, or `let f = e`.
pub open spec fn p_define(s: PState) -> PR<DDefine> {
    match p_expect(s, TokenV::Let) {
        PR::Fail(m) => PR::Fail(m),
        PR::Stuck => PR::Stuck,
        PR::Done(_, s1) => match p_try(s1, TokenV::Extern) {
            PR::Fail(m) => PR::Fail(m),
            PR::Stuck => PR::Stuck,
            PR::Done(true, s2) => match p_lower(s2) {
                PR::Fail(m) => PR::Fail(m),
                PR::Stuck => PR::Stuck,
                PR::Done(name, s3) => match p_number(s3) {
                    PR::Fail(m) => PR::Fail(m),
                    PR::Stuck => PR::Stuck,
                    PR::Done(n, s4) => PR::Done(DDefine { name, body: DExpr::Extern(n as u16) }, s4),
                },
            },
            PR::Done(false, s2) => match p_try(s2, TokenV::Rec) {
                PR::Fail(m) => PR::Fail(m),
                PR::Stuck => PR::Stuck,
                PR::Done(true, s3) => match p_lower(s3) {
                    PR::Fail(m) => PR::Fail(m),
                    PR::Stuck => PR::Stuck,
                    PR::Done(name, s4) => match p_lower(s4) {
                        PR::Fail(m) => PR::Fail(m),
                        PR::Stuck => PR::Stuck,
                        PR::Done(x, s5) => match p_expect(s5, TokenV::Eq) {
                            PR::Fail(m) => PR::Fail(m),
                            PR::Stuck => PR::Stuck,
                            PR::Done(_, s6) => match p_expr(s6) {
                                PR::Fail(m) => PR::Fail(m),
                                PR::Stuck => PR::Stuck,
                                PR::Done(body, s7) => PR::Done(
                                    DDefine { name, body: DExpr::Lambda(seq![x], Box::new(body)) },
                                    s7,
                                ),
                            },
                        },
                    },
                },
                PR::Done(false, s3) => match p_lower(s3) {
                    PR::Fail(m) => PR::Fail(m),
                    PR::Stuck => PR::Stuck,
                    PR::Done(name, s4) => match p_expect(s4, TokenV::Eq) {
                        PR::Fail(m) => PR::Fail(m),
                        PR::Stuck => PR::Stuck,
                        PR::Done(_, s5) => match p_expr(s5) {
                            PR::Fail(m) => PR::Fail(m),
                            PR::Stuck => PR::Stuck,
                            PR::Done(body, s6) => PR::Done(DDefine { name, body }, s6),
                        },
                    },
                },
            },
        },
    }
}

/// One variant of a `data` declaration: its constructor is registered with
/// the type and with as many fields as it names.
pub open spec fn p_variant(s: PState, tid: u8) -> PR<()> {
    match p_upper(s) {
        PR::Fail(m) => PR::Fail(m),
        PR::Stuck => PR::Stuck,
        PR::Done(name, s1) => match p_paren_binds(s1) {
            PR::Fail(m) => PR::Fail(m),
            PR::Stuck => PR::Stuck,
            PR::Done(bs, s2) => if find_ctor(s2.reg.ctors, name) is None && s2.reg.next_tag == u16::MAX {
                PR::Fail(capacity_text(s2.reg.next_tag as nat))
            } else {
                PR::Done((), PState { lex: s2.lex, reg: resolve_spec(s2.reg, name, bs.len() as u8, tid).0 })
            },
        },
    }
}

/// `| C(x)` as often as it comes.
pub open spec fn p_variants(s: PState, tid: u8) -> PR<()>
    decreases mark_of(s.lex),
{
    match p_try(s, TokenV::Pipe) {
        PR::Fail(m) => PR::Fail(m),
        PR::Stuck => PR::Stuck,
        PR::Done(false, s1) => PR::Done((), s1),
        PR::Done(true, s1) => match p_variant(s1, tid) {
            PR::Fail(m) => PR::Fail(m),
            PR::Stuck => PR::Stuck,
            PR::Done(_, s2) => if mark_of(s2.lex) < mark_of(s.lex) {
                p_variants(s2, tid)
            } else {
                PR::Stuck
            },
        },
    }
}

/// `data A | B(x) | ...`: a new type and its constructors.
pub open spec fn p_data(s: PState) -> PR<()> {
    match p_expect(s, TokenV::Data) {
        PR::Fail(m) => PR::Fail(m),
        PR::Stuck => PR::Stuck,
        PR::Done(_, s1) => {
            let tid = s1.reg.next_type_id;
            let s2 = PState {
                lex: s1.lex,
                reg: RegistryV { next_type_id: if tid < 255 { (tid + 1) as u8 } else { 255u8 }, ..s1.reg },
            };
            match p_try(s2, TokenV::Pipe) {
                PR::Fail(m) => PR::Fail(m),
                PR::Stuck => PR::Stuck,
                PR::Done(_, s3) => match p_variant(s3, tid) {
                    PR::Fail(m) => PR::Fail(m),
                    PR::Stuck => PR::Stuck,
                    PR::Done(_, s4) => p_variants(s4, tid),
                },
            }
        },
    }
}

/// Declarations up to the end of the input; the definitions in order.
pub open spec fn p_module(s: PState, ds: Seq<DDefine>) -> PR<Seq<DDefine>>
    decreases mark_of(s.lex),
{
    match p_peek(s) {
        PR::Fail(m) => PR::Fail(m),
        PR::Stuck => PR::Stuck,
        PR::Done(t, s1) => if t == TokenV::Eof {
            PR::Done(ds, s1)
        } else if t == TokenV::Data {
            match p_data(s1) {
                PR::Fail(m) => PR::Fail(m),
                PR::Stuck => PR::Stuck,
                PR::Done(_, s2) => if mark_of(s2.lex) < mark_of(s.lex) {
                    p_module(s2, ds)
                } else {
                    PR::Stuck
                },
            }
        } else {
            match p_define(s1) {
                PR::Fail(m) => PR::Fail(m),
                PR::Stuck => PR::Stuck,
                PR::Done(d, s2) => if mark_of(s2.lex) < mark_of(s.lex) {
                    p_module(s2, ds.push(d))
                } else {
                    PR::Stuck
                },
            }
        },
    }
}

// ── Progress: no step of the grammar gets stuck ───────────────────────────────

/// The reader's position lies within its input, whose letters are all
/// letters or digits.
pub open spec fn state_ok(s: PState) -> bool {
    lexer_wf(s.lex) && letters_ok(s.lex.input)
}

pub open spec fn smark(s: PState) -> nat {
    mark_of(s.lex)
}

/// A step from `s` that succeeds ends in a good state on the same input,
/// no further back (further on, if `strict`), and no step is `Stuck`.
pub open spec fn step_ok<T>(s: PState, r: PR<T>, strict: bool) -> bool {
    match r {
        PR::Done(_, s1) => state_ok(s1) && s1.lex.input == s.lex.input && if strict {
            smark(s1) < smark(s)
        } else {
            smark(s1) <= smark(s)
        },
        PR::Fail(_) => true,
        PR::Stuck => false,
    }
}

proof fn lemma_p_peek(s: PState)
    requires
        state_ok(s),
    ensures
        step_ok(s, p_peek(s), false),
        p_peek(s) matches PR::Done(t, s1) ==> s1.lex.peeked == Some(t),
{
    lemma_peek_progress(s.lex);
}

proof fn lemma_p_next(s: PState)
    requires
        state_ok(s),
    ensures
        step_ok(s, p_next(s), false),
        p_next(s) matches PR::Done(t, s1) ==> (t != TokenV::Eof ==> smark(s1) < smark(s)),
{
    lemma_next_progress(s.lex);
}

proof fn lemma_p_try(s: PState, t: TokenV)
    requires
        state_ok(s),
        t != TokenV::Eof,
    ensures
        step_ok(s, p_try(s, t), false),
        p_try(s, t) matches PR::Done(b, s1) ==> (b ==> smark(s1) < smark(s)),
{
    lemma_peek_progress(s.lex);
    match lx_peek(s.lex) {
        Ok((x, l1)) => {
            lemma_next_progress(l1);
        },
        Err(_) => {},
    }
}

proof fn lemma_p_expect(s: PState, t: TokenV)
    requires
        state_ok(s),
        t != TokenV::Eof,
    ensures
        step_ok(s, p_expect(s, t), true),
{
    lemma_next_progress(s.lex);
}

proof fn lemma_p_lower(s: PState)
    requires
        state_ok(s),
    ensures
        step_ok(s, p_lower(s), true),
{
    lemma_next_progress(s.lex);
}

proof fn lemma_p_upper(s: PState)
    requires
        state_ok(s),
    ensures
        step_ok(s, p_upper(s), true),
{
    lemma_next_progress(s.lex);
}

proof fn lemma_p_number(s: PState)
    requires
        state_ok(s),
    ensures
        step_ok(s, p_number(s), true),
{
    lemma_next_progress(s.lex);
}

proof fn lemma_more_binds(s: PState, acc: Seq<DName>)
    requires
        state_ok(s),
    ensures
        step_ok(s, p_more_binds(s, acc), false),
    decreases smark(s),
{
    lemma_p_try(s, TokenV::Comma);
    match p_try(s, TokenV::Comma) {
        PR::Done(true, s1) => {
            lemma_p_lower(s1);
            match p_lower(s1) {
                PR::Done(n, s2) => {
                    lemma_more_binds(s2, acc.push(n));
                },
                _ => {},
            }
        },
        _ => {},
    }
}

proof fn lemma_paren_binds(s: PState)
    requires
        state_ok(s),
    ensures
        step_ok(s, p_paren_binds(s), false),
{
    lemma_p_try(s, TokenV::LParen);
    match p_try(s, TokenV::LParen) {
        PR::Done(true, s1) => {
            lemma_p_peek(s1);
            match p_peek(s1) {
                PR::Done(t, s2) => {
                    if t != TokenV::RParen {
                        lemma_p_lower(s2);
                        match p_lower(s2) {
                            PR::Done(n, s3) => {
                                lemma_more_binds(s3, seq![n]);
                                match p_more_binds(s3, seq![n]) {
                                    PR::Done(_, s4) => {
                                        lemma_p_expect(s4, TokenV::RParen);
                                    },
                                    _ => {},
                                }
                            },
                            _ => {},
                        }
                    } else {
                        lemma_p_expect(s2, TokenV::RParen);
                    }
                },
                _ => {},
            }
        },
        _ => {},
    }
}

proof fn lemma_expr(s: PState)
    requires
        state_ok(s),
    ensures
        step_ok(s, p_expr(s), true),
    decreases smark(s), 3nat,
{
    lemma_p_peek(s);
    match p_peek(s) {
        PR::Done(t, s1) => {
            if t == TokenV::Let {
                lemma_let(s1);
            } else if t == TokenV::Match {
                lemma_match(s1);
            } else if t == TokenV::Field {
                lemma_field(s1);
            } else if t == TokenV::Builtin {
                lemma_builtin(s1);
            } else if t == TokenV::If {
                lemma_if(s1);
            } else if t is LowerIdent {
                lemma_p_lower(s1);
                match p_lower(s1) {
                    PR::Done(name, s2) => {
                        lemma_p_peek(s2);
                        match p_peek(s2) {
                            PR::Done(t2, s3) => {
                                if t2 == TokenV::Arrow {
                                    lemma_p_next(s3);
                                    match p_next(s3) {
                                        PR::Done(_, s4) => {
                                            lemma_params(s4, seq![name]);
                                        },
                                        _ => {},
                                    }
                                } else {
                                    lemma_app_args(s3, DExpr::Var(name), Seq::empty());
                                }
                            },
                            _ => {},
                        }
                    },
                    _ => {},
                }
            } else {
                lemma_app(s1);
            }
        },
        _ => {},
    }
}

proof fn lemma_params(s: PState, ps: Seq<DName>)
    requires
        state_ok(s),
    ensures
        step_ok(s, p_params(s, ps), true),
    decreases smark(s), 4nat,
{
    lemma_p_peek(s);
    match p_peek(s) {
        PR::Done(t, s1) => {
            if t is LowerIdent {
                lemma_p_lower(s1);
                match p_lower(s1) {
                    PR::Done(x, s2) => {
                        lemma_p_peek(s2);
                        match p_peek(s2) {
                            PR::Done(t2, s3) => {
                                if t2 == TokenV::Arrow {
                                    lemma_p_next(s3);
                                    match p_next(s3) {
                                        PR::Done(_, s4) => {
                                            lemma_params(s4, ps.push(x));
                                        },
                                        _ => {},
                                    }
                                } else {
                                    lemma_app_args(s3, DExpr::Var(x), Seq::empty());
                                }
                            },
                            _ => {},
                        }
                    },
                    _ => {},
                }
            } else {
                lemma_expr(s1);
            }
        },
        _ => {},
    }
}

proof fn lemma_let(s: PState)
    requires
        state_ok(s),
    ensures
        step_ok(s, p_let(s), true),
    decreases smark(s), 0nat,
{
    lemma_p_expect(s, TokenV::Let);
    match p_expect(s, TokenV::Let) {
        PR::Done(_, s1) => {
            lemma_p_try(s1, TokenV::Rec);
            match p_try(s1, TokenV::Rec) {
                PR::Done(true, s2) => {
                    lemma_p_lower(s2);
                    match p_lower(s2) {
                        PR::Done(_, s3) => {
                            lemma_p_lower(s3);
                            match p_lower(s3) {
                                PR::Done(_, s4) => {
                                    lemma_p_expect(s4, TokenV::Eq);
                                    match p_expect(s4, TokenV::Eq) {
                                        PR::Done(_, s5) => {
                                            lemma_expr(s5);
                                            match p_expr(s5) {
                                                PR::Done(_, s6) => {
                                                    lemma_p_expect(s6, TokenV::In);
                                                    match p_expect(s6, TokenV::In) {
                                                        PR::Done(_, s7) => {
                                                            lemma_expr(s7);
                                                        },
                                                        _ => {},
                                                    }
                                                },
                                                _ => {},
                                            }
                                        },
                                        _ => {},
                                    }
                                },
                                _ => {},
                            }
                        },
                        _ => {},
                    }
                },
                PR::Done(false, s2) => {
                    lemma_p_peek(s2);
                    match p_peek(s2) {
                        PR::Done(t, s3) => {
                            if t is UpperIdent {
                                lemma_destructs(s3, Seq::empty());
                            } else {
                                lemma_p_lower(s3);
                                match p_lower(s3) {
                                    PR::Done(n, s4) => {
                                        lemma_p_expect(s4, TokenV::Eq);
                                        match p_expect(s4, TokenV::Eq) {
                                            PR::Done(_, s5) => {
                                                lemma_expr(s5);
                                                match p_expr(s5) {
                                                    PR::Done(b, s6) => {
                                                        lemma_let_binds(s6, seq![(n, b)]);
                                                    },
                                                    _ => {},
                                                }
                                            },
                                            _ => {},
                                        }
                                    },
                                    _ => {},
                                }
                            }
                        },
                        _ => {},
                    }
                },
                _ => {},
            }
        },
        _ => {},
    }
}

proof fn lemma_let_binds(s: PState, bs: Seq<(DName, DExpr)>)
    requires
        state_ok(s),
    ensures
        step_ok(s, p_let_binds(s, bs), true),
    decreases smark(s), 0nat,
{
    lemma_p_try(s, TokenV::Comma);
    match p_try(s, TokenV::Comma) {
        PR::Done(true, s1) => {
            lemma_p_lower(s1);
            match p_lower(s1) {
                PR::Done(n, s2) => {
                    lemma_p_expect(s2, TokenV::Eq);
                    match p_expect(s2, TokenV::Eq) {
                        PR::Done(_, s3) => {
                            lemma_expr(s3);
                            match p_expr(s3) {
                                PR::Done(b, s4) => {
                                    lemma_let_binds(s4, bs.push((n, b)));
                                },
                                _ => {},
                            }
                        },
                        _ => {},
                    }
                },
                _ => {},
            }
        },
        PR::Done(false, s1) => {
            lemma_p_expect(s1, TokenV::In);
            match p_expect(s1, TokenV::In) {
                PR::Done(_, s2) => {
                    lemma_expr(s2);
                },
                _ => {},
            }
        },
        _ => {},
    }
}

proof fn lemma_ctor_binding(s: PState)
    requires
        state_ok(s),
    ensures
        step_ok(s, p_ctor_binding(s), true),
    decreases smark(s), 0nat,
{
    lemma_p_upper(s);
    match p_upper(s) {
        PR::Done(name, s1) => {
            match find_ctor(s1.reg.ctors, name) {
                Some(c) => {
                    lemma_paren_binds(s1);
                    match p_paren_binds(s1) {
                        PR::Done(bs, s2) => {
                            lemma_p_expect(s2, TokenV::Eq);
                            match p_expect(s2, TokenV::Eq) {
                                PR::Done(_, s3) => {
                                    lemma_expr(s3);
                                },
                                _ => {},
                            }
                        },
                        _ => {},
                    }
                },
                None => {},
            }
        },
        _ => {},
    }
}

proof fn lemma_destructs(s: PState, acc: Seq<(u8, Seq<DName>, DExpr)>)
    requires
        state_ok(s),
    ensures
        step_ok(s, p_destructs(s, acc), true),
    decreases smark(s), 1nat,
{
    lemma_ctor_binding(s);
    match p_ctor_binding(s) {
        PR::Done(b, s1) => {
            let acc1 = acc.push((b.0, b.2, b.3));
            lemma_p_try(s1, TokenV::Comma);
            match p_try(s1, TokenV::Comma) {
                PR::Done(true, s2) => {
                    lemma_destructs(s2, acc1);
                },
                PR::Done(false, s2) => {
                    lemma_p_expect(s2, TokenV::In);
                    match p_expect(s2, TokenV::In) {
                        PR::Done(_, s3) => {
                            lemma_expr(s3);
                        },
                        _ => {},
                    }
                },
                _ => {},
            }
        },
        _ => {},
    }
}

proof fn lemma_if(s: PState)
    requires
        state_ok(s),
    ensures
        step_ok(s, p_if(s), true),
    decreases smark(s), 0nat,
{
    lemma_p_expect(s, TokenV::If);
    match p_expect(s, TokenV::If) {
        PR::Done(_, s1) => {
            lemma_if_binds(s1, Seq::empty());
        },
        _ => {},
    }
}

proof fn lemma_if_binds(s: PState, acc: Seq<(u8, u8, Seq<DName>, DExpr)>)
    requires
        state_ok(s),
    ensures
        step_ok(s, p_if_binds(s, acc), true),
    decreases smark(s), 1nat,
{
    lemma_ctor_binding(s);
    match p_ctor_binding(s) {
        PR::Done(b, s1) => {
            let acc1 = acc.push(b);
            lemma_p_try(s1, TokenV::Comma);
            match p_try(s1, TokenV::Comma) {
                PR::Done(true, s2) => {
                    lemma_if_binds(s2, acc1);
                },
                PR::Done(false, s2) => {
                    lemma_p_expect(s2, TokenV::Then);
                    match p_expect(s2, TokenV::Then) {
                        PR::Done(_, s3) => {
                            lemma_expr(s3);
                            match p_expr(s3) {
                                PR::Done(_, s4) => {
                                    lemma_p_expect(s4, TokenV::Else);
                                    match p_expect(s4, TokenV::Else) {
                                        PR::Done(_, s5) => {
                                            lemma_expr(s5);
                                        },
                                        _ => {},
                                    }
                                },
                                _ => {},
                            }
                        },
                        _ => {},
                    }
                },
                _ => {},
            }
        },
        _ => {},
    }
}

proof fn lemma_match(s: PState)
    requires
        state_ok(s),
    ensures
        step_ok(s, p_match(s), true),
    decreases smark(s), 0nat,
{
    lemma_p_expect(s, TokenV::Match);
    match p_expect(s, TokenV::Match) {
        PR::Done(_, s1) => {
            lemma_app(s1);
            match p_app(s1) {
                PR::Done(_, s2) => {
                    lemma_cases(s2, Seq::empty(), None, None);
                    match p_cases(s2, Seq::empty(), None, None) {
                        PR::Done(_, s3) => {
                            lemma_p_expect(s3, TokenV::End);
                        },
                        _ => {},
                    }
                },
                _ => {},
            }
        },
        _ => {},
    }
}

proof fn lemma_cases(s: PState, cases: Seq<(u8, DCase)>, wild: Option<DExpr>, tid: Option<u8>)
    requires
        state_ok(s),
    ensures
        step_ok(s, p_cases(s, cases, wild, tid), false),
    decreases smark(s), 0nat,
{
    lemma_p_try(s, TokenV::Pipe);
    match p_try(s, TokenV::Pipe) {
        PR::Done(true, s1) => {
            lemma_p_peek(s1);
            match p_peek(s1) {
                PR::Done(t, s2) => {
                    if t == TokenV::LowerIdent("_"@) {
                        lemma_p_next(s2);
                        match p_next(s2) {
                            PR::Done(_, s3) => {
                                lemma_p_expect(s3, TokenV::Arrow);
                                match p_expect(s3, TokenV::Arrow) {
                                    PR::Done(_, s4) => {
                                        lemma_expr(s4);
                                        match p_expr(s4) {
                                            PR::Done(body, s5) => {
                                                if wild is None {
                                                    lemma_cases(s5, cases, Some(body), tid);
                                                }
                                            },
                                            _ => {},
                                        }
                                    },
                                    _ => {},
                                }
                            },
                            _ => {},
                        }
                    } else if wild is None {
                        lemma_p_upper(s2);
                        match p_upper(s2) {
                            PR::Done(name, s3) => {
                                match find_ctor(s3.reg.ctors, name) {
                                    Some(c) => {
                                        lemma_paren_binds(s3);
                                        match p_paren_binds(s3) {
                                            PR::Done(bs, s4) => {
                                                lemma_p_expect(s4, TokenV::Arrow);
                                                match p_expect(s4, TokenV::Arrow) {
                                                    PR::Done(_, s5) => {
                                                        lemma_expr(s5);
                                                        match p_expr(s5) {
                                                            PR::Done(body, s6) => {
                                                                lemma_cases(
                                                                    s6,
                                                                    cases.push((c.0, DCase { binds: bs, body })),
                                                                    wild,
                                                                    Some(c.2),
                                                                );
                                                            },
                                                            _ => {},
                                                        }
                                                    },
                                                    _ => {},
                                                }
                                            },
                                            _ => {},
                                        }
                                    },
                                    None => {},
                                }
                            },
                            _ => {},
                        }
                    }
                },
                _ => {},
            }
        },
        _ => {},
    }
}

proof fn lemma_field(s: PState)
    requires
        state_ok(s),
    ensures
        step_ok(s, p_field(s), true),
    decreases smark(s), 0nat,
{
    lemma_p_expect(s, TokenV::Field);
    match p_expect(s, TokenV::Field) {
        PR::Done(_, s1) => {
            lemma_p_number(s1);
            match p_number(s1) {
                PR::Done(_, s2) => {
                    lemma_p_expect(s2, TokenV::Of);
                    match p_expect(s2, TokenV::Of) {
                        PR::Done(_, s3) => {
                            lemma_expr(s3);
                        },
                        _ => {},
                    }
                },
                _ => {},
            }
        },
        _ => {},
    }
}

proof fn lemma_builtin(s: PState)
    requires
        state_ok(s),
    ensures
        step_ok(s, p_builtin(s), true),
    decreases smark(s), 0nat,
{
    lemma_p_expect(s, TokenV::Builtin);
    match p_expect(s, TokenV::Builtin) {
        PR::Done(_, s1) => {
            lemma_p_lower(s1);
            match p_lower(s1) {
                PR::Done(name, s2) => {
                    match builtin_op(name) {
                        Some(op) => {
                            lemma_atoms(s2, op.1, Seq::empty());
                        },
                        None => {},
                    }
                },
                _ => {},
            }
        },
        _ => {},
    }
}

proof fn lemma_atoms(s: PState, k: nat, acc: Seq<DExpr>)
    requires
        state_ok(s),
    ensures
        step_ok(s, p_atoms(s, k, acc), false),
    decreases smark(s), 2nat,
{
    if k > 0 {
        lemma_atom(s);
        match p_atom(s) {
            PR::Done(a, s1) => {
                lemma_atoms(s1, (k - 1) as nat, acc.push(a));
            },
            _ => {},
        }
    }
}

proof fn lemma_app(s: PState)
    requires
        state_ok(s),
    ensures
        step_ok(s, p_app(s), true),
    decreases smark(s), 2nat,
{
    lemma_atom(s);
    match p_atom(s) {
        PR::Done(h, s1) => {
            lemma_app_args(s1, h, Seq::empty());
        },
        _ => {},
    }
}

proof fn lemma_app_args(s: PState, head: DExpr, args: Seq<DExpr>)
    requires
        state_ok(s),
    ensures
        step_ok(s, p_app_args(s, head, args), false),
    decreases smark(s), 2nat,
{
    lemma_p_peek(s);
    match p_peek(s) {
        PR::Done(t, s1) => {
            if is_atom_start(t) {
                lemma_atom(s1);
                match p_atom(s1) {
                    PR::Done(a, s2) => {
                        lemma_app_args(s2, head, args.push(a));
                    },
                    _ => {},
                }
            }
        },
        _ => {},
    }
}

proof fn lemma_atom(s: PState)
    requires
        state_ok(s),
    ensures
        step_ok(s, p_atom(s), true),
    decreases smark(s), 1nat,
{
    lemma_p_peek(s);
    match p_peek(s) {
        PR::Done(t, s1) => {
            match t {
                TokenV::LowerIdent(_) => {
                    lemma_p_lower(s1);
                },
                TokenV::UpperIdent(_) => {
                    lemma_ctor(s1);
                },
                TokenV::Number(_) => {
                    lemma_p_number(s1);
                },
                TokenV::StringLit(_) => {
                    lemma_p_next(s1);
                },
                TokenV::LParen => {
                    lemma_p_next(s1);
                    match p_next(s1) {
                        PR::Done(_, s2) => {
                            lemma_expr(s2);
                            match p_expr(s2) {
                                PR::Done(_, s3) => {
                                    lemma_p_expect(s3, TokenV::RParen);
                                },
                                _ => {},
                            }
                        },
                        _ => {},
                    }
                },
                _ => {},
            }
        },
        _ => {},
    }
}

proof fn lemma_ctor(s: PState)
    requires
        state_ok(s),
    ensures
        step_ok(s, p_ctor(s), true),
    decreases smark(s), 0nat,
{
    lemma_p_upper(s);
    match p_upper(s) {
        PR::Done(name, s1) => {
            match find_ctor(s1.reg.ctors, name) {
                Some(c) => {
                    if c.1 > 0 {
                        lemma_p_expect(s1, TokenV::LParen);
                        match p_expect(s1, TokenV::LParen) {
                            PR::Done(_, s2) => {
                                lemma_expr(s2);
                                match p_expr(s2) {
                                    PR::Done(f, s3) => {
                                        lemma_fields(s3, seq![f]);
                                        match p_fields(s3, seq![f]) {
                                            PR::Done(_, s4) => {
                                                lemma_p_expect(s4, TokenV::RParen);
                                            },
                                            _ => {},
                                        }
                                    },
                                    _ => {},
                                }
                            },
                            _ => {},
                        }
                    }
                },
                None => {},
            }
        },
        _ => {},
    }
}

proof fn lemma_fields(s: PState, fs: Seq<DExpr>)
    requires
        state_ok(s),
    ensures
        step_ok(s, p_fields(s, fs), false),
    decreases smark(s), 0nat,
{
    lemma_p_try(s, TokenV::Comma);
    match p_try(s, TokenV::Comma) {
        PR::Done(true, s1) => {
            lemma_expr(s1);
            match p_expr(s1) {
                PR::Done(f, s2) => {
                    lemma_fields(s2, fs.push(f));
                },
                _ => {},
            }
        },
        _ => {},
    }
}

proof fn lemma_define(s: PState)
    requires
        state_ok(s),
    ensures
        step_ok(s, p_define(s), true),
{
    lemma_p_expect(s, TokenV::Let);
    match p_expect(s, TokenV::Let) {
        PR::Done(_, s1) => {
            lemma_p_try(s1, TokenV::Extern);
            match p_try(s1, TokenV::Extern) {
                PR::Done(true, s2) => {
                    lemma_p_lower(s2);
                    match p_lower(s2) {
                        PR::Done(_, s3) => {
                            lemma_p_number(s3);
                        },
                        _ => {},
                    }
                },
                PR::Done(false, s2) => {
                    lemma_p_try(s2, TokenV::Rec);
                    match p_try(s2, TokenV::Rec) {
                        PR::Done(true, s3) => {
                            lemma_p_lower(s3);
                            match p_lower(s3) {
                                PR::Done(_, s4) => {
                                    lemma_p_lower(s4);
                                    match p_lower(s4) {
                                        PR::Done(_, s5) => {
                                            lemma_p_expect(s5, TokenV::Eq);
                                            match p_expect(s5, TokenV::Eq) {
                                                PR::Done(_, s6) => {
                                                    lemma_expr(s6);
                                                },
                                                _ => {},
                                            }
                                        },
                                        _ => {},
                                    }
                                },
                                _ => {},
                            }
                        },
                        PR::Done(false, s3) => {
                            lemma_p_lower(s3);
                            match p_lower(s3) {
                                PR::Done(_, s4) => {
                                    lemma_p_expect(s4, TokenV::Eq);
                                    match p_expect(s4, TokenV::Eq) {
                                        PR::Done(_, s5) => {
                                            lemma_expr(s5);
                                        },
                                        _ => {},
                                    }
                                },
                                _ => {},
                            }
                        },
                        _ => {},
                    }
                },
                _ => {},
            }
        },
        _ => {},
    }
}

proof fn lemma_variant(s: PState, tid: u8)
    requires
        state_ok(s),
    ensures
        step_ok(s, p_variant(s, tid), true),
{
    lemma_p_upper(s);
    match p_upper(s) {
        PR::Done(_, s1) => {
            lemma_paren_binds(s1);
        },
        _ => {},
    }
}

proof fn lemma_variants(s: PState, tid: u8)
    requires
        state_ok(s),
    ensures
        step_ok(s, p_variants(s, tid), false),
    decreases smark(s),
{
    lemma_p_try(s, TokenV::Pipe);
    match p_try(s, TokenV::Pipe) {
        PR::Done(true, s1) => {
            lemma_variant(s1, tid);
            match p_variant(s1, tid) {
                PR::Done(_, s2) => {
                    lemma_variants(s2, tid);
                },
                _ => {},
            }
        },
        _ => {},
    }
}

proof fn lemma_data(s: PState)
    requires
        state_ok(s),
    ensures
        step_ok(s, p_data(s), true),
{
    lemma_p_expect(s, TokenV::Data);
    match p_expect(s, TokenV::Data) {
        PR::Done(_, s1) => {
            let tid = s1.reg.next_type_id;
            let s2 = PState {
                lex: s1.lex,
                reg: RegistryV { next_type_id: if tid < 255 { (tid + 1) as u8 } else { 255u8 }, ..s1.reg },
            };
            lemma_p_try(s2, TokenV::Pipe);
            match p_try(s2, TokenV::Pipe) {
                PR::Done(_, s3) => {
                    lemma_variant(s3, tid);
                    match p_variant(s3, tid) {
                        PR::Done(_, s4) => {
                            lemma_variants(s4, tid);
                        },
                        _ => {},
                    }
                },
                _ => {},
            }
        },
        _ => {},
    }
}

/// Reading declarations never gets stuck: each step reads at least one
/// token.
pub proof fn lemma_module(s: PState, ds: Seq<DDefine>)
    requires
        state_ok(s),
    ensures
        step_ok(s, p_module(s, ds), false),
    decreases smark(s),
{
    lemma_p_peek(s);
    match p_peek(s) {
        PR::Done(t, s1) => {
            if t == TokenV::Data {
                lemma_data(s1);
                match p_data(s1) {
                    PR::Done(_, s2) => {
                        lemma_module(s2, ds);
                    },
                    _ => {},
                }
            } else if t != TokenV::Eof {
                lemma_define(s1);
                match p_define(s1) {
                    PR::Done(d, s2) => {
                        lemma_module(s2, ds.push(d));
                    },
                    _ => {},
                }
            }
        },
        _ => {},
    }
}

} // verus!
