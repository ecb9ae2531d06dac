// Evaluate primitive operations on known constants, resolve field
// accesses on known constructors, and eliminate matches on values
// whose constructor tag is statically known.
//
//   let x = 3 in let y = 4 in builtin add x y     ──►   7
//
//   let r = eq(3, 3) in match r                    ──►   <true branch>
//     | False -> ...
//     | True  -> e
//
//   let p = Ctor(0, [a, b]) in field 0 of p        ──►   a
//
//   let s = bytes [68 69] in bytes_len s            ──►   2
//
use vstd::prelude::*;
use crate::ir::cps::{
    Case, Cont, Expr, Fun, Name, SCase, SCont, SExpr, SFun, SName, SVal, Tag, Val, cases_view,
    clone_bytes, clone_names, lemma_size_case_le, names_view, size_cases, size_e, size_v,
};
use crate::ir::prim::{BytesOp, IntOp, PrimOp};
use crate::pass::cps_subst::{lemma_subst_seq_size, subst_all, subst_seq};

verus! {

/// What is statically known about a name.
pub enum Known {
    Int(i32),
    Bytes(Vec<u8>),
    Ctor(Tag, Vec<Name>),
}

pub enum SKnown {
    Int(i32),
    Bytes(Seq<u8>),
    Ctor(Tag, Seq<SName>),
}

pub open spec fn known_view(k: Known) -> SKnown {
    match k {
        Known::Int(n) => SKnown::Int(n),
        Known::Bytes(b) => SKnown::Bytes(b@),
        Known::Ctor(t, fs) => SKnown::Ctor(t, names_view(fs@)),
    }
}

/// Facts in the order they were learned; a later fact about a name hides an earlier one.
pub type SEnv = Seq<(SName, SKnown)>;

pub open spec fn env_view(env: Seq<(Name, Known)>) -> SEnv {
    env.map_values(|p: (Name, Known)| (p.0@, known_view(p.1)))
}

pub open spec fn env_lookup(env: SEnv, n: SName) -> Option<SKnown>
    decreases env.len(),
{
    if env.len() == 0 {
        None
    } else if env.last().0 == n {
        Some(env.last().1)
    } else {
        env_lookup(env.drop_last(), n)
    }
}

/// The constructor values `True` and `False`.
pub open spec fn true_v() -> SVal {
    SVal::Ctor(1, Seq::empty())
}

pub open spec fn false_v() -> SVal {
    SVal::Ctor(0, Seq::empty())
}

pub open spec fn bool_v(b: bool) -> SVal {
    if b { true_v() } else { false_v() }
}

pub open spec fn known_int(env: SEnv, args: Seq<SName>, i: int) -> Option<i32> {
    if 0 <= i < args.len() {
        match env_lookup(env, args[i]) {
            Some(SKnown::Int(n)) => Some(n),
            _ => None,
        }
    } else {
        None
    }
}

pub open spec fn known_bytes(env: SEnv, args: Seq<SName>, i: int) -> Option<Seq<u8>> {
    if 0 <= i < args.len() {
        match env_lookup(env, args[i]) {
            Some(SKnown::Bytes(b)) => Some(b),
            _ => None,
        }
    } else {
        None
    }
}

/// The value of a binary integer operation that is folded; the operations
/// added to the VM after the original set are left to run time.
pub open spec fn eval_int_binop_spec(op: IntOp, a: i32, b: i32) -> Option<SVal> {
    match op {
        IntOp::Add => Some(SVal::Int(vstd::wrapping::i32_specs::wrapping_add(a, b))),
        IntOp::Sub => Some(SVal::Int(vstd::wrapping::i32_specs::wrapping_sub(a, b))),
        IntOp::Mul => Some(SVal::Int(vstd::wrapping::i32_specs::wrapping_mul(a, b))),
        IntOp::Eq => Some(bool_v(a == b)),
        IntOp::Lt => Some(bool_v(a < b)),
        _ => None,
    }
}

/// The folded value of a primitive whose operands are known, if any.
pub open spec fn fold_prim(op: PrimOp, args: Seq<SName>, env: SEnv) -> Option<SVal> {
    match op {
        PrimOp::Int(IntOp::Byte) => match known_int(env, args, 0) {
            Some(n) => if 0 <= n <= 255 { Some(SVal::Bytes(seq![n as u8])) } else { None },
            None => None,
        },
        PrimOp::Int(iop) => match (known_int(env, args, 0), known_int(env, args, 1)) {
            (Some(a), Some(b)) => eval_int_binop_spec(iop, a, b),
            _ => None,
        },
        PrimOp::Bytes(BytesOp::Len) => match known_bytes(env, args, 0) {
            Some(bs) => Some(SVal::Int(bs.len() as i32)),
            None => None,
        },
        PrimOp::Bytes(BytesOp::Get) => match (known_bytes(env, args, 0), known_int(env, args, 1)) {
            (Some(bs), Some(i)) => if 0 <= i < bs.len() { Some(SVal::Int(bs[i as int] as i32)) } else { None },
            _ => None,
        },
        PrimOp::Bytes(BytesOp::Concat) => match (known_bytes(env, args, 0), known_bytes(env, args, 1)) {
            (Some(a), Some(b)) => Some(SVal::Bytes(a + b)),
            _ => None,
        },
        PrimOp::Bytes(BytesOp::Slice) => match (
            known_bytes(env, args, 0),
            known_int(env, args, 1),
            known_int(env, args, 2),
        ) {
            (Some(bs), Some(start), Some(len)) => if 0 <= start && 0 <= len && start + len <= bs.len() {
                Some(SVal::Bytes(bs.subrange(start as int, start + len)))
            } else {
                None
            },
            _ => None,
        },
        PrimOp::Bytes(BytesOp::Eq) => match (known_bytes(env, args, 0), known_bytes(env, args, 1)) {
            (Some(a), Some(b)) => Some(bool_v(a == b)),
            _ => None,
        },
    }
}

/// The VM's boolean: `True` is the constructor with tag 1, `False` the one
/// with tag 0, both without fields.
pub open spec fn vm_bool(b: bool) -> SVal {
    SVal::Ctor(if b { 1u8 } else { 0u8 }, Seq::empty())
}

proof fn lemma_crop_congruent(x: int)
    ensures
        (vstd::wrapping::i32_specs::signed_crop(x) - x) % 0x1_0000_0000 == 0,
{
    let m: int = 0x1_0000_0000;
    vstd::arithmetic::div_mod::lemma_fundamental_div_mod(x, m);
    vstd::arithmetic::div_mod::lemma_mod_multiples_basic(-(x / m), m);
    vstd::arithmetic::div_mod::lemma_mod_multiples_basic(-(x / m) - 1, m);
    assert(-(x / m) * m == -(m * (x / m))) by (nonlinear_arith);
    assert((-(x / m) - 1) * m == -(m * (x / m)) - m) by (nonlinear_arith);
}

/// Folding a binary integer operation on two known integers `a` and `b`
/// gives what the VM computes: the sum, difference or product of `a` and
/// `b` in 32-bit two's complement (equal to it modulo 2^32), and `True`
/// exactly when `a == b`, or when `a < b`.
pub proof fn lemma_fold_int_binop(x: SName, y: SName, env: SEnv, a: i32, b: i32)
    requires
        env_lookup(env, x) == Some(SKnown::Int(a)),
        env_lookup(env, y) == Some(SKnown::Int(b)),
    ensures
        fold_prim(PrimOp::Int(IntOp::Add), seq![x, y], env) matches Some(SVal::Int(c)) && (c - (a + b))
            % 0x1_0000_0000 == 0,
        fold_prim(PrimOp::Int(IntOp::Sub), seq![x, y], env) matches Some(SVal::Int(c)) && (c - (a - b))
            % 0x1_0000_0000 == 0,
        fold_prim(PrimOp::Int(IntOp::Mul), seq![x, y], env) matches Some(SVal::Int(c)) && (c - a * b)
            % 0x1_0000_0000 == 0,
        fold_prim(PrimOp::Int(IntOp::Eq), seq![x, y], env) == Some(vm_bool(a == b)),
        fold_prim(PrimOp::Int(IntOp::Lt), seq![x, y], env) == Some(vm_bool(a < b)),
{
    let args = seq![x, y];
    assert(known_int(env, args, 0) == Some(a));
    assert(known_int(env, args, 1) == Some(b));
    lemma_crop_congruent(a * b);
}

/// Folding `int.byte` of a known integer gives the one-byte string of it
/// when it is a byte, and is left to run time otherwise.
pub proof fn lemma_fold_int_byte(x: SName, env: SEnv, a: i32)
    requires
        env_lookup(env, x) == Some(SKnown::Int(a)),
    ensures
        0 <= a <= 255 ==> (fold_prim(PrimOp::Int(IntOp::Byte), seq![x], env) matches Some(SVal::Bytes(r)) && r.len()
            == 1 && r[0] == a),
        !(0 <= a <= 255) ==> fold_prim(PrimOp::Int(IntOp::Byte), seq![x], env) is None,
{
    assert(known_int(env, seq![x], 0) == Some(a));
}

/// Folding the byte-string operations on known operands gives what the VM
/// computes: the length; the byte at an index within the string (and no
/// folding outside it); the bytes of the first operand followed by those
/// of the second; the `len` bytes from `start` when they lie within the
/// string (and no folding otherwise); and `True` exactly when the two
/// strings are equal.
pub proof fn lemma_fold_bytes(x: SName, y: SName, z: SName, env: SEnv, bs: Seq<u8>, cs: Seq<u8>, i: i32, j: i32)
    requires
        env_lookup(env, x) == Some(SKnown::Bytes(bs)),
    ensures
        bs.len() <= i32::MAX ==> (fold_prim(PrimOp::Bytes(BytesOp::Len), seq![x], env) matches Some(SVal::Int(c)) && c
            == bs.len()),
        env_lookup(env, y) == Some(SKnown::Int(i)) ==> (0 <= i < bs.len() ==> (fold_prim(
            PrimOp::Bytes(BytesOp::Get),
            seq![x, y],
            env,
        ) matches Some(SVal::Int(c)) && c == bs[i as int])),
        env_lookup(env, y) == Some(SKnown::Int(i)) ==> (!(0 <= i < bs.len()) ==> fold_prim(
            PrimOp::Bytes(BytesOp::Get),
            seq![x, y],
            env,
        ) is None),
        env_lookup(env, y) == Some(SKnown::Bytes(cs)) ==> (fold_prim(PrimOp::Bytes(BytesOp::Concat), seq![x, y], env) matches Some(
            SVal::Bytes(r),
        ) && r.len() == bs.len() + cs.len() && (forall|k: int| 0 <= k < bs.len() ==> r[k] == bs[k]) && (forall|k: int|
            0 <= k < cs.len() ==> r[bs.len() + k] == cs[k])),
        env_lookup(env, y) == Some(SKnown::Bytes(cs)) ==> fold_prim(PrimOp::Bytes(BytesOp::Eq), seq![x, y], env) == Some(
            vm_bool(bs =~= cs),
        ),
        env_lookup(env, y) == Some(SKnown::Int(i)) && env_lookup(env, z) == Some(SKnown::Int(j)) ==> (0 <= i && 0 <= j
            && i + j <= bs.len() ==> (fold_prim(PrimOp::Bytes(BytesOp::Slice), seq![x, y, z], env) matches Some(
            SVal::Bytes(r),
        ) && r.len() == j && forall|k: int| 0 <= k < j ==> r[k] == bs[i + k])),
        env_lookup(env, y) == Some(SKnown::Int(i)) && env_lookup(env, z) == Some(SKnown::Int(j)) ==> (!(0 <= i && 0
            <= j && i + j <= bs.len()) ==> fold_prim(PrimOp::Bytes(BytesOp::Slice), seq![x, y, z], env) is None),
{
    assert(known_bytes(env, seq![x], 0) == Some(bs));
    assert(known_bytes(env, seq![x, y], 0) == Some(bs));
    assert(known_bytes(env, seq![x, y, z], 0) == Some(bs));
    if env_lookup(env, y) == Some(SKnown::Int(i)) {
        assert(known_int(env, seq![x, y], 1) == Some(i));
        if env_lookup(env, z) == Some(SKnown::Int(j)) {
            assert(known_int(env, seq![x, y, z], 1) == Some(i));
            assert(known_int(env, seq![x, y, z], 2) == Some(j));
        }
    }
    if env_lookup(env, y) == Some(SKnown::Bytes(cs)) {
        assert(known_bytes(env, seq![x, y], 1) == Some(cs));
        assert((bs == cs) == (bs =~= cs));
    }
}

/// The environment after binding `n` to the value `v`.
pub open spec fn record_spec(env: SEnv, n: SName, v: SVal) -> SEnv {
    match v {
        SVal::Int(k) => env.push((n, SKnown::Int(k))),
        SVal::Bytes(d) => env.push((n, SKnown::Bytes(d))),
        SVal::Ctor(t, fs) => env.push((n, SKnown::Ctor(t, fs))),
        _ => env,
    }
}

/// Constant folding on the model, given what is known at this point.
pub open spec fn cf_e(env: SEnv, e: SExpr) -> SExpr
    decreases size_e(e),
{
    match e {
        SExpr::Let(n, v, b) => match v {
            SVal::Int(_) | SVal::Bytes(_) | SVal::Ctor(_, _) => SExpr::Let(n, v, Box::new(cf_e(record_spec(env, n, v), *b))),
            SVal::Field(x, idx) => match env_lookup(env, x) {
                Some(SKnown::Ctor(_, fs)) => if (idx as int) < fs.len() {
                    SExpr::Let(n, SVal::Var(fs[idx as int]), Box::new(cf_e(env, *b)))
                } else {
                    SExpr::Let(n, v, Box::new(cf_e(env, *b)))
                },
                _ => SExpr::Let(n, v, Box::new(cf_e(env, *b))),
            },
            SVal::Prim(op, args) => match fold_prim(op, args, env) {
                Some(nv) => SExpr::Let(n, nv, Box::new(cf_e(record_spec(env, n, nv), *b))),
                None => SExpr::Let(n, v, Box::new(cf_e(env, *b))),
            },
            SVal::Cont(c) => {
                proof {
                    assert(size_v(v) == size_e(*c.body));
                }
                SExpr::Let(
                    n,
                    SVal::Cont(SCont { params: c.params, body: Box::new(cf_e(env, *c.body)) }),
                    Box::new(cf_e(env, *b)),
                )
            },
            _ => SExpr::Let(n, v, Box::new(cf_e(env, *b))),
        },
        SExpr::Letrec(n, f, b) => SExpr::Letrec(
            n,
            SFun { args: f.args, cont: f.cont, body: Box::new(cf_e(env, *f.body)) },
            Box::new(cf_e(env, *b)),
        ),
        SExpr::Match(s, base, cs) => {
            let known = match env_lookup(env, s) {
                Some(SKnown::Ctor(tag, fields)) => {
                    let branch = vstd::wrapping::u8_specs::wrapping_sub(tag, base) as int;
                    if branch < cs.len() {
                        Some((branch, fields))
                    } else {
                        None
                    }
                },
                _ => None,
            };
            match known {
                Some((branch, fields)) => {
                    proof {
                        lemma_subst_seq_size(cs[branch].binds, fields, cs[branch].body);
                        lemma_size_case_le(cs, branch);
                    }
                    cf_e(env, subst_seq(cs[branch].binds, fields, cs[branch].body))
                },
                None => SExpr::Match(
                    s,
                    base,
                    Seq::new(
                        cs.len(),
                        |i: int|
                            if 0 <= i < cs.len() {
                                proof {
                                    lemma_size_case_le(cs, i);
                                }
                                SCase { binds: cs[i].binds, body: cf_e(env, cs[i].body) }
                            } else {
                                arbitrary()
                            },
                    ),
                ),
            }
        },
        _ => e,
    }
}

// ── Implementation ───────────────────────────────────────────────────────────

type Env = Vec<(Name, Known)>;

fn clone_known(k: &Known) -> (res: Known)
    ensures
        known_view(res) == known_view(*k),
{
    match k {
        Known::Int(n) => Known::Int(*n),
        Known::Bytes(b) => Known::Bytes(clone_bytes(b)),
        Known::Ctor(t, fs) => Known::Ctor(*t, clone_names(fs)),
    }
}

fn clone_env(env: &Env) -> (res: Env)
    ensures
        env_view(res@) == env_view(env@),
{
    let mut out: Env = Vec::new();
    let mut i: usize = 0;
    while i < env.len()
        invariant
            i <= env@.len(),
            out@.len() == i,
            env_view(out@) == env_view(env@).take(i as int),
        decreases env@.len() - i,
    {
        let k = clone_known(&env[i].1);
        let nm = env[i].0.clone();
        let ghost prev = out@;
        out.push((nm, k));
        assert(out@ == prev.push((nm, k)));
        assert(env_view(out@)[i as int] == env_view(env@)[i as int]);
        assert(env_view(out@).drop_last() =~= env_view(prev));
        i += 1;
        assert(env_view(out@) =~= env_view(env@).take(i as int));
    }
    assert(env_view(env@).take(env@.len() as int) =~= env_view(env@));
    out
}

fn env_get<'a>(env: &'a Env, n: &Name) -> (res: Option<&'a Known>)
    ensures
        match res {
            Some(k) => env_lookup(env_view(env@), n@) == Some(known_view(*k)),
            None => env_lookup(env_view(env@), n@) is None,
        },
{
    let ghost ev = env_view(env@);
    let mut i: usize = env.len();
    assert(ev.take(i as int) =~= ev);
    while i > 0
        invariant
            i <= env@.len(),
            ev == env_view(env@),
            env_lookup(ev, n@) == env_lookup(ev.take(i as int), n@),
        decreases i,
    {
        assert(ev.take(i as int).drop_last() =~= ev.take(i - 1));
        i -= 1;
        if env[i].0 == *n {
            return Some(&env[i].1);
        }
    }
    None
}

fn get_int(env: &Env, args: &Vec<Name>, i: usize) -> (res: Option<i32>)
    ensures
        res == known_int(env_view(env@), names_view(args@), i as int),
{
    if i < args.len() {
        match env_get(env, &args[i]) {
            Some(Known::Int(n)) => Some(*n),
            _ => None,
        }
    } else {
        None
    }
}

fn get_bytes<'a>(env: &'a Env, args: &Vec<Name>, i: usize) -> (res: Option<&'a Vec<u8>>)
    ensures
        match res {
            Some(b) => known_bytes(env_view(env@), names_view(args@), i as int) == Some(b@),
            None => known_bytes(env_view(env@), names_view(args@), i as int) is None,
        },
{
    if i < args.len() {
        match env_get(env, &args[i]) {
            Some(Known::Bytes(b)) => Some(b),
            _ => None,
        }
    } else {
        None
    }
}

fn ctor_of_bool(b: bool) -> (res: Val)
    ensures
        res@ == bool_v(b),
{
    let fields: Vec<Name> = Vec::new();
    assert(names_view(fields@) =~= Seq::<SName>::empty());
    if b { Val::Ctor(1, fields) } else { Val::Ctor(0, fields) }
}

fn eval_int_binop(op: IntOp, a: i32, b: i32) -> (res: Option<Val>)
    ensures
        match res {
            Some(v) => eval_int_binop_spec(op, a, b) == Some(v@),
            None => eval_int_binop_spec(op, a, b) is None,
        },
{
    match op {
        IntOp::Add => Some(Val::Int(a.wrapping_add(b))),
        IntOp::Sub => Some(Val::Int(a.wrapping_sub(b))),
        IntOp::Mul => Some(Val::Int(a.wrapping_mul(b))),
        IntOp::Eq => Some(ctor_of_bool(a == b)),
        IntOp::Lt => Some(ctor_of_bool(a < b)),
        _ => None,
    }
}

fn bytes_slice(bs: &Vec<u8>, start: usize, end: usize) -> (res: Vec<u8>)
    requires
        start <= end <= bs@.len(),
    ensures
        res@ == bs@.subrange(start as int, end as int),
{
    let mut out: Vec<u8> = Vec::new();
    let mut i: usize = start;
    while i < end
        invariant
            start <= i <= end,
            end <= bs@.len(),
            out@ == bs@.subrange(start as int, i as int),
        decreases end - i,
    {
        out.push(bs[i]);
        i += 1;
        assert(out@ =~= bs@.subrange(start as int, i as int));
    }
    out
}

fn try_fold_prim(op: PrimOp, args: &Vec<Name>, env: &Env) -> (res: Option<Val>)
    ensures
        match res {
            Some(v) => fold_prim(op, names_view(args@), env_view(env@)) == Some(v@),
            None => fold_prim(op, names_view(args@), env_view(env@)) is None,
        },
{
    match op {
        PrimOp::Int(IntOp::Byte) => match get_int(env, args, 0) {
            Some(n) => {
                if 0 <= n && n <= 255 {
                    let mut b: Vec<u8> = Vec::new();
                    b.push(n as u8);
                    assert(b@ =~= seq![n as u8]);
                    Some(Val::Bytes(b))
                } else {
                    None
                }
            },
            None => None,
        },
        PrimOp::Int(iop) => match (get_int(env, args, 0), get_int(env, args, 1)) {
            (Some(a), Some(b)) => eval_int_binop(iop, a, b),
            _ => None,
        },
        PrimOp::Bytes(BytesOp::Len) => match get_bytes(env, args, 0) {
            Some(bs) => Some(Val::Int(bs.len() as i32)),
            None => None,
        },
        PrimOp::Bytes(BytesOp::Get) => match (get_bytes(env, args, 0), get_int(env, args, 1)) {
            (Some(bs), Some(i)) => {
                if 0 <= i && (i as usize) < bs.len() {
                    Some(Val::Int(bs[i as usize] as i32))
                } else {
                    None
                }
            },
            _ => None,
        },
        PrimOp::Bytes(BytesOp::Concat) => match (get_bytes(env, args, 0), get_bytes(env, args, 1)) {
            (Some(a), Some(b)) => {
                let mut r = clone_bytes(a);
                let mut i: usize = 0;
                while i < b.len()
                    invariant
                        i <= b@.len(),
                        r@ == a@ + b@.take(i as int),
                    decreases b@.len() - i,
                {
                    r.push(b[i]);
                    i += 1;
                    assert(r@ =~= a@ + b@.take(i as int));
                }
                assert(b@.take(b@.len() as int) =~= b@);
                Some(Val::Bytes(r))
            },
            _ => None,
        },
        PrimOp::Bytes(BytesOp::Slice) => match (get_bytes(env, args, 0), get_int(env, args, 1), get_int(env, args, 2)) {
            (Some(bs), Some(start), Some(len)) => {
                if 0 <= start && 0 <= len {
                    let s = start as usize;
                    let end = s + len as usize;
                    if end <= bs.len() {
                        Some(Val::Bytes(bytes_slice(bs, s, end)))
                    } else {
                        None
                    }
                } else {
                    None
                }
            },
            _ => None,
        },
        PrimOp::Bytes(BytesOp::Eq) => match (get_bytes(env, args, 0), get_bytes(env, args, 1)) {
            (Some(a), Some(b)) => Some(ctor_of_bool(crate::ir::cps::bytes_eq(a, b))),
            _ => None,
        },
    }
}

/// Remember what a binding makes known.
fn record(env: &mut Env, name: &Name, val: &Val)
    ensures
        env_view(final(env)@) == record_spec(env_view(old(env)@), name@, val@),
{
    match val {
        Val::Int(n) => {
            env.push((name.clone(), Known::Int(*n)));
            assert(env_view(env@) =~= env_view(old(env)@).push((name@, SKnown::Int(*n))));
        },
        Val::Bytes(d) => {
            env.push((name.clone(), Known::Bytes(clone_bytes(d))));
            assert(env_view(env@) =~= env_view(old(env)@).push((name@, SKnown::Bytes(d@))));
        },
        Val::Ctor(t, fs) => {
            env.push((name.clone(), Known::Ctor(*t, clone_names(fs))));
            assert(env_view(env@) =~= env_view(old(env)@).push((name@, SKnown::Ctor(*t, names_view(fs@)))));
        },
        _ => {},
    }
}

fn cf_expr(env: &mut Env, e: Expr) -> (res: Expr)
    ensures
        res@ == cf_e(env_view(old(env)@), e@),
    decreases size_e(e@),
{
    let ghost env0 = env_view(env@);
    match e {
        Expr::Let(name, val, body) => {
            let ghost gv = val@;
            let ghost b0 = (*body)@;
            assert(e@ == SExpr::Let(name@, gv, Box::new(b0)));
            match val {
                Val::Int(_) | Val::Bytes(_) | Val::Ctor(_, _) => {
                    record(env, &name, &val);
                    let b = cf_expr(env, *body);
                    Expr::Let(name, val, Box::new(b))
                },
                Val::Field(x, idx) => {
                    let target = match env_get(env, &x) {
                        Some(Known::Ctor(_, fields)) => {
                            if (idx as usize) < fields.len() {
                                Some(fields[idx as usize].clone())
                            } else {
                                None
                            }
                        },
                        _ => None,
                    };
                    match target {
                        Some(t) => {
                            let ghost tv = t@;
                            let v = Val::Var(t);
                            assert(v@ == SVal::Var(tv));
                            let b = cf_expr(env, *body);
                            Expr::Let(name, v, Box::new(b))
                        },
                        None => {
                            let b = cf_expr(env, *body);
                            Expr::Let(name, Val::Field(x, idx), Box::new(b))
                        },
                    }
                },
                Val::Prim(op, args) => {
                    match try_fold_prim(op, &args, env) {
                        Some(nv) => {
                            record(env, &name, &nv);
                            let b = cf_expr(env, *body);
                            Expr::Let(name, nv, Box::new(b))
                        },
                        None => {
                            let b = cf_expr(env, *body);
                            Expr::Let(name, Val::Prim(op, args), Box::new(b))
                        },
                    }
                },
                Val::Cont(c) => {
                    let ghost cv = c@;
                    assert(size_v(gv) == size_e(*cv.body));
                    let mut local = clone_env(env);
                    let Cont { params, body: cb } = c;
                    let c2 = Cont { params, body: Box::new(cf_expr(&mut local, *cb)) };
                    assert(c2@ == SCont { params: cv.params, body: Box::new(cf_e(env0, *cv.body)) });
                    let ghost c2v = c2@;
                    let v = Val::Cont(c2);
                    assert(v@ == SVal::Cont(c2v));
                    let b = cf_expr(env, *body);
                    Expr::Let(name, v, Box::new(b))
                },
                other => {
                    let b = cf_expr(env, *body);
                    Expr::Let(name, other, Box::new(b))
                },
            }
        },
        Expr::Letrec(name, fun, body) => {
            let ghost fv = fun@;
            assert(e@ == SExpr::Letrec(name@, fv, Box::new((*body)@)));
            let mut local = clone_env(env);
            let Fun { args, cont, body: fb } = fun;
            let fun = Fun { args, cont, body: Box::new(cf_expr(&mut local, *fb)) };
            assert(fun@ == SFun { args: fv.args, cont: fv.cont, body: Box::new(cf_e(env0, *fv.body)) });
            let b = cf_expr(env, *body);
            Expr::Letrec(name, fun, Box::new(b))
        },
        Expr::Match(s, base, cs) => {
            let ghost orig = cs@;
            let ghost cv = cases_view(orig);
            assert(e@ == SExpr::Match(s@, base, cv));
            let known = match env_get(env, &s) {
                Some(Known::Ctor(tag, fields)) => {
                    let branch = tag.wrapping_sub(base) as usize;
                    if branch < cs.len() {
                        Some((branch, clone_names(fields)))
                    } else {
                        None
                    }
                },
                _ => None,
            };
            match known {
                Some((branch, fields)) => {
                    let mut cs = cs;
                    let case = cs.remove(branch);
                    assert(case@ == cv[branch as int]);
                    let Case { binds, body } = case;
                    let nb = subst_all(&binds, &fields, body);
                    proof {
                        lemma_subst_seq_size(cv[branch as int].binds, names_view(fields@), cv[branch as int].body);
                        lemma_size_case_le(cv, branch as int);
                    }
                    cf_expr(env, nb)
                },
                None => {
                    let mut rest = cs;
                    let mut out: Vec<Case> = Vec::new();
                    while rest.len() > 0
                        invariant
                            out@.len() + rest@.len() == orig.len(),
                            rest@ == orig.subrange(out@.len() as int, orig.len() as int),
                            cv == cases_view(orig),
                            env_view(env@) == env0,
                            size_cases(cv) < size_e(e@),
                            forall|j: int| 0 <= j < out@.len() ==> (#[trigger] out@[j])@
                                == (SCase { binds: cv[j].binds, body: cf_e(env0, cv[j].body) }),
                        decreases rest@.len(),
                    {
                        let c = rest.remove(0);
                        let k = out.len();
                        assert(c@ == cv[k as int]);
                        proof {
                            lemma_size_case_le(cv, k as int);
                        }
                        let mut local = clone_env(env);
                        let Case { binds, body } = c;
                        out.push(Case { binds, body: cf_expr(&mut local, body) });
                    }
                    proof {
                        let target = match cf_e(env0, e@) {
                            SExpr::Match(_, _, x) => x,
                            _ => arbitrary(),
                        };
                        assert forall|i: int| 0 <= i < out@.len() implies #[trigger] cases_view(out@)[i] == target[i] by {
                            assert(cases_view(out@)[i] == out@[i]@);
                        }
                        assert(cases_view(out@) =~= target);
                    }
                    Expr::Match(s, base, out)
                },
            }
        },
        other => other,
    }
}

/// Fold primitives on known constants, project fields of known constructors
/// and select the branch of matches on known constructors.
pub fn constant_fold(expr: Expr) -> (res: Expr)
    ensures
        res@ == cf_e(Seq::empty(), expr@),
{
    let mut env: Env = Vec::new();
    assert(env_view(env@) =~= Seq::<(SName, SKnown)>::empty());
    cf_expr(&mut env, expr)
}

} // verus!
