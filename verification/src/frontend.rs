// What a front end hands the compiler, and the registry of constructors that
// a front end fills while it reads `data` declarations and constructor uses.
use vstd::prelude::*;
use crate::disasm::{decimal_string, text};
use crate::ir::cps::SName;
use crate::ir::ds;
use crate::pass::asm_resolve::{name_less, name_lt, name_lt_from};
use crate::pass::cps_rewrite::rewrite_01_inlining::decimal;
use vstd::string::{StrSliceExecFns, StringExecFns};

verus! {

/// Why a source text could not be read.
#[derive(Debug)]
pub struct ParseError {
    pub message: String,
}

impl From<String> for ParseError {
    fn from(message: String) -> (r: Self) {
        ParseError { message }
    }
}

impl vstd::std_specs::convert::FromSpecImpl<String> for ParseError {
    open spec fn obeys_from_spec() -> bool {
        true
    }

    open spec fn from_spec(v: String) -> ParseError {
        ParseError { message: v }
    }
}

/// A module read by a front end, with the names of the constructors it
/// declared.
pub struct ParseOutput {
    pub module: ds::Module,
    pub ctor_names: Vec<(u8, String)>,
}

/// A source language: reads a text into a module.
pub trait Frontend {
    fn parse(&self, input: &str) -> Result<ParseOutput, ParseError>;
}

/// Constructor tags are `u8`.
pub const MAX_CTORS: usize = 256;

/// The tags and arities that the VM gives its built-in constructors, and the
/// first tag it leaves to programs.
#[derive(Clone, Copy)]
pub struct BuiltinCtors {
    pub tag_false: u8,
    pub arity_false: u8,
    pub tag_true: u8,
    pub arity_true: u8,
    pub tag_nil: u8,
    pub arity_nil: u8,
    pub tag_cons: u8,
    pub arity_cons: u8,
    pub tag_pair: u8,
    pub arity_pair: u8,
    pub first_user_tag: u8,
}

// ── The order of names ───────────────────────────────────────────────────────

pub proof fn lemma_name_lt_trans(a: SName, b: SName, c: SName, i: int)
    requires
        0 <= i,
        name_lt_from(a, b, i),
        name_lt_from(b, c, i),
    ensures
        name_lt_from(a, c, i),
    decreases a.len() - i,
{
    if i < a.len() && i < b.len() && i < c.len() && a[i] == b[i] && b[i] == c[i] {
        lemma_name_lt_trans(a, b, c, i + 1);
    }
}

pub proof fn lemma_name_lt_total(a: SName, b: SName, i: int)
    requires
        0 <= i <= a.len(),
        i <= b.len(),
        !name_lt_from(a, b, i),
        !name_lt_from(b, a, i),
    ensures
        a.len() == b.len(),
        forall|k: int| i <= k < a.len() ==> a[k] == b[k],
    decreases a.len() - i,
{
    if i < a.len() && i < b.len() {
        if a[i] == b[i] {
            lemma_name_lt_total(a, b, i + 1);
        } else {
            vstd::utf8::char_u32_cast(a[i], a[i] as u32);
            vstd::utf8::char_u32_cast(b[i], b[i] as u32);
        }
    }
}

pub proof fn lemma_name_lt_asym(a: SName, b: SName, i: int)
    requires
        0 <= i,
        name_lt_from(a, b, i),
    ensures
        !name_lt_from(b, a, i),
    decreases a.len() - i,
{
    if i < a.len() && i < b.len() && a[i] == b[i] {
        lemma_name_lt_asym(a, b, i + 1);
    }
}

/// Two different names are ordered one way or the other.
pub proof fn lemma_names_ordered(a: SName, b: SName)
    requires
        a != b,
    ensures
        name_lt(a, b) || name_lt(b, a),
{
    if !name_lt(a, b) && !name_lt(b, a) {
        lemma_name_lt_total(a, b, 0);
        assert(a =~= b);
    }
}

// ── Model of the registry ────────────────────────────────────────────────────

/// A constructor: its tag, its arity and the type it belongs to.
pub type CtorV = (u8, u8, u8);

#[derive(Clone, Copy)]
struct CtorInfo {
    tag: u8,
    arity: u8,
    type_id: u8,
}

/// The constructors by name, in the order of their names, with the next tag
/// and type id to hand out.
pub struct RegistryV {
    pub ctors: Seq<(SName, CtorV)>,
    pub next_tag: u16,
    pub next_type_id: u8,
}

/// Names strictly increasing, so each occurs once.
pub open spec fn names_sorted(s: Seq<(SName, CtorV)>) -> bool {
    forall|i: int, j: int| 0 <= i < j < s.len() ==> name_lt(#[trigger] s[i].0, #[trigger] s[j].0)
}

pub open spec fn has_name(s: Seq<(SName, CtorV)>, n: SName) -> bool {
    exists|i: int| 0 <= i < s.len() && s[i].0 == n
}

pub open spec fn first_named(s: Seq<(SName, CtorV)>, n: SName, i: int) -> bool {
    0 <= i < s.len() && s[i].0 == n && forall|j: int| 0 <= j < i ==> s[j].0 != n
}

/// The constructor called `n`.
pub open spec fn find_ctor(s: Seq<(SName, CtorV)>, n: SName) -> Option<CtorV> {
    if has_name(s, n) {
        Some(s[choose|i: int| first_named(s, n, i)].1)
    } else {
        None
    }
}

/// Where `n` goes among the sorted names of `s`: before the first it precedes.
pub open spec fn insert_pos(s: Seq<(SName, CtorV)>, n: SName) -> nat
    decreases s.len(),
{
    if s.len() == 0 {
        0
    } else if name_lt(n, s[0].0) {
        0
    } else {
        1 + insert_pos(s.drop_first(), n)
    }
}

pub open spec fn insert_ctor(s: Seq<(SName, CtorV)>, n: SName, c: CtorV) -> Seq<(SName, CtorV)> {
    let p = insert_pos(s, n) as int;
    s.take(p).push((n, c)) + s.skip(p)
}

/// The built-in constructors, in the order of their names.
pub open spec fn builtin_entries(b: BuiltinCtors) -> Seq<(SName, CtorV)> {
    seq![
        ("Cons"@, (b.tag_cons, b.arity_cons, 1u8)),
        ("False"@, (b.tag_false, b.arity_false, 0u8)),
        ("Nil"@, (b.tag_nil, b.arity_nil, 1u8)),
        ("Pair"@, (b.tag_pair, b.arity_pair, 2u8)),
        ("True"@, (b.tag_true, b.arity_true, 0u8)),
    ]
}

/// What resolving `n` does: a known name keeps its tag; a new one gets the
/// next tag, which stops at 255, and the count of tags handed out grows.
pub open spec fn resolve_spec(r: RegistryV, n: SName, arity: u8, type_id: u8) -> (RegistryV, u8) {
    match find_ctor(r.ctors, n) {
        Some(c) => (r, c.0),
        None => {
            let tag: u8 = if r.next_tag < 255 { r.next_tag as u8 } else { 255 };
            (
                RegistryV {
                    ctors: insert_ctor(r.ctors, n, (tag, arity, type_id)),
                    next_tag: (r.next_tag + 1) as u16,
                    next_type_id: r.next_type_id,
                },
                tag,
            )
        },
    }
}

pub proof fn lemma_first_named_unique(s: Seq<(SName, CtorV)>, n: SName, i: int)
    requires
        names_sorted(s),
        0 <= i < s.len(),
        s[i].0 == n,
    ensures
        has_name(s, n),
        first_named(s, n, i),
        find_ctor(s, n) == Some(s[i].1),
{
    assert forall|j: int| 0 <= j < i implies s[j].0 != n by {
        assert(name_lt(s[j].0, s[i].0));
        lemma_name_lt_asym(s[j].0, s[i].0, 0);
    }
    assert(first_named(s, n, i));
    let k = choose|k: int| first_named(s, n, k);
    if k < i {
        assert(s[k].0 == n);
    } else if k > i {
        assert(s[i].0 != n);
    }
}

proof fn lemma_insert_pos_props(s: Seq<(SName, CtorV)>, n: SName)
    ensures
        insert_pos(s, n) <= s.len(),
        forall|i: int| 0 <= i < insert_pos(s, n) ==> !name_lt(n, #[trigger] s[i].0),
        insert_pos(s, n) < s.len() ==> name_lt(n, s[insert_pos(s, n) as int].0),
    decreases s.len(),
{
    if s.len() > 0 && !name_lt(n, s[0].0) {
        let t = s.drop_first();
        lemma_insert_pos_props(t, n);
        assert forall|i: int| 0 <= i < insert_pos(s, n) implies !name_lt(n, #[trigger] s[i].0) by {
            if i > 0 {
                assert(s[i] == t[i - 1]);
            }
        }
        if insert_pos(s, n) < s.len() {
            assert(s[insert_pos(s, n) as int] == t[insert_pos(t, n) as int]);
        }
    }
}

proof fn lemma_insert_pos_at(s: Seq<(SName, CtorV)>, n: SName, j: int)
    requires
        0 <= j <= s.len(),
        forall|i: int| 0 <= i < j ==> !name_lt(n, #[trigger] s[i].0),
        j == s.len() || name_lt(n, s[j].0),
    ensures
        insert_pos(s, n) == j,
    decreases j,
{
    if j > 0 {
        let t = s.drop_first();
        assert forall|i: int| 0 <= i < j - 1 implies !name_lt(n, #[trigger] t[i].0) by {
            assert(t[i] == s[i + 1]);
        }
        assert(!name_lt(n, s[0].0));
        lemma_insert_pos_at(t, n, j - 1);
    }
}

/// Adding a constructor whose name is new keeps the names sorted; afterwards
/// it is found under its name, and every other name finds what it found
/// before.
pub proof fn lemma_insert_ctor(s: Seq<(SName, CtorV)>, n: SName, c: CtorV, m: SName)
    requires
        names_sorted(s),
        !has_name(s, n),
    ensures
        names_sorted(insert_ctor(s, n, c)),
        find_ctor(insert_ctor(s, n, c), m) == if m == n {
            Some(c)
        } else {
            find_ctor(s, m)
        },
{
    let p = insert_pos(s, n) as int;
    let t = insert_ctor(s, n, c);
    lemma_insert_pos_props(s, n);
    assert(t.len() == s.len() + 1);
    assert forall|i: int| 0 <= i < t.len() implies #[trigger] t[i] == if i < p {
        s[i]
    } else if i == p {
        (n, c)
    } else {
        s[i - 1]
    } by {}
    assert forall|i: int| 0 <= i < p implies name_lt(#[trigger] s[i].0, n) by {
        assert(s[i].0 != n);
        lemma_names_ordered(s[i].0, n);
    }
    assert forall|i: int| p <= i < s.len() implies name_lt(n, #[trigger] s[i].0) by {
        if i > p {
            assert(name_lt(s[p].0, s[i].0));
            lemma_name_lt_trans(n, s[p].0, s[i].0, 0);
        }
    }
    assert forall|i: int, j: int| 0 <= i < j < t.len() implies name_lt(#[trigger] t[i].0, #[trigger] t[j].0) by {
        if i < p && j == p {
        } else if i < p && j > p {
            assert(name_lt(s[i].0, s[j - 1].0));
        } else if i == p {
            assert(name_lt(n, s[j - 1].0));
        } else if j < p {
            assert(name_lt(s[i].0, s[j].0));
        } else {
            assert(name_lt(s[i - 1].0, s[j - 1].0));
        }
    }
    if m == n {
        lemma_first_named_unique(t, n, p);
    } else if has_name(s, m) {
        let k = choose|k: int| 0 <= k < s.len() && s[k].0 == m;
        lemma_first_named_unique(s, m, k);
        let k2 = if k < p { k } else { k + 1 };
        assert(t[k2] == s[k]);
        lemma_first_named_unique(t, m, k2);
    } else {
        assert forall|i: int| 0 <= i < t.len() implies t[i].0 != m by {
            if i < p {
                assert(t[i] == s[i]);
            } else if i > p {
                assert(t[i] == s[i - 1]);
            }
        }
    }
}

/// The tags and arities of the constructors of type `t`, in name order.
pub open spec fn of_type(s: Seq<(SName, CtorV)>, t: u8) -> Seq<(u8, u8)>
    decreases s.len(),
{
    if s.len() == 0 {
        Seq::empty()
    } else {
        let e = s.last();
        of_type(s.drop_last(), t) + if e.1.2 == t {
            seq![(e.1.0, e.1.1)]
        } else {
            Seq::empty()
        }
    }
}

/// `x` placed after every entry of `r` whose tag is not greater.
pub open spec fn insert_by_tag(r: Seq<(u8, u8)>, x: (u8, u8)) -> Seq<(u8, u8)>
    decreases r.len(),
{
    if r.len() == 0 {
        seq![x]
    } else if r.last().0 <= x.0 {
        r.push(x)
    } else {
        insert_by_tag(r.drop_last(), x).push(r.last())
    }
}

/// `s` ordered by tag; entries with equal tags keep their order.
pub open spec fn sort_by_tag(s: Seq<(u8, u8)>) -> Seq<(u8, u8)>
    decreases s.len(),
{
    if s.len() == 0 {
        Seq::empty()
    } else {
        insert_by_tag(sort_by_tag(s.drop_last()), s.last())
    }
}

pub open spec fn first_tagged(s: Seq<(SName, CtorV)>, tag: u8, i: int) -> bool {
    0 <= i < s.len() && s[i].1.0 == tag && forall|j: int| 0 <= j < i ==> s[j].1.0 != tag
}

/// The name of the first constructor, in name order, that has tag `tag`.
pub open spec fn name_with_tag(s: Seq<(SName, CtorV)>, tag: u8) -> Option<SName> {
    if exists|i: int| 0 <= i < s.len() && s[i].1.0 == tag {
        Some(s[choose|i: int| first_tagged(s, tag, i)].0)
    } else {
        None
    }
}

/// The message for a registry that handed out `count` tags.
pub open spec fn capacity_text(count: nat) -> Seq<char> {
    "too many constructors: "@ + decimal(count) + " (max "@ + decimal(MAX_CTORS as nat) + ", tags are u8)"@
}

/// Every tag is below `bound`.
pub open spec fn tags_below(s: Seq<(SName, CtorV)>, bound: int) -> bool {
    forall|i: int| 0 <= i < s.len() ==> (#[trigger] s[i]).1.0 < bound
}

/// No two constructors share a tag.
pub open spec fn tags_distinct(s: Seq<(SName, CtorV)>) -> bool {
    forall|i: int, j: int| 0 <= i < s.len() && 0 <= j < s.len() && i != j ==> (#[trigger] s[i]).1.0 != (#[trigger] s[j]).1.0
}

proof fn lemma_insert_ctor_index(s: Seq<(SName, CtorV)>, n: SName, c: CtorV)
    ensures
        insert_ctor(s, n, c).len() == s.len() + 1,
        insert_pos(s, n) <= s.len(),
        forall|i: int| 0 <= i < insert_ctor(s, n, c).len() ==> #[trigger] insert_ctor(s, n, c)[i] == if i < insert_pos(s, n) {
            s[i]
        } else if i == insert_pos(s, n) {
            (n, c)
        } else {
            s[i - 1]
        },
{
    lemma_insert_pos_props(s, n);
}

/// Resolving a name, then asking for it, gives the tag that resolving
/// returned; every other name gives what it gave before.
pub proof fn lemma_resolve_then_find(r: RegistryV, n: SName, arity: u8, type_id: u8, m: SName)
    requires
        names_sorted(r.ctors),
    ensures
        names_sorted(resolve_spec(r, n, arity, type_id).0.ctors),
        find_ctor(resolve_spec(r, n, arity, type_id).0.ctors, n) matches Some(c) && c.0 == resolve_spec(
            r,
            n,
            arity,
            type_id,
        ).1,
        m != n ==> find_ctor(resolve_spec(r, n, arity, type_id).0.ctors, m) == find_ctor(r.ctors, m),
{
    if find_ctor(r.ctors, n) is None {
        let tag: u8 = if r.next_tag < 255 { r.next_tag as u8 } else { 255 };
        lemma_insert_ctor(r.ctors, n, (tag, arity, type_id), n);
        lemma_insert_ctor(r.ctors, n, (tag, arity, type_id), m);
    }
}

/// Resolving a name a second time changes nothing and gives the same tag.
pub proof fn lemma_resolve_idempotent(r: RegistryV, n: SName, a1: u8, t1: u8, a2: u8, t2: u8)
    requires
        names_sorted(r.ctors),
    ensures
        resolve_spec(resolve_spec(r, n, a1, t1).0, n, a2, t2) == resolve_spec(r, n, a1, t1),
{
    lemma_resolve_then_find(r, n, a1, t1, n);
}

/// A new registry gives each built-in constructor a tag of its own, below
/// the first tag it hands out, when the VM's built-in tags are distinct and
/// below its first free tag.
pub proof fn lemma_builtin_tags_distinct(b: BuiltinCtors)
    requires
        b.tag_false != b.tag_true,
        b.tag_false != b.tag_nil,
        b.tag_false != b.tag_cons,
        b.tag_false != b.tag_pair,
        b.tag_true != b.tag_nil,
        b.tag_true != b.tag_cons,
        b.tag_true != b.tag_pair,
        b.tag_nil != b.tag_cons,
        b.tag_nil != b.tag_pair,
        b.tag_cons != b.tag_pair,
        b.tag_false < b.first_user_tag,
        b.tag_true < b.first_user_tag,
        b.tag_nil < b.first_user_tag,
        b.tag_cons < b.first_user_tag,
        b.tag_pair < b.first_user_tag,
    ensures
        tags_distinct(builtin_entries(b)),
        tags_below(builtin_entries(b), b.first_user_tag as int),
{
    let s = builtin_entries(b);
    assert forall|i: int, j: int| 0 <= i < s.len() && 0 <= j < s.len() && i != j implies (#[trigger] s[i]).1.0 != (#[trigger] s[j]).1.0 by {}
}

/// While no more than 256 tags have been handed out, every constructor has a
/// tag of its own: a new one gets the next tag, which none has yet.
pub proof fn lemma_resolve_keeps_tags_distinct(r: RegistryV, n: SName, arity: u8, type_id: u8)
    requires
        names_sorted(r.ctors),
        tags_distinct(r.ctors),
        tags_below(r.ctors, r.next_tag as int),
        r.next_tag < MAX_CTORS,
    ensures
        tags_distinct(resolve_spec(r, n, arity, type_id).0.ctors),
        tags_below(resolve_spec(r, n, arity, type_id).0.ctors, resolve_spec(r, n, arity, type_id).0.next_tag as int),
{
    if find_ctor(r.ctors, n) is None {
        let tag: u8 = if r.next_tag < 255 { r.next_tag as u8 } else { 255 };
        let s = r.ctors;
        let t = insert_ctor(s, n, (tag, arity, type_id));
        let p = insert_pos(s, n) as int;
        lemma_insert_ctor_index(s, n, (tag, arity, type_id));
        assert(tag == r.next_tag);
        assert forall|i: int| 0 <= i < t.len() implies (#[trigger] t[i]).1.0 < r.next_tag + 1 by {
            if i < p {
                assert(s[i].1.0 < r.next_tag);
            } else if i > p {
                assert(s[i - 1].1.0 < r.next_tag);
            }
        }
        assert forall|i: int, j: int| 0 <= i < t.len() && 0 <= j < t.len() && i != j implies (#[trigger] t[i]).1.0 != (#[trigger] t[j]).1.0 by {
            let si = if i < p { i } else { i - 1 };
            let sj = if j < p { j } else { j - 1 };
            if i == p {
                assert(s[sj].1.0 < r.next_tag);
            } else if j == p {
                assert(s[si].1.0 < r.next_tag);
            } else {
                assert(t[i] == s[si] && t[j] == s[sj] && si != sj);
            }
        }
    }
}

/// Resolving a name the registry knows changes nothing and gives the tag it
/// already had: its tag, arity and type stay as they were.
pub proof fn lemma_resolve_keeps_known(r: RegistryV, n: SName, arity: u8, type_id: u8, c: CtorV)
    requires
        find_ctor(r.ctors, n) == Some(c),
    ensures
        resolve_spec(r, n, arity, type_id) == (r, c.0),
        find_ctor(resolve_spec(r, n, arity, type_id).0.ctors, n) == Some(c),
{
}

/// The registry after resolving each name of `ns`, with its arity and type
/// id, one after the other.
pub open spec fn resolve_all(r: RegistryV, ns: Seq<(SName, u8, u8)>) -> RegistryV
    decreases ns.len(),
{
    if ns.len() == 0 {
        r
    } else {
        resolve_spec(resolve_all(r, ns.drop_last()), ns.last().0, ns.last().1, ns.last().2).0
    }
}

/// The names of `ns` differ from each other and from every name `r` knows.
pub open spec fn new_names(r: RegistryV, ns: Seq<(SName, u8, u8)>) -> bool {
    &&& forall|i: int, j: int| 0 <= i < j < ns.len() ==> (#[trigger] ns[i]).0 != (#[trigger] ns[j]).0
    &&& forall|i: int| 0 <= i < ns.len() ==> find_ctor(r.ctors, (#[trigger] ns[i]).0) is None
}

/// The tag that the `j`-th new name gets when the next tag to hand out is
/// `next`: the tags run on one by one and stop at 255.
pub open spec fn nth_tag(next: u16, j: int) -> u8 {
    if next + j < 255 {
        (next + j) as u8
    } else {
        255u8
    }
}

/// Resolving new names hands out the tags one after the other, in the
/// order the names come: the `j`-th gets the `j`-th tag after the next one,
/// with its own arity and type; the count of tags handed out grows by one
/// per name; the names stay sorted and every other name keeps its entry.
pub proof fn lemma_resolve_new_names(r: RegistryV, ns: Seq<(SName, u8, u8)>)
    requires
        names_sorted(r.ctors),
        new_names(r, ns),
        r.next_tag + ns.len() <= u16::MAX,
    ensures
        names_sorted(resolve_all(r, ns).ctors),
        resolve_all(r, ns).next_tag == r.next_tag + ns.len(),
        resolve_all(r, ns).next_type_id == r.next_type_id,
        forall|j: int| 0 <= j < ns.len() ==> find_ctor(resolve_all(r, ns).ctors, (#[trigger] ns[j]).0) == Some(
            (nth_tag(r.next_tag, j), ns[j].1, ns[j].2),
        ),
        forall|m: SName| (forall|j: int| 0 <= j < ns.len() ==> (#[trigger] ns[j]).0 != m) ==> find_ctor(
            resolve_all(r, ns).ctors,
            m,
        ) == find_ctor(r.ctors, m),
    decreases ns.len(),
{
    if ns.len() > 0 {
        let k = ns.len() - 1;
        let p = ns.drop_last();
        assert forall|i: int, j: int| 0 <= i < j < p.len() implies (#[trigger] p[i]).0 != (#[trigger] p[j]).0 by {
            assert(p[i] == ns[i] && p[j] == ns[j]);
        }
        assert forall|i: int| 0 <= i < p.len() implies find_ctor(r.ctors, (#[trigger] p[i]).0) is None by {
            assert(p[i] == ns[i]);
        }
        lemma_resolve_new_names(r, p);
        let r1 = resolve_all(r, p);
        let l = ns.last();
        assert(l == ns[k]);
        assert forall|j: int| 0 <= j < p.len() implies (#[trigger] p[j]).0 != l.0 by {
            assert(p[j] == ns[j]);
        }
        assert(find_ctor(r1.ctors, l.0) == find_ctor(r.ctors, l.0));
        assert(find_ctor(r.ctors, ns[k].0) is None);
        let r2 = resolve_all(r, ns);
        assert(r2 == resolve_spec(r1, l.0, l.1, l.2).0);
        lemma_resolve_then_find(r1, l.0, l.1, l.2, l.0);
        assert forall|j: int| 0 <= j < ns.len() implies find_ctor(r2.ctors, (#[trigger] ns[j]).0) == Some(
            (nth_tag(r.next_tag, j), ns[j].1, ns[j].2),
        ) by {
            if j < k {
                assert(p[j] == ns[j]);
                assert(ns[j].0 != ns[k].0);
                lemma_resolve_then_find(r1, l.0, l.1, l.2, ns[j].0);
            } else {
                lemma_insert_ctor(r1.ctors, l.0, (nth_tag(r.next_tag, k), l.1, l.2), l.0);
            }
        }
        assert forall|m: SName| (forall|j: int| 0 <= j < ns.len() ==> (#[trigger] ns[j]).0 != m) implies find_ctor(
            r2.ctors,
            m,
        ) == find_ctor(r.ctors, m) by {
            assert(ns[k].0 != m);
            assert forall|j: int| 0 <= j < p.len() implies (#[trigger] p[j]).0 != m by {
                assert(p[j] == ns[j]);
            }
            lemma_resolve_then_find(r1, l.0, l.1, l.2, m);
        }
    }
}

/// After `n` new names, a registry is within its capacity exactly when the
/// tags handed out, counted from the next one it had, stay within 256.
pub proof fn lemma_capacity_after_new_names(r: RegistryV, ns: Seq<(SName, u8, u8)>)
    requires
        names_sorted(r.ctors),
        new_names(r, ns),
        r.next_tag + ns.len() <= u16::MAX,
    ensures
        resolve_all(r, ns).next_tag <= MAX_CTORS <==> r.next_tag + ns.len() <= MAX_CTORS,
{
    lemma_resolve_new_names(r, ns);
}

/// The built-in constructors are sorted by name.
pub proof fn lemma_builtins_sorted(b: BuiltinCtors)
    ensures
        names_sorted(builtin_entries(b)),
{
    reveal_strlit("Cons");
    reveal_strlit("False");
    reveal_strlit("Nil");
    reveal_strlit("Pair");
    reveal_strlit("True");
    let s = builtin_entries(b);
    assert(name_lt(s[0].0, s[1].0));
    assert(name_lt(s[1].0, s[2].0));
    assert(name_lt(s[2].0, s[3].0));
    assert(name_lt(s[3].0, s[4].0));
    assert forall|i: int, j: int| 0 <= i < j < s.len() implies name_lt(#[trigger] s[i].0, #[trigger] s[j].0) by {
        if j > i + 1 {
            assert(name_lt(s[i].0, s[i + 1].0));
            if j > i + 2 {
                assert(name_lt(s[i + 1].0, s[i + 2].0));
                lemma_name_lt_trans(s[i].0, s[i + 1].0, s[i + 2].0, 0);
                if j > i + 3 {
                    assert(name_lt(s[i + 2].0, s[i + 3].0));
                    lemma_name_lt_trans(s[i].0, s[i + 2].0, s[i + 3].0, 0);
                    if j > i + 4 {
                        assert(name_lt(s[i + 3].0, s[i + 4].0));
                        lemma_name_lt_trans(s[i].0, s[i + 3].0, s[i + 4].0, 0);
                    }
                }
            } else {
                assert(name_lt(s[i + 1].0, s[j].0));
                lemma_name_lt_trans(s[i].0, s[i + 1].0, s[j].0, 0);
            }
        }
    }
}

/// A new registry gives the `j`-th new constructor name, in the order they
/// are resolved, the tag `first_user_tag + j` (stopping at 255), and is
/// within its capacity after `n` of them exactly when
/// `first_user_tag + n <= 256`.
pub proof fn lemma_new_registry_tags(b: BuiltinCtors, ns: Seq<(SName, u8, u8)>)
    requires
        new_names(RegistryV { ctors: builtin_entries(b), next_tag: b.first_user_tag as u16, next_type_id: 3 }, ns),
        b.first_user_tag + ns.len() <= u16::MAX,
    ensures
        ({
            let r = resolve_all(
                RegistryV { ctors: builtin_entries(b), next_tag: b.first_user_tag as u16, next_type_id: 3 },
                ns,
            );
            &&& names_sorted(r.ctors)
            &&& forall|j: int| 0 <= j < ns.len() ==> find_ctor(r.ctors, (#[trigger] ns[j]).0) == Some(
                (nth_tag(b.first_user_tag as u16, j), ns[j].1, ns[j].2),
            )
            &&& (r.next_tag <= MAX_CTORS <==> b.first_user_tag + ns.len() <= MAX_CTORS)
        }),
{
    lemma_builtins_sorted(b);
    lemma_resolve_new_names(
        RegistryV { ctors: builtin_entries(b), next_tag: b.first_user_tag as u16, next_type_id: 3 },
        ns,
    );
}

/// Each built-in constructor is known under its name, with its own entry.
#[verifier::opaque]
pub open spec fn builtins_known(s: Seq<(SName, CtorV)>, b: BuiltinCtors) -> bool {
    forall|i: int| 0 <= i < 5 ==> find_ctor(s, #[trigger] builtin_entries(b)[i].0) == Some(builtin_entries(b)[i].1)
}

/// A new registry knows each built-in constructor.
pub proof fn lemma_builtins_known_at_start(b: BuiltinCtors)
    ensures
        builtins_known(builtin_entries(b), b),
{
    reveal(builtins_known);
    lemma_builtins_sorted(b);
    assert forall|i: int| 0 <= i < 5 implies find_ctor(
        builtin_entries(b),
        #[trigger] builtin_entries(b)[i].0,
    ) == Some(builtin_entries(b)[i].1) by {
        lemma_first_named_unique(builtin_entries(b), builtin_entries(b)[i].0, i);
    }
}

/// Resolving a name keeps every built-in constructor's entry.
pub proof fn lemma_resolve_keeps_builtins(r: RegistryV, b: BuiltinCtors, n: SName, arity: u8, type_id: u8)
    requires
        names_sorted(r.ctors),
        builtins_known(r.ctors, b),
    ensures
        builtins_known(resolve_spec(r, n, arity, type_id).0.ctors, b),
{
    reveal(builtins_known);
    assert forall|i: int| 0 <= i < 5 implies find_ctor(
        resolve_spec(r, n, arity, type_id).0.ctors,
        #[trigger] builtin_entries(b)[i].0,
    ) == Some(builtin_entries(b)[i].1) by {
        let m = builtin_entries(b)[i].0;
        if m == n {
            lemma_resolve_keeps_known(r, n, arity, type_id, builtin_entries(b)[i].1);
        } else {
            lemma_resolve_then_find(r, n, arity, type_id, m);
        }
    }
}

// ── The registry ─────────────────────────────────────────────────────────────

/// The constructors known so far, by name, and the tags and type ids that
/// come next.
pub struct CtorRegistry {
    ctors: Vec<(String, CtorInfo)>,
    /// Wider than a tag so running past 255 is detected, not wrapped.
    next_tag: u16,
    next_type_id: u8,
}

spec fn entries_view(v: Seq<(String, CtorInfo)>) -> Seq<(SName, CtorV)> {
    v.map_values(|e: (String, CtorInfo)| (e.0@, (e.1.tag, e.1.arity, e.1.type_id)))
}

impl View for CtorRegistry {
    type V = RegistryV;

    closed spec fn view(&self) -> RegistryV {
        RegistryV { ctors: entries_view(self.ctors@), next_tag: self.next_tag, next_type_id: self.next_type_id }
    }
}

impl CtorRegistry {
    /// Each name once, in order.
    pub open spec fn wf(&self) -> bool {
        names_sorted(self@.ctors)
    }

    /// A registry that knows the built-in constructors `False`, `True`,
    /// `Nil`, `Cons` and `Pair`.
    pub fn new(b: &BuiltinCtors) -> (r: Self)
        ensures
            r.wf(),
            r@.ctors == builtin_entries(*b),
            r@.next_tag == b.first_user_tag as u16,
            r@.next_type_id == 3,
    {
        let mut ctors: Vec<(String, CtorInfo)> = Vec::new();
        ctors.push((text("Cons"), CtorInfo { tag: b.tag_cons, arity: b.arity_cons, type_id: 1 }));
        ctors.push((text("False"), CtorInfo { tag: b.tag_false, arity: b.arity_false, type_id: 0 }));
        ctors.push((text("Nil"), CtorInfo { tag: b.tag_nil, arity: b.arity_nil, type_id: 1 }));
        ctors.push((text("Pair"), CtorInfo { tag: b.tag_pair, arity: b.arity_pair, type_id: 2 }));
        ctors.push((text("True"), CtorInfo { tag: b.tag_true, arity: b.arity_true, type_id: 0 }));
        let r = CtorRegistry { ctors, next_tag: b.first_user_tag as u16, next_type_id: 3 };
        proof {
            reveal_strlit("Cons");
            reveal_strlit("False");
            reveal_strlit("Nil");
            reveal_strlit("Pair");
            reveal_strlit("True");
            let s = r@.ctors;
            assert(s =~= builtin_entries(*b));
            assert(name_lt(s[0].0, s[1].0));
            assert(name_lt(s[1].0, s[2].0));
            assert(name_lt(s[2].0, s[3].0));
            assert(name_lt(s[3].0, s[4].0));
            assert forall|i: int, j: int| 0 <= i < j < s.len() implies name_lt(#[trigger] s[i].0, #[trigger] s[j].0) by {
                if j > i + 1 {
                    assert(name_lt(s[i].0, s[i + 1].0));
                    if j > i + 2 {
                        assert(name_lt(s[i + 1].0, s[i + 2].0));
                        lemma_name_lt_trans(s[i].0, s[i + 1].0, s[i + 2].0, 0);
                        if j > i + 3 {
                            assert(name_lt(s[i + 2].0, s[i + 3].0));
                            lemma_name_lt_trans(s[i].0, s[i + 2].0, s[i + 3].0, 0);
                            if j > i + 4 {
                                assert(name_lt(s[i + 3].0, s[i + 4].0));
                                lemma_name_lt_trans(s[i].0, s[i + 3].0, s[i + 4].0, 0);
                            }
                        }
                    } else {
                        assert(name_lt(s[i + 1].0, s[j].0));
                        lemma_name_lt_trans(s[i].0, s[i + 1].0, s[j].0, 0);
                    }
                }
            }
        }
        r
    }

    /// Where `name` stands, if it is known.
    fn index_of(&self, name: &String) -> (r: Option<usize>)
        requires
            self.wf(),
        ensures
            match r {
                Some(i) => i < self@.ctors.len() && self@.ctors[i as int].0 == name@ && find_ctor(self@.ctors, name@)
                    == Some(self@.ctors[i as int].1),
                None => find_ctor(self@.ctors, name@) is None,
            },
    {
        let ghost s = self@.ctors;
        let mut i: usize = 0;
        while i < self.ctors.len()
            invariant
                i <= self.ctors@.len(),
                s == entries_view(self.ctors@),
                s == self@.ctors,
                names_sorted(s),
                forall|j: int| 0 <= j < i ==> s[j].0 != name@,
            decreases self.ctors@.len() - i,
        {
            if self.ctors[i].0 == *name {
                proof {
                    lemma_first_named_unique(s, name@, i as int);
                }
                return Some(i);
            }
            i += 1;
        }
        None
    }

    /// Hand out the next type id; it stops at 255.
    pub fn alloc_type_id(&mut self) -> (r: u8)
        ensures
            r == old(self)@.next_type_id,
            final(self)@ == (RegistryV {
                next_type_id: if r < 255 { (r + 1) as u8 } else { 255u8 },
                ..old(self)@
            }),
    {
        let id = self.next_type_id;
        self.next_type_id = self.next_type_id.saturating_add(1);
        id
    }

    /// The tag of constructor `name`, which is new or has type 0.
    pub fn resolve(&mut self, name: &str, arity: u8) -> (r: u8)
        requires
            old(self).wf(),
            find_ctor(old(self)@.ctors, name@) is None ==> old(self)@.next_tag < u16::MAX,
        ensures
            final(self).wf(),
            (final(self)@, r) == resolve_spec(old(self)@, name@, arity, 0),
    {
        self.resolve_with_type(name, arity, 0)
    }

    /// The tag of constructor `name`: its own if it is known, else the next
    /// one, with `arity` and `type_id` recorded for it.
    pub fn resolve_with_type(&mut self, name: &str, arity: u8, type_id: u8) -> (r: u8)
        requires
            old(self).wf(),
            find_ctor(old(self)@.ctors, name@) is None ==> old(self)@.next_tag < u16::MAX,
        ensures
            final(self).wf(),
            (final(self)@, r) == resolve_spec(old(self)@, name@, arity, type_id),
    {
        let key = text(name);
        match self.index_of(&key) {
            Some(i) => {
                return self.ctors[i].1.tag;
            },
            None => {},
        }
        // Past 255 the tag saturates; `check_capacity` reports the error.
        let tag: u8 = if self.next_tag < 255 { self.next_tag as u8 } else { 255 };
        let ghost s = self@.ctors;
        let mut j: usize = 0;
        loop
            invariant
                j <= self.ctors@.len(),
                s == entries_view(self.ctors@),
                forall|i: int| 0 <= i < j ==> !name_lt(key@, #[trigger] s[i].0),
            ensures
                j <= self.ctors@.len(),
                forall|i: int| 0 <= i < j ==> !name_lt(key@, #[trigger] s[i].0),
                j == self.ctors@.len() || name_lt(key@, s[j as int].0),
            decreases self.ctors@.len() - j,
        {
            if j >= self.ctors.len() {
                break;
            }
            if name_less(&key, &self.ctors[j].0) {
                break;
            }
            j += 1;
        }
        proof {
            lemma_insert_pos_at(s, key@, j as int);
            assert(!has_name(s, key@));
            lemma_insert_ctor(s, key@, (tag, arity, type_id), key@);
        }
        self.ctors.insert(j, (key, CtorInfo { tag, arity, type_id }));
        self.next_tag = self.next_tag + 1;
        assert(self@.ctors =~= insert_ctor(s, name@, (tag, arity, type_id)));
        tag
    }

    /// The tag and arity of constructor `name`.
    pub fn get(&self, name: &str) -> (r: Option<(u8, u8)>)
        requires
            self.wf(),
        ensures
            r == match find_ctor(self@.ctors, name@) {
                Some(c) => Some((c.0, c.1)),
                None => None::<(u8, u8)>,
            },
    {
        let key = text(name);
        match self.index_of(&key) {
            Some(i) => Some((self.ctors[i].1.tag, self.ctors[i].1.arity)),
            None => None,
        }
    }

    /// The tag, arity and type of constructor `name`.
    pub fn get_with_type(&self, name: &str) -> (r: Option<(u8, u8, u8)>)
        requires
            self.wf(),
        ensures
            r == find_ctor(self@.ctors, name@),
    {
        let key = text(name);
        match self.index_of(&key) {
            Some(i) => Some((self.ctors[i].1.tag, self.ctors[i].1.arity, self.ctors[i].1.type_id)),
            None => None,
        }
    }

    /// The tags and arities of the constructors of type `type_id`, by tag.
    pub fn ctors_of_type(&self, type_id: u8) -> (r: Vec<(u8, u8)>)
        ensures
            r@ == sort_by_tag(of_type(self@.ctors, type_id)),
    {
        let ghost s = self@.ctors;
        let mut found: Vec<(u8, u8)> = Vec::new();
        let mut i: usize = 0;
        while i < self.ctors.len()
            invariant
                i <= self.ctors@.len(),
                s == self@.ctors,
                s == entries_view(self.ctors@),
                found@ == of_type(s.take(i as int), type_id),
            decreases self.ctors@.len() - i,
        {
            let info = self.ctors[i].1;
            if info.type_id == type_id {
                found.push((info.tag, info.arity));
            }
            assert(s.take(i + 1).drop_last() =~= s.take(i as int));
            assert(found@ =~= of_type(s.take(i + 1), type_id));
            i += 1;
        }
        assert(s.take(s.len() as int) =~= s);
        let mut out: Vec<(u8, u8)> = Vec::new();
        let mut k: usize = 0;
        while k < found.len()
            invariant
                k <= found@.len(),
                out@ == sort_by_tag(found@.take(k as int)),
            decreases found@.len() - k,
        {
            assert(found@.take(k + 1).drop_last() =~= found@.take(k as int));
            insert_tagged(&mut out, found[k]);
            k += 1;
        }
        assert(found@.take(found@.len() as int) =~= found@);
        out
    }

    /// The name of the first constructor, in name order, with tag `tag`.
    pub fn name_of_tag(&self, tag: u8) -> (r: Option<&str>)
        ensures
            match r {
                Some(x) => name_with_tag(self@.ctors, tag) == Some(x@),
                None => name_with_tag(self@.ctors, tag) is None,
            },
    {
        let ghost s = self@.ctors;
        let mut i: usize = 0;
        while i < self.ctors.len()
            invariant
                i <= self.ctors@.len(),
                s == self@.ctors,
                s == entries_view(self.ctors@),
                forall|j: int| 0 <= j < i ==> s[j].1.0 != tag,
            decreases self.ctors@.len() - i,
        {
            if self.ctors[i].1.tag == tag {
                proof {
                    assert(first_tagged(s, tag, i as int));
                    let k = choose|k: int| first_tagged(s, tag, k);
                    if k < i {
                        assert(s[k].1.0 != tag);
                    } else if k > i {
                        assert(s[i as int].1.0 != tag);
                    }
                }
                return Some(self.ctors[i].0.as_str());
            }
            i += 1;
        }
        None
    }

    /// How many tags have been handed out, the built-in ones included.
    pub fn next_tag(&self) -> (r: u16)
        ensures
            r == self@.next_tag,
    {
        self.next_tag
    }

    /// Constructor tags are `u8`: fail if more than 256 were handed out.
    pub fn check_capacity(&self) -> (r: Result<(), ParseError>)
        ensures
            match r {
                Ok(()) => self@.next_tag <= MAX_CTORS,
                Err(e) => self@.next_tag > MAX_CTORS && e.message@ == capacity_text(self@.next_tag as nat),
            },
    {
        let count = self.next_tag as usize;
        if count > MAX_CTORS {
            let mut m = text("too many constructors: ");
            let c = decimal_string(count);
            m.append(c.as_str());
            m.append(" (max ");
            let x = decimal_string(MAX_CTORS);
            m.append(x.as_str());
            m.append(", tags are u8)");
            return Err(ParseError::from(m));
        }
        Ok(())
    }

    /// Each constructor's tag and name, in name order.
    pub fn ctor_names(&self) -> (r: Vec<(u8, String)>)
        ensures
            r@.len() == self@.ctors.len(),
            forall|i: int| 0 <= i < r@.len() ==> (#[trigger] r@[i]).0 == self@.ctors[i].1.0 && r@[i].1@ == self@.ctors[i].0,
    {
        let ghost s = self@.ctors;
        let mut out: Vec<(u8, String)> = Vec::new();
        let mut i: usize = 0;
        while i < self.ctors.len()
            invariant
                i <= self.ctors@.len(),
                s == self@.ctors,
                s == entries_view(self.ctors@),
                out@.len() == i,
                forall|j: int| 0 <= j < i ==> (#[trigger] out@[j]).0 == s[j].1.0 && out@[j].1@ == s[j].0,
            decreases self.ctors@.len() - i,
        {
            out.push((self.ctors[i].1.tag, self.ctors[i].0.clone()));
            i += 1;
        }
        out
    }
}

proof fn lemma_insert_by_tag_at(r: Seq<(u8, u8)>, x: (u8, u8), k: int)
    requires
        0 <= k <= r.len(),
        forall|i: int| k <= i < r.len() ==> (#[trigger] r[i]).0 > x.0,
        k == 0 || r[k - 1].0 <= x.0,
    ensures
        insert_by_tag(r, x) == r.take(k).push(x) + r.skip(k),
    decreases r.len() - k,
{
    if r.len() == 0 {
        assert(r.take(k).push(x) + r.skip(k) =~= seq![x]);
    } else if k == r.len() {
        assert(r.take(k).push(x) + r.skip(k) =~= r.push(x));
    } else {
        let d = r.drop_last();
        assert forall|i: int| k <= i < d.len() implies (#[trigger] d[i]).0 > x.0 by {
            assert(d[i] == r[i]);
        }
        lemma_insert_by_tag_at(d, x, k);
        assert(d.take(k).push(x) + d.skip(k) + seq![r.last()] =~= r.take(k).push(x) + r.skip(k));
    }
}

fn insert_tagged(out: &mut Vec<(u8, u8)>, x: (u8, u8))
    ensures
        final(out)@ == insert_by_tag(old(out)@, x),
{
    let ghost r = out@;
    let mut k: usize = out.len();
    loop
        invariant
            k <= out@.len(),
            out@ == r,
            forall|i: int| k <= i < r.len() ==> (#[trigger] r[i]).0 > x.0,
        ensures
            k <= out@.len(),
            out@ == r,
            forall|i: int| k <= i < r.len() ==> (#[trigger] r[i]).0 > x.0,
            k == 0 || r[k - 1].0 <= x.0,
        decreases k,
    {
        if k == 0 {
            break;
        }
        if out[k - 1].0 <= x.0 {
            break;
        }
        k -= 1;
    }
    proof {
        lemma_insert_by_tag_at(r, x, k as int);
    }
    out.insert(k, x);
    assert(out@ =~= r.take(k as int).push(x) + r.skip(k as int));
}

} // verus!
