// The printed form of CPS terms: one binding per line, nested bodies indented
// by two spaces more than the line that opens them.
use vstd::prelude::*;
use super::cps::{
    Case, Define, Expr, Module, Name, SCase, SDefine, SExpr, SName, SVal, Tag, Val, case_view, cases_view,
    names_view,
};
use super::prim::{BytesOp, IntOp, PrimOp};
use crate::disasm::{decimal_string, join, text};
use crate::listing::{int_string, int_text};
use crate::pass::cps_rewrite::rewrite_01_inlining::decimal;
use vstd::string::{StrSliceExecFns, StringExecFns};

verus! {

// ── Specification ────────────────────────────────────────────────────────────

/// The printed name of a primitive operation.
pub open spec fn prim_name(op: PrimOp) -> Seq<char> {
    match op {
        PrimOp::Int(i) => match i {
            IntOp::Add => "int.add"@,
            IntOp::Sub => "int.sub"@,
            IntOp::Mul => "int.mul"@,
            IntOp::Eq => "int.eq"@,
            IntOp::Lt => "int.lt"@,
            IntOp::Byte => "int.byte"@,
            IntOp::Div => "int.div"@,
            IntOp::Mod => "int.mod"@,
            IntOp::SubSat => "int.sub_sat"@,
            IntOp::Le => "int.le"@,
            IntOp::And => "int.and"@,
            IntOp::Or => "int.or"@,
            IntOp::Xor => "int.xor"@,
            IntOp::Shl => "int.shl"@,
            IntOp::Shr => "int.shr"@,
        },
        PrimOp::Bytes(b) => match b {
            BytesOp::Len => "bytes.len"@,
            BytesOp::Get => "bytes.get"@,
            BytesOp::Concat => "bytes.concat"@,
            BytesOp::Slice => "bytes.slice"@,
            BytesOp::Eq => "bytes.eq"@,
        },
    }
}

/// Names separated by `, `.
pub open spec fn names_text(ns: Seq<SName>) -> Seq<char> {
    join(ns, ", "@)
}

/// A byte string as a list of decimal numbers: `[1, 2, 3]`.
pub open spec fn bytes_text(bs: Seq<u8>) -> Seq<char> {
    "["@ + join(Seq::new(bs.len(), |i: int| decimal(bs[i] as nat)), ", "@) + "]"@
}

/// `, ` before each name.
pub open spec fn fields_suffix(ns: Seq<SName>) -> Seq<char>
    decreases ns.len(),
{
    if ns.len() == 0 {
        Seq::empty()
    } else {
        fields_suffix(ns.drop_last()) + ", "@ + ns.last()
    }
}

pub open spec fn indent_more(ind: Seq<char>) -> Seq<char> {
    ind + "  "@
}

/// A value printed on the line that `ind` indents; a continuation's body
/// goes on the lines below, one level deeper.
pub open spec fn val_text(v: SVal, ind: Seq<char>) -> Seq<char>
    decreases v,
{
    match v {
        SVal::Var(n) => n,
        SVal::Int(i) => int_text(i),
        SVal::NullCont => "null_cont"@,
        SVal::Extern(slot) => "extern("@ + decimal(slot as nat) + ")"@,
        SVal::Field(n, idx) => "field("@ + n + ", "@ + decimal(idx as nat) + ")"@,
        SVal::Ctor(tag, fs) => "ctor("@ + decimal(tag as nat) + fields_suffix(fs) + ")"@,
        SVal::Bytes(bs) => "bytes("@ + bytes_text(bs) + ")"@,
        SVal::Prim(op, args) => prim_name(op) + "("@ + names_text(args) + ")"@,
        SVal::Cont(c) => "cont("@ + names_text(c.params) + ") =>\n"@ + expr_text(*c.body, indent_more(ind)),
    }
}

/// An expression printed at indentation `ind`, with no newline at its end.
pub open spec fn expr_text(e: SExpr, ind: Seq<char>) -> Seq<char>
    decreases e,
{
    match e {
        SExpr::Fin(n) => ind + "fin "@ + n,
        SExpr::Encore(f, args, k) => ind + "encore "@ + f + "("@ + names_text(args) + ") -> "@ + k,
        SExpr::Let(n, v, b) => ind + "let "@ + n + " = "@ + val_text(v, ind) + "\n"@ + expr_text(*b, ind),
        SExpr::Letrec(n, f, b) => ind + "letrec "@ + n + "("@ + names_text(f.args) + ") -> "@ + f.cont + " =\n"@
            + expr_text(*f.body, indent_more(ind)) + "\n"@ + expr_text(*b, ind),
        SExpr::Match(s, base, cs) => ind + "match "@ + s + " (base="@ + decimal(base as nat) + ")"@ + cases_text(
            cs,
            base,
            ind,
        ),
    }
}

/// The branches of a match, each on a new line: `| tag ->` or
/// `| tag(binds) ->`, then its body one level deeper.
pub open spec fn cases_text(cs: Seq<SCase>, base: Tag, ind: Seq<char>) -> Seq<char>
    decreases cs,
{
    if cs.len() == 0 {
        Seq::empty()
    } else {
        let c = cs.last();
        cases_text(cs.drop_last(), base, ind) + "\n"@ + ind + "| "@ + decimal((base + cs.len() - 1) as nat) + (if c.binds.len()
            == 0 {
            Seq::empty()
        } else {
            "("@ + names_text(c.binds) + ")"@
        }) + " ->\n"@ + expr_text(c.body, indent_more(ind))
    }
}

pub open spec fn define_text(d: SDefine) -> Seq<char> {
    "define "@ + d.name + " =\n"@ + expr_text(d.body, Seq::empty())
}

/// The definitions of a module, separated by blank lines.
pub open spec fn module_text(ds: Seq<SDefine>) -> Seq<char> {
    join(Seq::new(ds.len(), |i: int| define_text(ds[i])), "\n\n"@)
}

// ── Implementation ──────────────────────────────────────────────────────────

/// The decimal digits of `n`, most significant first, with no sign or
/// padding.
pub(crate) fn wide_decimal_string(n: u128) -> (r: String)
    ensures
        r@ == decimal(n as nat),
{
    crate::digits::decimal_text(n)
}

impl PrimOp {
    /// The printed name of the operation.
    pub fn name(&self) -> (r: &'static str)
        ensures
            r@ == prim_name(*self),
    {
        match self {
            PrimOp::Int(i) => match i {
                IntOp::Add => "int.add",
                IntOp::Sub => "int.sub",
                IntOp::Mul => "int.mul",
                IntOp::Eq => "int.eq",
                IntOp::Lt => "int.lt",
                IntOp::Byte => "int.byte",
                IntOp::Div => "int.div",
                IntOp::Mod => "int.mod",
                IntOp::SubSat => "int.sub_sat",
                IntOp::Le => "int.le",
                IntOp::And => "int.and",
                IntOp::Or => "int.or",
                IntOp::Xor => "int.xor",
                IntOp::Shl => "int.shl",
                IntOp::Shr => "int.shr",
            },
            PrimOp::Bytes(b) => match b {
                BytesOp::Len => "bytes.len",
                BytesOp::Get => "bytes.get",
                BytesOp::Concat => "bytes.concat",
                BytesOp::Slice => "bytes.slice",
                BytesOp::Eq => "bytes.eq",
            },
        }
    }
}

fn push_names(out: &mut String, ns: &Vec<Name>)
    ensures
        final(out)@ == old(out)@ + names_text(names_view(ns@)),
{
    let ghost o0 = out@;
    let ghost parts = names_view(ns@);
    let mut i: usize = 0;
    while i < ns.len()
        invariant
            i <= ns@.len(),
            parts == names_view(ns@),
            out@ == o0 + join(parts.take(i as int), ", "@),
        decreases ns@.len() - i,
    {
        if i > 0 {
            out.append(", ");
        }
        out.append(ns[i].as_str());
        assert(parts.take(i + 1).drop_last() =~= parts.take(i as int));
        if i == 0 {
            assert(out@ =~= o0 + parts[0]);
        }
        assert(out@ =~= o0 + join(parts.take(i + 1), ", "@));
        i += 1;
    }
    assert(parts.take(ns@.len() as int) =~= parts);
}

fn push_fields(out: &mut String, ns: &Vec<Name>)
    ensures
        final(out)@ == old(out)@ + fields_suffix(names_view(ns@)),
{
    let ghost o0 = out@;
    let ghost parts = names_view(ns@);
    let mut i: usize = 0;
    while i < ns.len()
        invariant
            i <= ns@.len(),
            parts == names_view(ns@),
            out@ == o0 + fields_suffix(parts.take(i as int)),
        decreases ns@.len() - i,
    {
        out.append(", ");
        out.append(ns[i].as_str());
        assert(parts.take(i + 1).drop_last() =~= parts.take(i as int));
        assert(out@ =~= o0 + fields_suffix(parts.take(i + 1)));
        i += 1;
    }
    assert(parts.take(ns@.len() as int) =~= parts);
}

fn push_bytes(out: &mut String, bs: &Vec<u8>)
    ensures
        final(out)@ == old(out)@ + bytes_text(bs@),
{
    let ghost o0 = out@;
    let ghost parts = Seq::new(bs@.len(), |i: int| decimal(bs@[i] as nat));
    out.append("[");
    let mut i: usize = 0;
    while i < bs.len()
        invariant
            i <= bs@.len(),
            parts == Seq::new(bs@.len(), |i: int| decimal(bs@[i] as nat)),
            out@ == o0 + "["@ + join(parts.take(i as int), ", "@),
        decreases bs@.len() - i,
    {
        if i > 0 {
            out.append(", ");
        }
        let d = decimal_string(bs[i] as usize);
        out.append(d.as_str());
        assert(parts.take(i + 1).drop_last() =~= parts.take(i as int));
        if i == 0 {
            assert(out@ =~= o0 + "["@ + parts[0]);
        }
        assert(out@ =~= o0 + "["@ + join(parts.take(i + 1), ", "@));
        i += 1;
    }
    assert(parts.take(bs@.len() as int) =~= parts);
    out.append("]");
}

fn deeper(ind: &String) -> (r: String)
    ensures
        r@ == indent_more(ind@),
{
    let mut r = text(ind.as_str());
    r.append("  ");
    r
}

fn push_val(out: &mut String, v: &Val, ind: &String)
    ensures
        final(out)@ == old(out)@ + val_text(v@, ind@),
    decreases *v, 1nat,
{
    match v {
        Val::Var(n) => out.append(n.as_str()),
        Val::Int(i) => {
            let s = int_string(*i);
            out.append(s.as_str());
        },
        Val::NullCont => out.append("null_cont"),
        Val::Extern(slot) => {
            out.append("extern(");
            let s = decimal_string(*slot as usize);
            out.append(s.as_str());
            out.append(")");
        },
        Val::Field(n, idx) => {
            out.append("field(");
            out.append(n.as_str());
            out.append(", ");
            let s = decimal_string(*idx as usize);
            out.append(s.as_str());
            out.append(")");
        },
        Val::Ctor(tag, fs) => {
            out.append("ctor(");
            let s = decimal_string(*tag as usize);
            out.append(s.as_str());
            push_fields(out, fs);
            out.append(")");
        },
        Val::Bytes(bs) => {
            out.append("bytes(");
            push_bytes(out, bs);
            out.append(")");
        },
        Val::Prim(op, args) => {
            out.append(op.name());
            out.append("(");
            push_names(out, args);
            out.append(")");
        },
        Val::Cont(c) => {
            out.append("cont(");
            push_names(out, &c.params);
            out.append(") =>\n");
            let inner = deeper(ind);
            push_expr(out, &c.body, &inner);
        },
    }
}

fn push_expr(out: &mut String, e: &Expr, ind: &String)
    ensures
        final(out)@ == old(out)@ + expr_text(e@, ind@),
    decreases *e, 1nat,
{
    let ghost o0 = out@;
    out.append(ind.as_str());
    match e {
        Expr::Fin(n) => {
            out.append("fin ");
            out.append(n.as_str());
        },
        Expr::Encore(f, args, k) => {
            out.append("encore ");
            out.append(f.as_str());
            out.append("(");
            push_names(out, args);
            out.append(") -> ");
            out.append(k.as_str());
        },
        Expr::Let(n, v, b) => {
            out.append("let ");
            out.append(n.as_str());
            out.append(" = ");
            push_val(out, v, ind);
            out.append("\n");
            push_expr(out, b, ind);
        },
        Expr::Letrec(n, f, b) => {
            assert(f@.body == Box::new(f.body@));
            out.append("letrec ");
            out.append(n.as_str());
            out.append("(");
            push_names(out, &f.args);
            out.append(") -> ");
            out.append(f.cont.as_str());
            out.append(" =\n");
            let inner = deeper(ind);
            push_expr(out, &f.body, &inner);
            out.append("\n");
            push_expr(out, b, ind);
        },
        Expr::Match(s, base, cs) => {
            out.append("match ");
            out.append(s.as_str());
            out.append(" (base=");
            let d = decimal_string(*base as usize);
            out.append(d.as_str());
            out.append(")");
            assert(decreases_to!(*e => *cs));
            push_cases(out, cs, *base, ind, Ghost(*e));
        },
    }
    assert(out@ =~= o0 + expr_text(e@, ind@));
}

fn push_cases(out: &mut String, cs: &Vec<Case>, base: Tag, ind: &String, Ghost(parent): Ghost<Expr>)
    requires
        decreases_to!(parent => *cs),
    ensures
        final(out)@ == old(out)@ + cases_text(cases_view(cs@), base, ind@),
    decreases parent, 0nat,
{
    let ghost o0 = out@;
    let ghost cv = cases_view(cs@);
    let inner = deeper(ind);
    let mut i: usize = 0;
    while i < cs.len()
        invariant
            i <= cs@.len(),
            cv == cases_view(cs@),
            inner@ == indent_more(ind@),
            decreases_to!(parent => *cs),
            out@ == o0 + cases_text(cv.take(i as int), base, ind@),
        decreases cs@.len() - i,
    {
        proof {
            assert(cv.take(i + 1).drop_last() =~= cv.take(i as int));
            assert(cv.take(i + 1).last() == case_view(cs@[i as int]));
            assert(decreases_to!(*cs => cs@));
            assert(decreases_to!(cs@ => cs@[i as int]));
            assert(decreases_to!(cs@[i as int] => cs@[i as int].body));
        }
        out.append("\n");
        out.append(ind.as_str());
        out.append("| ");
        let tag = wide_decimal_string(base as u128 + i as u128);
        out.append(tag.as_str());
        let c = &cs[i];
        if c.binds.len() > 0 {
            out.append("(");
            push_names(out, &c.binds);
            out.append(")");
        }
        out.append(" ->\n");
        push_expr(out, &c.body, &inner);
        assert(out@ =~= o0 + cases_text(cv.take(i + 1), base, ind@));
        i += 1;
    }
    assert(cv.take(cs@.len() as int) =~= cv);
}

impl Expr {
    /// The printed form of the expression, at the left margin.
    pub fn to_text(&self) -> (r: String)
        ensures
            r@ == expr_text(self@, Seq::empty()),
    {
        let mut out = String::new();
        let ind = String::new();
        push_expr(&mut out, self, &ind);
        out
    }
}

impl Define {
    /// `define name =` and the body on the lines below.
    pub fn to_text(&self) -> (r: String)
        ensures
            r@ == define_text(self@),
    {
        let mut out = text("define ");
        out.append(self.name.as_str());
        out.append(" =\n");
        let ind = String::new();
        push_expr(&mut out, &self.body, &ind);
        out
    }
}

impl Module {
    /// Each definition in turn, separated by blank lines.
    pub fn to_text(&self) -> (r: String)
        ensures
            r@ == module_text(self@),
    {
        let ghost parts = Seq::new(self@.len(), |i: int| define_text(self@[i]));
        let mut out = String::new();
        let mut i: usize = 0;
        while i < self.defines.len()
            invariant
                i <= self.defines@.len(),
                self@.len() == self.defines@.len(),
                parts == Seq::new(self@.len(), |i: int| define_text(self@[i])),
                out@ == join(parts.take(i as int), "\n\n"@),
            decreases self.defines@.len() - i,
        {
            if i > 0 {
                out.append("\n\n");
            }
            let d = self.defines[i].to_text();
            assert(self@[i as int] == self.defines@[i as int]@);
            out.append(d.as_str());
            assert(parts.take(i + 1).drop_last() =~= parts.take(i as int));
            if i == 0 {
                assert(out@ =~= parts[0]);
            }
            assert(out@ =~= join(parts.take(i + 1), "\n\n"@));
            i += 1;
        }
        assert(parts.take(self@.len() as int) =~= parts);
        out
    }
}

} // verus!
