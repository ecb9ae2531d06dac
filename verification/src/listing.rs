// The text of a listing: the arity table, the globals, then the code, one
// instruction per line with its label above it and its comment beside it.
use vstd::prelude::*;
use crate::disasm::{
    Disasm, DisasmError, Instr, Op, OpV, arity_pairs, decodable, decode, decode_program, disasm_ok, hex4, hex4_string, hex_digit, join,
    map_chars, decimal_string, text,
};
use crate::pass::asm_emit::Opcodes;
use crate::pass::cps_rewrite::rewrite_01_inlining::decimal;
use crate::program::{Program, parse_spec};
use std::collections::BTreeMap;
use vstd::string::{StrSliceExecFns, StringExecFns};

verus! {

broadcast use vstd::laws_cmp::group_laws_cmp;

// ── Specification ────────────────────────────────────────────────────────────

/// Two decimal digits, zero-padded.
pub open spec fn two_digits(n: nat) -> Seq<char> {
    if n < 10 {
        "0"@ + decimal(n)
    } else {
        decimal(n)
    }
}

/// How a register is written: `SELF`, `CONT`, `A1`..`A8`, `X01`..`X10`,
/// `NULL`, or `r` and its number.
pub open spec fn reg_spelling(r: u8) -> Seq<char> {
    if r == 0 {
        "SELF"@
    } else if r == 1 {
        "CONT"@
    } else if 2 <= r <= 9 {
        "A"@ + decimal((r - 1) as nat)
    } else if 10 <= r <= 19 {
        "X"@ + two_digits((r - 9) as nat)
    } else if r == 0xFF {
        "NULL"@
    } else {
        "r"@ + decimal(r as nat)
    }
}

/// Two lowercase hexadecimal digits.
pub open spec fn hex2(b: u8) -> Seq<char> {
    seq![hex_digit(b as int / 16), hex_digit(b as int % 16)]
}

/// A signed decimal number.
pub open spec fn int_text(v: i32) -> Seq<char> {
    if v < 0 {
        "-"@ + decimal((-v) as nat)
    } else {
        decimal(v as nat)
    }
}

/// `, ` and the name of each register.
pub open spec fn regs_suffix(rs: Seq<u8>) -> Seq<char>
    decreases rs.len(),
{
    if rs.len() == 0 {
        Seq::empty()
    } else {
        regs_suffix(rs.drop_last()) + ", "@ + reg_spelling(rs.last())
    }
}

pub open spec fn three(op: Seq<char>, rd: u8, ra: u8, rb: u8) -> Seq<char> {
    op + " "@ + reg_spelling(rd) + ", "@ + reg_spelling(ra) + ", "@ + reg_spelling(rb)
}

/// The text of an instruction.
#[verifier::opaque]
pub open spec fn op_text(op: OpV) -> Seq<char> {
    match op {
        OpV::Fin { rs } => "FIN "@ + reg_spelling(rs),
        OpV::Mov { rd, rs } => "MOV "@ + reg_spelling(rd) + ", "@ + reg_spelling(rs),
        OpV::Capture { rd, idx } => "CAPTURE "@ + reg_spelling(rd) + ", "@ + decimal(idx as nat),
        OpV::Global { rd, idx } => "GLOBAL "@ + reg_spelling(rd) + ", g"@ + decimal(idx as nat),
        OpV::Closure { rd, target, ncap, caps } => "CLOSURE "@ + reg_spelling(rd) + ", @"@ + hex4(target) + ", "@ + decimal(
            ncap as nat,
        ) + regs_suffix(caps),
        OpV::Function { rd, target } => "FUNCTION "@ + reg_spelling(rd) + ", @"@ + hex4(target),
        OpV::Pack { rd, tag, fields } => "PACK "@ + reg_spelling(rd) + ", tag="@ + decimal(tag as nat) + regs_suffix(fields),
        OpV::Field { rd, rs, idx } => "FIELD "@ + reg_spelling(rd) + ", "@ + reg_spelling(rs) + ", "@ + decimal(idx as nat),
        OpV::Unpack { rd, tag, rs } => "UNPACK "@ + reg_spelling(rd) + ", tag="@ + decimal(tag as nat) + ", "@ + reg_spelling(rs),
        OpV::Match { rs, table } => "MATCH "@ + reg_spelling(rs) + " ["@ + join(
            Seq::new(table.len(), |j: int| decimal(table[j].0 as nat) + ":@"@ + hex4(table[j].1)),
            ", "@,
        ) + "]"@,
        OpV::Encore { rf, rk } => "ENCORE "@ + reg_spelling(rf) + ", "@ + reg_spelling(rk),
        OpV::Int { rd, val } => "INT "@ + reg_spelling(rd) + ", "@ + int_text(val),
        OpV::Int0 { rd } => "INT_0 "@ + reg_spelling(rd),
        OpV::Int1 { rd } => "INT_1 "@ + reg_spelling(rd),
        OpV::Int2 { rd } => "INT_2 "@ + reg_spelling(rd),
        OpV::IntAdd { rd, ra, rb } => three("ADD"@, rd, ra, rb),
        OpV::IntSub { rd, ra, rb } => three("SUB"@, rd, ra, rb),
        OpV::IntMul { rd, ra, rb } => three("MUL"@, rd, ra, rb),
        OpV::IntEq { rd, ra, rb } => three("EQ"@, rd, ra, rb),
        OpV::IntLt { rd, ra, rb } => three("LT"@, rd, ra, rb),
        OpV::Extern { rd, slot, ra } => "EXTERN "@ + reg_spelling(rd) + ", "@ + decimal(slot as nat) + ", "@ + reg_spelling(ra),
        OpV::Unknown(b) => "??? (0x"@ + hex2(b) + ")"@,
    }
}

/// `s` padded with spaces to at least `w` characters.
pub open spec fn pad_right(s: Seq<char>, w: nat) -> Seq<char> {
    if s.len() >= w {
        s
    } else {
        s + Seq::new((w - s.len()) as nat, |i: int| ' ')
    }
}

/// `s` padded with spaces to at least 40 characters.
pub open spec fn pad40(s: Seq<char>) -> Seq<char> {
    pad_right(s, 40)
}

pub open spec fn arity_lines(at: Seq<(u8, u8)>, cn: Map<u8, Seq<char>>) -> Seq<char>
    decreases at.len(),
{
    if at.len() == 0 {
        Seq::empty()
    } else {
        let (tag, arity) = at.last();
        arity_lines(at.drop_last(), cn) + "  tag "@ + decimal(tag as nat) + ": arity "@ + decimal(arity as nat) + (if cn.contains_key(
            tag,
        ) {
            "  ("@ + cn[tag] + ")"@
        } else {
            Seq::empty()
        }) + "\n"@
    }
}

pub open spec fn global_lines(gs: Seq<(usize, String)>) -> Seq<char>
    decreases gs.len(),
{
    if gs.len() == 0 {
        Seq::empty()
    } else {
        global_lines(gs.drop_last()) + "  g"@ + decimal(gs.last().0 as nat) + " = "@ + gs.last().1@ + "\n"@
    }
}

pub open spec fn is_terminator(op: OpV) -> bool {
    op is Encore || op is Fin
}

/// The lines of instruction `i`: its label, itself with its comment, and a
/// blank line after a call or a return that the next label does not follow.
pub open spec fn instr_text(ins: Seq<Instr>, i: int) -> Seq<char> {
    let it = ins[i];
    (match it.label {
        Some(l) => "\n<"@ + l@ + ">:\n"@,
        None => Seq::empty(),
    }) + hex4(it.addr) + ":  "@ + (match it.comment {
        Some(c) => pad40(op_text(it.op@)) + " ; "@ + c@,
        None => op_text(it.op@),
    }) + "\n"@ + (if is_terminator(it.op@) && i + 1 < ins.len() && ins[i + 1].label is None {
        "\n"@
    } else {
        Seq::empty()
    })
}

pub open spec fn code_lines(ins: Seq<Instr>, k: int) -> Seq<char>
    decreases k,
{
    if k <= 0 {
        Seq::empty()
    } else {
        code_lines(ins, k - 1) + instr_text(ins, k - 1)
    }
}

/// The whole listing.
pub open spec fn listing_text(d: Disasm) -> Seq<char> {
    "--- Arity table ("@ + decimal(d.arity_table@.len()) + " entries) ---\n"@ + arity_lines(
        d.arity_table@,
        map_chars(d.ctor_names@),
    ) + "\n--- Globals ("@ + decimal(d.globals@.len()) + " entries) ---\n"@ + global_lines(d.globals@)
        + "\n--- Code ("@ + decimal(d.code_len as nat) + " bytes) ---\n"@ + code_lines(
        d.instructions@,
        d.instructions@.len() as int,
    )
}



// ── The two panels of the interactive viewer ─────────────────────────────────

pub open spec fn strings_view(v: Seq<String>) -> Seq<Seq<char>> {
    v.map_values(|x: String| x@)
}

/// The left panel: the arity table, if there is one, and the globals.
pub open spec fn left_panel_spec(d: Disasm) -> Seq<Seq<char>> {
    let at = d.arity_table@;
    let gs = d.globals@;
    (if at.len() > 0 {
        seq!["── Arity table ("@ + decimal(at.len()) + " entries) ──"@] + Seq::new(
            at.len(),
            |i: int| "  tag "@ + decimal(at[i].0 as nat) + ": arity "@ + decimal(at[i].1 as nat),
        ) + seq![Seq::<char>::empty()]
    } else {
        Seq::empty()
    }) + seq!["── Globals ("@ + decimal(gs.len()) + " entries) ──"@] + Seq::new(
        gs.len(),
        |i: int| "  g"@ + decimal(gs[i].0 as nat) + " = "@ + gs[i].1@,
    )
}

/// The lines of an instruction in the right panel: its label after a blank
/// line, then the instruction with its comment beside it.
pub open spec fn instr_panel(it: Instr) -> Seq<Seq<char>> {
    (match it.label {
        Some(l) => seq![Seq::<char>::empty(), "<"@ + l@ + ">:"@],
        None => Seq::empty(),
    }) + seq![
        hex4(it.addr) + ":  "@ + match it.comment {
            Some(c) => pad_right(op_text(it.op@), 30) + " ; "@ + c@,
            None => op_text(it.op@),
        },
    ]
}

/// The right panel: the lines of the first `k` instructions.
pub open spec fn right_panel_spec(ins: Seq<Instr>, k: int) -> Seq<Seq<char>>
    decreases k,
{
    if k <= 0 {
        Seq::empty()
    } else {
        right_panel_spec(ins, k - 1) + instr_panel(ins[k - 1])
    }
}

// ── Implementation ──────────────────────────────────────────────────────────

/// The two lowercase hexadecimal digits of `b`, zero-padded.
fn hex2_string(b: u8) -> (r: String)
    ensures
        r@ == hex2(b),
{
    crate::digits::hex2_text(b)
}

/// A minus sign for a negative value, then the decimal digits of its
/// magnitude.
pub(crate) fn int_string(v: i32) -> (r: String)
    ensures
        r@ == int_text(v),
{
    crate::digits::signed_text(v as i128)
}

/// The name of register `r` as listings print it.
pub fn reg_name(r: u8) -> (s: String)
    ensures
        s@ == reg_spelling(r),
{
    if r == 0 {
        text("SELF")
    } else if r == 1 {
        text("CONT")
    } else if 2 <= r && r <= 9 {
        let mut s = text("A");
        let d = decimal_string((r - 1) as usize);
        s.append(d.as_str());
        s
    } else if 10 <= r && r <= 19 {
        let mut s = text("X");
        let n = (r - 9) as usize;
        if n < 10 {
            s.append("0");
        }
        let d = decimal_string(n);
        s.append(d.as_str());
        s
    } else if r == 0xFF {
        text("NULL")
    } else {
        let mut s = text("r");
        let d = decimal_string(r as usize);
        s.append(d.as_str());
        s
    }
}

fn push_regs(s: &mut String, rs: &Vec<u8>)
    ensures
        final(s)@ == old(s)@ + regs_suffix(rs@),
{
    let ghost s0 = s@;
    let mut i: usize = 0;
    while i < rs.len()
        invariant
            i <= rs@.len(),
            s@ == s0 + regs_suffix(rs@.take(i as int)),
        decreases rs@.len() - i,
    {
        s.append(", ");
        let r = reg_name(rs[i]);
        s.append(r.as_str());
        assert(rs@.take(i + 1).drop_last() =~= rs@.take(i as int));
        assert(s@ =~= s0 + regs_suffix(rs@.take(i + 1)));
        i += 1;
    }
    assert(rs@.take(rs@.len() as int) =~= rs@);
}

fn three_text(op: &str, rd: u8, ra: u8, rb: u8) -> (s: String)
    ensures
        s@ == three(op@, rd, ra, rb),
{
    let mut s = text(op);
    s.append(" ");
    let a = reg_name(rd);
    s.append(a.as_str());
    s.append(", ");
    let b = reg_name(ra);
    s.append(b.as_str());
    s.append(", ");
    let c = reg_name(rb);
    s.append(c.as_str());
    s
}

fn match_text(rs: u8, table: &Vec<(u8, u16)>) -> (s: String)
    ensures
        s@ == op_text(OpV::Match { rs, table: table@ }),
{
    reveal(op_text);
    let ghost parts = Seq::new(table@.len(), |j: int| decimal(table@[j].0 as nat) + ":@"@ + hex4(table@[j].1));
    let mut s = text("MATCH ");
    let r = reg_name(rs);
    s.append(r.as_str());
    s.append(" [");
    let ghost s0 = s@;
    let mut j: usize = 0;
    assert(parts.take(0) =~= Seq::<Seq<char>>::empty());
    while j < table.len()
        invariant
            j <= table@.len(),
            parts == Seq::new(table@.len(), |j: int| decimal(table@[j].0 as nat) + ":@"@ + hex4(table@[j].1)),
            s@ == s0 + join(parts.take(j as int), ", "@),
        decreases table@.len() - j,
    {
        if j > 0 {
            s.append(", ");
        }
        let t = decimal_string(table[j].0 as usize);
        s.append(t.as_str());
        s.append(":@");
        let h = hex4_string(table[j].1);
        s.append(h.as_str());
        assert(parts.take(j + 1).drop_last() =~= parts.take(j as int));
        if j == 0 {
            assert(s@ =~= s0 + parts[0]);
        }
        assert(s@ =~= s0 + join(parts.take(j + 1), ", "@));
        j += 1;
    }
    assert(parts.take(table@.len() as int) =~= parts);
    s.append("]");
    s
}

/// The text of an instruction.
pub fn op_string(op: &Op) -> (s: String)
    ensures
        s@ == op_text(op@),
{
    reveal(op_text);
    match op {
        Op::Fin { rs } => {
            let mut s = text("FIN ");
            let r = reg_name(*rs);
            s.append(r.as_str());
            s
        },
        Op::Mov { rd, rs } => {
            let mut s = text("MOV ");
            let a = reg_name(*rd);
            s.append(a.as_str());
            s.append(", ");
            let b = reg_name(*rs);
            s.append(b.as_str());
            s
        },
        Op::Capture { rd, idx } => {
            let mut s = text("CAPTURE ");
            let a = reg_name(*rd);
            s.append(a.as_str());
            s.append(", ");
            let d = decimal_string(*idx as usize);
            s.append(d.as_str());
            s
        },
        Op::Global { rd, idx } => {
            let mut s = text("GLOBAL ");
            let a = reg_name(*rd);
            s.append(a.as_str());
            s.append(", g");
            let d = decimal_string(*idx as usize);
            s.append(d.as_str());
            s
        },
        Op::Closure { rd, target, ncap, caps } => {
            let mut s = text("CLOSURE ");
            let a = reg_name(*rd);
            s.append(a.as_str());
            s.append(", @");
            let h = hex4_string(*target);
            s.append(h.as_str());
            s.append(", ");
            let d = decimal_string(*ncap as usize);
            s.append(d.as_str());
            push_regs(&mut s, caps);
            s
        },
        Op::Function { rd, target } => {
            let mut s = text("FUNCTION ");
            let a = reg_name(*rd);
            s.append(a.as_str());
            s.append(", @");
            let h = hex4_string(*target);
            s.append(h.as_str());
            s
        },
        Op::Pack { rd, tag, fields } => {
            let mut s = text("PACK ");
            let a = reg_name(*rd);
            s.append(a.as_str());
            s.append(", tag=");
            let d = decimal_string(*tag as usize);
            s.append(d.as_str());
            push_regs(&mut s, fields);
            s
        },
        Op::Field { rd, rs, idx } => {
            let mut s = text("FIELD ");
            let a = reg_name(*rd);
            s.append(a.as_str());
            s.append(", ");
            let b = reg_name(*rs);
            s.append(b.as_str());
            s.append(", ");
            let d = decimal_string(*idx as usize);
            s.append(d.as_str());
            s
        },
        Op::Unpack { rd, tag, rs } => {
            let mut s = text("UNPACK ");
            let a = reg_name(*rd);
            s.append(a.as_str());
            s.append(", tag=");
            let d = decimal_string(*tag as usize);
            s.append(d.as_str());
            s.append(", ");
            let b = reg_name(*rs);
            s.append(b.as_str());
            s
        },
        Op::Match { rs, table } => match_text(*rs, table),
        Op::Encore { rf, rk } => {
            let mut s = text("ENCORE ");
            let a = reg_name(*rf);
            s.append(a.as_str());
            s.append(", ");
            let b = reg_name(*rk);
            s.append(b.as_str());
            s
        },
        Op::Int { rd, val } => {
            let mut s = text("INT ");
            let a = reg_name(*rd);
            s.append(a.as_str());
            s.append(", ");
            let v = int_string(*val);
            s.append(v.as_str());
            s
        },
        Op::Int0 { rd } => {
            let mut s = text("INT_0 ");
            let a = reg_name(*rd);
            s.append(a.as_str());
            s
        },
        Op::Int1 { rd } => {
            let mut s = text("INT_1 ");
            let a = reg_name(*rd);
            s.append(a.as_str());
            s
        },
        Op::Int2 { rd } => {
            let mut s = text("INT_2 ");
            let a = reg_name(*rd);
            s.append(a.as_str());
            s
        },
        Op::IntAdd { rd, ra, rb } => three_text("ADD", *rd, *ra, *rb),
        Op::IntSub { rd, ra, rb } => three_text("SUB", *rd, *ra, *rb),
        Op::IntMul { rd, ra, rb } => three_text("MUL", *rd, *ra, *rb),
        Op::IntEq { rd, ra, rb } => three_text("EQ", *rd, *ra, *rb),
        Op::IntLt { rd, ra, rb } => three_text("LT", *rd, *ra, *rb),
        Op::Extern { rd, slot, ra } => {
            let mut s = text("EXTERN ");
            let a = reg_name(*rd);
            s.append(a.as_str());
            s.append(", ");
            let d = decimal_string(*slot as usize);
            s.append(d.as_str());
            s.append(", ");
            let b = reg_name(*ra);
            s.append(b.as_str());
            s
        },
        Op::Unknown(b) => {
            let mut s = text("??? (0x");
            let h = hex2_string(*b);
            s.append(h.as_str());
            s.append(")");
            s
        },
    }
}


fn pad_to(s: &mut String, w: usize)
    ensures
        final(s)@ == pad_right(old(s)@, w as nat),
{
    let ghost s0 = s@;
    let n = s.as_str().unicode_len();
    if n >= w {
        return;
    }
    let mut k: usize = n;
    while k < w
        invariant
            n <= k <= w,
            n == s0.len(),
            s@ =~= s0 + Seq::new((k - n) as nat, |i: int| ' '),
        decreases w - k,
    {
        proof {
            reveal_strlit(" ");
        }
        s.append(" ");
        k += 1;
    }
}

#[verifier::rlimit(40)]
fn push_instr(out: &mut String, ins: &Vec<Instr>, i: usize)
    requires
        i < ins@.len(),
    ensures
        final(out)@ == old(out)@ + instr_text(ins@, i as int),
{
    let ghost o0 = out@;
    let it = &ins[i];
    match &it.label {
        Some(l) => {
            out.append("\n<");
            out.append(l.as_str());
            out.append(">:\n");
        },
        None => {},
    }
    let ghost o1 = out@;
    let h = hex4_string(it.addr);
    out.append(h.as_str());
    out.append(":  ");
    let mut op_str = op_string(&it.op);
    match &it.comment {
        Some(c) => {
            pad_to(&mut op_str, 40);
            out.append(op_str.as_str());
            out.append(" ; ");
            out.append(c.as_str());
        },
        None => {
            out.append(op_str.as_str());
        },
    }
    out.append("\n");
    let is_terminator = match &it.op {
        Op::Encore { .. } => true,
        Op::Fin { .. } => true,
        _ => false,
    };
    if is_terminator && i < ins.len() - 1 && ins[i + 1].label.is_none() {
        out.append("\n");
    }
    assert(out@ =~= o0 + instr_text(ins@, i as int));
}

/// The text of a listing.
#[verifier::rlimit(40)]
pub fn render(d: &Disasm) -> (r: String)
    ensures
        r@ == listing_text(*d),
{
    let mut out = text("--- Arity table (");
    let n = decimal_string(d.arity_table.len());
    out.append(n.as_str());
    out.append(" entries) ---\n");
    let ghost o0 = out@;
    let mut i: usize = 0;
    while i < d.arity_table.len()
        invariant
            i <= d.arity_table@.len(),
            out@ == o0 + arity_lines(d.arity_table@.take(i as int), map_chars(d.ctor_names@)),
        decreases d.arity_table@.len() - i,
    {
        let (tag, arity) = d.arity_table[i];
        out.append("  tag ");
        let t = decimal_string(tag as usize);
        out.append(t.as_str());
        out.append(": arity ");
        let a = decimal_string(arity as usize);
        out.append(a.as_str());
        match d.ctor_names.get(&tag) {
            Some(name) => {
                assert(map_chars(d.ctor_names@).contains_key(tag));
                assert(map_chars(d.ctor_names@)[tag] == name@);
                out.append("  (");
                out.append(name.as_str());
                out.append(")");
            },
            None => {
                assert(!map_chars(d.ctor_names@).contains_key(tag));
            },
        }
        out.append("\n");
        assert(d.arity_table@.take(i + 1).drop_last() =~= d.arity_table@.take(i as int));
        assert(out@ =~= o0 + arity_lines(d.arity_table@.take(i + 1), map_chars(d.ctor_names@)));
        i += 1;
    }
    assert(d.arity_table@.take(d.arity_table@.len() as int) =~= d.arity_table@);
    out.append("\n--- Globals (");
    let g = decimal_string(d.globals.len());
    out.append(g.as_str());
    out.append(" entries) ---\n");
    let ghost o1 = out@;
    let mut i: usize = 0;
    while i < d.globals.len()
        invariant
            i <= d.globals@.len(),
            out@ == o1 + global_lines(d.globals@.take(i as int)),
        decreases d.globals@.len() - i,
    {
        out.append("  g");
        let k = decimal_string(d.globals[i].0);
        out.append(k.as_str());
        out.append(" = ");
        out.append(d.globals[i].1.as_str());
        out.append("\n");
        assert(d.globals@.take(i + 1).drop_last() =~= d.globals@.take(i as int));
        assert(out@ =~= o1 + global_lines(d.globals@.take(i + 1)));
        i += 1;
    }
    assert(d.globals@.take(d.globals@.len() as int) =~= d.globals@);
    out.append("\n--- Code (");
    let c = decimal_string(d.code_len);
    out.append(c.as_str());
    out.append(" bytes) ---\n");
    let ghost o2 = out@;
    let mut i: usize = 0;
    while i < d.instructions.len()
        invariant
            i <= d.instructions@.len(),
            out@ == o2 + code_lines(d.instructions@, i as int),
        decreases d.instructions@.len() - i,
    {
        push_instr(&mut out, &d.instructions, i);
        assert(out@ =~= o2 + code_lines(d.instructions@, i + 1));
        i += 1;
    }
    out
}

/// The listing of a program given as bytes, or why it has none.
pub fn disasm(ops: &Opcodes, bytes: &[u8]) -> (r: Result<String, DisasmError>)
    ensures
        match parse_spec(ops.magic@, bytes@) {
            Err(e) => r matches Err(DisasmError::Program(x)) && x == e,
            Ok(p) => if decodable(*ops, p.code, arity_pairs(p.arity)) {
                r matches Ok(s) && exists|d: Disasm| disasm_ok(*ops, p, d) && s@ == listing_text(d)
            } else {
                r matches Err(DisasmError::Incomplete)
            },
        },
{
    match decode(ops, bytes) {
        Ok(d) => Ok(render(&d)),
        Err(e) => Err(e),
    }
}

/// The listing of a program already read from its bytes.
pub fn disasm_program(ops: &Opcodes, prog: &Program) -> (r: String)
    requires
        decodable(*ops, prog@.code, arity_pairs(prog@.arity)),
    ensures
        exists|d: Disasm| disasm_ok(*ops, prog@, d) && r@ == listing_text(d),
{
    let d = decode_program(ops, prog);
    render(&d)
}

/// The left panel of the interactive viewer: the arity table, if there is
/// one, and the globals, one per line.
pub fn left_panel(d: &Disasm) -> (r: Vec<String>)
    ensures
        strings_view(r@) == left_panel_spec(*d),
{
    let ghost want = left_panel_spec(*d);
    let mut out: Vec<String> = Vec::new();
    let ghost head: Seq<Seq<char>> = if d.arity_table@.len() > 0 {
        seq!["── Arity table ("@ + decimal(d.arity_table@.len()) + " entries) ──"@] + Seq::new(
            d.arity_table@.len(),
            |i: int| "  tag "@ + decimal(d.arity_table@[i].0 as nat) + ": arity "@ + decimal(d.arity_table@[i].1 as nat),
        ) + seq![Seq::<char>::empty()]
    } else {
        Seq::empty()
    };
    if d.arity_table.len() > 0 {
        let mut h = text("── Arity table (");
        let n = decimal_string(d.arity_table.len());
        h.append(n.as_str());
        h.append(" entries) ──");
        out.push(h);
        let mut i: usize = 0;
        while i < d.arity_table.len()
            invariant
                i <= d.arity_table@.len(),
                out@.len() == i + 1,
                strings_view(out@) == head.take(i + 1),
                head.len() == d.arity_table@.len() + 2,
                head == seq!["── Arity table ("@ + decimal(d.arity_table@.len()) + " entries) ──"@] + Seq::new(
                    d.arity_table@.len(),
                    |i: int| "  tag "@ + decimal(d.arity_table@[i].0 as nat) + ": arity "@ + decimal(d.arity_table@[i].1 as nat),
                ) + seq![Seq::<char>::empty()],
            decreases d.arity_table@.len() - i,
        {
            let (tag, arity) = d.arity_table[i];
            let mut line = text("  tag ");
            let t = decimal_string(tag as usize);
            line.append(t.as_str());
            line.append(": arity ");
            let a = decimal_string(arity as usize);
            line.append(a.as_str());
            let ghost before = strings_view(out@);
            let ghost lv = line@;
            out.push(line);
            assert(strings_view(out@) =~= before.push(lv));
            assert(head.take(i + 2) =~= head.take(i + 1).push(head[i + 1]));
            i += 1;
        }
        let ghost before = strings_view(out@);
        out.push(String::new());
        assert(strings_view(out@) =~= before.push(Seq::<char>::empty()));
        assert(head.take(head.len() as int) =~= head);
        let ghost m: int = d.arity_table@.len() as int;
        assert(head.take(m + 2) =~= head.take(m + 1).push(head[m + 1]));
        assert(strings_view(out@) =~= head);
    } else {
        assert(strings_view(out@) =~= head);
    }
    let mut g = text("── Globals (");
    let n = decimal_string(d.globals.len());
    g.append(n.as_str());
    g.append(" entries) ──");
    let ghost before = strings_view(out@);
    let ghost gv = g@;
    out.push(g);
    assert(strings_view(out@) =~= before.push(gv));
    let ghost base = strings_view(out@);
    let mut i: usize = 0;
    while i < d.globals.len()
        invariant
            i <= d.globals@.len(),
            strings_view(out@) == base + Seq::new(i as nat, |k: int| "  g"@ + decimal(d.globals@[k].0 as nat) + " = "@ + d.globals@[k].1@),
        decreases d.globals@.len() - i,
    {
        let mut line = text("  g");
        let k = decimal_string(d.globals[i].0);
        line.append(k.as_str());
        line.append(" = ");
        line.append(d.globals[i].1.as_str());
        let ghost before = strings_view(out@);
        let ghost lv = line@;
        out.push(line);
        assert(strings_view(out@) =~= before.push(lv));
        assert(strings_view(out@) =~= base + Seq::new((i + 1) as nat, |k: int| "  g"@ + decimal(d.globals@[k].0 as nat) + " = "@ + d.globals@[k].1@));
        i += 1;
    }
    assert(strings_view(out@) =~= want);
    out
}

/// The right panel of the interactive viewer: each instruction on a line,
/// its label above it after a blank line, its comment beside it.
pub fn right_panel(d: &Disasm) -> (r: Vec<String>)
    ensures
        strings_view(r@) == right_panel_spec(d.instructions@, d.instructions@.len() as int),
{
    let mut out: Vec<String> = Vec::new();
    let mut i: usize = 0;
    assert(strings_view(out@) =~= right_panel_spec(d.instructions@, 0));
    while i < d.instructions.len()
        invariant
            i <= d.instructions@.len(),
            strings_view(out@) == right_panel_spec(d.instructions@, i as int),
        decreases d.instructions@.len() - i,
    {
        let it = &d.instructions[i];
        let ghost before = strings_view(out@);
        match &it.label {
            Some(l) => {
                out.push(String::new());
                let mut line = text("<");
                line.append(l.as_str());
                line.append(">:");
                let ghost lv = line@;
                out.push(line);
                assert(strings_view(out@) =~= before + seq![Seq::<char>::empty(), lv]);
            },
            None => {
                assert(strings_view(out@) =~= before);
            },
        }
        let ghost mid = strings_view(out@);
        let mut line = hex4_string(it.addr);
        line.append(":  ");
        let mut op_str = op_string(&it.op);
        match &it.comment {
            Some(c) => {
                pad_to(&mut op_str, 30);
                line.append(op_str.as_str());
                line.append(" ; ");
                line.append(c.as_str());
            },
            None => {
                line.append(op_str.as_str());
            },
        }
        let ghost lv = line@;
        out.push(line);
        proof {
            let ins = d.instructions@[i as int];
            let lab: Seq<Seq<char>> = match ins.label {
                Some(l) => seq![Seq::<char>::empty(), "<"@ + l@ + ">:"@],
                None => Seq::empty(),
            };
            assert(mid == before + lab);
            assert(lv == hex4(ins.addr) + ":  "@ + match ins.comment {
                Some(c) => pad_right(op_text(ins.op@), 30) + " ; "@ + c@,
                None => op_text(ins.op@),
            });
            assert(instr_panel(ins) == lab + seq![lv]);
            assert(strings_view(out@) =~= mid.push(lv));
        }
        assert(strings_view(out@) =~= before + instr_panel(d.instructions@[i as int]));
        i += 1;
    }
    out
}

} // verus!
