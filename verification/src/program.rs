// Program files: reading back the header, the tables, the code and the
// name sections that the emitter writes.
use vstd::prelude::*;
use vstd::utf8::{decode_utf8, encode_utf8, valid_utf8};
use crate::fleche::lexer::chars_of;
use vstd::string::StringExecFns;
use crate::pass::asm_emit::{Opcodes, entries_bytes, le16, name_entries, name_section, program_bytes};

verus! {

// ── Program files ────────────────────────────────────────────────────────────

/// Why a byte string is not a program file.
#[derive(Debug, Clone, Copy, PartialEq, Eq, Structural)]
pub enum ProgramError {
    /// It does not start with the magic bytes.
    BadMagic,
    /// A count or length points past its end.
    Truncated,
    /// A name is not UTF-8.
    InvalidName,
    /// Bytes follow the name sections.
    TrailingBytes,
}

/// A program file: the arity of each constructor tag, the entry address of
/// each global, the code, and the names of constructors and globals.
pub struct Program {
    pub arity_table: Vec<u8>,
    pub globals: Vec<u16>,
    pub code: Vec<u8>,
    pub ctor_names: Vec<(u8, String)>,
    pub global_names: Vec<(u8, String)>,
}

#[verifier::ext_equal]
pub struct PView {
    pub arity: Seq<u8>,
    pub globals: Seq<u16>,
    pub code: Seq<u8>,
    pub ctor_names: Seq<(u8, Seq<char>)>,
    pub global_names: Seq<(u8, Seq<char>)>,
}

pub open spec fn names_chars(ns: Seq<(u8, String)>) -> Seq<(u8, Seq<char>)> {
    ns.map_values(|p: (u8, String)| (p.0, p.1@))
}

impl View for Program {
    type V = PView;

    open spec fn view(&self) -> PView {
        PView {
            arity: self.arity_table@,
            globals: self.globals@,
            code: self.code@,
            ctor_names: names_chars(self.ctor_names@),
            global_names: names_chars(self.global_names@),
        }
    }
}

/// The little-endian 16-bit value at `p`.
pub open spec fn rd16(b: Seq<u8>, p: int) -> u16 {
    (b[p] as int + 256 * (b[p + 1] as int)) as u16
}

/// `k` names from `q` on, each its index, its length and its UTF-8 bytes,
/// with the position after them.
pub open spec fn name_list(b: Seq<u8>, q: int, k: nat) -> Result<(Seq<(u8, Seq<char>)>, int), ProgramError>
    decreases k,
{
    if k == 0 {
        Ok((Seq::empty(), q))
    } else {
        match name_list(b, q, (k - 1) as nat) {
            Err(e) => Err(e),
            Ok((ns, p)) => if p + 2 > b.len() {
                Err(ProgramError::Truncated)
            } else if p + 2 + b[p + 1] as int > b.len() {
                Err(ProgramError::Truncated)
            } else if !valid_utf8(b.subrange(p + 2, p + 2 + b[p + 1] as int)) {
                Err(ProgramError::InvalidName)
            } else {
                Ok((ns.push((b[p], decode_utf8(b.subrange(p + 2, p + 2 + b[p + 1] as int)))), p + 2 + b[p + 1] as int))
            },
        }
    }
}

/// A name section at `p`: its count, then the names.
#[verifier::opaque]
pub open spec fn name_section_at(b: Seq<u8>, p: int) -> Result<(Seq<(u8, Seq<char>)>, int), ProgramError> {
    if p + 2 > b.len() {
        Err(ProgramError::Truncated)
    } else {
        name_list(b, p + 2, rd16(b, p) as nat)
    }
}

/// What a byte string holds as a program file, or why it is none.
pub open spec fn parse_spec(magic: Seq<u8>, b: Seq<u8>) -> Result<PView, ProgramError> {
    let m = magic.len() as int;
    if b.len() < m || b.subrange(0, m) != magic {
        Err(ProgramError::BadMagic)
    } else if b.len() < m + 6 {
        Err(ProgramError::Truncated)
    } else {
        let pe = m + 6 + rd16(b, m) as int;
        let pc = pe + 2 * (rd16(b, m + 2) as int);
        let pz = pc + rd16(b, m + 4) as int;
        if b.len() < pz {
            Err(ProgramError::Truncated)
        } else {
            let base = PView {
                arity: b.subrange(m + 6, pe),
                globals: Seq::new(rd16(b, m + 2) as nat, |i: int| rd16(b, pe + 2 * i)),
                code: b.subrange(pc, pz),
                ctor_names: Seq::empty(),
                global_names: Seq::empty(),
            };
            if pz == b.len() {
                Ok(base)
            } else {
                match name_section_at(b, pz) {
                    Err(e) => Err(e),
                    Ok((cn, p1)) => match name_section_at(b, p1) {
                        Err(e) => Err(e),
                        Ok((gn, p2)) => if p2 == b.len() {
                            Ok(PView { ctor_names: cn, global_names: gn, ..base })
                        } else {
                            Err(ProgramError::TrailingBytes)
                        },
                    },
                }
            }
        }
    }
}



// ── Reading back what was written ───────────────────────────────────────────

pub open spec fn encode_names(ns: Seq<(u8, Seq<char>)>) -> Seq<(u8, Seq<u8>)> {
    ns.map_values(|p: (u8, Seq<char>)| (p.0, encode_utf8(p.1)))
}

/// A name section can hold these names: fewer than 65536, each under 256
/// bytes.
pub open spec fn names_fit(ns: Seq<(u8, Seq<char>)>) -> bool {
    &&& ns.len() < 65536
    &&& forall|i: int| 0 <= i < ns.len() ==> encode_utf8(#[trigger] ns[i].1).len() < 256
}

pub open spec fn encode_meta(names: Option<(Seq<(u8, Seq<char>)>, Seq<(u8, Seq<char>)>)>) -> Option<(Seq<(u8, Seq<u8>)>, Seq<(u8, Seq<u8>)>)> {
    match names {
        Some((c, g)) => Some((encode_names(c), encode_names(g))),
        None => None,
    }
}

proof fn lemma_rd16(b: Seq<u8>, p: int, v: u16)
    requires
        0 <= p,
        p + 1 < b.len(),
        b[p] == v as u8,
        b[p + 1] == (v >> 8) as u8,
    ensures
        rd16(b, p) == v,
{
    let lo = v as u8;
    let hi = (v >> 8) as u8;
    assert(lo as int + 256 * (hi as int) == v as int) by (bit_vector)
        requires
            lo == v as u8,
            hi == (v >> 8) as u8,
    ;
}

proof fn lemma_entries_bytes(es: Seq<u16>)
    ensures
        entries_bytes(es).len() == 2 * es.len(),
        forall|i: int| 0 <= i < es.len() ==> entries_bytes(es)[2 * i] == (#[trigger] es[i]) as u8
            && entries_bytes(es)[2 * i + 1] == (es[i] >> 8) as u8,
    decreases es.len(),
{
    if es.len() > 0 {
        lemma_entries_bytes(es.drop_last());
        assert forall|i: int| 0 <= i < es.len() implies entries_bytes(es)[2 * i] == (#[trigger] es[i]) as u8
            && entries_bytes(es)[2 * i + 1] == (es[i] >> 8) as u8 by {
            if i < es.len() - 1 {
                assert(es.drop_last()[i] == es[i]);
            }
        }
    }
}

/// The entries of the first `k` names are a prefix of those of all of them.
proof fn lemma_name_entries_prefix(e: Seq<(u8, Seq<u8>)>, k: int)
    requires
        0 <= k <= e.len(),
    ensures
        name_entries(e.take(k)).len() <= name_entries(e).len(),
        name_entries(e).subrange(0, name_entries(e.take(k)).len() as int) == name_entries(e.take(k)),
    decreases e.len() - k,
{
    if k == e.len() {
        assert(e.take(k) =~= e);
        assert(name_entries(e).subrange(0, name_entries(e).len() as int) =~= name_entries(e));
    } else {
        lemma_name_entries_prefix(e, k + 1);
        assert(e.take(k + 1).drop_last() =~= e.take(k));
        let a = name_entries(e.take(k));
        let b = name_entries(e.take(k + 1));
        assert(b.subrange(0, a.len() as int) =~= a);
        assert(name_entries(e).subrange(0, a.len() as int) =~= b.subrange(0, a.len() as int));
    }
}

proof fn lemma_name_list(b: Seq<u8>, q: int, ns: Seq<(u8, Seq<char>)>, k: int)
    requires
        0 <= q,
        0 <= k <= ns.len(),
        names_fit(ns),
        q + name_entries(encode_names(ns)).len() <= b.len(),
        b.subrange(q, q + name_entries(encode_names(ns)).len()) == name_entries(encode_names(ns)),
    ensures
        name_list(b, q, k as nat) == Ok::<_, ProgramError>((ns.take(k), q + name_entries(encode_names(ns).take(k)).len())),
    decreases k,
{
    let e = encode_names(ns);
    if k == 0 {
        assert(ns.take(0) =~= Seq::<(u8, Seq<char>)>::empty());
        assert(e.take(0) =~= Seq::<(u8, Seq<u8>)>::empty());
    } else {
        lemma_name_list(b, q, ns, k - 1);
        lemma_name_entries_prefix(e, k);
        let prev = name_entries(e.take(k - 1));
        let cur = name_entries(e.take(k));
        assert(e.take(k).drop_last() =~= e.take(k - 1));
        let bytes = encode_utf8(ns[k - 1].1);
        vstd::utf8::encode_utf8_valid_utf8(ns[k - 1].1);
        vstd::utf8::encode_utf8_decode_utf8(ns[k - 1].1);
        assert(e[k - 1] == (ns[k - 1].0, bytes));
        assert(e.take(k).last() == e[k - 1]);
        assert(cur == prev + seq![ns[k - 1].0, bytes.len() as u8] + bytes);
        let p = q + prev.len();
        assert(bytes.len() < 256);
        assert(b[p] == cur[prev.len() as int]);
        assert(b[p] == ns[k - 1].0);
        assert(b[p + 1] == cur[prev.len() as int + 1]);
        assert(b[p + 1] as int == bytes.len());
        assert(b.subrange(p + 2, p + 2 + bytes.len()) =~= bytes) by {
            assert forall|j: int| 0 <= j < bytes.len() implies b.subrange(p + 2, p + 2 + bytes.len())[j] == bytes[j] by {
                assert(b[p + 2 + j] == name_entries(e)[prev.len() as int + 2 + j]);
                assert(cur[prev.len() as int + 2 + j] == bytes[j]);
            }
        }
        assert(ns.take(k - 1).push((ns[k - 1].0, decode_utf8(bytes))) =~= ns.take(k));
    }
}

proof fn lemma_name_section_at(b: Seq<u8>, p: int, ns: Seq<(u8, Seq<char>)>)
    requires
        0 <= p,
        names_fit(ns),
        p + name_section(encode_names(ns)).len() <= b.len(),
        b.subrange(p, p + name_section(encode_names(ns)).len()) == name_section(encode_names(ns)),
    ensures
        name_section_at(b, p) == Ok::<_, ProgramError>((ns, p + name_section(encode_names(ns)).len())),
{
    reveal(name_section_at);
    let e = encode_names(ns);
    let sec = name_section(e);
    let ne = name_entries(e);
    assert(sec == le16(e.len() as u16) + ne);
    assert(b[p] == sec[0]);
    assert(b[p + 1] == sec[1]);
    lemma_rd16(b, p, e.len() as u16);
    assert(b.subrange(p + 2, p + 2 + ne.len()) =~= ne) by {
        assert forall|j: int| 0 <= j < ne.len() implies b.subrange(p + 2, p + 2 + ne.len())[j] == ne[j] by {
            assert(b[p + 2 + j] == sec[2 + j]);
        }
    }
    lemma_name_list(b, p + 2, ns, ns.len() as int);
    assert(ns.take(ns.len() as int) =~= ns);
    assert(e.take(ns.len() as int) =~= e);
}

proof fn lemma_parse_fixed(mg: Seq<u8>, arity: Seq<u8>, code: Seq<u8>, entries: Seq<u16>, tail: Seq<u8>)
    requires
        arity.len() < 65536,
        entries.len() < 65536,
        code.len() < 65536,
    ensures
        ({
            let b = mg + le16(arity.len() as u16) + le16(entries.len() as u16) + le16(code.len() as u16) + arity
                + entries_bytes(entries) + code + tail;
            let m = mg.len() as int;
            let pz = m + 6 + arity.len() + 2 * entries.len() + code.len();
            &&& b.len() >= m + 6
            &&& b.subrange(0, m) == mg
            &&& rd16(b, m) as int == arity.len()
            &&& rd16(b, m + 2) as int == entries.len()
            &&& rd16(b, m + 4) as int == code.len()
            &&& b.subrange(m + 6, m + 6 + arity.len()) == arity
            &&& Seq::new(entries.len(), |i: int| rd16(b, m + 6 + arity.len() + 2 * i)) == entries
            &&& b.subrange(m + 6 + arity.len() + 2 * entries.len(), pz) == code
            &&& b.len() == pz + tail.len()
            &&& b.subrange(pz, b.len() as int) == tail
        }),
{
    let m = mg.len() as int;
    let eb = entries_bytes(entries);
    lemma_entries_bytes(entries);
    let h = mg + le16(arity.len() as u16) + le16(entries.len() as u16) + le16(code.len() as u16);
    let b = h + arity + eb + code + tail;
    assert(h.len() == m + 6);
    assert(b.subrange(0, m) =~= mg);
    lemma_rd16(b, m, arity.len() as u16);
    lemma_rd16(b, m + 2, entries.len() as u16);
    lemma_rd16(b, m + 4, code.len() as u16);
    let pe = m + 6 + arity.len();
    let pc = pe + 2 * entries.len();
    let pz = pc + code.len();
    assert(b.subrange(m + 6, pe) =~= arity);
    assert(b.subrange(pc, pz) =~= code);
    assert(b.subrange(pz, b.len() as int) =~= tail);
    assert forall|i: int| 0 <= i < entries.len() implies rd16(b, pe + 2 * i) == #[trigger] entries[i] by {
        assert(b[pe + 2 * i] == eb[2 * i]);
        assert(b[pe + 2 * i + 1] == eb[2 * i + 1]);
        lemma_rd16(b, pe + 2 * i, entries[i]);
    }
    assert(Seq::new(entries.len(), |i: int| rd16(b, pe + 2 * i)) =~= entries);
}

#[verifier::spinoff_prover]
proof fn lemma_parse_without_names(ops: Opcodes, arity: Seq<u8>, code: Seq<u8>, entries: Seq<u16>)
    requires
        arity.len() < 65536,
        entries.len() < 65536,
        code.len() < 65536,
    ensures
        parse_spec(ops.magic@, program_bytes(ops, arity, code, entries, None)) == Ok::<PView, ProgramError>(PView {
            arity,
            globals: entries,
            code,
            ctor_names: Seq::empty(),
            global_names: Seq::empty(),
        }),
{
    lemma_parse_fixed(ops.magic@, arity, code, entries, Seq::empty());
    let b = program_bytes(ops, arity, code, entries, None);
    assert(b == ops.magic@ + le16(arity.len() as u16) + le16(entries.len() as u16) + le16(code.len() as u16) + arity
        + entries_bytes(entries) + code + Seq::<u8>::empty());
}

#[verifier::spinoff_prover]
#[verifier::rlimit(80)]
proof fn lemma_parse_with_names(
    ops: Opcodes,
    arity: Seq<u8>,
    code: Seq<u8>,
    entries: Seq<u16>,
    c: Seq<(u8, Seq<char>)>,
    g: Seq<(u8, Seq<char>)>,
)
    requires
        arity.len() < 65536,
        entries.len() < 65536,
        code.len() < 65536,
        names_fit(c),
        names_fit(g),
    ensures
        parse_spec(ops.magic@, program_bytes(ops, arity, code, entries, Some((encode_names(c), encode_names(g)))))
            == Ok::<PView, ProgramError>(PView { arity, globals: entries, code, ctor_names: c, global_names: g }),
{
    let sc = name_section(encode_names(c));
    let sg = name_section(encode_names(g));
    let tail = sc + sg;
    lemma_parse_fixed(ops.magic@, arity, code, entries, tail);
    let b = program_bytes(ops, arity, code, entries, Some((encode_names(c), encode_names(g))));
    assert(b == ops.magic@ + le16(arity.len() as u16) + le16(entries.len() as u16) + le16(code.len() as u16) + arity
        + entries_bytes(entries) + code + tail);
    let m = ops.magic@.len() as int;
    let pz = m + 6 + arity.len() + 2 * entries.len() + code.len();
    assert(b.subrange(pz, pz + sc.len()) =~= sc) by {
        assert(b.subrange(pz, pz + sc.len()) =~= b.subrange(pz, b.len() as int).subrange(0, sc.len() as int));
    }
    assert(b.subrange(pz + sc.len(), pz + sc.len() + sg.len()) =~= sg) by {
        assert(b.subrange(pz + sc.len(), pz + sc.len() + sg.len()) =~= b.subrange(pz, b.len() as int).subrange(
            sc.len() as int,
            tail.len() as int,
        ));
    }
    lemma_name_section_at(b, pz, c);
    lemma_name_section_at(b, pz + sc.len(), g);
    assert(sc.len() >= 2);
    assert(b.len() == pz + sc.len() + sg.len());
    let base = PView {
        arity: b.subrange(m + 6, m + 6 + rd16(b, m) as int),
        globals: Seq::new(rd16(b, m + 2) as nat, |i: int| rd16(b, m + 6 + rd16(b, m) as int + 2 * i)),
        code: b.subrange(m + 6 + rd16(b, m) as int + 2 * (rd16(b, m + 2) as int), pz),
        ctor_names: Seq::empty(),
        global_names: Seq::empty(),
    };
    assert(base.arity == arity);
    assert(base.globals == entries);
    assert(base.code == code);
    assert(parse_spec(ops.magic@, b) == Ok::<PView, ProgramError>(PView { ctor_names: c, global_names: g, ..base }));
}

/// Reading back a program file gives the tables, code and names it was
/// written from, when its counts and name lengths fit their fields.
pub proof fn lemma_parse_program_bytes(
    ops: Opcodes,
    arity: Seq<u8>,
    code: Seq<u8>,
    entries: Seq<u16>,
    names: Option<(Seq<(u8, Seq<char>)>, Seq<(u8, Seq<char>)>)>,
)
    requires
        arity.len() < 65536,
        entries.len() < 65536,
        code.len() < 65536,
        names matches Some((c, g)) ==> names_fit(c) && names_fit(g),
    ensures
        parse_spec(ops.magic@, program_bytes(ops, arity, code, entries, encode_meta(names))) == Ok::<PView, ProgramError>(PView {
            arity,
            globals: entries,
            code,
            ctor_names: match names {
                Some((c, _)) => c,
                None => Seq::empty(),
            },
            global_names: match names {
                Some((_, g)) => g,
                None => Seq::empty(),
            },
        }),
{
    match names {
        None => lemma_parse_without_names(ops, arity, code, entries),
        Some((c, g)) => lemma_parse_with_names(ops, arity, code, entries, c, g),
    }
}

/// `String::from_utf8`: succeeds exactly on UTF-8 bytes, and the string then
/// holds the characters they encode.
#[verifier::external_body]
fn string_from_utf8(bytes: Vec<u8>) -> (r: Option<String>)
    ensures
        match r {
            Some(s) => valid_utf8(bytes@) && s@ == decode_utf8(bytes@),
            None => !valid_utf8(bytes@),
        },
{
    String::from_utf8(bytes).ok()
}

pub(crate) fn read16(b: &[u8], p: usize) -> (r: u16)
    requires
        p + 1 < b@.len(),
    ensures
        r == rd16(b@, p as int),
{
    (b[p] as u16) + (b[p + 1] as u16) * 256
}

pub(crate) fn copy_range(b: &[u8], from: usize, to: usize) -> (v: Vec<u8>)
    requires
        from <= to <= b@.len(),
    ensures
        v@ == b@.subrange(from as int, to as int),
{
    let mut v: Vec<u8> = Vec::new();
    let mut i = from;
    while i < to
        invariant
            from <= i <= to <= b@.len(),
            v@ =~= b@.subrange(from as int, i as int),
        decreases to - i,
    {
        v.push(b[i]);
        i += 1;
    }
    v
}

pub open spec fn section_view(r: Result<(Vec<(u8, String)>, usize), ProgramError>) -> Result<(Seq<(u8, Seq<char>)>, int), ProgramError> {
    match r {
        Ok(x) => Ok((names_chars(x.0@), x.1 as int)),
        Err(e) => Err(e),
    }
}

pub open spec fn program_view(r: Result<Program, ProgramError>) -> Result<PView, ProgramError> {
    match r {
        Ok(p) => Ok(p@),
        Err(e) => Err(e),
    }
}

/// A failure among the first `k` names is the failure of the whole list.
proof fn lemma_name_list_err(b: Seq<u8>, q: int, k: nat, n: nat)
    requires
        k <= n,
        name_list(b, q, k) is Err,
    ensures
        name_list(b, q, n) == name_list(b, q, k),
    decreases n - k,
{
    if k < n {
        lemma_name_list_err(b, q, k, (n - 1) as nat);
    }
}

/// The names of a name section at `p`, and the position after it.
fn read_name_section(b: &[u8], p: usize) -> (r: Result<(Vec<(u8, String)>, usize), ProgramError>)
    ensures
        section_view(r) == name_section_at(b@, p as int),
{
    reveal(name_section_at);
    if p > b.len() || b.len() - p < 2 {
        return Err(ProgramError::Truncated);
    }
    let count = read16(b, p);
    let mut out: Vec<(u8, String)> = Vec::new();
    assert(names_chars(out@) =~= Seq::empty());
    let mut q = p + 2;
    let mut k: u16 = 0;
    while k < count
        invariant
            k <= count,
            count == rd16(b@, p as int),
            p + 2 <= q <= b@.len(),
            name_list(b@, p + 2, k as nat) == Ok::<_, ProgramError>((names_chars(out@), q as int)),
        decreases count - k,
    {
        proof {
            reveal(name_section_at);
        }
        if b.len() - q < 2 {
            proof {
                lemma_name_list_err(b@, p + 2, (k + 1) as nat, count as nat);
            }
            return Err(ProgramError::Truncated);
        }
        let idx = b[q];
        let len = b[q + 1] as usize;
        if b.len() - q - 2 < len {
            proof {
                lemma_name_list_err(b@, p + 2, (k + 1) as nat, count as nat);
            }
            return Err(ProgramError::Truncated);
        }
        let bytes = copy_range(b, q + 2, q + 2 + len);
        match string_from_utf8(bytes) {
            None => {
                proof {
                    lemma_name_list_err(b@, p + 2, (k + 1) as nat, count as nat);
                }
                return Err(ProgramError::InvalidName);
            },
            Some(name) => {
                let ghost before = names_chars(out@);
                out.push((idx, name));
                assert(names_chars(out@) =~= before.push((idx, name@)));
                q = q + 2 + len;
            },
        }
        k += 1;
    }
    Ok((out, q))
}

/// Read a program file whose magic bytes are `ops.magic`.
pub fn parse_program(ops: &Opcodes, bytes: &[u8]) -> (r: Result<Program, ProgramError>)
    ensures
        program_view(r) == parse_spec(ops.magic@, bytes@),
{
    let b = bytes;
    let blen = b.len();
    let m = ops.magic.len();
    if b.len() < m {
        return Err(ProgramError::BadMagic);
    }
    let mut i: usize = 0;
    while i < m
        invariant
            i <= m <= b@.len(),
            b@ == bytes@,
            m == ops.magic@.len(),
            forall|j: int| 0 <= j < i ==> b@[j] == ops.magic@[j],
        decreases m - i,
    {
        if b[i] != ops.magic[i] {
            assert(b@.subrange(0, m as int)[i as int] != ops.magic@[i as int]);
            return Err(ProgramError::BadMagic);
        }
        i += 1;
    }
    assert(b@.subrange(0, m as int) =~= ops.magic@);
    if b.len() - m < 6 {
        return Err(ProgramError::Truncated);
    }
    let na = read16(b, m) as usize;
    let ng = read16(b, m + 2) as usize;
    let nc = read16(b, m + 4) as usize;
    if b.len() - (m + 6) < na + 2 * ng + nc {
        return Err(ProgramError::Truncated);
    }
    let pe = m + 6 + na;
    let pc = pe + 2 * ng;
    let pz = pc + nc;
    let arity_table = copy_range(b, m + 6, pe);
    let mut globals: Vec<u16> = Vec::new();
    let mut g: usize = 0;
    while g < ng
        invariant
            g <= ng,
            pe + 2 * ng <= blen,
            blen == b@.len(),
            globals@ =~= Seq::new(g as nat, |j: int| rd16(b@, pe + 2 * j)),
        decreases ng - g,
    {
        globals.push(read16(b, pe + 2 * g));
        g += 1;
    }
    let code = copy_range(b, pc, pz);
    if pz == b.len() {
        let prog = Program { arity_table, globals, code, ctor_names: Vec::new(), global_names: Vec::new() };
        assert(names_chars(prog.ctor_names@) =~= Seq::empty());
        assert(names_chars(prog.global_names@) =~= Seq::empty());
        return Ok(prog);
    }
    let (ctor_names, p1) = match read_name_section(b, pz) {
        Ok(x) => x,
        Err(e) => return Err(e),
    };
    let (global_names, p2) = match read_name_section(b, p1) {
        Ok(x) => x,
        Err(e) => return Err(e),
    };
    if p2 != b.len() {
        return Err(ProgramError::TrailingBytes);
    }
    Ok(Program { arity_table, globals, code, ctor_names, global_names })
}



// ── Choosing an entry point ──────────────────────────────────────────────────

pub open spec fn digit_value(c: char) -> int {
    (c as u32) as int - 48
}

pub open spec fn all_digits(d: Seq<char>) -> bool {
    forall|i: int| 0 <= i < d.len() ==> 48 <= (#[trigger] d[i] as u32) <= 57
}

/// The value of a string of decimal digits.
pub open spec fn digits_num(d: Seq<char>) -> nat
    decreases d.len(),
{
    if d.len() == 0 {
        0
    } else {
        digits_num(d.drop_last()) * 10 + digit_value(d.last()) as nat
    }
}

/// `str::parse::<usize>`: an optional `+`, then at least one decimal digit,
/// the value fitting in `usize`.
pub open spec fn parse_usize_spec(s: Seq<char>) -> Option<usize> {
    let d = if s.len() > 0 && s[0] == '+' { s.drop_first() } else { s };
    if d.len() == 0 || !all_digits(d) || digits_num(d) > usize::MAX {
        None
    } else {
        Some(digits_num(d) as usize)
    }
}

/// Read a number as `str::parse::<usize>` does.
pub fn parse_usize(s: &str) -> (r: Option<usize>)
    ensures
        r == parse_usize_spec(s@),
{
    let cs = chars_of(s);
    let start: usize = if cs.len() > 0 && cs[0] == '+' { 1 } else { 0 };
    let ghost d = if cs@.len() > 0 && cs@[0] == '+' { cs@.drop_first() } else { cs@ };
    assert(d =~= cs@.skip(start as int));
    if cs.len() == start {
        return None;
    }
    let mut i = start;
    let mut v: usize = 0;
    let mut fits = true;
    while i < cs.len()
        invariant
            start <= i <= cs@.len(),
            cs@ == s@,
            d == (if s@.len() > 0 && s@[0] == '+' { s@.drop_first() } else { s@ }),
            d == cs@.skip(start as int),
            forall|j: int| start <= j < i ==> 48 <= (#[trigger] cs@[j] as u32) <= 57,
            fits ==> v == digits_num(d.take(i - start)),
            !fits ==> digits_num(d.take(i - start)) > usize::MAX,
        decreases cs@.len() - i,
    {
        let c = cs[i];
        if (c as u32) < 48 || (c as u32) > 57 {
            assert(!all_digits(d)) by {
                assert(d[i - start] == c);
            }
            return None;
        }
        let dv = #[verifier::truncate] ((c as u32 - 48) as usize);
        let k = i - start;
        assert(d.take(k + 1).drop_last() =~= d.take(k as int));
        assert(d.take(k + 1).last() == c);
        if fits {
            if v > (usize::MAX - dv) / 10 {
                fits = false;
                assert(v * 10 + dv > usize::MAX) by (nonlinear_arith)
                    requires
                        v > (usize::MAX - dv) / 10,
                        dv <= 9,
                ;
            } else {
                assert(v * 10 + dv <= usize::MAX) by (nonlinear_arith)
                    requires
                        v <= (usize::MAX - dv) / 10,
                        dv <= 9,
                ;
                v = v * 10 + dv;
            }
        } else {
            assert(digits_num(d.take(k + 1)) >= digits_num(d.take(k as int))) by (nonlinear_arith)
                requires
                    digits_num(d.take(k + 1)) == digits_num(d.take(k as int)) * 10 + dv,
            ;
        }
        i += 1;
    }
    assert(d.take(d.len() as int) =~= d);
    assert(all_digits(d)) by {
        assert forall|j: int| 0 <= j < d.len() implies 48 <= (#[trigger] d[j] as u32) <= 57 by {
            assert(d[j] == cs@[j + start]);
        }
    }
    if fits {
        Some(v)
    } else {
        None
    }
}

/// Why an entry point cannot be chosen.
#[derive(Debug, Clone, PartialEq, Eq)]
pub enum EntryError {
    /// The index is not below the number of defines.
    OutOfRange { idx: usize, count: usize },
    /// The name is unknown and the program carries no names.
    NoMetadata,
    /// The name is unknown; these are the names the program carries.
    NotFound { available: Vec<String> },
}

/// The first global named `name`, if any.
pub open spec fn find_global(ns: Seq<(u8, Seq<char>)>, name: Seq<char>) -> Option<int>
    decreases ns.len(),
{
    if ns.len() == 0 {
        None
    } else if ns[0].1 == name {
        Some(0)
    } else {
        match find_global(ns.drop_first(), name) {
            Some(i) => Some(i + 1),
            None => None,
        }
    }
}

pub proof fn lemma_find_global(ns: Seq<(u8, Seq<char>)>, name: Seq<char>)
    ensures
        match find_global(ns, name) {
            Some(i) => 0 <= i < ns.len() && ns[i].1 == name && forall|j: int| 0 <= j < i ==> (#[trigger] ns[j]).1 != name,
            None => forall|j: int| 0 <= j < ns.len() ==> (#[trigger] ns[j]).1 != name,
        },
    decreases ns.len(),
{
    if ns.len() > 0 {
        lemma_find_global(ns.drop_first(), name);
        assert forall|j: int| 1 <= j < ns.len() implies (#[trigger] ns[j]) == ns.drop_first()[j - 1] by {}
    }
}

/// The entry point that `entry` names: an index below the number of
/// globals, or the name of a global, the first one of that name.
pub open spec fn entry_spec(entry: Seq<char>, p: PView) -> Result<usize, EntryError> {
    match parse_usize_spec(entry) {
        Some(idx) => if idx < p.globals.len() {
            Ok(idx)
        } else {
            Err(EntryError::OutOfRange { idx, count: p.globals.len() as usize })
        },
        None => match find_global(p.global_names, entry) {
            Some(i) => Ok(p.global_names[i].0 as usize),
            None => if p.global_names.len() == 0 {
                Err(EntryError::NoMetadata)
            } else {
                Err(EntryError::NotFound { available: arbitrary() })
            },
        },
    }
}

/// Choose the global to run: `entry` is an index or a name.
pub fn resolve_entry(entry: &str, prog: &Program) -> (r: Result<usize, EntryError>)
    ensures
        match entry_spec(entry@, prog@) {
            Ok(i) => r == Ok::<usize, EntryError>(i),
            Err(EntryError::NotFound { .. }) => r matches Err(EntryError::NotFound { available })
                && available@.len() == prog@.global_names.len()
                && forall|j: int| 0 <= j < available@.len() ==> (#[trigger] available@[j])@ == prog@.global_names[j].1,
            Err(e) => r == Err::<usize, EntryError>(e),
        },
{
    let ghost p = prog@;
    if let Some(idx) = parse_usize(entry) {
        if idx >= prog.globals.len() {
            return Err(EntryError::OutOfRange { idx, count: prog.globals.len() });
        }
        return Ok(idx);
    }
    let wanted = String::from_str(entry);
    let mut i: usize = 0;
    proof {
        lemma_find_global(p.global_names, entry@);
    }
    while i < prog.global_names.len()
        invariant
            i <= prog.global_names@.len(),
            p == prog@,
            wanted@ == entry@,
            parse_usize_spec(entry@) is None,
            forall|j: int| 0 <= j < i ==> (#[trigger] p.global_names[j]).1 != entry@,
            match find_global(p.global_names, entry@) {
                Some(k) => 0 <= k < p.global_names.len() && p.global_names[k].1 == entry@ && forall|j: int| 0 <= j < k ==> (#[trigger] p.global_names[j]).1 != entry@,
                None => forall|j: int| 0 <= j < p.global_names.len() ==> (#[trigger] p.global_names[j]).1 != entry@,
            },
        decreases prog.global_names@.len() - i,
    {
        assert(p.global_names[i as int] == (prog.global_names@[i as int].0, prog.global_names@[i as int].1@));
        if prog.global_names[i].1.eq(&wanted) {
            proof {
                match find_global(p.global_names, entry@) {
                    Some(k) => {
                        if k < i {
                            assert(p.global_names[k].1 != entry@);
                        }
                        if k > i {
                            assert(p.global_names[i as int].1 != entry@);
                        }
                    },
                    None => {
                        assert(p.global_names[i as int].1 != entry@);
                    },
                }
            }
            return Ok(prog.global_names[i].0 as usize);
        }
        i += 1;
    }
    proof {
        match find_global(p.global_names, entry@) {
            Some(k) => {
                assert(p.global_names[k].1 != entry@);
            },
            None => {},
        }
    }
    if prog.global_names.len() == 0 {
        return Err(EntryError::NoMetadata);
    }
    let mut available: Vec<String> = Vec::new();
    let mut k: usize = 0;
    while k < prog.global_names.len()
        invariant
            k <= prog.global_names@.len(),
            p == prog@,
            available@.len() == k,
            forall|j: int| 0 <= j < k ==> (#[trigger] available@[j])@ == p.global_names[j].1,
        decreases prog.global_names@.len() - k,
    {
        assert(p.global_names[k as int].1 == prog.global_names@[k as int].1@);
        available.push(prog.global_names[k].1.clone());
        k += 1;
    }
    Err(EntryError::NotFound { available })
}

} // verus!
