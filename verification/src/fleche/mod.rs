// The Fleche front end: a lexer, a parser, and the functions that read a
// whole source text into a module and the names of its constructors.
pub mod grammar;
pub mod lexer;
pub mod parser;

use vstd::prelude::*;
use crate::frontend::{
    BuiltinCtors, Frontend, ParseError, ParseOutput, RegistryV, builtin_entries, builtins_known, find_ctor, has_name,
    lemma_first_named_unique, names_sorted,
};
use crate::pass::asm_resolve::name_lt;
use crate::ir::ds;
use crate::ir::ds::DDefine;
use lexer::{LexerV, letters_ok, chars_of, digits_end, digits_value, is_digit, lemma_digits_end, lemma_digits_value_mono, lex_ok};
use grammar::{PR, PState, p_module};
use vstd::string::StringExecFns;
use parser::Parser;

verus! {

/// Every run of digits in `s`, from wherever it starts, is a number that
/// fits in 64 bits.
pub open spec fn all_numbers_fit(s: Seq<char>) -> bool {
    forall|i: int| 0 <= i < s.len() && is_digit(#[trigger] s[i]) ==> digits_value(s, i, digits_end(s, i)) <= u64::MAX
}

/// The state in which reading `input` starts.
pub open spec fn start_state(input: Seq<char>, b: BuiltinCtors) -> PState {
    PState {
        lex: LexerV { input, pos: 0, peeked: None },
        reg: RegistryV { ctors: builtin_entries(b), next_tag: b.first_user_tag as u16, next_type_id: 3 },
    }
}

/// The module that `input` reads as, or why it reads as none.
pub open spec fn parse_spec(input: Seq<char>, b: BuiltinCtors) -> PR<Seq<DDefine>> {
    p_module(start_state(input, b), Seq::empty())
}

/// Reading a source never stops for want of progress: every step of the
/// grammar reads a token before it recurses, so the parser either gives a
/// module or fails with a message of the grammar or the lexer. (The letters
/// of the source must be letters or digits, as `char::is_alphanumeric` says
/// of every letter.)
pub proof fn lemma_parse_never_stuck(input: Seq<char>, b: BuiltinCtors)
    requires
        letters_ok(input),
    ensures
        !(parse_spec(input, b) is Stuck),
{
    grammar::lemma_module(start_state(input, b), Seq::empty());
}

/// Whether every number in `input` fits in 64 bits, which reading it needs.
pub fn numbers_fit(input: &str) -> (r: bool)
    ensures
        r == all_numbers_fit(input@),
        r ==> lex_ok(input@),
{
    let cs = chars_of(input);
    let ghost s = input@;
    let n = cs.len();
    let mut i: usize = 0;
    while i < n
        invariant
            s == input@,
            cs@ == s,
            n == s.len(),
            i <= n,
            forall|k: int| 0 <= k < i && is_digit(#[trigger] s[k]) ==> digits_value(s, k, digits_end(s, k)) <= u64::MAX,
        decreases n - i,
    {
        let c = cs[i];
        if (c as u32) >= 48 && (c as u32) <= 57 {
            let ghost end = digits_end(s, i as int);
            proof {
                lemma_digits_end(s, i as int);
            }
            let mut v: u64 = 0;
            let mut j: usize = i;
            while j < n && (cs[j] as u32) >= 48 && (cs[j] as u32) <= 57
                invariant
                    s == input@,
                    cs@ == s,
                    n == s.len(),
                    i < n,
                    i <= j <= end <= n,
                    end == digits_end(s, i as int),
                    digits_end(s, j as int) == end,
                    forall|k: int| i <= k < end ==> is_digit(#[trigger] s[k]),
                    v == digits_value(s, i as int, j as int),
                decreases n - j,
            {
                let d = ((cs[j] as u32) - 48) as u64;
                proof {
                    lemma_digits_end(s, j + 1);
                }
                let next = match v.checked_mul(10) {
                    Some(x) => x.checked_add(d),
                    None => None,
                };
                match next {
                    Some(y) => {
                        v = y;
                    },
                    None => {
                        proof {
                            assert(is_digit(s[j as int]));
                            assert(digits_end(s, j as int) == digits_end(s, j + 1));
                            assert(j + 1 <= end);
                            assert(digits_value(s, i as int, j + 1) == digits_value(s, i as int, j as int) * 10 + d);
                            assert(digits_value(s, i as int, j + 1) > u64::MAX);
                            lemma_digits_value_mono(s, i as int, j + 1, end);
                            assert(is_digit(s[i as int]));
                            assert(digits_value(s, i as int, digits_end(s, i as int)) > u64::MAX);
                            assert(!all_numbers_fit(s));
                        }
                        return false;
                    },
                }
                j += 1;
            }
        }
        i += 1;
    }
    proof {
        assert forall|p: int| 0 <= p <= s.len() implies #[trigger] lexer::lex_fits(s, p) by {
            let q = lexer::skip_ws(s, p);
            if 0 <= q < s.len() && is_digit(s[q]) {
                assert(digits_value(s, q, digits_end(s, q)) <= u64::MAX);
            }
        }
    }
    true
}

/// Read a whole source text: its module, and the tag and name of every
/// constructor it knows, in name order.
pub fn parse_source(input: &str, builtins: &BuiltinCtors) -> (r: Result<ParseOutput, ParseError>)
    requires
        lex_ok(input@),
    ensures
        match parse_spec(input@, *builtins) {
            PR::Done(m, s) => r matches Ok(o) && o.module@ == m && names_sorted(s.reg.ctors) && builtins_known(
                s.reg.ctors,
                *builtins,
            ) && o.ctor_names@.len() == s.reg.ctors.len()
                && forall|i: int| 0 <= i < o.ctor_names@.len() ==> (#[trigger] o.ctor_names@[i]).0 == s.reg.ctors[i].1.0
                && o.ctor_names@[i].1@ == s.reg.ctors[i].0,
            PR::Fail(msg) => r matches Err(e) && e.message@ == msg,
            PR::Stuck => r matches Err(e) && e.message@ == grammar::stuck_text(),
        },
{
    let mut parser = Parser::new(input, builtins);
    let module = match parser.parse_module() {
        Ok(m) => m,
        Err(e) => return Err(e),
    };
    let ctor_names = parser.ctor_names();
    Ok(ParseOutput { module, ctor_names })
}

/// The Fleche language as a front end, for a VM with these built-in
/// constructors.
pub struct FlecheFrontend {
    pub builtins: BuiltinCtors,
}

/// The message for a source with a number that does not fit in 64 bits.
pub open spec fn number_too_large_text() -> Seq<char> {
    "number literal does not fit in 64 bits"@
}

impl Frontend for FlecheFrontend {
    /// `parse_source`, after checking that every number fits; a source with
    /// a larger one is refused with `number_too_large_text`.
    fn parse(&self, input: &str) -> (r: Result<ParseOutput, ParseError>)
        ensures
            !all_numbers_fit(input@) ==> (r matches Err(e) && e.message@ == number_too_large_text()),
            all_numbers_fit(input@) ==> match parse_spec(input@, self.builtins) {
                PR::Done(m, s) => r matches Ok(o) && o.module@ == m && names_sorted(s.reg.ctors)
                    && o.ctor_names@.len() == s.reg.ctors.len() && forall|i: int|
                    0 <= i < o.ctor_names@.len() ==> (#[trigger] o.ctor_names@[i]).0 == s.reg.ctors[i].1.0
                    && o.ctor_names@[i].1@ == s.reg.ctors[i].0,
                PR::Fail(msg) => r matches Err(e) && e.message@ == msg,
                PR::Stuck => r matches Err(e) && e.message@ == grammar::stuck_text(),
            },
    {
        if !numbers_fit(input) {
            return Err(ParseError { message: String::from_str("number literal does not fit in 64 bits") });
        }
        parse_source(input, &self.builtins)
    }
}

/// Each built-in constructor appears in `names` with its tag.
pub open spec fn lists_builtins(names: Seq<(u8, String)>, b: BuiltinCtors) -> bool {
    forall|i: int|
        0 <= i < 5 ==> exists|j: int|
            0 <= j < names.len() && (#[trigger] names[j]).1@ == (#[trigger] builtin_entries(b)[i]).0
                && names[j].0 == builtin_entries(b)[i].1.0
}

/// A list of the registry's constructors, entry for entry, names them in
/// strictly increasing order, so each once, and holds every built-in one.
proof fn lemma_names_listed(names: Seq<(u8, String)>, ctors: Seq<(Seq<char>, (u8, u8, u8))>, b: BuiltinCtors)
    requires
        names.len() == ctors.len(),
        forall|i: int| 0 <= i < names.len() ==> (#[trigger] names[i]).0 == ctors[i].1.0 && names[i].1@ == ctors[i].0,
        names_sorted(ctors),
        builtins_known(ctors, b),
    ensures
        forall|i: int, j: int| 0 <= i < j < names.len() ==> name_lt((#[trigger] names[i]).1@, (#[trigger] names[j]).1@),
        lists_builtins(names, b),
        forall|i: int, j: int| 0 <= i < j < names.len() ==> (#[trigger] names[i]).1@ != (#[trigger] names[j]).1@,
{
    reveal(builtins_known);
    assert forall|i: int| 0 <= i < 5 implies exists|j: int|
        0 <= j < names.len() && (#[trigger] names[j]).1@ == (#[trigger] builtin_entries(b)[i]).0 && names[j].0
            == builtin_entries(b)[i].1.0 by {
        let e = builtin_entries(b)[i];
        assert(find_ctor(ctors, e.0) == Some(e.1));
        assert(has_name(ctors, e.0));
        let k = choose|k: int| 0 <= k < ctors.len() && ctors[k].0 == e.0;
        lemma_first_named_unique(ctors, e.0, k);
        assert(names[k].1@ == e.0 && names[k].0 == e.1.0);
    }
    assert forall|i: int, j: int| 0 <= i < j < names.len() implies name_lt(
        (#[trigger] names[i]).1@,
        (#[trigger] names[j]).1@,
    ) by {
        assert(name_lt(ctors[i].0, ctors[j].0));
    }
    assert forall|i: int, j: int| 0 <= i < j < names.len() implies (#[trigger] names[i]).1@ != (
    #[trigger] names[j]).1@ by {
        assert(name_lt(ctors[i].0, ctors[j].0));
        crate::frontend::lemma_name_lt_asym(ctors[i].0, ctors[j].0, 0);
    }
}

/// The module of a source text that reads without error.
pub fn parse(input: &str, builtins: &BuiltinCtors) -> (r: ds::Module)
    requires
        lex_ok(input@),
        parse_spec(input@, *builtins) is Done,
    ensures
        parse_spec(input@, *builtins) matches PR::Done(m, _) && r@ == m,
{
    match parse_source(input, builtins) {
        Ok(o) => o.module,
        Err(_) => ds::Module { defines: Vec::new() },
    }
}

/// The module of a source text that reads without error, and the tag and
/// name of every constructor it knows.
pub fn parse_with_metadata(input: &str, builtins: &BuiltinCtors) -> (r: (ds::Module, Vec<(u8, String)>))
    requires
        lex_ok(input@),
        parse_spec(input@, *builtins) is Done,
    ensures
        parse_spec(input@, *builtins) matches PR::Done(m, s) && r.0@ == m && r.1@.len() == s.reg.ctors.len()
            && forall|i: int| 0 <= i < r.1@.len() ==> (#[trigger] r.1@[i]).0 == s.reg.ctors[i].1.0 && r.1@[i].1@ == s.reg.ctors[i].0,
        forall|i: int, j: int| 0 <= i < j < r.1@.len() ==> name_lt((#[trigger] r.1@[i]).1@, (#[trigger] r.1@[j]).1@),
        lists_builtins(r.1@, *builtins),
        forall|i: int, j: int| 0 <= i < j < r.1@.len() ==> (#[trigger] r.1@[i]).1@ != (#[trigger] r.1@[j]).1@,
{
    match parse_source(input, builtins) {
        Ok(o) => {
            proof {
                let s = parse_spec(input@, *builtins)->Done_1;
                lemma_names_listed(o.ctor_names@, s.reg.ctors, *builtins);
            }
            (o.module, o.ctor_names)
        },
        Err(_) => (ds::Module { defines: Vec::new() }, Vec::new()),
    }
}

} // verus!
