// The whole compiler: resolution, CPS conversion, optional optimization,
// register allocation and emission.
use vstd::prelude::*;
use crate::ir::asm_ir::ADefine;
use crate::ir::ds::{self, DDefine};
use crate::pass::asm_emit::{Emitter, Metadata, Opcodes, meta_view, module_bytes, module_shape_fits, module_shape_ok};
use crate::pass::asm_resolve;
use crate::pass::cps_optimize::{self, OptimizeConfig, collect_globals_spec, opt_defines};
use crate::pass::cps_transform::{self, transform_module_spec};
use crate::pass::dsi_resolve;
use crate::disasm::{decimal_string, text};
use crate::fleche::lexer::{char_is_uppercase, chars_of, is_uppercase_spec, string_of_chars};
use crate::pass::cps_rewrite::rewrite_01_inlining::decimal;
use vstd::string::{StrSliceExecFns, StringExecFns};

verus! {

/// The register-level module that a direct-style module compiles to, when
/// every name is bound and register allocation succeeds.
pub open spec fn pipeline_spec(ds: Seq<DDefine>, config: Option<OptimizeConfig>) -> Option<Seq<ADefine>> {
    match dsi_resolve::resolve_module_spec(ds) {
        None => None,
        Some(d) => {
            let c = transform_module_spec(d);
            let c2 = match config {
                Some(cfg) => opt_defines(cfg, collect_globals_spec(c, cfg.inline_threshold), c, 0).0,
                None => c,
            };
            asm_resolve::resolve_module_spec(c2)
        },
    }
}

/// Compiling is deterministic: two modules that read alike, compiled with
/// the same configuration, metadata and opcodes, give the same register-level
/// module and the same bytes, however they were built.
pub proof fn lemma_compile_deterministic(
    ops: Opcodes,
    m1: Seq<DDefine>,
    m2: Seq<DDefine>,
    config: Option<OptimizeConfig>,
    md: Option<(Seq<(u8, Seq<u8>)>, Seq<(u8, Seq<u8>)>)>,
)
    requires
        m1 == m2,
    ensures
        pipeline_spec(m1, config) == pipeline_spec(m2, config),
        pipeline_spec(m1, config) is Some ==> module_bytes(ops, pipeline_spec(m1, config)->0, md) == module_bytes(
            ops,
            pipeline_spec(m2, config)->0,
            md,
        ),
{
}

/// Compile a module to a program file.
pub fn compile_module(
    module: ds::Module,
    config: Option<OptimizeConfig>,
    metadata: Option<&Metadata>,
    ops: &Opcodes,
) -> (r: Vec<u8>)
    requires
        pipeline_spec(module@, config) is Some,
        module_shape_fits(pipeline_spec(module@, config)->0),
    ensures
        r@ == module_bytes(*ops, pipeline_spec(module@, config)->0, meta_view(metadata)),
{
    let dsi_module = dsi_resolve::resolve_module(module);
    let cps_module = cps_transform::transform_module(dsi_module);
    let cps_module = match config {
        Some(config) => cps_optimize::optimize_module(cps_module, config),
        None => cps_module,
    };
    let asm_module = asm_resolve::resolve_module(&cps_module);
    Emitter::emit_module(&asm_module, metadata, ops)
}

/// `compile_module`, or `None` where a name is unbound, register allocation
/// fails, a call passes more than 254 arguments or a match's tags pass 255.
pub fn try_compile_module(
    module: ds::Module,
    config: Option<OptimizeConfig>,
    metadata: Option<&Metadata>,
    ops: &Opcodes,
) -> (r: Option<Vec<u8>>)
    ensures
        match pipeline_spec(module@, config) {
            Some(a) => if module_shape_fits(a) {
                r is Some && r->0@ == module_bytes(*ops, a, meta_view(metadata))
            } else {
                r is None
            },
            None => r is None,
        },
{
    let ghost mv = module@;
    let ghost cv = config;
    let dsi_module = match dsi_resolve::try_resolve_module(module) {
        Some(m) => m,
        None => return None,
    };
    proof {
        dsi_resolve::lemma_resolve_module_scoped(mv);
    }
    let cps_module = cps_transform::transform_module(dsi_module);
    let cps_module = match config {
        Some(config) => cps_optimize::optimize_module(cps_module, config),
        None => cps_module,
    };
    let asm_module = match asm_resolve::try_resolve_module(&cps_module) {
        Some(m) => m,
        None => return None,
    };
    if !module_shape_ok(&asm_module) {
        return None;
    }
    Some(Emitter::emit_module(&asm_module, metadata, ops))
}

/// The name section of a module's globals: each define's index and name.
pub fn global_names(module: &ds::Module) -> (r: Vec<(u8, String)>)
    ensures
        r@.len() == module.defines@.len(),
        forall|i: int| 0 <= i < r@.len() ==> (#[trigger] r@[i]).0 == i as u8 && r@[i].1@ == module.defines@[i].name@,
{
    let mut out: Vec<(u8, String)> = Vec::new();
    let mut i: usize = 0;
    while i < module.defines.len()
        invariant
            i <= module.defines.len(),
            out@.len() == i,
            forall|j: int| 0 <= j < i ==> (#[trigger] out@[j]).0 == j as u8 && out@[j].1@ == module.defines@[j].name@,
        decreases module.defines.len() - i,
    {
        out.push((#[verifier::truncate] (i as u8), module.defines[i].name.clone()));
        i += 1;
    }
    out
}

// ── Rust bindings ────────────────────────────────────────────────────────────

/// `c` with an ASCII lowercase letter made uppercase.
pub open spec fn ascii_upper(c: char) -> char {
    if 'a' <= c <= 'z' {
        ((c as u32) - 32) as char
    } else {
        c
    }
}

/// The name of a Rust constant for `s`: each character made ASCII
/// uppercase, with `_` before every uppercase character but the first.
pub open spec fn const_name(s: Seq<char>) -> Seq<char>
    decreases s.len(),
{
    if s.len() == 0 {
        Seq::empty()
    } else {
        const_name(s.drop_last()) + (if is_uppercase_spec(s.last()) && s.len() > 1 {
            seq!['_']
        } else {
            Seq::empty()
        }) + seq![ascii_upper(s.last())]
    }
}

/// One constant of a bindings module.
pub open spec fn binding_line(name: Seq<char>, ty: Seq<char>, idx: u8) -> Seq<char> {
    "    #[allow(dead_code)]\n    pub const "@ + const_name(name) + ": "@ + ty + " = "@ + decimal(idx as nat) + ";\n"@
}

pub open spec fn binding_lines(ns: Seq<(u8, String)>, ty: Seq<char>) -> Seq<char>
    decreases ns.len(),
{
    if ns.len() == 0 {
        Seq::empty()
    } else {
        binding_lines(ns.drop_last(), ty) + binding_line(ns.last().1@, ty, ns.last().0)
    }
}

/// The Rust source that names each global's index and each constructor's
/// tag.
pub open spec fn bindings_spec(globals: Seq<(u8, String)>, ctors: Seq<(u8, String)>) -> Seq<char> {
    "pub mod funcs {\n"@ + binding_lines(globals, "usize"@) + "}\n\npub mod ctors {\n"@ + binding_lines(ctors, "u8"@)
        + "}\n"@
}

/// What `char::to_ascii_uppercase` does: `a` to `z` become `A` to `Z`;
/// every other character is unchanged.
fn char_to_ascii_uppercase(c: char) -> (r: char)
    ensures
        r == ascii_upper(c),
{
    if 'a' <= c && c <= 'z' {
        let x: u8 = (c as u32 - 32) as u8;
        x as char
    } else {
        c
    }
}

/// The name of a Rust constant for `s`: `fooBar` gives `FOO_BAR`.
pub fn rust_const_name(s: &str) -> (r: String)
    ensures
        r@ == const_name(s@),
{
    let cs = chars_of(s);
    let mut out = String::new();
    let mut i: usize = 0;
    while i < cs.len()
        invariant
            i <= cs@.len(),
            cs@ == s@,
            out@ == const_name(cs@.take(i as int)),
        decreases cs@.len() - i,
    {
        let c = cs[i];
        if char_is_uppercase(c) && i > 0 {
            proof {
                reveal_strlit("_");
            }
            out.append("_");
        }
        let u = char_to_ascii_uppercase(c);
        let one = char_text(u);
        out.append(one.as_str());
        assert(cs@.take(i + 1).drop_last() =~= cs@.take(i as int));
        assert(cs@.take(i + 1).last() == c);
        assert(cs@.take(i + 1).len() == i + 1);
        assert(out@ =~= const_name(cs@.take(i + 1)));
        i += 1;
    }
    assert(cs@.take(cs@.len() as int) =~= cs@);
    out
}

fn char_text(c: char) -> (r: String)
    ensures
        r@ == seq![c],
{
    let v: Vec<char> = vec![c];
    let r = string_of_chars(v.as_slice());
    assert(v@ =~= seq![c]);
    r
}

fn push_bindings(out: &mut String, ns: &Vec<(u8, String)>, ty: &str)
    ensures
        final(out)@ == old(out)@ + binding_lines(ns@, ty@),
{
    let ghost o0 = out@;
    let mut i: usize = 0;
    while i < ns.len()
        invariant
            i <= ns@.len(),
            out@ == o0 + binding_lines(ns@.take(i as int), ty@),
        decreases ns@.len() - i,
    {
        out.append("    #[allow(dead_code)]\n    pub const ");
        let c = rust_const_name(ns[i].1.as_str());
        out.append(c.as_str());
        out.append(": ");
        out.append(ty);
        out.append(" = ");
        let d = decimal_string(ns[i].0 as usize);
        out.append(d.as_str());
        out.append(";\n");
        assert(ns@.take(i + 1).drop_last() =~= ns@.take(i as int));
        assert(out@ =~= o0 + binding_lines(ns@.take(i + 1), ty@));
        i += 1;
    }
    assert(ns@.take(ns@.len() as int) =~= ns@);
}

/// The Rust source of the bindings that go beside a program: a module
/// `funcs` with a constant for each global's index, and a module `ctors`
/// with one for each constructor's tag.
pub fn bindings_text(global_names: &Vec<(u8, String)>, ctor_names: &Vec<(u8, String)>) -> (r: String)
    ensures
        r@ == bindings_spec(global_names@, ctor_names@),
{
    let mut s = text("pub mod funcs {\n");
    push_bindings(&mut s, global_names, "usize");
    s.append("}\n\npub mod ctors {\n");
    push_bindings(&mut s, ctor_names, "u8");
    s.append("}\n");
    s
}

} // verus!
