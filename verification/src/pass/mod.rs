pub mod cps_subst;
pub mod cps_census;
pub mod cps_simplify;
pub mod cps_rewrite;
pub mod cps_optimize;
pub mod asm_resolve;
pub mod cps_transform;
pub mod dsi_resolve;
pub mod ds_arity_resolve;
pub mod ds_uncurry;
pub mod asm_peephole;
pub mod asm_emit;
