pub mod prim;
pub mod cps;
pub mod asm_ir;
pub mod dsi;
pub mod ds;
pub mod cps_text;
