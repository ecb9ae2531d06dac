pub mod digits;
pub mod disasm;
pub mod error;
pub mod fleche;
pub mod frontend;
pub mod ir;
pub mod pass;
pub mod pipeline;
pub mod listing;
pub mod program;
pub mod viewer;
