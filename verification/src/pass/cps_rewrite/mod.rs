pub mod rewrite_01_inlining;
pub mod rewrite_02_hoisting;
pub mod rewrite_03_cse;
pub mod rewrite_04_contification;

pub use rewrite_01_inlining::{GlobalFuns, expr_size, inlining, inlining_from};
pub use rewrite_02_hoisting::hoisting;
pub use rewrite_03_cse::cse;
pub use rewrite_04_contification::contification;
