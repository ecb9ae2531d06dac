pub mod simpl_01_dead_code;
pub mod simpl_02_copy_propagation;
pub mod simpl_03_constant_fold;
pub mod simpl_04_beta_contraction;
pub mod simpl_05_eta_reduction;

pub use simpl_01_dead_code::dead_code;
pub use simpl_02_copy_propagation::copy_propagation;
pub use simpl_03_constant_fold::constant_fold;
pub use simpl_04_beta_contraction::beta_contraction;
pub use simpl_05_eta_reduction::eta_reduction;
