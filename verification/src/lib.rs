pub mod accelerator;
pub mod arith_circuit;
pub mod arith_effect_circuit;
pub mod arith_run;
pub mod circuit;
pub mod effect_circuit;
pub mod flags_circuit;
pub mod lab;
pub mod logic_circuit;
pub mod logic_run;
pub mod mul_circuit;
pub mod mul_run;
pub mod model;
pub mod mux_circuit;
pub mod mux_proof;
pub mod mux_run;
pub mod ripple_adder;
pub mod ripple_subtractor;
pub mod rotate_carry_circuit;
pub mod rotate_circuit;
pub mod rotate_run;
pub mod shift1_circuit;
pub mod shift_circuit;
pub mod shift_run;
pub mod store;
pub mod store_laws;
pub mod structural;
pub mod structural_model;
pub mod unary_circuit;
pub mod unary_run;
pub mod subtractor;
pub mod wide64_circuit;

pub use store::{OptimizedLinkStore, StoreError};
pub use structural::OptimizedStructuralEngine;

use vstd::prelude::*;

verus! {

/// Stable local identifier of a Link inside one store.
pub type Handle = u32;

/// The handle of the self-closed ROOT Link `(R, R)`.
pub const ROOT_HANDLE: Handle = 1;

} // verus!
