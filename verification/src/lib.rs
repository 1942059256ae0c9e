//! Fixed-point signal processing core: wrapping-integer arithmetic models,
//! a biquad IIR filter, a phase-locked loop and a double-buffer hand-off
//! protocol, each with a machine-checked contract.

pub mod dac;
pub mod iir_int;
pub mod pll;
pub mod pll_lock;
pub mod wrapping;
