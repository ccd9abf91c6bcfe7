//! GPU-style parallel primitives, modelled and verified on the host.
//!
//! A `DeviceVec` is a fixed-length array of `u32` elements with an explicit
//! upload/download protocol; `bitonic_sort` and `scan_inclusive` run the same
//! per-element compare-exchange and partial-sum passes that the corresponding
//! compute kernels perform, one pass per dispatch. The pass plans
//! (`sort_pass_params`, `scan_pass_offsets`) and the kernel source generation
//! are what a dispatching front end needs to drive a real device.

pub mod arith;
pub mod bitonic_sort;
pub mod device_vec;
pub mod error;
pub mod kernel;
pub mod scan;
