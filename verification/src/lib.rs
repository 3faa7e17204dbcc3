//! Dispatch-planning core of an OpenCL tensor backend.
//!
//! The backend translates named tensor operations into GPU kernel launches.
//! Everything the host side computes for those launches — shape and stride
//! arithmetic, work-group sizing, reduction kernel-variant selection, bitonic
//! sorting-network schedules, and the batched-GEMM decision tree — lives here
//! as verified code.  The unverified shell that owns the OpenCL context,
//! compiles kernels and enqueues the planned launches consumes these plans.

pub mod argsort;
pub mod device;
pub mod elementwise;
pub mod launch;
pub mod layout;
pub mod matmul;
pub mod permute;
pub mod random;
pub mod reduction;
pub mod shape;
