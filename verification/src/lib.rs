//! Core of a tensor compute library: n-dimensional tensors with a verified
//! slice-assignment engine, a kernel registry with a dense module index, a
//! pipeline cache modelled as a first-writer-wins map, and launch-geometry
//! computation for contiguous and strided kernel dispatch.

pub mod dispatch;
pub mod error;
pub mod kernels;
pub mod pad;
pub mod pipeline;
pub mod range;
pub mod shape;
pub mod slice;
pub mod tensor;
