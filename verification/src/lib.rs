//! # datalab
//!
//! Streaming-capable data structures: raw byte storage, typed lenses over it,
//! one-dimensional tensors, element-wise kernels and a lazy, batched engine.

pub mod alignment;
pub mod chunks;
pub mod drawing_laws;
pub mod flow;
pub mod integers;
pub mod kernel;
pub mod kernel_laws;
pub mod laws;
pub mod lazy;
pub mod message_laws;
pub mod native;
pub mod native_laws;
mod ops;
mod plan;
pub mod plan_laws;
pub mod storage;
pub mod storage_laws;
mod stream;
pub mod sum_laws;
pub mod summand;
pub mod tensor;
pub mod text;
pub mod view;
pub mod view_laws;
