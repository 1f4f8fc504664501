//! Inference kernels.

pub mod importance;
pub mod mh;
