//! The core of a probabilistic programming runtime.
//!
//! - `address`: the grammar of addresses, and its parser.
//! - `trie`: the choice trie, a hierarchical map from addresses to weighted
//!   values, with its mathematical model and the laws that hold of it.
//! - `gfi`: the trace of a generative function, and the interface that
//!   generative functions offer to inference.
//! - `inference`: Metropolis-Hastings kernels and the sampling part of
//!   importance sampling, written against that interface alone.
//!
//! Log densities and log weights are exact integers in a fixed-point unit
//! that the caller chooses. All arithmetic on them is exact. Nothing here
//! draws a random number: a kernel takes its uniform draw as an argument,
//! and generative functions bring their own source of randomness.

pub mod address;
pub mod dists;
pub mod error;
pub mod gfi;
pub mod inference;
pub mod trie;

pub use address::Address;
pub use dists::Gamma;
pub use error::GenError;
pub use gfi::{ArgDiff, GenFn, Trace};
pub use inference::importance::importance_sampling;
pub use inference::mh::{
    accepts, metropolis_hastings, mh, regen_mh, regenerative_metropolis_hastings,
};
pub use trie::{AddrMap, Trie};
