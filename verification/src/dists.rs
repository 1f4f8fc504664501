use vstd::prelude::*;

verus! {

/// The gamma distribution, by shape and scale.
#[derive(Debug, Clone, Copy, PartialEq, Eq)]
pub struct Gamma {}

} // verus!
