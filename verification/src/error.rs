use vstd::prelude::*;

verus! {

/// The ways in which an operation of this library fails.
#[derive(Debug, Clone, Copy, PartialEq, Eq)]
pub enum GenError {
    /// A write to an address that already carries content of the kind
    /// written.
    AddressOccupied,
    /// An address that was required does not exist.
    AddressMissing,
    /// An operation on a leaf's value was asked of a node that carries no
    /// value.
    NotALeaf,
    /// The address string does not follow the address grammar.
    BadAddress,
    /// The generative function does not implement the operation.
    Unsupported,
    /// A log density was asked for outside the support of a distribution.
    DistributionDomain,
    /// The weights of a trie would leave the range in which every partial
    /// sum of them is exact.
    WeightOverflow,
}

} // verus!
