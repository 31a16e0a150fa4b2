//! The terms of a contract, which each kind of contract validates.
use vstd::prelude::*;

verus! {

/// Terms that can be validated.
pub trait Terms {
    /// Whether the terms are valid.
    fn validate(&self) -> bool;
}

/// The terms of a swap.
pub struct SwapTerms {}

impl Terms for SwapTerms {
    /// Swap terms are always valid.
    fn validate(&self) -> (r: bool)
        ensures
            r,
    {
        true
    }
}

/// The terms of a loan.
pub struct LendingTerms {}

impl Terms for LendingTerms {
    /// Lending terms are always valid.
    fn validate(&self) -> (r: bool)
        ensures
            r,
    {
        true
    }
}

} // verus!
