//! Contracts: a list of terms of one kind.
use vstd::prelude::*;
use crate::primitives::terms::Terms;

verus! {

/// A contract made of terms.
pub struct Contract<T: Terms> {
    pub terms: Vec<T>,
}

} // verus!
