//! Trading objects: tokens with what underlies them, terms without
//! content, pairs of tokens and pools.
use vstd::prelude::*;
use crate::address::Address;
use crate::primitives::contracts::Contract;
use crate::primitives::terms::Terms as ContractTerms;

verus! {

/// What backs a token: a contract, or a real-world asset.
pub enum Underlying<T: ContractTerms> {
    Contract(Contract<T>),
    RWA(RWA),
}

/// A real-world asset; it carries no fields yet.
pub struct RWA {}

/// The security classification of a token; it carries no fields yet.
pub struct Security {}

/// Terms with no fields.
pub struct Terms {}

/// A token: its address, its decimals, its security classification and
/// what underlies it.
pub struct Token<T: ContractTerms> {
    pub address: Address,
    pub decimals: u8,
    pub security: Security,
    pub underlying: Underlying<T>,
}

/// Two tokens traded against each other.
pub struct TradingPair {
    pub token0: Address,
    pub token1: Address,
}

/// A pool for a trading pair, with its fee.
pub struct TradingPool {
    pub pair: TradingPair,
    pub fee: u32,
}

} // verus!
