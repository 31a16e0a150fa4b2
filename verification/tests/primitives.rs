use seer::address::Address;
use seer::primitives::contracts::Contract;
use seer::primitives::objects::{Security, Token, TradingPair, TradingPool, Underlying, RWA};
use seer::primitives::terms::{LendingTerms, SwapTerms, Terms};

#[test]
fn swap_and_lending_terms_validate() {
    assert!(SwapTerms {}.validate());
    assert!(LendingTerms {}.validate());
}

#[test]
fn contract_holds_its_terms() {
    let c = Contract { terms: vec![SwapTerms {}, SwapTerms {}] };
    assert_eq!(c.terms.len(), 2);
    assert!(c.terms.iter().all(|t| t.validate()));
}

#[test]
fn pool_holds_pair_and_fee() {
    let pool = TradingPool {
        pair: TradingPair { token0: Address::new(1, 0), token1: Address::new(2, 0) },
        fee: 3000,
    };
    assert_eq!(pool.fee, 3000);
    assert_eq!(pool.pair.token0, Address::new(1, 0));
    assert_eq!(pool.pair.token1, Address::new(2, 0));
}

#[test]
fn token_with_contract_underlying() {
    let t = Token {
        address: Address::new(5, 6),
        decimals: 18,
        security: Security {},
        underlying: Underlying::Contract(Contract { terms: vec![LendingTerms {}] }),
    };
    assert_eq!(t.decimals, 18);
    assert!(matches!(t.underlying, Underlying::Contract(_)));
    let r: Underlying<SwapTerms> = Underlying::RWA(RWA {});
    assert!(matches!(r, Underlying::RWA(_)));
}
