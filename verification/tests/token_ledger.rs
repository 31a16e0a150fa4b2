use seer::address::Address;
use seer::amount::Amount;
use seer::token::{SeerToken, TokenError};

fn alice() -> Address {
    Address::new(0x1111, 1)
}

fn bob() -> Address {
    Address::new(0x2222, 2)
}

fn carol() -> Address {
    Address::new(0, 3)
}

fn amt(x: u64) -> Amount {
    Amount::from_u64(x)
}

#[test]
fn new_ledger_is_empty() {
    let t = SeerToken::new();
    assert_eq!(t.total_supply(), amt(0));
    assert_eq!(t.balance_of(alice()), amt(0));
    assert_eq!(t.allowance(alice(), bob()), amt(0));
}

#[test]
fn mint_raises_balance_and_supply() {
    let mut t = SeerToken::new();
    t.mint(alice(), amt(100));
    t.mint(alice(), amt(50));
    t.mint(bob(), amt(7));
    assert_eq!(t.balance_of(alice()), amt(150));
    assert_eq!(t.balance_of(bob()), amt(7));
    assert_eq!(t.total_supply(), amt(157));
}

#[test]
fn mint_wraps_around_at_two_to_the_256() {
    let mut t = SeerToken::new();
    t.mint(alice(), Amount::max_value());
    t.mint(alice(), amt(2));
    assert_eq!(t.balance_of(alice()), amt(1));
    assert_eq!(t.total_supply(), amt(1));
}

#[test]
fn burn_lowers_balance_and_supply() {
    let mut t = SeerToken::new();
    t.mint(alice(), amt(100));
    assert_eq!(t.burn(alice(), amt(30)), Ok(()));
    assert_eq!(t.balance_of(alice()), amt(70));
    assert_eq!(t.total_supply(), amt(70));
}

#[test]
fn burn_without_entry_is_refused_even_for_zero() {
    let mut t = SeerToken::new();
    assert_eq!(t.burn(alice(), amt(0)), Err(TokenError::InsufficientBalance));
    assert_eq!(t.total_supply(), amt(0));
}

#[test]
fn burn_more_than_balance_is_refused() {
    let mut t = SeerToken::new();
    t.mint(alice(), amt(10));
    assert_eq!(t.burn(alice(), amt(11)), Err(TokenError::InsufficientBalance));
    assert_eq!(t.balance_of(alice()), amt(10));
    assert_eq!(t.total_supply(), amt(10));
}

#[test]
fn transfer_moves_amount() {
    let mut t = SeerToken::new();
    t.mint(alice(), amt(100));
    assert_eq!(t.transfer(alice(), bob(), amt(40)), Ok(()));
    assert_eq!(t.balance_of(alice()), amt(60));
    assert_eq!(t.balance_of(bob()), amt(40));
    assert_eq!(t.balance_of(carol()), amt(0));
    assert_eq!(t.total_supply(), amt(100));
}

#[test]
fn transfer_to_self_changes_nothing() {
    let mut t = SeerToken::new();
    t.mint(alice(), amt(100));
    assert_eq!(t.transfer(alice(), alice(), amt(100)), Ok(()));
    assert_eq!(t.balance_of(alice()), amt(100));
    assert_eq!(t.total_supply(), amt(100));
}

#[test]
fn transfer_refusals() {
    let mut t = SeerToken::new();
    assert_eq!(t.transfer(alice(), bob(), amt(0)), Err(TokenError::InsufficientBalance));
    t.mint(alice(), amt(5));
    assert_eq!(t.transfer(alice(), bob(), amt(6)), Err(TokenError::InsufficientBalance));
    assert_eq!(t.balance_of(alice()), amt(5));
    assert_eq!(t.balance_of(bob()), amt(0));
}

#[test]
fn transfer_round_trip_restores_balances() {
    let mut t = SeerToken::new();
    t.mint(alice(), amt(100));
    t.mint(bob(), amt(3));
    assert_eq!(t.transfer(alice(), bob(), amt(25)), Ok(()));
    assert_eq!(t.transfer(bob(), alice(), amt(25)), Ok(()));
    assert_eq!(t.balance_of(alice()), amt(100));
    assert_eq!(t.balance_of(bob()), amt(3));
    assert_eq!(t.total_supply(), amt(103));
}

#[test]
fn mint_then_burn_restores() {
    let mut t = SeerToken::new();
    t.mint(alice(), amt(9));
    t.mint(bob(), amt(4));
    assert_eq!(t.burn(bob(), amt(4)), Ok(()));
    t.mint(bob(), amt(4));
    assert_eq!(t.burn(bob(), amt(4)), Ok(()));
    assert_eq!(t.balance_of(bob()), amt(0));
    assert_eq!(t.balance_of(alice()), amt(9));
    assert_eq!(t.total_supply(), amt(9));
}

#[test]
fn approve_then_allowance() {
    let mut t = SeerToken::new();
    t.approve(alice(), bob(), amt(30));
    assert_eq!(t.allowance(alice(), bob()), amt(30));
    assert_eq!(t.allowance(bob(), alice()), amt(0));
    t.approve(alice(), bob(), amt(5));
    assert_eq!(t.allowance(alice(), bob()), amt(5));
}

#[test]
fn transfer_from_spends_allowance() {
    let mut t = SeerToken::new();
    t.mint(alice(), amt(100));
    t.approve(alice(), bob(), amt(30));
    assert_eq!(t.transfer_from(alice(), bob(), carol(), amt(20)), Ok(()));
    assert_eq!(t.allowance(alice(), bob()), amt(10));
    assert_eq!(t.balance_of(alice()), amt(80));
    assert_eq!(t.balance_of(carol()), amt(20));
    assert_eq!(t.total_supply(), amt(100));
}

#[test]
fn transfer_from_without_allowance_is_refused() {
    let mut t = SeerToken::new();
    t.mint(alice(), amt(100));
    assert_eq!(
        t.transfer_from(alice(), bob(), carol(), amt(0)),
        Err(TokenError::InsufficientAllowance)
    );
    t.approve(alice(), bob(), amt(5));
    assert_eq!(
        t.transfer_from(alice(), bob(), carol(), amt(6)),
        Err(TokenError::InsufficientAllowance)
    );
    assert_eq!(t.allowance(alice(), bob()), amt(5));
    assert_eq!(t.balance_of(alice()), amt(100));
}

#[test]
fn transfer_from_short_balance_still_spends_allowance() {
    let mut t = SeerToken::new();
    t.mint(alice(), amt(3));
    t.approve(alice(), bob(), amt(10));
    assert_eq!(
        t.transfer_from(alice(), bob(), carol(), amt(4)),
        Err(TokenError::InsufficientBalance)
    );
    assert_eq!(t.allowance(alice(), bob()), amt(6));
    assert_eq!(t.balance_of(alice()), amt(3));
    assert_eq!(t.balance_of(carol()), amt(0));
}

#[test]
fn supply_matches_sum_of_balances_after_mixed_operations() {
    let mut t = SeerToken::new();
    t.mint(alice(), amt(1000));
    t.mint(bob(), amt(500));
    t.transfer(alice(), carol(), amt(250)).unwrap();
    t.burn(bob(), amt(100)).unwrap();
    t.approve(carol(), alice(), amt(50));
    t.transfer_from(carol(), alice(), bob(), amt(50)).unwrap();
    let sum = t.balance_of(alice()).to_limbs()[0]
        + t.balance_of(bob()).to_limbs()[0]
        + t.balance_of(carol()).to_limbs()[0];
    assert_eq!(t.total_supply(), amt(sum));
    assert_eq!(t.total_supply(), amt(1400));
}

#[test]
fn token_error_messages() {
    assert_eq!(TokenError::InsufficientBalance.message(), "Insufficient balance");
    assert_eq!(TokenError::InsufficientAllowance.message(), "Insufficient allowance");
}

#[test]
fn allowance_untouched_by_other_operations() {
    let mut t = SeerToken::new();
    t.mint(alice(), amt(100));
    t.approve(alice(), carol(), amt(9));
    t.transfer(alice(), bob(), amt(10)).unwrap();
    t.burn(alice(), amt(5)).unwrap();
    t.transfer_from(alice(), carol(), bob(), amt(4)).unwrap();
    assert_eq!(t.allowance(alice(), bob()), amt(0));
    assert_eq!(t.allowance(bob(), alice()), amt(0));
    assert_eq!(t.allowance(alice(), carol()), amt(5));
}

#[test]
fn no_balance_exceeds_supply() {
    let mut t = SeerToken::new();
    t.mint(alice(), amt(70));
    t.mint(bob(), amt(30));
    t.transfer(alice(), bob(), amt(60)).unwrap();
    assert_eq!(t.total_supply(), amt(100));
    assert!(!t.total_supply().lt(&t.balance_of(bob())));
    assert!(!t.total_supply().lt(&t.balance_of(alice())));
}
