//! The Seer token: a ledger of balances and allowances with a total supply,
//! in the manner of an ERC-20 token. Amounts are 256-bit and wrap around
//! on overflow, as `alloy_primitives::U256` arithmetic does.
use vstd::prelude::*;
use std::collections::BTreeMap;
use vstd::arithmetic::div_mod::{lemma_fundamental_div_mod, lemma_mod_multiples_vanish};
use crate::address::Address;
use crate::amount::{Amount, u256_modulus, lemma_limbs_value_bound};
use crate::sums::{sum_values, lemma_sum_values_insert, lemma_sum_values_empty, lemma_value_le_sum};

verus! {

broadcast use vstd::laws_cmp::group_laws_cmp;

/// The key under which the ledger files an account: the address's top 128
/// bits and bottom 32 bits.
pub type AccountKey = (u128, u32);

/// Why a ledger operation was refused.
#[derive(Debug, Clone, Copy, PartialEq, Eq)]
pub enum TokenError {
    /// The account has no balance entry, or less than the amount.
    InsufficientBalance,
    /// The owner gave the spender no allowance, or less than the amount.
    InsufficientAllowance,
}

impl TokenError {
    /// The message the error is shown with.
    pub fn message(&self) -> (r: String)
        ensures
            r@ == (match self {
                TokenError::InsufficientBalance => "Insufficient balance"@,
                TokenError::InsufficientAllowance => "Insufficient allowance"@,
            }),
    {
        match self {
            TokenError::InsufficientBalance => "Insufficient balance".to_owned(),
            TokenError::InsufficientAllowance => "Insufficient allowance".to_owned(),
        }
    }
}

/// What a ledger holds: the balance of each account that has an entry,
/// the allowance of each (owner, spender) pair that has one, and the total supply.
#[verifier::ext_equal]
pub struct TokenState {
    pub balances: Map<AccountKey, nat>,
    pub allowances: Map<(AccountKey, AccountKey), nat>,
    pub total_supply: nat,
}

/// `(a + b) mod 2^256`.
pub open spec fn add_mod(a: nat, b: nat) -> nat {
    ((a + b) as int % u256_modulus()) as nat
}

/// `(a - b) mod 2^256`.
pub open spec fn sub_mod(a: nat, b: nat) -> nat {
    ((a - b) % u256_modulus()) as nat
}

/// The balance of an account: its entry, or 0 where it has none.
pub open spec fn balance_in(s: TokenState, k: AccountKey) -> nat {
    if s.balances.contains_key(k) {
        s.balances[k]
    } else {
        0
    }
}

/// The allowance of a spender over an owner's tokens: its entry, or 0 where there is none.
pub open spec fn allowance_in(s: TokenState, owner: AccountKey, spender: AccountKey) -> nat {
    if s.allowances.contains_key((owner, spender)) {
        s.allowances[(owner, spender)]
    } else {
        0
    }
}

/// A ledger state that the operations can reach: finitely many accounts,
/// every amount below 2^256, and a total supply equal to the sum of all
/// balances modulo 2^256.
pub open spec fn valid_state(s: TokenState) -> bool {
    &&& s.balances.dom().finite()
    &&& forall|k: AccountKey| #[trigger] s.balances.contains_key(k) ==> s.balances[k] < u256_modulus()
    &&& forall|k: (AccountKey, AccountKey)| #[trigger] s.allowances.contains_key(k) ==> s.allowances[k]
        < u256_modulus()
    &&& s.total_supply < u256_modulus()
    &&& s.total_supply == sum_values(s.balances) as int % u256_modulus()
}

/// The empty ledger.
pub open spec fn empty_state() -> TokenState {
    TokenState { balances: Map::empty(), allowances: Map::empty(), total_supply: 0 }
}

/// `mint`: the recipient's balance (created at 0 if absent) and the total
/// supply both grow by the amount, modulo 2^256.
pub open spec fn mint_model(s: TokenState, to: AccountKey, amount: nat) -> TokenState {
    TokenState {
        balances: s.balances.insert(to, add_mod(balance_in(s, to), amount)),
        allowances: s.allowances,
        total_supply: add_mod(s.total_supply, amount),
    }
}

/// `burn`: refused with `InsufficientBalance` where the account has no entry
/// or less than the amount; otherwise its balance shrinks by the amount and
/// the total supply by the amount modulo 2^256.
pub open spec fn burn_model(s: TokenState, from: AccountKey, amount: nat) -> (TokenState, Result<
    (),
    TokenError,
>) {
    if !s.balances.contains_key(from) || s.balances[from] < amount {
        (s, Err(TokenError::InsufficientBalance))
    } else {
        (
            TokenState {
                balances: s.balances.insert(from, (s.balances[from] - amount) as nat),
                allowances: s.allowances,
                total_supply: sub_mod(s.total_supply, amount),
            },
            Ok(()),
        )
    }
}

/// `transfer`: refused with `InsufficientBalance` where the sender has no
/// entry or less than the amount; otherwise the amount leaves the sender's
/// balance and then joins the recipient's (created at 0 if absent), modulo 2^256.
pub open spec fn transfer_model(s: TokenState, from: AccountKey, to: AccountKey, amount: nat) -> (
    TokenState,
    Result<(), TokenError>,
) {
    if !s.balances.contains_key(from) || s.balances[from] < amount {
        (s, Err(TokenError::InsufficientBalance))
    } else {
        let debited = s.balances.insert(from, (s.balances[from] - amount) as nat);
        let to_balance: nat = if debited.contains_key(to) {
            debited[to]
        } else {
            0
        };
        (
            TokenState {
                balances: debited.insert(to, add_mod(to_balance, amount)),
                allowances: s.allowances,
                total_supply: s.total_supply,
            },
            Ok(()),
        )
    }
}

/// `approve`: the spender's allowance over the owner's tokens becomes the amount.
pub open spec fn approve_model(
    s: TokenState,
    owner: AccountKey,
    spender: AccountKey,
    amount: nat,
) -> TokenState {
    TokenState {
        balances: s.balances,
        allowances: s.allowances.insert((owner, spender), amount),
        total_supply: s.total_supply,
    }
}

/// `transfer_from`: refused with `InsufficientAllowance` where the pair has
/// no allowance entry or less than the amount; otherwise the allowance
/// shrinks by the amount and then the transfer from the owner is made, whose
/// refusal leaves the reduced allowance in place.
pub open spec fn transfer_from_model(
    s: TokenState,
    owner: AccountKey,
    spender: AccountKey,
    to: AccountKey,
    amount: nat,
) -> (TokenState, Result<(), TokenError>) {
    let pair = (owner, spender);
    if !s.allowances.contains_key(pair) || s.allowances[pair] < amount {
        (s, Err(TokenError::InsufficientAllowance))
    } else {
        let spent = TokenState {
            balances: s.balances,
            allowances: s.allowances.insert(pair, (s.allowances[pair] - amount) as nat),
            total_supply: s.total_supply,
        };
        transfer_model(spent, owner, to, amount)
    }
}

// ---------------------------------------------------------------------------
// Modular arithmetic
// ---------------------------------------------------------------------------

proof fn lemma_mod_shift(x: int, q: int, m: int)
    requires
        m > 0,
    ensures
        (x + m * q) % m == x % m,
{
    lemma_mod_multiples_vanish(q, x, m);
}

/// Replacing a summand `b` by `(b + a) mod m` adds `a` to the sum modulo m.
proof fn lemma_replace_by_sum_mod(total: int, b: int, a: int, m: int)
    requires
        m > 0,
    ensures
        (total - b + (b + a) % m) % m == (total + a) % m,
{
    lemma_fundamental_div_mod(b + a, m);
    lemma_mod_shift(total + a, -((b + a) / m), m);
    assert(total - b + (b + a) % m == (total + a) + m * (-((b + a) / m))) by (nonlinear_arith)
        requires
            b + a == m * ((b + a) / m) + (b + a) % m,
    ;
}

/// Adding `a` to `x mod m` gives `x + a` modulo m.
proof fn lemma_mod_then_add(x: int, a: int, m: int)
    requires
        m > 0,
    ensures
        (x % m + a) % m == (x + a) % m,
{
    lemma_fundamental_div_mod(x, m);
    lemma_mod_shift(x % m + a, x / m, m);
    assert(x + a == (x % m + a) + m * (x / m));
}

proof fn lemma_mod_range(x: int, m: int)
    requires
        m > 0,
    ensures
        0 <= x % m < m,
{
}

// ---------------------------------------------------------------------------
// The operations keep a ledger valid
// ---------------------------------------------------------------------------

/// The empty ledger is valid.
pub proof fn lemma_empty_valid()
    ensures
        valid_state(empty_state()),
{
    lemma_sum_values_empty::<AccountKey>();
    assert(empty_state().balances.dom() =~= Set::<AccountKey>::empty());
    assert(u256_modulus() > 0);
    assert(0int % u256_modulus() == 0);
}

/// Minting keeps the total supply equal to the sum of balances modulo 2^256.
pub proof fn lemma_mint_keeps_valid(s: TokenState, to: AccountKey, amount: nat)
    requires
        valid_state(s),
    ensures
        valid_state(mint_model(s, to, amount)),
{
    let m = u256_modulus();
    let b = balance_in(s, to);
    let t = mint_model(s, to, amount);
    lemma_sum_values_insert(s.balances, to, add_mod(b, amount));
    lemma_mod_range((b + amount) as int, m);
    lemma_mod_range((s.total_supply + amount) as int, m);
    let sum = sum_values(s.balances) as int;
    lemma_replace_by_sum_mod(sum, b as int, amount as int, m);
    lemma_mod_then_add(sum, amount as int, m);
    assert(sum_values(t.balances) as int == sum - b + (b + amount) as int % m);
}

/// A burn, accepted or refused, keeps the ledger valid.
pub proof fn lemma_burn_keeps_valid(s: TokenState, from: AccountKey, amount: nat)
    requires
        valid_state(s),
    ensures
        valid_state(burn_model(s, from, amount).0),
{
    if s.balances.contains_key(from) && s.balances[from] >= amount {
        let m = u256_modulus();
        let b = s.balances[from];
        let t = burn_model(s, from, amount).0;
        lemma_sum_values_insert(s.balances, from, (b - amount) as nat);
        let sum = sum_values(s.balances) as int;
        lemma_mod_range(s.total_supply - amount, m);
        lemma_mod_then_add(sum, -amount, m);
        assert(sum_values(t.balances) as int == sum - amount);
    }
}

/// A transfer, accepted or refused, keeps the ledger valid.
pub proof fn lemma_transfer_keeps_valid(s: TokenState, from: AccountKey, to: AccountKey, amount: nat)
    requires
        valid_state(s),
    ensures
        valid_state(transfer_model(s, from, to, amount).0),
{
    if s.balances.contains_key(from) && s.balances[from] >= amount {
        let m = u256_modulus();
        let b = s.balances[from];
        let debited = s.balances.insert(from, (b - amount) as nat);
        let tb: nat = if debited.contains_key(to) {
            debited[to]
        } else {
            0
        };
        let t = transfer_model(s, from, to, amount).0;
        lemma_sum_values_insert(s.balances, from, (b - amount) as nat);
        lemma_sum_values_insert(debited, to, add_mod(tb, amount));
        lemma_mod_range((tb + amount) as int, m);
        let sum = sum_values(s.balances) as int;
        let sum1 = sum_values(debited) as int;
        assert(sum1 == sum - amount);
        lemma_replace_by_sum_mod(sum1, tb as int, amount as int, m);
        assert(sum_values(t.balances) as int == sum1 - tb + (tb + amount) as int % m);
        assert(sum1 + amount == sum);
    }
}

/// Approving keeps the ledger valid, for any amount below 2^256.
pub proof fn lemma_approve_keeps_valid(
    s: TokenState,
    owner: AccountKey,
    spender: AccountKey,
    amount: nat,
)
    requires
        valid_state(s),
        amount < u256_modulus(),
    ensures
        valid_state(approve_model(s, owner, spender, amount)),
{
}

/// A `transfer_from`, accepted or refused, keeps the ledger valid.
pub proof fn lemma_transfer_from_keeps_valid(
    s: TokenState,
    owner: AccountKey,
    spender: AccountKey,
    to: AccountKey,
    amount: nat,
)
    requires
        valid_state(s),
    ensures
        valid_state(transfer_from_model(s, owner, spender, to, amount).0),
{
    let pair = (owner, spender);
    if s.allowances.contains_key(pair) && s.allowances[pair] >= amount {
        let spent = TokenState {
            balances: s.balances,
            allowances: s.allowances.insert(pair, (s.allowances[pair] - amount) as nat),
            total_supply: s.total_supply,
        };
        assert(valid_state(spent));
        lemma_transfer_keeps_valid(spent, owner, to, amount);
    }
}


// ---------------------------------------------------------------------------
// Laws
// ---------------------------------------------------------------------------

/// A refused `burn` or `transfer` leaves the ledger as it was.
pub proof fn law_refused_debit_changes_nothing(
    s: TokenState,
    from: AccountKey,
    to: AccountKey,
    amount: nat,
)
    ensures
        burn_model(s, from, amount).1 is Err ==> burn_model(s, from, amount).0 == s,
        transfer_model(s, from, to, amount).1 is Err ==> transfer_model(s, from, to, amount).0
            == s,
{
}

/// A `transfer_from` refused for want of allowance leaves the ledger as it
/// was; one refused for want of balance leaves balances and supply as they
/// were but keeps the allowance reduced by the amount.
pub proof fn law_refused_transfer_from(
    s: TokenState,
    owner: AccountKey,
    spender: AccountKey,
    to: AccountKey,
    amount: nat,
)
    ensures
        transfer_from_model(s, owner, spender, to, amount).1 == Err::<(), TokenError>(
            TokenError::InsufficientAllowance,
        ) ==> transfer_from_model(s, owner, spender, to, amount).0 == s,
        transfer_from_model(s, owner, spender, to, amount).1 == Err::<(), TokenError>(
            TokenError::InsufficientBalance,
        ) ==> {
            let t = transfer_from_model(s, owner, spender, to, amount).0;
            &&& t.balances == s.balances
            &&& t.total_supply == s.total_supply
            &&& t.allowances == s.allowances.insert(
                (owner, spender),
                (allowance_in(s, owner, spender) - amount) as nat,
            )
        },
{
}

/// A transfer never changes the total supply, the allowances, or the balance
/// of any account other than the sender and the recipient; an accepted one
/// between two different accounts moves exactly the amount when the
/// recipient's balance does not pass 2^256.
pub proof fn law_transfer_moves_amount(
    s: TokenState,
    from: AccountKey,
    to: AccountKey,
    amount: nat,
    other: AccountKey,
)
    requires
        valid_state(s),
        other != from,
        other != to,
    ensures
        ({
            let (t, r) = transfer_model(s, from, to, amount);
            &&& t.total_supply == s.total_supply
            &&& t.allowances == s.allowances
            &&& balance_in(t, other) == balance_in(s, other)
            &&& (r is Ok && from != to && balance_in(s, to) + amount < u256_modulus()) ==> {
                &&& balance_in(t, from) == balance_in(s, from) - amount
                &&& balance_in(t, to) == balance_in(s, to) + amount
            }
            &&& (r is Ok && from == to) ==> balance_in(t, from) == balance_in(s, from)
        }),
{
    let (t, r) = transfer_model(s, from, to, amount);
    if r is Ok {
        if from == to {
            let b = s.balances[from];
            lemma_mod_small((b - amount + amount) as int, u256_modulus());
        } else if balance_in(s, to) + amount < u256_modulus() {
            lemma_mod_small((balance_in(s, to) + amount) as int, u256_modulus());
        }
    }
}

/// An accepted transfer followed by the same transfer back restores every
/// balance and the total supply, provided the first leg does not take the
/// recipient past 2^256 (the way back never can).
pub proof fn law_transfer_round_trip(s: TokenState, a: AccountKey, b: AccountKey, amount: nat)
    requires
        valid_state(s),
        transfer_model(s, a, b, amount).1 is Ok,
        balance_in(s, b) + amount < u256_modulus(),
    ensures
        ({
            let t = transfer_model(s, a, b, amount).0;
            let (u, r) = transfer_model(t, b, a, amount);
            &&& r is Ok
            &&& forall|k: AccountKey| balance_in(u, k) == balance_in(s, k)
            &&& u.total_supply == s.total_supply
        }),
{
    let m = u256_modulus();
    let t = transfer_model(s, a, b, amount).0;
    let ba = s.balances[a];
    if a == b {
        lemma_mod_small((ba - amount + amount) as int, m);
    } else {
        lemma_mod_small((balance_in(s, b) + amount) as int, m);
        lemma_mod_small((ba - amount + amount) as int, m);
        assert(ba < m);
    }
    let u = transfer_model(t, b, a, amount).0;
    assert forall|k: AccountKey| balance_in(u, k) == balance_in(s, k) by {}
}

/// Minting an amount and then burning it again restores every balance and
/// the total supply, provided the mint does not take the balance past 2^256.
pub proof fn law_mint_then_burn(s: TokenState, to: AccountKey, amount: nat)
    requires
        valid_state(s),
        balance_in(s, to) + amount < u256_modulus(),
    ensures
        ({
            let (u, r) = burn_model(mint_model(s, to, amount), to, amount);
            &&& r is Ok
            &&& forall|k: AccountKey| balance_in(u, k) == balance_in(s, k)
            &&& u.total_supply == s.total_supply
        }),
{
    let m = u256_modulus();
    let t = mint_model(s, to, amount);
    lemma_mod_small((balance_in(s, to) + amount) as int, m);
    lemma_mod_then_add((s.total_supply + amount) as int, -amount, m);
    lemma_mod_small(s.total_supply as int, m);
    let u = burn_model(t, to, amount).0;
    assert forall|k: AccountKey| balance_in(u, k) == balance_in(s, k) by {}
}

/// Minting adds the amount, modulo 2^256, to the recipient's balance and to
/// the total supply, and touches nothing else.
pub proof fn law_mint_adds_amount(s: TokenState, to: AccountKey, amount: nat, other: AccountKey)
    requires
        other != to,
    ensures
        mint_model(s, to, amount).balances.contains_key(to),
        balance_in(mint_model(s, to, amount), to) == (balance_in(s, to) + amount) as int
            % u256_modulus(),
        balance_in(mint_model(s, to, amount), other) == balance_in(s, other),
        mint_model(s, to, amount).total_supply == (s.total_supply + amount) as int
            % u256_modulus(),
        mint_model(s, to, amount).allowances == s.allowances,
{
}

/// After an approval the allowance reads back as the approved amount, and
/// other allowances and all balances are unchanged.
pub proof fn law_approve_then_allowance(
    s: TokenState,
    owner: AccountKey,
    spender: AccountKey,
    amount: nat,
    other_owner: AccountKey,
    other_spender: AccountKey,
)
    requires
        (other_owner, other_spender) != (owner, spender),
    ensures
        allowance_in(approve_model(s, owner, spender, amount), owner, spender) == amount,
        allowance_in(approve_model(s, owner, spender, amount), other_owner, other_spender)
            == allowance_in(s, other_owner, other_spender),
        approve_model(s, owner, spender, amount).balances == s.balances,
        approve_model(s, owner, spender, amount).total_supply == s.total_supply,
{
}

/// An accepted `transfer_from` spends the amount from the allowance and
/// makes the same transfer from the owner that `transfer` would.
pub proof fn law_transfer_from_spends_allowance(
    s: TokenState,
    owner: AccountKey,
    spender: AccountKey,
    to: AccountKey,
    amount: nat,
)
    requires
        transfer_from_model(s, owner, spender, to, amount).1 is Ok,
    ensures
        allowance_in(transfer_from_model(s, owner, spender, to, amount).0, owner, spender)
            == allowance_in(s, owner, spender) - amount,
        transfer_from_model(s, owner, spender, to, amount).0.balances == transfer_model(
            s,
            owner,
            to,
            amount,
        ).0.balances,
        transfer_model(s, owner, to, amount).1 is Ok,
        transfer_from_model(s, owner, spender, to, amount).0.total_supply == s.total_supply,
{
}

/// A transfer is accepted exactly when the sender has a balance entry of at
/// least the amount, whoever the recipient is (a recipient with no entry,
/// the sender itself, the whole balance included); a refusal is always
/// `InsufficientBalance`. An accepted transfer leaves the sender with its
/// balance less the amount and the recipient with an entry.
pub proof fn law_transfer_outcome(s: TokenState, from: AccountKey, to: AccountKey, amount: nat)
    requires
        valid_state(s),
    ensures
        ({
            let (t, r) = transfer_model(s, from, to, amount);
            &&& (r is Ok) == (s.balances.contains_key(from) && s.balances[from] >= amount)
            &&& r is Err ==> r == Err::<(), TokenError>(TokenError::InsufficientBalance)
            &&& r is Ok ==> t.balances.contains_key(from) && t.balances.contains_key(to)
            &&& (r is Ok && from != to) ==> t.balances[from] == s.balances[from] - amount
            &&& (r is Ok && from != to && balance_in(s, to) + amount < u256_modulus())
                ==> t.balances[to] == balance_in(s, to) + amount
            &&& (r is Ok && from == to) ==> t.balances[from] == s.balances[from]
        }),
{
    let (t, r) = transfer_model(s, from, to, amount);
    if r is Ok {
        let b = s.balances[from];
        if from == to {
            lemma_mod_small((b - amount + amount) as int, u256_modulus());
        } else if balance_in(s, to) + amount < u256_modulus() {
            lemma_mod_small((balance_in(s, to) + amount) as int, u256_modulus());
        }
    }
}

/// A burn is accepted exactly when the account has a balance entry of at
/// least the amount; a refusal is `InsufficientBalance`. An accepted burn
/// lowers that balance and the total supply by the amount (the supply
/// modulo 2^256) and leaves every other balance as it was.
pub proof fn law_burn_outcome(s: TokenState, from: AccountKey, amount: nat, other: AccountKey)
    requires
        valid_state(s),
        other != from,
    ensures
        ({
            let (t, r) = burn_model(s, from, amount);
            &&& (r is Ok) == (s.balances.contains_key(from) && s.balances[from] >= amount)
            &&& r is Err ==> r == Err::<(), TokenError>(TokenError::InsufficientBalance)
            &&& r is Ok ==> t.balances.contains_key(from) && t.balances[from] == s.balances[from]
                - amount
            &&& r is Ok ==> t.total_supply == (s.total_supply - amount) % u256_modulus()
            &&& balance_in(t, other) == balance_in(s, other)
            &&& t.allowances == s.allowances
        }),
{
}

/// `transfer_from` is refused with `InsufficientAllowance` exactly when the
/// (owner, spender) pair has no allowance entry or one below the amount.
/// When the allowance and the owner's balance both cover the amount it is
/// accepted, whatever the recipient (the spender itself included): the
/// allowance drops by the amount, the owner's balance drops by the amount
/// and the recipient's rises by it (the owner's stays put when it is also
/// the recipient), and the total supply is unchanged.
pub proof fn law_transfer_from_outcome(
    s: TokenState,
    owner: AccountKey,
    spender: AccountKey,
    to: AccountKey,
    amount: nat,
)
    requires
        valid_state(s),
    ensures
        ({
            let (t, r) = transfer_from_model(s, owner, spender, to, amount);
            let pair = (owner, spender);
            &&& (r == Err::<(), TokenError>(TokenError::InsufficientAllowance)) == (
            !s.allowances.contains_key(pair) || s.allowances[pair] < amount)
            &&& (r is Ok) == (s.allowances.contains_key(pair) && s.allowances[pair] >= amount
                && s.balances.contains_key(owner) && s.balances[owner] >= amount)
            &&& r is Ok ==> t.allowances.contains_key(pair) && t.allowances[pair]
                == s.allowances[pair] - amount
            &&& (r is Ok && owner != to) ==> t.balances[owner] == s.balances[owner] - amount
            &&& (r is Ok && owner != to && balance_in(s, to) + amount < u256_modulus())
                ==> t.balances[to] == balance_in(s, to) + amount
            &&& (r is Ok && owner == to) ==> t.balances[owner] == s.balances[owner]
            &&& t.total_supply == s.total_supply
        }),
{
    let pair = (owner, spender);
    if s.allowances.contains_key(pair) && s.allowances[pair] >= amount {
        let spent = TokenState {
            balances: s.balances,
            allowances: s.allowances.insert(pair, (s.allowances[pair] - amount) as nat),
            total_supply: s.total_supply,
        };
        assert(valid_state(spent));
        law_transfer_outcome(spent, owner, to, amount);
    }
}

// ---------------------------------------------------------------------------
// Histories of operations
// ---------------------------------------------------------------------------

/// One call on the ledger that can change it.
pub enum TokenOp {
    Mint { to: AccountKey, amount: nat },
    Burn { from: AccountKey, amount: nat },
    Transfer { from: AccountKey, to: AccountKey, amount: nat },
    Approve { owner: AccountKey, spender: AccountKey, amount: nat },
    TransferFrom { owner: AccountKey, spender: AccountKey, to: AccountKey, amount: nat },
}

/// The ledger after one call, whether the call was accepted or refused.
pub open spec fn step(s: TokenState, op: TokenOp) -> TokenState {
    match op {
        TokenOp::Mint { to, amount } => mint_model(s, to, amount),
        TokenOp::Burn { from, amount } => burn_model(s, from, amount).0,
        TokenOp::Transfer { from, to, amount } => transfer_model(s, from, to, amount).0,
        TokenOp::Approve { owner, spender, amount } => approve_model(s, owner, spender, amount),
        TokenOp::TransferFrom { owner, spender, to, amount } => transfer_from_model(
            s,
            owner,
            spender,
            to,
            amount,
        ).0,
    }
}

/// The ledger after the calls, one after another.
pub open spec fn run(s: TokenState, ops: Seq<TokenOp>) -> TokenState
    decreases ops.len(),
{
    if ops.len() == 0 {
        s
    } else {
        run(step(s, ops[0]), ops.drop_first())
    }
}

/// The amount a call names.
pub open spec fn op_amount(op: TokenOp) -> nat {
    match op {
        TokenOp::Mint { amount, .. } => amount,
        TokenOp::Burn { amount, .. } => amount,
        TokenOp::Transfer { amount, .. } => amount,
        TokenOp::Approve { amount, .. } => amount,
        TokenOp::TransferFrom { amount, .. } => amount,
    }
}

/// Every amount is a 256-bit amount, as the calls' `Amount` arguments are.
pub open spec fn amounts_fit(ops: Seq<TokenOp>) -> bool {
    forall|i: int| 0 <= i < ops.len() ==> op_amount(#[trigger] ops[i]) < u256_modulus()
}

/// No mint of the history, run from `s`, takes the total supply past 2^256 - 1.
pub open spec fn mints_fit(s: TokenState, ops: Seq<TokenOp>) -> bool
    decreases ops.len(),
{
    ops.len() == 0 || ({
        &&& (ops[0] matches TokenOp::Mint { amount, .. } ==> s.total_supply + amount
            < u256_modulus())
        &&& mints_fit(step(s, ops[0]), ops.drop_first())
    })
}

/// Whether the call is an approval or a `transfer_from` for the pair.
pub open spec fn touches_pair(op: TokenOp, owner: AccountKey, spender: AccountKey) -> bool {
    match op {
        TokenOp::Approve { owner: o, spender: s, .. } => o == owner && s == spender,
        TokenOp::TransferFrom { owner: o, spender: s, .. } => o == owner && s == spender,
        _ => false,
    }
}

/// The total supply is the exact sum of the balances.
pub open spec fn supply_is_exact_sum(s: TokenState) -> bool {
    s.total_supply == sum_values(s.balances)
}

/// One call keeps the total supply the exact sum of the balances, provided
/// a mint does not take the supply past 2^256 - 1.
pub proof fn lemma_step_keeps_exact_sum(s: TokenState, op: TokenOp)
    requires
        valid_state(s),
        supply_is_exact_sum(s),
        op_amount(op) < u256_modulus(),
        op matches TokenOp::Mint { amount, .. } ==> s.total_supply + amount < u256_modulus(),
    ensures
        valid_state(step(s, op)),
        supply_is_exact_sum(step(s, op)),
{
    let m = u256_modulus();
    match op {
        TokenOp::Mint { to, amount } => {
            lemma_mint_keeps_valid(s, to, amount);
            let b = balance_in(s, to);
            if s.balances.contains_key(to) {
                lemma_value_le_sum(s.balances, to);
            }
            lemma_sum_values_insert(s.balances, to, add_mod(b, amount));
            lemma_mod_small((b + amount) as int, m);
            lemma_mod_small((s.total_supply + amount) as int, m);
        },
        TokenOp::Burn { from, amount } => {
            lemma_burn_keeps_valid(s, from, amount);
            if s.balances.contains_key(from) && s.balances[from] >= amount {
                lemma_value_le_sum(s.balances, from);
                lemma_sum_values_insert(s.balances, from, (s.balances[from] - amount) as nat);
                lemma_mod_small(s.total_supply - amount, m);
            }
        },
        TokenOp::Transfer { from, to, amount } => {
            lemma_transfer_keeps_valid(s, from, to, amount);
            lemma_transfer_keeps_exact_sum(s, from, to, amount);
        },
        TokenOp::Approve { owner, spender, amount } => {
            lemma_approve_keeps_valid(s, owner, spender, amount);
        },
        TokenOp::TransferFrom { owner, spender, to, amount } => {
            lemma_transfer_from_keeps_valid(s, owner, spender, to, amount);
            let pair = (owner, spender);
            if s.allowances.contains_key(pair) && s.allowances[pair] >= amount {
                let spent = TokenState {
                    balances: s.balances,
                    allowances: s.allowances.insert(pair, (s.allowances[pair] - amount) as nat),
                    total_supply: s.total_supply,
                };
                assert(valid_state(spent));
                lemma_transfer_keeps_exact_sum(spent, owner, to, amount);
            }
        },
    }
}

proof fn lemma_transfer_keeps_exact_sum(s: TokenState, from: AccountKey, to: AccountKey, amount: nat)
    requires
        valid_state(s),
        supply_is_exact_sum(s),
    ensures
        supply_is_exact_sum(transfer_model(s, from, to, amount).0),
{
    if s.balances.contains_key(from) && s.balances[from] >= amount {
        let m = u256_modulus();
        let b = s.balances[from];
        let debited = s.balances.insert(from, (b - amount) as nat);
        let tb: nat = if debited.contains_key(to) {
            debited[to]
        } else {
            0
        };
        lemma_sum_values_insert(s.balances, from, (b - amount) as nat);
        assert(debited.dom().finite());
        if debited.contains_key(to) {
            lemma_value_le_sum(debited, to);
        }
        lemma_sum_values_insert(debited, to, add_mod(tb, amount));
        lemma_mod_small((tb + amount) as int, m);
    }
}

/// Along any history from the empty ledger in which no mint takes the total
/// supply past 2^256 - 1, the total supply is the exact sum of all balances,
/// and so no balance exceeds it.
pub proof fn law_supply_is_sum_of_balances(ops: Seq<TokenOp>)
    requires
        amounts_fit(ops),
        mints_fit(empty_state(), ops),
    ensures
        valid_state(run(empty_state(), ops)),
        run(empty_state(), ops).total_supply == sum_values(run(empty_state(), ops).balances),
        forall|k: AccountKey| #[trigger]
            balance_in(run(empty_state(), ops), k) <= run(empty_state(), ops).total_supply,
{
    lemma_empty_valid();
    lemma_sum_values_empty::<AccountKey>();
    lemma_run_keeps_exact_sum(empty_state(), ops);
    let t = run(empty_state(), ops);
    assert forall|k: AccountKey| #[trigger] balance_in(t, k) <= t.total_supply by {
        if t.balances.contains_key(k) {
            lemma_value_le_sum(t.balances, k);
        }
    }
}

proof fn lemma_run_keeps_exact_sum(s: TokenState, ops: Seq<TokenOp>)
    requires
        valid_state(s),
        supply_is_exact_sum(s),
        amounts_fit(ops),
        mints_fit(s, ops),
    ensures
        valid_state(run(s, ops)),
        supply_is_exact_sum(run(s, ops)),
    decreases ops.len(),
{
    if ops.len() > 0 {
        assert(op_amount(ops[0]) < u256_modulus());
        lemma_step_keeps_exact_sum(s, ops[0]);
        assert(amounts_fit(ops.drop_first())) by {
            assert forall|i: int| 0 <= i < ops.drop_first().len() implies op_amount(
                #[trigger] ops.drop_first()[i],
            ) < u256_modulus() by {
                assert(ops.drop_first()[i] == ops[i + 1]);
            }
        }
        lemma_run_keeps_exact_sum(step(s, ops[0]), ops.drop_first());
    }
}

/// Only an approval or a `transfer_from` for the pair changes the pair's
/// allowance: along any history without one, the allowance stays as it was
/// (zero from the empty ledger).
pub proof fn law_allowance_changes_only_by_its_pair(
    s: TokenState,
    ops: Seq<TokenOp>,
    owner: AccountKey,
    spender: AccountKey,
)
    requires
        forall|i: int| 0 <= i < ops.len() ==> !touches_pair(#[trigger] ops[i], owner, spender),
    ensures
        allowance_in(run(s, ops), owner, spender) == allowance_in(s, owner, spender),
        allowance_in(run(empty_state(), ops), owner, spender) == 0,
    decreases ops.len(),
{
    if ops.len() > 0 {
        assert(!touches_pair(ops[0], owner, spender));
        assert forall|i: int| 0 <= i < ops.drop_first().len() implies !touches_pair(
            #[trigger] ops.drop_first()[i],
            owner,
            spender,
        ) by {
            assert(ops.drop_first()[i] == ops[i + 1]);
        }
        assert(allowance_in(step(s, ops[0]), owner, spender) == allowance_in(s, owner, spender));
        assert(allowance_in(step(empty_state(), ops[0]), owner, spender) == 0);
        law_allowance_changes_only_by_its_pair(step(s, ops[0]), ops.drop_first(), owner, spender);
        law_allowance_changes_only_by_its_pair(
            step(empty_state(), ops[0]),
            ops.drop_first(),
            owner,
            spender,
        );
    }
}

proof fn lemma_mod_small(x: int, m: int)
    requires
        0 <= x < m,
    ensures
        x % m == x,
{
    vstd::arithmetic::div_mod::lemma_small_mod(x as nat, m as nat);
}

// ---------------------------------------------------------------------------
// The ledger
// ---------------------------------------------------------------------------

/// The Seer token ledger.
pub struct SeerToken {
    balances: BTreeMap<AccountKey, Amount>,
    allowances: BTreeMap<(AccountKey, AccountKey), Amount>,
    total_supply: Amount,
}

impl View for SeerToken {
    type V = TokenState;

    closed spec fn view(&self) -> TokenState {
        TokenState {
            balances: self.balances@.map_values(|a: Amount| a@),
            allowances: self.allowances@.map_values(|a: Amount| a@),
            total_supply: self.total_supply@,
        }
    }
}

/// The key of an address.
fn key_of(a: &Address) -> (k: AccountKey)
    ensures
        k == a.key(),
{
    (a.high, a.low)
}

impl SeerToken {
    /// The ledger is valid: what every operation starts from and ends in.
    pub open spec fn wf(&self) -> bool {
        valid_state(self@)
    }

    proof fn lemma_view_facts(&self)
        ensures
            self@.balances.dom() =~= self.balances@.dom(),
            self@.total_supply < u256_modulus(),
            forall|k: AccountKey| #[trigger]
                self@.balances.contains_key(k) ==> self@.balances[k] < u256_modulus(),
            forall|k: (AccountKey, AccountKey)| #[trigger]
                self@.allowances.contains_key(k) ==> self@.allowances[k] < u256_modulus(),
    {
        lemma_limbs_value_bound(self.total_supply.limbs);
        assert forall|k: AccountKey| #[trigger]
            self@.balances.contains_key(k) implies self@.balances[k] < u256_modulus() by {
            lemma_limbs_value_bound(self.balances@[k].limbs);
        }
        assert forall|k: (AccountKey, AccountKey)| #[trigger]
            self@.allowances.contains_key(k) implies self@.allowances[k] < u256_modulus() by {
            lemma_limbs_value_bound(self.allowances@[k].limbs);
        }
    }

    /// A ledger with no accounts, no allowances and a total supply of zero.
    pub fn new() -> (r: SeerToken)
        ensures
            r.wf(),
            r@ == empty_state(),
    {
        let r = SeerToken {
            balances: BTreeMap::new(),
            allowances: BTreeMap::new(),
            total_supply: Amount::zero(),
        };
        proof {
            assert(r@.balances =~= Map::empty());
            assert(r@.allowances =~= Map::empty());
            lemma_empty_valid();
        }
        r
    }

    /// The balance of `owner`: 0 where the account has no entry.
    pub fn balance_of(&self, owner: Address) -> (r: Amount)
        ensures
            r@ == balance_in(self@, owner.key()),
    {
        match self.balances.get(&key_of(&owner)) {
            Some(b) => *b,
            None => Amount::zero(),
        }
    }

    /// The allowance of `spender` over the tokens of `owner`: 0 where none was given.
    pub fn allowance(&self, owner: Address, spender: Address) -> (r: Amount)
        ensures
            r@ == allowance_in(self@, owner.key(), spender.key()),
    {
        match self.allowances.get(&(key_of(&owner), key_of(&spender))) {
            Some(a) => *a,
            None => Amount::zero(),
        }
    }

    /// The total supply.
    pub fn total_supply(&self) -> (r: Amount)
        ensures
            r@ == self@.total_supply,
    {
        self.total_supply
    }

    /// Creates `amount` new tokens in the account of `to`.
    pub fn mint(&mut self, to: Address, amount: Amount)
        requires
            old(self).wf(),
        ensures
            final(self).wf(),
            final(self)@ == mint_model(old(self)@, to.key(), amount@),
    {
        let key = key_of(&to);
        let current = match self.balances.get(&key) {
            Some(b) => *b,
            None => Amount::zero(),
        };
        let updated = current.wrapping_add(&amount);
        self.balances.insert(key, updated);
        self.total_supply = self.total_supply.wrapping_add(&amount);
        proof {
            assert(self@ =~= mint_model(old(self)@, to.key(), amount@));
            lemma_mint_keeps_valid(old(self)@, to.key(), amount@);
        }
    }

    /// Destroys `amount` tokens of the account of `from`.
    pub fn burn(&mut self, from: Address, amount: Amount) -> (r: Result<(), TokenError>)
        requires
            old(self).wf(),
        ensures
            final(self).wf(),
            final(self)@ == burn_model(old(self)@, from.key(), amount@).0,
            r == burn_model(old(self)@, from.key(), amount@).1,
    {
        proof {
            self.lemma_view_facts();
            lemma_burn_keeps_valid(self@, from.key(), amount@);
        }
        let key = key_of(&from);
        let balance = match self.balances.get(&key) {
            Some(b) => *b,
            None => {
                return Err(TokenError::InsufficientBalance);
            },
        };
        if balance.lt(&amount) {
            return Err(TokenError::InsufficientBalance);
        }
        let rest = balance.wrapping_sub(&amount);
        proof {
            lemma_mod_small(balance@ - amount@, u256_modulus());
        }
        self.balances.insert(key, rest);
        self.total_supply = self.total_supply.wrapping_sub(&amount);
        proof {
            assert(self@ =~= burn_model(old(self)@, from.key(), amount@).0);
        }
        Ok(())
    }

    /// Moves `amount` tokens from the account of `from` to that of `to`.
    pub fn transfer(&mut self, from: Address, to: Address, amount: Amount) -> (r: Result<
        (),
        TokenError,
    >)
        requires
            old(self).wf(),
        ensures
            final(self).wf(),
            final(self)@ == transfer_model(old(self)@, from.key(), to.key(), amount@).0,
            r == transfer_model(old(self)@, from.key(), to.key(), amount@).1,
    {
        proof {
            self.lemma_view_facts();
            lemma_transfer_keeps_valid(self@, from.key(), to.key(), amount@);
        }
        let from_key = key_of(&from);
        let to_key = key_of(&to);
        let balance = match self.balances.get(&from_key) {
            Some(b) => *b,
            None => {
                return Err(TokenError::InsufficientBalance);
            },
        };
        if balance.lt(&amount) {
            return Err(TokenError::InsufficientBalance);
        }
        let rest = balance.wrapping_sub(&amount);
        proof {
            lemma_mod_small(balance@ - amount@, u256_modulus());
        }
        self.balances.insert(from_key, rest);
        let ghost debited = self@.balances;
        let to_balance = match self.balances.get(&to_key) {
            Some(b) => *b,
            None => Amount::zero(),
        };
        self.balances.insert(to_key, to_balance.wrapping_add(&amount));
        proof {
            assert(debited =~= old(self)@.balances.insert(from.key(), (old(self)@.balances[from.key()] - amount@) as nat));
            assert(self@ =~= transfer_model(old(self)@, from.key(), to.key(), amount@).0);
        }
        Ok(())
    }

    /// Sets the allowance of `spender` over the tokens of `owner` to `amount`.
    pub fn approve(&mut self, owner: Address, spender: Address, amount: Amount)
        requires
            old(self).wf(),
        ensures
            final(self).wf(),
            final(self)@ == approve_model(old(self)@, owner.key(), spender.key(), amount@),
    {
        self.allowances.insert((key_of(&owner), key_of(&spender)), amount);
        proof {
            assert(self@ =~= approve_model(old(self)@, owner.key(), spender.key(), amount@));
            lemma_limbs_value_bound(amount.limbs);
            lemma_approve_keeps_valid(old(self)@, owner.key(), spender.key(), amount@);
        }
    }

    /// Lets `spender` move `amount` of the tokens of `owner` to `to`, out of
    /// the allowance that `owner` gave it.
    pub fn transfer_from(&mut self, owner: Address, spender: Address, to: Address, amount: Amount) -> (r:
        Result<(), TokenError>)
        requires
            old(self).wf(),
        ensures
            final(self).wf(),
            final(self)@ == transfer_from_model(
                old(self)@,
                owner.key(),
                spender.key(),
                to.key(),
                amount@,
            ).0,
            r == transfer_from_model(old(self)@, owner.key(), spender.key(), to.key(), amount@).1,
    {
        proof {
            self.lemma_view_facts();
        }
        let pair = (key_of(&owner), key_of(&spender));
        let allowance = match self.allowances.get(&pair) {
            Some(a) => *a,
            None => {
                return Err(TokenError::InsufficientAllowance);
            },
        };
        if allowance.lt(&amount) {
            return Err(TokenError::InsufficientAllowance);
        }
        let rest = allowance.wrapping_sub(&amount);
        proof {
            lemma_mod_small(allowance@ - amount@, u256_modulus());
        }
        self.allowances.insert(pair, rest);
        proof {
            let spent = TokenState {
                balances: old(self)@.balances,
                allowances: old(self)@.allowances.insert(
                    pair,
                    (old(self)@.allowances[pair] - amount@) as nat,
                ),
                total_supply: old(self)@.total_supply,
            };
            assert(self@ =~= spent);
            assert(valid_state(spent));
        }
        self.transfer(owner, to, amount)
    }
}

} // verus!

