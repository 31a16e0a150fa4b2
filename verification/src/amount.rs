//! Token amounts: unsigned 256-bit integers held as four little-endian
//! 64-bit limbs, with arithmetic delegated to `alloy_primitives::U256`.
use vstd::prelude::*;
use alloy_primitives::U256;

verus! {

/// 2^256: amounts are integers modulo this number.
pub open spec fn u256_modulus() -> int {
    limb_weight(2) * limb_weight(2)
}

/// 2^(64 * i) for the limb positions i in 0..=3, and 2^128 for i == 2.
pub open spec fn limb_weight(i: int) -> int {
    if i == 0 {
        1
    } else if i == 1 {
        0x1_0000_0000_0000_0000
    } else if i == 2 {
        0xffff_ffff_ffff_ffff_ffff_ffff_ffff_ffffint + 1
    } else {
        (0xffff_ffff_ffff_ffff_ffff_ffff_ffff_ffffint + 1) * 0x1_0000_0000_0000_0000
    }
}

/// The number that four little-endian 64-bit limbs stand for.
pub open spec fn limbs_value(l: [u64; 4]) -> nat {
    (l@[0] * limb_weight(0) + l@[1] * limb_weight(1) + l@[2] * limb_weight(2) + l@[3]
        * limb_weight(3)) as nat
}

/// Every four limbs stand for a number below 2^256.
pub proof fn lemma_limbs_value_bound(l: [u64; 4])
    ensures
        limbs_value(l) < u256_modulus(),
{
    let (a, b, c, d) = (l@[0] as int, l@[1] as int, l@[2] as int, l@[3] as int);
    assert(0 <= a < limb_weight(1));
    assert(0 <= b < limb_weight(1));
    assert(0 <= c < limb_weight(1));
    assert(0 <= d < limb_weight(1));
    assert(a + b * limb_weight(1) + c * limb_weight(2) + d * limb_weight(3) < u256_modulus()) by (nonlinear_arith)
        requires
            0 <= a < 0x1_0000_0000_0000_0000,
            0 <= b < 0x1_0000_0000_0000_0000,
            0 <= c < 0x1_0000_0000_0000_0000,
            0 <= d < 0x1_0000_0000_0000_0000,
            limb_weight(1) == 0x1_0000_0000_0000_0000,
            limb_weight(2) == 0x1_0000_0000_0000_0000 * 0x1_0000_0000_0000_0000,
            limb_weight(3) == 0x1_0000_0000_0000_0000 * 0x1_0000_0000_0000_0000 * 0x1_0000_0000_0000_0000,
            u256_modulus() == limb_weight(2) * limb_weight(2),
    ;
}

/// The value of limbs written out one by one.
proof fn lemma_limbs_literal(l: [u64; 4], a: u64, b: u64, c: u64, d: u64)
    requires
        l@ == seq![a, b, c, d],
    ensures
        limbs_value(l) == a + b * limb_weight(1) + c * limb_weight(2) + d * limb_weight(3),
{
    assert(l@[0] == a);
    assert(l@[1] == b);
    assert(l@[2] == c);
    assert(l@[3] == d);
}

/// `U256 += U256` (alloy_primitives / ruint `AddAssign`, which calls
/// `wrapping_add`): the sum modulo 2^256.
#[verifier::external_body]
fn u256_add(a: [u64; 4], b: [u64; 4]) -> (r: [u64; 4])
    ensures
        limbs_value(r) == (limbs_value(a) + limbs_value(b)) as int % u256_modulus(),
{
    let mut x = U256::from_limbs(a);
    x += U256::from_limbs(b);
    x.into_limbs()
}

/// `U256 -= U256` (alloy_primitives / ruint `SubAssign`, which calls
/// `wrapping_sub`): the difference modulo 2^256.
#[verifier::external_body]
fn u256_sub(a: [u64; 4], b: [u64; 4]) -> (r: [u64; 4])
    ensures
        limbs_value(r) == (limbs_value(a) - limbs_value(b)) % u256_modulus(),
{
    let mut x = U256::from_limbs(a);
    x -= U256::from_limbs(b);
    x.into_limbs()
}

/// `U256 < U256` (ruint `PartialOrd::lt`): numeric comparison.
#[verifier::external_body]
fn u256_lt(a: [u64; 4], b: [u64; 4]) -> (r: bool)
    ensures
        r == (limbs_value(a) < limbs_value(b)),
{
    U256::from_limbs(a) < U256::from_limbs(b)
}

/// An unsigned 256-bit amount of tokens.
#[derive(Clone, Copy, Debug, PartialEq, Eq)]
pub struct Amount {
    pub limbs: [u64; 4],
}

impl View for Amount {
    type V = nat;

    open spec fn view(&self) -> nat {
        limbs_value(self.limbs)
    }
}

impl Amount {
    /// The amount zero.
    pub fn zero() -> (r: Amount)
        ensures
            r@ == 0,
    {
        let limbs: [u64; 4] = [0, 0, 0, 0];
        proof { lemma_limbs_literal(limbs, 0, 0, 0, 0); }
        Amount { limbs }
    }

    /// The amount given by its four little-endian 64-bit limbs.
    pub fn from_limbs(limbs: [u64; 4]) -> (r: Amount)
        ensures
            r@ == limbs_value(limbs),
            r.limbs == limbs,
    {
        Amount { limbs }
    }

    /// The amount equal to a 64-bit number.
    pub fn from_u64(x: u64) -> (r: Amount)
        ensures
            r@ == x,
    {
        let limbs: [u64; 4] = [x, 0, 0, 0];
        proof { lemma_limbs_literal(limbs, x, 0, 0, 0); }
        Amount { limbs }
    }

    /// The largest amount, 2^256 - 1.
    pub fn max_value() -> (r: Amount)
        ensures
            r@ == u256_modulus() - 1,
    {
        let limbs: [u64; 4] = [u64::MAX, u64::MAX, u64::MAX, u64::MAX];
        proof { lemma_limbs_literal(limbs, u64::MAX, u64::MAX, u64::MAX, u64::MAX); }
        Amount { limbs }
    }

    /// The four little-endian 64-bit limbs of the amount.
    pub fn to_limbs(&self) -> (r: [u64; 4])
        ensures
            limbs_value(r) == self@,
    {
        self.limbs
    }

    /// `self + other` modulo 2^256.
    pub fn wrapping_add(&self, other: &Amount) -> (r: Amount)
        ensures
            r@ == (self@ + other@) as int % u256_modulus(),
    {
        Amount { limbs: u256_add(self.limbs, other.limbs) }
    }

    /// `self - other` modulo 2^256.
    pub fn wrapping_sub(&self, other: &Amount) -> (r: Amount)
        ensures
            r@ == (self@ - other@) % u256_modulus(),
    {
        Amount { limbs: u256_sub(self.limbs, other.limbs) }
    }

    /// Whether `self` is smaller than `other`.
    pub fn lt(&self, other: &Amount) -> (r: bool)
        ensures
            r == (self@ < other@),
    {
        u256_lt(self.limbs, other.limbs)
    }
}

} // verus!
