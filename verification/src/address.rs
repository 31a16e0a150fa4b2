//! Account addresses: 160-bit numbers, held as their top 128 bits and their
//! bottom 32 bits, printed the way `alloy_primitives::Address` prints them.
use vstd::prelude::*;
use crate::text::{char_value, is_hex_char, read_digits};

verus! {

/// The lowercase hexadecimal digit for a number below 16.
pub open spec fn hex_digit(d: nat) -> char {
    if d < 10 {
        (48 + d) as char
    } else {
        (87 + d) as char
    }
}

/// The last `width` lowercase hexadecimal digits of `v`, most significant first.
pub open spec fn hex_text(v: nat, width: nat) -> Seq<char>
    decreases width,
{
    if width == 0 {
        Seq::empty()
    } else {
        hex_text(v / 16, (width - 1) as nat).push(hex_digit(v % 16))
    }
}

/// 16 to the power `w`.
pub open spec fn pow16(w: nat) -> nat
    decreases w,
{
    if w == 0 {
        1
    } else {
        16 * pow16((w - 1) as nat)
    }
}

/// `hex_text(v, w)` is `w` lowercase hexadecimal digits that read in base 16
/// as `v` modulo 16^w.
pub proof fn law_hex_text(v: nat, w: nat)
    ensures
        hex_text(v, w).len() == w,
        forall|i: int| 0 <= i < w ==> is_hex_char(#[trigger] hex_text(v, w)[i]),
        read_digits(hex_text(v, w), 16) == v % pow16(w),
        pow16(w) > 0,
    decreases w,
{
    if w == 0 {
    } else {
        let t = hex_text(v / 16, (w - 1) as nat);
        law_hex_text(v / 16, (w - 1) as nat);
        crate::text::law_hex_min_text(v % 16);
        let d = hex_digit(v % 16);
        assert(crate::text::hex_min_text(v % 16) == seq![d]);
        assert(is_hex_char(d));
        assert(read_digits(seq![d], 16) == v % 16) by {
            assert(seq![d].drop_last() =~= Seq::<char>::empty());
        }
        assert(char_value(d) == v % 16) by {
            assert(seq![d].drop_last() =~= Seq::<char>::empty());
        }
        assert(t.push(d).drop_last() =~= t);
        vstd::arithmetic::div_mod::lemma_breakdown(v as int, 16, pow16((w - 1) as nat) as int);
        assert forall|i: int| 0 <= i < w implies is_hex_char(#[trigger] hex_text(v, w)[i]) by {
            if i < w - 1 {
                assert(hex_text(v, w)[i] == t[i]);
            }
        }
    }
}

/// The text of an address is `0x` followed by 40 lowercase hexadecimal
/// digits that read in base 16 as the address.
pub proof fn law_address_text(a: Address)
    ensures
        a.text().len() == 42,
        a.text()[0] == '0',
        a.text()[1] == 'x',
        forall|i: int| 2 <= i < 42 ==> is_hex_char(#[trigger] a.text()[i]),
        read_digits(a.text().skip(2), 16) == a.value(),
{
    law_hex_text(a.value(), 40);
    reveal_with_fuel(pow16, 41);
    assert(pow16(40) == (0xffff_ffff_ffff_ffff_ffff_ffff_ffff_ffffint + 1) * 0x1_0000_0000);
    assert(a.value() < pow16(40));
    vstd::arithmetic::div_mod::lemma_small_mod(a.value(), pow16(40));
    assert(a.text().skip(2) =~= hex_text(a.value(), 40));
    assert forall|i: int| 2 <= i < 42 implies is_hex_char(#[trigger] a.text()[i]) by {
        assert(a.text()[i] == hex_text(a.value(), 40)[i - 2]);
    }
}

/// `format!("{:?}", alloy_primitives::Address)`: `0x` followed by the 40
/// lowercase hexadecimal digits of the 20 big-endian bytes of the address,
/// here given as its top 128 bits and bottom 32 bits.
#[verifier::external_body]
fn alloy_address_debug(high: u128, low: u32) -> (r: String)
    ensures
        r@ == seq!['0', 'x'] + hex_text(high as nat * 0x1_0000_0000 + low as nat, 40),
{
    let mut bytes = [0u8; 20];
    bytes[..16].copy_from_slice(&high.to_be_bytes());
    bytes[16..].copy_from_slice(&low.to_be_bytes());
    format!("{:?}", alloy_primitives::Address::from(bytes))
}

/// A 160-bit account address: `high` holds its first 16 bytes and `low`
/// its last 4 bytes, both read big-endian.
#[derive(Clone, Copy, Debug, PartialEq, Eq)]
pub struct Address {
    pub high: u128,
    pub low: u32,
}

impl Address {
    /// The address as the 160-bit number it stands for.
    pub open spec fn value(self) -> nat {
        self.high as nat * 0x1_0000_0000 + self.low as nat
    }

    /// The text `format!("{:?}", address)` gives: `0x` and 40 lowercase hexadecimal digits.
    pub open spec fn text(self) -> Seq<char> {
        seq!['0', 'x'] + hex_text(self.value(), 40)
    }

    /// The key under which the ledger files the address.
    pub open spec fn key(self) -> (u128, u32) {
        (self.high, self.low)
    }

    /// The address with the given top 128 bits and bottom 32 bits.
    pub fn new(high: u128, low: u32) -> (r: Address)
        ensures
            r.high == high,
            r.low == low,
    {
        Address { high, low }
    }

    /// The zero address, which `Address::default()` gives in alloy.
    pub fn zero() -> (r: Address)
        ensures
            r.value() == 0,
            r.key() == (0u128, 0u32),
    {
        Address { high: 0, low: 0 }
    }

    /// The debug text of the address: `0x` and 40 lowercase hexadecimal digits.
    pub fn debug_text(&self) -> (r: String)
        ensures
            r@ == self.text(),
    {
        alloy_address_debug(self.high, self.low)
    }
}

/// The address, or the zero address where there is none (`unwrap_or_default`).
pub open spec fn or_zero(a: Option<Address>) -> Address {
    match a {
        Some(a) => a,
        None => Address { high: 0, low: 0 },
    }
}

/// A missing address stands as the zero address, a present one as itself.
pub proof fn law_or_zero(a: Address)
    ensures
        or_zero(None).value() == 0,
        or_zero(None).text() == seq!['0', 'x'] + hex_text(0, 40),
        or_zero(Some(a)) == a,
{
}

/// The address, or the zero address where there is none, as
/// `Option::unwrap_or_default` gives it.
pub fn unwrap_or_zero(a: Option<Address>) -> (r: Address)
    ensures
        r == or_zero(a),
{
    match a {
        Some(a) => a,
        None => Address::zero(),
    }
}

} // verus!
