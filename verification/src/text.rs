//! Number and byte formatting in the forms that Rust's `{}`, `{:x}` and
//! `{:?}` produce.
use vstd::prelude::*;
use crate::address::hex_digit;
use vstd::arithmetic::div_mod::lemma_fundamental_div_mod;

verus! {

/// The decimal digit for a number below 10.
pub open spec fn decimal_digit(d: nat) -> char {
    (48 + d) as char
}

/// The decimal digits of `n`, without leading zeros (`0` for zero), as `{}` prints it.
pub open spec fn decimal_text(n: nat) -> Seq<char>
    decreases n,
{
    if n < 10 {
        seq![decimal_digit(n)]
    } else {
        decimal_text(n / 10).push(decimal_digit(n % 10))
    }
}

/// The lowercase hexadecimal digits of `n`, without leading zeros (`0` for
/// zero), as `{:x}` prints it.
pub open spec fn hex_min_text(n: nat) -> Seq<char>
    decreases n,
{
    if n < 16 {
        seq![hex_digit(n)]
    } else {
        hex_min_text(n / 16).push(hex_digit(n % 16))
    }
}

/// The bytes in decimal, separated by `, `.
pub open spec fn decimal_list(s: Seq<u8>) -> Seq<char>
    decreases s.len(),
{
    if s.len() == 0 {
        Seq::empty()
    } else if s.len() == 1 {
        decimal_text(s[0] as nat)
    } else {
        decimal_list(s.drop_last()) + seq![',', ' '] + decimal_text(s.last() as nat)
    }
}

/// The debug text of a byte vector, as `{:?}` prints it: `[1, 2, 3]`.
pub open spec fn bytes_debug_text(s: Seq<u8>) -> Seq<char> {
    seq!['['] + decimal_list(s) + seq![']']
}

// ---------------------------------------------------------------------------
// Reading digits back
// ---------------------------------------------------------------------------

/// Whether the character is a decimal digit `0`-`9`.
pub open spec fn is_decimal_char(c: char) -> bool {
    48 <= c as u32 <= 57
}

/// Whether the character is a lowercase hexadecimal digit `0`-`9`, `a`-`f`.
pub open spec fn is_hex_char(c: char) -> bool {
    (48 <= c as u32 <= 57) || (97 <= c as u32 <= 102)
}

/// The value of a digit character: `0`-`9` count 0 to 9, `a`-`f` count 10 to 15.
pub open spec fn char_value(c: char) -> int {
    if c as u32 <= 57 {
        c as u32 - 48
    } else {
        c as u32 - 87
    }
}

/// The number that a string of digits stands for in the given base, most
/// significant digit first.
pub open spec fn read_digits(s: Seq<char>, base: int) -> int
    decreases s.len(),
{
    if s.len() == 0 {
        0
    } else {
        read_digits(s.drop_last(), base) * base + char_value(s.last())
    }
}

proof fn lemma_digit_chars(d: nat)
    requires
        d < 16,
    ensures
        is_hex_char(hex_digit(d)),
        char_value(hex_digit(d)) == d,
        d < 10 ==> is_decimal_char(decimal_digit(d)) && char_value(decimal_digit(d)) == d,
        (hex_digit(d) == '0') == (d == 0),
        d < 10 ==> ((decimal_digit(d) == '0') == (d == 0)),
{
    let h = hex_digit(d);
    if d < 10 {
        assert((48 + d) as u32 as char == h);
        vstd::utf8::char_u32_cast(h, (48 + d) as u32);
        assert(h as u32 == 48 + d) by {
            assert(((48 + d) as char) as u32 == 48 + d);
        }
    } else {
        assert(((87 + d) as char) as u32 == 87 + d);
    }
    if d < 10 {
        assert(((48 + d) as char) as u32 == 48 + d);
    }
    assert('0' as u32 == 48);
}

proof fn lemma_read_push(s: Seq<char>, c: char, base: int)
    ensures
        read_digits(s.push(c), base) == read_digits(s, base) * base + char_value(c),
{
    assert(s.push(c).drop_last() =~= s);
}

/// `{:x}` text reads back: it is non-empty, made of lowercase hexadecimal
/// digits, reads in base 16 as `n`, and starts with `0` only when `n` is 0.
pub proof fn law_hex_min_text(n: nat)
    ensures
        hex_min_text(n).len() > 0,
        forall|i: int| 0 <= i < hex_min_text(n).len() ==> is_hex_char(#[trigger] hex_min_text(n)[i]),
        read_digits(hex_min_text(n), 16) == n,
        (hex_min_text(n)[0] == '0') == (n == 0),
    decreases n,
{
    if n < 16 {
        lemma_digit_chars(n);
        assert(seq![hex_digit(n)].drop_last() =~= Seq::<char>::empty());
        assert(read_digits(Seq::<char>::empty(), 16) == 0);
        assert(read_digits(seq![hex_digit(n)], 16) == char_value(hex_digit(n)));
    } else {
        law_hex_min_text(n / 16);
        lemma_digit_chars(n % 16);
        lemma_read_push(hex_min_text(n / 16), hex_digit(n % 16), 16);
        lemma_fundamental_div_mod(n as int, 16);
        let t = hex_min_text(n / 16);
        assert(hex_min_text(n) == t.push(hex_digit(n % 16)));
        assert(read_digits(hex_min_text(n), 16) == read_digits(t, 16) * 16 + (n % 16) as int);
        assert forall|i: int| 0 <= i < hex_min_text(n).len() implies is_hex_char(
            #[trigger] hex_min_text(n)[i],
        ) by {
            if i < t.len() {
                assert(hex_min_text(n)[i] == t[i]);
            }
        }
        assert(hex_min_text(n)[0] == t[0]);
    }
}

/// `{}` text of a number reads back: it is non-empty, made of decimal
/// digits, reads in base 10 as `n`, and starts with `0` only when `n` is 0.
pub proof fn law_decimal_text(n: nat)
    ensures
        decimal_text(n).len() > 0,
        forall|i: int| 0 <= i < decimal_text(n).len() ==> is_decimal_char(#[trigger] decimal_text(n)[i]),
        read_digits(decimal_text(n), 10) == n,
        (decimal_text(n)[0] == '0') == (n == 0),
    decreases n,
{
    if n < 10 {
        lemma_digit_chars(n);
        assert(seq![decimal_digit(n)].drop_last() =~= Seq::<char>::empty());
        assert(read_digits(Seq::<char>::empty(), 10) == 0);
        assert(read_digits(seq![decimal_digit(n)], 10) == char_value(decimal_digit(n)));
    } else {
        law_decimal_text(n / 10);
        lemma_digit_chars(n % 10);
        lemma_read_push(decimal_text(n / 10), decimal_digit(n % 10), 10);
        lemma_fundamental_div_mod(n as int, 10);
        let t = decimal_text(n / 10);
        assert(decimal_text(n) == t.push(decimal_digit(n % 10)));
        assert(read_digits(decimal_text(n), 10) == read_digits(t, 10) * 10 + (n % 10) as int);
        assert forall|i: int| 0 <= i < decimal_text(n).len() implies is_decimal_char(
            #[trigger] decimal_text(n)[i],
        ) by {
            if i < t.len() {
                assert(decimal_text(n)[i] == t[i]);
            }
        }
        assert(decimal_text(n)[0] == t[0]);
    }
}

/// The list of one byte is that byte in decimal, and the list of two
/// non-empty runs of bytes one after the other is the first list, `, ` and
/// the second list: so the list holds each byte, in order, once.
pub proof fn law_decimal_list(s: Seq<u8>, t: Seq<u8>, b: u8)
    requires
        s.len() > 0,
        t.len() > 0,
    ensures
        decimal_list(Seq::<u8>::empty()) == Seq::<char>::empty(),
        decimal_list(seq![b]) == decimal_text(b as nat),
        decimal_list(s + t) == decimal_list(s) + seq![',', ' '] + decimal_list(t),
    decreases t.len(),
{
    if t.len() == 1 {
        assert((s + t).drop_last() =~= s);
        assert(t =~= seq![t[0]]);
    } else {
        let t0 = t.drop_last();
        law_decimal_list(s, t0, b);
        assert((s + t).drop_last() =~= s + t0);
        assert((s + t).last() == t.last());
        assert(decimal_list(s + t) =~= decimal_list(s) + seq![',', ' '] + decimal_list(t));
    }
}

/// The debug text of bytes is `[`, the list of the bytes, and `]`.
pub proof fn law_bytes_debug_text(s: Seq<u8>)
    ensures
        bytes_debug_text(s).len() == decimal_list(s).len() + 2,
        bytes_debug_text(s)[0] == '[',
        bytes_debug_text(s).last() == ']',
        bytes_debug_text(s).subrange(1, bytes_debug_text(s).len() - 1) == decimal_list(s),
{
    assert(bytes_debug_text(s).subrange(1, bytes_debug_text(s).len() - 1) =~= decimal_list(s));
}

/// `String::push`: appends one character.
#[verifier::external_body]
pub fn push_char(s: &mut String, c: char)
    ensures
        final(s)@ == old(s)@.push(c),
{
    s.push(c);
}

/// Appends the decimal digits of `n`.
pub fn push_decimal(out: &mut String, n: u64)
    ensures
        final(out)@ == old(out)@ + decimal_text(n as nat),
    decreases n,
{
    if n >= 10 {
        push_decimal(out, n / 10);
    }
    let d = (n % 10) as u32;
    let c = char_from_digit(d);
    push_char(out, c);
    proof {
        if n >= 10 {
            assert(decimal_text(n as nat) == decimal_text((n / 10) as nat).push(decimal_digit((n % 10) as nat)));
        }
        assert(final(out)@ =~= old(out)@ + decimal_text(n as nat));
    }
}

/// Appends the lowercase hexadecimal digits of `n`.
pub fn push_hex(out: &mut String, n: u64)
    ensures
        final(out)@ == old(out)@ + hex_min_text(n as nat),
    decreases n,
{
    if n >= 16 {
        push_hex(out, n / 16);
    }
    let d = (n % 16) as u32;
    let c = char_from_hex_digit(d);
    push_char(out, c);
    proof {
        assert(final(out)@ =~= old(out)@ + hex_min_text(n as nat));
    }
}

fn char_from_digit(d: u32) -> (c: char)
    requires
        d < 10,
    ensures
        c == decimal_digit(d as nat),
{
    if d == 0 { '0' } else if d == 1 { '1' } else if d == 2 { '2' } else if d == 3 { '3' } else if d
        == 4 { '4' } else if d == 5 { '5' } else if d == 6 { '6' } else if d == 7 { '7' } else if d
        == 8 { '8' } else { '9' }
}

fn char_from_hex_digit(d: u32) -> (c: char)
    requires
        d < 16,
    ensures
        c == hex_digit(d as nat),
{
    if d < 10 {
        char_from_digit(d)
    } else if d == 10 {
        'a'
    } else if d == 11 {
        'b'
    } else if d == 12 {
        'c'
    } else if d == 13 {
        'd'
    } else if d == 14 {
        'e'
    } else {
        'f'
    }
}

/// The text `format!("{:?}", bytes)` gives for a byte vector: `[1, 2, 3]`.
pub fn bytes_debug(bytes: &[u8]) -> (r: String)
    ensures
        r@ == bytes_debug_text(bytes@),
{
    let mut out = String::new();
    push_char(&mut out, '[');
    let mut i: usize = 0;
    while i < bytes.len()
        invariant
            i <= bytes@.len(),
            out@ == seq!['['] + decimal_list(bytes@.take(i as int)),
        decreases bytes@.len() - i,
    {
        let ghost before = out@;
        if i > 0 {
            push_char(&mut out, ',');
            push_char(&mut out, ' ');
        }
        push_decimal(&mut out, bytes[i] as u64);
        proof {
            let t = bytes@.take(i + 1);
            assert(t.drop_last() =~= bytes@.take(i as int));
            assert(t.last() == bytes@[i as int]);
            if i == 0 {
                assert(decimal_list(bytes@.take(0)) =~= Seq::<char>::empty());
            }
            assert(out@ =~= seq!['['] + decimal_list(t));
        }
        i = i + 1;
    }
    push_char(&mut out, ']');
    assert(bytes@.take(bytes@.len() as int) =~= bytes@);
    assert(out@ =~= bytes_debug_text(bytes@));
    out
}

} // verus!
