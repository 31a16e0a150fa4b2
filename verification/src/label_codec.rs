//! The byte format in which the label database is saved: each entry as the
//! length of its key (8 bytes, big-endian), the key, the length of its
//! value's UTF-8 bytes (8 bytes, big-endian) and those bytes.
use vstd::prelude::*;
use vstd::utf8::{decode_utf8, encode_utf8, valid_utf8};

verus! {

/// A list of entries: key bytes with their value.
pub type EntryList = Seq<(Seq<u8>, Seq<char>)>;

/// The 8 big-endian bytes of `n`.
pub open spec fn u64_be(n: u64) -> Seq<u8> {
    seq![
        (n >> 56u64) as u8,
        (n >> 48u64) as u8,
        (n >> 40u64) as u8,
        (n >> 32u64) as u8,
        (n >> 24u64) as u8,
        (n >> 16u64) as u8,
        (n >> 8u64) as u8,
        n as u8,
    ]
}

/// The number whose big-endian bytes are the first 8 of `b`.
pub open spec fn from_u64_be(b: Seq<u8>) -> u64 {
    be_value(b[0], b[1], b[2], b[3], b[4], b[5], b[6], b[7])
}

/// The number with the big-endian bytes `b0` to `b7`.
pub open spec fn be_value(b0: u8, b1: u8, b2: u8, b3: u8, b4: u8, b5: u8, b6: u8, b7: u8) -> u64 {
    (b0 as u64) << 56u64 | (b1 as u64) << 48u64 | (b2 as u64) << 40u64 | (b3 as u64) << 32u64 | (
    b4 as u64) << 24u64 | (b5 as u64) << 16u64 | (b6 as u64) << 8u64 | (b7 as u64)
}

/// One entry: key length, key, value length, value bytes.
pub open spec fn encode_entry(k: Seq<u8>, v: Seq<char>) -> Seq<u8> {
    u64_be(k.len() as u64) + k + u64_be(encode_utf8(v).len() as u64) + encode_utf8(v)
}

/// The encoding of a list of entries: the entries one after another.
pub open spec fn encode_entries(es: EntryList) -> Seq<u8>
    decreases es.len(),
{
    if es.len() == 0 {
        Seq::empty()
    } else {
        encode_entry(es[0].0, es[0].1) + encode_entries(es.drop_first())
    }
}

/// `Some(a + r)` where `r` is `Some(r)`, else none.
pub open spec fn prepend(a: EntryList, r: Option<EntryList>) -> Option<EntryList> {
    match r {
        Some(x) => Some(a + x),
        None => None,
    }
}

/// Reads a list of entries: none where the bytes end inside an entry, a key
/// is empty, or a value is not valid UTF-8.
pub open spec fn decode_entries(b: Seq<u8>) -> Option<EntryList>
    decreases b.len(),
{
    if b.len() == 0 {
        Some(Seq::empty())
    } else if b.len() < 8 {
        None
    } else {
        let kl = from_u64_be(b) as int;
        if kl == 0 || b.len() < 16 + kl {
            None
        } else {
            let vl = from_u64_be(b.skip(8 + kl)) as int;
            if b.len() < 16 + kl + vl {
                None
            } else {
                let vb = b.subrange(16 + kl, 16 + kl + vl);
                if !valid_utf8(vb) {
                    None
                } else {
                    prepend(
                        seq![(b.subrange(8, 8 + kl), decode_utf8(vb))],
                        decode_entries(b.skip(16 + kl + vl)),
                    )
                }
            }
        }
    }
}

/// Every key of the list is non-empty, and every length fits in 8 bytes.
pub open spec fn encodable(es: EntryList) -> bool {
    forall|i: int|
        0 <= i < es.len() ==> {
            &&& 0 < (#[trigger] es[i]).0.len() <= u64::MAX
            &&& encode_utf8(es[i].1).len() <= u64::MAX
        }
}

/// Reading back 8 big-endian bytes gives the number written.
pub proof fn lemma_u64_be_round_trip(n: u64)
    ensures
        from_u64_be(u64_be(n)) == n,
{
    let b = u64_be(n);
    assert(b[0] == (n >> 56u64) as u8);
    assert(b[7] == n as u8);
    assert(be_value(
        (n >> 56u64) as u8,
        (n >> 48u64) as u8,
        (n >> 40u64) as u8,
        (n >> 32u64) as u8,
        (n >> 24u64) as u8,
        (n >> 16u64) as u8,
        (n >> 8u64) as u8,
        n as u8,
    ) == n) by (bit_vector);
}

/// Encoding a list extended by one entry appends that entry's encoding.
pub proof fn lemma_encode_entries_push(es: EntryList, k: Seq<u8>, v: Seq<char>)
    ensures
        encode_entries(es.push((k, v))) == encode_entries(es) + encode_entry(k, v),
    decreases es.len(),
{
    if es.len() == 0 {
        assert(es.push((k, v)).drop_first() =~= Seq::<(Seq<u8>, Seq<char>)>::empty());
        assert(encode_entries(es.push((k, v)).drop_first()) == Seq::<u8>::empty());
        assert(encode_entry(k, v) + Seq::<u8>::empty() =~= encode_entry(k, v));
        assert(Seq::<u8>::empty() + encode_entry(k, v) =~= encode_entry(k, v));
    } else {
        assert(es.push((k, v)).drop_first() =~= es.drop_first().push((k, v)));
        lemma_encode_entries_push(es.drop_first(), k, v);
        assert(encode_entries(es.push((k, v))) =~= encode_entry(es[0].0, es[0].1) + (
        encode_entries(es.drop_first()) + encode_entry(k, v)));
    }
}

/// Reading bytes that start with one well-formed entry gives that entry
/// followed by what the rest of the bytes read as.
proof fn lemma_decode_one(b: Seq<u8>, k: Seq<u8>, vb: Seq<u8>, rb: Seq<u8>)
    requires
        b == u64_be(k.len() as u64) + k + u64_be(vb.len() as u64) + vb + rb,
        0 < k.len() <= u64::MAX,
        vb.len() <= u64::MAX,
        valid_utf8(vb),
    ensures
        decode_entries(b) == prepend(seq![(k, decode_utf8(vb))], decode_entries(rb)),
{
    let kl = k.len() as int;
    let vl = vb.len() as int;
    lemma_u64_be_round_trip(k.len() as u64);
    lemma_u64_be_round_trip(vb.len() as u64);
    assert(b.len() == 16 + kl + vl + rb.len());
    assert forall|i: int| 0 <= i < 8 implies b[i] == u64_be(k.len() as u64)[i] by {}
    assert(from_u64_be(b) == from_u64_be(u64_be(k.len() as u64)));
    let b2 = b.skip(8 + kl);
    assert forall|i: int| 0 <= i < 8 implies b2[i] == u64_be(vb.len() as u64)[i] by {}
    assert(from_u64_be(b2) == from_u64_be(u64_be(vb.len() as u64)));
    assert(b.subrange(8, 8 + kl) =~= k);
    assert(b.subrange(16 + kl, 16 + kl + vl) =~= vb);
    assert(b.skip(16 + kl + vl) =~= rb);
}

/// Reading an encoded list gives the list back.
pub proof fn lemma_decode_encode(es: EntryList)
    requires
        encodable(es),
    ensures
        decode_entries(encode_entries(es)) == Some(es),
    decreases es.len(),
{
    if es.len() == 0 {
        assert(encode_entries(es) =~= Seq::<u8>::empty());
    } else {
        let k = es[0].0;
        let v = es[0].1;
        let vb = encode_utf8(v);
        let rest = es.drop_first();
        assert(encodable(rest)) by {
            assert forall|i: int| 0 <= i < rest.len() implies {
                &&& 0 < (#[trigger] rest[i]).0.len() <= u64::MAX
                &&& encode_utf8(rest[i].1).len() <= u64::MAX
            } by {
                assert(rest[i] == es[i + 1]);
            }
        }
        lemma_decode_encode(rest);
        let rb = encode_entries(rest);
        assert(0 < (es[0]).0.len() <= u64::MAX);
        vstd::utf8::encode_utf8_valid_utf8(v);
        vstd::utf8::encode_utf8_decode_utf8(v);
        assert(encode_entries(es) =~= u64_be(k.len() as u64) + k + u64_be(vb.len() as u64) + vb
            + rb);
        lemma_decode_one(encode_entries(es), k, vb, rb);
        assert(seq![(k, v)] + rest =~= es);
    }
}

// ---------------------------------------------------------------------------
// Executable encoding and decoding
// ---------------------------------------------------------------------------

/// The entry list that a vector of entries stands for.
pub open spec fn entries_view(v: Seq<(Vec<u8>, String)>) -> EntryList {
    v.map_values(|e: (Vec<u8>, String)| (e.0@, e.1@))
}

/// `String::from_utf8`: the string whose UTF-8 bytes these are, or none
/// where they are not valid UTF-8.
#[verifier::external_body]
fn string_from_utf8(bytes: Vec<u8>) -> (r: Option<String>)
    ensures
        match r {
            Some(s) => valid_utf8(bytes@) && s@ == decode_utf8(bytes@),
            None => !valid_utf8(bytes@),
        },
{
    String::from_utf8(bytes).ok()
}

fn push_u64_be(out: &mut Vec<u8>, n: u64)
    ensures
        final(out)@ == old(out)@ + u64_be(n),
{
    out.push((n >> 56u64) as u8);
    out.push((n >> 48u64) as u8);
    out.push((n >> 40u64) as u8);
    out.push((n >> 32u64) as u8);
    out.push((n >> 24u64) as u8);
    out.push((n >> 16u64) as u8);
    out.push((n >> 8u64) as u8);
    out.push(n as u8);
    assert(final(out)@ =~= old(out)@ + u64_be(n));
}

fn append_bytes(out: &mut Vec<u8>, src: &[u8])
    ensures
        final(out)@ == old(out)@ + src@,
{
    let ghost start = out@;
    let mut i: usize = 0;
    while i < src.len()
        invariant
            i <= src@.len(),
            out@ == start + src@.take(i as int),
        decreases src@.len() - i,
    {
        out.push(src[i]);
        i = i + 1;
        assert(out@ =~= start + src@.take(i as int));
    }
    assert(src@.take(src@.len() as int) =~= src@);
}

fn read_u64_be(b: &[u8], pos: usize) -> (r: u64)
    requires
        pos + 8 <= b@.len(),
    ensures
        r == from_u64_be(b@.skip(pos as int)),
{
    be_value_exec(b[pos], b[pos + 1], b[pos + 2], b[pos + 3], b[pos + 4], b[pos + 5], b[pos + 6], b[pos + 7])
}

fn be_value_exec(b0: u8, b1: u8, b2: u8, b3: u8, b4: u8, b5: u8, b6: u8, b7: u8) -> (r: u64)
    ensures
        r == be_value(b0, b1, b2, b3, b4, b5, b6, b7),
{
    (b0 as u64) << 56u64 | (b1 as u64) << 48u64 | (b2 as u64) << 40u64 | (b3 as u64) << 32u64 | (
    b4 as u64) << 24u64 | (b5 as u64) << 16u64 | (b6 as u64) << 8u64 | (b7 as u64)
}

fn copy_range(b: &[u8], start: usize, end: usize) -> (r: Vec<u8>)
    requires
        start <= end <= b@.len(),
    ensures
        r@ == b@.subrange(start as int, end as int),
{
    let mut r: Vec<u8> = Vec::new();
    append_bytes(&mut r, &b[start..end]);
    r
}

/// Writes a list of entries in the label format.
pub fn encode_labels(es: &Vec<(Vec<u8>, String)>) -> (r: Vec<u8>)
    ensures
        r@ == encode_entries(entries_view(es@)),
        forall|i: int|
            0 <= i < es@.len() ==> (#[trigger] entries_view(es@)[i]).0.len() <= u64::MAX
                && encode_utf8(entries_view(es@)[i].1).len() <= u64::MAX,
{
    let mut out: Vec<u8> = Vec::new();
    let mut i: usize = 0;
    while i < es.len()
        invariant
            i <= es@.len(),
            out@ == encode_entries(entries_view(es@).take(i as int)),
            forall|j: int|
                0 <= j < i ==> (#[trigger] entries_view(es@)[j]).0.len() <= u64::MAX
                    && encode_utf8(entries_view(es@)[j].1).len() <= u64::MAX,
        decreases es@.len() - i,
    {
        let key = es[i].0.as_slice();
        let value = es[i].1.as_str().as_bytes();
        push_u64_be(&mut out, key.len() as u64);
        append_bytes(&mut out, key);
        push_u64_be(&mut out, value.len() as u64);
        append_bytes(&mut out, value);
        proof {
            let ev = entries_view(es@);
            lemma_encode_entries_push(ev.take(i as int), ev[i as int].0, ev[i as int].1);
            assert(ev.take(i as int).push((ev[i as int].0, ev[i as int].1)) =~= ev.take(i + 1));
        }
        i = i + 1;
    }
    assert(entries_view(es@).take(es@.len() as int) =~= entries_view(es@));
    out
}

/// Reads a list of entries in the label format; none where the bytes are
/// not such a list.
pub fn decode_labels(b: &[u8]) -> (r: Option<Vec<(Vec<u8>, String)>>)
    ensures
        match r {
            Some(v) => decode_entries(b@) == Some(entries_view(v@)),
            None => decode_entries(b@) is None,
        },
{
    let mut pos: usize = 0;
    let mut acc: Vec<(Vec<u8>, String)> = Vec::new();
    assert(b@.skip(0) =~= b@);
    assert(entries_view(acc@) + decode_entries(b@).unwrap() =~= decode_entries(b@).unwrap());
    while pos < b.len()
        invariant
            pos <= b@.len(),
            decode_entries(b@) == prepend(entries_view(acc@), decode_entries(b@.skip(pos as int))),
        decreases b@.len() - pos,
    {
        let ghost s = b@.skip(pos as int);
        let remaining = b.len() - pos;
        if remaining < 8 {
            return None;
        }
        let kl = read_u64_be(b, pos);
        if kl == 0 || (kl as u128) + 16 > remaining as u128 {
            return None;
        }
        let kl = kl as usize;
        assert(s.skip(8 + kl as int) =~= b@.skip(pos + 8 + kl));
        let vl = read_u64_be(b, pos + 8 + kl);
        if (vl as u128) + (kl as u128) + 16 > remaining as u128 {
            return None;
        }
        let vl = vl as usize;
        let key = copy_range(b, pos + 8, pos + 8 + kl);
        let value_bytes = copy_range(b, pos + 16 + kl, pos + 16 + kl + vl);
        assert(key@ =~= s.subrange(8, 8 + kl as int));
        assert(value_bytes@ =~= s.subrange(16 + kl as int, 16 + kl + vl as int));
        let value = match string_from_utf8(value_bytes) {
            Some(v) => v,
            None => {
                return None;
            },
        };
        let ghost before = entries_view(acc@);
        acc.push((key, value));
        let next = pos + 16 + kl + vl;
        proof {
            assert(s.skip(16 + kl + vl as int) =~= b@.skip(next as int));
            assert(entries_view(acc@) =~= before + seq![(key@, value@)]);
            match decode_entries(b@.skip(next as int)) {
                Some(rest) => {
                    assert(before + (seq![(key@, value@)] + rest) =~= entries_view(acc@) + rest);
                },
                None => {},
            }
        }
        pos = next;
    }
    proof {
        assert(b@.skip(pos as int) =~= Seq::<u8>::empty());
        assert(entries_view(acc@) + Seq::<(Seq<u8>, Seq<char>)>::empty() =~= entries_view(acc@));
    }
    Some(acc)
}

} // verus!
