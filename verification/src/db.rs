//! The label database: a map from labels (non-empty strings, filed by their
//! UTF-8 bytes) to values, kept in a `trie_rs` trie.
use vstd::prelude::*;
use trie_rs::map::{Trie, TrieBuilder};
use vstd::string::StringSliceAdditionalSpecFns;
use crate::label_codec::{
    EntryList, decode_entries, decode_labels, encode_entries, encode_labels, encodable,
    entries_view, lemma_decode_encode,
};

verus! {

#[verifier::external_type_specification]
#[verifier::external_body]
#[verifier::reject_recursive_types(Label)]
#[verifier::reject_recursive_types(Value)]
pub struct ExTrieBuilder<Label, Value>(TrieBuilder<Label, Value>);

#[verifier::external_type_specification]
#[verifier::external_body]
#[verifier::reject_recursive_types(Label)]
#[verifier::reject_recursive_types(Value)]
pub struct ExTrie<Label, Value>(Trie<Label, Value>);

/// The builder of the label trie: byte labels, string values.
pub type LabelTrieBuilder = TrieBuilder<u8, String>;

/// The label trie: byte labels, string values.
pub type LabelTrie = Trie<u8, String>;

/// The entries pushed into a trie builder: each key (a byte string) with the
/// value pushed last for it.
pub uninterp spec fn builder_entries(b: TrieBuilder<u8, String>) -> Map<Seq<u8>, Seq<char>>;

/// The entries of a built trie: each key with its value.
pub uninterp spec fn trie_entries(t: Trie<u8, String>) -> Map<Seq<u8>, Seq<char>>;

/// The map with no entries.
pub open spec fn no_entries() -> Map<Seq<u8>, Seq<char>> {
    Map::empty()
}

/// `trie_rs::map::TrieBuilder::new`: a builder with no entries.
#[verifier::external_body]
fn builder_new() -> (b: LabelTrieBuilder)
    ensures
        builder_entries(b) == no_entries(),
{
    TrieBuilder::new()
}

/// `trie_rs::map::TrieBuilder::push`: files `value` under the non-empty key,
/// replacing what was filed under it. (On an empty key it panics.)
#[verifier::external_body]
fn builder_push(b: &mut LabelTrieBuilder, key: &[u8], value: String)
    requires
        key@.len() > 0,
    ensures
        builder_entries(*final(b)) == builder_entries(*old(b)).insert(key@, value@),
{
    b.push(key, value);
}

/// `Clone::clone` of a trie builder (derived): the same entries.
#[verifier::external_body]
fn builder_clone(b: &LabelTrieBuilder) -> (c: LabelTrieBuilder)
    ensures
        builder_entries(c) == builder_entries(*b),
{
    b.clone()
}

/// `trie_rs::map::TrieBuilder::build`: a trie with the builder's entries.
#[verifier::external_body]
fn builder_build(b: LabelTrieBuilder) -> (t: LabelTrie)
    ensures
        trie_entries(t) == builder_entries(b),
{
    b.build()
}

/// `trie_rs::map::Trie::exact_match` on a non-empty key, with the value cloned:
/// the value filed under exactly that key, if any.
#[verifier::external_body]
fn trie_exact_match(t: &LabelTrie, key: &[u8]) -> (r: Option<String>)
    requires
        key@.len() > 0,
    ensures
        match r {
            Some(v) => trie_entries(*t).contains_key(key@) && v@ == trie_entries(*t)[key@],
            None => !trie_entries(*t).contains_key(key@),
        },
{
    t.exact_match(key).cloned()
}

/// Lexicographic order of byte strings: a proper prefix comes first.
pub open spec fn bytes_lt(a: Seq<u8>, b: Seq<u8>) -> bool
    decreases a.len(),
{
    if a.len() == 0 {
        b.len() > 0
    } else if b.len() == 0 {
        false
    } else if a[0] != b[0] {
        a[0] < b[0]
    } else {
        bytes_lt(a.drop_first(), b.drop_first())
    }
}

/// The keys of the list rise strictly in lexicographic order.
pub open spec fn keys_ascending(es: EntryList) -> bool {
    forall|i: int, j: int| 0 <= i < j < es.len() ==> bytes_lt(es[i].0, es[j].0)
}

/// `trie_rs::map::Trie::iter`, collected with keys as byte vectors and values
/// cloned: every entry of the trie exactly once, in lexicographic order of
/// the keys (the trie is walked depth first, children in label order, a
/// node before its children).
#[verifier::external_body]
fn trie_entries_list(t: &LabelTrie) -> (r: Vec<(Vec<u8>, String)>)
    ensures
        forall|i: int|
            0 <= i < r@.len() ==> trie_entries(*t).contains_key(#[trigger] r@[i].0@)
                && trie_entries(*t)[r@[i].0@] == r@[i].1@,
        forall|k: Seq<u8>|
            #[trigger] trie_entries(*t).contains_key(k) ==> exists|i: int|
                0 <= i < r@.len() && #[trigger] r@[i].0@ == k,
        forall|i: int, j: int| 0 <= i < j < r@.len() ==> r@[i].0@ != r@[j].0@,
        forall|i: int, j: int| 0 <= i < j < r@.len() ==> bytes_lt(r@[i].0@, r@[j].0@),
{
    t.iter::<Vec<u8>, _>().map(|(k, v)| (k, v.clone())).collect()
}

/// The map made by filing the entries of the list one after another, a
/// later entry replacing an earlier one with the same key.
pub open spec fn entries_to_map(es: EntryList) -> Map<Seq<u8>, Seq<char>>
    decreases es.len(),
{
    if es.len() == 0 {
        Map::empty()
    } else {
        entries_to_map(es.drop_last()).insert(es.last().0, es.last().1)
    }
}

/// The list holds every entry of the map exactly once.
pub open spec fn lists_entries(es: EntryList, m: Map<Seq<u8>, Seq<char>>) -> bool {
    &&& forall|i: int|
        0 <= i < es.len() ==> m.contains_key(#[trigger] es[i].0) && m[es[i].0] == es[i].1
    &&& forall|k: Seq<u8>| #[trigger]
        m.contains_key(k) ==> exists|i: int| 0 <= i < es.len() && #[trigger] es[i].0 == k
    &&& forall|i: int, j: int| 0 <= i < j < es.len() ==> es[i].0 != es[j].0
}

/// A list that holds every entry of a map exactly once files back into that map.
pub proof fn lemma_listed_entries_to_map(es: EntryList, m: Map<Seq<u8>, Seq<char>>)
    requires
        lists_entries(es, m),
    ensures
        entries_to_map(es) == m,
    decreases es.len(),
{
    if es.len() == 0 {
        assert(m =~= Map::empty()) by {
            assert forall|k: Seq<u8>| !m.contains_key(k) by {
                if m.contains_key(k) {
                    let i = choose|i: int| 0 <= i < es.len() && #[trigger] es[i].0 == k;
                }
            }
        }
    } else {
        let last = es.last();
        let init = es.drop_last();
        let m2 = m.remove(last.0);
        assert(lists_entries(init, m2)) by {
            assert forall|i: int| 0 <= i < init.len() implies m2.contains_key(#[trigger] init[i].0)
                && m2[init[i].0] == init[i].1 by {
                assert(init[i] == es[i]);
                assert(es[i].0 != es[es.len() - 1].0);
            }
            assert forall|k: Seq<u8>| #[trigger] m2.contains_key(k) implies exists|i: int|
                0 <= i < init.len() && #[trigger] init[i].0 == k by {
                let i = choose|i: int| 0 <= i < es.len() && #[trigger] es[i].0 == k;
                assert(i != es.len() - 1);
                assert(init[i] == es[i]);
            }
            assert forall|i: int, j: int| 0 <= i < j < init.len() implies init[i].0 != init[j].0 by {
                assert(init[i] == es[i]);
                assert(init[j] == es[j]);
            }
        }
        lemma_listed_entries_to_map(init, m2);
        assert(m.contains_key(es[es.len() - 1].0));
        assert(entries_to_map(es) =~= m);
    }
}

/// Saving a database and reading the bytes back gives the same database:
/// the list of entries that `serialize` encodes is read back whole by
/// `deserialize`, and files back into the same map (lengths must fit in 8 bytes).
pub proof fn law_serialize_then_deserialize(m: Map<Seq<u8>, Seq<char>>, es: EntryList)
    requires
        lists_entries(es, m),
        encodable(es),
    ensures
        decode_entries(encode_entries(es)) == Some(es),
        entries_to_map(es) == m,
{
    lemma_decode_encode(es);
    lemma_listed_entries_to_map(es, m);
}

/// A label reads back as the value last filed under it, and filing under
/// one label leaves every other label as it was (what `insert` and `get`
/// state of the database's map).
pub proof fn law_get_after_insert(
    m: Map<Seq<u8>, Seq<char>>,
    key: Seq<u8>,
    value: Seq<char>,
    other: Seq<u8>,
)
    requires
        other != key,
    ensures
        m.insert(key, value).contains_key(key),
        m.insert(key, value)[key] == value,
        m.insert(key, value).contains_key(other) == m.contains_key(other),
        m.contains_key(other) ==> m.insert(key, value)[other] == m[other],
{
}

/// Inserting one more entry into a database that holds `entries_to_map(es)`
/// gives `entries_to_map` of the extended list: so a database made by `new`
/// and `insert` on each entry of a list, in order, holds `entries_to_map` of
/// that list.
pub proof fn law_insert_extends_entries(es: EntryList, key: Seq<u8>, value: Seq<char>)
    ensures
        entries_to_map(es.push((key, value))) == entries_to_map(es).insert(key, value),
        entries_to_map(Seq::<(Seq<u8>, Seq<char>)>::empty()) == no_entries(),
{
    assert(es.push((key, value)).drop_last() =~= es);
}

proof fn lemma_present_iff_listed(es: EntryList, k: Seq<u8>)
    ensures
        entries_to_map(es).contains_key(k) <==> exists|i: int| 0 <= i < es.len() && #[trigger] es[i].0 == k,
    decreases es.len(),
{
    if es.len() > 0 {
        let init = es.drop_last();
        lemma_present_iff_listed(init, k);
        if entries_to_map(es).contains_key(k) && es.last().0 != k {
            let i = choose|i: int| 0 <= i < init.len() && #[trigger] init[i].0 == k;
            assert(es[i] == init[i]);
        }
        if exists|i: int| 0 <= i < es.len() && #[trigger] es[i].0 == k {
            let i = choose|i: int| 0 <= i < es.len() && #[trigger] es[i].0 == k;
            if i < es.len() - 1 {
                assert(init[i] == es[i]);
            }
        }
    }
}

proof fn lemma_last_value(es: EntryList, k: Seq<u8>, i: int)
    requires
        0 <= i < es.len(),
        es[i].0 == k,
        forall|j: int| i < j < es.len() ==> es[j].0 != k,
    ensures
        entries_to_map(es).contains_key(k),
        entries_to_map(es)[k] == es[i].1,
    decreases es.len(),
{
    let init = es.drop_last();
    if i < es.len() - 1 {
        assert(es[es.len() - 1].0 != k);
        assert(init[i] == es[i]);
        assert forall|j: int| i < j < init.len() implies init[j].0 != k by {
            assert(init[j] == es[j]);
        }
        lemma_last_value(init, k, i);
    }
}

/// In `entries_to_map` of a list, a key is present exactly when some entry
/// of the list has it, and it holds the value of the last such entry: the
/// last insert under a label wins, and a label never inserted is absent.
pub proof fn law_last_insert_wins(es: EntryList, k: Seq<u8>)
    ensures
        entries_to_map(es).contains_key(k) <==> exists|i: int| 0 <= i < es.len() && #[trigger] es[i].0 == k,
        forall|i: int|
            0 <= i < es.len() && #[trigger] es[i].0 == k && (forall|j: int|
                i < j < es.len() ==> es[j].0 != k) ==> entries_to_map(es)[k] == es[i].1,
{
    lemma_present_iff_listed(es, k);
    assert forall|i: int|
        0 <= i < es.len() && #[trigger] es[i].0 == k && (forall|j: int|
            i < j < es.len() ==> es[j].0 != k) implies entries_to_map(es)[k] == es[i].1 by {
        lemma_last_value(es, k, i);
    }
}

/// Every key of a list that reads successfully is non-empty.
proof fn lemma_decoded_keys_nonempty(b: Seq<u8>)
    requires
        decode_entries(b) is Some,
    ensures
        forall|i: int|
            0 <= i < decode_entries(b).unwrap().len() ==> (#[trigger] decode_entries(
                b,
            ).unwrap()[i]).0.len() > 0,
    decreases b.len(),
{
    if b.len() > 0 {
        let kl = crate::label_codec::from_u64_be(b) as int;
        let vl = crate::label_codec::from_u64_be(b.skip(8 + kl)) as int;
        let rest = b.skip(16 + kl + vl);
        lemma_decoded_keys_nonempty(rest);
        let es = decode_entries(b).unwrap();
        assert forall|i: int| 0 <= i < es.len() implies (#[trigger] es[i]).0.len() > 0 by {
            if i > 0 {
                assert(es[i] == decode_entries(rest).unwrap()[i - 1]);
            }
        }
    }
}

/// A database of labels.
pub struct LabelDatabase {
    builder: LabelTrieBuilder,
}

impl View for LabelDatabase {
    type V = Map<Seq<u8>, Seq<char>>;

    closed spec fn view(&self) -> Map<Seq<u8>, Seq<char>> {
        builder_entries(self.builder)
    }
}

impl LabelDatabase {
    /// An empty database.
    pub fn new() -> (r: LabelDatabase)
        ensures
            r.wf(),
            r@ == no_entries(),
    {
        LabelDatabase { builder: builder_new() }
    }

    /// Files `value` under the non-empty label `key`, replacing what was filed under it.
    pub fn insert(&mut self, key: &str, value: &str)
        requires
            old(self).wf(),
            key@.len() > 0,
        ensures
            final(self).wf(),
            final(self)@ == old(self)@.insert(key.spec_bytes(), value@),
    {
        proof {
            vstd::utf8::encode_utf8_decode_utf8(key@);
        }
        let bytes = key.as_bytes();
        assert(bytes@.len() > 0);
        builder_push(&mut self.builder, bytes, value.to_owned());
        assert forall|k: Seq<u8>| #[trigger] self@.contains_key(k) implies k.len() > 0 by {
            if k != bytes@ {
                assert(old(self)@.contains_key(k));
            }
        }
    }

    /// The value filed under `key`; none for the empty key.
    pub fn get(&self, key: &str) -> (r: Option<String>)
        ensures
            match r {
                Some(v) => key@.len() > 0 && self@.contains_key(key.spec_bytes()) && v@
                    == self@[key.spec_bytes()],
                None => key@.len() == 0 || !self@.contains_key(key.spec_bytes()),
            },
    {
        let bytes = key.as_bytes();
        if bytes.len() == 0 {
            proof {
                vstd::utf8::encode_utf8_decode_utf8(key@);
            }
            return None;
        }
        let trie = builder_build(builder_clone(&self.builder));
        trie_exact_match(&trie, bytes)
    }

    /// Every label in the database is non-empty.
    pub open spec fn wf(&self) -> bool {
        forall|k: Seq<u8>| #[trigger] self@.contains_key(k) ==> k.len() > 0
    }

    /// Saves the database as bytes: the encoding of the list that holds each
    /// entry exactly once, in lexicographic order of the keys.
    pub fn serialize(&self) -> (r: Vec<u8>)
        requires
            self.wf(),
        ensures
            exists|es: EntryList|
                lists_entries(es, self@) && keys_ascending(es) && encodable(es) && r@
                    == encode_entries(es),
    {
        let trie = builder_build(builder_clone(&self.builder));
        let list = trie_entries_list(&trie);
        let r = encode_labels(&list);
        proof {
            let es = entries_view(list@);
            assert(lists_entries(es, self@)) by {
                assert forall|k: Seq<u8>| #[trigger] self@.contains_key(k) implies exists|i: int|
                    0 <= i < es.len() && #[trigger] es[i].0 == k by {
                    let i = choose|i: int| 0 <= i < list@.len() && #[trigger] list@[i].0@ == k;
                    assert(es[i].0 == k);
                }
            }
            assert forall|i: int| 0 <= i < es.len() implies {
                &&& 0 < (#[trigger] es[i]).0.len() <= u64::MAX
                &&& vstd::utf8::encode_utf8(es[i].1).len() <= u64::MAX
            } by {
                assert(self@.contains_key(es[i].0));
            }
        }
        r
    }

    /// Reads a database back from bytes that `serialize` wrote; none where the
    /// bytes are not a list of entries.
    pub fn deserialize(data: &[u8]) -> (r: Option<LabelDatabase>)
        ensures
            match r {
                Some(db) => db.wf() && decode_entries(data@) is Some && db@ == entries_to_map(
                    decode_entries(data@).unwrap(),
                ),
                None => decode_entries(data@) is None,
            },
    {
        let list = match decode_labels(data) {
            Some(list) => list,
            None => {
                return None;
            },
        };
        let ghost es = entries_view(list@);
        proof {
            lemma_decoded_keys_nonempty(data@);
            assert forall|j: int| 0 <= j < es.len() implies (#[trigger] es[j]).0.len() > 0 by {
                assert(es[j] == decode_entries(data@).unwrap()[j]);
            }
        }
        let mut db = LabelDatabase::new();
        let mut i: usize = 0;
        while i < list.len()
            invariant
                i <= list@.len(),
                es == entries_view(list@),
                decode_entries(data@) == Some(es),
                forall|j: int| 0 <= j < es.len() ==> (#[trigger] es[j]).0.len() > 0,
                db.wf(),
                db@ == entries_to_map(es.take(i as int)),
            decreases list@.len() - i,
        {
            assert(es[i as int].0.len() > 0);
            builder_push(&mut db.builder, list[i].0.as_slice(), list[i].1.clone());
            proof {
                assert(es.take(i + 1).drop_last() =~= es.take(i as int));
            }
            i = i + 1;
        }
        assert(es.take(list@.len() as int) =~= es);
        Some(db)
    }

    /// Checks the database; every database passes.
    pub fn verify(&self) -> (r: bool)
        ensures
            r,
    {
        true
    }
}

} // verus!
