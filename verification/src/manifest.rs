//! The record of what a snapshot holds.
use vstd::prelude::*;
use vstd::utf8::encode_utf8;

use crate::names::name_le;

verus! {

/// The order in which a manifest lists its outputs: that of the bytes of their names.
pub open spec fn key_le(a: Seq<char>, b: Seq<char>) -> bool {
    crate::names::bytes_le(encode_utf8(a), encode_utf8(b))
}

/// Whether every name comes strictly before the ones after it, so that none occurs twice.
pub open spec fn listed_by_name(pairs: Seq<(Seq<char>, Seq<char>)>) -> bool {
    forall|i: int, j: int|
        #![trigger pairs[i], pairs[j]]
        0 <= i < j < pairs.len() ==> key_le(pairs[i].0, pairs[j].0) && pairs[i].0 != pairs[j].0
}

/// Whether `pairs` has an entry for `key`.
pub open spec fn lists(pairs: Seq<(Seq<char>, Seq<char>)>, key: Seq<char>) -> bool {
    exists|i: int| 0 <= i < pairs.len() && (#[trigger] pairs[i]).0 == key
}

/// The map that a list of pairs stands for.
pub open spec fn pairs_map(pairs: Seq<(Seq<char>, Seq<char>)>) -> Map<Seq<char>, Seq<char>> {
    Map::new(
        |key: Seq<char>| lists(pairs, key),
        |key: Seq<char>|
            pairs[choose|i: int| 0 <= i < pairs.len() && (#[trigger] pairs[i]).0 == key].1,
    )
}

/// The texts of a list of named checksums.
pub open spec fn pairs_of(entries: Seq<(String, String)>) -> Seq<(Seq<char>, Seq<char>)> {
    entries.map_values(|entry: (String, String)| (entry.0@, entry.1@))
}

proof fn lemma_key_le_antisymmetric(a: Seq<char>, b: Seq<char>)
    requires
        key_le(a, b),
        key_le(b, a),
    ensures
        a == b,
{
    crate::names::lemma_byte_order_total();
    let order = crate::names::byte_order();
    assert(order(encode_utf8(a), encode_utf8(b)) && order(encode_utf8(b), encode_utf8(a)));
    vstd::utf8::encode_utf8_decode_utf8(a);
    vstd::utf8::encode_utf8_decode_utf8(b);
}

proof fn lemma_key_le_total(a: Seq<char>, b: Seq<char>)
    ensures
        key_le(a, b) || key_le(b, a),
        key_le(a, a),
{
    crate::names::lemma_byte_order_total();
    let order = crate::names::byte_order();
    assert(order(encode_utf8(a), encode_utf8(b)) || order(encode_utf8(b), encode_utf8(a)));
    assert(order(encode_utf8(a), encode_utf8(a)));
}

proof fn lemma_key_le_transitive(a: Seq<char>, b: Seq<char>, c: Seq<char>)
    requires
        key_le(a, b),
        key_le(b, c),
    ensures
        key_le(a, c),
{
    crate::names::lemma_byte_order_total();
    let order = crate::names::byte_order();
    assert(order(encode_utf8(a), encode_utf8(b)) && order(encode_utf8(b), encode_utf8(c)));
    assert(order(encode_utf8(a), encode_utf8(c)));
}

/// A list by name gives each name it holds the checksum beside it.
proof fn lemma_pairs_map_at(pairs: Seq<(Seq<char>, Seq<char>)>, i: int)
    requires
        listed_by_name(pairs),
        0 <= i < pairs.len(),
    ensures
        pairs_map(pairs).contains_key(pairs[i].0),
        pairs_map(pairs)[pairs[i].0] == pairs[i].1,
{
    let key = pairs[i].0;
    let j = choose|j: int| 0 <= j < pairs.len() && (#[trigger] pairs[j]).0 == key;
    assert(lists(pairs, key));
    if j < i {
        assert(pairs[j].0 != pairs[i].0);
    } else if i < j {
        assert(pairs[i].0 != pairs[j].0);
    }
}

/// Checksums by name, listed in the order of the names.
#[derive(Debug)]
pub struct Checksums {
    entries: Vec<(String, String)>,
}

impl View for Checksums {
    type V = Map<Seq<char>, Seq<char>>;

    closed spec fn view(&self) -> Map<Seq<char>, Seq<char>> {
        pairs_map(pairs_of(self.entries@))
    }
}

impl Checksums {
    #[verifier::type_invariant]
    spec fn ordered(self) -> bool {
        listed_by_name(pairs_of(self.entries@))
    }

    /// No checksums.
    pub fn new() -> (checksums: Checksums)
        ensures
            checksums@ == Map::<Seq<char>, Seq<char>>::empty(),
    {
        let checksums = Checksums { entries: Vec::new() };
        assert(checksums@ =~= Map::empty());
        checksums
    }

    /// Where `key` is in `entries`, or where it would go; and whether it is there.
    fn position(entries: &Vec<(String, String)>, key: &str) -> (found: (usize, bool))
        requires
            listed_by_name(pairs_of(entries@)),
        ensures
            found.0 <= entries@.len(),
            found.1 ==> found.0 < entries@.len() && entries@[found.0 as int].0@ == key@,
            !found.1 ==> !lists(pairs_of(entries@), key@),
            forall|i: int|
                0 <= i < found.0 ==> key_le((#[trigger] entries@[i]).0@, key@) && entries@[i].0@
                    != key@,
            forall|i: int|
                found.0 <= i < entries@.len() ==> key_le(key@, (#[trigger] entries@[i]).0@),
    {
        let mut at: usize = 0;
        let ghost pairs = pairs_of(entries@);
        while at < entries.len()
            invariant
                at <= entries@.len(),
                pairs == pairs_of(entries@),
                listed_by_name(pairs),
                forall|i: int|
                    0 <= i < at ==> key_le((#[trigger] entries@[i]).0@, key@) && entries@[i].0@
                        != key@,
            decreases entries@.len() - at,
        {
            if name_le(key.as_bytes(), entries[at].0.as_str().as_bytes()) {
                let same = name_le(entries[at].0.as_str().as_bytes(), key.as_bytes());
                proof {
                    let here = entries@[at as int].0@;
                    assert(pairs[at as int].0 == here);
                    if same {
                        lemma_key_le_antisymmetric(key@, here);
                    } else {
                        lemma_key_le_total(key@, here);
                    }
                    assert forall|i: int| at <= i < entries@.len() implies key_le(
                        key@,
                        (#[trigger] entries@[i]).0@,
                    ) by {
                        assert(pairs[i].0 == entries@[i].0@);
                        if at < i {
                            assert(key_le(pairs[at as int].0, pairs[i].0));
                            lemma_key_le_transitive(key@, here, entries@[i].0@);
                        }
                    }
                    if !same && lists(pairs, key@) {
                        let j = choose|j: int|
                            0 <= j < pairs.len() && (#[trigger] pairs[j]).0 == key@;
                        assert(pairs[j].0 == entries@[j].0@);
                        if at < j {
                            assert(key_le(pairs[at as int].0, pairs[j].0));
                        }
                    }
                }
                return (at, same);
            }
            proof {
                let here = entries@[at as int].0@;
                lemma_key_le_total(key@, here);
            }
            at += 1;
        }
        proof {
            if lists(pairs, key@) {
                let j = choose|j: int| 0 <= j < pairs.len() && (#[trigger] pairs[j]).0 == key@;
                assert(pairs[j].0 == entries@[j].0@);
            }
        }
        (at, false)
    }

    /// The checksum recorded under `key`.
    pub fn get(&self, key: &str) -> (value: Option<&String>)
        ensures
            match value {
                Some(text) => self@.contains_key(key@) && text@ == self@[key@],
                None => !self@.contains_key(key@),
            },
    {
        proof {
            use_type_invariant(self);
        }
        let (at, found) = Self::position(&self.entries, key);
        if found {
            proof {
                lemma_pairs_map_at(pairs_of(self.entries@), at as int);
            }
            Some(&self.entries[at].1)
        } else {
            None
        }
    }

    /// Records `value` under `key`, and gives back what was recorded there before.
    pub fn insert(&mut self, key: String, value: String) -> (old_value: Option<String>)
        ensures
            final(self)@ == old(self)@.insert(key@, value@),
            match old_value {
                Some(text) => old(self)@.contains_key(key@) && text@ == old(self)@[key@],
                None => !old(self)@.contains_key(key@),
            },
    {
        proof {
            use_type_invariant(&*self);
        }
        let ghost before = pairs_of(self.entries@);
        let ghost name = key@;
        let ghost text = value@;
        let mut entries: Vec<(String, String)> = Vec::new();
        std::mem::swap(&mut entries, &mut self.entries);
        let (at, found) = Self::position(&entries, key.as_str());
        let mut old_value: Option<String> = None;
        if found {
            let entry = entries.remove(at);
            old_value = Some(entry.1);
            proof {
                lemma_pairs_map_at(before, at as int);
            }
        }
        let ghost trimmed = entries@;
        entries.insert(at, (key, value));
        proof {
            let after = pairs_of(entries@);
            assert(after[at as int] == (name, text));
            assert forall|i: int, j: int|
                #![trigger after[i], after[j]]
                0 <= i < j < after.len() implies key_le(after[i].0, after[j].0) && after[i].0
                != after[j].0 by {
                let k = if i < at || found { i } else { i - 1 };
                let l = if j < at || found { j } else { j - 1 };
                if i != at {
                    assert(after[i] == before[k]);
                }
                if j != at {
                    assert(after[j] == before[l]);
                }
                if i == at {
                    assert(key_le(name, before[l].0));
                    if found {
                        assert(before[at as int].0 != before[l].0);
                    }
                } else if j == at {
                    assert(key_le(before[k].0, name));
                } else {
                    assert(before[k].0 != before[l].0);
                }
            }
            assert forall|other: Seq<char>| #[trigger]
                pairs_map(after).contains_key(other) == pairs_map(before).insert(
                    name,
                    text,
                ).contains_key(other) by {
                if lists(before, other) {
                    let i = choose|i: int|
                        0 <= i < before.len() && (#[trigger] before[i]).0 == other;
                    let k = if i < at || found { i } else { i + 1 };
                    assert(after[k].0 == other);
                }
                if lists(after, other) {
                    let i = choose|i: int| 0 <= i < after.len() && (#[trigger] after[i]).0 == other;
                    let k = if i < at || found { i } else { i - 1 };
                    if i != at {
                        assert(before[k].0 == other);
                    }
                }
                if other == name {
                    assert(after[at as int].0 == name);
                }
            }
            assert forall|other: Seq<char>|
                pairs_map(after).contains_key(other) implies #[trigger] pairs_map(after)[other]
                == pairs_map(before).insert(name, text)[other] by {
                let i = choose|i: int| 0 <= i < after.len() && (#[trigger] after[i]).0 == other;
                lemma_pairs_map_at(after, i);
                if i != at {
                    let k = if i < at || found { i } else { i - 1 };
                    assert(after[i] == before[k]);
                    lemma_pairs_map_at(before, k);
                    if other == name {
                        assert(after[at as int].0 == name);
                    }
                }
            }
            assert(pairs_map(after) =~= pairs_map(before).insert(name, text));
        }
        self.entries = entries;
        old_value
    }

    /// The names and their checksums, in the order of the names.
    pub fn entries(&self) -> (entries: &Vec<(String, String)>)
        ensures
            listed_by_name(pairs_of(entries@)),
            pairs_map(pairs_of(entries@)) == self@,
    {
        proof {
            use_type_invariant(self);
        }
        &self.entries
    }
}

impl Clone for Checksums {
    fn clone(&self) -> (copy: Checksums)
        ensures
            copy@ == self@,
    {
        proof {
            use_type_invariant(self);
        }
        let mut entries: Vec<(String, String)> = Vec::new();
        let mut i: usize = 0;
        while i < self.entries.len()
            invariant
                i <= self.entries@.len(),
                pairs_of(entries@) == pairs_of(self.entries@).take(i as int),
            decreases self.entries@.len() - i,
        {
            let ghost done = pairs_of(entries@);
            entries.push((self.entries[i].0.clone(), self.entries[i].1.clone()));
            proof {
                let entry = self.entries@[i as int];
                assert(pairs_of(entries@) =~= done.push((entry.0@, entry.1@)));
                assert(pairs_of(self.entries@).take(i + 1) =~= done.push((entry.0@, entry.1@)));
            }
            i += 1;
        }
        assert(pairs_of(entries@) =~= pairs_of(self.entries@));
        Checksums { entries }
    }
}

/// What a snapshot holds: a checksum for each of its outputs.
#[derive(Debug)]
pub struct SnapshotManifest {
    pub checksums: Checksums,
}

impl Clone for SnapshotManifest {
    fn clone(&self) -> (copy: SnapshotManifest)
        ensures
            copy.checksums@ == self.checksums@,
    {
        SnapshotManifest { checksums: self.checksums.clone() }
    }
}

/// A list by name stands for its pairs and for no others, and each name in it comes, byte by byte,
/// before the names after it.
pub proof fn law_list_stands_for_its_pairs(pairs: Seq<(Seq<char>, Seq<char>)>)
    requires
        listed_by_name(pairs),
    ensures
        forall|key: Seq<char>, value: Seq<char>|
            #![trigger pairs_map(pairs).contains_pair(key, value)]
            pairs_map(pairs).contains_pair(key, value) <==> pairs.contains((key, value)),
        forall|i: int, j: int|
            #![trigger pairs[i], pairs[j]]
            0 <= i < j < pairs.len() ==> crate::names::precedes(
                encode_utf8(pairs[i].0),
                encode_utf8(pairs[j].0),
            ),
{
    assert forall|key: Seq<char>, value: Seq<char>|
        #![trigger pairs_map(pairs).contains_pair(key, value)]
        pairs_map(pairs).contains_pair(key, value) <==> pairs.contains((key, value)) by {
        if pairs.contains((key, value)) {
            let i = choose|i: int| 0 <= i < pairs.len() && pairs[i] == (key, value);
            lemma_pairs_map_at(pairs, i);
        }
        if pairs_map(pairs).contains_pair(key, value) {
            let i = choose|i: int| 0 <= i < pairs.len() && (#[trigger] pairs[i]).0 == key;
            lemma_pairs_map_at(pairs, i);
            assert(pairs[i] == (key, value));
        }
    }
    assert forall|i: int, j: int|
        #![trigger pairs[i], pairs[j]]
        0 <= i < j < pairs.len() implies crate::names::precedes(
        encode_utf8(pairs[i].0),
        encode_utf8(pairs[j].0),
    ) by {
        let a = pairs[i].0;
        let b = pairs[j].0;
        assert(key_le(a, b) && a != b);
        crate::names::law_byte_order_is_lexicographic(encode_utf8(a), encode_utf8(b));
        vstd::utf8::encode_utf8_decode_utf8(a);
        vstd::utf8::encode_utf8_decode_utf8(b);
    }
}

/// A list of named checksums is seen pair by pair, each text with all of its characters.
pub proof fn law_pairs_are_seen_whole(entries: Seq<(String, String)>)
    ensures
        pairs_of(entries).len() == entries.len(),
        forall|i: int|
            0 <= i < entries.len() ==> (#[trigger] pairs_of(entries)[i]).0 == entries[i].0@
                && pairs_of(entries)[i].1 == entries[i].1@,
{
}

} // verus!
