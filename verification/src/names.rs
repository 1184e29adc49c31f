//! File names as bytes, and the order in which a directory is read.
use vstd::prelude::*;
use vstd::relations::{sorted_by, total_ordering};
use vstd::seq_lib::{lemma_sorted_unique, to_multiset_build, to_multiset_insert};

verus! {

/// One component of a path, in the bytes the platform encodes it in.
pub type Name = Vec<u8>;

/// The byte strings that a list of names stands for.
pub open spec fn names_of(names: Seq<Name>) -> Seq<Seq<u8>> {
    names.map_values(|name: Name| name@)
}

/// The lexicographic order on byte strings: the one in which paths of one directory are sorted.
pub open spec fn bytes_le(a: Seq<u8>, b: Seq<u8>) -> bool
    decreases a.len(),
{
    if a.len() == 0 {
        true
    } else if b.len() == 0 {
        false
    } else if a[0] != b[0] {
        a[0] < b[0]
    } else {
        bytes_le(a.skip(1), b.skip(1))
    }
}

/// [`bytes_le`] as a relation.
pub open spec fn byte_order() -> spec_fn(Seq<u8>, Seq<u8>) -> bool {
    |a: Seq<u8>, b: Seq<u8>| bytes_le(a, b)
}

/// The names of a directory in the order in which its checksum reads them.
pub open spec fn in_order(names: Set<Seq<u8>>) -> Seq<Seq<u8>> {
    names.to_sorted_seq(byte_order())
}

proof fn lemma_bytes_le_reflexive(a: Seq<u8>)
    ensures
        bytes_le(a, a),
    decreases a.len(),
{
    if a.len() > 0 {
        lemma_bytes_le_reflexive(a.skip(1));
    }
}

proof fn lemma_bytes_le_total(a: Seq<u8>, b: Seq<u8>)
    ensures
        bytes_le(a, b) || bytes_le(b, a),
    decreases a.len(),
{
    if a.len() > 0 && b.len() > 0 && a[0] == b[0] {
        lemma_bytes_le_total(a.skip(1), b.skip(1));
    }
}

proof fn lemma_bytes_le_antisymmetric(a: Seq<u8>, b: Seq<u8>)
    requires
        bytes_le(a, b),
        bytes_le(b, a),
    ensures
        a == b,
    decreases a.len(),
{
    if a.len() == 0 || b.len() == 0 {
        assert(a =~= b);
    } else {
        lemma_bytes_le_antisymmetric(a.skip(1), b.skip(1));
        assert(a =~= seq![a[0]] + a.skip(1));
        assert(b =~= seq![b[0]] + b.skip(1));
    }
}

proof fn lemma_bytes_le_transitive(a: Seq<u8>, b: Seq<u8>, c: Seq<u8>)
    requires
        bytes_le(a, b),
        bytes_le(b, c),
    ensures
        bytes_le(a, c),
    decreases a.len(),
{
    if a.len() > 0 && b.len() > 0 && c.len() > 0 && a[0] == b[0] && b[0] == c[0] {
        lemma_bytes_le_transitive(a.skip(1), b.skip(1), c.skip(1));
    }
}

/// The byte order is total: any two names are ordered, and only equal names both ways.
pub proof fn lemma_byte_order_total()
    ensures
        total_ordering(byte_order()),
{
    let le = byte_order();
    assert forall|a: Seq<u8>| #[trigger] le(a, a) by {
        lemma_bytes_le_reflexive(a);
    }
    assert forall|a: Seq<u8>, b: Seq<u8>| #[trigger] le(a, b) && #[trigger] le(b, a) implies a
        == b by {
        lemma_bytes_le_antisymmetric(a, b);
    }
    assert forall|a: Seq<u8>, b: Seq<u8>, c: Seq<u8>| #[trigger]
        le(a, b) && #[trigger] le(b, c) implies le(a, c) by {
        lemma_bytes_le_transitive(a, b, c);
    }
    assert forall|a: Seq<u8>, b: Seq<u8>| #[trigger] le(a, b) || #[trigger] le(b, a) by {
        lemma_bytes_le_total(a, b);
    }
}

/// Whether `a` comes before `b`, or is equal to it.
pub fn name_le(a: &[u8], b: &[u8]) -> (le: bool)
    ensures
        le == bytes_le(a@, b@),
{
    let mut i: usize = 0;
    assert(a@.skip(0) =~= a@);
    assert(b@.skip(0) =~= b@);
    while i < a.len()
        invariant
            i <= a@.len(),
            i <= b@.len(),
            bytes_le(a@, b@) == bytes_le(a@.skip(i as int), b@.skip(i as int)),
        decreases a@.len() - i,
    {
        if i == b.len() {
            return false;
        }
        if a[i] != b[i] {
            return a[i] < b[i];
        }
        assert(a@.skip(i as int).skip(1) =~= a@.skip(i + 1));
        assert(b@.skip(i as int).skip(1) =~= b@.skip(i + 1));
        i += 1;
    }
    true
}

/// Where `name` goes in `sorted`: after every name that is not greater, before the rest.
fn insertion_point(sorted: &Vec<Name>, name: &Name) -> (at: usize)
    requires
        sorted_by(names_of(sorted@), byte_order()),
    ensures
        at <= sorted@.len(),
        forall|i: int| 0 <= i < at ==> #[trigger] bytes_le(sorted@[i]@, name@),
        forall|i: int| at <= i < sorted@.len() ==> #[trigger] bytes_le(name@, sorted@[i]@),
{
    let mut low: usize = 0;
    let mut high: usize = sorted.len();
    while low < high
        invariant
            low <= high <= sorted@.len(),
            sorted_by(names_of(sorted@), byte_order()),
            forall|i: int| 0 <= i < low ==> #[trigger] bytes_le(sorted@[i]@, name@),
            forall|i: int| high <= i < sorted@.len() ==> #[trigger] bytes_le(name@, sorted@[i]@),
        decreases high - low,
    {
        let mid: usize = low + (high - low) / 2;
        let le = name_le(sorted[mid].as_slice(), name.as_slice());
        proof {
            let names = names_of(sorted@);
            let order = byte_order();
            if le {
                assert forall|i: int| 0 <= i < mid + 1 implies #[trigger] bytes_le(
                    sorted@[i]@,
                    name@,
                ) by {
                    if i < mid {
                        assert(order(names[i], names[mid as int]));
                        lemma_bytes_le_transitive(sorted@[i]@, sorted@[mid as int]@, name@);
                    }
                }
            } else {
                lemma_bytes_le_total(sorted@[mid as int]@, name@);
                assert forall|i: int| mid <= i < sorted@.len() implies #[trigger] bytes_le(
                    name@,
                    sorted@[i]@,
                ) by {
                    if mid < i {
                        assert(order(names[mid as int], names[i]));
                        lemma_bytes_le_transitive(name@, sorted@[mid as int]@, sorted@[i]@);
                    }
                }
            }
        }
        if le {
            low = mid + 1;
        } else {
            high = mid;
        }
    }
    low
}

/// The names of a listing in byte order.
pub fn sort_names(names: Vec<Name>) -> (sorted: Vec<Name>)
    ensures
        names_of(sorted@) == names_of(names@).sort_by(byte_order()),
{
    broadcast use vstd::seq_lib::group_to_multiset_ensures;

    let mut rest = names;
    let mut sorted: Vec<Name> = Vec::new();
    assert(names_of(sorted@) =~= Seq::<Seq<u8>>::empty());
    assert(names_of(sorted@).to_multiset() =~= vstd::multiset::Multiset::empty());
    assert(names_of(names@).to_multiset() =~= names_of(rest@).to_multiset().add(
        names_of(sorted@).to_multiset(),
    ));
    while rest.len() > 0
        invariant
            sorted_by(names_of(sorted@), byte_order()),
            names_of(names@).to_multiset() == names_of(rest@).to_multiset().add(
                names_of(sorted@).to_multiset(),
            ),
        decreases rest@.len(),
    {
        let ghost before = names_of(rest@);
        let ghost done = names_of(sorted@);
        match rest.pop() {
            Some(name) => {
                let at = insertion_point(&sorted, &name);
                let ghost value = name@;
                sorted.insert(at, name);
                proof {
                    let after = names_of(rest@);
                    assert(before =~= after.push(value));
                    assert(names_of(sorted@) =~= done.insert(at as int, value));
                    to_multiset_build(after, value);
                    to_multiset_insert(done, at as int, value);
                    assert(after.to_multiset().insert(value).add(done.to_multiset())
                        =~= after.to_multiset().add(done.to_multiset().insert(value)));
                    assert forall|i: int, j: int| 0 <= i < j < sorted@.len() implies #[trigger]
                        byte_order()(names_of(sorted@)[i], names_of(sorted@)[j]) by {
                        let order = byte_order();
                        let k = if i < at { i } else { i - 1 };
                        let l = if j < at { j } else { j - 1 };
                        if i != at && j != at {
                            assert(order(done[k], done[l]));
                        }
                    }
                }
            },
            None => {},
        }
    }
    proof {
        assert(names_of(rest@).to_multiset() =~= vstd::multiset::Multiset::empty());
        assert(names_of(names@).to_multiset() =~= names_of(sorted@).to_multiset());
        lemma_byte_order_total();
        names_of(names@).lemma_sort_by_ensures(byte_order());
        lemma_sorted_unique(
            names_of(sorted@),
            names_of(names@).sort_by(byte_order()),
            byte_order(),
        );
    }
    sorted
}

/// However a directory is enumerated, sorting the enumeration gives its names in order.
pub proof fn lemma_enumeration_in_order(listing: Seq<Seq<u8>>, names: Set<Seq<u8>>)
    requires
        listing.no_duplicates(),
        listing.to_set() == names,
    ensures
        listing.sort_by(byte_order()) == in_order(names),
        in_order(names).no_duplicates(),
        in_order(names).to_set() == names,
{
    broadcast use vstd::seq_lib::group_to_multiset_ensures;
    broadcast use vstd::seq_lib::seq_to_set_is_finite;

    assert(names.finite());
    let other = names.to_seq();
    lemma_set_to_seq(names);
    lemma_byte_order_total();
    lemma_same_set_same_multiset(listing, other);
    listing.lemma_sort_by_ensures(byte_order());
    other.lemma_sort_by_ensures(byte_order());
    lemma_sorted_unique(
        listing.sort_by(byte_order()),
        other.sort_by(byte_order()),
        byte_order(),
    );
    let sorted = in_order(names);
    other.lemma_multiset_has_no_duplicates();
    sorted.lemma_multiset_has_no_duplicates_conv();
    assert forall|name: Seq<u8>| sorted.to_set().contains(name) <==> names.contains(name) by {
        assert(sorted.contains(name) <==> sorted.to_multiset().count(name) > 0);
        assert(other.contains(name) <==> other.to_multiset().count(name) > 0);
        assert(other.to_set().contains(name) <==> other.contains(name));
    }
    assert(sorted.to_set() =~= names);
}

/// [`in_order`] lists every name of a finite set, once.
pub proof fn lemma_in_order(names: Set<Seq<u8>>)
    requires
        names.finite(),
    ensures
        in_order(names).no_duplicates(),
        in_order(names).to_set() == names,
{
    lemma_set_to_seq(names);
    lemma_enumeration_in_order(names.to_seq(), names);
}

proof fn lemma_set_to_seq(names: Set<Seq<u8>>)
    requires
        names.finite(),
    ensures
        names.to_seq().no_duplicates(),
        names.to_seq().to_set() == names,
    decreases names.len(),
{
    broadcast use vstd::set_lib::group_set_properties;

    names.lemma_to_seq_to_set_id();
    if names.len() > 0 {
        let first = names.choose();
        lemma_set_to_seq(names.remove(first));
        let rest = names.remove(first).to_seq();
        assert(!rest.contains(first)) by {
            assert(!rest.to_set().contains(first));
        }
        assert(names.to_seq() =~= seq![first] + rest);
    }
}

proof fn lemma_same_set_same_multiset(a: Seq<Seq<u8>>, b: Seq<Seq<u8>>)
    requires
        a.no_duplicates(),
        b.no_duplicates(),
        a.to_set() == b.to_set(),
    ensures
        a.to_multiset() == b.to_multiset(),
{
    broadcast use vstd::seq_lib::group_to_multiset_ensures;

    a.lemma_multiset_has_no_duplicates();
    b.lemma_multiset_has_no_duplicates();
    assert forall|x: Seq<u8>| a.to_multiset().count(x) == b.to_multiset().count(x) by {
        assert(a.to_set().contains(x) <==> a.contains(x));
        assert(b.to_set().contains(x) <==> b.contains(x));
        assert(a.contains(x) <==> a.to_multiset().count(x) > 0);
        assert(b.contains(x) <==> b.to_multiset().count(x) > 0);
    }
    assert(a.to_multiset() =~= b.to_multiset());
}

/// `a` comes before `b` in byte order: it is a beginning of `b`, or it has the smaller byte where
/// the two first differ.
pub open spec fn precedes(a: Seq<u8>, b: Seq<u8>) -> bool {
    a != b && (a.is_prefix_of(b) || exists|i: int|
        0 <= i < a.len() && i < b.len() && a.take(i) == b.take(i) && #[trigger] a[i] < b[i])
}

proof fn lemma_first_difference(a: Seq<u8>, b: Seq<u8>, i: int)
    requires
        0 <= i < a.len(),
        i < b.len(),
        a.take(i) == b.take(i),
        a[i] < b[i],
    ensures
        bytes_le(a, b),
        !bytes_le(b, a),
    decreases a.len(),
{
    if i > 0 {
        assert(a[0] == a.take(i)[0] && b[0] == b.take(i)[0]);
        assert(a.skip(1).take(i - 1) =~= a.take(i).skip(1));
        assert(b.skip(1).take(i - 1) =~= b.take(i).skip(1));
        lemma_first_difference(a.skip(1), b.skip(1), i - 1);
    }
}

proof fn lemma_beginning(a: Seq<u8>, b: Seq<u8>)
    requires
        a.is_prefix_of(b),
    ensures
        bytes_le(a, b),
    decreases a.len(),
{
    if a.len() > 0 {
        assert(a[0] == b[0]);
        assert(a.skip(1) =~= b.skip(1).take(a.len() - 1));
        lemma_beginning(a.skip(1), b.skip(1));
    }
}

/// Two names that differ have a first byte in which they do, or one is a beginning of the other.
proof fn lemma_one_precedes(a: Seq<u8>, b: Seq<u8>)
    requires
        a != b,
    ensures
        precedes(a, b) || precedes(b, a),
    decreases a.len(),
{
    if a.len() == 0 {
        assert(a =~= b.take(0));
    } else if b.len() == 0 {
        assert(b =~= a.take(0));
    } else if a[0] != b[0] {
        assert(a.take(0) =~= b.take(0));
    } else {
        let a1 = a.skip(1);
        let b1 = b.skip(1);
        assert(a1 != b1) by {
            if a1 == b1 {
                assert(a =~= seq![a[0]] + a1);
                assert(b =~= seq![b[0]] + b1);
            }
        }
        lemma_one_precedes(a1, b1);
        if precedes(a1, b1) {
            lemma_precedes_behind(a, b);
        } else {
            lemma_precedes_behind(b, a);
        }
    }
}

proof fn lemma_precedes_behind(a: Seq<u8>, b: Seq<u8>)
    requires
        a.len() > 0,
        b.len() > 0,
        a[0] == b[0],
        precedes(a.skip(1), b.skip(1)),
    ensures
        precedes(a, b),
{
    let a1 = a.skip(1);
    let b1 = b.skip(1);
    if a1.is_prefix_of(b1) {
        assert(a =~= b.take(a.len() as int)) by {
            assert forall|i: int| 0 <= i < a.len() implies a[i] == b[i] by {
                if i > 0 {
                    assert(a1[i - 1] == b1[i - 1]);
                }
            }
        }
    } else {
        let i = choose|i: int|
            0 <= i < a1.len() && i < b1.len() && a1.take(i) == b1.take(i) && #[trigger] a1[i]
                < b1[i];
        assert(a.take(i + 1) =~= b.take(i + 1)) by {
            assert forall|j: int| 0 <= j < i + 1 implies a[j] == b[j] by {
                if j > 0 {
                    assert(a1.take(i)[j - 1] == b1.take(i)[j - 1]);
                }
            }
        }
        assert(a[i + 1] < b[i + 1]);
    }
}

/// The order on names is the lexicographic one, byte by byte: a name is not after another exactly
/// where the two are equal or it comes before the other.
pub proof fn law_byte_order_is_lexicographic(a: Seq<u8>, b: Seq<u8>)
    ensures
        bytes_le(a, b) <==> a == b || precedes(a, b),
{
    if a == b {
        lemma_bytes_le_reflexive(a);
    } else if precedes(a, b) {
        lemma_precedes_le(a, b);
    } else {
        lemma_one_precedes(a, b);
        lemma_precedes_le(b, a);
        if bytes_le(a, b) {
            lemma_bytes_le_antisymmetric(a, b);
        }
    }
}

proof fn lemma_precedes_le(a: Seq<u8>, b: Seq<u8>)
    requires
        precedes(a, b),
    ensures
        bytes_le(a, b),
{
    if a.is_prefix_of(b) {
        lemma_beginning(a, b);
    } else {
        let i = choose|i: int|
            0 <= i < a.len() && i < b.len() && a.take(i) == b.take(i) && #[trigger] a[i] < b[i];
        lemma_first_difference(a, b, i);
    }
}

/// The names of a directory are read each once, and every name comes before the ones that are read
/// after it.
pub proof fn law_names_in_order(names: Set<Seq<u8>>)
    requires
        names.finite(),
    ensures
        in_order(names).no_duplicates(),
        in_order(names).to_set() == names,
        forall|i: int, j: int|
            #![trigger in_order(names)[i], in_order(names)[j]]
            0 <= i < j < in_order(names).len() ==> precedes(
                in_order(names)[i],
                in_order(names)[j],
            ),
{
    let order = in_order(names);
    lemma_in_order(names);
    lemma_byte_order_total();
    names.to_seq().lemma_sort_by_ensures(byte_order());
    assert forall|i: int, j: int|
        #![trigger order[i], order[j]]
        0 <= i < j < order.len() implies precedes(order[i], order[j]) by {
        assert(byte_order()(order[i], order[j]));
        law_byte_order_is_lexicographic(order[i], order[j]);
    }
}

/// A sorted listing has the names of the listing, each as often, and no name before one that comes
/// before it.
pub proof fn law_sorted_listing(listing: Seq<Seq<u8>>)
    ensures
        ({
            let sorted = listing.sort_by(byte_order());
            &&& sorted.to_multiset() == listing.to_multiset()
            &&& forall|i: int, j: int|
                #![trigger sorted[i], sorted[j]]
                0 <= i < j < sorted.len() ==> sorted[i] == sorted[j] || precedes(
                    sorted[i],
                    sorted[j],
                )
        }),
{
    let sorted = listing.sort_by(byte_order());
    lemma_byte_order_total();
    listing.lemma_sort_by_ensures(byte_order());
    assert forall|i: int, j: int|
        #![trigger sorted[i], sorted[j]]
        0 <= i < j < sorted.len() implies sorted[i] == sorted[j] || precedes(
        sorted[i],
        sorted[j],
    ) by {
        assert(byte_order()(sorted[i], sorted[j]));
        law_byte_order_is_lexicographic(sorted[i], sorted[j]);
    }
}

/// A list of names is seen name by name, each with all of its bytes.
pub proof fn law_names_are_seen_whole(names: Seq<Name>)
    ensures
        names_of(names).len() == names.len(),
        forall|i: int| 0 <= i < names.len() ==> #[trigger] names_of(names)[i] == names[i]@,
{
}

} // verus!
