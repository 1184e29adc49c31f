//! What a copied directory has to do with the one it was copied from.
use vstd::prelude::*;

use crate::copy::{CopyPhaseView, CopyView};
use crate::io::{ReplyView, Spot};
use crate::tree::{Disk, Leaf, Node};
use crate::world::{Machine, World};

verus! {

/// How many replies the copy of one entry takes.
pub open spec fn entry_cost(node: Node) -> nat
    decreases node, 0nat,
{
    match node {
        Node::Dir(inner) => {
            if inner.dom().finite() {
                4 + copy_cost(inner, crate::names::in_order(inner.dom()))
            } else {
                0
            }
        },
        _ => 2,
    }
}

/// How many replies the copy of `names` of a directory takes.
pub open spec fn copy_cost(entries: Map<Seq<u8>, Node>, names: Seq<Seq<u8>>) -> nat
    decreases entries, names.len(),
{
    if names.len() == 0 {
        0
    } else if entries.dom().finite() && entries.dom().contains(names[0]) {
        entry_cost(entries[names[0]]) + copy_cost(entries, names.skip(1))
    } else {
        copy_cost(entries, names.skip(1))
    }
}

/// The cost of a set of entries, in whatever order they come.
spec fn set_cost(entries: Map<Seq<u8>, Node>, names: Set<Seq<u8>>) -> nat {
    copy_cost(entries, crate::names::in_order(names))
}

/// One name can be counted first.
proof fn lemma_cost_remove(entries: Map<Seq<u8>, Node>, names: Seq<Seq<u8>>, i: int)
    requires
        entries.dom().finite(),
        0 <= i < names.len(),
        entries.dom().contains(names[i]),
    ensures
        copy_cost(entries, names) == entry_cost(entries[names[i]]) + copy_cost(
            entries,
            names.remove(i),
        ),
    decreases names.len(),
{
    if i == 0 {
        assert(names.remove(0) =~= names.skip(1));
    } else {
        lemma_cost_remove(entries, names.skip(1), i - 1);
        assert(names.remove(i).skip(1) =~= names.skip(1).remove(i - 1));
        assert(names.remove(i)[0] == names[0]);
    }
}

/// The order of the names makes no difference to the cost.
proof fn lemma_cost_any_order(
    entries: Map<Seq<u8>, Node>,
    one: Seq<Seq<u8>>,
    other: Seq<Seq<u8>>,
)
    requires
        entries.dom().finite(),
        one.no_duplicates(),
        other.no_duplicates(),
        one.to_set() == other.to_set(),
        one.to_set().subset_of(entries.dom()),
    ensures
        copy_cost(entries, one) == copy_cost(entries, other),
    decreases one.len(),
{
    if one.len() == 0 {
        if other.len() > 0 {
            assert(other.to_set().contains(other[0]));
            assert(one.to_set().contains(other[0]));
            assert(false);
        }
    } else {
        let name = one[0];
        assert(one.to_set().contains(name));
        assert(other.to_set().contains(name));
        let i = choose|i: int| 0 <= i < other.len() && other[i] == name;
        lemma_cost_remove(entries, other, i);
        let rest = one.skip(1);
        let left = other.remove(i);
        assert forall|n: Seq<u8>| rest.to_set().contains(n) <==> left.to_set().contains(n) by {
            if rest.contains(n) {
                let j = choose|j: int| 0 <= j < rest.len() && rest[j] == n;
                assert(one[j + 1] == n);
                assert(one.to_set().contains(n));
                assert(other.to_set().contains(n));
                let k = choose|k: int| 0 <= k < other.len() && other[k] == n;
                assert(k != i);
                assert(left[if k < i { k } else { k - 1 }] == n);
            }
            if left.contains(n) {
                let k = choose|k: int| 0 <= k < left.len() && left[k] == n;
                let j = if k < i { k } else { k + 1 };
                assert(other[j] == n);
                assert(other.to_set().contains(n));
                assert(one.to_set().contains(n));
                let l = choose|l: int| 0 <= l < one.len() && one[l] == n;
                assert(l != 0);
                assert(rest[l - 1] == n);
            }
        }
        assert(rest.to_set() =~= left.to_set());
        assert forall|n: Seq<u8>| rest.to_set().contains(n) implies entries.dom().contains(n) by {
            let j = choose|j: int| 0 <= j < rest.len() && rest[j] == n;
            assert(one[j + 1] == n);
            assert(one.to_set().contains(n));
        }
        lemma_cost_any_order(entries, rest, left);
    }
}

/// An entry more costs what the entry costs.
proof fn lemma_set_cost_remove(
    entries: Map<Seq<u8>, Node>,
    names: Set<Seq<u8>>,
    name: Seq<u8>,
)
    requires
        entries.dom().finite(),
        names.subset_of(entries.dom()),
        names.contains(name),
    ensures
        set_cost(entries, names) == entry_cost(entries[name]) + set_cost(
            entries,
            names.remove(name),
        ),
{
    vstd::set_lib::lemma_set_subset_finite(entries.dom(), names);
    crate::names::lemma_in_order(names);
    crate::names::lemma_in_order(names.remove(name));
    let rest = crate::names::in_order(names.remove(name));
    let listed = seq![name] + rest;
    assert(!rest.to_set().contains(name));
    assert(!rest.contains(name));
    assert(listed.no_duplicates());
    assert forall|n: Seq<u8>| listed.to_set().contains(n) <==> names.contains(n) by {
        if names.contains(n) {
            if n == name {
                assert(listed[0] == n);
            } else {
                assert(rest.to_set().contains(n));
                let k = choose|k: int| 0 <= k < rest.len() && rest[k] == n;
                assert(listed[k + 1] == n);
            }
        }
        if listed.contains(n) {
            let k = choose|k: int| 0 <= k < listed.len() && listed[k] == n;
            if k > 0 {
                assert(rest[k - 1] == n);
                assert(rest.to_set().contains(n));
            }
        }
    }
    assert(listed.to_set() =~= names);
    lemma_cost_any_order(entries, crate::names::in_order(names), listed);
    assert(listed.skip(1) =~= rest);
}

/// The entries `names` of a directory, put into the directory `to`.
spec fn placed(
    disk: Disk,
    to: Spot,
    entries: Map<Seq<u8>, Node>,
    names: Set<Seq<u8>>,
) -> Disk {
    Map::new(
        |s: Spot| disk.dom().contains(s) || replaced(to, entries, names, s),
        |s: Spot|
            if replaced(to, entries, names, s) {
                crate::tree::at(Node::Dir(entries), crate::tree::way(to, s))->0
            } else {
                disk[s]
            },
    )
}

/// `s` lies in the directory `to`, and one of the entries `names` has something for it.
spec fn replaced(
    to: Spot,
    entries: Map<Seq<u8>, Node>,
    names: Set<Seq<u8>>,
    s: Spot,
) -> bool {
    &&& crate::tree::within(to, s)
    &&& s.1.len() > to.1.len()
    &&& names.contains(s.1[to.1.len() as int])
    &&& crate::tree::at(Node::Dir(entries), crate::tree::way(to, s)) is Some
}

/// Disks on which the same is found everywhere are the same.
proof fn lemma_same_disk(one: Disk, other: Disk)
    requires
        forall|s: Spot| #[trigger]
            crate::tree::found(one, s) == crate::tree::found(other, s),
    ensures
        one == other,
{
    assert forall|s: Spot| one.dom().contains(s) <==> other.dom().contains(s) by {
        assert(crate::tree::found(one, s) == crate::tree::found(other, s));
    }
    assert forall|s: Spot| one.dom().contains(s) implies one[s] == other[s] by {
        assert(crate::tree::found(one, s) == crate::tree::found(other, s));
    }
    assert(one =~= other);
}

/// What an entry of a directory has below `name`, seen from the directory.
proof fn lemma_at_entry(
    to: Spot,
    entries: Map<Seq<u8>, Node>,
    name: Seq<u8>,
    s: Spot,
)
    requires
        entries.dom().contains(name),
        crate::tree::within(to, s),
        s.1.len() > to.1.len(),
        s.1[to.1.len() as int] == name,
    ensures
        crate::tree::within(crate::tree::child(to, name), s),
        crate::tree::at(Node::Dir(entries), crate::tree::way(to, s)) == crate::tree::at(
            entries[name],
            crate::tree::way(crate::tree::child(to, name), s),
        ),
{
    let inside = crate::tree::child(to, name);
    assert(inside.1 =~= s.1.take(inside.1.len() as int));
    assert(crate::tree::way(to, s).skip(1) =~= crate::tree::way(inside, s));
}

/// To copy a file is to place it.
proof fn lemma_placed_file(
    disk: Disk,
    to: Spot,
    entries: Map<Seq<u8>, Node>,
    name: Seq<u8>,
    bytes: Seq<u8>,
)
    requires
        entries.dom().contains(name),
        entries[name] == Node::File(bytes),
    ensures
        disk.insert(crate::tree::child(to, name), Leaf::File(bytes)) == placed(
            disk,
            to,
            entries,
            set![name],
        ),
{
    let inside = crate::tree::child(to, name);
    let one = disk.insert(inside, Leaf::File(bytes));
    let other = placed(disk, to, entries, set![name]);
    assert forall|s: Spot| #[trigger]
        crate::tree::found(one, s) == crate::tree::found(other, s) by {
        if crate::tree::within(to, s) && s.1.len() > to.1.len() && s.1[to.1.len() as int] == name {
            lemma_at_entry(to, entries, name, s);
            let way = crate::tree::way(inside, s);
            if way.len() == 0 {
                assert(s.1 =~= inside.1);
            }
        } else {
            assert(s != inside) by {
                assert(to.1.is_prefix_of(inside.1)) by {
                    assert(inside.1.take(to.1.len() as int) =~= to.1);
                }
            }
        }
    }
    lemma_same_disk(one, other);
}

/// To make a directory and to place all entries in it is to place the directory.
proof fn lemma_placed_dir(
    disk: Disk,
    to: Spot,
    entries: Map<Seq<u8>, Node>,
    name: Seq<u8>,
    inner: Map<Seq<u8>, Node>,
)
    requires
        entries.dom().contains(name),
        entries[name] == Node::Dir(inner),
        crate::tree::with_dirs(disk, to) == disk,
    ensures
        placed(
            crate::tree::with_dirs(disk, crate::tree::child(to, name)),
            crate::tree::child(to, name),
            inner,
            inner.dom(),
        ) == placed(disk, to, entries, set![name]),
{
    let inside = crate::tree::child(to, name);
    let made = crate::tree::with_dirs(disk, inside);
    let one = placed(made, inside, inner, inner.dom());
    let other = placed(disk, to, entries, set![name]);
    assert(inside.1.take(to.1.len() as int) =~= to.1);
    assert forall|s: Spot| #[trigger]
        crate::tree::found(one, s) == crate::tree::found(other, s) by {
        if crate::tree::within(to, s) && s.1.len() > to.1.len() && s.1[to.1.len() as int] == name {
            lemma_at_entry(to, entries, name, s);
            let way = crate::tree::way(inside, s);
            if way.len() == 0 {
                assert(s.1 =~= inside.1);
            } else {
                assert(s.1[inside.1.len() as int] == way[0]);
            }
        } else {
            assert(!crate::tree::within(inside, s)) by {
                if crate::tree::within(inside, s) {
                    assert(s.1[to.1.len() as int] == inside.1[to.1.len() as int]);
                    assert(s.1.take(to.1.len() as int) =~= to.1);
                }
            }
            if crate::tree::within(s, inside) {
                assert(s.1.len() < inside.1.len()) by {
                    if s.1.len() >= inside.1.len() {
                        assert(s.1 =~= inside.1);
                    }
                }
                assert(s.1 =~= to.1.take(s.1.len() as int));
                assert(crate::tree::within(s, to));
                assert(crate::tree::found(crate::tree::with_dirs(disk, to), s) == Some(Leaf::Dir));
            }
        }
    }
    lemma_same_disk(one, other);
}

/// Entries can be placed one after the other.
proof fn lemma_placed_more(
    disk: Disk,
    to: Spot,
    entries: Map<Seq<u8>, Node>,
    name: Seq<u8>,
    names: Set<Seq<u8>>,
)
    requires
        names.contains(name),
    ensures
        placed(placed(disk, to, entries, set![name]), to, entries, names.remove(name)) == placed(
            disk,
            to,
            entries,
            names,
        ),
{
    let first = placed(disk, to, entries, set![name]);
    let one = placed(first, to, entries, names.remove(name));
    let other = placed(disk, to, entries, names);
    assert forall|s: Spot| #[trigger]
        crate::tree::found(one, s) == crate::tree::found(other, s) by {
        assert(replaced(to, entries, names, s) <==> replaced(to, entries, set![name], s)
            || replaced(to, entries, names.remove(name), s));
    }
    lemma_same_disk(one, other);
}

/// To place nothing changes nothing.
proof fn lemma_placed_none(disk: Disk, to: Spot, entries: Map<Seq<u8>, Node>)
    ensures
        placed(disk, to, entries, Set::empty()) == disk,
{
    let one = placed(disk, to, entries, Set::empty());
    assert forall|s: Spot| #[trigger]
        crate::tree::found(one, s) == crate::tree::found(disk, s) by {
        assert(!replaced(to, entries, Set::empty(), s));
    }
    lemma_same_disk(one, disk);
}

/// To place all entries in a directory is to graft the tree.
proof fn lemma_placed_all(disk: Disk, to: Spot, entries: Map<Seq<u8>, Node>)
    requires
        crate::tree::with_dirs(disk, to) == disk,
    ensures
        placed(disk, to, entries, entries.dom()) == crate::tree::grafted(
            disk,
            to,
            Node::Dir(entries),
        ),
{
    let one = placed(disk, to, entries, entries.dom());
    let other = crate::tree::grafted(disk, to, Node::Dir(entries));
    assert forall|s: Spot| #[trigger]
        crate::tree::found(one, s) == crate::tree::found(other, s) by {
        if crate::tree::within(to, s) {
            let way = crate::tree::way(to, s);
            if way.len() == 0 {
                assert(s.1 =~= to.1);
                assert(crate::tree::within(s, to));
                assert(crate::tree::found(crate::tree::with_dirs(disk, to), s) == Some(Leaf::Dir));
            } else {
                assert(way[0] == s.1[to.1.len() as int]);
            }
        }
    }
    lemma_same_disk(one, other);
}

/// What lies below one of two paths that are apart has nothing to do with the other.
proof fn lemma_apart_below(from: Spot, to: Spot, path: Seq<Seq<u8>>)
    requires
        crate::tree::apart(from, to),
    ensures
        crate::tree::apart(crate::tree::below(from, path), to),
{
    let s = crate::tree::below(from, path);
    if crate::tree::within(to, s) {
        if to.1.len() <= from.1.len() {
            assert(to.1 =~= from.1.take(to.1.len() as int));
        } else {
            assert(from.1 =~= to.1.take(from.1.len() as int));
        }
    }
    if crate::tree::within(s, to) {
        assert(from.1 =~= to.1.take(from.1.len() as int));
    }
}

proof fn lemma_apart_children(from: Spot, to: Spot, name: Seq<u8>)
    requires
        crate::tree::apart(from, to),
    ensures
        crate::tree::apart(crate::tree::child(from, name), crate::tree::child(to, name)),
{
    let from1 = crate::tree::child(from, name);
    let to1 = crate::tree::child(to, name);
    lemma_apart_below(from, to, seq![name]);
    assert(crate::tree::below(from, seq![name]).1 =~= from1.1);
    lemma_apart_below(to, from1, seq![name]);
    assert(crate::tree::below(to, seq![name]).1 =~= to1.1);
}

/// What placing entries in `to` leaves alone.
proof fn lemma_placed_elsewhere(
    disk: Disk,
    to: Spot,
    entries: Map<Seq<u8>, Node>,
    names: Set<Seq<u8>>,
    from: Spot,
    node: Node,
)
    requires
        crate::tree::apart(from, to),
        crate::tree::holds(disk, from, node),
        crate::tree::with_dirs(disk, to) == disk,
    ensures
        crate::tree::holds(placed(disk, to, entries, names), from, node),
        crate::tree::with_dirs(placed(disk, to, entries, names), to) == placed(
            disk,
            to,
            entries,
            names,
        ),
{
    let after = placed(disk, to, entries, names);
    assert forall|path: Seq<Seq<u8>>| #[trigger]
        crate::tree::found(after, crate::tree::below(from, path)) == crate::tree::at(
            node,
            path,
        ) by {
        let s = crate::tree::below(from, path);
        lemma_apart_below(from, to, path);
        assert(!replaced(to, entries, names, s));
        assert(crate::tree::found(disk, s) == crate::tree::at(node, path));
    }
    let again = crate::tree::with_dirs(after, to);
    assert forall|s: Spot| #[trigger]
        crate::tree::found(again, s) == crate::tree::found(after, s) by {
        if crate::tree::within(s, to) {
            assert(!replaced(to, entries, names, s));
            assert(crate::tree::found(crate::tree::with_dirs(disk, to), s) == Some(Leaf::Dir));
        }
    }
    lemma_same_disk(again, after);
}

/// What making the directory `to` leaves alone.
proof fn lemma_made_elsewhere(disk: Disk, to: Spot, from: Spot, node: Node)
    requires
        crate::tree::apart(from, to),
        crate::tree::holds(disk, from, node),
    ensures
        crate::tree::holds(crate::tree::with_dirs(disk, to), from, node),
        crate::tree::with_dirs(crate::tree::with_dirs(disk, to), to) == crate::tree::with_dirs(
            disk,
            to,
        ),
{
    let after = crate::tree::with_dirs(disk, to);
    assert forall|path: Seq<Seq<u8>>| #[trigger]
        crate::tree::found(after, crate::tree::below(from, path)) == crate::tree::at(
            node,
            path,
        ) by {
        let s = crate::tree::below(from, path);
        lemma_apart_below(from, to, path);
        assert(crate::tree::found(disk, s) == crate::tree::at(node, path));
    }
    let again = crate::tree::with_dirs(after, to);
    assert forall|s: Spot| #[trigger]
        crate::tree::found(again, s) == crate::tree::found(after, s) by {}
    lemma_same_disk(again, after);
}

/// A job that takes the entries of `from` one by one.
spec fn walking(from: Spot, to: Spot, depth: nat) -> CopyView {
    CopyView::Active { from, to, depth, phase: CopyPhaseView::Walking }
}

/// From the first to the last of the entries that a walk has not come to yet.
proof fn lemma_copy_names(
    from: Spot,
    to: Spot,
    depth: nat,
    entries: Map<Seq<u8>, Node>,
    replies: Seq<ReplyView>,
    worlds: Seq<World>,
)
    requires
        crate::tree::apart(from, to),
        crate::tree::plain_tree(Node::Dir(entries)),
        crate::world::served(walking(from, to, depth), replies, worlds),
        crate::tree::holds(worlds[0].disk, from, Node::Dir(entries)),
        crate::tree::with_dirs(worlds[0].disk, to) == worlds[0].disk,
        worlds[0].walks.len() > 0,
        worlds[0].walks.last().subset_of(entries.dom()),
    ensures
        ({
            let left = worlds[0].walks.last();
            let cost = set_cost(entries, left) as int;
            let job = walking(from, to, depth);
            &&& crate::world::reaches(job, replies, worlds, cost, job)
            &&& replies.len() >= cost ==> {
                &&& worlds[cost].disk == placed(worlds[0].disk, to, entries, left)
                &&& worlds[cost].walks == worlds[0].walks.drop_last().push(Set::empty())
            }
        }),
    decreases entries, worlds[0].walks.last().len(),
{
    let left = worlds[0].walks.last();
    let disk = worlds[0].disk;
    let outer = worlds[0].walks.drop_last();
    let cost = set_cost(entries, left) as int;
    let job = walking(from, to, depth);
    vstd::set_lib::lemma_set_subset_finite(entries.dom(), left);
    assert(outer.push(left) =~= worlds[0].walks);
    if left.len() == 0 {
        assert(left =~= Set::empty());
        crate::names::lemma_in_order(left);
        assert(crate::names::in_order(left).len() == 0) by {
            let order = crate::names::in_order(left);
            if order.len() > 0 {
                assert(order.to_set().contains(order[0]));
            }
        }
        crate::world::lemma_reaches_itself(job, replies, worlds);
        lemma_placed_none(disk, to, entries);
    } else {
        crate::world::lemma_reaches_next(job, replies, worlds);
        let next = job.step(replies[0]);
        let replies1 = replies.skip(1);
        let worlds1 = worlds.skip(1);
        if replies.len() == 0 {
            let any = left.choose();
            assert(left.contains(any));
            lemma_set_cost_remove(entries, left, any);
            assert(crate::tree::plain_tree(entries[any]));
            assert(cost > 0);
            crate::world::lemma_reaches_later(job, replies, worlds, cost, job);
        } else {
            if replies[0] is EndOfDir {
                assert(left.contains(left.choose()));
                assert(false);
            }
            let name = replies[0]->Entry_name;
            let is_dir = replies[0]->Entry_is_dir;
            assert(left.contains(name));
            lemma_set_cost_remove(entries, left, name);
            let cost_rest = set_cost(entries, left.remove(name)) as int;
            crate::checksum_laws::lemma_holds_entry(disk, from, entries, name);
            assert(crate::tree::plain_tree(entries[name]));
            let from1 = crate::tree::child(from, name);
            let to1 = crate::tree::child(to, name);
            let walks1 = outer.push(left.remove(name));
            assert(worlds1[0].walks == walks1);
            assert(walks1.last() == left.remove(name));
            assert(walks1.drop_last() =~= outer);
            lemma_placed_elsewhere(disk, to, entries, set![name], from, Node::Dir(entries));
            lemma_placed_more(disk, to, entries, name, left);
            match entries[name] {
                Node::File(bytes) => {
                    crate::world::lemma_reaches_next(next, replies1, worlds1);
                    let replies2 = replies1.skip(1);
                    let worlds2 = worlds1.skip(1);
                    if replies1.len() > 0 {
                        lemma_placed_file(disk, to, entries, name, bytes);
                        lemma_copy_names(from, to, depth, entries, replies2, worlds2);
                    }
                    crate::world::lemma_reaches_through(
                        next,
                        replies1,
                        worlds1,
                        1,
                        next.step(replies1[0]),
                        cost_rest,
                        job,
                    );
                    crate::world::lemma_reaches_through(
                        job,
                        replies,
                        worlds,
                        1,
                        next,
                        1 + cost_rest,
                        job,
                    );
                },
                Node::Dir(inner) => {
                    lemma_apart_children(from, to, name);
                    lemma_copy_dir(from1, to1, depth + 1, inner, replies1, worlds1);
                    let cost_inner = 3 + set_cost(inner, inner.dom()) as int;
                    assert(from.1.push(name).drop_last() =~= from.1);
                    assert(to.1.push(name).drop_last() =~= to.1);
                    lemma_placed_dir(disk, to, entries, name, inner);
                    if replies1.len() >= cost_inner {
                        let replies2 = replies1.skip(cost_inner);
                        let worlds2 = worlds1.skip(cost_inner);
                        crate::world::lemma_reaches_rest(next, replies1, worlds1, cost_inner, job);
                        lemma_copy_names(from, to, depth, entries, replies2, worlds2);
                    }
                    crate::world::lemma_reaches_through(
                        next,
                        replies1,
                        worlds1,
                        cost_inner,
                        job,
                        cost_rest,
                        job,
                    );
                    crate::world::lemma_reaches_through(
                        job,
                        replies,
                        worlds,
                        1,
                        next,
                        cost_inner + cost_rest,
                        job,
                    );
                },
                Node::Other => {},
            }
        }
    }
}

/// A directory below the top, from its creation to the end of its walk.
proof fn lemma_copy_dir(
    from: Spot,
    to: Spot,
    depth: nat,
    entries: Map<Seq<u8>, Node>,
    replies: Seq<ReplyView>,
    worlds: Seq<World>,
)
    requires
        crate::tree::apart(from, to),
        crate::tree::plain_tree(Node::Dir(entries)),
        crate::world::served(
            CopyView::Active { from, to, depth, phase: CopyPhaseView::Creating },
            replies,
            worlds,
        ),
        crate::tree::holds(worlds[0].disk, from, Node::Dir(entries)),
    ensures
        ({
            let job = CopyView::Active { from, to, depth, phase: CopyPhaseView::Creating };
            let cost = 3 + set_cost(entries, entries.dom()) as int;
            &&& crate::world::reaches(
                job,
                replies,
                worlds,
                cost,
                walking(from, to, depth).step(ReplyView::EndOfDir),
            )
            &&& replies.len() >= cost ==> {
                &&& worlds[cost].disk == placed(
                    crate::tree::with_dirs(worlds[0].disk, to),
                    to,
                    entries,
                    entries.dom(),
                )
                &&& worlds[cost].walks == worlds[0].walks
            }
        }),
    decreases entries, entries.dom().len() + 1,
{
    let job = CopyView::Active { from, to, depth, phase: CopyPhaseView::Creating };
    let opening = CopyView::Active { from, to, depth, phase: CopyPhaseView::Opening };
    let walk = walking(from, to, depth);
    let end = walk.step(ReplyView::EndOfDir);
    let cost = set_cost(entries, entries.dom()) as int;
    let disk = worlds[0].disk;
    crate::world::lemma_reaches_next(job, replies, worlds);
    let replies1 = replies.skip(1);
    let worlds1 = worlds.skip(1);
    if replies.len() > 0 {
        assert(job.step(replies[0]) == opening);
        lemma_made_elsewhere(disk, to, from, Node::Dir(entries));
        crate::world::lemma_reaches_next(opening, replies1, worlds1);
        let replies2 = replies1.skip(1);
        let worlds2 = worlds1.skip(1);
        if replies1.len() > 0 {
            assert(opening.step(replies1[0]) == walk);
            crate::checksum_laws::lemma_holds_dir(worlds1[0].disk, from, entries);
            lemma_copy_names(from, to, depth, entries, replies2, worlds2);
            let replies3 = replies2.skip(cost);
            let worlds3 = worlds2.skip(cost);
            if replies2.len() >= cost {
                crate::world::lemma_reaches_rest(walk, replies2, worlds2, cost, walk);
                crate::world::lemma_reaches_next(walk, replies3, worlds3);
                if replies3.len() > 0 {
                    assert(worlds3[0].walks.last() == Set::<Seq<u8>>::empty());
                    assert(replies3[0] is EndOfDir);
                    assert(worlds3[1].walks =~= worlds[0].walks);
                } else {
                    crate::world::lemma_reaches_later(walk, replies3, worlds3, 1, end);
                }
            }
            crate::world::lemma_reaches_through(walk, replies2, worlds2, cost, walk, 1, end);
        }
        crate::world::lemma_reaches_through(
            opening,
            replies1,
            worlds1,
            1,
            opening.step(replies1[0]),
            cost + 1,
            end,
        );
    }
    crate::world::lemma_reaches_through(
        job,
        replies,
        worlds,
        1,
        job.step(replies[0]),
        cost + 2,
        end,
    );
}

/// Onto a place where nothing is in the way, the tree arrives as it is.
proof fn lemma_graft_fresh(disk: Disk, to: Spot, node: Node)
    requires
        node is Dir,
        forall|s: Spot| #[trigger]
            disk.dom().contains(s) && crate::tree::within(to, s) ==> s == to,
    ensures
        crate::tree::holds(
            crate::tree::grafted(crate::tree::with_dirs(disk, to), to, node),
            to,
            node,
        ),
{
    let after = crate::tree::grafted(crate::tree::with_dirs(disk, to), to, node);
    assert forall|path: Seq<Seq<u8>>| #[trigger]
        crate::tree::found(after, crate::tree::below(to, path)) == crate::tree::at(
            node,
            path,
        ) by {
        let s = crate::tree::below(to, path);
        assert(s.1.take(to.1.len() as int) =~= to.1);
        assert(crate::tree::way(to, s) =~= path);
        if crate::tree::at(node, path) is None {
            assert(path.len() > 0);
            assert(s != to);
            assert(!crate::tree::within(s, to));
        }
    }
}

/// A walk that still has to come to an entry of which some part is neither file nor directory does
/// not come to its end.
proof fn lemma_names_stuck(
    from: Spot,
    to: Spot,
    depth: nat,
    entries: Map<Seq<u8>, Node>,
    bad: Seq<u8>,
    replies: Seq<ReplyView>,
    worlds: Seq<World>,
)
    requires
        crate::tree::apart(from, to),
        crate::tree::finite_tree(Node::Dir(entries)),
        crate::world::served(walking(from, to, depth), replies, worlds),
        crate::tree::holds(worlds[0].disk, from, Node::Dir(entries)),
        crate::tree::with_dirs(worlds[0].disk, to) == worlds[0].disk,
        worlds[0].walks.len() > 0,
        worlds[0].walks.last().subset_of(entries.dom()),
        worlds[0].walks.last().contains(bad),
        !crate::tree::plain_tree(entries[bad]),
    ensures
        crate::world::run(walking(from, to, depth), replies).request() is Some,
    decreases entries, worlds[0].walks.last().len(),
{
    let left = worlds[0].walks.last();
    let disk = worlds[0].disk;
    let outer = worlds[0].walks.drop_last();
    let job = walking(from, to, depth);
    vstd::set_lib::lemma_set_subset_finite(entries.dom(), left);
    if replies.len() > 0 {
        crate::world::lemma_reaches_next(job, replies, worlds);
        let next = job.step(replies[0]);
        let replies1 = replies.skip(1);
        let worlds1 = worlds.skip(1);
        assert(crate::world::run(job, replies) == crate::world::run(next, replies1));
        assert(!(replies[0] is EndOfDir));
        let name = replies[0]->Entry_name;
        assert(left.contains(name));
        crate::checksum_laws::lemma_holds_entry(disk, from, entries, name);
        assert(crate::tree::finite_tree(entries[name]));
        let from1 = crate::tree::child(from, name);
        let to1 = crate::tree::child(to, name);
        let walks1 = outer.push(left.remove(name));
        assert(worlds1[0].walks == walks1);
        assert(walks1.last() == left.remove(name));
        lemma_placed_elsewhere(disk, to, entries, set![name], from, Node::Dir(entries));
        match entries[name] {
            Node::File(bytes) => {
                assert(next.request() is Some);
                if replies1.len() > 0 {
                    crate::world::lemma_reaches_next(next, replies1, worlds1);
                    assert(crate::world::run(next, replies1) == crate::world::run(
                        job,
                        replies1.skip(1),
                    ));
                    lemma_placed_file(disk, to, entries, name, bytes);
                    lemma_names_stuck(
                        from,
                        to,
                        depth,
                        entries,
                        bad,
                        replies1.skip(1),
                        worlds1.skip(1),
                    );
                }
            },
            Node::Dir(inner) => {
                lemma_apart_children(from, to, name);
                if crate::tree::plain_tree(Node::Dir(inner)) {
                    lemma_copy_dir(from1, to1, depth + 1, inner, replies1, worlds1);
                    let cost = 3 + set_cost(inner, inner.dom()) as int;
                    assert(from.1.push(name).drop_last() =~= from.1);
                    assert(to.1.push(name).drop_last() =~= to.1);
                    lemma_placed_dir(disk, to, entries, name, inner);
                    crate::world::lemma_reaches_rest(next, replies1, worlds1, cost, job);
                    if replies1.len() >= cost {
                        lemma_names_stuck(
                            from,
                            to,
                            depth,
                            entries,
                            bad,
                            replies1.skip(cost),
                            worlds1.skip(cost),
                        );
                    }
                } else {
                    lemma_dir_stuck(from1, to1, depth + 1, inner, replies1, worlds1);
                }
            },
            Node::Other => {
                assert(next.request() is Some);
                if replies1.len() > 0 {
                    crate::world::lemma_reaches_next(next, replies1, worlds1);
                    assert(false);
                }
                assert(crate::world::run(next, replies1) == next);
            },
        }
    }
}

/// The copy of a directory of which some part is neither file nor directory does not come to its
/// end.
proof fn lemma_dir_stuck(
    from: Spot,
    to: Spot,
    depth: nat,
    entries: Map<Seq<u8>, Node>,
    replies: Seq<ReplyView>,
    worlds: Seq<World>,
)
    requires
        crate::tree::apart(from, to),
        crate::tree::finite_tree(Node::Dir(entries)),
        !crate::tree::plain_tree(Node::Dir(entries)),
        crate::world::served(
            CopyView::Active { from, to, depth, phase: CopyPhaseView::Creating },
            replies,
            worlds,
        ),
        crate::tree::holds(worlds[0].disk, from, Node::Dir(entries)),
    ensures
        crate::world::run(
            CopyView::Active { from, to, depth, phase: CopyPhaseView::Creating },
            replies,
        ).request() is Some,
    decreases entries, entries.dom().len() + 1,
{
    let job = CopyView::Active { from, to, depth, phase: CopyPhaseView::Creating };
    let opening = CopyView::Active { from, to, depth, phase: CopyPhaseView::Opening };
    let bad = choose|name: Seq<u8>| #[trigger]
        entries.dom().contains(name) && !crate::tree::plain_tree(entries[name]);
    assert(entries.dom().contains(bad) && !crate::tree::plain_tree(entries[bad]));
    if replies.len() > 0 {
        crate::world::lemma_reaches_next(job, replies, worlds);
        let replies1 = replies.skip(1);
        let worlds1 = worlds.skip(1);
        assert(job.step(replies[0]) == opening);
        assert(crate::world::run(job, replies) == crate::world::run(opening, replies1));
        lemma_made_elsewhere(worlds[0].disk, to, from, Node::Dir(entries));
        if replies1.len() > 0 {
            crate::world::lemma_reaches_next(opening, replies1, worlds1);
            assert(opening.step(replies1[0]) == walking(from, to, depth));
            assert(crate::world::run(opening, replies1) == crate::world::run(
                walking(from, to, depth),
                replies1.skip(1),
            ));
            crate::checksum_laws::lemma_holds_dir(worlds1[0].disk, from, entries);
            lemma_names_stuck(
                from,
                to,
                depth,
                entries,
                bad,
                replies1.skip(1),
                worlds1.skip(1),
            );
        }
    }
}

/// On a faultless file system, the copy of a directory of files and directories ends after a
/// number of replies that the tree alone determines. Where some part of the tree is neither file
/// nor directory the copy does not end without a failure. If it ends, it has succeeded, and the
/// tree stands at `to`: every file has the same bytes. What was there under other names, and
/// everything elsewhere, is as it was; so is the directory that was copied.
pub proof fn law_copy_of_tree(
    from: Spot,
    to: Spot,
    entries: Map<Seq<u8>, Node>,
    replies: Seq<ReplyView>,
    worlds: Seq<World>,
)
    requires
        crate::tree::apart(from, to),
        crate::tree::finite_tree(Node::Dir(entries)),
        crate::world::served(crate::copy::copy_start(from, to), replies, worlds),
        crate::tree::holds(worlds[0].disk, from, Node::Dir(entries)),
    ensures
        ({
            let end = crate::world::run(crate::copy::copy_start(from, to), replies);
            let cost = 3 + copy_cost(entries, crate::names::in_order(entries.dom()));
            let plain = crate::tree::plain_tree(Node::Dir(entries));
            &&& plain ==> replies.len() <= cost
            &&& end.request() is None <==> plain && replies.len() == cost
            &&& end.request() is None ==> {
                &&& end == CopyView::Finished(Ok(()))
                &&& worlds.last().disk == crate::tree::grafted(
                    crate::tree::with_dirs(worlds[0].disk, to),
                    to,
                    Node::Dir(entries),
                )
                &&& worlds.last().walks == worlds[0].walks
                &&& crate::tree::holds(worlds.last().disk, from, Node::Dir(entries))
            }
        }),
{
    let job = crate::copy::copy_start(from, to);
    let cost = 3 + set_cost(entries, entries.dom()) as int;
    let end = CopyView::Finished(Ok(()));
    let disk = worlds[0].disk;
    let made = crate::tree::with_dirs(disk, to);
    if crate::tree::plain_tree(Node::Dir(entries)) {
        lemma_copy_dir(from, to, 0, entries, replies, worlds);
        crate::world::lemma_reaches_end(job, replies, worlds, cost, end);
        lemma_made_elsewhere(disk, to, from, Node::Dir(entries));
        lemma_placed_all(made, to, entries);
        lemma_placed_elsewhere(made, to, entries, entries.dom(), from, Node::Dir(entries));
    } else {
        lemma_dir_stuck(from, to, 0, entries, replies, worlds);
    }
}

/// The copy of a directory to a place that is empty, or is not there yet, is identical to the
/// directory: the same names, the same kinds, the same bytes, and nothing besides. There is
/// nothing in it that is neither file nor directory.
pub proof fn law_copy_is_identical(
    from: Spot,
    to: Spot,
    entries: Map<Seq<u8>, Node>,
    replies: Seq<ReplyView>,
    worlds: Seq<World>,
)
    requires
        crate::tree::apart(from, to),
        crate::tree::finite_tree(Node::Dir(entries)),
        crate::world::served(crate::copy::copy_start(from, to), replies, worlds),
        crate::tree::holds(worlds[0].disk, from, Node::Dir(entries)),
        forall|s: Spot| #[trigger]
            worlds[0].disk.dom().contains(s) && crate::tree::within(to, s) ==> s == to,
        crate::world::run(crate::copy::copy_start(from, to), replies).request() is None,
    ensures
        crate::tree::plain_tree(Node::Dir(entries)),
        crate::world::run(crate::copy::copy_start(from, to), replies) == CopyView::Finished(
            Ok(()),
        ),
        crate::tree::holds(worlds.last().disk, to, Node::Dir(entries)),
        crate::tree::holds(worlds.last().disk, from, Node::Dir(entries)),
{
    law_copy_of_tree(from, to, entries, replies, worlds);
    lemma_graft_fresh(worlds[0].disk, to, Node::Dir(entries));
}

/// A copy can go on with whatever a faultless file system answers it.
pub proof fn law_copy_accepts_replies(
    job: CopyView,
    before: World,
    reply: ReplyView,
    after: World,
)
    requires
        job.request() is Some,
        crate::world::serves(before, job.request()->0, reply, after),
    ensures
        crate::copy::copy_accepts(job, reply),
{
}

/// Nothing at `to` is in the way of the tree: where the tree has a directory there is a directory
/// or nothing, and where it has a file there is no directory.
pub open spec fn unobstructed(disk: Disk, to: Spot, node: Node) -> bool {
    forall|path: Seq<Seq<u8>>|
        #![trigger crate::tree::found(disk, crate::tree::below(to, path))]
        match crate::tree::at(node, path) {
            Some(Leaf::Dir) => crate::tree::found(disk, crate::tree::below(to, path)) is None
                || crate::tree::found(disk, crate::tree::below(to, path)) == Some(Leaf::Dir),
            Some(Leaf::File(_)) => crate::tree::found(disk, crate::tree::below(to, path)) != Some(
                Leaf::Dir,
            ),
            _ => true,
        }
}

/// Everything that there is on the way to `to`, and there itself, is a directory.
pub open spec fn clear_way(disk: Disk, to: Spot) -> bool {
    forall|s: Spot| #[trigger]
        disk.dom().contains(s) && crate::tree::within(s, to) ==> disk[s] == Leaf::Dir
}

proof fn lemma_unobstructed_top(disk: Disk, to: Spot, node: Node)
    requires
        unobstructed(disk, to, node),
    ensures
        node is Dir ==> crate::tree::found(disk, to) is None || crate::tree::found(disk, to)
            == Some(Leaf::Dir),
        node is File ==> crate::tree::found(disk, to) != Some(Leaf::Dir),
{
    let none = Seq::<Seq<u8>>::empty();
    assert(crate::tree::below(to, none).1 =~= to.1);
    assert(crate::tree::found(disk, crate::tree::below(to, none)) == crate::tree::found(disk, to));
    assert(crate::tree::at(node, none) == Some(crate::tree::top(node)));
}

/// What is not in the way of a directory is not in the way of its entries, also once the directory
/// has been made.
proof fn lemma_unobstructed_entry(
    disk: Disk,
    to: Spot,
    entries: Map<Seq<u8>, Node>,
    name: Seq<u8>,
)
    requires
        unobstructed(disk, to, Node::Dir(entries)),
        entries.dom().contains(name),
    ensures
        unobstructed(
            crate::tree::with_dirs(disk, to),
            crate::tree::child(to, name),
            entries[name],
        ),
{
    let inside = crate::tree::child(to, name);
    let made = crate::tree::with_dirs(disk, to);
    assert forall|path: Seq<Seq<u8>>|
        #![trigger crate::tree::found(made, crate::tree::below(inside, path))]
        match crate::tree::at(entries[name], path) {
            Some(Leaf::Dir) => crate::tree::found(made, crate::tree::below(inside, path)) is None
                || crate::tree::found(made, crate::tree::below(inside, path)) == Some(Leaf::Dir),
            Some(Leaf::File(_)) => crate::tree::found(made, crate::tree::below(inside, path))
                != Some(Leaf::Dir),
            _ => true,
        } by {
        let whole = seq![name] + path;
        let s = crate::tree::below(inside, path);
        assert(s.1 =~= crate::tree::below(to, whole).1);
        assert(whole.skip(1) =~= path);
        assert(crate::tree::at(Node::Dir(entries), whole) == crate::tree::at(entries[name], path));
        assert(s.1.len() > to.1.len());
        assert(!crate::tree::within(s, to));
        assert(crate::tree::found(made, s) == crate::tree::found(
            disk,
            crate::tree::below(to, whole),
        ));
    }
}

/// To place one entry puts nothing in the way of another.
proof fn lemma_unobstructed_beside(
    disk: Disk,
    to: Spot,
    entries: Map<Seq<u8>, Node>,
    name: Seq<u8>,
    other: Seq<u8>,
)
    requires
        name != other,
        unobstructed(disk, crate::tree::child(to, other), entries[other]),
    ensures
        unobstructed(
            placed(disk, to, entries, set![name]),
            crate::tree::child(to, other),
            entries[other],
        ),
{
    let inside = crate::tree::child(to, other);
    let after = placed(disk, to, entries, set![name]);
    assert forall|path: Seq<Seq<u8>>| #[trigger]
        crate::tree::found(after, crate::tree::below(inside, path)) == crate::tree::found(
            disk,
            crate::tree::below(inside, path),
        ) by {
        let s = crate::tree::below(inside, path);
        assert(s.1[to.1.len() as int] == other);
        assert(!replaced(to, entries, set![name], s));
    }
}

proof fn lemma_no_names_no_cost(entries: Map<Seq<u8>, Node>)
    ensures
        set_cost(entries, Set::empty()) == 0,
{
    let none = Set::<Seq<u8>>::empty();
    crate::names::lemma_in_order(none);
    let order = crate::names::in_order(none);
    if order.len() > 0 {
        assert(order.to_set().contains(order[0]));
    }
}

/// A walk that has not come to its end can go on.
proof fn lemma_names_go_on(
    from: Spot,
    to: Spot,
    depth: nat,
    entries: Map<Seq<u8>, Node>,
    replies: Seq<ReplyView>,
    worlds: Seq<World>,
)
    requires
        crate::tree::apart(from, to),
        crate::tree::plain_tree(Node::Dir(entries)),
        crate::world::served(walking(from, to, depth), replies, worlds),
        crate::tree::holds(worlds[0].disk, from, Node::Dir(entries)),
        crate::tree::with_dirs(worlds[0].disk, to) == worlds[0].disk,
        worlds[0].walks.len() > 0,
        worlds[0].walks.last().subset_of(entries.dom()),
        forall|name: Seq<u8>| #[trigger]
            worlds[0].walks.last().contains(name) ==> unobstructed(
                worlds[0].disk,
                crate::tree::child(to, name),
                entries[name],
            ),
    ensures
        replies.len() < set_cost(entries, worlds[0].walks.last()) ==> crate::world::can_go_on(
            crate::world::run(walking(from, to, depth), replies),
            worlds.last(),
        ),
    decreases entries, worlds[0].walks.last().len(),
{
    let left = worlds[0].walks.last();
    let disk = worlds[0].disk;
    let outer = worlds[0].walks.drop_last();
    let job = walking(from, to, depth);
    let last = crate::world::run(job, replies);
    vstd::set_lib::lemma_set_subset_finite(entries.dom(), left);
    if left.len() == 0 {
        assert(left =~= Set::empty());
        lemma_no_names_no_cost(entries);
    } else if replies.len() == 0 {
        let name = left.choose();
        assert(left.contains(name));
        let is_dir = crate::world::kind(
            crate::tree::found(disk, crate::tree::child(from, name)),
        ) == crate::io::NodeKind::Dir;
        let after = World { disk, walks: outer.push(left.remove(name)) };
        assert(crate::world::serves(
            worlds.last(),
            last.request()->0,
            ReplyView::Entry { name, is_dir },
            after,
        ));
    } else {
        crate::world::lemma_reaches_next(job, replies, worlds);
        let next = job.step(replies[0]);
        let replies1 = replies.skip(1);
        let worlds1 = worlds.skip(1);
        assert(last == crate::world::run(next, replies1));
        assert(worlds1.last() == worlds.last());
        if replies[0] is EndOfDir {
            assert(left.contains(left.choose()));
            assert(false);
        }
        let name = replies[0]->Entry_name;
        assert(left.contains(name));
        lemma_set_cost_remove(entries, left, name);
        crate::checksum_laws::lemma_holds_entry(disk, from, entries, name);
        assert(crate::tree::plain_tree(entries[name]));
        let from1 = crate::tree::child(from, name);
        let to1 = crate::tree::child(to, name);
        let walks1 = outer.push(left.remove(name));
        assert(worlds1[0].walks == walks1);
        assert(walks1.last() == left.remove(name));
        assert(walks1.drop_last() =~= outer);
        assert(unobstructed(disk, to1, entries[name]));
        lemma_unobstructed_top(disk, to1, entries[name]);
        lemma_placed_elsewhere(disk, to, entries, set![name], from, Node::Dir(entries));
        assert forall|n: Seq<u8>| #[trigger] left.remove(name).contains(n) implies unobstructed(
            placed(disk, to, entries, set![name]),
            crate::tree::child(to, n),
            entries[n],
        ) by {
            assert(left.contains(n));
            lemma_unobstructed_beside(disk, to, entries, name, n);
        }
        match entries[name] {
            Node::File(bytes) => {
                if replies1.len() == 0 {
                    assert(last == next);
                    let after = World { disk: disk.insert(to1, disk[from1]), walks: walks1 };
                    assert(crate::world::serves(
                        worlds.last(),
                        last.request()->0,
                        ReplyView::Done,
                        after,
                    ));
                } else {
                    crate::world::lemma_reaches_next(next, replies1, worlds1);
                    let replies2 = replies1.skip(1);
                    let worlds2 = worlds1.skip(1);
                    assert(crate::world::run(next, replies1) == crate::world::run(job, replies2));
                    lemma_placed_file(disk, to, entries, name, bytes);
                    lemma_names_go_on(from, to, depth, entries, replies2, worlds2);
                    assert(worlds2.last() == worlds.last());
                }
            },
            Node::Dir(inner) => {
                lemma_apart_children(from, to, name);
                let cost = 3 + set_cost(inner, inner.dom()) as int;
                assert(clear_way(disk, to1)) by {
                    assert forall|s: Spot| #[trigger]
                        disk.dom().contains(s) && crate::tree::within(s, to1) implies disk[s]
                        == Leaf::Dir by {
                        if s.1.len() == to1.1.len() {
                            assert(s.1 =~= to1.1);
                        } else {
                            assert(s.1 =~= to.1.take(s.1.len() as int));
                            assert(crate::tree::within(s, to));
                            assert(crate::tree::found(crate::tree::with_dirs(disk, to), s)
                                == Some(Leaf::Dir));
                        }
                    }
                }
                lemma_dir_goes_on(from1, to1, depth + 1, inner, replies1, worlds1);
                if replies1.len() >= cost {
                    lemma_copy_dir(from1, to1, depth + 1, inner, replies1, worlds1);
                    assert(from.1.push(name).drop_last() =~= from.1);
                    assert(to.1.push(name).drop_last() =~= to.1);
                    lemma_placed_dir(disk, to, entries, name, inner);
                    crate::world::lemma_reaches_rest(next, replies1, worlds1, cost, job);
                    let replies2 = replies1.skip(cost);
                    let worlds2 = worlds1.skip(cost);
                    lemma_names_go_on(from, to, depth, entries, replies2, worlds2);
                    assert(worlds2.last() == worlds.last());
                }
            },
            Node::Other => {},
        }
    }
}

/// The copy of a directory that has not come to its end can go on.
proof fn lemma_dir_goes_on(
    from: Spot,
    to: Spot,
    depth: nat,
    entries: Map<Seq<u8>, Node>,
    replies: Seq<ReplyView>,
    worlds: Seq<World>,
)
    requires
        crate::tree::apart(from, to),
        crate::tree::plain_tree(Node::Dir(entries)),
        crate::world::served(
            CopyView::Active { from, to, depth, phase: CopyPhaseView::Creating },
            replies,
            worlds,
        ),
        crate::tree::holds(worlds[0].disk, from, Node::Dir(entries)),
        clear_way(worlds[0].disk, to),
        unobstructed(worlds[0].disk, to, Node::Dir(entries)),
    ensures
        replies.len() < 3 + set_cost(entries, entries.dom()) ==> crate::world::can_go_on(
            crate::world::run(
                CopyView::Active { from, to, depth, phase: CopyPhaseView::Creating },
                replies,
            ),
            worlds.last(),
        ),
    decreases entries, entries.dom().len() + 1,
{
    let job = CopyView::Active { from, to, depth, phase: CopyPhaseView::Creating };
    let opening = CopyView::Active { from, to, depth, phase: CopyPhaseView::Opening };
    let walk = walking(from, to, depth);
    let last = crate::world::run(job, replies);
    let cost = set_cost(entries, entries.dom()) as int;
    let disk = worlds[0].disk;
    let made = crate::tree::with_dirs(disk, to);
    if replies.len() == 0 {
        let after = World { disk: made, walks: worlds[0].walks };
        assert(crate::world::serves(
            worlds.last(),
            last.request()->0,
            ReplyView::Done,
            after,
        ));
    } else {
        crate::world::lemma_reaches_next(job, replies, worlds);
        let replies1 = replies.skip(1);
        let worlds1 = worlds.skip(1);
        assert(job.step(replies[0]) == opening);
        assert(last == crate::world::run(opening, replies1));
        assert(worlds1.last() == worlds.last());
        lemma_made_elsewhere(disk, to, from, Node::Dir(entries));
        crate::checksum_laws::lemma_holds_dir(made, from, entries);
        if replies1.len() == 0 {
            let after = World {
                disk: made,
                walks: worlds1[0].walks.push(crate::tree::children(made, from)),
            };
            assert(crate::world::serves(
                worlds.last(),
                last.request()->0,
                ReplyView::Done,
                after,
            ));
        } else {
            crate::world::lemma_reaches_next(opening, replies1, worlds1);
            let replies2 = replies1.skip(1);
            let worlds2 = worlds1.skip(1);
            assert(opening.step(replies1[0]) == walk);
            assert(last == crate::world::run(walk, replies2));
            assert(worlds2.last() == worlds.last());
            assert forall|name: Seq<u8>| #[trigger]
                worlds2[0].walks.last().contains(name) implies unobstructed(
                worlds2[0].disk,
                crate::tree::child(to, name),
                entries[name],
            ) by {
                lemma_unobstructed_entry(disk, to, entries, name);
            }
            lemma_names_go_on(from, to, depth, entries, replies2, worlds2);
            if replies2.len() == cost {
                lemma_copy_names(from, to, depth, entries, replies2, worlds2);
                crate::world::lemma_reaches_rest(walk, replies2, worlds2, cost, walk);
                assert(replies2.skip(cost).len() == 0);
                assert(last == walk);
                let before = worlds2[cost];
                assert(before == worlds.last());
                let after = World { disk: before.disk, walks: before.walks.drop_last() };
                assert(crate::world::serves(
                    worlds.last(),
                    last.request()->0,
                    ReplyView::EndOfDir,
                    after,
                ));
            }
        }
    }
}

/// On a faultless file system the copy of a directory of files and directories never comes to a
/// halt before its end: where nothing is in the way at `to`, the file system can do whatever the
/// copy needs next, at every point of every run.
pub proof fn law_copy_goes_on(
    from: Spot,
    to: Spot,
    entries: Map<Seq<u8>, Node>,
    replies: Seq<ReplyView>,
    worlds: Seq<World>,
)
    requires
        crate::tree::apart(from, to),
        crate::tree::plain_tree(Node::Dir(entries)),
        crate::world::served(crate::copy::copy_start(from, to), replies, worlds),
        crate::tree::holds(worlds[0].disk, from, Node::Dir(entries)),
        clear_way(worlds[0].disk, to),
        unobstructed(worlds[0].disk, to, Node::Dir(entries)),
        crate::world::run(crate::copy::copy_start(from, to), replies).request() is Some,
    ensures
        crate::world::can_go_on(
            crate::world::run(crate::copy::copy_start(from, to), replies),
            worlds.last(),
        ),
{
    crate::snapshot_laws::lemma_plain_is_finite(Node::Dir(entries));
    law_copy_of_tree(from, to, entries, replies, worlds);
    lemma_dir_goes_on(from, to, 0, entries, replies, worlds);
}

/// A directory of files and directories can be copied: where nothing is in the way at `to`, there
/// is a run on a faultless file system in which the copy ends with success, and the tree then
/// stands at `to`.
pub proof fn law_copy_can_succeed(
    from: Spot,
    to: Spot,
    entries: Map<Seq<u8>, Node>,
    world: World,
) -> (done: (Seq<ReplyView>, Seq<World>))
    requires
        crate::tree::apart(from, to),
        crate::tree::plain_tree(Node::Dir(entries)),
        crate::tree::holds(world.disk, from, Node::Dir(entries)),
        clear_way(world.disk, to),
        unobstructed(world.disk, to, Node::Dir(entries)),
    ensures
        crate::world::served(crate::copy::copy_start(from, to), done.0, done.1),
        done.1[0] == world,
        crate::world::run(crate::copy::copy_start(from, to), done.0) == CopyView::Finished(Ok(())),
        forall|path: Seq<Seq<u8>>|
            crate::tree::at(Node::Dir(entries), path) is Some ==> #[trigger] crate::tree::found(
                done.1.last().disk,
                crate::tree::below(to, path),
            ) == crate::tree::at(Node::Dir(entries), path),
{
    let start = crate::copy::copy_start(from, to);
    let cost = 3 + copy_cost(entries, crate::names::in_order(entries.dom()));
    crate::snapshot_laws::lemma_plain_is_finite(Node::Dir(entries));
    assert(crate::world::served(start, Seq::empty(), seq![world]));
    assert forall|r: Seq<ReplyView>, w: Seq<World>| #[trigger]
        crate::world::served(start, r, w) && w[0] == world implies r.len() <= cost && (
    crate::world::run(start, r).request() is Some ==> crate::world::can_go_on(
        crate::world::run(start, r),
        w.last(),
    )) by {
        law_copy_of_tree(from, to, entries, r, w);
        if crate::world::run(start, r).request() is Some {
            law_copy_goes_on(from, to, entries, r, w);
        }
    }
    let done = crate::world::lemma_run_to_the_end(start, Seq::empty(), seq![world], cost);
    law_copy_of_tree(from, to, entries, done.0, done.1);
    assert forall|path: Seq<Seq<u8>>|
        crate::tree::at(Node::Dir(entries), path) is Some implies #[trigger] crate::tree::found(
        done.1.last().disk,
        crate::tree::below(to, path),
    ) == crate::tree::at(Node::Dir(entries), path) by {
        let s = crate::tree::below(to, path);
        assert(s.1.take(to.1.len() as int) =~= to.1);
        assert(crate::tree::way(to, s) =~= path);
    }
    done
}

} // verus!
