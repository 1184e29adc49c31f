//! What the checksum of a directory says about the directory.
use vstd::prelude::*;

use crate::checksum::{FrameView, HashView};
use crate::io::{Area, ReplyView, Spot};
use crate::tree::{Leaf, Node};
use crate::world::{Machine, World};

verus! {

/// How many replies a checksum takes for `names` of a directory.
pub open spec fn hash_cost(entries: Map<Seq<u8>, Node>, names: Seq<Seq<u8>>) -> nat
    decreases entries, names.len(),
{
    if names.len() == 0 {
        0
    } else if entries.dom().finite() && entries.dom().contains(names[0]) {
        let part: nat = match entries[names[0]] {
            Node::File(_) => 2,
            Node::Dir(inner) => 2 + hash_cost(inner, crate::names::in_order(inner.dom())),
            Node::Other => 1,
        };
        part + hash_cost(entries, names.skip(1))
    } else {
        hash_cost(entries, names.skip(1))
    }
}

/// An entry of a directory that the disk holds is held in its place.
pub proof fn lemma_holds_entry(
    disk: crate::tree::Disk,
    spot: Spot,
    entries: Map<Seq<u8>, Node>,
    name: Seq<u8>,
)
    requires
        crate::tree::holds(disk, spot, Node::Dir(entries)),
        entries.dom().contains(name),
    ensures
        crate::tree::holds(disk, crate::tree::child(spot, name), entries[name]),
        crate::tree::found(disk, crate::tree::child(spot, name)) == Some(
            crate::tree::top(entries[name]),
        ),
{
    let inner = crate::tree::child(spot, name);
    assert forall|path: Seq<Seq<u8>>| #[trigger]
        crate::tree::found(disk, crate::tree::below(inner, path)) == crate::tree::at(
            entries[name],
            path,
        ) by {
        let whole = seq![name] + path;
        assert(crate::tree::below(inner, path).1 =~= crate::tree::below(spot, whole).1);
        assert(whole.skip(1) =~= path);
        assert(crate::tree::found(disk, crate::tree::below(spot, whole)) == crate::tree::at(
            Node::Dir(entries),
            whole,
        ));
    }
    let none = Seq::<Seq<u8>>::empty();
    assert(crate::tree::below(inner, none).1 =~= inner.1);
    assert(crate::tree::found(disk, crate::tree::below(inner, none)) == crate::tree::at(
        entries[name],
        none,
    ));
}

/// A directory that the disk holds is there, with the names of its entries and no others.
pub proof fn lemma_holds_dir(
    disk: crate::tree::Disk,
    spot: Spot,
    entries: Map<Seq<u8>, Node>,
)
    requires
        crate::tree::holds(disk, spot, Node::Dir(entries)),
    ensures
        crate::tree::found(disk, spot) == Some(Leaf::Dir),
        crate::tree::children(disk, spot) == entries.dom(),
{
    let none = Seq::<Seq<u8>>::empty();
    assert(crate::tree::below(spot, none).1 =~= spot.1);
    assert(crate::tree::found(disk, crate::tree::below(spot, none)) == crate::tree::at(
        Node::Dir(entries),
        none,
    ));
    assert forall|name: Seq<u8>|
        crate::tree::children(disk, spot).contains(name) <==> entries.dom().contains(name) by {
        let one = seq![name];
        assert(crate::tree::below(spot, one).1 =~= crate::tree::child(spot, name).1);
        assert(one.skip(1) =~= none);
        assert(crate::tree::at(entries[name], none) is Some);
        assert(crate::tree::found(disk, crate::tree::below(spot, one)) == crate::tree::at(
            Node::Dir(entries),
            one,
        ));
    }
    assert(crate::tree::children(disk, spot) =~= entries.dom());
}

/// The frames once the innermost directory's message is complete.
pub open spec fn completed(
    frames: Seq<FrameView>,
    entries: Map<Seq<u8>, Node>,
) -> Seq<FrameView> {
    let last = frames.last();
    frames.drop_last().push(
        FrameView {
            message: last.message + crate::checksum::dir_message(entries, last.pending),
            pending: Seq::empty(),
        },
    )
}

/// The first pending name has been taken.
spec fn taken(frames: Seq<FrameView>) -> Seq<FrameView> {
    let last = frames.last();
    frames.drop_last().push(
        FrameView { message: last.message, pending: last.pending.skip(1) },
    )
}

/// All names in the list are entries of the directory.
spec fn known(entries: Map<Seq<u8>, Node>, names: Seq<Seq<u8>>) -> bool {
    forall|i: int| 0 <= i < names.len() ==> entries.dom().contains(#[trigger] names[i])
}

proof fn lemma_known_order(entries: Map<Seq<u8>, Node>)
    requires
        entries.dom().finite(),
    ensures
        known(entries, crate::names::in_order(entries.dom())),
{
    crate::names::lemma_in_order(entries.dom());
    let order = crate::names::in_order(entries.dom());
    assert forall|i: int| 0 <= i < order.len() implies entries.dom().contains(
        #[trigger] order[i],
    ) by {
        assert(order.to_set().contains(order[i]));
    }
}

/// What the first pending name adds to the message.
proof fn lemma_completed_by(
    frames: Seq<FrameView>,
    entries: Map<Seq<u8>, Node>,
    bytes: Seq<u8>,
)
    requires
        frames.len() > 0,
        frames.last().pending.len() > 0,
        entries.dom().finite(),
        entries.dom().contains(frames.last().pending[0]),
        match entries[frames.last().pending[0]] {
            Node::File(contents) => bytes == contents,
            Node::Dir(inner) => bytes == vstd::utf8::encode_utf8(
                crate::checksum::dir_checksum(inner),
            ),
            Node::Other => bytes == Seq::<u8>::empty(),
        },
    ensures
        completed(crate::checksum::extended(taken(frames), bytes), entries) == completed(
            frames,
            entries,
        ),
{
    let last = frames.last();
    let rest = crate::checksum::dir_message(entries, last.pending.skip(1));
    let after = crate::checksum::extended(taken(frames), bytes);
    assert(taken(frames).drop_last() =~= frames.drop_last());
    assert(after.drop_last() =~= frames.drop_last());
    assert(crate::checksum::dir_message(entries, last.pending) == bytes + rest);
    assert((last.message + bytes) + rest =~= last.message + (bytes + rest));
}

/// A directory inside is complete: its checksum has gone into the message around it.
proof fn lemma_closed(
    area: Area,
    path: Seq<Seq<u8>>,
    name: Seq<u8>,
    frames: Seq<FrameView>,
    inner: Map<Seq<u8>, Node>,
)
    requires
        frames.len() > 0,
    ensures
        ({
            let opened = frames.push(
                FrameView {
                    message: Seq::empty(),
                    pending: crate::names::in_order(inner.dom()),
                },
            );
            crate::checksum::advance(area, path.push(name), completed(opened, inner))
                == crate::checksum::advance(
                area,
                path,
                crate::checksum::extended(
                    frames,
                    vstd::utf8::encode_utf8(crate::checksum::dir_checksum(inner)),
                ),
            )
        }),
{
    let order = crate::names::in_order(inner.dom());
    let opened = frames.push(FrameView { message: Seq::empty(), pending: order });
    let message = crate::checksum::dir_message(inner, order);
    assert(Seq::<u8>::empty() + message =~= message);
    assert(opened.drop_last() =~= frames);
    assert(completed(opened, inner).drop_last() =~= frames);
    assert(path.push(name).drop_last() =~= path);
}

/// From the first to the last of the pending names of the innermost directory.
proof fn lemma_hash_names(
    area: Area,
    path: Seq<Seq<u8>>,
    frames: Seq<FrameView>,
    entries: Map<Seq<u8>, Node>,
    replies: Seq<ReplyView>,
    worlds: Seq<World>,
)
    requires
        frames.len() > 0,
        known(entries, frames.last().pending),
        crate::tree::finite_tree(Node::Dir(entries)),
        crate::world::served(crate::checksum::advance(area, path, frames), replies, worlds),
        crate::tree::holds(worlds[0].disk, (area, path), Node::Dir(entries)),
    ensures
        ({
            let cost = hash_cost(entries, frames.last().pending) as int;
            &&& crate::world::reaches(
                crate::checksum::advance(area, path, frames),
                replies,
                worlds,
                cost,
                crate::checksum::advance(area, path, completed(frames, entries)),
            )
            &&& replies.len() >= cost ==> worlds[cost] == worlds[0]
        }),
    decreases entries, frames.last().pending.len(),
{
    let names = frames.last().pending;
    let start = crate::checksum::advance(area, path, frames);
    let end = crate::checksum::advance(area, path, completed(frames, entries));
    let cost = hash_cost(entries, names) as int;
    if names.len() == 0 {
        crate::world::lemma_reaches_itself(start, replies, worlds);
        assert(completed(frames, entries) =~= frames) by {
            assert(frames.last().message + Seq::<u8>::empty() =~= frames.last().message);
            assert(names =~= Seq::empty());
        }
    } else {
        let name = names[0];
        let inside: Spot = (area, path.push(name));
        assert(entries.dom().contains(names[0]));
        assert(crate::tree::child((area, path), name) == inside);
        lemma_holds_entry(worlds[0].disk, (area, path), entries, name);
        let rest = taken(frames);
        assert(known(entries, rest.last().pending)) by {
            assert(rest.last().pending =~= names.skip(1));
        }
        crate::world::lemma_reaches_next(start, replies, worlds);
        let next = start.step(replies[0]);
        let replies1 = replies.skip(1);
        let worlds1 = worlds.skip(1);
        let cost_rest = hash_cost(entries, names.skip(1)) as int;
        match entries[name] {
            Node::Other => {
                if replies.len() > 0 {
                    let after = crate::checksum::extended(rest, Seq::empty());
                    assert(after =~= rest) by {
                        assert(rest.last().message + Seq::<u8>::empty() =~= rest.last().message);
                    }
                    lemma_completed_by(frames, entries, Seq::empty());
                    lemma_hash_names(area, path, rest, entries, replies1, worlds1);
                }
                crate::world::lemma_reaches_through(
                    start,
                    replies,
                    worlds,
                    1,
                    next,
                    cost_rest,
                    end,
                );
            },
            Node::File(bytes) => {
                let after = crate::checksum::extended(rest, bytes);
                if replies.len() > 0 {
                    crate::world::lemma_reaches_next(next, replies1, worlds1);
                    let next2 = next.step(replies1[0]);
                    if replies.len() > 1 {
                        lemma_completed_by(frames, entries, bytes);
                        lemma_hash_names(
                            area,
                            path,
                            after,
                            entries,
                            replies1.skip(1),
                            worlds1.skip(1),
                        );
                    }
                    crate::world::lemma_reaches_through(
                        next,
                        replies1,
                        worlds1,
                        1,
                        next2,
                        cost_rest,
                        end,
                    );
                }
                crate::world::lemma_reaches_through(
                    start,
                    replies,
                    worlds,
                    1,
                    next,
                    1 + cost_rest,
                    end,
                );
            },
            Node::Dir(inner) => {
                let order = crate::names::in_order(inner.dom());
                let opened = rest.push(FrameView { message: Seq::empty(), pending: order });
                let bytes = vstd::utf8::encode_utf8(crate::checksum::dir_checksum(inner));
                let after = crate::checksum::extended(rest, bytes);
                let cost_inner = hash_cost(inner, order) as int;
                let replies2 = replies1.skip(1);
                let worlds2 = worlds1.skip(1);
                let begun = crate::checksum::advance(area, path.push(name), opened);
                let left = crate::checksum::advance(area, path, after);
                assert(crate::tree::finite_tree(entries[name]));
                if replies.len() > 0 {
                    crate::world::lemma_reaches_next(next, replies1, worlds1);
                    if replies.len() > 1 {
                        lemma_holds_dir(worlds[0].disk, inside, inner);
                        crate::names::lemma_enumeration_in_order(
                            replies1[0]->Names_0,
                            inner.dom(),
                        );
                        assert(next.step(replies1[0]) == begun);
                        lemma_known_order(inner);
                        lemma_hash_names(
                            area,
                            path.push(name),
                            opened,
                            inner,
                            replies2,
                            worlds2,
                        );
                        lemma_closed(area, path, name, rest, inner);
                        if replies2.len() >= cost_inner {
                            crate::world::lemma_reaches_rest(
                                begun,
                                replies2,
                                worlds2,
                                cost_inner,
                                left,
                            );
                            lemma_completed_by(frames, entries, bytes);
                            lemma_hash_names(
                                area,
                                path,
                                after,
                                entries,
                                replies2.skip(cost_inner),
                                worlds2.skip(cost_inner),
                            );
                        }
                        crate::world::lemma_reaches_through(
                            begun,
                            replies2,
                            worlds2,
                            cost_inner,
                            left,
                            cost_rest,
                            end,
                        );
                    }
                    crate::world::lemma_reaches_through(
                        next,
                        replies1,
                        worlds1,
                        1,
                        next.step(replies1[0]),
                        cost_inner + cost_rest,
                        end,
                    );
                }
                crate::world::lemma_reaches_through(
                    start,
                    replies,
                    worlds,
                    1,
                    next,
                    1 + cost_inner + cost_rest,
                    end,
                );
            },
        }
    }
}

/// On a faultless file system, a checksum job ends after a number of replies that the tree alone
/// determines, with the checksum of the tree, and leaves the file system as it was. The order in
/// which the names of a directory are listed makes no difference.
pub proof fn law_checksum_of_tree(
    spot: Spot,
    entries: Map<Seq<u8>, Node>,
    replies: Seq<ReplyView>,
    worlds: Seq<World>,
)
    requires
        crate::tree::finite_tree(Node::Dir(entries)),
        crate::world::served(crate::checksum::hash_start(spot), replies, worlds),
        crate::tree::holds(worlds[0].disk, spot, Node::Dir(entries)),
    ensures
        ({
            let end = crate::world::run(crate::checksum::hash_start(spot), replies);
            let cost = 1 + hash_cost(entries, crate::names::in_order(entries.dom()));
            &&& replies.len() <= cost
            &&& end.request() is None <==> replies.len() == cost
            &&& end.request() is None ==> {
                &&& end == HashView::Finished(Ok(crate::checksum::dir_checksum(entries)))
                &&& worlds.last() == worlds[0]
            }
        }),
{
    let start = crate::checksum::hash_start(spot);
    let order = crate::names::in_order(entries.dom());
    let cost = hash_cost(entries, order) as int;
    let frames = Seq::empty().push(FrameView { message: Seq::empty(), pending: order });
    let end = HashView::Finished(Ok(crate::checksum::dir_checksum(entries)));
    let next = start.step(replies[0]);
    crate::world::lemma_reaches_next(start, replies, worlds);
    if replies.len() > 0 {
        lemma_holds_dir(worlds[0].disk, spot, entries);
        crate::names::lemma_enumeration_in_order(replies[0]->Names_0, entries.dom());
        lemma_known_order(entries);
        lemma_hash_names(spot.0, spot.1, frames, entries, replies.skip(1), worlds.skip(1));
        let message = crate::checksum::dir_message(entries, order);
        assert(Seq::<u8>::empty() + message =~= message);
        assert(crate::checksum::advance(spot.0, spot.1, completed(frames, entries)) == end);
    }
    crate::world::lemma_reaches_through(start, replies, worlds, 1, next, cost, end);
    crate::world::lemma_reaches_end(start, replies, worlds, 1 + cost, end);
}

/// Two directories with the same tree have the same checksum, wherever they are and in whatever
/// order their names are listed.
pub proof fn law_same_tree_same_checksum(
    one: Spot,
    other: Spot,
    entries: Map<Seq<u8>, Node>,
    one_replies: Seq<ReplyView>,
    one_worlds: Seq<World>,
    other_replies: Seq<ReplyView>,
    other_worlds: Seq<World>,
)
    requires
        crate::tree::finite_tree(Node::Dir(entries)),
        crate::world::served(crate::checksum::hash_start(one), one_replies, one_worlds),
        crate::tree::holds(one_worlds[0].disk, one, Node::Dir(entries)),
        crate::world::run(crate::checksum::hash_start(one), one_replies).request() is None,
        crate::world::served(crate::checksum::hash_start(other), other_replies, other_worlds),
        crate::tree::holds(other_worlds[0].disk, other, Node::Dir(entries)),
        crate::world::run(crate::checksum::hash_start(other), other_replies).request() is None,
    ensures
        crate::world::run(crate::checksum::hash_start(one), one_replies) == crate::world::run(
            crate::checksum::hash_start(other),
            other_replies,
        ),
{
    law_checksum_of_tree(one, entries, one_replies, one_worlds);
    law_checksum_of_tree(other, entries, other_replies, other_worlds);
}

/// A checksum can go on with whatever a faultless file system answers it, as long as the message
/// of the innermost directory keeps within what SHA-256 is defined for.
pub proof fn law_checksum_accepts_replies(
    job: HashView,
    before: World,
    reply: ReplyView,
    after: World,
)
    requires
        job.request() is Some,
        crate::world::serves(before, job.request()->0, reply, after),
        job->frames.last().message.len() + crate::digest::CHECKSUM_LEN
            <= crate::digest::MAX_MESSAGE,
        reply matches ReplyView::Data(bytes) ==> job->frames.last().message.len() + bytes.len()
            <= crate::digest::MAX_MESSAGE,
    ensures
        crate::checksum::hash_accepts(job, reply),
{
}

/// The message that stands for a directory: what its checksum is the checksum of.
pub open spec fn message_of(entries: Map<Seq<u8>, Node>) -> Seq<u8> {
    crate::checksum::dir_message(entries, crate::names::in_order(entries.dom()))
}

proof fn lemma_message_joined(
    entries: Map<Seq<u8>, Node>,
    one: Seq<Seq<u8>>,
    other: Seq<Seq<u8>>,
)
    ensures
        crate::checksum::dir_message(entries, one + other) == crate::checksum::dir_message(
            entries,
            one,
        ) + crate::checksum::dir_message(entries, other),
    decreases one.len(),
{
    let whole = crate::checksum::dir_message(entries, one + other);
    if one.len() == 0 {
        assert(one + other =~= other);
        assert(Seq::<u8>::empty() + whole =~= whole);
    } else {
        lemma_message_joined(entries, one.skip(1), other);
        assert((one + other).skip(1) =~= one.skip(1) + other);
        assert((one + other)[0] == one[0]);
        assert(crate::checksum::dir_message(entries, one) + crate::checksum::dir_message(
            entries,
            other,
        ) =~= whole);
    }
}

/// Directories that agree in these entries have the same message for them.
proof fn lemma_message_agrees(
    one: Map<Seq<u8>, Node>,
    other: Map<Seq<u8>, Node>,
    names: Seq<Seq<u8>>,
)
    requires
        one.dom().finite(),
        one.dom() == other.dom(),
        known(one, names),
        forall|i: int| 0 <= i < names.len() ==> one[#[trigger] names[i]] == other[names[i]],
    ensures
        crate::checksum::dir_message(one, names) == crate::checksum::dir_message(other, names),
    decreases names.len(),
{
    if names.len() > 0 {
        assert(one.dom().contains(names[0]));
        assert forall|i: int| 0 <= i < names.skip(1).len() implies one[#[trigger] names.skip(
            1,
        )[i]] == other[names.skip(1)[i]] by {
            assert(names.skip(1)[i] == names[i + 1]);
        }
        assert(known(one, names.skip(1)));
        lemma_message_agrees(one, other, names.skip(1));
    }
}

/// The message that stands for a directory is, name by name in byte order, the whole contents of
/// each file and the text of the checksum of each directory, one behind the other, and nothing
/// else.
pub proof fn law_message_is_what_is_in_the_directory(entries: Map<Seq<u8>, Node>)
    requires
        entries.dom().finite(),
    ensures
        message_of(entries) == crate::names::in_order(entries.dom()).map_values(
            |name: Seq<u8>|
                match entries[name] {
                    Node::File(bytes) => bytes,
                    Node::Dir(inner) => vstd::utf8::encode_utf8(
                        crate::checksum::dir_checksum(inner),
                    ),
                    Node::Other => Seq::empty(),
                },
        ).flatten(),
        crate::checksum::dir_checksum(entries) == crate::digest::checksum(message_of(entries)),
{
    lemma_known_order(entries);
    lemma_message_flat(
        entries,
        crate::names::in_order(entries.dom()),
        |name: Seq<u8>|
            match entries[name] {
                Node::File(bytes) => bytes,
                Node::Dir(inner) => vstd::utf8::encode_utf8(crate::checksum::dir_checksum(inner)),
                Node::Other => Seq::empty(),
            },
    );
}

proof fn lemma_message_flat(
    entries: Map<Seq<u8>, Node>,
    names: Seq<Seq<u8>>,
    part: spec_fn(Seq<u8>) -> Seq<u8>,
)
    requires
        entries.dom().finite(),
        known(entries, names),
        forall|name: Seq<u8>| #[trigger]
            part(name) == match entries[name] {
                Node::File(bytes) => bytes,
                Node::Dir(inner) => vstd::utf8::encode_utf8(crate::checksum::dir_checksum(inner)),
                Node::Other => Seq::empty(),
            },
    ensures
        crate::checksum::dir_message(entries, names) == names.map_values(part).flatten(),
    decreases names.len(),
{
    if names.len() > 0 {
        assert(entries.dom().contains(names[0]));
        assert(known(entries, names.skip(1)));
        lemma_message_flat(entries, names.skip(1), part);
        assert(names.map_values(part).drop_first() =~= names.skip(1).map_values(part));
        assert(names.map_values(part).first() == part(names[0]));
    }
}

/// What one name adds to the message stands whole in it, between what comes before and after.
proof fn lemma_message_around(entries: Map<Seq<u8>, Node>, names: Seq<Seq<u8>>, i: int)
    requires
        0 <= i < names.len(),
    ensures
        crate::checksum::dir_message(entries, names) == crate::checksum::dir_message(
            entries,
            names.take(i),
        ) + crate::checksum::dir_message(entries, seq![names[i]]) + crate::checksum::dir_message(
            entries,
            names.skip(i + 1),
        ),
{
    lemma_message_joined(entries, names.take(i), seq![names[i]]);
    lemma_message_joined(entries, names.take(i) + seq![names[i]], names.skip(i + 1));
    assert(names.take(i) + seq![names[i]] + names.skip(i + 1) =~= names);
}

/// Two directories that differ in one entry, to which different bytes stand in the message, have
/// different messages.
proof fn lemma_one_part_differs(
    one: Map<Seq<u8>, Node>,
    other: Map<Seq<u8>, Node>,
    name: Seq<u8>,
)
    requires
        one.dom().finite(),
        one.dom() == other.dom(),
        one.dom().contains(name),
        forall|n: Seq<u8>| #[trigger] one.dom().contains(n) && n != name ==> one[n] == other[n],
        crate::checksum::dir_message(one, seq![name]) != crate::checksum::dir_message(
            other,
            seq![name],
        ),
    ensures
        message_of(one) != message_of(other),
{
    let order = crate::names::in_order(one.dom());
    crate::names::lemma_in_order(one.dom());
    lemma_known_order(one);
    assert(order.to_set().contains(name));
    let i = choose|i: int| 0 <= i < order.len() && order[i] == name;
    lemma_message_around(one, order, i);
    lemma_message_around(other, order, i);
    assert forall|j: int| 0 <= j < order.take(i).len() implies one[#[trigger] order.take(i)[j]]
        == other[order.take(i)[j]] by {
        assert(one.dom().contains(order[j]));
    }
    assert forall|j: int| 0 <= j < order.skip(i + 1).len() implies one[#[trigger] order.skip(
        i + 1,
    )[j]] == other[order.skip(i + 1)[j]] by {
        assert(one.dom().contains(order[j + i + 1]));
        assert(order[j + i + 1] != order[i]);
    }
    assert(known(one, order.take(i)));
    assert(known(one, order.skip(i + 1)));
    lemma_message_agrees(one, other, order.take(i));
    lemma_message_agrees(one, other, order.skip(i + 1));
    let before = crate::checksum::dir_message(one, order.take(i));
    let after = crate::checksum::dir_message(one, order.skip(i + 1));
    let a = crate::checksum::dir_message(one, seq![name]);
    let b = crate::checksum::dir_message(other, seq![name]);
    if before + a + after == before + b + after {
        assert((before + a + after).len() == (before + b + after).len());
        assert(a =~= (before + a + after).subrange(
            before.len() as int,
            before.len() + a.len() as int,
        ));
        assert(b =~= (before + b + after).subrange(
            before.len() as int,
            before.len() + b.len() as int,
        ));
        assert(false);
    }
}

/// The message of a directory in which the bytes of one file are others is another message.
pub proof fn law_changed_file_changes_the_message(
    entries: Map<Seq<u8>, Node>,
    name: Seq<u8>,
    bytes: Seq<u8>,
)
    requires
        entries.dom().finite(),
        entries.dom().contains(name),
        entries[name] is File,
        entries[name] != Node::File(bytes),
    ensures
        message_of(entries) != message_of(entries.insert(name, Node::File(bytes))),
{
    let other = entries.insert(name, Node::File(bytes));
    assert(other.dom() =~= entries.dom());
    lemma_message_of_one(entries, name);
    lemma_message_of_one(other, name);
    lemma_one_part_differs(entries, other, name);
}

proof fn lemma_message_of_one(entries: Map<Seq<u8>, Node>, name: Seq<u8>)
    requires
        entries.dom().finite(),
        entries.dom().contains(name),
    ensures
        entries[name] matches Node::File(bytes) ==> crate::checksum::dir_message(
            entries,
            seq![name],
        ) == bytes,
        entries[name] matches Node::Dir(inner) ==> crate::checksum::dir_message(
            entries,
            seq![name],
        ) == vstd::utf8::encode_utf8(crate::checksum::dir_checksum(inner)),
{
    let rest = crate::checksum::dir_message(entries, seq![name].skip(1));
    assert(rest =~= Seq::empty());
    let whole = crate::checksum::dir_message(entries, seq![name]);
    match entries[name] {
        Node::File(bytes) => {
            assert(whole =~= bytes);
        },
        Node::Dir(inner) => {
            assert(whole =~= vstd::utf8::encode_utf8(crate::checksum::dir_checksum(inner)));
        },
        Node::Other => {},
    }
}

/// The directory at a path in a tree.
pub open spec fn dir_at(entries: Map<Seq<u8>, Node>, path: Seq<Seq<u8>>) -> Map<Seq<u8>, Node>
    decreases path.len(),
{
    if path.len() == 0 {
        entries
    } else {
        match entries[path[0]] {
            Node::Dir(inner) => dir_at(inner, path.skip(1)),
            _ => entries,
        }
    }
}

/// Two different messages have the same SHA-256 digest.
pub open spec fn collide(one: Seq<u8>, other: Seq<u8>) -> bool {
    one != other && crate::digest::sha256(one) == crate::digest::sha256(other)
}

/// Trees that have the same everywhere are the same.
proof fn lemma_same_tree(one: Node, other: Node)
    requires
        forall|path: Seq<Seq<u8>>| #[trigger]
            crate::tree::at(one, path) == crate::tree::at(other, path),
    ensures
        one == other,
    decreases one,
{
    let none = Seq::<Seq<u8>>::empty();
    assert(crate::tree::at(one, none) == crate::tree::at(other, none));
    if let Node::Dir(entries) = one {
        let others = other->Dir_0;
        assert forall|name: Seq<u8>| #[trigger]
            entries.dom().contains(name) == others.dom().contains(name) by {
            let path = seq![name];
            assert(crate::tree::at(one, path) == crate::tree::at(other, path));
            assert(crate::tree::at(entries[name], path.skip(1)) is Some);
            assert(crate::tree::at(others[name], path.skip(1)) is Some);
        }
        assert(entries.dom() =~= others.dom());
        assert forall|name: Seq<u8>| #[trigger]
            entries.dom().contains(name) implies entries[name] == others[name] by {
            assert forall|path: Seq<Seq<u8>>| #[trigger]
                crate::tree::at(entries[name], path) == crate::tree::at(others[name], path) by {
                let whole = seq![name] + path;
                assert(whole.skip(1) =~= path);
                assert(crate::tree::at(one, whole) == crate::tree::at(other, whole));
            }
            lemma_same_tree(entries[name], others[name]);
        }
        assert(entries =~= others);
    }
}

/// A directory tree in which the bytes of one file are others, at whatever depth, has another
/// checksum: it could be the same only if two different messages of directories on the way to the
/// file had the same SHA-256 digest.
pub proof fn law_changed_file_is_noticed(
    one: Map<Seq<u8>, Node>,
    other: Map<Seq<u8>, Node>,
    path: Seq<Seq<u8>>,
)
    requires
        crate::tree::finite_tree(Node::Dir(one)),
        crate::tree::at(Node::Dir(one), path) matches Some(Leaf::File(_)),
        crate::tree::at(Node::Dir(other), path) matches Some(Leaf::File(_)),
        crate::tree::at(Node::Dir(one), path) != crate::tree::at(Node::Dir(other), path),
        forall|p: Seq<Seq<u8>>|
            p != path ==> #[trigger] crate::tree::at(Node::Dir(one), p) == crate::tree::at(
                Node::Dir(other),
                p,
            ),
    ensures
        crate::checksum::dir_checksum(one) == crate::checksum::dir_checksum(other) ==> exists|
            k: int,
        |
            0 <= k < path.len() && #[trigger] collide(
                message_of(dir_at(one, path.take(k))),
                message_of(dir_at(other, path.take(k))),
            ),
    decreases path.len(),
{
    assert(path.len() > 0);
    let name = path[0];
    let rest = path.skip(1);
    assert forall|n: Seq<u8>| #[trigger] one.dom().contains(n) == other.dom().contains(n) by {
        let p = seq![n];
        assert(crate::tree::at(one[n], p.skip(1)) is Some);
        assert(crate::tree::at(other[n], p.skip(1)) is Some);
        if p != path {
            assert(crate::tree::at(Node::Dir(one), p) == crate::tree::at(Node::Dir(other), p));
        }
    }
    assert(one.dom() =~= other.dom());
    assert(one.dom().contains(name));
    assert forall|n: Seq<u8>| #[trigger]
        one.dom().contains(n) && n != name implies one[n] == other[n] by {
        assert forall|p: Seq<Seq<u8>>| #[trigger]
            crate::tree::at(one[n], p) == crate::tree::at(other[n], p) by {
            let whole = seq![n] + p;
            assert(whole.skip(1) =~= p);
            assert(whole[0] == n);
            assert(crate::tree::at(Node::Dir(one), whole) == crate::tree::at(
                Node::Dir(other),
                whole,
            ));
        }
        lemma_same_tree(one[n], other[n]);
    }
    lemma_message_of_one(one, name);
    lemma_message_of_one(other, name);
    assert(path.take(0) =~= Seq::empty());
    assert(dir_at(one, path.take(0)) == one && dir_at(other, path.take(0)) == other);
    crate::digest::law_same_checksum_same_digest(message_of(one), message_of(other));
    let same = crate::checksum::dir_checksum(one) == crate::checksum::dir_checksum(other);
    if rest.len() == 0 {
        lemma_one_part_differs(one, other, name);
        if same {
            assert(collide(
                message_of(dir_at(one, path.take(0))),
                message_of(dir_at(other, path.take(0))),
            ));
        }
    } else {
        let inner = one[name]->Dir_0;
        let inner1 = other[name]->Dir_0;
        assert(crate::tree::at(one[name], rest) is Some);
        assert(crate::tree::at(other[name], rest) is Some);
        assert(one[name] == Node::Dir(inner) && other[name] == Node::Dir(inner1));
        assert(crate::tree::finite_tree(one[name]));
        assert forall|p: Seq<Seq<u8>>|
            p != rest implies #[trigger] crate::tree::at(Node::Dir(inner), p) == crate::tree::at(
            Node::Dir(inner1),
            p,
        ) by {
            let whole = seq![name] + p;
            assert(whole.skip(1) =~= p);
            assert(crate::tree::at(Node::Dir(one), whole) == crate::tree::at(
                Node::Dir(other),
                whole,
            ));
        }
        law_changed_file_is_noticed(inner, inner1, rest);
        let a = crate::checksum::dir_checksum(inner);
        let b = crate::checksum::dir_checksum(inner1);
        if a == b {
            let k = choose|k: int|
                0 <= k < rest.len() && #[trigger] collide(
                    message_of(dir_at(inner, rest.take(k))),
                    message_of(dir_at(inner1, rest.take(k))),
                );
            assert(path.take(k + 1).skip(1) =~= rest.take(k));
            assert(path.take(k + 1)[0] == name);
            assert(collide(
                message_of(dir_at(one, path.take(k + 1))),
                message_of(dir_at(other, path.take(k + 1))),
            ));
        } else {
            vstd::utf8::encode_utf8_decode_utf8(a);
            vstd::utf8::encode_utf8_decode_utf8(b);
            lemma_one_part_differs(one, other, name);
            if same {
                assert(collide(
                    message_of(dir_at(one, path.take(0))),
                    message_of(dir_at(other, path.take(0))),
                ));
            }
        }
    }
}

/// The checksum of pending names that has not come to their end can go on.
proof fn lemma_hash_names_go_on(
    area: Area,
    path: Seq<Seq<u8>>,
    frames: Seq<FrameView>,
    entries: Map<Seq<u8>, Node>,
    replies: Seq<ReplyView>,
    worlds: Seq<World>,
)
    requires
        frames.len() > 0,
        known(entries, frames.last().pending),
        crate::tree::finite_tree(Node::Dir(entries)),
        crate::world::served(crate::checksum::advance(area, path, frames), replies, worlds),
        crate::tree::holds(worlds[0].disk, (area, path), Node::Dir(entries)),
    ensures
        replies.len() < hash_cost(entries, frames.last().pending) ==> crate::world::can_go_on(
            crate::world::run(crate::checksum::advance(area, path, frames), replies),
            worlds.last(),
        ),
    decreases entries, frames.last().pending.len(),
{
    let names = frames.last().pending;
    let start = crate::checksum::advance(area, path, frames);
    let last = crate::world::run(start, replies);
    let world = worlds[0];
    if names.len() > 0 {
        let name = names[0];
        let inside: Spot = (area, path.push(name));
        assert(entries.dom().contains(names[0]));
        assert(crate::tree::child((area, path), name) == inside);
        lemma_holds_entry(world.disk, (area, path), entries, name);
        if replies.len() == 0 {
            assert(crate::world::serves(
                worlds.last(),
                last.request()->0,
                ReplyView::Kind(crate::world::kind(crate::tree::found(world.disk, inside))),
                world,
            ));
        } else {
            let rest = taken(frames);
            assert(known(entries, rest.last().pending)) by {
                assert(rest.last().pending =~= names.skip(1));
            }
            crate::world::lemma_reaches_next(start, replies, worlds);
            let next = start.step(replies[0]);
            let replies1 = replies.skip(1);
            let worlds1 = worlds.skip(1);
            assert(last == crate::world::run(next, replies1));
            assert(worlds1.last() == worlds.last());
            match entries[name] {
                Node::Other => {
                    lemma_hash_names_go_on(area, path, rest, entries, replies1, worlds1);
                },
                Node::File(bytes) => {
                    if replies1.len() == 0 {
                        assert(crate::world::serves(
                            worlds.last(),
                            last.request()->0,
                            ReplyView::Data(bytes),
                            world,
                        ));
                    } else {
                        let after = crate::checksum::extended(rest, bytes);
                        crate::world::lemma_reaches_next(next, replies1, worlds1);
                        let next2 = crate::checksum::advance(area, path, after);
                        assert(next.step(replies1[0]) == next2);
                        assert(last == crate::world::run(next2, replies1.skip(1)));
                        lemma_hash_names_go_on(
                            area,
                            path,
                            after,
                            entries,
                            replies1.skip(1),
                            worlds1.skip(1),
                        );
                        assert(worlds1.skip(1).last() == worlds.last());
                    }
                },
                Node::Dir(inner) => {
                    let order = crate::names::in_order(inner.dom());
                    lemma_holds_dir(world.disk, inside, inner);
                    assert(crate::tree::finite_tree(entries[name]));
                    crate::names::lemma_in_order(inner.dom());
                    if replies1.len() == 0 {
                        assert(crate::world::serves(
                            worlds.last(),
                            last.request()->0,
                            ReplyView::Names(order),
                            world,
                        ));
                    } else {
                        let opened = rest.push(FrameView { message: Seq::empty(), pending: order });
                        let bytes = vstd::utf8::encode_utf8(crate::checksum::dir_checksum(inner));
                        let after = crate::checksum::extended(rest, bytes);
                        let cost = hash_cost(inner, order) as int;
                        let replies2 = replies1.skip(1);
                        let worlds2 = worlds1.skip(1);
                        let begun = crate::checksum::advance(area, path.push(name), opened);
                        let left = crate::checksum::advance(area, path, after);
                        crate::world::lemma_reaches_next(next, replies1, worlds1);
                        crate::names::lemma_enumeration_in_order(
                            replies1[0]->Names_0,
                            inner.dom(),
                        );
                        assert(next.step(replies1[0]) == begun);
                        assert(last == crate::world::run(begun, replies2));
                        assert(worlds2.last() == worlds.last());
                        lemma_known_order(inner);
                        lemma_hash_names_go_on(
                            area,
                            path.push(name),
                            opened,
                            inner,
                            replies2,
                            worlds2,
                        );
                        if replies2.len() >= cost {
                            lemma_hash_names(
                                area,
                                path.push(name),
                                opened,
                                inner,
                                replies2,
                                worlds2,
                            );
                            lemma_closed(area, path, name, rest, inner);
                            crate::world::lemma_reaches_rest(
                                begun,
                                replies2,
                                worlds2,
                                cost,
                                left,
                            );
                            lemma_hash_names_go_on(
                                area,
                                path,
                                after,
                                entries,
                                replies2.skip(cost),
                                worlds2.skip(cost),
                            );
                            assert(worlds2.skip(cost).last() == worlds.last());
                        }
                    }
                },
            }
        }
    }
}

/// On a faultless file system the checksum of a directory never comes to a halt before its end: the
/// file system can do whatever it needs next, at every point of every run.
pub proof fn law_checksum_goes_on(
    spot: Spot,
    entries: Map<Seq<u8>, Node>,
    replies: Seq<ReplyView>,
    worlds: Seq<World>,
)
    requires
        crate::tree::finite_tree(Node::Dir(entries)),
        crate::world::served(crate::checksum::hash_start(spot), replies, worlds),
        crate::tree::holds(worlds[0].disk, spot, Node::Dir(entries)),
        crate::world::run(crate::checksum::hash_start(spot), replies).request() is Some,
    ensures
        crate::world::can_go_on(
            crate::world::run(crate::checksum::hash_start(spot), replies),
            worlds.last(),
        ),
{
    let start = crate::checksum::hash_start(spot);
    let last = crate::world::run(start, replies);
    let order = crate::names::in_order(entries.dom());
    law_checksum_of_tree(spot, entries, replies, worlds);
    lemma_holds_dir(worlds[0].disk, spot, entries);
    crate::names::lemma_in_order(entries.dom());
    if replies.len() == 0 {
        assert(crate::world::serves(
            worlds.last(),
            last.request()->0,
            ReplyView::Names(order),
            worlds[0],
        ));
    } else {
        let frames = Seq::empty().push(FrameView { message: Seq::empty(), pending: order });
        let next = crate::checksum::advance(spot.0, spot.1, frames);
        crate::world::lemma_reaches_next(start, replies, worlds);
        crate::names::lemma_enumeration_in_order(replies[0]->Names_0, entries.dom());
        assert(start.step(replies[0]) == next);
        assert(last == crate::world::run(next, replies.skip(1)));
        lemma_known_order(entries);
        lemma_hash_names_go_on(
            spot.0,
            spot.1,
            frames,
            entries,
            replies.skip(1),
            worlds.skip(1),
        );
        assert(worlds.skip(1).last() == worlds.last());
    }
}

/// The checksum of every directory can be taken: there is a run on a faultless file system that
/// ends with it.
pub proof fn law_checksum_can_be_taken(
    spot: Spot,
    entries: Map<Seq<u8>, Node>,
    world: World,
) -> (done: (Seq<ReplyView>, Seq<World>))
    requires
        crate::tree::finite_tree(Node::Dir(entries)),
        crate::tree::holds(world.disk, spot, Node::Dir(entries)),
    ensures
        crate::world::served(crate::checksum::hash_start(spot), done.0, done.1),
        done.1[0] == world,
        crate::world::run(crate::checksum::hash_start(spot), done.0) == HashView::Finished(
            Ok(crate::checksum::dir_checksum(entries)),
        ),
{
    let start = crate::checksum::hash_start(spot);
    let cost = 1 + hash_cost(entries, crate::names::in_order(entries.dom()));
    assert(crate::world::served(start, Seq::empty(), seq![world]));
    assert forall|r: Seq<ReplyView>, w: Seq<World>| #[trigger]
        crate::world::served(start, r, w) && w[0] == world implies r.len() <= cost && (
    crate::world::run(start, r).request() is Some ==> crate::world::can_go_on(
        crate::world::run(start, r),
        w.last(),
    )) by {
        law_checksum_of_tree(spot, entries, r, w);
        if crate::world::run(start, r).request() is Some {
            law_checksum_goes_on(spot, entries, r, w);
        }
    }
    let done = crate::world::lemma_run_to_the_end(start, Seq::empty(), seq![world], cost);
    law_checksum_of_tree(spot, entries, done.0, done.1);
    done
}

} // verus!
