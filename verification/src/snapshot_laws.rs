//! What a snapshot has to do with the data it was taken of.
use vstd::prelude::*;

use crate::checksum::HashView;
use crate::copy::{CopyPhaseView, CopyView};
use crate::error::ErrorView;
use crate::io::{Area, ReplyView, Spot};
use crate::snapshot::{Fresh, SnapshotView};
use crate::tree::{Disk, Leaf, Node};
use crate::world::{Machine, World};

verus! {

/// How many replies the copy of a directory takes.
pub open spec fn whole_copy_cost(entries: Map<Seq<u8>, Node>) -> nat {
    3 + crate::copy_laws::copy_cost(entries, crate::names::in_order(entries.dom()))
}

/// How many replies the checksum of a directory takes.
pub open spec fn whole_hash_cost(entries: Map<Seq<u8>, Node>) -> nat {
    1 + crate::checksum_laws::hash_cost(entries, crate::names::in_order(entries.dom()))
}

/// A tree of files and directories is finite.
pub proof fn lemma_plain_is_finite(node: Node)
    requires
        crate::tree::plain_tree(node),
    ensures
        crate::tree::finite_tree(node),
    decreases node,
{
    if let Node::Dir(entries) = node {
        assert forall|name: Seq<u8>| #[trigger]
            entries.dom().contains(name) implies crate::tree::finite_tree(entries[name]) by {
            lemma_plain_is_finite(entries[name]);
        }
    }
}

/// The two outputs of a snapshot do not get in each other's way, and the database engine has
/// nothing to do with the collab database directory.
pub proof fn lemma_outputs_apart(area: Area)
    ensures
        crate::tree::apart(
            crate::snapshot::database_spot(area),
            crate::snapshot::collab_spot(area),
        ),
        forall|path: Seq<Seq<u8>>|
            !crate::world::belongs_to(
                crate::snapshot::database_spot(area),
                #[trigger] crate::tree::below(crate::snapshot::collab_spot(area), path),
            ),
{
    let database = crate::snapshot::database_name();
    let collab = crate::snapshot::collab_name();
    reveal_strlit("flowy-database.db");
    reveal_strlit("collab_db");
    assert(vstd::utf8::is_ascii_chars(database));
    assert(vstd::utf8::is_ascii_chars(collab));
    vstd::utf8::is_ascii_chars_encode_utf8(database);
    vstd::utf8::is_ascii_chars_encode_utf8(collab);
    let one = crate::snapshot::database_spot(area);
    let other = crate::snapshot::collab_spot(area);
    assert(one.1[0].len() == 17);
    assert(other.1[0].len() == 9);
    if crate::tree::within(one, other) || crate::tree::within(other, one) {
        assert(one.1[0] == other.1[0]);
    }
    assert forall|path: Seq<Seq<u8>>|
        !crate::world::belongs_to(one, #[trigger] crate::tree::below(other, path)) by {
        let s = crate::tree::below(other, path);
        if crate::world::belongs_to(one, s) {
            assert(s.1.last() == other.1[0]);
            assert(one.1.last() == one.1[0]);
        }
    }
}

/// The copy of a directory, at work inside another job.
pub proof fn lemma_copy_inside<M: Machine>(
    outer: spec_fn(CopyView) -> M,
    from: Spot,
    to: Spot,
    entries: Map<Seq<u8>, Node>,
    replies: Seq<ReplyView>,
    worlds: Seq<World>,
)
    requires
        crate::world::carries(outer),
        crate::tree::apart(from, to),
        crate::tree::plain_tree(Node::Dir(entries)),
        crate::world::served(outer(crate::copy::copy_start(from, to)), replies, worlds),
        crate::tree::holds(worlds[0].disk, from, Node::Dir(entries)),
        forall|s: Spot| #[trigger]
            worlds[0].disk.dom().contains(s) && crate::tree::within(to, s) ==> s == to,
    ensures
        ({
            let cost = whole_copy_cost(entries) as int;
            &&& crate::world::reaches(
                outer(crate::copy::copy_start(from, to)),
                replies,
                worlds,
                cost,
                outer(CopyView::Finished(Ok(()))),
            )
            &&& replies.len() >= cost ==> {
                let disk = worlds[cost].disk;
                &&& crate::tree::holds(disk, to, Node::Dir(entries))
                &&& crate::tree::holds(disk, from, Node::Dir(entries))
                &&& forall|s: Spot|
                    !crate::tree::within(to, s) && !crate::tree::within(s, to)
                        ==> #[trigger] crate::tree::found(disk, s) == crate::tree::found(
                        worlds[0].disk,
                        s,
                    )
            }
        }),
{
    let inner = crate::copy::copy_start(from, to);
    let cost = whole_copy_cost(entries) as int;
    lemma_plain_is_finite(Node::Dir(entries));
    let carried = crate::world::lemma_carried(outer, inner, replies, worlds);
    let part = replies.take(carried);
    let passed = worlds.take(carried + 1);
    crate::copy_laws::law_copy_of_tree(from, to, entries, part, passed);
    crate::world::lemma_carried_to_end(
        outer,
        inner,
        replies,
        worlds,
        carried,
        cost,
        CopyView::Finished(Ok(())),
    );
    if replies.len() >= cost {
        crate::copy_laws::law_copy_is_identical(from, to, entries, part, passed);
        assert(passed.last() == worlds[cost]);
    }
}

/// The copy of a directory of which some part is neither file nor directory, at work inside another
/// job: that job does not come to its end.
pub proof fn lemma_copy_stuck_inside<M: Machine>(
    outer: spec_fn(CopyView) -> M,
    from: Spot,
    to: Spot,
    entries: Map<Seq<u8>, Node>,
    replies: Seq<ReplyView>,
    worlds: Seq<World>,
)
    requires
        crate::world::carries(outer),
        crate::tree::apart(from, to),
        crate::tree::finite_tree(Node::Dir(entries)),
        !crate::tree::plain_tree(Node::Dir(entries)),
        crate::world::served(outer(crate::copy::copy_start(from, to)), replies, worlds),
        crate::tree::holds(worlds[0].disk, from, Node::Dir(entries)),
    ensures
        crate::world::run(outer(crate::copy::copy_start(from, to)), replies).request() is Some,
{
    let inner = crate::copy::copy_start(from, to);
    let carried = crate::world::lemma_carried(outer, inner, replies, worlds);
    let part = replies.take(carried);
    let last = crate::world::run(inner, part);
    crate::copy_laws::law_copy_of_tree(from, to, entries, part, worlds.take(carried + 1));
    crate::world::lemma_reaches_rest(outer(inner), replies, worlds, carried, outer(last));
    assert(replies.skip(carried).len() == 0);
    assert(outer(last).request() == last.request());
}

/// The checksum of a directory, at work inside another job.
pub proof fn lemma_hash_inside<M: Machine>(
    outer: spec_fn(HashView) -> M,
    spot: Spot,
    entries: Map<Seq<u8>, Node>,
    replies: Seq<ReplyView>,
    worlds: Seq<World>,
)
    requires
        crate::world::carries(outer),
        crate::tree::finite_tree(Node::Dir(entries)),
        crate::world::served(outer(crate::checksum::hash_start(spot)), replies, worlds),
        crate::tree::holds(worlds[0].disk, spot, Node::Dir(entries)),
    ensures
        ({
            let cost = whole_hash_cost(entries) as int;
            &&& crate::world::reaches(
                outer(crate::checksum::hash_start(spot)),
                replies,
                worlds,
                cost,
                outer(HashView::Finished(Ok(crate::checksum::dir_checksum(entries)))),
            )
            &&& replies.len() >= cost ==> worlds[cost] == worlds[0]
        }),
{
    let inner = crate::checksum::hash_start(spot);
    let cost = whole_hash_cost(entries) as int;
    let carried = crate::world::lemma_carried(outer, inner, replies, worlds);
    let part = replies.take(carried);
    let passed = worlds.take(carried + 1);
    crate::checksum_laws::law_checksum_of_tree(spot, entries, part, passed);
    crate::world::lemma_carried_to_end(
        outer,
        inner,
        replies,
        worlds,
        carried,
        cost,
        HashView::Finished(Ok(crate::checksum::dir_checksum(entries))),
    );
    if replies.len() >= cost {
        assert(passed.last() == worlds[cost]);
    }
}

/// Nothing is in the area but perhaps its top directory.
pub open spec fn unused(disk: Disk, area: Area) -> bool {
    forall|s: Spot| #[trigger]
        disk.dom().contains(s) && s.0 == area ==> s == crate::snapshot::area_spot(area)
}

/// The area holds a database file with these bytes, and a collab database directory with these
/// entries.
pub open spec fn holds_data(
    disk: Disk,
    area: Area,
    database: Seq<u8>,
    entries: Map<Seq<u8>, Node>,
) -> bool {
    &&& crate::tree::found(disk, crate::snapshot::database_spot(area)) == Some(
        Leaf::File(database),
    )
    &&& crate::tree::holds(disk, crate::snapshot::collab_spot(area), Node::Dir(entries))
}

/// Nothing is in the area but its top directory and the two outputs of a snapshot.
pub open spec fn only_outputs(disk: Disk, area: Area) -> bool {
    forall|s: Spot| #[trigger]
        disk.dom().contains(s) && s.0 == area ==> s == crate::snapshot::area_spot(area) || s
            == crate::snapshot::database_spot(area) || crate::tree::within(
            crate::snapshot::collab_spot(area),
            s,
        )
}

/// The bytes of the database file of an area.
pub open spec fn database_bytes(disk: Disk, area: Area) -> Seq<u8> {
    disk[crate::snapshot::database_spot(area)]->File_0
}

/// How many replies a snapshot takes.
pub open spec fn snapshot_cost(entries: Map<Seq<u8>, Node>) -> nat {
    5 + whole_copy_cost(entries) + whole_hash_cost(entries)
}

/// What the collab database directory of the user becomes while the database is copied: nothing
/// else than it was. And the staging area gets no more than the copy of the database.
pub proof fn lemma_vacuumed(
    fresh: Fresh,
    before: World,
    after: World,
    entries: Map<Seq<u8>, Node>,
)
    requires
        crate::tree::holds(
            before.disk,
            crate::snapshot::collab_spot(Area::User),
            Node::Dir(entries),
        ),
        unused(before.disk, Area::Staging),
        crate::world::serves(
            before,
            (SnapshotView::Vacuuming { fresh }).request()->0,
            ReplyView::Done,
            after,
        ),
    ensures
        crate::tree::holds(
            after.disk,
            crate::snapshot::collab_spot(Area::User),
            Node::Dir(entries),
        ),
        crate::tree::found(after.disk, crate::snapshot::database_spot(Area::Staging)) == Some(
            Leaf::File(database_bytes(after.disk, Area::Staging)),
        ),
        database_only(after.disk, Area::Staging),
{
    let collab = crate::snapshot::collab_spot(Area::User);
    lemma_outputs_apart(Area::User);
    assert forall|path: Seq<Seq<u8>>| #[trigger]
        crate::tree::found(after.disk, crate::tree::below(collab, path)) == crate::tree::at(
            Node::Dir(entries),
            path,
        ) by {
        let s = crate::tree::below(collab, path);
        assert(!crate::world::belongs_to(crate::snapshot::database_spot(Area::User), s));
        assert(crate::tree::found(before.disk, s) == crate::tree::at(Node::Dir(entries), path));
    }
    let database = crate::snapshot::database_spot(Area::Staging);
    assert forall|s: Spot| #[trigger]
        after.disk.dom().contains(s) && s.0 == Area::Staging implies s
        == crate::snapshot::area_spot(Area::Staging) || s == database by {
        if s != database {
            assert(!crate::world::belongs_to(crate::snapshot::database_spot(Area::User), s));
            assert(crate::tree::found(after.disk, s) == crate::tree::found(before.disk, s));
            assert(before.disk.dom().contains(s));
        }
    }
}

/// How a snapshot ends that found these bytes in the copy of the database.
spec fn snapshot_end(database: Seq<u8>, entries: Map<Seq<u8>, Node>) -> SnapshotView {
    SnapshotView::Finished(
        Ok(
            crate::snapshot::manifest_of(
                crate::digest::checksum(database),
                crate::checksum::dir_checksum(entries),
            ),
        ),
    )
}

/// The user's directory is as it was, and the staging area holds the snapshot.
spec fn snapshot_kept(
    disk: Disk,
    database: Seq<u8>,
    entries: Map<Seq<u8>, Node>,
) -> bool {
    &&& holds_data(disk, Area::Staging, database, entries)
    &&& only_outputs(disk, Area::Staging)
    &&& crate::tree::holds(
        disk,
        crate::snapshot::collab_spot(Area::User),
        Node::Dir(entries),
    )
}

/// Nothing is in the area but its top directory and a database file.
pub open spec fn database_only(disk: Disk, area: Area) -> bool {
    forall|s: Spot| #[trigger]
        disk.dom().contains(s) && s.0 == area ==> s == crate::snapshot::area_spot(area) || s
            == crate::snapshot::database_spot(area)
}

/// The collab database directory comes to stand beside the database file, which stays.
pub proof fn lemma_directory_added(
    before: Disk,
    after: Disk,
    area: Area,
    database: Seq<u8>,
    entries: Map<Seq<u8>, Node>,
)
    requires
        database_only(before, area),
        crate::tree::found(before, crate::snapshot::database_spot(area)) == Some(
            Leaf::File(database),
        ),
        crate::tree::holds(after, crate::snapshot::collab_spot(area), Node::Dir(entries)),
        forall|s: Spot|
            !crate::tree::within(crate::snapshot::collab_spot(area), s) && !crate::tree::within(
                s,
                crate::snapshot::collab_spot(area),
            ) ==> #[trigger] crate::tree::found(after, s) == crate::tree::found(before, s),
    ensures
        holds_data(after, area, database, entries),
        only_outputs(after, area),
{
    let top = crate::snapshot::area_spot(area);
    let spot = crate::snapshot::database_spot(area);
    let collab = crate::snapshot::collab_spot(area);
    lemma_outputs_apart(area);
    assert(crate::tree::found(after, spot) == crate::tree::found(before, spot));
    assert forall|s: Spot| #[trigger] after.dom().contains(s) && s.0 == area implies s == top || s
        == spot || crate::tree::within(collab, s) by {
        if crate::tree::within(s, collab) {
            if s.1.len() == 0 {
                assert(s.1 =~= top.1);
            } else {
                assert(s.1 =~= collab.1);
                assert(crate::tree::within(collab, s));
            }
        } else if !crate::tree::within(collab, s) {
            assert(crate::tree::found(after, s) == crate::tree::found(before, s));
            assert(before.dom().contains(s));
        }
    }
}

/// Where there is only a database file, nothing is in the way of the directory.
pub proof fn lemma_directory_free(disk: Disk, area: Area)
    requires
        database_only(disk, area),
    ensures
        forall|s: Spot| #[trigger]
            disk.dom().contains(s) && crate::tree::within(
                crate::snapshot::collab_spot(area),
                s,
            ) ==> s == crate::snapshot::collab_spot(area),
{
    lemma_outputs_apart(area);
    assert forall|s: Spot| #[trigger]
        disk.dom().contains(s) && crate::tree::within(
            crate::snapshot::collab_spot(area),
            s,
        ) implies s == crate::snapshot::collab_spot(area) by {
        assert(s.1.len() > 0);
    }
}

/// From the start of the copy of the directory to the end of the snapshot.
proof fn lemma_snapshot_copying(
    fresh: Fresh,
    database: Seq<u8>,
    entries: Map<Seq<u8>, Node>,
    replies: Seq<ReplyView>,
    worlds: Seq<World>,
)
    requires
        crate::tree::plain_tree(Node::Dir(entries)),
        crate::world::served(
            (SnapshotView::Reading { fresh }).step(ReplyView::Data(database)),
            replies,
            worlds,
        ),
        crate::tree::holds(
            worlds[0].disk,
            crate::snapshot::collab_spot(Area::User),
            Node::Dir(entries),
        ),
        database_only(worlds[0].disk, Area::Staging),
        crate::tree::found(worlds[0].disk, crate::snapshot::database_spot(Area::Staging)) == Some(
            Leaf::File(database),
        ),
    ensures
        ({
            let cost = whole_copy_cost(entries) + whole_hash_cost(entries) as int;
            &&& crate::world::reaches(
                (SnapshotView::Reading { fresh }).step(ReplyView::Data(database)),
                replies,
                worlds,
                cost,
                snapshot_end(database, entries),
            )
            &&& replies.len() >= cost ==> snapshot_kept(worlds[cost].disk, database, entries)
        }),
{
    let user = crate::snapshot::collab_spot(Area::User);
    let staging = crate::snapshot::collab_spot(Area::Staging);
    let copying = whole_copy_cost(entries) as int;
    let hashing = whole_hash_cost(entries) as int;
    let start = (SnapshotView::Reading { fresh }).step(ReplyView::Data(database));
    let text = crate::digest::checksum(database);
    let outer = |copy: CopyView| crate::snapshot::while_copying(fresh, text, copy);
    let outer2 = |hash: HashView| crate::snapshot::while_hashing(fresh, text, hash);
    let copied = outer(CopyView::Finished(Ok(())));
    let end = snapshot_end(database, entries);
    assert(outer(crate::copy::copy_start(user, staging)) == start);
    assert(outer2(crate::checksum::hash_start(staging)) == copied);
    lemma_directory_free(worlds[0].disk, Area::Staging);
    lemma_copy_inside(outer, user, staging, entries, replies, worlds);
    if replies.len() >= copying {
        let replies1 = replies.skip(copying);
        let worlds1 = worlds.skip(copying);
        crate::world::lemma_reaches_rest(start, replies, worlds, copying, copied);
        lemma_plain_is_finite(Node::Dir(entries));
        lemma_hash_inside(outer2, staging, entries, replies1, worlds1);
        lemma_directory_added(
            worlds[0].disk,
            worlds1[0].disk,
            Area::Staging,
            database,
            entries,
        );
        if replies1.len() >= hashing {
            assert(worlds1[hashing] == worlds[copying + hashing]);
        }
    }
    crate::world::lemma_reaches_through(start, replies, worlds, copying, copied, hashing, end);
}

/// From the copy of the database to the end of the snapshot.
proof fn lemma_snapshot_vacuuming(
    fresh: Fresh,
    entries: Map<Seq<u8>, Node>,
    replies: Seq<ReplyView>,
    worlds: Seq<World>,
)
    requires
        crate::tree::plain_tree(Node::Dir(entries)),
        crate::world::served(SnapshotView::Vacuuming { fresh }, replies, worlds),
        crate::tree::holds(
            worlds[0].disk,
            crate::snapshot::collab_spot(Area::User),
            Node::Dir(entries),
        ),
        unused(worlds[0].disk, Area::Staging),
    ensures
        ({
            let cost = 2 + whole_copy_cost(entries) + whole_hash_cost(entries) as int;
            let database = database_bytes(worlds[1].disk, Area::Staging);
            &&& crate::world::reaches(
                SnapshotView::Vacuuming { fresh },
                replies,
                worlds,
                cost,
                snapshot_end(database, entries),
            )
            &&& replies.len() >= cost ==> snapshot_kept(worlds[cost].disk, database, entries)
        }),
{
    let cost = whole_copy_cost(entries) + whole_hash_cost(entries) as int;
    let database = database_bytes(worlds[1].disk, Area::Staging);
    let end = snapshot_end(database, entries);
    let replies1 = replies.skip(1);
    let worlds1 = worlds.skip(1);
    let start = SnapshotView::Vacuuming { fresh };
    let middle = SnapshotView::Reading { fresh };
    crate::world::lemma_reaches_next(start, replies, worlds);
    let next = start.step(replies[0]);
    if replies.len() > 0 {
        lemma_vacuumed(fresh, worlds[0], worlds1[0], entries);
        crate::world::lemma_reaches_next(middle, replies1, worlds1);
        let next1 = middle.step(replies1[0]);
        let replies2 = replies1.skip(1);
        let worlds2 = worlds1.skip(1);
        if replies1.len() > 0 {
            lemma_snapshot_copying(fresh, database, entries, replies2, worlds2);
            if replies2.len() >= cost {
                assert(worlds2[cost] == worlds[cost + 2]);
            }
        }
        crate::world::lemma_reaches_through(
            middle,
            replies1,
            worlds1,
            1,
            next1,
            cost,
            end,
        );
    }
    crate::world::lemma_reaches_through(
        start,
        replies,
        worlds,
        1,
        next,
        1 + cost,
        end,
    );
}

/// From the look at the outputs to the end of the snapshot.
proof fn lemma_snapshot_inspecting(
    entries: Map<Seq<u8>, Node>,
    replies: Seq<ReplyView>,
    worlds: Seq<World>,
)
    requires
        crate::tree::plain_tree(Node::Dir(entries)),
        crate::world::served(SnapshotView::InspectingDatabase, replies, worlds),
        crate::tree::holds(
            worlds[0].disk,
            crate::snapshot::collab_spot(Area::User),
            Node::Dir(entries),
        ),
        unused(worlds[0].disk, Area::Staging),
    ensures
        ({
            let cost = 4 + whole_copy_cost(entries) + whole_hash_cost(entries) as int;
            let database = database_bytes(worlds.skip(1).skip(1)[1].disk, Area::Staging);
            &&& crate::world::reaches(
                SnapshotView::InspectingDatabase,
                replies,
                worlds,
                cost,
                snapshot_end(database, entries),
            )
            &&& replies.len() >= cost ==> snapshot_kept(worlds[cost].disk, database, entries)
        }),
{
    let cost = 2 + whole_copy_cost(entries) + whole_hash_cost(entries) as int;
    let replies1 = replies.skip(1);
    let worlds1 = worlds.skip(1);
    let replies2 = replies1.skip(1);
    let worlds2 = worlds1.skip(1);
    let database = database_bytes(worlds2[1].disk, Area::Staging);
    let end = snapshot_end(database, entries);
    let start = SnapshotView::InspectingDatabase;
    let next = start.step(replies[0]);
    crate::world::lemma_reaches_next(start, replies, worlds);
    if replies.len() > 0 {
        let next1 = next.step(replies1[0]);
        crate::world::lemma_reaches_next(next, replies1, worlds1);
        if replies1.len() > 0 {
            lemma_snapshot_vacuuming(next1->Vacuuming_fresh, entries, replies2, worlds2);
            if replies2.len() >= cost {
                assert(worlds2[cost] == worlds[cost + 2]);
            }
        }
        crate::world::lemma_reaches_through(next, replies1, worlds1, 1, next1, cost, end);
    }
    crate::world::lemma_reaches_through(start, replies, worlds, 1, next, 1 + cost, end);
}

/// The staging area has been created.
pub proof fn lemma_staging_created(before: World, after: World, entries: Map<Seq<u8>, Node>)
    requires
        crate::tree::holds(
            before.disk,
            crate::snapshot::collab_spot(Area::User),
            Node::Dir(entries),
        ),
        unused(before.disk, Area::Staging),
        crate::world::serves(
            before,
            SnapshotView::Creating.request()->0,
            ReplyView::Done,
            after,
        ),
    ensures
        crate::tree::holds(
            after.disk,
            crate::snapshot::collab_spot(Area::User),
            Node::Dir(entries),
        ),
        unused(after.disk, Area::Staging),
{
    let user = crate::snapshot::collab_spot(Area::User);
    let top = crate::snapshot::area_spot(Area::Staging);
    assert forall|path: Seq<Seq<u8>>| #[trigger]
        crate::tree::found(after.disk, crate::tree::below(user, path)) == crate::tree::at(
            Node::Dir(entries),
            path,
        ) by {
        assert(crate::tree::found(before.disk, crate::tree::below(user, path))
            == crate::tree::at(Node::Dir(entries), path));
    }
    assert forall|s: Spot| #[trigger]
        after.disk.dom().contains(s) && s.0 == Area::Staging implies s == top by {
        if crate::tree::within(s, top) {
            assert(s.1 =~= top.1);
        }
    }
}

/// On a faultless file system, a snapshot into an unused staging area ends after a number of
/// replies that the collab database directory alone determines. Where some part of that directory
/// is neither file nor directory the snapshot does not end without a failure. If it ends, it has
/// succeeded: the staging area holds a copy of the database and a copy of the collab database
/// directory that is identical to the user's, and the manifest records the checksums of exactly
/// these two. The user's collab database directory is as it was.
pub proof fn law_snapshot(
    entries: Map<Seq<u8>, Node>,
    replies: Seq<ReplyView>,
    worlds: Seq<World>,
)
    requires
        crate::tree::finite_tree(Node::Dir(entries)),
        crate::world::served(SnapshotView::Creating, replies, worlds),
        crate::tree::holds(
            worlds[0].disk,
            crate::snapshot::collab_spot(Area::User),
            Node::Dir(entries),
        ),
        unused(worlds[0].disk, Area::Staging),
    ensures
        ({
            let end = crate::world::run(SnapshotView::Creating, replies);
            let disk = worlds.last().disk;
            let database = database_bytes(disk, Area::Staging);
            let plain = crate::tree::plain_tree(Node::Dir(entries));
            &&& plain ==> replies.len() <= snapshot_cost(entries)
            &&& end.request() is None <==> plain && replies.len() == snapshot_cost(entries)
            &&& end.request() is None ==> {
                &&& holds_data(disk, Area::Staging, database, entries)
                &&& only_outputs(disk, Area::Staging)
                &&& end == SnapshotView::Finished(
                    Ok(
                        crate::snapshot::manifest_of(
                            crate::digest::checksum(database),
                            crate::checksum::dir_checksum(entries),
                        ),
                    ),
                )
                &&& crate::tree::holds(
                    disk,
                    crate::snapshot::collab_spot(Area::User),
                    Node::Dir(entries),
                )
            }
        }),
{
    if crate::tree::plain_tree(Node::Dir(entries)) {
        let start = SnapshotView::Creating;
        let cost = 4 + whole_copy_cost(entries) + whole_hash_cost(entries) as int;
        let replies1 = replies.skip(1);
        let worlds1 = worlds.skip(1);
        let database = database_bytes(worlds1.skip(1).skip(1)[1].disk, Area::Staging);
        let end = snapshot_end(database, entries);
        crate::world::lemma_reaches_next(start, replies, worlds);
        if replies.len() > 0 {
            lemma_staging_created(worlds[0], worlds1[0], entries);
            lemma_snapshot_inspecting(entries, replies1, worlds1);
            if replies1.len() >= cost {
                assert(worlds1[cost] == worlds[1 + cost]);
            }
        }
        crate::world::lemma_reaches_through(
            start,
            replies,
            worlds,
            1,
            start.step(replies[0]),
            cost,
            end,
        );
        crate::world::lemma_reaches_end(start, replies, worlds, 1 + cost, end);
    } else {
        lemma_snapshot_stuck(entries, replies, worlds);
    }
}

/// What the user's collab database directory becomes in one step of a snapshot: nothing else than
/// it was.
pub proof fn lemma_user_step(
    job: SnapshotView,
    before: World,
    reply: ReplyView,
    after: World,
    entries: Map<Seq<u8>, Node>,
)
    requires
        sound(job),
        job.request() is Some,
        crate::world::serves(before, job.request()->0, reply, after),
        crate::tree::holds(
            before.disk,
            crate::snapshot::collab_spot(Area::User),
            Node::Dir(entries),
        ),
    ensures
        crate::tree::holds(
            after.disk,
            crate::snapshot::collab_spot(Area::User),
            Node::Dir(entries),
        ),
{
    let user = crate::snapshot::collab_spot(Area::User);
    lemma_outputs_apart(Area::User);
    crate::world::lemma_served_is_confined(before, job.request()->0, reply, after);
    assert forall|path: Seq<Seq<u8>>| #[trigger]
        crate::tree::found(after.disk, crate::tree::below(user, path)) == crate::tree::at(
            Node::Dir(entries),
            path,
        ) by {
        let s = crate::tree::below(user, path);
        if crate::world::writes(job.request()->0, s) {
            lemma_snapshot_writes(job, s);
        }
        assert(crate::tree::found(before.disk, s) == crate::tree::at(Node::Dir(entries), path));
    }
}

/// A snapshot of a directory of which some part is neither file nor directory does not end without
/// a failure.
proof fn lemma_snapshot_stuck(
    entries: Map<Seq<u8>, Node>,
    replies: Seq<ReplyView>,
    worlds: Seq<World>,
)
    requires
        crate::tree::finite_tree(Node::Dir(entries)),
        !crate::tree::plain_tree(Node::Dir(entries)),
        crate::world::served(SnapshotView::Creating, replies, worlds),
        crate::tree::holds(
            worlds[0].disk,
            crate::snapshot::collab_spot(Area::User),
            Node::Dir(entries),
        ),
    ensures
        crate::world::run(SnapshotView::Creating, replies).request() is Some,
{
    lemma_stuck_from(SnapshotView::Creating, entries, replies, worlds);
}

/// A snapshot is not yet at the copy of the directory.
pub open spec fn preparing(job: SnapshotView) -> bool {
    job is Creating || job is InspectingDatabase || job is InspectingCollab || job is Vacuuming
        || job is Reading
}

proof fn lemma_stuck_from(
    job: SnapshotView,
    entries: Map<Seq<u8>, Node>,
    replies: Seq<ReplyView>,
    worlds: Seq<World>,
)
    requires
        preparing(job),
        crate::tree::finite_tree(Node::Dir(entries)),
        !crate::tree::plain_tree(Node::Dir(entries)),
        crate::world::served(job, replies, worlds),
        crate::tree::holds(
            worlds[0].disk,
            crate::snapshot::collab_spot(Area::User),
            Node::Dir(entries),
        ),
    ensures
        crate::world::run(job, replies).request() is Some,
    decreases replies.len(),
{
    if replies.len() > 0 {
        let next = job.step(replies[0]);
        let replies1 = replies.skip(1);
        let worlds1 = worlds.skip(1);
        lemma_user_step(job, worlds[0], replies[0], worlds[1], entries);
        assert(crate::world::run(job, replies) == crate::world::run(next, replies1));
        if let SnapshotView::Reading { fresh } = job {
            let user = crate::snapshot::collab_spot(Area::User);
            let staging = crate::snapshot::collab_spot(Area::Staging);
            let text = crate::digest::checksum(replies[0]->Data_0);
            let outer = |copy: CopyView| crate::snapshot::while_copying(fresh, text, copy);
            assert(outer(crate::copy::copy_start(user, staging)) == next);
            lemma_copy_stuck_inside(outer, user, staging, entries, replies1, worlds1);
        } else {
            lemma_stuck_from(next, entries, replies1, worlds1);
        }
    }
}

/// Two snapshots of the same collab database directory record the same checksum for it, whenever
/// and in whatever order the directory was read.
pub proof fn law_same_data_same_checksum(
    entries: Map<Seq<u8>, Node>,
    one: Seq<ReplyView>,
    one_worlds: Seq<World>,
    one_manifest: Map<Seq<char>, Seq<char>>,
    other: Seq<ReplyView>,
    other_worlds: Seq<World>,
    other_manifest: Map<Seq<char>, Seq<char>>,
)
    requires
        crate::tree::finite_tree(Node::Dir(entries)),
        crate::world::served(SnapshotView::Creating, one, one_worlds),
        crate::world::served(SnapshotView::Creating, other, other_worlds),
        crate::tree::holds(
            one_worlds[0].disk,
            crate::snapshot::collab_spot(Area::User),
            Node::Dir(entries),
        ),
        crate::tree::holds(
            other_worlds[0].disk,
            crate::snapshot::collab_spot(Area::User),
            Node::Dir(entries),
        ),
        unused(one_worlds[0].disk, Area::Staging),
        unused(other_worlds[0].disk, Area::Staging),
        crate::world::run(SnapshotView::Creating, one) == SnapshotView::Finished(
            Ok(one_manifest),
        ),
        crate::world::run(SnapshotView::Creating, other) == SnapshotView::Finished(
            Ok(other_manifest),
        ),
    ensures
        one_manifest.contains_key(crate::snapshot::collab_name()),
        other_manifest.contains_key(crate::snapshot::collab_name()),
        one_manifest[crate::snapshot::collab_name()]
            == other_manifest[crate::snapshot::collab_name()],
{
    law_snapshot(entries, one, one_worlds);
    law_snapshot(entries, other, other_worlds);
}

/// The copy is at work at or below `to`.
pub open spec fn copies_into(copy: CopyView, to: Spot) -> bool {
    match copy {
        CopyView::Active { from, to: at, depth, phase } => {
            &&& crate::tree::within(to, at)
            &&& at.1.len() == to.1.len() + depth
        },
        CopyView::Finished(_) => true,
    }
}

/// A copy at work at or below `to` stays there.
pub proof fn lemma_copies_into_step(copy: CopyView, to: Spot, reply: ReplyView)
    requires
        copies_into(copy, to),
    ensures
        copies_into(copy.step(reply), to),
{
    if let CopyView::Active { from, to: at, depth, phase } = copy {
        if let ReplyView::Entry { name, is_dir } = reply {
            assert(at.1.push(name).take(to.1.len() as int) =~= at.1.take(to.1.len() as int));
        }
        if depth > 0 {
            assert(at.1.drop_last().take(to.1.len() as int) =~= at.1.take(to.1.len() as int));
        }
    }
}

/// It changes nothing but what is below `to`, or leads there.
pub proof fn lemma_copies_into_writes(copy: CopyView, to: Spot, s: Spot)
    requires
        copies_into(copy, to),
        copy.request() is Some,
        crate::world::writes(copy.request()->0, s),
    ensures
        crate::tree::within(to, s) || crate::tree::within(s, to),
{
    if let CopyView::Active { from, to: at, depth, phase } = copy {
        match phase {
            CopyPhaseView::Creating => {
                if s.1.len() <= to.1.len() {
                    assert(s.1 =~= to.1.take(s.1.len() as int));
                } else {
                    assert(to.1 =~= s.1.take(to.1.len() as int));
                }
            },
            CopyPhaseView::Copying(name) => {
                assert(to.1 =~= s.1.take(to.1.len() as int));
            },
            _ => {},
        }
    }
}

/// A copy, whatever comes of it, leaves alone what is not below `to` and does not lead there.
pub proof fn lemma_copy_attempted(
    copy: CopyView,
    to: Spot,
    replies: Seq<ReplyView>,
    worlds: Seq<World>,
)
    requires
        copies_into(copy, to),
        crate::world::attempted(copy, replies, worlds),
    ensures
        forall|s: Spot|
            !crate::tree::within(to, s) && !crate::tree::within(s, to)
                ==> #[trigger] crate::tree::found(worlds.last().disk, s) == crate::tree::found(
                worlds[0].disk,
                s,
            ),
    decreases replies.len(),
{
    if replies.len() > 0 {
        lemma_copies_into_step(copy, to, replies[0]);
        lemma_copy_attempted(copy.step(replies[0]), to, replies.skip(1), worlds.skip(1));
        assert(worlds.skip(1).last() == worlds.last());
        assert forall|s: Spot|
            !crate::tree::within(to, s) && !crate::tree::within(
                s,
                to,
            ) implies #[trigger] crate::tree::found(worlds.last().disk, s) == crate::tree::found(
            worlds[0].disk,
            s,
        ) by {
            if crate::world::writes(copy.request()->0, s) {
                lemma_copies_into_writes(copy, to, s);
            }
            assert(crate::tree::found(worlds[1].disk, s) == crate::tree::found(
                worlds[0].disk,
                s,
            ));
        }
    }
}

/// A snapshot copies the directory to its place in the staging area.
pub open spec fn sound(job: SnapshotView) -> bool {
    job matches SnapshotView::Copying { fresh, database, copy } ==> copies_into(
        copy,
        crate::snapshot::collab_spot(Area::Staging),
    )
}

/// A snapshot goes on copying to that place.
pub proof fn lemma_sound_step(job: SnapshotView, reply: ReplyView)
    requires
        sound(job),
    ensures
        sound(job.step(reply)),
{
    let staging = crate::snapshot::collab_spot(Area::Staging);
    if let SnapshotView::Copying { fresh, database, copy } = job {
        lemma_copies_into_step(copy, staging, reply);
    }
    let start = crate::copy::copy_start(crate::snapshot::collab_spot(Area::User), staging);
    assert(copies_into(start, staging)) by {
        assert(staging.1.take(staging.1.len() as int) =~= staging.1);
    }
}

/// A snapshot changes nothing but the staging area and what belongs to the user's database.
pub proof fn lemma_snapshot_writes(job: SnapshotView, s: Spot)
    requires
        sound(job),
        job.request() is Some,
        crate::world::writes(job.request()->0, s),
    ensures
        s.0 == Area::Staging || crate::world::belongs_to(
            crate::snapshot::database_spot(Area::User),
            s,
        ),
{
    if let SnapshotView::Copying { fresh, database, copy } = job {
        lemma_copies_into_writes(copy, crate::snapshot::collab_spot(Area::Staging), s);
    }
}

proof fn lemma_collab_untouched(
    job: SnapshotView,
    replies: Seq<ReplyView>,
    worlds: Seq<World>,
    path: Seq<Seq<u8>>,
)
    requires
        sound(job),
        crate::world::attempted(job, replies, worlds),
    ensures
        ({
            let s = crate::tree::below(crate::snapshot::collab_spot(Area::User), path);
            crate::tree::found(worlds.last().disk, s) == crate::tree::found(worlds[0].disk, s)
        }),
    decreases replies.len(),
{
    if replies.len() > 0 {
        let s = crate::tree::below(crate::snapshot::collab_spot(Area::User), path);
        lemma_sound_step(job, replies[0]);
        lemma_collab_untouched(
            job.step(replies[0]),
            replies.skip(1),
            worlds.skip(1),
            path,
        );
        assert(worlds.skip(1).last() == worlds.last());
        lemma_outputs_apart(Area::User);
        if crate::world::writes(job.request()->0, s) {
            lemma_snapshot_writes(job, s);
        }
        assert(crate::tree::found(worlds[1].disk, s) == crate::tree::found(worlds[0].disk, s));
    }
}

/// Whatever comes of a snapshot, and wherever it has got to, the user's collab database directory
/// is as it was: the same is found at every path in it.
pub proof fn law_user_directory_is_untouched(replies: Seq<ReplyView>, worlds: Seq<World>)
    requires
        crate::world::attempted(SnapshotView::Creating, replies, worlds),
    ensures
        forall|path: Seq<Seq<u8>>|
            crate::tree::found(
                worlds.last().disk,
                #[trigger] crate::tree::below(crate::snapshot::collab_spot(Area::User), path),
            ) == crate::tree::found(
                worlds[0].disk,
                crate::tree::below(crate::snapshot::collab_spot(Area::User), path),
            ),
{
    assert forall|path: Seq<Seq<u8>>|
        crate::tree::found(
            worlds.last().disk,
            #[trigger] crate::tree::below(crate::snapshot::collab_spot(Area::User), path),
        ) == crate::tree::found(
            worlds[0].disk,
            crate::tree::below(crate::snapshot::collab_spot(Area::User), path),
        ) by {
        lemma_collab_untouched(SnapshotView::Creating, replies, worlds, path);
    }
}

/// The snapshot has failed and is removing what it has made.
pub open spec fn giving_up(job: SnapshotView) -> bool {
    job is RemovingCollab || job is RemovingDatabase
}

/// A snapshot that has failed stays failed.
pub proof fn lemma_no_way_back(job: SnapshotView, replies: Seq<ReplyView>)
    requires
        giving_up(job) || job matches SnapshotView::Finished(Err(_)),
    ensures
        !(crate::world::run(job, replies) matches SnapshotView::Finished(Ok(_))),
    decreases replies.len(),
{
    if replies.len() > 0 {
        lemma_no_way_back(job.step(replies[0]), replies.skip(1));
    }
}

/// A checksum changes nothing.
pub proof fn lemma_hash_reads(hash: HashView, replies: Seq<ReplyView>, worlds: Seq<World>)
    requires
        crate::world::served(hash, replies, worlds),
    ensures
        worlds.last() == worlds[0],
    decreases replies.len(),
{
    if replies.len() > 0 {
        lemma_hash_reads(hash.step(replies[0]), replies.skip(1), worlds.skip(1));
        assert(worlds.skip(1).last() == worlds.last());
        assert(worlds[1] == worlds[0]);
    }
}

/// The end of a snapshot that succeeds, from the start of the checksum of the directory.
proof fn lemma_hashing_succeeds(
    fresh: Fresh,
    database: Seq<char>,
    entries: Map<Seq<u8>, Node>,
    replies: Seq<ReplyView>,
    worlds: Seq<World>,
    manifest: Map<Seq<char>, Seq<char>>,
)
    requires
        crate::world::served(
            crate::snapshot::while_copying(fresh, database, CopyView::Finished(Ok(()))),
            replies,
            worlds,
        ),
        crate::world::run(
            crate::snapshot::while_copying(fresh, database, CopyView::Finished(Ok(()))),
            replies,
        ) == SnapshotView::Finished(Ok(manifest)),
        crate::tree::holds(
            worlds.last().disk,
            crate::snapshot::collab_spot(Area::Staging),
            Node::Dir(entries),
        ),
        crate::tree::finite_tree(Node::Dir(entries)),
    ensures
        manifest == crate::snapshot::manifest_of(database, crate::checksum::dir_checksum(entries)),
        worlds.last() == worlds[0],
{
    let staging = crate::snapshot::collab_spot(Area::Staging);
    let inner = crate::checksum::hash_start(staging);
    let outer = |hash: HashView| crate::snapshot::while_hashing(fresh, database, hash);
    let start = outer(inner);
    assert(start == crate::snapshot::while_copying(fresh, database, CopyView::Finished(Ok(()))));
    let carried = crate::world::lemma_carried(outer, inner, replies, worlds);
    let part = replies.take(carried);
    let passed = worlds.take(carried + 1);
    let last = crate::world::run(inner, part);
    crate::world::lemma_reaches_rest(start, replies, worlds, carried, outer(last));
    let rest = replies.skip(carried);
    if last is Active {
        assert(rest.len() == 0);
        assert(false);
    }
    if last matches HashView::Finished(Err(_)) {
        lemma_no_way_back(outer(last), rest);
        assert(false);
    }
    assert(rest.len() == 0);
    lemma_hash_reads(inner, part, passed);
    assert(passed.last() == worlds.last());
    assert(passed[0] == worlds[0]);
    crate::checksum_laws::law_checksum_of_tree(staging, entries, part, passed);
}

/// The end of a snapshot that succeeds, from the start of the copy of the directory.
proof fn lemma_copying_succeeds(
    fresh: Fresh,
    bytes: Seq<u8>,
    entries: Map<Seq<u8>, Node>,
    replies: Seq<ReplyView>,
    worlds: Seq<World>,
    manifest: Map<Seq<char>, Seq<char>>,
)
    requires
        crate::world::served(
            (SnapshotView::Reading { fresh }).step(ReplyView::Data(bytes)),
            replies,
            worlds,
        ),
        crate::world::run((SnapshotView::Reading { fresh }).step(ReplyView::Data(bytes)), replies)
            == SnapshotView::Finished(Ok(manifest)),
        crate::tree::found(worlds[0].disk, crate::snapshot::database_spot(Area::Staging)) == Some(
            Leaf::File(bytes),
        ),
        crate::tree::holds(
            worlds.last().disk,
            crate::snapshot::collab_spot(Area::Staging),
            Node::Dir(entries),
        ),
        crate::tree::finite_tree(Node::Dir(entries)),
    ensures
        manifest == crate::snapshot::manifest_of(
            crate::digest::checksum(bytes),
            crate::checksum::dir_checksum(entries),
        ),
        crate::tree::found(worlds.last().disk, crate::snapshot::database_spot(Area::Staging))
            == Some(Leaf::File(bytes)),
{
    let user = crate::snapshot::collab_spot(Area::User);
    let staging = crate::snapshot::collab_spot(Area::Staging);
    let database = crate::snapshot::database_spot(Area::Staging);
    let text = crate::digest::checksum(bytes);
    let inner = crate::copy::copy_start(user, staging);
    let outer = |copy: CopyView| crate::snapshot::while_copying(fresh, text, copy);
    let start = outer(inner);
    assert(start == (SnapshotView::Reading { fresh }).step(ReplyView::Data(bytes)));
    let carried = crate::world::lemma_carried(outer, inner, replies, worlds);
    let part = replies.take(carried);
    let passed = worlds.take(carried + 1);
    let last = crate::world::run(inner, part);
    crate::world::lemma_reaches_rest(start, replies, worlds, carried, outer(last));
    let rest = replies.skip(carried);
    let rest_worlds = worlds.skip(carried);
    if last is Active {
        assert(rest.len() == 0);
        assert(false);
    }
    if last matches CopyView::Finished(Err(_)) {
        lemma_no_way_back(outer(last), rest);
        assert(false);
    }
    assert(outer(last) == outer(CopyView::Finished(Ok(()))));
    crate::world::lemma_served_is_attempted(inner, part, passed);
    assert(copies_into(inner, staging)) by {
        assert(staging.1.take(staging.1.len() as int) =~= staging.1);
    }
    lemma_copy_attempted(inner, staging, part, passed);
    lemma_outputs_apart(Area::Staging);
    assert(crate::tree::found(passed.last().disk, database) == crate::tree::found(
        passed[0].disk,
        database,
    ));
    assert(passed.last() == rest_worlds[0]);
    assert(rest_worlds.last() == worlds.last());
    lemma_hashing_succeeds(fresh, text, entries, rest, rest_worlds, manifest);
}

/// The manifest of a snapshot that succeeds records what is in the staging area at its end, whether
/// the area was unused before or not: the checksum of the database that is there, and that of the
/// whole collab database directory that is there.
pub proof fn law_manifest_matches_staging(
    entries: Map<Seq<u8>, Node>,
    replies: Seq<ReplyView>,
    worlds: Seq<World>,
    manifest: Map<Seq<char>, Seq<char>>,
)
    requires
        crate::world::served(SnapshotView::Creating, replies, worlds),
        crate::world::run(SnapshotView::Creating, replies) == SnapshotView::Finished(Ok(manifest)),
        crate::tree::holds(
            worlds.last().disk,
            crate::snapshot::collab_spot(Area::Staging),
            Node::Dir(entries),
        ),
        crate::tree::finite_tree(Node::Dir(entries)),
    ensures
        ({
            let disk = worlds.last().disk;
            let database = database_bytes(disk, Area::Staging);
            &&& holds_data(disk, Area::Staging, database, entries)
            &&& manifest == crate::snapshot::manifest_of(
                crate::digest::checksum(database),
                crate::checksum::dir_checksum(entries),
            )
        }),
{
    lemma_succeeds_from(SnapshotView::Creating, entries, replies, worlds, manifest);
}

/// The end of a snapshot that succeeds, from anywhere before the copy of the directory.
proof fn lemma_succeeds_from(
    job: SnapshotView,
    entries: Map<Seq<u8>, Node>,
    replies: Seq<ReplyView>,
    worlds: Seq<World>,
    manifest: Map<Seq<char>, Seq<char>>,
)
    requires
        preparing(job),
        crate::world::served(job, replies, worlds),
        crate::world::run(job, replies) == SnapshotView::Finished(Ok(manifest)),
        crate::tree::holds(
            worlds.last().disk,
            crate::snapshot::collab_spot(Area::Staging),
            Node::Dir(entries),
        ),
        crate::tree::finite_tree(Node::Dir(entries)),
    ensures
        ({
            let disk = worlds.last().disk;
            let database = database_bytes(disk, Area::Staging);
            &&& holds_data(disk, Area::Staging, database, entries)
            &&& manifest == crate::snapshot::manifest_of(
                crate::digest::checksum(database),
                crate::checksum::dir_checksum(entries),
            )
        }),
    decreases replies.len(),
{
    let next = job.step(replies[0]);
    let replies1 = replies.skip(1);
    let worlds1 = worlds.skip(1);
    assert(replies.len() > 0);
    assert(crate::world::run(job, replies) == crate::world::run(next, replies1));
    assert(worlds1.last() == worlds.last());
    if let SnapshotView::Reading { fresh } = job {
        let bytes = replies[0]->Data_0;
        lemma_copying_succeeds(fresh, bytes, entries, replies1, worlds1, manifest);
    } else {
        lemma_succeeds_from(next, entries, replies1, worlds1, manifest);
    }
}

/// A snapshot into a staging area that already holds a database is refused by the database engine:
/// it ends with the engine's error after four replies, and everything that is in the staging area
/// is as it was.
pub proof fn law_second_snapshot_is_refused(replies: Seq<ReplyView>, worlds: Seq<World>)
    requires
        crate::world::served_or_refused(SnapshotView::Creating, replies, worlds),
        crate::world::taken(worlds[0], crate::snapshot::database_spot(Area::Staging)),
    ensures
        ({
            let end = crate::world::run(SnapshotView::Creating, replies);
            &&& replies.len() <= 4
            &&& end.request() is None <==> replies.len() == 4
            &&& replies.len() == 4 ==> replies[3] is Failed && end == SnapshotView::Finished(
                Err(ErrorView::Snapshot(replies[3]->Failed_0)),
            )
            &&& forall|s: Spot|
                s.0 == Area::Staging && (s != crate::snapshot::area_spot(Area::Staging)
                    || crate::tree::found(worlds[0].disk, s) is Some)
                    ==> #[trigger] crate::tree::found(worlds.last().disk, s) == crate::tree::found(
                    worlds[0].disk,
                    s,
                )
        }),
{
    lemma_refused_from(SnapshotView::Creating, replies, worlds);
}

/// How many replies are still to come until the database engine refuses.
spec fn until_refused(job: SnapshotView) -> nat {
    match job {
        SnapshotView::Creating => 4,
        SnapshotView::InspectingDatabase => 3,
        SnapshotView::InspectingCollab { .. } => 2,
        SnapshotView::Vacuuming { .. } => 1,
        _ => 0,
    }
}

/// The snapshot knows that the database is not its own, if it has looked.
spec fn knows_database(job: SnapshotView) -> bool {
    match job {
        SnapshotView::InspectingCollab { database } => !database,
        SnapshotView::Vacuuming { fresh } => !fresh.database,
        _ => true,
    }
}

proof fn lemma_refused_from(job: SnapshotView, replies: Seq<ReplyView>, worlds: Seq<World>)
    requires
        job is Creating || job is InspectingDatabase || job is InspectingCollab || job is Vacuuming,
        knows_database(job),
        crate::world::served_or_refused(job, replies, worlds),
        crate::world::taken(worlds[0], crate::snapshot::database_spot(Area::Staging)),
    ensures
        ({
            let end = crate::world::run(job, replies);
            let count = until_refused(job);
            &&& replies.len() <= count
            &&& end.request() is None <==> replies.len() == count
            &&& replies.len() == count ==> replies.last() is Failed && end
                == SnapshotView::Finished(Err(ErrorView::Snapshot(replies.last()->Failed_0)))
            &&& forall|s: Spot|
                s.0 == Area::Staging && (s != crate::snapshot::area_spot(Area::Staging)
                    || crate::tree::found(worlds[0].disk, s) is Some)
                    ==> #[trigger] crate::tree::found(worlds.last().disk, s) == crate::tree::found(
                    worlds[0].disk,
                    s,
                )
        }),
    decreases replies.len(),
{
    let top = crate::snapshot::area_spot(Area::Staging);
    let database = crate::snapshot::database_spot(Area::Staging);
    if replies.len() > 0 {
        let next = job.step(replies[0]);
        let replies1 = replies.skip(1);
        let worlds1 = worlds.skip(1);
        assert(worlds1.last() == worlds.last());
        assert(crate::world::run(job, replies) == crate::world::run(next, replies1));
        assert forall|s: Spot|
            s.0 == Area::Staging && (s != top || crate::tree::found(worlds[0].disk, s)
                is Some) implies #[trigger] crate::tree::found(worlds1[0].disk, s)
            == crate::tree::found(worlds[0].disk, s) by {
            if job is Creating && crate::tree::within(s, top) {
                assert(s.1 =~= top.1);
            }
        }
        assert(crate::tree::found(worlds1[0].disk, database) == crate::tree::found(
            worlds[0].disk,
            database,
        )) by {
            assert(database != top) by {
                assert(database.1.len() != top.1.len());
            }
        }
        if job is Vacuuming {
            assert(next.request() is None);
            assert(crate::world::served_or_refused(next, replies1, worlds1));
            assert(replies1.len() == 0);
            assert(replies.last() == replies[0]);
            assert(crate::world::run(next, replies1) == next);
        } else {
            lemma_refused_from(next, replies1, worlds1);
            if replies1.len() > 0 {
                assert(replies1.last() == replies.last());
            }
        }
    }
}

/// A snapshot into a staging area in which a snapshot has succeeded, and which is as that one has
/// left it, ends with an error of the database engine and leaves the earlier snapshot as it is:
/// its manifest still records what is there. This holds of a database whose copy is not empty.
pub proof fn law_second_snapshot_keeps_the_first(
    entries: Map<Seq<u8>, Node>,
    first: Seq<ReplyView>,
    first_worlds: Seq<World>,
    manifest: Map<Seq<char>, Seq<char>>,
    second: Seq<ReplyView>,
    second_worlds: Seq<World>,
)
    requires
        crate::world::served(SnapshotView::Creating, first, first_worlds),
        crate::world::run(SnapshotView::Creating, first) == SnapshotView::Finished(Ok(manifest)),
        crate::tree::holds(
            first_worlds.last().disk,
            crate::snapshot::collab_spot(Area::Staging),
            Node::Dir(entries),
        ),
        crate::tree::finite_tree(Node::Dir(entries)),
        database_bytes(first_worlds.last().disk, Area::Staging).len() > 0,
        forall|s: Spot|
            s.0 == Area::Staging ==> #[trigger] crate::tree::found(second_worlds[0].disk, s)
                == crate::tree::found(first_worlds.last().disk, s),
        crate::world::served_or_refused(SnapshotView::Creating, second, second_worlds),
        crate::world::run(SnapshotView::Creating, second).request() is None,
    ensures
        crate::world::run(SnapshotView::Creating, second) matches SnapshotView::Finished(
            Err(ErrorView::Snapshot(_)),
        ),
        ({
            let disk = second_worlds.last().disk;
            let database = database_bytes(disk, Area::Staging);
            &&& holds_data(disk, Area::Staging, database, entries)
            &&& manifest == crate::snapshot::manifest_of(
                crate::digest::checksum(database),
                crate::checksum::dir_checksum(entries),
            )
        }),
{
    let before = first_worlds.last().disk;
    let after = second_worlds.last().disk;
    let top = crate::snapshot::area_spot(Area::Staging);
    let spot = crate::snapshot::database_spot(Area::Staging);
    let collab = crate::snapshot::collab_spot(Area::Staging);
    law_manifest_matches_staging(entries, first, first_worlds, manifest);
    assert(crate::tree::found(second_worlds[0].disk, spot) == crate::tree::found(before, spot));
    law_second_snapshot_is_refused(second, second_worlds);
    assert(spot != top) by {
        assert(spot.1.len() != top.1.len());
    }
    assert(crate::tree::found(after, spot) == crate::tree::found(before, spot));
    assert forall|path: Seq<Seq<u8>>| #[trigger]
        crate::tree::found(after, crate::tree::below(collab, path)) == crate::tree::at(
            Node::Dir(entries),
            path,
        ) by {
        let s = crate::tree::below(collab, path);
        assert(s != top) by {
            assert(s.1.len() > 0);
        }
        assert(crate::tree::found(before, s) == crate::tree::at(Node::Dir(entries), path));
        assert(crate::tree::found(second_worlds[0].disk, s) == crate::tree::found(before, s));
    }
}

/// A snapshot can go on with whatever a faultless file system answers it, and with a refusal of the
/// database engine, as long as the file or the directory whose checksum it takes keeps within what
/// SHA-256 is defined for.
pub proof fn law_snapshot_accepts_replies(
    job: SnapshotView,
    before: World,
    reply: ReplyView,
    after: World,
)
    requires
        job.request() is Some,
        crate::world::serves(before, job.request()->0, reply, after) || crate::world::refuses(
            before,
            job.request()->0,
            reply,
            after,
        ),
        job is Reading ==> reply->Data_0.len() <= crate::digest::MAX_MESSAGE,
        job matches SnapshotView::Hashing { fresh, database, hash } ==> hash_has_room(hash, reply),
    ensures
        crate::snapshot::snapshot_accepts(job, reply),
{
    match job {
        SnapshotView::Copying { fresh, database, copy } => {
            crate::copy_laws::law_copy_accepts_replies(copy, before, reply, after);
        },
        SnapshotView::Hashing { fresh, database, hash } => {
            crate::checksum_laws::law_checksum_accepts_replies(hash, before, reply, after);
        },
        _ => {},
    }
}

/// The message of the innermost directory has room for what the reply adds to it.
pub open spec fn hash_has_room(hash: HashView, reply: ReplyView) -> bool {
    hash matches HashView::Active { area, path, frames, phase } ==> {
        &&& frames.last().message.len() + crate::digest::CHECKSUM_LEN
            <= crate::digest::MAX_MESSAGE
        &&& reply matches ReplyView::Data(bytes) ==> frames.last().message.len() + bytes.len()
            <= crate::digest::MAX_MESSAGE
    }
}

} // verus!
