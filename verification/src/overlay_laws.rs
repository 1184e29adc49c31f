//! Snapshots and restorations into directories in which there is something already.
use vstd::prelude::*;

use crate::checksum::{FrameView, HashPhaseView, HashView};
use crate::copy::CopyView;
use crate::error::ErrorView;
use crate::io::{Area, ReplyView, Spot};
use crate::restore::{RestorePhaseView, RestoreView};
use crate::snapshot::{Fresh, SnapshotView};
use crate::tree::{Disk, Leaf, Node};
use crate::world::{Machine, World};

verus! {

/// The collab database directory of the area has become the one with these entries, laid over what
/// was there: at every path of theirs there is what they have, and at every other path of the area,
/// but for its top and its database, there is what there was.
pub open spec fn laid_over(
    before: Disk,
    after: Disk,
    area: Area,
    entries: Map<Seq<u8>, Node>,
) -> bool {
    let collab = crate::snapshot::collab_spot(area);
    forall|s: Spot|
        s.0 == area && s != crate::snapshot::area_spot(area) && s != crate::snapshot::database_spot(
            area,
        ) ==> #[trigger] crate::tree::found(after, s) == if crate::tree::within(collab, s)
            && crate::tree::at(Node::Dir(entries), crate::tree::way(collab, s)) is Some {
            crate::tree::at(Node::Dir(entries), crate::tree::way(collab, s))
        } else {
            crate::tree::found(before, s)
        }
}

/// A directory that has been copied to its place in an area lies over what was there.
proof fn lemma_grafted_lies_over(before: Disk, after: Disk, area: Area, entries: Map<Seq<u8>, Node>)
    requires
        after == crate::tree::grafted(
            crate::tree::with_dirs(before, crate::snapshot::collab_spot(area)),
            crate::snapshot::collab_spot(area),
            Node::Dir(entries),
        ),
    ensures
        laid_over(before, after, area, entries),
        crate::tree::found(after, crate::snapshot::database_spot(area)) == crate::tree::found(
            before,
            crate::snapshot::database_spot(area),
        ),
{
    let collab = crate::snapshot::collab_spot(area);
    let top = crate::snapshot::area_spot(area);
    crate::snapshot_laws::lemma_outputs_apart(area);
    assert forall|s: Spot| s.0 == area && s != top && s != crate::snapshot::database_spot(
        area,
    ) implies #[trigger] crate::tree::found(after, s) == if crate::tree::within(collab, s)
        && crate::tree::at(Node::Dir(entries), crate::tree::way(collab, s)) is Some {
        crate::tree::at(Node::Dir(entries), crate::tree::way(collab, s))
    } else {
        crate::tree::found(before, s)
    } by {
        if crate::tree::within(s, collab) {
            if s.1.len() == 0 {
                assert(s.1 =~= top.1);
            } else {
                assert(s.1 =~= collab.1);
                assert(crate::tree::within(collab, s));
                assert(crate::tree::way(collab, s).len() == 0);
            }
        }
    }
}

/// A change of nothing but the top and the database before the directory is laid over changes
/// nothing of that.
proof fn lemma_laid_over_later(
    before: Disk,
    between: Disk,
    after: Disk,
    area: Area,
    entries: Map<Seq<u8>, Node>,
)
    requires
        forall|s: Spot|
            s.0 == area && s != crate::snapshot::area_spot(area) && s
                != crate::snapshot::database_spot(area) ==> #[trigger] crate::tree::found(
                between,
                s,
            ) == crate::tree::found(before, s),
        laid_over(between, after, area, entries),
    ensures
        laid_over(before, after, area, entries),
{
    assert forall|s: Spot| s.0 == area && s != crate::snapshot::area_spot(area) && s
        != crate::snapshot::database_spot(area) implies #[trigger] crate::tree::found(after, s)
        == if crate::tree::within(crate::snapshot::collab_spot(area), s) && crate::tree::at(
        Node::Dir(entries),
        crate::tree::way(crate::snapshot::collab_spot(area), s),
    ) is Some {
        crate::tree::at(
            Node::Dir(entries),
            crate::tree::way(crate::snapshot::collab_spot(area), s),
        )
    } else {
        crate::tree::found(before, s)
    } by {
        assert(crate::tree::found(between, s) == crate::tree::found(before, s));
    }
}

/// From the start of the copy of the directory to the end of a snapshot that succeeds.
proof fn lemma_directory_brought(
    fresh: Fresh,
    bytes: Seq<u8>,
    entries: Map<Seq<u8>, Node>,
    replies: Seq<ReplyView>,
    worlds: Seq<World>,
)
    requires
        crate::tree::finite_tree(Node::Dir(entries)),
        crate::world::served(
            (SnapshotView::Reading { fresh }).step(ReplyView::Data(bytes)),
            replies,
            worlds,
        ),
        crate::world::run(
            (SnapshotView::Reading { fresh }).step(ReplyView::Data(bytes)),
            replies,
        ) matches SnapshotView::Finished(Ok(_)),
        crate::tree::holds(
            worlds[0].disk,
            crate::snapshot::collab_spot(Area::User),
            Node::Dir(entries),
        ),
    ensures
        crate::tree::plain_tree(Node::Dir(entries)),
        laid_over(worlds[0].disk, worlds.last().disk, Area::Staging, entries),
{
    let user = crate::snapshot::collab_spot(Area::User);
    let staging = crate::snapshot::collab_spot(Area::Staging);
    let text = crate::digest::checksum(bytes);
    let inner = crate::copy::copy_start(user, staging);
    let outer = |copy: CopyView| crate::snapshot::while_copying(fresh, text, copy);
    let start = outer(inner);
    assert(start == (SnapshotView::Reading { fresh }).step(ReplyView::Data(bytes)));
    let carried = crate::world::lemma_carried(outer, inner, replies, worlds);
    let part = replies.take(carried);
    let passed = worlds.take(carried + 1);
    let last = crate::world::run(inner, part);
    crate::world::lemma_reaches_rest(start, replies, worlds, carried, outer(last));
    let rest = replies.skip(carried);
    let rest_worlds = worlds.skip(carried);
    if last is Active {
        assert(rest.len() == 0);
        assert(false);
    }
    if last matches CopyView::Finished(Err(_)) {
        crate::snapshot_laws::lemma_no_way_back(outer(last), rest);
        assert(false);
    }
    crate::copy_laws::law_copy_of_tree(user, staging, entries, part, passed);
    lemma_grafted_lies_over(worlds[0].disk, passed.last().disk, Area::Staging, entries);
    assert(passed.last() == rest_worlds[0]);
    let inner2 = crate::checksum::hash_start(staging);
    let outer2 = |hash: HashView| crate::snapshot::while_hashing(fresh, text, hash);
    assert(outer2(inner2) == outer(last));
    let more = crate::world::lemma_carried(outer2, inner2, rest, rest_worlds);
    let last2 = crate::world::run(inner2, rest.take(more));
    crate::world::lemma_reaches_rest(outer2(inner2), rest, rest_worlds, more, outer2(last2));
    if last2 is Active {
        assert(rest.skip(more).len() == 0);
        assert(false);
    }
    if last2 matches HashView::Finished(Err(_)) {
        crate::snapshot_laws::lemma_no_way_back(outer2(last2), rest.skip(more));
        assert(false);
    }
    assert(rest.skip(more).len() == 0);
    crate::snapshot_laws::lemma_hash_reads(inner2, rest.take(more), rest_worlds.take(more + 1));
    assert(rest_worlds.take(more + 1).last() == rest_worlds.last());
    assert(rest_worlds.last() == worlds.last());
}

/// From anywhere before the copy of the directory to the end of a snapshot that succeeds.
proof fn lemma_brought_from(
    job: SnapshotView,
    entries: Map<Seq<u8>, Node>,
    replies: Seq<ReplyView>,
    worlds: Seq<World>,
)
    requires
        crate::snapshot_laws::preparing(job),
        crate::tree::finite_tree(Node::Dir(entries)),
        crate::world::served(job, replies, worlds),
        crate::world::run(job, replies) matches SnapshotView::Finished(Ok(_)),
        crate::tree::holds(
            worlds[0].disk,
            crate::snapshot::collab_spot(Area::User),
            Node::Dir(entries),
        ),
    ensures
        crate::tree::plain_tree(Node::Dir(entries)),
        laid_over(worlds[0].disk, worlds.last().disk, Area::Staging, entries),
    decreases replies.len(),
{
    assert(replies.len() > 0);
    let next = job.step(replies[0]);
    let replies1 = replies.skip(1);
    let worlds1 = worlds.skip(1);
    let top = crate::snapshot::area_spot(Area::Staging);
    assert(crate::world::run(job, replies) == crate::world::run(next, replies1));
    assert(worlds1.last() == worlds.last());
    crate::snapshot_laws::lemma_user_step(job, worlds[0], replies[0], worlds[1], entries);
    crate::world::lemma_served_is_confined(worlds[0], job.request()->0, replies[0], worlds[1]);
    assert forall|s: Spot|
        s.0 == Area::Staging && s != top && s != crate::snapshot::database_spot(
            Area::Staging,
        ) implies #[trigger] crate::tree::found(worlds1[0].disk, s) == crate::tree::found(
        worlds[0].disk,
        s,
    ) by {
        if crate::world::writes(job.request()->0, s) && job is Creating {
            assert(s.1 =~= top.1);
        }
    }
    if let SnapshotView::Reading { fresh } = job {
        lemma_directory_brought(fresh, replies[0]->Data_0, entries, replies1, worlds1);
    } else {
        lemma_brought_from(next, entries, replies1, worlds1);
    }
    lemma_laid_over_later(
        worlds[0].disk,
        worlds1[0].disk,
        worlds.last().disk,
        Area::Staging,
        entries,
    );
}

/// A snapshot that succeeds has brought the user's collab database directory into the staging area,
/// whatever was there before: every file and directory of it is there, byte for byte, and what was
/// there under other names is as it was. There is nothing in it that is neither file nor directory.
pub proof fn law_snapshot_brings_the_directory(
    entries: Map<Seq<u8>, Node>,
    replies: Seq<ReplyView>,
    worlds: Seq<World>,
)
    requires
        crate::tree::finite_tree(Node::Dir(entries)),
        crate::world::served(SnapshotView::Creating, replies, worlds),
        crate::world::run(SnapshotView::Creating, replies) matches SnapshotView::Finished(Ok(_)),
        crate::tree::holds(
            worlds[0].disk,
            crate::snapshot::collab_spot(Area::User),
            Node::Dir(entries),
        ),
    ensures
        crate::tree::plain_tree(Node::Dir(entries)),
        laid_over(worlds[0].disk, worlds.last().disk, Area::Staging, entries),
        forall|path: Seq<Seq<u8>>|
            crate::tree::at(Node::Dir(entries), path) is Some ==> #[trigger] crate::tree::found(
                worlds.last().disk,
                crate::tree::below(crate::snapshot::collab_spot(Area::Staging), path),
            ) == crate::tree::at(Node::Dir(entries), path),
{
    lemma_brought_from(SnapshotView::Creating, entries, replies, worlds);
    lemma_laid_over_paths(worlds[0].disk, worlds.last().disk, Area::Staging, entries);
}

/// What is laid over is there, path by path.
proof fn lemma_laid_over_paths(
    before: Disk,
    after: Disk,
    area: Area,
    entries: Map<Seq<u8>, Node>,
)
    requires
        laid_over(before, after, area, entries),
    ensures
        forall|path: Seq<Seq<u8>>|
            crate::tree::at(Node::Dir(entries), path) is Some ==> #[trigger] crate::tree::found(
                after,
                crate::tree::below(crate::snapshot::collab_spot(area), path),
            ) == crate::tree::at(Node::Dir(entries), path),
{
    let collab = crate::snapshot::collab_spot(area);
    crate::snapshot_laws::lemma_outputs_apart(area);
    assert forall|path: Seq<Seq<u8>>|
        crate::tree::at(Node::Dir(entries), path) is Some implies #[trigger] crate::tree::found(
        after,
        crate::tree::below(collab, path),
    ) == crate::tree::at(Node::Dir(entries), path) by {
        let s = crate::tree::below(collab, path);
        assert(s.1.take(collab.1.len() as int) =~= collab.1);
        assert(crate::tree::within(collab, s));
        assert(crate::tree::way(collab, s) =~= path);
        assert(s.1.len() > 0);
        assert(s != crate::snapshot::database_spot(area));
    }
}

/// The end of a restoration, from the read of the database that has arrived.
proof fn lemma_arrived_is_checked(
    manifest: Map<Seq<char>, Seq<char>>,
    database: Seq<u8>,
    tree: Map<Seq<u8>, Node>,
    replies: Seq<ReplyView>,
    worlds: Seq<World>,
)
    requires
        crate::world::served(
            RestoreView::Active { manifest, phase: RestorePhaseView::Reading },
            replies,
            worlds,
        ),
        crate::world::run(
            RestoreView::Active { manifest, phase: RestorePhaseView::Reading },
            replies,
        ).request() is None,
        crate::tree::found(worlds[0].disk, crate::snapshot::database_spot(Area::Target)) == Some(
            Leaf::File(database),
        ),
    ensures
        worlds.last() == worlds[0],
        ({
            let end = crate::world::run(
                RestoreView::Active { manifest, phase: RestorePhaseView::Reading },
                replies,
            );
            let known = crate::tree::finite_tree(Node::Dir(tree)) && crate::tree::holds(
                worlds[0].disk,
                crate::snapshot::collab_spot(Area::Target),
                Node::Dir(tree),
            );
            &&& end == RestoreView::Finished(Ok(())) || (end matches RestoreView::Finished(
                Err(ErrorView::Snapshot(_)),
            ))
            &&& !manifest.contains_pair(
                "flowy-database.db"@,
                crate::digest::checksum(database),
            ) ==> end != RestoreView::Finished(Ok(()))
            &&& known ==> (end == RestoreView::Finished(Ok(())) <==> manifest.contains_pair(
                "flowy-database.db"@,
                crate::digest::checksum(database),
            ) && manifest.contains_pair("collab_db"@, crate::checksum::dir_checksum(tree)))
        }),
{
    let start = RestoreView::Active { manifest, phase: RestorePhaseView::Reading };
    let text = crate::digest::checksum(database);
    crate::restore::law_rejection(manifest, "flowy-database.db"@, text);
    assert(replies.len() > 0);
    let next = start.step(replies[0]);
    let replies1 = replies.skip(1);
    let worlds1 = worlds.skip(1);
    assert(replies[0] == ReplyView::Data(database));
    assert(crate::world::run(start, replies) == crate::world::run(next, replies1));
    assert(crate::world::served(next, replies1, worlds1));
    assert(worlds1.last() == worlds.last());
    if next is Finished {
        assert(replies1.len() == 0);
        assert(crate::world::run(next, replies1) == next);
    } else {
        let target = crate::snapshot::collab_spot(Area::Target);
        let inner = crate::checksum::hash_start(target);
        let outer = |hash: HashView| crate::restore::while_hashing(manifest, hash);
        assert(next == outer(inner));
        let carried = crate::world::lemma_carried(outer, inner, replies1, worlds1);
        let part = replies1.take(carried);
        let passed = worlds1.take(carried + 1);
        let last = crate::world::run(inner, part);
        crate::world::lemma_reaches_rest(next, replies1, worlds1, carried, outer(last));
        if last is Active {
            assert(replies1.skip(carried).len() == 0);
            assert(false);
        }
        assert(replies1.skip(carried).len() == 0);
        crate::snapshot_laws::lemma_hash_reads(inner, part, passed);
        assert(passed.last() == worlds.last());
        assert(passed[0] == worlds[0]);
        crate::failure_laws::law_checksum_fails_only_by_a_failure(target, part);
        if last matches HashView::Finished(Err(_)) {
            let error = last->Finished_0->Err_0;
            lemma_served_has_no_failure(inner, part, passed, error->Io_0);
            assert(false);
        }
        crate::restore::law_rejection(manifest, "collab_db"@, last->Finished_0->Ok_0);
        if crate::tree::finite_tree(Node::Dir(tree)) && crate::tree::holds(
            worlds[0].disk,
            target,
            Node::Dir(tree),
        ) {
            crate::checksum_laws::law_checksum_of_tree(target, tree, part, passed);
        }
    }
}

/// A faultless file system does not answer with a failure.
proof fn lemma_served_has_no_failure<M: Machine>(
    job: M,
    replies: Seq<ReplyView>,
    worlds: Seq<World>,
    text: Seq<char>,
)
    requires
        crate::world::served(job, replies, worlds),
    ensures
        !crate::failure_laws::met(replies, text),
    decreases replies.len(),
{
    if replies.len() > 0 {
        lemma_served_has_no_failure(
            job.step(replies[0]),
            replies.skip(1),
            worlds.skip(1),
            text,
        );
        assert(!(replies[0] is Failed));
        if crate::failure_laws::met(replies, text) {
            let i = choose|i: int| 0 <= i < replies.len() && replies[i] == ReplyView::Failed(text);
            assert(replies.skip(1)[i - 1] == ReplyView::Failed(text));
        }
    }
}

/// A restoration that comes to its end has brought the snapshot into the target area, whatever was
/// there before: the database has the bytes of the one in the staging area, every file and
/// directory of the collab database directory is there, byte for byte, and what was there under
/// other names is as it was. What has arrived was checked: the restoration succeeds if and only if
/// the manifest has the checksum of the database and that of the whole directory that is in the
/// target area by then.
pub proof fn law_restoration_brings_and_checks(
    manifest: Map<Seq<char>, Seq<char>>,
    database: Seq<u8>,
    entries: Map<Seq<u8>, Node>,
    tree: Map<Seq<u8>, Node>,
    replies: Seq<ReplyView>,
    worlds: Seq<World>,
)
    requires
        crate::tree::finite_tree(Node::Dir(entries)),
        crate::world::served(crate::restore::restore_start(manifest), replies, worlds),
        crate::snapshot_laws::holds_data(worlds[0].disk, Area::Staging, database, entries),
        crate::world::run(crate::restore::restore_start(manifest), replies).request() is None,
        crate::tree::finite_tree(Node::Dir(tree)),
        crate::tree::holds(
            worlds.last().disk,
            crate::snapshot::collab_spot(Area::Target),
            Node::Dir(tree),
        ),
    ensures
        crate::tree::plain_tree(Node::Dir(entries)),
        crate::tree::found(
            worlds.last().disk,
            crate::snapshot::database_spot(Area::Target),
        ) == Some(Leaf::File(database)),
        laid_over(worlds[0].disk, worlds.last().disk, Area::Target, entries),
        ({
            let end = crate::world::run(crate::restore::restore_start(manifest), replies);
            &&& end == RestoreView::Finished(Ok(())) || (end matches RestoreView::Finished(
                Err(ErrorView::Snapshot(_)),
            ))
            &&& end == RestoreView::Finished(Ok(())) <==> manifest.contains_pair(
                "flowy-database.db"@,
                crate::digest::checksum(database),
            ) && manifest.contains_pair("collab_db"@, crate::checksum::dir_checksum(tree))
        }),
{
    let start = crate::restore::restore_start(manifest);
    let second = RestoreView::Active { manifest, phase: RestorePhaseView::CopyingDatabase };
    let middle = RestoreView::Active { manifest, phase: RestorePhaseView::Reading };
    let top = crate::snapshot::area_spot(Area::Target);
    let spot = crate::snapshot::database_spot(Area::Target);
    let stored = crate::snapshot::database_spot(Area::Staging);
    let from = crate::snapshot::collab_spot(Area::Staging);
    let to = crate::snapshot::collab_spot(Area::Target);
    let first = worlds[0].disk;
    assert(replies.len() > 0);
    let replies1 = replies.skip(1);
    let worlds1 = worlds.skip(1);
    assert(start.step(replies[0]) == second);
    assert(crate::world::run(start, replies) == crate::world::run(second, replies1));
    assert(crate::world::served(second, replies1, worlds1));
    assert(replies1.len() > 0);
    let replies2 = replies1.skip(1);
    let worlds2 = worlds1.skip(1);
    let third = second.step(replies1[0]);
    assert(crate::world::run(second, replies1) == crate::world::run(third, replies2));
    assert(crate::world::served(third, replies2, worlds2));
    assert(worlds2.last() == worlds.last());
    let between = worlds2[0].disk;
    assert forall|s: Spot| s.0 == Area::Staging implies #[trigger] crate::tree::found(between, s)
        == crate::tree::found(first, s) by {
        assert(crate::tree::found(worlds1[0].disk, s) == crate::tree::found(first, s));
    }
    crate::restore_laws::lemma_area_kept(first, between, Area::Staging, database, entries);
    assert(crate::tree::found(first, stored) == Some(Leaf::File(database)));
    assert(crate::tree::found(worlds1[0].disk, stored) == Some(Leaf::File(database)));
    assert(crate::tree::found(between, spot) == Some(Leaf::File(database)));
    assert forall|s: Spot|
        s.0 == Area::Target && s != top && s != spot implies #[trigger] crate::tree::found(
        between,
        s,
    ) == crate::tree::found(first, s) by {
        if crate::tree::within(s, top) {
            assert(s.1 =~= top.1);
        }
        assert(crate::tree::found(worlds1[0].disk, s) == crate::tree::found(first, s));
    }
    let inner = crate::copy::copy_start(from, to);
    let outer = |copy: CopyView| crate::restore::while_copying(manifest, copy);
    assert(outer(inner) == third);
    let carried = crate::world::lemma_carried(outer, inner, replies2, worlds2);
    let part = replies2.take(carried);
    let passed = worlds2.take(carried + 1);
    let last = crate::world::run(inner, part);
    crate::world::lemma_reaches_rest(third, replies2, worlds2, carried, outer(last));
    let rest = replies2.skip(carried);
    let rest_worlds = worlds2.skip(carried);
    if last is Active {
        assert(rest.len() == 0);
        assert(false);
    }
    crate::copy_laws::law_copy_of_tree(from, to, entries, part, passed);
    assert(outer(last) == middle);
    lemma_grafted_lies_over(between, passed.last().disk, Area::Target, entries);
    assert(passed.last() == rest_worlds[0]);
    assert(rest_worlds.last() == worlds.last());
    lemma_arrived_is_checked(manifest, database, tree, rest, rest_worlds);
    lemma_laid_over_later(first, between, worlds.last().disk, Area::Target, entries);
}

/// No directory of the area has infinitely many names in it.
pub open spec fn finite_dirs(disk: Disk, area: Area) -> bool {
    forall|spot: Spot|
        spot.0 == area ==> (#[trigger] crate::tree::children(disk, spot)).finite()
}

/// The checksum is where the file system can go on with it: what it lists is a directory, and what
/// it reads is a file.
spec fn hash_ready(job: HashView, disk: Disk, area: Area) -> bool {
    match job {
        HashView::Active { area: at, path, frames, phase } => {
            &&& at == area
            &&& phase is Listing ==> crate::tree::found(disk, (area, path)) == Some(Leaf::Dir)
            &&& phase matches HashPhaseView::Reading(name) ==> crate::tree::found(
                disk,
                (area, path.push(name)),
            ) matches Some(Leaf::File(_))
        },
        HashView::Finished(_) => true,
    }
}

proof fn lemma_advance_ready(
    area: Area,
    path: Seq<Seq<u8>>,
    frames: Seq<FrameView>,
    disk: Disk,
)
    ensures
        hash_ready(crate::checksum::advance(area, path, frames), disk, area),
    decreases frames.len(),
{
    let last = frames.last();
    if last.pending.len() == 0 && frames.len() > 1 {
        lemma_advance_ready(
            area,
            path.drop_last(),
            crate::checksum::extended(
                frames.drop_last(),
                vstd::utf8::encode_utf8(crate::digest::checksum(last.message)),
            ),
            disk,
        );
    }
}

/// A checksum can go on wherever it is, whatever is on the disk.
proof fn lemma_hash_goes_on_from(
    job: HashView,
    area: Area,
    replies: Seq<ReplyView>,
    worlds: Seq<World>,
)
    requires
        crate::world::served(job, replies, worlds),
        hash_ready(job, worlds[0].disk, area),
        finite_dirs(worlds[0].disk, area),
        crate::world::run(job, replies).request() is Some,
    ensures
        crate::world::can_go_on(crate::world::run(job, replies), worlds.last()),
    decreases replies.len(),
{
    let world = worlds[0];
    if replies.len() == 0 {
        if let HashView::Active { area: at, path, frames, phase } = job {
            match phase {
                HashPhaseView::Listing => {
                    let names = crate::tree::children(world.disk, (area, path));
                    crate::names::lemma_in_order(names);
                    assert(crate::world::serves(
                        world,
                        job.request()->0,
                        ReplyView::Names(crate::names::in_order(names)),
                        world,
                    ));
                },
                HashPhaseView::Inspecting(name) => {
                    let spot: Spot = (area, path.push(name));
                    let kind = crate::world::kind(crate::tree::found(world.disk, spot));
                    assert(crate::world::serves(
                        world,
                        job.request()->0,
                        ReplyView::Kind(kind),
                        world,
                    ));
                },
                HashPhaseView::Reading(name) => {
                    let spot: Spot = (area, path.push(name));
                    assert(crate::world::serves(
                        world,
                        job.request()->0,
                        ReplyView::Data(world.disk[spot]->File_0),
                        world,
                    ));
                },
            }
        }
    } else {
        let next = job.step(replies[0]);
        assert(crate::world::run(job, replies) == crate::world::run(next, replies.skip(1)));
        assert(worlds.skip(1).last() == worlds.last());
        if let HashView::Active { area: at, path, frames, phase } = job {
            match (phase, replies[0]) {
                (HashPhaseView::Listing, ReplyView::Names(names)) => {
                    lemma_advance_ready(
                        area,
                        path,
                        frames.push(
                            FrameView {
                                message: Seq::empty(),
                                pending: names.sort_by(crate::names::byte_order()),
                            },
                        ),
                        world.disk,
                    );
                },
                (HashPhaseView::Inspecting(name), ReplyView::Kind(kind)) => {
                    lemma_advance_ready(area, path, frames, world.disk);
                },
                (HashPhaseView::Reading(name), ReplyView::Data(bytes)) => {
                    lemma_advance_ready(
                        area,
                        path,
                        crate::checksum::extended(frames, bytes),
                        world.disk,
                    );
                },
                _ => {},
            }
        }
        lemma_hash_goes_on_from(next, area, replies.skip(1), worlds.skip(1));
    }
}

/// The names that a finite tree has in the directory at a path.
spec fn names_at(node: Node, path: Seq<Seq<u8>>) -> Set<Seq<u8>> {
    Set::new(|name: Seq<u8>| crate::tree::at(node, path.push(name)) is Some)
}

proof fn lemma_names_at_finite(node: Node, path: Seq<Seq<u8>>)
    requires
        crate::tree::finite_tree(node),
    ensures
        names_at(node, path).finite(),
    decreases path.len(),
{
    let names = names_at(node, path);
    if let Node::Dir(entries) = node {
        if path.len() == 0 {
            assert forall|name: Seq<u8>| names.contains(name) implies entries.dom().contains(
                name,
            ) by {
                assert(path.push(name)[0] == name);
            }
            vstd::set_lib::lemma_set_subset_finite(entries.dom(), names);
        } else if entries.dom().contains(path[0]) {
            let inner = entries[path[0]];
            lemma_names_at_finite(inner, path.skip(1));
            assert(names =~= names_at(inner, path.skip(1))) by {
                assert forall|name: Seq<u8>| names.contains(name) == names_at(
                    inner,
                    path.skip(1),
                ).contains(name) by {
                    assert(path.push(name).skip(1) =~= path.skip(1).push(name));
                    assert(path.push(name)[0] == path[0]);
                }
            }
        } else {
            assert(names =~= Set::empty()) by {
                assert forall|name: Seq<u8>| !names.contains(name) by {
                    assert(path.push(name)[0] == path[0]);
                }
            }
        }
    } else {
        assert(names =~= Set::empty());
    }
}

/// To lay a finite tree over what is there makes no directory infinite.
proof fn lemma_grafted_stays_finite(
    before: Disk,
    after: Disk,
    area: Area,
    entries: Map<Seq<u8>, Node>,
)
    requires
        finite_dirs(before, area),
        crate::tree::finite_tree(Node::Dir(entries)),
        after == crate::tree::grafted(
            crate::tree::with_dirs(before, crate::snapshot::collab_spot(area)),
            crate::snapshot::collab_spot(area),
            Node::Dir(entries),
        ),
    ensures
        finite_dirs(after, area),
{
    let collab = crate::snapshot::collab_spot(area);
    assert forall|spot: Spot| spot.0 == area implies (#[trigger] crate::tree::children(
        after,
        spot,
    )).finite() by {
        let way = crate::tree::way(collab, spot);
        let old_names = crate::tree::children(before, spot);
        let new_names = names_at(Node::Dir(entries), way);
        let all = old_names.union(new_names).insert(collab.1[0]);
        lemma_names_at_finite(Node::Dir(entries), way);
        assert(old_names.finite());
        assert(all.finite());
        assert forall|name: Seq<u8>|
            crate::tree::children(after, spot).contains(name) implies all.contains(name) by {
            let s = crate::tree::child(spot, name);
            if !before.dom().contains(s) {
                if crate::tree::within(s, collab) {
                    assert(s.1.len() == 1);
                    assert(s.1[0] == collab.1[0]);
                    assert(s.1.last() == name);
                } else {
                    assert(crate::tree::within(collab, s));
                    assert(s.1.len() > collab.1.len()) by {
                        if s.1.len() == collab.1.len() {
                            assert(s.1 =~= collab.1);
                        }
                    }
                    assert(crate::tree::way(collab, s) =~= way.push(name));
                }
            }
        }
        vstd::set_lib::lemma_set_subset_finite(all, crate::tree::children(after, spot));
    }
}

/// To change nothing of an area but its top and one name in it makes no directory infinite.
proof fn lemma_one_more_stays_finite(before: Disk, after: Disk, area: Area, name: Seq<u8>)
    requires
        finite_dirs(before, area),
        forall|s: Spot|
            s.0 == area && s.1.len() > 0 && s.1.last() != name ==> #[trigger] crate::tree::found(
                after,
                s,
            ) == crate::tree::found(before, s),
    ensures
        finite_dirs(after, area),
{
    assert forall|spot: Spot| spot.0 == area implies (#[trigger] crate::tree::children(
        after,
        spot,
    )).finite() by {
        let names = crate::tree::children(before, spot);
        assert(names.finite());
        assert forall|n: Seq<u8>|
            crate::tree::children(after, spot).contains(n) implies names.insert(name).contains(
            n,
        ) by {
            let s = crate::tree::child(spot, n);
            assert(s.1.last() == n);
            if n != name {
                assert(crate::tree::found(after, s) == crate::tree::found(before, s));
            }
        }
        vstd::set_lib::lemma_set_subset_finite(
            names.insert(name),
            crate::tree::children(after, spot),
        );
    }
}

/// Nothing in the area is in the way of a snapshot or a restoration: there is no directory where
/// the database goes, and the collab database directory can be laid over what is there.
pub open spec fn has_room(disk: Disk, area: Area, entries: Map<Seq<u8>, Node>) -> bool {
    &&& crate::tree::found(disk, crate::snapshot::database_spot(area)) != Some(Leaf::Dir)
    &&& crate::copy_laws::clear_way(disk, crate::snapshot::collab_spot(area))
    &&& crate::copy_laws::unobstructed(
        disk,
        crate::snapshot::collab_spot(area),
        Node::Dir(entries),
    )
    &&& finite_dirs(disk, area)
}

/// A change of the top to a directory, or of the database to a file, leaves the room that there is.
proof fn lemma_room_kept(before: Disk, after: Disk, area: Area, entries: Map<Seq<u8>, Node>)
    requires
        has_room(before, area, entries),
        forall|s: Spot|
            s.0 == area && s != crate::snapshot::area_spot(area) && s
                != crate::snapshot::database_spot(area) ==> #[trigger] crate::tree::found(after, s)
                == crate::tree::found(before, s),
        crate::tree::found(after, crate::snapshot::area_spot(area)) == crate::tree::found(
            before,
            crate::snapshot::area_spot(area),
        ) || crate::tree::found(after, crate::snapshot::area_spot(area)) == Some(Leaf::Dir),
        crate::tree::found(after, crate::snapshot::database_spot(area)) != Some(Leaf::Dir),
    ensures
        has_room(after, area, entries),
{
    let collab = crate::snapshot::collab_spot(area);
    let top = crate::snapshot::area_spot(area);
    let database = crate::snapshot::database_spot(area);
    crate::snapshot_laws::lemma_outputs_apart(area);
    assert(crate::copy_laws::clear_way(after, collab)) by {
        assert forall|s: Spot| #[trigger]
            after.dom().contains(s) && crate::tree::within(s, collab) implies after[s]
            == Leaf::Dir by {
            if s.1.len() == 0 {
                assert(s.1 =~= top.1);
                assert(s == top);
                if before.dom().contains(s) {
                    assert(before[s] == Leaf::Dir);
                }
            } else {
                assert(s.1 =~= collab.1);
                assert(s == collab && s != top);
                assert(s != database) by {
                    assert(crate::tree::within(collab, collab));
                }
                assert(crate::tree::found(after, s) == crate::tree::found(before, s));
                assert(before.dom().contains(s));
            }
        }
    }
    assert(crate::copy_laws::unobstructed(after, collab, Node::Dir(entries))) by {
        assert forall|path: Seq<Seq<u8>>| #[trigger]
            crate::tree::found(after, crate::tree::below(collab, path)) == crate::tree::found(
                before,
                crate::tree::below(collab, path),
            ) by {
            let s = crate::tree::below(collab, path);
            assert(s.1.take(1) =~= collab.1);
            assert(crate::tree::within(collab, s));
            assert(s.1.len() > 0);
        }
    }
    lemma_one_more_stays_finite(before, after, area, database.1[0]);
}

/// A snapshot that has begun to copy the directory over what is there can go on.
proof fn lemma_overlaying_goes_on(
    fresh: Fresh,
    bytes: Seq<u8>,
    entries: Map<Seq<u8>, Node>,
    replies: Seq<ReplyView>,
    worlds: Seq<World>,
)
    requires
        crate::tree::plain_tree(Node::Dir(entries)),
        crate::world::served(
            (SnapshotView::Reading { fresh }).step(ReplyView::Data(bytes)),
            replies,
            worlds,
        ),
        crate::tree::holds(
            worlds[0].disk,
            crate::snapshot::collab_spot(Area::User),
            Node::Dir(entries),
        ),
        has_room(worlds[0].disk, Area::Staging, entries),
        crate::world::run(
            (SnapshotView::Reading { fresh }).step(ReplyView::Data(bytes)),
            replies,
        ).request() is Some,
    ensures
        crate::world::can_go_on(
            crate::world::run(
                (SnapshotView::Reading { fresh }).step(ReplyView::Data(bytes)),
                replies,
            ),
            worlds.last(),
        ),
{
    let user = crate::snapshot::collab_spot(Area::User);
    let staging = crate::snapshot::collab_spot(Area::Staging);
    let copying = crate::snapshot_laws::whole_copy_cost(entries) as int;
    let text = crate::digest::checksum(bytes);
    let inner = crate::copy::copy_start(user, staging);
    let outer = |copy: CopyView| crate::snapshot::while_copying(fresh, text, copy);
    let start = outer(inner);
    assert(start == (SnapshotView::Reading { fresh }).step(ReplyView::Data(bytes)));
    crate::snapshot_laws::lemma_plain_is_finite(Node::Dir(entries));
    crate::progress_laws::lemma_copy_inside_goes_on(
        outer,
        user,
        staging,
        entries,
        replies,
        worlds,
    );
    if replies.len() >= copying {
        let carried = crate::world::lemma_carried(outer, inner, replies, worlds);
        let part = replies.take(carried);
        let passed = worlds.take(carried + 1);
        let last = crate::world::run(inner, part);
        crate::copy_laws::law_copy_of_tree(user, staging, entries, part, passed);
        crate::world::lemma_reaches_rest(start, replies, worlds, carried, outer(last));
        assert(carried == copying);
        let rest = replies.skip(carried);
        let rest_worlds = worlds.skip(carried);
        assert(passed.last() == rest_worlds[0]);
        assert(rest_worlds.last() == worlds.last());
        lemma_grafted_stays_finite(
            worlds[0].disk,
            rest_worlds[0].disk,
            Area::Staging,
            entries,
        );
        lemma_laid_directory_is_there(
            worlds[0].disk,
            rest_worlds[0].disk,
            Area::Staging,
            entries,
        );
        let inner2 = crate::checksum::hash_start(staging);
        let outer2 = |hash: HashView| crate::snapshot::while_hashing(fresh, text, hash);
        assert(outer2(inner2) == outer(last));
        let more = crate::world::lemma_carried(outer2, inner2, rest, rest_worlds);
        let part2 = rest.take(more);
        let passed2 = rest_worlds.take(more + 1);
        let last2 = crate::world::run(inner2, part2);
        crate::world::lemma_reaches_rest(outer2(inner2), rest, rest_worlds, more, outer2(last2));
        crate::failure_laws::law_checksum_fails_only_by_a_failure(staging, part2);
        if last2 matches HashView::Finished(Err(_)) {
            lemma_served_has_no_failure(
                inner2,
                part2,
                passed2,
                last2->Finished_0->Err_0->Io_0,
            );
            assert(false);
        }
        if last2 is Finished {
            assert(outer2(last2).request() is None);
            assert(crate::world::served(outer2(last2), rest.skip(more), rest_worlds.skip(more)));
            assert(rest.skip(more).len() == 0);
            assert(false);
        }
        assert(rest.skip(more).len() == 0);
        assert(passed2.last() == worlds.last());
        assert(passed2[0] == rest_worlds[0]);
        lemma_hash_goes_on_from(inner2, Area::Staging, part2, passed2);
        assert(outer2(last2).request() == last2.request());
    }
}

/// The directory that has been laid over what was there is a directory.
proof fn lemma_laid_directory_is_there(
    before: Disk,
    after: Disk,
    area: Area,
    entries: Map<Seq<u8>, Node>,
)
    requires
        after == crate::tree::grafted(
            crate::tree::with_dirs(before, crate::snapshot::collab_spot(area)),
            crate::snapshot::collab_spot(area),
            Node::Dir(entries),
        ),
    ensures
        crate::tree::found(after, crate::snapshot::collab_spot(area)) == Some(Leaf::Dir),
{
    let collab = crate::snapshot::collab_spot(area);
    lemma_grafted_lies_over(before, after, area, entries);
    lemma_laid_over_paths(before, after, area, entries);
    let none = Seq::<Seq<u8>>::empty();
    assert(crate::tree::below(collab, none).1 =~= collab.1);
    assert(crate::tree::at(Node::Dir(entries), none) == Some(Leaf::Dir));
    assert(crate::tree::found(after, crate::tree::below(collab, none)) == Some(Leaf::Dir));
}

/// What a snapshot finds before it begins to copy the directory over what is there.
spec fn ready_to_overlay(
    job: SnapshotView,
    disk: Disk,
    entries: Map<Seq<u8>, Node>,
) -> bool {
    let database = crate::tree::found(disk, crate::snapshot::database_spot(Area::Staging));
    &&& has_room(disk, Area::Staging, entries)
    &&& !(job is Reading) ==> (database is None || database == Some(
        Leaf::File(Seq::<u8>::empty()),
    ))
    &&& job is Reading ==> (database matches Some(Leaf::File(_)))
}

proof fn lemma_overlay_goes_on_from(
    job: SnapshotView,
    entries: Map<Seq<u8>, Node>,
    replies: Seq<ReplyView>,
    worlds: Seq<World>,
)
    requires
        crate::snapshot_laws::preparing(job),
        crate::tree::plain_tree(Node::Dir(entries)),
        crate::world::served(job, replies, worlds),
        crate::tree::holds(
            worlds[0].disk,
            crate::snapshot::collab_spot(Area::User),
            Node::Dir(entries),
        ),
        ready_to_overlay(job, worlds[0].disk, entries),
        crate::world::run(job, replies).request() is Some,
    ensures
        crate::world::can_go_on(crate::world::run(job, replies), worlds.last()),
    decreases replies.len(),
{
    let world = worlds[0];
    let top = crate::snapshot::area_spot(Area::Staging);
    let database = crate::snapshot::database_spot(Area::Staging);
    let collab = crate::snapshot::collab_spot(Area::Staging);
    let request = job.request()->0;
    assert(database != top) by {
        assert(database.1.len() != top.1.len());
    }
    if replies.len() == 0 {
        match job {
            SnapshotView::Creating => {
                let after = World { disk: crate::tree::with_dirs(world.disk, top), ..world };
                assert forall|s: Spot|
                    crate::tree::within(s, top) && #[trigger] world.disk.dom().contains(
                        s,
                    ) implies world.disk[s] == Leaf::Dir by {
                    assert(s.1 =~= collab.1.take(0));
                    assert(crate::tree::within(s, collab));
                }
                assert(crate::world::serves(world, request, ReplyView::Done, after));
            },
            SnapshotView::InspectingDatabase => {
                let kind = crate::world::kind(crate::tree::found(world.disk, database));
                assert(crate::world::serves(world, request, ReplyView::Kind(kind), world));
            },
            SnapshotView::InspectingCollab { .. } => {
                let kind = crate::world::kind(crate::tree::found(world.disk, collab));
                assert(crate::world::serves(world, request, ReplyView::Kind(kind), world));
            },
            SnapshotView::Vacuuming { .. } => {
                let after = World {
                    disk: world.disk.insert(database, Leaf::File(Seq::empty())),
                    ..world
                };
                assert(crate::world::serves(world, request, ReplyView::Done, after));
            },
            _ => {
                let bytes = world.disk[database]->File_0;
                assert(crate::world::serves(world, request, ReplyView::Data(bytes), world));
            },
        }
    } else {
        let next = job.step(replies[0]);
        let replies1 = replies.skip(1);
        let worlds1 = worlds.skip(1);
        assert(crate::world::run(job, replies) == crate::world::run(next, replies1));
        assert(worlds1.last() == worlds.last());
        crate::snapshot_laws::lemma_user_step(job, worlds[0], replies[0], worlds[1], entries);
        if let SnapshotView::Reading { fresh } = job {
            lemma_overlaying_goes_on(fresh, replies[0]->Data_0, entries, replies1, worlds1);
        } else {
            assert forall|s: Spot|
                s.0 == Area::Staging && s != top && s
                    != database implies #[trigger] crate::tree::found(worlds1[0].disk, s)
                == crate::tree::found(world.disk, s) by {
                if job is Creating && crate::tree::within(s, top) {
                    assert(s.1 =~= top.1);
                }
            }
            assert(!crate::world::belongs_to(crate::snapshot::database_spot(Area::User), top));
            assert(crate::tree::found(worlds1[0].disk, top) == crate::tree::found(world.disk, top)
                || crate::tree::found(worlds1[0].disk, top) == Some(Leaf::Dir));
            if !(job is Vacuuming) {
                assert(!crate::tree::within(database, top));
                assert(crate::tree::found(worlds1[0].disk, database) == crate::tree::found(
                    world.disk,
                    database,
                ));
            }
            lemma_room_kept(world.disk, worlds1[0].disk, Area::Staging, entries);
            lemma_overlay_goes_on_from(next, entries, replies1, worlds1);
        }
    }
}

/// A snapshot of files and directories does not come to a halt before its end in a staging area in
/// which there is something already, either, as long as nothing is in the way: where the database
/// goes there is nothing or an empty file, and the collab database directory can be laid over what
/// is there. The file system can do whatever the snapshot needs next, at every point of every run.
pub proof fn law_snapshot_goes_on_over_leftovers(
    entries: Map<Seq<u8>, Node>,
    replies: Seq<ReplyView>,
    worlds: Seq<World>,
)
    requires
        crate::tree::plain_tree(Node::Dir(entries)),
        crate::world::served(SnapshotView::Creating, replies, worlds),
        crate::tree::holds(
            worlds[0].disk,
            crate::snapshot::collab_spot(Area::User),
            Node::Dir(entries),
        ),
        has_room(worlds[0].disk, Area::Staging, entries),
        !crate::world::taken(worlds[0], crate::snapshot::database_spot(Area::Staging)),
        crate::world::run(SnapshotView::Creating, replies).request() is Some,
    ensures
        crate::world::can_go_on(
            crate::world::run(SnapshotView::Creating, replies),
            worlds.last(),
        ),
{
    let database = crate::tree::found(
        worlds[0].disk,
        crate::snapshot::database_spot(Area::Staging),
    );
    if let Some(Leaf::File(bytes)) = database {
        assert(bytes =~= Seq::empty());
    }
    lemma_overlay_goes_on_from(SnapshotView::Creating, entries, replies, worlds);
}

/// A restoration that is to check what has arrived can go on, whatever has.
proof fn lemma_checking_goes_on_from(
    manifest: Map<Seq<char>, Seq<char>>,
    database: Seq<u8>,
    replies: Seq<ReplyView>,
    worlds: Seq<World>,
)
    requires
        crate::world::served(
            RestoreView::Active { manifest, phase: RestorePhaseView::Reading },
            replies,
            worlds,
        ),
        crate::tree::found(worlds[0].disk, crate::snapshot::database_spot(Area::Target)) == Some(
            Leaf::File(database),
        ),
        crate::tree::found(worlds[0].disk, crate::snapshot::collab_spot(Area::Target)) == Some(
            Leaf::Dir,
        ),
        finite_dirs(worlds[0].disk, Area::Target),
        crate::world::run(
            RestoreView::Active { manifest, phase: RestorePhaseView::Reading },
            replies,
        ).request() is Some,
    ensures
        crate::world::can_go_on(
            crate::world::run(
                RestoreView::Active { manifest, phase: RestorePhaseView::Reading },
                replies,
            ),
            worlds.last(),
        ),
{
    let start = RestoreView::Active { manifest, phase: RestorePhaseView::Reading };
    let end = crate::world::run(start, replies);
    let target = crate::snapshot::collab_spot(Area::Target);
    if replies.len() == 0 {
        assert(crate::world::serves(
            worlds.last(),
            end.request()->0,
            ReplyView::Data(database),
            worlds.last(),
        ));
    } else {
        let next = start.step(replies[0]);
        let replies1 = replies.skip(1);
        let worlds1 = worlds.skip(1);
        assert(end == crate::world::run(next, replies1));
        assert(crate::world::served(next, replies1, worlds1));
        assert(worlds1.last() == worlds.last());
        if next is Finished {
            assert(replies1.len() == 0);
            assert(end == next);
        } else {
            let inner = crate::checksum::hash_start(target);
            let outer = |hash: HashView| crate::restore::while_hashing(manifest, hash);
            assert(next == outer(inner));
            let carried = crate::world::lemma_carried(outer, inner, replies1, worlds1);
            let part = replies1.take(carried);
            let passed = worlds1.take(carried + 1);
            let last = crate::world::run(inner, part);
            crate::world::lemma_reaches_rest(next, replies1, worlds1, carried, outer(last));
            if last is Finished {
                assert(outer(last).request() is None);
                assert(replies1.skip(carried).len() == 0);
                assert(false);
            }
            assert(replies1.skip(carried).len() == 0);
            assert(passed.last() == worlds.last());
            assert(passed[0] == worlds1[0]);
            lemma_hash_goes_on_from(inner, Area::Target, part, passed);
            assert(outer(last).request() == last.request());
        }
    }
}

/// A restoration of files and directories does not come to a halt before its end in a target area
/// in which there is something already, either, as long as nothing is in the way. The file system
/// can do whatever the restoration needs next, at every point of every run.
pub proof fn law_restore_goes_on_over_leftovers(
    manifest: Map<Seq<char>, Seq<char>>,
    database: Seq<u8>,
    entries: Map<Seq<u8>, Node>,
    replies: Seq<ReplyView>,
    worlds: Seq<World>,
)
    requires
        crate::tree::plain_tree(Node::Dir(entries)),
        crate::world::served(crate::restore::restore_start(manifest), replies, worlds),
        crate::snapshot_laws::holds_data(worlds[0].disk, Area::Staging, database, entries),
        has_room(worlds[0].disk, Area::Target, entries),
        crate::world::run(crate::restore::restore_start(manifest), replies).request() is Some,
    ensures
        crate::world::can_go_on(
            crate::world::run(crate::restore::restore_start(manifest), replies),
            worlds.last(),
        ),
{
    let start = crate::restore::restore_start(manifest);
    let second = RestoreView::Active { manifest, phase: RestorePhaseView::CopyingDatabase };
    let middle = RestoreView::Active { manifest, phase: RestorePhaseView::Reading };
    let end = crate::world::run(start, replies);
    let top = crate::snapshot::area_spot(Area::Target);
    let spot = crate::snapshot::database_spot(Area::Target);
    let stored = crate::snapshot::database_spot(Area::Staging);
    let from = crate::snapshot::collab_spot(Area::Staging);
    let to = crate::snapshot::collab_spot(Area::Target);
    let world = worlds[0];
    assert(spot != top) by {
        assert(spot.1.len() != top.1.len());
    }
    if replies.len() == 0 {
        let after = World { disk: crate::tree::with_dirs(world.disk, top), ..world };
        assert forall|s: Spot|
            crate::tree::within(s, top) && #[trigger] world.disk.dom().contains(
                s,
            ) implies world.disk[s] == Leaf::Dir by {
            assert(s.1 =~= to.1.take(0));
            assert(crate::tree::within(s, to));
        }
        assert(crate::world::serves(worlds.last(), end.request()->0, ReplyView::Done, after));
    } else {
        let replies1 = replies.skip(1);
        let worlds1 = worlds.skip(1);
        assert(start.step(replies[0]) == second);
        assert(end == crate::world::run(second, replies1));
        assert(crate::world::served(second, replies1, worlds1));
        assert(worlds1.last() == worlds.last());
        let made = worlds1[0].disk;
        crate::restore_laws::lemma_area_kept(world.disk, made, Area::Staging, database, entries);
        assert forall|s: Spot|
            s.0 == Area::Target && s != top && s != spot implies #[trigger] crate::tree::found(
            made,
            s,
        ) == crate::tree::found(world.disk, s) by {
            if crate::tree::within(s, top) {
                assert(s.1 =~= top.1);
            }
        }
        assert(!crate::tree::within(spot, top));
        assert(crate::tree::within(top, top));
        lemma_room_kept(world.disk, made, Area::Target, entries);
        if replies1.len() == 0 {
            let before = worlds1[0];
            let after = World { disk: before.disk.insert(spot, before.disk[stored]), ..before };
            assert(crate::tree::found(before.disk, stored) == Some(Leaf::File(database)));
            assert(crate::world::serves(
                worlds.last(),
                end.request()->0,
                ReplyView::Done,
                after,
            ));
        } else {
            let third = second.step(replies1[0]);
            let replies2 = replies1.skip(1);
            let worlds2 = worlds1.skip(1);
            let between = worlds2[0].disk;
            assert(end == crate::world::run(third, replies2));
            assert(crate::world::served(third, replies2, worlds2));
            assert(worlds2.last() == worlds.last());
            crate::restore_laws::lemma_area_kept(made, between, Area::Staging, database, entries);
            assert(crate::tree::found(made, stored) == Some(Leaf::File(database)));
            assert(crate::tree::found(between, spot) == Some(Leaf::File(database)));
            lemma_room_kept(made, between, Area::Target, entries);
            let copying = crate::snapshot_laws::whole_copy_cost(entries) as int;
            let inner = crate::copy::copy_start(from, to);
            let outer = |copy: CopyView| crate::restore::while_copying(manifest, copy);
            assert(outer(inner) == third);
            crate::snapshot_laws::lemma_plain_is_finite(Node::Dir(entries));
            crate::progress_laws::lemma_copy_inside_goes_on(
                outer,
                from,
                to,
                entries,
                replies2,
                worlds2,
            );
            if replies2.len() >= copying {
                let carried = crate::world::lemma_carried(outer, inner, replies2, worlds2);
                let part = replies2.take(carried);
                let passed = worlds2.take(carried + 1);
                let last = crate::world::run(inner, part);
                crate::copy_laws::law_copy_of_tree(from, to, entries, part, passed);
                crate::world::lemma_reaches_rest(third, replies2, worlds2, carried, outer(last));
                assert(carried == copying);
                assert(outer(last) == middle);
                let rest = replies2.skip(carried);
                let rest_worlds = worlds2.skip(carried);
                assert(passed.last() == rest_worlds[0]);
                assert(rest_worlds.last() == worlds.last());
                lemma_grafted_stays_finite(between, rest_worlds[0].disk, Area::Target, entries);
                lemma_grafted_lies_over(between, rest_worlds[0].disk, Area::Target, entries);
                lemma_laid_directory_is_there(
                    between,
                    rest_worlds[0].disk,
                    Area::Target,
                    entries,
                );
                lemma_checking_goes_on_from(manifest, database, rest, rest_worlds);
            }
        }
    }
}

} // verus!
