//! What a restored snapshot has to do with the snapshot, and with the data it was taken of.
use vstd::prelude::*;

use crate::checksum::HashView;
use crate::copy::CopyView;
use crate::error::ErrorView;
use crate::io::{Area, ReplyView, Spot};
use crate::restore::{RestorePhaseView, RestoreView};
use crate::snapshot::SnapshotView;
use crate::tree::{Disk, Leaf, Node};
use crate::world::{Machine, World};

verus! {

/// What a restoration makes of the checksums of what has arrived: the database is checked first.
pub open spec fn verdict(
    manifest: Map<Seq<char>, Seq<char>>,
    database: Seq<char>,
    collab: Seq<char>,
) -> Result<(), ErrorView> {
    match crate::restore::rejection(manifest, crate::snapshot::database_name(), database) {
        Some(error) => Err(error),
        None => match crate::restore::rejection(
            manifest,
            crate::snapshot::collab_name(),
            collab,
        ) {
            Some(error) => Err(error),
            None => Ok(()),
        },
    }
}

/// How many replies a restoration takes: a database that is rejected ends it.
pub open spec fn restore_cost(
    manifest: Map<Seq<char>, Seq<char>>,
    database: Seq<u8>,
    entries: Map<Seq<u8>, Node>,
) -> nat {
    3 + crate::snapshot_laws::whole_copy_cost(entries) + if crate::restore::rejection(
        manifest,
        crate::snapshot::database_name(),
        crate::digest::checksum(database),
    ) is Some {
        0
    } else {
        crate::snapshot_laws::whole_hash_cost(entries)
    }
}

/// The snapshot is in the staging area and in the target area.
spec fn restored(disk: Disk, database: Seq<u8>, entries: Map<Seq<u8>, Node>) -> bool {
    &&& crate::snapshot_laws::holds_data(disk, Area::Staging, database, entries)
    &&& crate::snapshot_laws::holds_data(disk, Area::Target, database, entries)
    &&& crate::snapshot_laws::only_outputs(disk, Area::Target)
}

spec fn restoring(
    manifest: Map<Seq<char>, Seq<char>>,
    phase: RestorePhaseView,
) -> RestoreView {
    RestoreView::Active { manifest, phase }
}

/// The check of what has arrived.
proof fn lemma_restore_checking(
    manifest: Map<Seq<char>, Seq<char>>,
    database: Seq<u8>,
    entries: Map<Seq<u8>, Node>,
    replies: Seq<ReplyView>,
    worlds: Seq<World>,
)
    requires
        crate::tree::plain_tree(Node::Dir(entries)),
        crate::world::served(
            restoring(manifest, RestorePhaseView::Reading),
            replies,
            worlds,
        ),
        restored(worlds[0].disk, database, entries),
    ensures
        ({
            let cost = restore_cost(manifest, database, entries) - 2
                - crate::snapshot_laws::whole_copy_cost(entries);
            &&& crate::world::reaches(
                restoring(manifest, RestorePhaseView::Reading),
                replies,
                worlds,
                cost,
                RestoreView::Finished(
                    verdict(
                        manifest,
                        crate::digest::checksum(database),
                        crate::checksum::dir_checksum(entries),
                    ),
                ),
            )
            &&& replies.len() >= cost ==> worlds[cost] == worlds[0]
        }),
{
    let start = restoring(manifest, RestorePhaseView::Reading);
    let text = crate::digest::checksum(database);
    let end = RestoreView::Finished(
        verdict(manifest, text, crate::checksum::dir_checksum(entries)),
    );
    let hashing = crate::snapshot_laws::whole_hash_cost(entries) as int;
    let target = crate::snapshot::collab_spot(Area::Target);
    let outer = |hash: HashView| crate::restore::while_hashing(manifest, hash);
    crate::world::lemma_reaches_next(start, replies, worlds);
    let replies1 = replies.skip(1);
    let worlds1 = worlds.skip(1);
    let next = start.step(replies[0]);
    if crate::restore::rejection(manifest, crate::snapshot::database_name(), text) is None {
        if replies.len() > 0 {
            assert(next == outer(crate::checksum::hash_start(target)));
            crate::snapshot_laws::lemma_plain_is_finite(Node::Dir(entries));
            crate::snapshot_laws::lemma_hash_inside(outer, target, entries, replies1, worlds1);
            if replies1.len() >= hashing {
                assert(worlds1[hashing] == worlds[1 + hashing]);
            }
        }
        crate::world::lemma_reaches_through(start, replies, worlds, 1, next, hashing, end);
    } else if replies.len() == 0 {
        crate::world::lemma_reaches_later(start, replies, worlds, 1, end);
    } else {
        assert(next == end);
    }
}

/// The copy of the directory, and the check.
proof fn lemma_restore_copying(
    manifest: Map<Seq<char>, Seq<char>>,
    database: Seq<u8>,
    entries: Map<Seq<u8>, Node>,
    replies: Seq<ReplyView>,
    worlds: Seq<World>,
)
    requires
        crate::tree::plain_tree(Node::Dir(entries)),
        crate::world::served(
            restoring(manifest, RestorePhaseView::CopyingDatabase).step(ReplyView::Done),
            replies,
            worlds,
        ),
        crate::snapshot_laws::holds_data(worlds[0].disk, Area::Staging, database, entries),
        crate::snapshot_laws::database_only(worlds[0].disk, Area::Target),
        crate::tree::found(worlds[0].disk, crate::snapshot::database_spot(Area::Target)) == Some(
            Leaf::File(database),
        ),
    ensures
        ({
            let cost = restore_cost(manifest, database, entries) - 2;
            &&& crate::world::reaches(
                restoring(manifest, RestorePhaseView::CopyingDatabase).step(ReplyView::Done),
                replies,
                worlds,
                cost,
                RestoreView::Finished(
                    verdict(
                        manifest,
                        crate::digest::checksum(database),
                        crate::checksum::dir_checksum(entries),
                    ),
                ),
            )
            &&& replies.len() >= cost ==> restored(worlds[cost].disk, database, entries)
        }),
{
    let from = crate::snapshot::collab_spot(Area::Staging);
    let to = crate::snapshot::collab_spot(Area::Target);
    let outer = |copy: CopyView| crate::restore::while_copying(manifest, copy);
    let start = restoring(manifest, RestorePhaseView::CopyingDatabase).step(ReplyView::Done);
    let middle = restoring(manifest, RestorePhaseView::Reading);
    let end = RestoreView::Finished(
        verdict(
            manifest,
            crate::digest::checksum(database),
            crate::checksum::dir_checksum(entries),
        ),
    );
    let copying = crate::snapshot_laws::whole_copy_cost(entries) as int;
    let checking = restore_cost(manifest, database, entries) - 2 - copying;
    assert(outer(crate::copy::copy_start(from, to)) == start);
    assert(outer(CopyView::Finished(Ok(()))) == middle);
    crate::snapshot_laws::lemma_directory_free(worlds[0].disk, Area::Target);
    crate::snapshot_laws::lemma_copy_inside(outer, from, to, entries, replies, worlds);
    if replies.len() >= copying {
        let replies1 = replies.skip(copying);
        let worlds1 = worlds.skip(copying);
        crate::world::lemma_reaches_rest(start, replies, worlds, copying, middle);
        crate::snapshot_laws::lemma_directory_added(
            worlds[0].disk,
            worlds1[0].disk,
            Area::Target,
            database,
            entries,
        );
        let spot = crate::snapshot::database_spot(Area::Staging);
        assert(crate::tree::found(worlds1[0].disk, spot) == crate::tree::found(
            worlds[0].disk,
            spot,
        ));
        lemma_restore_checking(manifest, database, entries, replies1, worlds1);
        if replies1.len() >= checking {
            assert(worlds1[checking] == worlds[copying + checking]);
        }
    }
    crate::world::lemma_reaches_through(start, replies, worlds, copying, middle, checking, end);
}

/// On a faultless file system, a restoration into an unused target area ends after a number of
/// replies that the snapshot and the manifest determine. Where some part of the directory in the
/// staging area is neither file nor directory it does not end without a failure. It succeeds if
/// and only if the manifest has the checksums of the database and of the collab database directory
/// that are in the staging area; else the error says which of the two was rejected, the database
/// first. Whatever the verdict, the target area then holds what the staging area holds, which is
/// as it was.
pub proof fn law_restore(
    manifest: Map<Seq<char>, Seq<char>>,
    database: Seq<u8>,
    entries: Map<Seq<u8>, Node>,
    replies: Seq<ReplyView>,
    worlds: Seq<World>,
)
    requires
        crate::tree::finite_tree(Node::Dir(entries)),
        crate::world::served(crate::restore::restore_start(manifest), replies, worlds),
        crate::snapshot_laws::holds_data(worlds[0].disk, Area::Staging, database, entries),
        crate::snapshot_laws::unused(worlds[0].disk, Area::Target),
    ensures
        ({
            let end = crate::world::run(crate::restore::restore_start(manifest), replies);
            let disk = worlds.last().disk;
            let cost = restore_cost(manifest, database, entries);
            let plain = crate::tree::plain_tree(Node::Dir(entries));
            &&& plain ==> replies.len() <= cost
            &&& end.request() is None <==> plain && replies.len() == cost
            &&& end.request() is None ==> {
                &&& end == RestoreView::Finished(
                    verdict(
                        manifest,
                        crate::digest::checksum(database),
                        crate::checksum::dir_checksum(entries),
                    ),
                )
                &&& crate::snapshot_laws::holds_data(disk, Area::Target, database, entries)
                &&& crate::snapshot_laws::only_outputs(disk, Area::Target)
                &&& crate::snapshot_laws::holds_data(disk, Area::Staging, database, entries)
            }
        }),
{
    let start = crate::restore::restore_start(manifest);
    let second = restoring(manifest, RestorePhaseView::CopyingDatabase);
    let end = RestoreView::Finished(
        verdict(
            manifest,
            crate::digest::checksum(database),
            crate::checksum::dir_checksum(entries),
        ),
    );
    let cost = restore_cost(manifest, database, entries) - 2;
    let plain = crate::tree::plain_tree(Node::Dir(entries));
    let replies1 = replies.skip(1);
    let worlds1 = worlds.skip(1);
    let replies2 = replies1.skip(1);
    let worlds2 = worlds1.skip(1);
    crate::world::lemma_reaches_next(start, replies, worlds);
    if replies.len() > 0 {
        lemma_target_created(worlds[0].disk, worlds1[0].disk, database, entries);
        crate::world::lemma_reaches_next(second, replies1, worlds1);
        if replies1.len() > 0 {
            lemma_database_added(worlds1[0].disk, worlds2[0].disk, database, entries);
            if plain {
                lemma_restore_copying(manifest, database, entries, replies2, worlds2);
                if replies2.len() >= cost {
                    assert(worlds2[cost] == worlds[2 + cost]);
                }
            } else {
                lemma_restore_stuck(manifest, database, entries, replies2, worlds2);
                assert(crate::world::run(second, replies1) == crate::world::run(
                    second.step(replies1[0]),
                    replies2,
                ));
            }
        }
        if plain {
            crate::world::lemma_reaches_through(
                second,
                replies1,
                worlds1,
                1,
                second.step(replies1[0]),
                cost,
                end,
            );
        }
        assert(crate::world::run(start, replies) == crate::world::run(second, replies1));
    }
    if plain {
        crate::world::lemma_reaches_through(
            start,
            replies,
            worlds,
            1,
            start.step(replies[0]),
            1 + cost,
            end,
        );
        crate::world::lemma_reaches_end(start, replies, worlds, 2 + cost, end);
    }
}

/// A restoration of a directory of which some part is neither file nor directory does not end
/// without a failure.
proof fn lemma_restore_stuck(
    manifest: Map<Seq<char>, Seq<char>>,
    database: Seq<u8>,
    entries: Map<Seq<u8>, Node>,
    replies: Seq<ReplyView>,
    worlds: Seq<World>,
)
    requires
        crate::tree::finite_tree(Node::Dir(entries)),
        !crate::tree::plain_tree(Node::Dir(entries)),
        crate::world::served(
            restoring(manifest, RestorePhaseView::CopyingDatabase).step(ReplyView::Done),
            replies,
            worlds,
        ),
        crate::snapshot_laws::holds_data(worlds[0].disk, Area::Staging, database, entries),
    ensures
        crate::world::run(
            restoring(manifest, RestorePhaseView::CopyingDatabase).step(ReplyView::Done),
            replies,
        ).request() is Some,
{
    let from = crate::snapshot::collab_spot(Area::Staging);
    let to = crate::snapshot::collab_spot(Area::Target);
    let outer = |copy: CopyView| crate::restore::while_copying(manifest, copy);
    assert(outer(crate::copy::copy_start(from, to)) == restoring(
        manifest,
        RestorePhaseView::CopyingDatabase,
    ).step(ReplyView::Done));
    crate::snapshot_laws::lemma_copy_stuck_inside(outer, from, to, entries, replies, worlds);
}

/// The target area has been created.
pub proof fn lemma_target_created(
    before: Disk,
    after: Disk,
    database: Seq<u8>,
    entries: Map<Seq<u8>, Node>,
)
    requires
        crate::snapshot_laws::holds_data(before, Area::Staging, database, entries),
        crate::snapshot_laws::unused(before, Area::Target),
        after == crate::tree::with_dirs(before, crate::snapshot::area_spot(Area::Target)),
    ensures
        crate::snapshot_laws::holds_data(after, Area::Staging, database, entries),
        crate::snapshot_laws::unused(after, Area::Target),
{
    let top = crate::snapshot::area_spot(Area::Target);
    lemma_area_kept(before, after, Area::Staging, database, entries);
    assert forall|s: Spot| #[trigger]
        after.dom().contains(s) && s.0 == Area::Target implies s == top by {
        if crate::tree::within(s, top) {
            assert(s.1 =~= top.1);
        }
    }
}

/// The database has been copied.
pub proof fn lemma_database_added(
    before: Disk,
    after: Disk,
    database: Seq<u8>,
    entries: Map<Seq<u8>, Node>,
)
    requires
        crate::snapshot_laws::holds_data(before, Area::Staging, database, entries),
        crate::snapshot_laws::unused(before, Area::Target),
        after == before.insert(
            crate::snapshot::database_spot(Area::Target),
            before[crate::snapshot::database_spot(Area::Staging)],
        ),
    ensures
        crate::snapshot_laws::holds_data(after, Area::Staging, database, entries),
        crate::snapshot_laws::database_only(after, Area::Target),
        crate::tree::found(after, crate::snapshot::database_spot(Area::Target)) == Some(
            Leaf::File(database),
        ),
{
    lemma_area_kept(before, after, Area::Staging, database, entries);
    let spot = crate::snapshot::database_spot(Area::Staging);
    assert(crate::tree::found(before, spot) == Some(Leaf::File(database)));
}

/// An area in which nothing has changed holds what it held.
pub proof fn lemma_area_kept(
    before: Disk,
    after: Disk,
    area: Area,
    database: Seq<u8>,
    entries: Map<Seq<u8>, Node>,
)
    requires
        crate::snapshot_laws::holds_data(before, area, database, entries),
        forall|s: Spot|
            s.0 == area ==> #[trigger] crate::tree::found(after, s) == crate::tree::found(
                before,
                s,
            ),
    ensures
        crate::snapshot_laws::holds_data(after, area, database, entries),
{
    let collab = crate::snapshot::collab_spot(area);
    assert forall|path: Seq<Seq<u8>>| #[trigger]
        crate::tree::found(after, crate::tree::below(collab, path)) == crate::tree::at(
            Node::Dir(entries),
            path,
        ) by {
        assert(crate::tree::found(before, crate::tree::below(collab, path))
            == crate::tree::at(Node::Dir(entries), path));
    }
}

/// A snapshot that succeeded, put back with its own manifest into an unused target area, arrives
/// there: the restoration succeeds, the database has the bytes that the snapshot has, and the
/// collab database directory is identical to the user's, in which there are then only files and
/// directories.
pub proof fn law_round_trip(
    entries: Map<Seq<u8>, Node>,
    taking: Seq<ReplyView>,
    taking_worlds: Seq<World>,
    manifest: Map<Seq<char>, Seq<char>>,
    restoring: Seq<ReplyView>,
    restoring_worlds: Seq<World>,
)
    requires
        crate::tree::finite_tree(Node::Dir(entries)),
        crate::world::served(SnapshotView::Creating, taking, taking_worlds),
        crate::tree::holds(
            taking_worlds[0].disk,
            crate::snapshot::collab_spot(Area::User),
            Node::Dir(entries),
        ),
        crate::snapshot_laws::unused(taking_worlds[0].disk, Area::Staging),
        crate::world::run(SnapshotView::Creating, taking) == SnapshotView::Finished(Ok(manifest)),
        crate::world::served(
            crate::restore::restore_start(manifest),
            restoring,
            restoring_worlds,
        ),
        forall|s: Spot|
            s.0 == Area::Staging ==> #[trigger] crate::tree::found(restoring_worlds[0].disk, s)
                == crate::tree::found(taking_worlds.last().disk, s),
        crate::snapshot_laws::unused(restoring_worlds[0].disk, Area::Target),
        crate::world::run(
            crate::restore::restore_start(manifest),
            restoring,
        ).request() is None,
    ensures
        crate::tree::plain_tree(Node::Dir(entries)),
        crate::world::run(crate::restore::restore_start(manifest), restoring)
            == RestoreView::Finished(Ok(())),
        crate::snapshot_laws::holds_data(
            restoring_worlds.last().disk,
            Area::Target,
            crate::snapshot_laws::database_bytes(taking_worlds.last().disk, Area::Staging),
            entries,
        ),
        crate::snapshot_laws::only_outputs(restoring_worlds.last().disk, Area::Target),
{
    let disk = taking_worlds.last().disk;
    let database = crate::snapshot_laws::database_bytes(disk, Area::Staging);
    crate::snapshot_laws::law_snapshot(entries, taking, taking_worlds);
    lemma_area_kept(disk, restoring_worlds[0].disk, Area::Staging, database, entries);
    law_restore(manifest, database, entries, restoring, restoring_worlds);
    crate::snapshot::lemma_names_differ();
}

/// A snapshot whose database or collab database directory is no longer what the manifest says is
/// refused: the restoration ends with an error about a checksum.
pub proof fn law_altered_snapshot_is_refused(
    manifest: Map<Seq<char>, Seq<char>>,
    database: Seq<u8>,
    entries: Map<Seq<u8>, Node>,
    replies: Seq<ReplyView>,
    worlds: Seq<World>,
)
    requires
        crate::tree::finite_tree(Node::Dir(entries)),
        crate::world::served(crate::restore::restore_start(manifest), replies, worlds),
        crate::snapshot_laws::holds_data(worlds[0].disk, Area::Staging, database, entries),
        crate::snapshot_laws::unused(worlds[0].disk, Area::Target),
        crate::world::run(crate::restore::restore_start(manifest), replies).request() is None,
        !manifest.contains_pair(
            crate::snapshot::database_name(),
            crate::digest::checksum(database),
        ) || !manifest.contains_pair(
            crate::snapshot::collab_name(),
            crate::checksum::dir_checksum(entries),
        ),
    ensures
        crate::world::run(
            crate::restore::restore_start(manifest),
            replies,
        ) matches RestoreView::Finished(Err(ErrorView::Snapshot(text))) && ((
        "checksum mismatch for "@).is_prefix_of(text) || (
        "no checksum in the manifest for "@).is_prefix_of(text)),
{
    law_restore(manifest, database, entries, replies, worlds);
    let first = crate::restore::rejection(
        manifest,
        crate::snapshot::database_name(),
        crate::digest::checksum(database),
    );
    let second = crate::restore::rejection(
        manifest,
        crate::snapshot::collab_name(),
        crate::checksum::dir_checksum(entries),
    );
    let error = if first is Some { first->0 } else { second->0 };
    let text = error->Snapshot_0;
    let mismatch = "checksum mismatch for "@;
    let missing = "no checksum in the manifest for "@;
    assert(mismatch =~= text.take(mismatch.len() as int) || missing =~= text.take(
        missing.len() as int,
    ));
}

/// A restoration can go on with whatever a faultless file system answers it, as long as the file or
/// the directory whose checksum it takes keeps within what SHA-256 is defined for.
pub proof fn law_restore_accepts_replies(
    job: RestoreView,
    before: World,
    reply: ReplyView,
    after: World,
)
    requires
        job.request() is Some,
        crate::world::serves(before, job.request()->0, reply, after),
        job->phase is Reading ==> reply->Data_0.len() <= crate::digest::MAX_MESSAGE,
        job->phase matches RestorePhaseView::Hashing(hash) ==> crate::snapshot_laws::hash_has_room(
            hash,
            reply,
        ),
    ensures
        crate::restore::restore_accepts(job, reply),
{
    match job->phase {
        RestorePhaseView::Copying(copy) => {
            crate::copy_laws::law_copy_accepts_replies(copy, before, reply, after);
        },
        RestorePhaseView::Hashing(hash) => {
            crate::checksum_laws::law_checksum_accepts_replies(hash, before, reply, after);
        },
        _ => {},
    }
}

/// The first failure that a restoration meets is what it ends with: nothing more is asked for,
/// and no later reply makes it a success.
pub proof fn law_failed_restoration_is_given_up(
    job: RestoreView,
    text: Seq<char>,
    later: Seq<ReplyView>,
)
    requires
        job.request() is Some,
    ensures
        crate::world::run(job.step(ReplyView::Failed(text)), later) == RestoreView::Finished(
            Err(ErrorView::Io(text)),
        ),
{
    lemma_restoration_stays_over(Err(ErrorView::Io(text)), later);
}

proof fn lemma_restoration_stays_over(
    result: Result<(), ErrorView>,
    later: Seq<ReplyView>,
)
    ensures
        crate::world::run(RestoreView::Finished(result), later) == RestoreView::Finished(result),
    decreases later.len(),
{
    if later.len() > 0 {
        lemma_restoration_stays_over(result, later.skip(1));
    }
}

/// A database that has changed since the manifest was made is refused, unless it has the same
/// SHA-256 digest.
pub proof fn law_altered_database_is_refused(
    manifest: Map<Seq<char>, Seq<char>>,
    recorded: Seq<u8>,
    database: Seq<u8>,
    entries: Map<Seq<u8>, Node>,
    replies: Seq<ReplyView>,
    worlds: Seq<World>,
)
    requires
        crate::tree::finite_tree(Node::Dir(entries)),
        crate::world::served(crate::restore::restore_start(manifest), replies, worlds),
        crate::snapshot_laws::holds_data(worlds[0].disk, Area::Staging, database, entries),
        crate::snapshot_laws::unused(worlds[0].disk, Area::Target),
        crate::world::run(crate::restore::restore_start(manifest), replies).request() is None,
        manifest.contains_pair("flowy-database.db"@, crate::digest::checksum(recorded)),
        crate::digest::sha256(recorded) != crate::digest::sha256(database),
    ensures
        crate::world::run(crate::restore::restore_start(manifest), replies) matches
            RestoreView::Finished(Err(ErrorView::Snapshot(_))),
{
    crate::digest::law_same_checksum_same_digest(recorded, database);
    law_altered_snapshot_is_refused(manifest, database, entries, replies, worlds);
}

/// A collab database directory in which the bytes of one file have changed since the manifest was
/// made, at whatever depth, is refused, unless two different messages of directories on the way to
/// the file have the same SHA-256 digest.
pub proof fn law_altered_file_is_refused(
    manifest: Map<Seq<char>, Seq<char>>,
    recorded: Map<Seq<u8>, Node>,
    database: Seq<u8>,
    entries: Map<Seq<u8>, Node>,
    path: Seq<Seq<u8>>,
    replies: Seq<ReplyView>,
    worlds: Seq<World>,
)
    requires
        crate::tree::finite_tree(Node::Dir(entries)),
        crate::world::served(crate::restore::restore_start(manifest), replies, worlds),
        crate::snapshot_laws::holds_data(worlds[0].disk, Area::Staging, database, entries),
        crate::snapshot_laws::unused(worlds[0].disk, Area::Target),
        crate::world::run(crate::restore::restore_start(manifest), replies).request() is None,
        manifest.contains_pair("collab_db"@, crate::checksum::dir_checksum(recorded)),
        crate::tree::at(Node::Dir(recorded), path) matches Some(Leaf::File(_)),
        crate::tree::at(Node::Dir(entries), path) matches Some(Leaf::File(_)),
        crate::tree::at(Node::Dir(recorded), path) != crate::tree::at(Node::Dir(entries), path),
        forall|p: Seq<Seq<u8>>|
            p != path ==> #[trigger] crate::tree::at(Node::Dir(entries), p) == crate::tree::at(
                Node::Dir(recorded),
                p,
            ),
        forall|k: int|
            0 <= k < path.len() ==> !#[trigger] crate::checksum_laws::collide(
                crate::checksum_laws::message_of(
                    crate::checksum_laws::dir_at(entries, path.take(k)),
                ),
                crate::checksum_laws::message_of(
                    crate::checksum_laws::dir_at(recorded, path.take(k)),
                ),
            ),
    ensures
        crate::world::run(crate::restore::restore_start(manifest), replies) matches
            RestoreView::Finished(Err(ErrorView::Snapshot(_))),
{
    crate::checksum_laws::law_changed_file_is_noticed(entries, recorded, path);
    law_altered_snapshot_is_refused(manifest, database, entries, replies, worlds);
}

} // verus!
