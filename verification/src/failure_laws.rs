//! What becomes of a snapshot that fails, and what makes a job fail.
use vstd::prelude::*;

use crate::checksum::{FrameView, HashPhaseView, HashView};
use crate::copy::CopyView;
use crate::error::ErrorView;
use crate::io::{Area, ReplyView, RequestView, Spot};
use crate::restore::{RestorePhaseView, RestoreView};
use crate::snapshot::{Fresh, SnapshotView};
use crate::tree::Disk;
use crate::world::{Machine, World};

verus! {

/// What a failure is reported as: one of the database engine as a failed snapshot, any other as
/// one of the file system. The text is that of the failure.
pub open spec fn reported(request: RequestView, text: Seq<char>) -> ErrorView {
    if request is VacuumInto {
        ErrorView::Snapshot(text)
    } else {
        ErrorView::Io(text)
    }
}

/// Which outputs are a snapshot's own, as far as it has looked.
pub open spec fn own(job: SnapshotView) -> Fresh {
    match job {
        SnapshotView::Vacuuming { fresh } => fresh,
        SnapshotView::Reading { fresh } => fresh,
        SnapshotView::Copying { fresh, database, copy } => fresh,
        SnapshotView::Hashing { fresh, database, hash } => fresh,
        _ => Fresh { database: false, collab: false },
    }
}

/// The snapshot has begun to copy the directory.
pub open spec fn directory_begun(job: SnapshotView) -> bool {
    job is Copying || job is Hashing
}

/// How many removals a snapshot asks for that fails here: one for the copied directory, once the
/// copy has been begun, and one for the database, of those that are its own.
pub open spec fn removals(job: SnapshotView) -> nat {
    let directory: nat = if directory_begun(job) && own(job).collab {
        1
    } else {
        0
    };
    let database: nat = if own(job).database {
        1
    } else {
        0
    };
    directory + database
}

/// The first failure that a snapshot meets is what it ends with. Before that it asks for the
/// removal of what it has made, and for nothing else; whatever comes of that, and whatever comes
/// later, makes no difference to the end.
pub proof fn law_failed_snapshot_is_given_up(
    job: SnapshotView,
    text: Seq<char>,
    later: Seq<ReplyView>,
)
    requires
        job.request() is Some,
        !crate::snapshot_laws::giving_up(job),
    ensures
        ({
            let end = crate::world::run(job.step(ReplyView::Failed(text)), later);
            &&& later.len() >= removals(job) ==> end == SnapshotView::Finished(
                Err(reported(job.request()->0, text)),
            )
            &&& later.len() < removals(job) ==> end.request() == Some(
                if later.len() == 0 && directory_begun(job) && own(job).collab {
                    RequestView::RemoveDirAll(crate::snapshot::collab_spot(Area::Staging))
                } else {
                    RequestView::RemoveFile(crate::snapshot::database_spot(Area::Staging))
                },
            )
        }),
{
    let result = Err(reported(job.request()->0, text));
    reveal_with_fuel(crate::world::run, 3);
    lemma_snapshot_stays_over(result, later);
    if later.len() >= 1 {
        lemma_snapshot_stays_over(result, later.skip(1));
    }
    if later.len() >= 2 {
        lemma_snapshot_stays_over(result, later.skip(1).skip(1));
    }
}

proof fn lemma_snapshot_stays_over(
    result: Result<Map<Seq<char>, Seq<char>>, ErrorView>,
    later: Seq<ReplyView>,
)
    ensures
        crate::world::run(SnapshotView::Finished(result), later) == SnapshotView::Finished(result),
    decreases later.len(),
{
    if later.len() > 0 {
        lemma_snapshot_stays_over(result, later.skip(1));
    }
}

/// What can be in the staging area, which was unused at the start, by now.
spec fn staged_so_far(job: SnapshotView, disk: Disk) -> bool {
    match job {
        SnapshotView::Creating => crate::snapshot_laws::unused(disk, Area::Staging),
        SnapshotView::InspectingDatabase => crate::snapshot_laws::unused(disk, Area::Staging),
        SnapshotView::InspectingCollab { database } => crate::snapshot_laws::unused(
            disk,
            Area::Staging,
        ) && database,
        SnapshotView::Vacuuming { fresh } => crate::snapshot_laws::database_only(
            disk,
            Area::Staging,
        ) && fresh.database && fresh.collab,
        SnapshotView::Reading { fresh } => crate::snapshot_laws::database_only(
            disk,
            Area::Staging,
        ) && fresh.database && fresh.collab,
        SnapshotView::Copying { fresh, .. } => crate::snapshot_laws::only_outputs(
            disk,
            Area::Staging,
        ) && fresh.database && fresh.collab,
        SnapshotView::Hashing { fresh, .. } => crate::snapshot_laws::only_outputs(
            disk,
            Area::Staging,
        ) && fresh.database && fresh.collab,
        _ => true,
    }
}

/// The reply to a look at a path is what is there, or that the look failed.
pub open spec fn truthful(request: RequestView, reply: ReplyView, before: World) -> bool {
    request matches RequestView::Inspect(spot) ==> reply is Failed || reply == ReplyView::Kind(
        crate::world::kind(crate::tree::found(before.disk, spot)),
    )
}

/// Each of `replies` is an answer to the job at that point, of whatever kind, failures among them,
/// except that no look at a path deceives; `worlds` are the states that the file system passes
/// through, in which nothing changes but what the requests may change.
pub open spec fn attempted_truthfully(
    job: SnapshotView,
    replies: Seq<ReplyView>,
    worlds: Seq<World>,
) -> bool
    decreases replies.len(),
{
    &&& worlds.len() == replies.len() + 1
    &&& replies.len() > 0 ==> {
        &&& job.request() matches Some(request)
        &&& crate::world::confined(worlds[0], request, worlds[1])
        &&& truthful(request, replies[0], worlds[0])
        &&& attempted_truthfully(job.step(replies[0]), replies.skip(1), worlds.skip(1))
    }
}

/// While a request is carried out or fails, no more comes into the staging area than the next
/// state allows for.
proof fn lemma_staged_step(job: SnapshotView, before: World, after: World)
    requires
        crate::snapshot_laws::sound(job),
        job.request() is Some,
        staged_so_far(job, before.disk),
        crate::world::confined(before, job.request()->0, after),
    ensures
        job is Creating || job is InspectingDatabase || job is InspectingCollab
            ==> crate::snapshot_laws::unused(after.disk, Area::Staging),
        job is Vacuuming || job is Reading ==> crate::snapshot_laws::database_only(
            after.disk,
            Area::Staging,
        ),
        directory_begun(job) ==> crate::snapshot_laws::only_outputs(after.disk, Area::Staging),
{
    let top = crate::snapshot::area_spot(Area::Staging);
    let database = crate::snapshot::database_spot(Area::Staging);
    let collab = crate::snapshot::collab_spot(Area::Staging);
    let request = job.request()->0;
    assert forall|s: Spot| #[trigger]
        after.disk.dom().contains(s) && s.0 == Area::Staging implies before.disk.dom().contains(s)
        || crate::world::writes(request, s) by {
        if !crate::world::writes(request, s) {
            assert(crate::tree::found(after.disk, s) == crate::tree::found(before.disk, s));
        }
    }
    assert forall|s: Spot| #[trigger] crate::world::writes(request, s) && s.0
        == Area::Staging implies (job is Creating ==> s == top) && (job is Vacuuming ==> s
        == database) && !(job is InspectingDatabase) && !(job is InspectingCollab) && !(
    job is Reading) && !(job is Hashing) && (job is Copying ==> s == top
        || crate::tree::within(collab, s)) by {
        if job is Creating {
            assert(s.1 =~= top.1);
        }
        if let SnapshotView::Copying { fresh, database: text, copy } = job {
            crate::snapshot_laws::lemma_copies_into_writes(copy, collab, s);
            if crate::tree::within(s, collab) {
                if s.1.len() == 0 {
                    assert(s.1 =~= top.1);
                } else {
                    assert(s.1 =~= collab.1);
                }
            }
        }
        if let SnapshotView::Hashing { fresh, database: text, hash } = job {
            assert(!crate::world::writes(request, s));
        }
    }
}

proof fn lemma_staged_run(job: SnapshotView, replies: Seq<ReplyView>, worlds: Seq<World>)
    requires
        crate::snapshot_laws::sound(job),
        attempted_truthfully(job, replies, worlds),
        staged_so_far(job, worlds[0].disk),
    ensures
        crate::snapshot_laws::sound(crate::world::run(job, replies)),
        staged_so_far(crate::world::run(job, replies), worlds.last().disk),
    decreases replies.len(),
{
    if replies.len() > 0 {
        let next = job.step(replies[0]);
        crate::snapshot_laws::lemma_sound_step(job, replies[0]);
        lemma_staged_step(job, worlds[0], worlds[1]);
        let database = crate::snapshot::database_spot(Area::Staging);
        let collab = crate::snapshot::collab_spot(Area::Staging);
        let top = crate::snapshot::area_spot(Area::Staging);
        assert(database != top && collab != top) by {
            assert(database.1.len() != top.1.len() && collab.1.len() != top.1.len());
        }
        assert(staged_so_far(next, worlds[1].disk));
        lemma_staged_run(next, replies.skip(1), worlds.skip(1));
        assert(worlds.skip(1).last() == worlds.last());
    }
}

/// A snapshot that fails leaves no partial artifact: where the staging area was unused at the
/// start, and the removals that the snapshot asks for are served, it is unused again at the end.
/// What was done before the failure, and what the failed request itself has left, may be anything
/// that the requests allow for, half a copy among it.
pub proof fn law_failed_snapshot_leaves_nothing(
    replies: Seq<ReplyView>,
    worlds: Seq<World>,
    text: Seq<char>,
    failed: World,
    removing: Seq<ReplyView>,
    removing_worlds: Seq<World>,
)
    requires
        attempted_truthfully(SnapshotView::Creating, replies, worlds),
        crate::snapshot_laws::unused(worlds[0].disk, Area::Staging),
        ({
            let job = crate::world::run(SnapshotView::Creating, replies);
            let next = job.step(ReplyView::Failed(text));
            &&& job.request() is Some
            &&& !crate::snapshot_laws::giving_up(job)
            &&& crate::world::confined(worlds.last(), job.request()->0, failed)
            &&& crate::world::served(next, removing, removing_worlds)
            &&& crate::world::run(next, removing).request() is None
        }),
        removing_worlds[0] == failed,
    ensures
        crate::snapshot_laws::unused(removing_worlds.last().disk, Area::Staging),
{
    let job = crate::world::run(SnapshotView::Creating, replies);
    lemma_staged_run(SnapshotView::Creating, replies, worlds);
    lemma_staged_step(job, worlds.last(), failed);
    let error = reported(job.request()->0, text);
    if directory_begun(job) {
        lemma_both_removed(own(job), error, removing, removing_worlds);
    } else if job is Vacuuming || job is Reading {
        lemma_database_removed(error, removing, removing_worlds);
    } else {
        assert(removing.len() == 0);
    }
}

/// The copy of the database has been removed.
proof fn lemma_database_removed(
    error: ErrorView,
    replies: Seq<ReplyView>,
    worlds: Seq<World>,
)
    requires
        crate::world::served(SnapshotView::RemovingDatabase(error), replies, worlds),
        crate::world::run(SnapshotView::RemovingDatabase(error), replies).request() is None,
        crate::snapshot_laws::database_only(worlds[0].disk, Area::Staging),
    ensures
        crate::snapshot_laws::unused(worlds.last().disk, Area::Staging),
{
    reveal_with_fuel(crate::world::served, 2);
    assert(replies.len() > 0);
    assert(replies.skip(1).len() == 0);
    assert(worlds.last() == worlds[1]);
}

/// Both copies have been removed.
proof fn lemma_both_removed(
    fresh: Fresh,
    error: ErrorView,
    replies: Seq<ReplyView>,
    worlds: Seq<World>,
)
    requires
        fresh.database,
        crate::world::served(SnapshotView::RemovingCollab { fresh, error }, replies, worlds),
        crate::world::run(
            SnapshotView::RemovingCollab { fresh, error },
            replies,
        ).request() is None,
        crate::snapshot_laws::only_outputs(worlds[0].disk, Area::Staging),
    ensures
        crate::snapshot_laws::unused(worlds.last().disk, Area::Staging),
{
    assert(replies.len() > 0);
    lemma_database_removed(error, replies.skip(1), worlds.skip(1));
    assert(worlds.skip(1).last() == worlds.last());
}

/// What was not there at the start is what the snapshot takes for its own, and is not there yet as
/// long as the snapshot has not begun to make it.
spec fn claims(job: SnapshotView, disk: Disk, database: bool, collab: bool) -> bool {
    let one = crate::tree::found(disk, crate::snapshot::database_spot(Area::Staging));
    let other = crate::tree::found(disk, crate::snapshot::collab_spot(Area::Staging));
    match job {
        SnapshotView::Creating => (!database ==> one is None) && (!collab ==> other is None),
        SnapshotView::InspectingDatabase => (!database ==> one is None) && (!collab ==> other
            is None),
        SnapshotView::InspectingCollab { database: own } => (!database ==> one is None && own) && (
        !collab ==> other is None),
        SnapshotView::Vacuuming { fresh } => (!database ==> fresh.database) && (!collab ==> other
            is None && fresh.collab),
        SnapshotView::Reading { fresh } => (!database ==> fresh.database) && (!collab ==> other
            is None && fresh.collab),
        SnapshotView::Copying { fresh, .. } => (!database ==> fresh.database) && (!collab
            ==> fresh.collab),
        SnapshotView::Hashing { fresh, .. } => (!database ==> fresh.database) && (!collab
            ==> fresh.collab),
        _ => true,
    }
}

/// Before the snapshot has begun to make an output, its requests do not touch it.
proof fn lemma_claims_step(
    job: SnapshotView,
    before: World,
    after: World,
    database: bool,
    collab: bool,
)
    requires
        job.request() is Some,
        claims(job, before.disk, database, collab),
        crate::world::confined(before, job.request()->0, after),
    ensures
        claims(job, after.disk, database, collab),
{
    let one = crate::snapshot::database_spot(Area::Staging);
    let other = crate::snapshot::collab_spot(Area::Staging);
    crate::snapshot_laws::lemma_outputs_apart(Area::Staging);
    if job is Creating || job is InspectingDatabase || job is InspectingCollab {
        assert(!crate::world::writes(job.request()->0, one));
        assert(crate::tree::found(after.disk, one) == crate::tree::found(before.disk, one));
    }
    if !directory_begun(job) && !crate::snapshot_laws::giving_up(job) {
        assert(!crate::world::writes(job.request()->0, other));
        assert(crate::tree::found(after.disk, other) == crate::tree::found(before.disk, other));
    }
}

proof fn lemma_claims_run(
    job: SnapshotView,
    replies: Seq<ReplyView>,
    worlds: Seq<World>,
    database: bool,
    collab: bool,
)
    requires
        attempted_truthfully(job, replies, worlds),
        claims(job, worlds[0].disk, database, collab),
    ensures
        claims(crate::world::run(job, replies), worlds.last().disk, database, collab),
    decreases replies.len(),
{
    if replies.len() > 0 {
        let next = job.step(replies[0]);
        lemma_claims_step(job, worlds[0], worlds[1], database, collab);
        assert(claims(next, worlds[1].disk, database, collab));
        lemma_claims_run(next, replies.skip(1), worlds.skip(1), database, collab);
        assert(worlds.skip(1).last() == worlds.last());
    }
}

/// A snapshot that fails takes back what it has made, whatever else there was in the staging area:
/// where the removals that it asks for are served, an output that was not there at the start is not
/// there at the end. What was done before the failure, and what the failed request itself has left,
/// may be anything that the requests allow for.
pub proof fn law_failed_snapshot_takes_back_its_outputs(
    replies: Seq<ReplyView>,
    worlds: Seq<World>,
    text: Seq<char>,
    failed: World,
    removing: Seq<ReplyView>,
    removing_worlds: Seq<World>,
)
    requires
        attempted_truthfully(SnapshotView::Creating, replies, worlds),
        ({
            let job = crate::world::run(SnapshotView::Creating, replies);
            let next = job.step(ReplyView::Failed(text));
            &&& job.request() is Some
            &&& !crate::snapshot_laws::giving_up(job)
            &&& crate::world::confined(worlds.last(), job.request()->0, failed)
            &&& crate::world::served(next, removing, removing_worlds)
            &&& crate::world::run(next, removing).request() is None
        }),
        removing_worlds[0] == failed,
    ensures
        ({
            let database = crate::snapshot::database_spot(Area::Staging);
            let collab = crate::snapshot::collab_spot(Area::Staging);
            let before = worlds[0].disk;
            let after = removing_worlds.last().disk;
            &&& crate::tree::found(before, database) is None ==> crate::tree::found(after, database)
                is None
            &&& crate::tree::found(before, collab) is None ==> crate::tree::found(after, collab)
                is None
        }),
{
    let one = crate::snapshot::database_spot(Area::Staging);
    let other = crate::snapshot::collab_spot(Area::Staging);
    let database = crate::tree::found(worlds[0].disk, one) is Some;
    let collab = crate::tree::found(worlds[0].disk, other) is Some;
    let job = crate::world::run(SnapshotView::Creating, replies);
    let next = job.step(ReplyView::Failed(text));
    lemma_claims_run(SnapshotView::Creating, replies, worlds, database, collab);
    lemma_claims_step(job, worlds.last(), failed, database, collab);
    crate::snapshot_laws::lemma_outputs_apart(Area::Staging);
    reveal_with_fuel(crate::world::served, 3);
    reveal_with_fuel(crate::world::run, 3);
    if removing.len() == 0 {
        assert(next.request() is None);
        assert(removing_worlds.last() == failed);
    } else if removing.len() == 1 {
        assert(removing_worlds.last() == removing_worlds[1]);
    } else {
        let second = next.step(removing[0]);
        let removing1 = removing.skip(1);
        let worlds1 = removing_worlds.skip(1);
        assert(crate::world::served(second, removing1, worlds1));
        assert(second.request() is Some);
        assert(crate::world::served(
            second.step(removing1[0]),
            removing1.skip(1),
            worlds1.skip(1),
        ));
        assert(removing1.skip(1).len() == 0);
        assert(removing_worlds.last() == worlds1[1]);
    }
}

/// What the snapshot takes for its own was not there at the start.
spec fn respects(job: SnapshotView, database: bool, collab: bool) -> bool {
    match job {
        SnapshotView::InspectingCollab { database: own } => database ==> !own,
        SnapshotView::RemovingCollab { fresh, error } => !collab && (database ==> !fresh.database),
        SnapshotView::RemovingDatabase(_) => !database,
        _ => (database ==> !own(job).database) && (collab ==> !own(job).collab),
    }
}

/// What was in the staging area before, under the name of an output, is there when it is looked at.
spec fn still_there(job: SnapshotView, disk: Disk, database: bool, collab: bool) -> bool {
    job is Creating || job is InspectingDatabase || job is InspectingCollab ==> {
        &&& database ==> crate::tree::found(
            disk,
            crate::snapshot::database_spot(Area::Staging),
        ) is Some
        &&& collab ==> crate::tree::found(
            disk,
            crate::snapshot::collab_spot(Area::Staging),
        ) is Some
    }
}

proof fn lemma_respects_run(
    job: SnapshotView,
    replies: Seq<ReplyView>,
    worlds: Seq<World>,
    database: bool,
    collab: bool,
)
    requires
        attempted_truthfully(job, replies, worlds),
        respects(job, database, collab),
        still_there(job, worlds[0].disk, database, collab),
    ensures
        respects(crate::world::run(job, replies), database, collab),
    decreases replies.len(),
{
    if replies.len() > 0 {
        let next = job.step(replies[0]);
        let one = crate::snapshot::database_spot(Area::Staging);
        let other = crate::snapshot::collab_spot(Area::Staging);
        if job is Creating || job is InspectingDatabase || job is InspectingCollab {
            assert(!crate::world::writes(job.request()->0, one));
            assert(!crate::world::writes(job.request()->0, other));
            assert(crate::tree::found(worlds[1].disk, one) == crate::tree::found(
                worlds[0].disk,
                one,
            ));
            assert(crate::tree::found(worlds[1].disk, other) == crate::tree::found(
                worlds[0].disk,
                other,
            ));
        }
        assert(still_there(next, worlds[1].disk, database, collab));
        assert(respects(next, database, collab));
        lemma_respects_run(next, replies.skip(1), worlds.skip(1), database, collab);
    }
}

/// A snapshot never asks for the removal of what was in the staging area before it: not of a
/// database that was there, and not of a collab database directory that was there, whatever it has
/// copied to it. This holds wherever it has got to, and whatever has failed.
pub proof fn law_earlier_outputs_are_not_removed(replies: Seq<ReplyView>, worlds: Seq<World>)
    requires
        attempted_truthfully(SnapshotView::Creating, replies, worlds),
    ensures
        ({
            let job = crate::world::run(SnapshotView::Creating, replies);
            let database = crate::snapshot::database_spot(Area::Staging);
            let collab = crate::snapshot::collab_spot(Area::Staging);
            let before = worlds[0].disk;
            &&& crate::tree::found(before, database) is Some ==> !(job.request() matches Some(
                RequestView::RemoveFile(_),
            ))
            &&& crate::tree::found(before, collab) is Some ==> !(job.request() matches Some(
                RequestView::RemoveDirAll(_),
            ))
        }),
{
    let database = crate::tree::found(
        worlds[0].disk,
        crate::snapshot::database_spot(Area::Staging),
    ) is Some;
    let collab = crate::tree::found(
        worlds[0].disk,
        crate::snapshot::collab_spot(Area::Staging),
    ) is Some;
    lemma_respects_run(SnapshotView::Creating, replies, worlds, database, collab);
}

/// One of the replies is a failure with this text.
pub open spec fn met(replies: Seq<ReplyView>, text: Seq<char>) -> bool {
    replies.contains(ReplyView::Failed(text))
}

proof fn lemma_met_longer(replies: Seq<ReplyView>, text: Seq<char>)
    requires
        replies.len() > 0,
        met(replies.drop_last(), text) || replies.last() == ReplyView::Failed(text),
    ensures
        met(replies, text),
{
    if met(replies.drop_last(), text) {
        let i = choose|i: int|
            0 <= i < replies.drop_last().len() && replies.drop_last()[i] == ReplyView::Failed(text);
        assert(replies[i] == ReplyView::Failed(text));
    } else {
        assert(replies[replies.len() - 1] == ReplyView::Failed(text));
    }
}

/// A copy fails only where it has met a failure, and then with its text: whatever else it is told,
/// and whatever the names are, it goes on.
pub proof fn law_copy_fails_only_by_a_failure(from: Spot, to: Spot, replies: Seq<ReplyView>)
    ensures
        crate::world::run(crate::copy::copy_start(from, to), replies) matches CopyView::Finished(
            Err(error),
        ) ==> error is Io && met(replies, error->Io_0),
    decreases replies.len(),
{
    let start = crate::copy::copy_start(from, to);
    if replies.len() > 0 {
        let shorter = replies.drop_last();
        law_copy_fails_only_by_a_failure(from, to, shorter);
        crate::world::lemma_run_longer(start, shorter, replies.last());
        assert(shorter.push(replies.last()) =~= replies);
        if let CopyView::Finished(Err(error)) = crate::world::run(start, replies) {
            lemma_met_longer(replies, error->Io_0);
        }
    }
}

proof fn lemma_advance_does_not_fail(
    area: Area,
    path: Seq<Seq<u8>>,
    frames: Seq<FrameView>,
)
    ensures
        !(crate::checksum::advance(area, path, frames) matches HashView::Finished(Err(_))),
    decreases frames.len(),
{
    let last = frames.last();
    if last.pending.len() == 0 && frames.len() > 1 {
        lemma_advance_does_not_fail(
            area,
            path.drop_last(),
            crate::checksum::extended(
                frames.drop_last(),
                vstd::utf8::encode_utf8(crate::digest::checksum(last.message)),
            ),
        );
    }
}

/// What a checksum becomes by a reply that is no failure is not a failure.
proof fn lemma_hash_step_does_not_fail(job: HashView, reply: ReplyView)
    requires
        !(job matches HashView::Finished(Err(_))),
        !(reply is Failed),
    ensures
        !(job.step(reply) matches HashView::Finished(Err(_))),
{
    if let HashView::Active { area, path, frames, phase } = job {
        match (phase, reply) {
            (HashPhaseView::Listing, ReplyView::Names(names)) => {
                lemma_advance_does_not_fail(
                    area,
                    path,
                    frames.push(
                        FrameView {
                            message: Seq::empty(),
                            pending: names.sort_by(crate::names::byte_order()),
                        },
                    ),
                );
            },
            (HashPhaseView::Inspecting(name), ReplyView::Kind(kind)) => {
                lemma_advance_does_not_fail(area, path, frames);
            },
            (HashPhaseView::Reading(name), ReplyView::Data(bytes)) => {
                lemma_advance_does_not_fail(
                    area,
                    path,
                    crate::checksum::extended(frames, bytes),
                );
            },
            _ => {},
        }
    }
}

/// A checksum fails only where it has met a failure, and then with its text.
pub proof fn law_checksum_fails_only_by_a_failure(spot: Spot, replies: Seq<ReplyView>)
    ensures
        crate::world::run(crate::checksum::hash_start(spot), replies) matches HashView::Finished(
            Err(error),
        ) ==> error is Io && met(replies, error->Io_0),
    decreases replies.len(),
{
    let start = crate::checksum::hash_start(spot);
    if replies.len() > 0 {
        let shorter = replies.drop_last();
        let before = crate::world::run(start, shorter);
        law_checksum_fails_only_by_a_failure(spot, shorter);
        crate::world::lemma_run_longer(start, shorter, replies.last());
        assert(shorter.push(replies.last()) =~= replies);
        if let HashView::Finished(Err(error)) = crate::world::run(start, replies) {
            if !(before is Finished) && !(replies.last() is Failed) {
                lemma_hash_step_does_not_fail(before, replies.last());
            }
            lemma_met_longer(replies, error->Io_0);
        }
    }
}

/// What a snapshot has failed with, if it has.
pub open spec fn failed_with(job: SnapshotView) -> Option<ErrorView> {
    match job {
        SnapshotView::RemovingCollab { fresh, error } => Some(error),
        SnapshotView::RemovingDatabase(error) => Some(error),
        SnapshotView::Finished(Err(error)) => Some(error),
        _ => None,
    }
}

/// The text of an error.
pub open spec fn text_in(error: ErrorView) -> Seq<char> {
    match error {
        ErrorView::Io(text) => text,
        ErrorView::Snapshot(text) => text,
    }
}

/// A snapshot fails only where it has met a failure, and then with its text.
pub proof fn law_snapshot_fails_only_by_a_failure(replies: Seq<ReplyView>)
    ensures
        failed_with(crate::world::run(SnapshotView::Creating, replies)) matches Some(error) ==> met(
            replies,
            text_in(error),
        ),
{
    lemma_snapshot_failure(replies);
}

proof fn lemma_snapshot_failure(replies: Seq<ReplyView>)
    ensures
        ({
            let job = crate::world::run(SnapshotView::Creating, replies);
            &&& failed_with(job) matches Some(error) ==> met(replies, text_in(error))
            &&& job matches SnapshotView::Copying { fresh, database, copy } ==> copy is Active
            &&& job matches SnapshotView::Hashing { fresh, database, hash } ==> hash is Active
        }),
    decreases replies.len(),
{
    let start = SnapshotView::Creating;
    if replies.len() > 0 {
        let shorter = replies.drop_last();
        let before = crate::world::run(start, shorter);
        let last = replies.last();
        lemma_snapshot_failure(shorter);
        crate::world::lemma_run_longer(start, shorter, last);
        assert(shorter.push(last) =~= replies);
        if let Some(error) = failed_with(crate::world::run(start, replies)) {
            if failed_with(before) is None && !(last is Failed) {
                if let SnapshotView::Hashing { fresh, database, hash } = before {
                    lemma_hash_step_does_not_fail(hash, last);
                }
            }
            lemma_met_longer(replies, text_in(error));
        }
    }
}

/// A restoration fails only where it has met a failure, and then with its text, or where a checksum
/// is not passed.
pub proof fn law_restoration_fails_only_by_a_failure(
    manifest: Map<Seq<char>, Seq<char>>,
    replies: Seq<ReplyView>,
)
    ensures
        crate::world::run(crate::restore::restore_start(manifest), replies) matches
            RestoreView::Finished(Err(ErrorView::Io(text))) ==> met(replies, text),
        crate::world::run(crate::restore::restore_start(manifest), replies) matches
            RestoreView::Finished(Err(ErrorView::Snapshot(text))) ==> exists|
            name: Seq<char>,
            actual: Seq<char>,
        |
            !#[trigger] manifest.contains_pair(name, actual) && crate::restore::rejection(
                manifest,
                name,
                actual,
            ) == Some(ErrorView::Snapshot(text)),
{
    lemma_restoration_failure(manifest, replies);
}

proof fn lemma_restoration_failure(
    manifest: Map<Seq<char>, Seq<char>>,
    replies: Seq<ReplyView>,
)
    ensures
        ({
            let job = crate::world::run(crate::restore::restore_start(manifest), replies);
            &&& job matches RestoreView::Finished(Err(ErrorView::Io(text))) ==> met(replies, text)
            &&& job matches RestoreView::Finished(Err(ErrorView::Snapshot(text))) ==> exists|
                name: Seq<char>,
                actual: Seq<char>,
            |
                !#[trigger] manifest.contains_pair(name, actual) && crate::restore::rejection(
                    manifest,
                    name,
                    actual,
                ) == Some(ErrorView::Snapshot(text))
            &&& job matches RestoreView::Active { manifest: kept, phase } ==> {
                &&& kept == manifest
                &&& phase matches RestorePhaseView::Copying(copy) ==> copy is Active
                &&& phase matches RestorePhaseView::Hashing(hash) ==> hash is Active
            }
        }),
    decreases replies.len(),
{
    let start = crate::restore::restore_start(manifest);
    if replies.len() > 0 {
        let shorter = replies.drop_last();
        let before = crate::world::run(start, shorter);
        let last = replies.last();
        let after = crate::world::run(start, replies);
        lemma_restoration_failure(manifest, shorter);
        crate::world::lemma_run_longer(start, shorter, last);
        assert(shorter.push(last) =~= replies);
        if let RestoreView::Active { manifest: kept, phase } = before {
            match phase {
                RestorePhaseView::Hashing(hash) => {
                    if !(last is Failed) {
                        lemma_hash_step_does_not_fail(hash, last);
                    }
                    if let HashView::Finished(Ok(text)) = hash.step(last) {
                        let name = crate::snapshot::collab_name();
                        crate::restore::law_rejection(manifest, name, text);
                        if after is Finished && after->Finished_0 is Err {
                            assert(!manifest.contains_pair(name, text));
                        }
                    }
                },
                RestorePhaseView::Reading => {
                    if let ReplyView::Data(bytes) = last {
                        let name = crate::snapshot::database_name();
                        let text = crate::digest::checksum(bytes);
                        crate::restore::law_rejection(manifest, name, text);
                        if after is Finished && after->Finished_0 is Err {
                            assert(!manifest.contains_pair(name, text));
                        }
                    }
                },
                _ => {},
            }
        }
        if let RestoreView::Finished(Err(ErrorView::Io(text))) = after {
            lemma_met_longer(replies, text);
        }
    }
}

} // verus!
