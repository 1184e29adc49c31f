//! Snapshots and restorations do not come to a halt before their end.
use vstd::prelude::*;

use crate::checksum::HashView;
use crate::copy::CopyView;
use crate::io::{Area, ReplyView, RequestView, Spot};
use crate::restore::{RestorePhaseView, RestoreView};
use crate::snapshot::{Fresh, SnapshotView};
use crate::tree::{Disk, Leaf, Node};
use crate::world::{Machine, World};

verus! {

/// The copy of a directory, at work inside another job: that job can go on as long as the copy can.
pub proof fn lemma_copy_inside_goes_on<M: Machine>(
    outer: spec_fn(CopyView) -> M,
    from: Spot,
    to: Spot,
    entries: Map<Seq<u8>, Node>,
    replies: Seq<ReplyView>,
    worlds: Seq<World>,
)
    requires
        crate::world::carries(outer),
        crate::tree::apart(from, to),
        crate::tree::plain_tree(Node::Dir(entries)),
        crate::world::served(outer(crate::copy::copy_start(from, to)), replies, worlds),
        crate::tree::holds(worlds[0].disk, from, Node::Dir(entries)),
        crate::copy_laws::clear_way(worlds[0].disk, to),
        crate::copy_laws::unobstructed(worlds[0].disk, to, Node::Dir(entries)),
    ensures
        replies.len() < crate::snapshot_laws::whole_copy_cost(entries) ==> crate::world::can_go_on(
            crate::world::run(outer(crate::copy::copy_start(from, to)), replies),
            worlds.last(),
        ),
{
    let inner = crate::copy::copy_start(from, to);
    let carried = crate::world::lemma_carried(outer, inner, replies, worlds);
    let part = replies.take(carried);
    let passed = worlds.take(carried + 1);
    let last = crate::world::run(inner, part);
    crate::snapshot_laws::lemma_plain_is_finite(Node::Dir(entries));
    crate::copy_laws::law_copy_of_tree(from, to, entries, part, passed);
    if replies.len() < crate::snapshot_laws::whole_copy_cost(entries) {
        crate::copy_laws::law_copy_goes_on(from, to, entries, part, passed);
        crate::world::lemma_reaches_rest(outer(inner), replies, worlds, carried, outer(last));
        assert(replies.skip(carried).len() == 0);
        assert(passed.last() == worlds.last());
        assert(outer(last).request() == last.request());
    }
}

/// The checksum of a directory, at work inside another job: that job can go on as long as the
/// checksum can.
proof fn lemma_hash_inside_goes_on<M: Machine>(
    outer: spec_fn(HashView) -> M,
    spot: Spot,
    entries: Map<Seq<u8>, Node>,
    replies: Seq<ReplyView>,
    worlds: Seq<World>,
)
    requires
        crate::world::carries(outer),
        crate::tree::finite_tree(Node::Dir(entries)),
        crate::world::served(outer(crate::checksum::hash_start(spot)), replies, worlds),
        crate::tree::holds(worlds[0].disk, spot, Node::Dir(entries)),
    ensures
        replies.len() < crate::snapshot_laws::whole_hash_cost(entries) ==> crate::world::can_go_on(
            crate::world::run(outer(crate::checksum::hash_start(spot)), replies),
            worlds.last(),
        ),
{
    let inner = crate::checksum::hash_start(spot);
    let carried = crate::world::lemma_carried(outer, inner, replies, worlds);
    let part = replies.take(carried);
    let passed = worlds.take(carried + 1);
    let last = crate::world::run(inner, part);
    crate::checksum_laws::law_checksum_of_tree(spot, entries, part, passed);
    if replies.len() < crate::snapshot_laws::whole_hash_cost(entries) {
        crate::checksum_laws::law_checksum_goes_on(spot, entries, part, passed);
        crate::world::lemma_reaches_rest(outer(inner), replies, worlds, carried, outer(last));
        assert(replies.skip(carried).len() == 0);
        assert(passed.last() == worlds.last());
        assert(outer(last).request() == last.request());
    }
}

/// The top of an area is a directory, or there is nothing yet.
pub open spec fn open_top(disk: Disk, area: Area) -> bool {
    crate::tree::found(disk, crate::snapshot::area_spot(area)) is None || crate::tree::found(
        disk,
        crate::snapshot::area_spot(area),
    ) == Some(Leaf::Dir)
}

/// The top of an area is a directory.
spec fn made_top(disk: Disk, area: Area) -> bool {
    crate::tree::found(disk, crate::snapshot::area_spot(area)) == Some(Leaf::Dir)
}

/// In an area with nothing but a database file, nothing is in the way of the directory.
proof fn lemma_room_for_directory(disk: Disk, area: Area, node: Node)
    requires
        crate::snapshot_laws::database_only(disk, area),
        made_top(disk, area),
    ensures
        crate::copy_laws::clear_way(disk, crate::snapshot::collab_spot(area)),
        crate::copy_laws::unobstructed(disk, crate::snapshot::collab_spot(area), node),
{
    let top = crate::snapshot::area_spot(area);
    let collab = crate::snapshot::collab_spot(area);
    let database = crate::snapshot::database_spot(area);
    crate::snapshot_laws::lemma_outputs_apart(area);
    assert(collab != database) by {
        assert(crate::tree::within(collab, collab));
    }
    assert(collab != top) by {
        assert(collab.1.len() != top.1.len());
    }
    assert forall|s: Spot| #[trigger]
        disk.dom().contains(s) && crate::tree::within(s, collab) implies disk[s] == Leaf::Dir by {
        if s.1.len() == 0 {
            assert(s.1 =~= top.1);
        } else {
            assert(s.1 =~= collab.1);
        }
    }
    assert forall|path: Seq<Seq<u8>>| #[trigger]
        crate::tree::found(disk, crate::tree::below(collab, path)) is None by {
        let s = crate::tree::below(collab, path);
        assert(s.1.len() > 0);
        assert(s.1.take(1) =~= collab.1);
        assert(crate::tree::within(collab, s));
    }
}

/// A snapshot that has begun to copy the directory can go on.
proof fn lemma_copying_goes_on(
    fresh: Fresh,
    database: Seq<u8>,
    entries: Map<Seq<u8>, Node>,
    replies: Seq<ReplyView>,
    worlds: Seq<World>,
)
    requires
        crate::tree::plain_tree(Node::Dir(entries)),
        crate::world::served(
            (SnapshotView::Reading { fresh }).step(ReplyView::Data(database)),
            replies,
            worlds,
        ),
        crate::tree::holds(
            worlds[0].disk,
            crate::snapshot::collab_spot(Area::User),
            Node::Dir(entries),
        ),
        crate::snapshot_laws::database_only(worlds[0].disk, Area::Staging),
        made_top(worlds[0].disk, Area::Staging),
        crate::world::run(
            (SnapshotView::Reading { fresh }).step(ReplyView::Data(database)),
            replies,
        ).request() is Some,
    ensures
        crate::world::can_go_on(
            crate::world::run(
                (SnapshotView::Reading { fresh }).step(ReplyView::Data(database)),
                replies,
            ),
            worlds.last(),
        ),
{
    let user = crate::snapshot::collab_spot(Area::User);
    let staging = crate::snapshot::collab_spot(Area::Staging);
    let copying = crate::snapshot_laws::whole_copy_cost(entries) as int;
    let hashing = crate::snapshot_laws::whole_hash_cost(entries) as int;
    let start = (SnapshotView::Reading { fresh }).step(ReplyView::Data(database));
    let text = crate::digest::checksum(database);
    let outer = |copy: CopyView| crate::snapshot::while_copying(fresh, text, copy);
    let outer2 = |hash: HashView| crate::snapshot::while_hashing(fresh, text, hash);
    let copied = outer(CopyView::Finished(Ok(())));
    assert(outer(crate::copy::copy_start(user, staging)) == start);
    assert(outer2(crate::checksum::hash_start(staging)) == copied);
    crate::snapshot_laws::lemma_plain_is_finite(Node::Dir(entries));
    lemma_room_for_directory(worlds[0].disk, Area::Staging, Node::Dir(entries));
    lemma_copy_inside_goes_on(outer, user, staging, entries, replies, worlds);
    if replies.len() >= copying {
        let replies1 = replies.skip(copying);
        let worlds1 = worlds.skip(copying);
        crate::snapshot_laws::lemma_directory_free(worlds[0].disk, Area::Staging);
        crate::snapshot_laws::lemma_copy_inside(outer, user, staging, entries, replies, worlds);
        crate::world::lemma_reaches_rest(start, replies, worlds, copying, copied);
        lemma_hash_inside_goes_on(outer2, staging, entries, replies1, worlds1);
        assert(worlds1.last() == worlds.last());
        if replies1.len() >= hashing {
            crate::snapshot_laws::lemma_hash_inside(outer2, staging, entries, replies1, worlds1);
            let end = outer2(
                HashView::Finished(Ok(crate::checksum::dir_checksum(entries))),
            );
            crate::world::lemma_reaches_end(copied, replies1, worlds1, hashing, end);
        }
    }
}

/// What a snapshot finds before it begins to copy the directory.
spec fn ready(job: SnapshotView, disk: Disk) -> bool {
    match job {
        SnapshotView::Creating => crate::snapshot_laws::unused(disk, Area::Staging) && open_top(
            disk,
            Area::Staging,
        ),
        SnapshotView::Reading { .. } => {
            &&& crate::snapshot_laws::database_only(disk, Area::Staging)
            &&& made_top(disk, Area::Staging)
            &&& crate::tree::found(
                disk,
                crate::snapshot::database_spot(Area::Staging),
            ) matches Some(Leaf::File(_))
        },
        _ => crate::snapshot_laws::unused(disk, Area::Staging) && made_top(disk, Area::Staging),
    }
}

/// The file system can do what a snapshot needs that has not begun to copy the directory.
proof fn lemma_ready_goes_on(job: SnapshotView, world: World)
    requires
        crate::snapshot_laws::preparing(job),
        ready(job, world.disk),
    ensures
        crate::world::can_go_on(job, world),
{
    let request = job.request()->0;
    let top = crate::snapshot::area_spot(Area::Staging);
    let database = crate::snapshot::database_spot(Area::Staging);
    assert(database != top) by {
        assert(database.1.len() != top.1.len());
    }
    match job {
        SnapshotView::Creating => {
            let after = World { disk: crate::tree::with_dirs(world.disk, top), ..world };
            assert forall|s: Spot|
                crate::tree::within(s, top) && #[trigger] world.disk.dom().contains(
                    s,
                ) implies world.disk[s] == Leaf::Dir by {
                assert(s.1 =~= top.1);
            }
            assert(crate::world::serves(world, request, ReplyView::Done, after));
        },
        SnapshotView::InspectingDatabase => {
            let kind = crate::world::kind(crate::tree::found(world.disk, database));
            assert(crate::world::serves(world, request, ReplyView::Kind(kind), world));
        },
        SnapshotView::InspectingCollab { .. } => {
            let kind = crate::world::kind(
                crate::tree::found(world.disk, crate::snapshot::collab_spot(Area::Staging)),
            );
            assert(crate::world::serves(world, request, ReplyView::Kind(kind), world));
        },
        SnapshotView::Vacuuming { .. } => {
            let after = World {
                disk: world.disk.insert(database, Leaf::File(Seq::empty())),
                ..world
            };
            assert(!world.disk.dom().contains(database));
            assert(crate::world::serves(world, request, ReplyView::Done, after));
        },
        _ => {
            let bytes = world.disk[database]->File_0;
            assert(crate::world::serves(world, request, ReplyView::Data(bytes), world));
        },
    }
}

proof fn lemma_snapshot_goes_on_from(
    job: SnapshotView,
    entries: Map<Seq<u8>, Node>,
    replies: Seq<ReplyView>,
    worlds: Seq<World>,
)
    requires
        crate::snapshot_laws::preparing(job),
        crate::tree::plain_tree(Node::Dir(entries)),
        crate::world::served(job, replies, worlds),
        crate::tree::holds(
            worlds[0].disk,
            crate::snapshot::collab_spot(Area::User),
            Node::Dir(entries),
        ),
        ready(job, worlds[0].disk),
        crate::world::run(job, replies).request() is Some,
    ensures
        crate::world::can_go_on(crate::world::run(job, replies), worlds.last()),
    decreases replies.len(),
{
    if replies.len() == 0 {
        lemma_ready_goes_on(job, worlds[0]);
    } else {
        let next = job.step(replies[0]);
        let replies1 = replies.skip(1);
        let worlds1 = worlds.skip(1);
        assert(crate::world::run(job, replies) == crate::world::run(next, replies1));
        assert(worlds1.last() == worlds.last());
        let top = crate::snapshot::area_spot(Area::Staging);
        let database = crate::snapshot::database_spot(Area::Staging);
        assert(database != top) by {
            assert(database.1.len() != top.1.len());
        }
        match job {
            SnapshotView::Creating => {
                crate::snapshot_laws::lemma_staging_created(worlds[0], worlds[1], entries);
                assert(crate::tree::within(top, top));
                lemma_snapshot_goes_on_from(next, entries, replies1, worlds1);
            },
            SnapshotView::Vacuuming { fresh } => {
                crate::snapshot_laws::lemma_vacuumed(fresh, worlds[0], worlds[1], entries);
                assert(!crate::world::belongs_to(
                    crate::snapshot::database_spot(Area::User),
                    top,
                ));
                assert(crate::tree::found(worlds[1].disk, top) == crate::tree::found(
                    worlds[0].disk,
                    top,
                ));
                lemma_snapshot_goes_on_from(next, entries, replies1, worlds1);
            },
            SnapshotView::Reading { fresh } => {
                let bytes = replies[0]->Data_0;
                lemma_copying_goes_on(fresh, bytes, entries, replies1, worlds1);
            },
            _ => {
                lemma_snapshot_goes_on_from(next, entries, replies1, worlds1);
            },
        }
    }
}

/// On a faultless file system a snapshot of files and directories into an unused staging area never
/// comes to a halt before its end: the file system can do whatever it needs next, at every point of
/// every run.
pub proof fn law_snapshot_goes_on(
    entries: Map<Seq<u8>, Node>,
    replies: Seq<ReplyView>,
    worlds: Seq<World>,
)
    requires
        crate::tree::plain_tree(Node::Dir(entries)),
        crate::world::served(SnapshotView::Creating, replies, worlds),
        crate::tree::holds(
            worlds[0].disk,
            crate::snapshot::collab_spot(Area::User),
            Node::Dir(entries),
        ),
        crate::snapshot_laws::unused(worlds[0].disk, Area::Staging),
        open_top(worlds[0].disk, Area::Staging),
        crate::world::run(SnapshotView::Creating, replies).request() is Some,
    ensures
        crate::world::can_go_on(
            crate::world::run(SnapshotView::Creating, replies),
            worlds.last(),
        ),
{
    lemma_snapshot_goes_on_from(SnapshotView::Creating, entries, replies, worlds);
}

/// Every user's data whose collab database directory is made of files and directories can be
/// snapshot into an unused staging area: there is a run on a faultless file system in which the
/// snapshot succeeds. The manifest then names the two outputs and nothing else, and gives the
/// checksum of each as it stands in the staging area.
pub proof fn law_snapshot_can_succeed(
    entries: Map<Seq<u8>, Node>,
    world: World,
) -> (done: (Seq<ReplyView>, Seq<World>))
    requires
        crate::tree::plain_tree(Node::Dir(entries)),
        crate::tree::holds(
            world.disk,
            crate::snapshot::collab_spot(Area::User),
            Node::Dir(entries),
        ),
        crate::snapshot_laws::unused(world.disk, Area::Staging),
        open_top(world.disk, Area::Staging),
    ensures
        crate::world::served(SnapshotView::Creating, done.0, done.1),
        done.1[0] == world,
        crate::world::run(SnapshotView::Creating, done.0) matches SnapshotView::Finished(
            Ok(manifest),
        ) && manifest.dom() == set!["flowy-database.db"@, "collab_db"@]
            && manifest["flowy-database.db"@] == crate::digest::checksum(
            crate::snapshot_laws::database_bytes(done.1.last().disk, Area::Staging),
        ) && manifest["collab_db"@] == crate::checksum::dir_checksum(entries),
        crate::snapshot_laws::holds_data(
            done.1.last().disk,
            Area::Staging,
            crate::snapshot_laws::database_bytes(done.1.last().disk, Area::Staging),
            entries,
        ),
{
    let start = SnapshotView::Creating;
    let cost = crate::snapshot_laws::snapshot_cost(entries);
    crate::snapshot_laws::lemma_plain_is_finite(Node::Dir(entries));
    assert(crate::world::served(start, Seq::empty(), seq![world]));
    assert forall|r: Seq<ReplyView>, w: Seq<World>| #[trigger]
        crate::world::served(start, r, w) && w[0] == world implies r.len() <= cost && (
    crate::world::run(start, r).request() is Some ==> crate::world::can_go_on(
        crate::world::run(start, r),
        w.last(),
    )) by {
        crate::snapshot_laws::law_snapshot(entries, r, w);
        if crate::world::run(start, r).request() is Some {
            law_snapshot_goes_on(entries, r, w);
        }
    }
    let done = crate::world::lemma_run_to_the_end(start, Seq::empty(), seq![world], cost);
    crate::snapshot_laws::law_snapshot(entries, done.0, done.1);
    law_manifest_names_the_outputs(
        crate::digest::checksum(
            crate::snapshot_laws::database_bytes(done.1.last().disk, Area::Staging),
        ),
        crate::checksum::dir_checksum(entries),
    );
    done
}

/// A manifest names the two outputs and nothing else, and gives each its own checksum.
pub proof fn law_manifest_names_the_outputs(database: Seq<char>, collab: Seq<char>)
    ensures
        crate::snapshot::manifest_of(database, collab).dom() == set![
            "flowy-database.db"@,
            "collab_db"@,
        ],
        crate::snapshot::manifest_of(database, collab)["flowy-database.db"@] == database,
        crate::snapshot::manifest_of(database, collab)["collab_db"@] == collab,
{
    crate::snapshot::lemma_names_differ();
    assert(crate::snapshot::manifest_of(database, collab).dom() =~= set![
        "flowy-database.db"@,
        "collab_db"@,
    ]);
}

/// Whatever state a snapshot is in, the only database it has copied is that of the user, and the
/// only place it has it copied to is that of the database in the staging area.
pub proof fn law_only_the_users_database_is_copied(job: SnapshotView)
    ensures
        job.request() matches Some(RequestView::VacuumInto { from, to }) ==> {
            &&& from == (Area::User, seq![vstd::utf8::encode_utf8("flowy-database.db"@)])
            &&& to == (Area::Staging, seq![vstd::utf8::encode_utf8("flowy-database.db"@)])
        },
{
}

/// A snapshot that succeeds on a faultless file system has had the user's database copied, once: as
/// the fourth thing it asked for.
pub proof fn law_snapshot_copies_the_database(replies: Seq<ReplyView>, worlds: Seq<World>)
    requires
        crate::world::served(SnapshotView::Creating, replies, worlds),
        crate::world::run(SnapshotView::Creating, replies).request() is None,
    ensures
        replies.len() > 3,
        crate::world::run(SnapshotView::Creating, replies.take(3)).request() == Some(
            RequestView::VacuumInto {
                from: (Area::User, seq![vstd::utf8::encode_utf8("flowy-database.db"@)]),
                to: (Area::Staging, seq![vstd::utf8::encode_utf8("flowy-database.db"@)]),
            },
        ),
        replies[3] is Done,
{
    let replies1 = replies.skip(1);
    let worlds1 = worlds.skip(1);
    let replies2 = replies1.skip(1);
    let worlds2 = worlds1.skip(1);
    let replies3 = replies2.skip(1);
    let worlds3 = worlds2.skip(1);
    let first = SnapshotView::Creating;
    assert(replies.len() > 0);
    let second = first.step(replies[0]);
    assert(second == SnapshotView::InspectingDatabase);
    assert(crate::world::served(second, replies1, worlds1));
    assert(crate::world::run(first, replies) == crate::world::run(second, replies1));
    assert(replies1.len() > 0);
    let third = second.step(replies1[0]);
    assert(third is InspectingCollab);
    assert(crate::world::served(third, replies2, worlds2));
    assert(crate::world::run(second, replies1) == crate::world::run(third, replies2));
    assert(replies2.len() > 0);
    let fourth = third.step(replies2[0]);
    assert(fourth is Vacuuming);
    assert(crate::world::served(fourth, replies3, worlds3));
    assert(crate::world::run(third, replies2) == crate::world::run(fourth, replies3));
    assert(replies3.len() > 0);
    assert(replies3[0] == replies[3]);
    let part = replies.take(3);
    assert(part.skip(1) =~= seq![replies1[0], replies2[0]]);
    assert(part.skip(1).skip(1) =~= seq![replies2[0]]);
    assert(part.skip(1).skip(1).skip(1) =~= Seq::empty());
    assert(crate::world::run(fourth, part.skip(1).skip(1).skip(1)) == fourth);
    assert(crate::world::run(third, part.skip(1).skip(1)) == fourth);
    assert(crate::world::run(second, part.skip(1)) == fourth);
    assert(crate::world::run(first, part) == fourth);
}

/// A restoration that is to check what has arrived can go on.
proof fn lemma_checking_goes_on(
    manifest: Map<Seq<char>, Seq<char>>,
    database: Seq<u8>,
    entries: Map<Seq<u8>, Node>,
    replies: Seq<ReplyView>,
    worlds: Seq<World>,
)
    requires
        crate::tree::finite_tree(Node::Dir(entries)),
        crate::world::served(
            RestoreView::Active { manifest, phase: RestorePhaseView::Reading },
            replies,
            worlds,
        ),
        crate::snapshot_laws::holds_data(worlds[0].disk, Area::Target, database, entries),
        crate::world::run(
            RestoreView::Active { manifest, phase: RestorePhaseView::Reading },
            replies,
        ).request() is Some,
    ensures
        crate::world::can_go_on(
            crate::world::run(
                RestoreView::Active { manifest, phase: RestorePhaseView::Reading },
                replies,
            ),
            worlds.last(),
        ),
{
    let start = RestoreView::Active { manifest, phase: RestorePhaseView::Reading };
    let last = crate::world::run(start, replies);
    let target = crate::snapshot::collab_spot(Area::Target);
    let hashing = crate::snapshot_laws::whole_hash_cost(entries) as int;
    let outer = |hash: HashView| crate::restore::while_hashing(manifest, hash);
    if replies.len() == 0 {
        assert(crate::world::serves(
            worlds.last(),
            last.request()->0,
            ReplyView::Data(database),
            worlds.last(),
        ));
    } else {
        let next = start.step(replies[0]);
        let replies1 = replies.skip(1);
        let worlds1 = worlds.skip(1);
        assert(last == crate::world::run(next, replies1));
        assert(crate::world::served(next, replies1, worlds1));
        assert(worlds1.last() == worlds.last());
        if next is Finished {
            assert(replies1.len() == 0);
            assert(last == next);
        } else {
            assert(next == outer(crate::checksum::hash_start(target)));
            lemma_hash_inside_goes_on(outer, target, entries, replies1, worlds1);
            if replies1.len() >= hashing {
                crate::snapshot_laws::lemma_hash_inside(outer, target, entries, replies1, worlds1);
                let end = outer(
                    HashView::Finished(Ok(crate::checksum::dir_checksum(entries))),
                );
                crate::world::lemma_reaches_end(next, replies1, worlds1, hashing, end);
            }
        }
    }
}

/// On a faultless file system a restoration of files and directories into an unused target area
/// never comes to a halt before its end: the file system can do whatever it needs next, at every
/// point of every run.
pub proof fn law_restore_goes_on(
    manifest: Map<Seq<char>, Seq<char>>,
    database: Seq<u8>,
    entries: Map<Seq<u8>, Node>,
    replies: Seq<ReplyView>,
    worlds: Seq<World>,
)
    requires
        crate::tree::plain_tree(Node::Dir(entries)),
        crate::world::served(crate::restore::restore_start(manifest), replies, worlds),
        crate::snapshot_laws::holds_data(worlds[0].disk, Area::Staging, database, entries),
        crate::snapshot_laws::unused(worlds[0].disk, Area::Target),
        open_top(worlds[0].disk, Area::Target),
        crate::world::run(crate::restore::restore_start(manifest), replies).request() is Some,
    ensures
        crate::world::can_go_on(
            crate::world::run(crate::restore::restore_start(manifest), replies),
            worlds.last(),
        ),
{
    let start = crate::restore::restore_start(manifest);
    let second = RestoreView::Active { manifest, phase: RestorePhaseView::CopyingDatabase };
    let last = crate::world::run(start, replies);
    let top = crate::snapshot::area_spot(Area::Target);
    let from = crate::snapshot::database_spot(Area::Staging);
    let to = crate::snapshot::database_spot(Area::Target);
    let world = worlds[0];
    assert(to != top) by {
        assert(to.1.len() != top.1.len());
    }
    if replies.len() == 0 {
        let after = World { disk: crate::tree::with_dirs(world.disk, top), ..world };
        assert forall|s: Spot|
            crate::tree::within(s, top) && #[trigger] world.disk.dom().contains(
                s,
            ) implies world.disk[s] == Leaf::Dir by {
            assert(s.1 =~= top.1);
        }
        assert(crate::world::serves(worlds.last(), last.request()->0, ReplyView::Done, after));
    } else {
        let replies1 = replies.skip(1);
        let worlds1 = worlds.skip(1);
        assert(start.step(replies[0]) == second);
        assert(last == crate::world::run(second, replies1));
        assert(crate::world::served(second, replies1, worlds1));
        assert(worlds1.last() == worlds.last());
        crate::restore_laws::lemma_target_created(
            worlds[0].disk,
            worlds[1].disk,
            database,
            entries,
        );
        assert(crate::tree::within(top, top));
        assert(made_top(worlds1[0].disk, Area::Target));
        if replies1.len() == 0 {
            let before = worlds1[0];
            let after = World { disk: before.disk.insert(to, before.disk[from]), ..before };
            assert(!before.disk.dom().contains(to));
            assert(crate::tree::found(before.disk, from) == Some(Leaf::File(database)));
            assert(crate::world::serves(
                worlds.last(),
                last.request()->0,
                ReplyView::Done,
                after,
            ));
        } else {
            let third = second.step(replies1[0]);
            let replies2 = replies1.skip(1);
            let worlds2 = worlds1.skip(1);
            assert(last == crate::world::run(third, replies2));
            assert(crate::world::served(third, replies2, worlds2));
            assert(worlds2.last() == worlds.last());
            crate::restore_laws::lemma_database_added(
                worlds1[0].disk,
                worlds2[0].disk,
                database,
                entries,
            );
            assert(made_top(worlds2[0].disk, Area::Target));
            lemma_restoring_goes_on(manifest, database, entries, replies2, worlds2);
        }
    }
}

/// A restoration that is to copy the directory can go on.
proof fn lemma_restoring_goes_on(
    manifest: Map<Seq<char>, Seq<char>>,
    database: Seq<u8>,
    entries: Map<Seq<u8>, Node>,
    replies: Seq<ReplyView>,
    worlds: Seq<World>,
)
    requires
        crate::tree::plain_tree(Node::Dir(entries)),
        crate::world::served(
            (RestoreView::Active {
                manifest,
                phase: RestorePhaseView::CopyingDatabase,
            }).step(ReplyView::Done),
            replies,
            worlds,
        ),
        crate::snapshot_laws::holds_data(worlds[0].disk, Area::Staging, database, entries),
        crate::snapshot_laws::database_only(worlds[0].disk, Area::Target),
        crate::tree::found(worlds[0].disk, crate::snapshot::database_spot(Area::Target)) == Some(
            Leaf::File(database),
        ),
        made_top(worlds[0].disk, Area::Target),
        crate::world::run(
            (RestoreView::Active {
                manifest,
                phase: RestorePhaseView::CopyingDatabase,
            }).step(ReplyView::Done),
            replies,
        ).request() is Some,
    ensures
        crate::world::can_go_on(
            crate::world::run(
                (RestoreView::Active {
                    manifest,
                    phase: RestorePhaseView::CopyingDatabase,
                }).step(ReplyView::Done),
                replies,
            ),
            worlds.last(),
        ),
{
    let from = crate::snapshot::collab_spot(Area::Staging);
    let to = crate::snapshot::collab_spot(Area::Target);
    let outer = |copy: CopyView| crate::restore::while_copying(manifest, copy);
    let start = (RestoreView::Active {
        manifest,
        phase: RestorePhaseView::CopyingDatabase,
    }).step(ReplyView::Done);
    let middle = RestoreView::Active { manifest, phase: RestorePhaseView::Reading };
    let copying = crate::snapshot_laws::whole_copy_cost(entries) as int;
    assert(outer(crate::copy::copy_start(from, to)) == start);
    assert(outer(CopyView::Finished(Ok(()))) == middle);
    crate::snapshot_laws::lemma_plain_is_finite(Node::Dir(entries));
    lemma_room_for_directory(worlds[0].disk, Area::Target, Node::Dir(entries));
    lemma_copy_inside_goes_on(outer, from, to, entries, replies, worlds);
    if replies.len() >= copying {
        let replies1 = replies.skip(copying);
        let worlds1 = worlds.skip(copying);
        crate::snapshot_laws::lemma_directory_free(worlds[0].disk, Area::Target);
        crate::snapshot_laws::lemma_copy_inside(outer, from, to, entries, replies, worlds);
        crate::world::lemma_reaches_rest(start, replies, worlds, copying, middle);
        crate::snapshot_laws::lemma_directory_added(
            worlds[0].disk,
            worlds1[0].disk,
            Area::Target,
            database,
            entries,
        );
        lemma_checking_goes_on(manifest, database, entries, replies1, worlds1);
        assert(worlds1.last() == worlds.last());
    }
}

/// Every snapshot of files and directories can be put back into an unused target area: there is a
/// run on a faultless file system in which the restoration comes to its end with the snapshot in
/// the target area. It succeeds where the manifest gives the database and the directory the
/// checksums that they have.
pub proof fn law_restore_can_succeed(
    manifest: Map<Seq<char>, Seq<char>>,
    database: Seq<u8>,
    entries: Map<Seq<u8>, Node>,
    world: World,
) -> (done: (Seq<ReplyView>, Seq<World>))
    requires
        crate::tree::plain_tree(Node::Dir(entries)),
        crate::snapshot_laws::holds_data(world.disk, Area::Staging, database, entries),
        crate::snapshot_laws::unused(world.disk, Area::Target),
        open_top(world.disk, Area::Target),
    ensures
        crate::world::served(crate::restore::restore_start(manifest), done.0, done.1),
        done.1[0] == world,
        crate::world::run(crate::restore::restore_start(manifest), done.0) is Finished,
        crate::world::run(crate::restore::restore_start(manifest), done.0)
            == RestoreView::Finished(Ok(())) <==> manifest.contains_pair(
            "flowy-database.db"@,
            crate::digest::checksum(database),
        ) && manifest.contains_pair("collab_db"@, crate::checksum::dir_checksum(entries)),
        crate::snapshot_laws::holds_data(done.1.last().disk, Area::Target, database, entries),
{
    let start = crate::restore::restore_start(manifest);
    let cost = crate::restore_laws::restore_cost(manifest, database, entries);
    crate::snapshot_laws::lemma_plain_is_finite(Node::Dir(entries));
    assert(crate::world::served(start, Seq::empty(), seq![world]));
    assert forall|r: Seq<ReplyView>, w: Seq<World>| #[trigger]
        crate::world::served(start, r, w) && w[0] == world implies r.len() <= cost && (
    crate::world::run(start, r).request() is Some ==> crate::world::can_go_on(
        crate::world::run(start, r),
        w.last(),
    )) by {
        crate::restore_laws::law_restore(manifest, database, entries, r, w);
        if crate::world::run(start, r).request() is Some {
            law_restore_goes_on(manifest, database, entries, r, w);
        }
    }
    let done = crate::world::lemma_run_to_the_end(start, Seq::empty(), seq![world], cost);
    crate::restore_laws::law_restore(manifest, database, entries, done.0, done.1);
    crate::restore::law_rejection(
        manifest,
        "flowy-database.db"@,
        crate::digest::checksum(database),
    );
    crate::restore::law_rejection(
        manifest,
        "collab_db"@,
        crate::checksum::dir_checksum(entries),
    );
    done
}

/// In every area the database and the collab database directory stand directly below the top, under
/// the names that the manifest has for them.
pub proof fn law_outputs_have_the_same_names_everywhere(area: Area)
    ensures
        crate::snapshot::area_spot(area) == (area, Seq::<Seq<u8>>::empty()),
        crate::snapshot::database_spot(area) == (
            area,
            seq![vstd::utf8::encode_utf8("flowy-database.db"@)],
        ),
        crate::snapshot::collab_spot(area) == (area, seq![vstd::utf8::encode_utf8("collab_db"@)]),
{
}

} // verus!
