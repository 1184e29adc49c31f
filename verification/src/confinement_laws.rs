//! What the jobs leave alone, whatever comes of their requests.
use vstd::prelude::*;

use crate::checksum::HashView;
use crate::io::{Area, ReplyView, Spot};
use crate::restore::{RestorePhaseView, RestoreView};
use crate::snapshot::SnapshotView;
use crate::world::{Machine, World};

verus! {

/// A copy changes nothing but what is at the destination, below it or on the way to it, whatever
/// comes of it.
pub proof fn law_copy_changes_only_the_destination(
    from: Spot,
    to: Spot,
    replies: Seq<ReplyView>,
    worlds: Seq<World>,
)
    requires
        crate::world::attempted(crate::copy::copy_start(from, to), replies, worlds),
    ensures
        forall|s: Spot|
            !crate::tree::within(to, s) && !crate::tree::within(s, to)
                ==> #[trigger] crate::tree::found(worlds.last().disk, s) == crate::tree::found(
                worlds[0].disk,
                s,
            ),
{
    assert(to.1.take(to.1.len() as int) =~= to.1);
    crate::snapshot_laws::lemma_copy_attempted(
        crate::copy::copy_start(from, to),
        to,
        replies,
        worlds,
    );
}

/// A checksum changes nothing, whatever comes of it.
pub proof fn law_checksum_changes_nothing(
    job: HashView,
    replies: Seq<ReplyView>,
    worlds: Seq<World>,
)
    requires
        crate::world::attempted(job, replies, worlds),
    ensures
        forall|s: Spot| #[trigger]
            crate::tree::found(worlds.last().disk, s) == crate::tree::found(worlds[0].disk, s),
    decreases replies.len(),
{
    if replies.len() > 0 {
        law_checksum_changes_nothing(job.step(replies[0]), replies.skip(1), worlds.skip(1));
        assert(worlds.skip(1).last() == worlds.last());
        assert forall|s: Spot| #[trigger]
            crate::tree::found(worlds.last().disk, s) == crate::tree::found(
                worlds[0].disk,
                s,
            ) by {
            assert(crate::tree::found(worlds[1].disk, s) == crate::tree::found(
                worlds[0].disk,
                s,
            ));
        }
    }
}

proof fn lemma_snapshot_leaves_alone(
    job: SnapshotView,
    replies: Seq<ReplyView>,
    worlds: Seq<World>,
    s: Spot,
)
    requires
        crate::snapshot_laws::sound(job),
        crate::world::attempted(job, replies, worlds),
        s.0 != Area::Staging,
        !crate::world::belongs_to(crate::snapshot::database_spot(Area::User), s),
    ensures
        crate::tree::found(worlds.last().disk, s) == crate::tree::found(worlds[0].disk, s),
    decreases replies.len(),
{
    if replies.len() > 0 {
        crate::snapshot_laws::lemma_sound_step(job, replies[0]);
        lemma_snapshot_leaves_alone(job.step(replies[0]), replies.skip(1), worlds.skip(1), s);
        assert(worlds.skip(1).last() == worlds.last());
        if crate::world::writes(job.request()->0, s) {
            crate::snapshot_laws::lemma_snapshot_writes(job, s);
        }
        assert(crate::tree::found(worlds[1].disk, s) == crate::tree::found(worlds[0].disk, s));
    }
}

/// A snapshot changes nothing outside the staging area but what the database engine keeps of the
/// user's database, whatever comes of it.
pub proof fn law_snapshot_changes_only_the_staging_area(
    replies: Seq<ReplyView>,
    worlds: Seq<World>,
)
    requires
        crate::world::attempted(SnapshotView::Creating, replies, worlds),
    ensures
        forall|s: Spot|
            s.0 != Area::Staging && !crate::world::belongs_to(
                (Area::User, seq![vstd::utf8::encode_utf8("flowy-database.db"@)]),
                s,
            ) ==> #[trigger] crate::tree::found(worlds.last().disk, s) == crate::tree::found(
                worlds[0].disk,
                s,
            ),
{
    assert forall|s: Spot|
        s.0 != Area::Staging && !crate::world::belongs_to(
            (Area::User, seq![vstd::utf8::encode_utf8("flowy-database.db"@)]),
            s,
        ) implies #[trigger] crate::tree::found(worlds.last().disk, s) == crate::tree::found(
        worlds[0].disk,
        s,
    ) by {
        lemma_snapshot_leaves_alone(SnapshotView::Creating, replies, worlds, s);
    }
}

/// A restoration copies the directory to its place in the target area.
spec fn restores_there(job: RestoreView) -> bool {
    job matches RestoreView::Active { manifest, phase: RestorePhaseView::Copying(copy) }
        ==> crate::snapshot_laws::copies_into(copy, crate::snapshot::collab_spot(Area::Target))
}

proof fn lemma_restoration_leaves_alone(
    job: RestoreView,
    replies: Seq<ReplyView>,
    worlds: Seq<World>,
    s: Spot,
)
    requires
        restores_there(job),
        crate::world::attempted(job, replies, worlds),
        s.0 != Area::Target,
    ensures
        crate::tree::found(worlds.last().disk, s) == crate::tree::found(worlds[0].disk, s),
    decreases replies.len(),
{
    if replies.len() > 0 {
        let target = crate::snapshot::collab_spot(Area::Target);
        let start = crate::copy::copy_start(crate::snapshot::collab_spot(Area::Staging), target);
        assert(crate::snapshot_laws::copies_into(start, target)) by {
            assert(target.1.take(target.1.len() as int) =~= target.1);
        }
        if let RestoreView::Active { manifest, phase: RestorePhaseView::Copying(copy) } = job {
            crate::snapshot_laws::lemma_copies_into_step(copy, target, replies[0]);
            if crate::world::writes(copy.request()->0, s) {
                crate::snapshot_laws::lemma_copies_into_writes(copy, target, s);
            }
        }
        lemma_restoration_leaves_alone(job.step(replies[0]), replies.skip(1), worlds.skip(1), s);
        assert(worlds.skip(1).last() == worlds.last());
        assert(!crate::world::writes(job.request()->0, s));
        assert(crate::tree::found(worlds[1].disk, s) == crate::tree::found(worlds[0].disk, s));
    }
}

/// A restoration changes nothing outside the target area, whatever comes of it: neither the
/// snapshot nor the user's data.
pub proof fn law_restoration_changes_only_the_target_area(
    manifest: Map<Seq<char>, Seq<char>>,
    replies: Seq<ReplyView>,
    worlds: Seq<World>,
)
    requires
        crate::world::attempted(crate::restore::restore_start(manifest), replies, worlds),
    ensures
        forall|s: Spot|
            s.0 != Area::Target ==> #[trigger] crate::tree::found(worlds.last().disk, s)
                == crate::tree::found(worlds[0].disk, s),
{
    assert forall|s: Spot|
        s.0 != Area::Target implies #[trigger] crate::tree::found(worlds.last().disk, s)
        == crate::tree::found(worlds[0].disk, s) by {
        lemma_restoration_leaves_alone(
            crate::restore::restore_start(manifest),
            replies,
            worlds,
            s,
        );
    }
}

} // verus!
