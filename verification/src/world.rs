//! A file system that answers requests without a fault, and what a job comes to when it is
//! answered by one.
use vstd::prelude::*;

use crate::io::{NodeKind, ReplyView, RequestView, Spot};
use crate::tree::{Disk, Leaf};

verus! {

/// The state of a file system: what is on the disk, and for each directory that is being walked,
/// the outermost first, the names that the walk has not come to yet.
pub struct World {
    pub disk: Disk,
    pub walks: Seq<Set<Seq<u8>>>,
}

/// What kind of thing is found at a path.
pub open spec fn kind(leaf: Option<Leaf>) -> NodeKind {
    match leaf {
        Some(Leaf::File(_)) => NodeKind::File,
        Some(Leaf::Dir) => NodeKind::Dir,
        Some(Leaf::Other) => NodeKind::Other,
        None => NodeKind::Missing,
    }
}

/// `spot` is the database file `database`, or a file that a database engine keeps next to it
/// under a longer name.
pub open spec fn belongs_to(database: Spot, spot: Spot) -> bool {
    &&& database.0 == spot.0
    &&& database.1.len() == spot.1.len()
    &&& database.1.len() > 0
    &&& database.1.drop_last() == spot.1.drop_last()
    &&& database.1.last().is_prefix_of(spot.1.last())
}

/// There is something at `spot` that a database engine does not write a copy over: anything but an
/// empty file.
pub open spec fn taken(world: World, spot: Spot) -> bool {
    match crate::tree::found(world.disk, spot) {
        Some(Leaf::File(bytes)) => bytes.len() > 0,
        Some(_) => true,
        None => false,
    }
}

/// The database engine, in the state `before`, refuses to write a copy over what is there already,
/// and the file system is then in the state `after`: nothing but what belongs to the database that
/// was to be copied may have changed.
pub open spec fn refuses(
    before: World,
    request: RequestView,
    reply: ReplyView,
    after: World,
) -> bool {
    &&& request matches RequestView::VacuumInto { from, to }
    &&& taken(before, to)
    &&& reply is Failed
    &&& forall|s: Spot|
        !belongs_to(from, s) ==> #[trigger] crate::tree::found(after.disk, s)
            == crate::tree::found(before.disk, s)
    &&& after.walks == before.walks
}

/// The file system, in the state `before`, can do what is requested, answers with `reply`, and is
/// then in the state `after`.
pub open spec fn serves(
    before: World,
    request: RequestView,
    reply: ReplyView,
    after: World,
) -> bool {
    match request {
        RequestView::CreateDirAll(spot) => {
            &&& reply == ReplyView::Done
            &&& forall|s: Spot|
                crate::tree::within(s, spot) && #[trigger] before.disk.dom().contains(s)
                    ==> before.disk[s] == Leaf::Dir
            &&& after.disk == crate::tree::with_dirs(before.disk, spot)
            &&& after.walks == before.walks
        },
        RequestView::VacuumInto { from, to } => {
            &&& reply == ReplyView::Done
            &&& !taken(before, to)
            &&& after.disk.dom().contains(to)
            &&& after.disk[to] is File
            &&& forall|s: Spot|
                s != to && !belongs_to(from, s) ==> #[trigger] crate::tree::found(after.disk, s)
                    == crate::tree::found(before.disk, s)
            &&& after.walks == before.walks
        },
        RequestView::ReadFile(spot) => {
            &&& before.disk.dom().contains(spot)
            &&& before.disk[spot] is File
            &&& reply == ReplyView::Data(before.disk[spot]->File_0)
            &&& after == before
        },
        RequestView::OpenDir(spot) => {
            &&& reply == ReplyView::Done
            &&& crate::tree::found(before.disk, spot) == Some(Leaf::Dir)
            &&& after.disk == before.disk
            &&& after.walks == before.walks.push(crate::tree::children(before.disk, spot))
        },
        RequestView::NextEntry(spot) => {
            &&& before.walks.len() > 0
            &&& after.disk == before.disk
            &&& match reply {
                ReplyView::Entry { name, is_dir } => {
                    &&& before.walks.last().contains(name)
                    &&& is_dir == (kind(
                        crate::tree::found(before.disk, crate::tree::child(spot, name)),
                    ) == NodeKind::Dir)
                    &&& after.walks == before.walks.drop_last().push(
                        before.walks.last().remove(name),
                    )
                },
                ReplyView::EndOfDir => {
                    &&& before.walks.last() == Set::<Seq<u8>>::empty()
                    &&& after.walks == before.walks.drop_last()
                },
                _ => false,
            }
        },
        RequestView::CopyFile { from, to } => {
            &&& reply == ReplyView::Done
            &&& before.disk.dom().contains(from)
            &&& before.disk[from] is File
            &&& crate::tree::found(before.disk, to) != Some(Leaf::Dir)
            &&& after.disk == before.disk.insert(to, before.disk[from])
            &&& after.walks == before.walks
        },
        RequestView::ListDir(spot) => {
            &&& crate::tree::found(before.disk, spot) == Some(Leaf::Dir)
            &&& reply matches ReplyView::Names(names)
            &&& names.no_duplicates()
            &&& names.to_set() == crate::tree::children(before.disk, spot)
            &&& after == before
        },
        RequestView::Inspect(spot) => {
            &&& reply == ReplyView::Kind(kind(crate::tree::found(before.disk, spot)))
            &&& after == before
        },
        RequestView::RemoveFile(spot) => {
            &&& reply == ReplyView::Done
            &&& crate::tree::found(before.disk, spot) != Some(Leaf::Dir)
            &&& after.disk == before.disk.remove(spot)
            &&& after.walks == before.walks
        },
        RequestView::RemoveDirAll(spot) => {
            &&& reply == ReplyView::Done
            &&& !(crate::tree::found(before.disk, spot) matches Some(Leaf::File(_)))
            &&& after.disk == crate::tree::without(before.disk, spot)
            &&& after.walks == before.walks
        },
    }
}

/// What is at `spot` may change while the request is carried out, or while that fails.
pub open spec fn writes(request: RequestView, spot: Spot) -> bool {
    match request {
        RequestView::CreateDirAll(dir) => crate::tree::within(spot, dir),
        RequestView::VacuumInto { from, to } => spot == to || belongs_to(from, spot),
        RequestView::CopyFile { from, to } => spot == to,
        RequestView::RemoveFile(file) => spot == file,
        RequestView::RemoveDirAll(dir) => crate::tree::within(dir, spot),
        _ => false,
    }
}

/// Between two states of a file system nothing has changed but what the request may change.
pub open spec fn confined(before: World, request: RequestView, after: World) -> bool {
    forall|s: Spot|
        !writes(request, s) ==> #[trigger] crate::tree::found(after.disk, s)
            == crate::tree::found(before.disk, s)
}

/// A request that is served changes nothing but what it may change.
pub proof fn lemma_served_is_confined(
    before: World,
    request: RequestView,
    reply: ReplyView,
    after: World,
)
    requires
        serves(before, request, reply, after),
    ensures
        confined(before, request, after),
{
}

/// A job as it is driven: it asks for one thing at a time, and goes on with the reply.
pub trait Machine: Sized {
    /// What the job needs next; nothing once it is over.
    spec fn request(self) -> Option<RequestView>;

    /// The job after a reply.
    spec fn step(self, reply: ReplyView) -> Self;
}

/// The job after all of `replies`.
pub open spec fn run<M: Machine>(job: M, replies: Seq<ReplyView>) -> M
    decreases replies.len(),
{
    if replies.len() == 0 {
        job
    } else {
        run(job.step(replies[0]), replies.skip(1))
    }
}

/// Each of `replies` is what a faultless file system answers the job at that point; `worlds` are
/// the states it passes through, the first and the last included.
pub open spec fn served<M: Machine>(
    job: M,
    replies: Seq<ReplyView>,
    worlds: Seq<World>,
) -> bool
    decreases replies.len(),
{
    &&& worlds.len() == replies.len() + 1
    &&& replies.len() > 0 ==> {
        &&& job.request() matches Some(request)
        &&& serves(worlds[0], request, replies[0], worlds[1])
        &&& served(job.step(replies[0]), replies.skip(1), worlds.skip(1))
    }
}

/// Each of `replies` is an answer to the job at that point, of whatever kind, failures among them;
/// `worlds` are the states that the file system passes through, in which nothing changes but what
/// the requests may change.
pub open spec fn attempted<M: Machine>(
    job: M,
    replies: Seq<ReplyView>,
    worlds: Seq<World>,
) -> bool
    decreases replies.len(),
{
    &&& worlds.len() == replies.len() + 1
    &&& replies.len() > 0 ==> {
        &&& job.request() matches Some(request)
        &&& confined(worlds[0], request, worlds[1])
        &&& attempted(job.step(replies[0]), replies.skip(1), worlds.skip(1))
    }
}

/// Each of `replies` is what a faultless file system answers the job at that point, or a refusal of
/// the database engine to write over what is there; `worlds` are the states it passes through.
pub open spec fn served_or_refused<M: Machine>(
    job: M,
    replies: Seq<ReplyView>,
    worlds: Seq<World>,
) -> bool
    decreases replies.len(),
{
    &&& worlds.len() == replies.len() + 1
    &&& replies.len() > 0 ==> {
        &&& job.request() matches Some(request)
        &&& serves(worlds[0], request, replies[0], worlds[1]) || refuses(
            worlds[0],
            request,
            replies[0],
            worlds[1],
        )
        &&& served_or_refused(job.step(replies[0]), replies.skip(1), worlds.skip(1))
    }
}

/// A faultless run is a run.
pub proof fn lemma_served_is_attempted<M: Machine>(
    job: M,
    replies: Seq<ReplyView>,
    worlds: Seq<World>,
)
    requires
        served(job, replies, worlds),
    ensures
        attempted(job, replies, worlds),
    decreases replies.len(),
{
    if replies.len() > 0 {
        lemma_served_is_confined(worlds[0], job.request()->0, replies[0], worlds[1]);
        lemma_served_is_attempted(job.step(replies[0]), replies.skip(1), worlds.skip(1));
    }
}

/// After `cost` replies the job is in the state `end`. With fewer it is not over; with more, the
/// rest of the run starts from there.
#[verifier::opaque]
pub open spec fn reaches<M: Machine>(
    job: M,
    replies: Seq<ReplyView>,
    worlds: Seq<World>,
    cost: int,
    end: M,
) -> bool {
    &&& 0 <= cost
    &&& replies.len() < cost ==> run(job, replies).request() is Some
    &&& replies.len() >= cost ==> {
        &&& run(job, replies) == run(end, replies.skip(cost))
        &&& served(end, replies.skip(cost), worlds.skip(cost))
    }
}

/// A job is where it is.
pub proof fn lemma_reaches_itself<M: Machine>(
    job: M,
    replies: Seq<ReplyView>,
    worlds: Seq<World>,
)
    requires
        served(job, replies, worlds),
    ensures
        reaches(job, replies, worlds, 0, job),
{
    reveal(reaches);
    assert(replies.skip(0) =~= replies);
    assert(worlds.skip(0) =~= worlds);
}

/// A job without a reply is not over; with one, it gets by it to its next state, and the file
/// system has served the request.
pub proof fn lemma_reaches_next<M: Machine>(
    job: M,
    replies: Seq<ReplyView>,
    worlds: Seq<World>,
)
    requires
        served(job, replies, worlds),
        job.request() is Some,
    ensures
        reaches(job, replies, worlds, 1, job.step(replies[0])),
        replies.len() > 0 ==> serves(worlds[0], job.request()->0, replies[0], worlds[1]),
        replies.len() > 0 ==> served(job.step(replies[0]), replies.skip(1), worlds.skip(1)),
{
    reveal(reaches);
}

/// What is reached from a state that is reached, is reached.
pub proof fn lemma_reaches_through<M: Machine>(
    job: M,
    replies: Seq<ReplyView>,
    worlds: Seq<World>,
    first: int,
    middle: M,
    second: int,
    end: M,
)
    requires
        served(job, replies, worlds),
        reaches(job, replies, worlds, first, middle),
        0 <= second,
        replies.len() >= first ==> reaches(
            middle,
            replies.skip(first),
            worlds.skip(first),
            second,
            end,
        ),
    ensures
        reaches(job, replies, worlds, first + second, end),
{
    reveal(reaches);
    if replies.len() >= first + second {
        assert(replies.skip(first).skip(second) =~= replies.skip(first + second));
        assert(worlds.skip(first).skip(second) =~= worlds.skip(first + second));
    }
}

/// Without a reply, a job that is not over has reached nothing yet.
pub proof fn lemma_reaches_later<M: Machine>(
    job: M,
    replies: Seq<ReplyView>,
    worlds: Seq<World>,
    cost: int,
    end: M,
)
    requires
        replies.len() == 0,
        job.request() is Some,
        0 < cost,
    ensures
        reaches(job, replies, worlds, cost, end),
{
    reveal(reaches);
}

/// The run goes on from a state that it reaches.
pub proof fn lemma_reaches_rest<M: Machine>(
    job: M,
    replies: Seq<ReplyView>,
    worlds: Seq<World>,
    cost: int,
    end: M,
)
    requires
        reaches(job, replies, worlds, cost, end),
    ensures
        0 <= cost,
        replies.len() < cost ==> run(job, replies).request() is Some,
        replies.len() >= cost ==> run(job, replies) == run(end, replies.skip(cost)),
        replies.len() >= cost ==> served(end, replies.skip(cost), worlds.skip(cost)),
{
    reveal(reaches);
}

/// A run that reaches a state in which the job is over, ends there.
pub proof fn lemma_reaches_end<M: Machine>(
    job: M,
    replies: Seq<ReplyView>,
    worlds: Seq<World>,
    cost: int,
    end: M,
)
    requires
        reaches(job, replies, worlds, cost, end),
        replies.len() >= cost ==> end.request() is None,
    ensures
        replies.len() <= cost,
        run(job, replies).request() is None <==> replies.len() == cost,
        replies.len() == cost ==> run(job, replies) == end,
{
    reveal(reaches);
}

/// A job at work inside another one, which passes on what the inner one needs until that is over.
pub open spec fn carries<S: Machine, M: Machine>(outer: spec_fn(S) -> M) -> bool {
    &&& forall|job: S|
        job.request() is Some ==> (#[trigger] outer(job)).request() == job.request()
    &&& forall|job: S, reply: ReplyView|
        job.request() is Some ==> #[trigger] outer(job).step(reply) == outer(job.step(reply))
}

/// The run of a job that works inside another one is the beginning of a run of the outer one:
/// `cost` replies, until the inner job is over or there are no more replies.
pub proof fn lemma_carried<S: Machine, M: Machine>(
    outer: spec_fn(S) -> M,
    inner: S,
    replies: Seq<ReplyView>,
    worlds: Seq<World>,
) -> (cost: int)
    requires
        carries(outer),
        inner.request() is Some,
        served(outer(inner), replies, worlds),
    ensures
        0 <= cost <= replies.len(),
        served(inner, replies.take(cost), worlds.take(cost + 1)),
        cost == replies.len() || run(inner, replies.take(cost)).request() is None,
        reaches(outer(inner), replies, worlds, cost, outer(run(inner, replies.take(cost)))),
    decreases replies.len(),
{
    if replies.len() == 0 {
        lemma_reaches_itself(outer(inner), replies, worlds);
        assert(replies.take(0) =~= replies);
        assert(worlds.take(1) =~= worlds);
        0
    } else {
        let next = inner.step(replies[0]);
        let replies1 = replies.skip(1);
        let worlds1 = worlds.skip(1);
        lemma_reaches_next(outer(inner), replies, worlds);
        assert(outer(inner).step(replies[0]) == outer(next));
        let more = if next.request() is Some {
            lemma_carried(outer, next, replies1, worlds1)
        } else {
            lemma_reaches_itself(outer(next), replies1, worlds1);
            assert(replies1.take(0) =~= Seq::empty());
            assert(served(next, replies1.take(0), worlds1.take(1)));
            0int
        };
        assert(served(next, replies1.take(more), worlds1.take(more + 1)));
        assert(replies.take(more + 1).skip(1) =~= replies1.take(more));
        assert(worlds.take(more + 2).skip(1) =~= worlds1.take(more + 1));
        assert(run(inner, replies.take(more + 1)) == run(next, replies1.take(more)));
        lemma_reaches_through(
            outer(inner),
            replies,
            worlds,
            1,
            outer(next),
            more,
            outer(run(next, replies1.take(more))),
        );
        more + 1
    }
}

/// Where the inner job is known to end after `cost` replies, the outer one gets to the state that
/// follows from that end.
pub proof fn lemma_carried_to_end<S: Machine, M: Machine>(
    outer: spec_fn(S) -> M,
    inner: S,
    replies: Seq<ReplyView>,
    worlds: Seq<World>,
    carried: int,
    cost: int,
    end: S,
)
    requires
        carries(outer),
        served(outer(inner), replies, worlds),
        0 <= carried <= replies.len(),
        carried == replies.len() || run(inner, replies.take(carried)).request() is None,
        reaches(outer(inner), replies, worlds, carried, outer(run(inner, replies.take(carried)))),
        carried <= cost,
        run(inner, replies.take(carried)).request() is None <==> carried == cost,
        carried == cost ==> run(inner, replies.take(carried)) == end,
    ensures
        reaches(outer(inner), replies, worlds, cost, outer(end)),
        replies.len() >= cost ==> carried == cost,
{
    reveal(reaches);
    if carried < cost {
        assert(replies.skip(carried) =~= Seq::empty());
        let last = run(inner, replies.take(carried));
        assert(outer(last).request() == last.request());
    }
}

/// The job needs something, and the file system can do it.
pub open spec fn can_go_on<M: Machine>(job: M, world: World) -> bool {
    job.request() is Some && exists|reply: ReplyView, after: World| #[trigger]
        serves(world, job.request()->0, reply, after)
}

/// The job goes on after all of `replies` as it would have after each.
pub proof fn lemma_run_longer<M: Machine>(job: M, replies: Seq<ReplyView>, reply: ReplyView)
    ensures
        run(job, replies.push(reply)) == run(job, replies).step(reply),
    decreases replies.len(),
{
    let longer = replies.push(reply);
    if replies.len() == 0 {
        assert(longer.skip(1) =~= replies);
        assert(run(job.step(reply), longer.skip(1)) == job.step(reply));
    } else {
        assert(longer.skip(1) =~= replies.skip(1).push(reply));
        lemma_run_longer(job.step(replies[0]), replies.skip(1), reply);
    }
}

/// A faultless run, continued by what the file system answers next, is a faultless run.
pub proof fn lemma_served_longer<M: Machine>(
    job: M,
    replies: Seq<ReplyView>,
    worlds: Seq<World>,
    reply: ReplyView,
    after: World,
)
    requires
        served(job, replies, worlds),
        run(job, replies).request() is Some,
        serves(worlds.last(), run(job, replies).request()->0, reply, after),
    ensures
        served(job, replies.push(reply), worlds.push(after)),
    decreases replies.len(),
{
    let longer = replies.push(reply);
    let more = worlds.push(after);
    if replies.len() == 0 {
        assert(longer.skip(1) =~= Seq::empty());
        assert(more.skip(1) =~= seq![after]);
        assert(served(job.step(reply), longer.skip(1), more.skip(1)));
    } else {
        assert(longer.skip(1) =~= replies.skip(1).push(reply));
        assert(more.skip(1) =~= worlds.skip(1).push(after));
        assert(worlds.skip(1).last() == worlds.last());
        lemma_served_longer(
            job.step(replies[0]),
            replies.skip(1),
            worlds.skip(1),
            reply,
            after,
        );
        assert(served(job.step(longer[0]), longer.skip(1), more.skip(1)));
    }
}

/// Where every faultless run from a state of the file system can go on until the job is over, and
/// none takes more than `most` replies, there is one in which the job comes to its end.
pub proof fn lemma_run_to_the_end<M: Machine>(
    job: M,
    replies: Seq<ReplyView>,
    worlds: Seq<World>,
    most: nat,
) -> (done: (Seq<ReplyView>, Seq<World>))
    requires
        served(job, replies, worlds),
        forall|r: Seq<ReplyView>, w: Seq<World>| #[trigger]
            served(job, r, w) && w[0] == worlds[0] ==> r.len() <= most && (run(job, r).request()
                is Some ==> can_go_on(run(job, r), w.last())),
    ensures
        served(job, done.0, done.1),
        done.1[0] == worlds[0],
        run(job, done.0).request() is None,
    decreases most - replies.len(),
{
    let last = run(job, replies);
    if last.request() is None {
        (replies, worlds)
    } else {
        assert(can_go_on(last, worlds.last()));
        let (reply, after) = choose|reply: ReplyView, after: World| #[trigger]
            serves(worlds.last(), last.request()->0, reply, after);
        lemma_served_longer(job, replies, worlds, reply, after);
        let more = worlds.push(after);
        assert(more[0] == worlds[0]);
        assert(replies.push(reply).len() <= most);
        lemma_run_to_the_end(job, replies.push(reply), more, most)
    }
}

} // verus!
