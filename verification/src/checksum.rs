//! The checksum of a directory.
//!
//! A directory is read in the order of its names. A file counts with its contents, a directory
//! with the text of its own checksum, and anything else not at all.
use vstd::prelude::*;

use crate::digest::{Hasher, CHECKSUM_LEN, MAX_MESSAGE};
use crate::error::{BackupError, ErrorView};
use crate::io::{
    child_place, place, Area, NodeKind, Place, Reply, ReplyView, Request, RequestView, Spot,
};
use crate::names::{sort_names, Name};
use crate::tree::Node;
use crate::world::Machine;

verus! {

/// What `names`, in this order, add to the message that stands for a directory.
pub open spec fn dir_message(entries: Map<Seq<u8>, Node>, names: Seq<Seq<u8>>) -> Seq<u8>
    decreases entries, names.len(),
{
    if names.len() == 0 {
        Seq::empty()
    } else if entries.dom().finite() && entries.dom().contains(names[0]) {
        let part = match entries[names[0]] {
            Node::File(bytes) => bytes,
            Node::Dir(inner) => vstd::utf8::encode_utf8(
                crate::digest::checksum(
                    dir_message(inner, crate::names::in_order(inner.dom())),
                ),
            ),
            Node::Other => Seq::empty(),
        };
        part + dir_message(entries, names.skip(1))
    } else {
        dir_message(entries, names.skip(1))
    }
}

/// The checksum of a directory with the given entries.
pub open spec fn dir_checksum(entries: Map<Seq<u8>, Node>) -> Seq<char> {
    crate::digest::checksum(dir_message(entries, crate::names::in_order(entries.dom())))
}

/// One directory whose checksum has been begun: the message so far, and the names still to come.
pub struct FrameView {
    pub message: Seq<u8>,
    pub pending: Seq<Seq<u8>>,
}

/// What a checksum job is waiting for.
pub enum HashPhaseView {
    /// The names of the current directory.
    Listing,
    /// What kind of thing this name of the current directory is.
    Inspecting(Seq<u8>),
    /// The contents of this file of the current directory.
    Reading(Seq<u8>),
}

/// The state of a checksum job.
pub enum HashView {
    /// At work in the directory `path`; the innermost of the directories that were begun is last.
    Active { area: Area, path: Seq<Seq<u8>>, frames: Seq<FrameView>, phase: HashPhaseView },
    /// Over.
    Finished(Result<Seq<char>, ErrorView>),
}

/// A job that is to compute the checksum of the directory `spot`.
pub open spec fn hash_start(spot: Spot) -> HashView {
    HashView::Active {
        area: spot.0,
        path: spot.1,
        frames: Seq::empty(),
        phase: HashPhaseView::Listing,
    }
}

/// The frames once the innermost directory's message is continued by `bytes`.
pub open spec fn extended(frames: Seq<FrameView>, bytes: Seq<u8>) -> Seq<FrameView> {
    let last = frames.last();
    frames.drop_last().push(FrameView { message: last.message + bytes, pending: last.pending })
}

/// Goes on to the next name. A directory without one is complete: its checksum continues the
/// message of the directory around it, or is the result.
pub open spec fn advance(
    area: Area,
    path: Seq<Seq<u8>>,
    frames: Seq<FrameView>,
) -> HashView
    decreases frames.len(),
{
    let last = frames.last();
    if last.pending.len() > 0 {
        HashView::Active {
            area,
            path,
            frames: frames.drop_last().push(
                FrameView { message: last.message, pending: last.pending.skip(1) },
            ),
            phase: HashPhaseView::Inspecting(last.pending[0]),
        }
    } else if frames.len() <= 1 {
        HashView::Finished(Ok(crate::digest::checksum(last.message)))
    } else {
        advance(
            area,
            path.drop_last(),
            extended(
                frames.drop_last(),
                vstd::utf8::encode_utf8(crate::digest::checksum(last.message)),
            ),
        )
    }
}

impl Machine for HashView {
    open spec fn request(self) -> Option<RequestView> {
        match self {
            HashView::Active { area, path, frames, phase } => match phase {
                HashPhaseView::Listing => Some(RequestView::ListDir((area, path))),
                HashPhaseView::Inspecting(name) => Some(
                    RequestView::Inspect((area, path.push(name))),
                ),
                HashPhaseView::Reading(name) => Some(
                    RequestView::ReadFile((area, path.push(name))),
                ),
            },
            HashView::Finished(_) => None,
        }
    }

    open spec fn step(self, reply: ReplyView) -> HashView {
        match self {
            HashView::Active { area, path, frames, phase } => match (phase, reply) {
                (_, ReplyView::Failed(text)) => HashView::Finished(Err(ErrorView::Io(text))),
                (HashPhaseView::Listing, ReplyView::Names(names)) => advance(
                    area,
                    path,
                    frames.push(
                        FrameView {
                            message: Seq::empty(),
                            pending: names.sort_by(crate::names::byte_order()),
                        },
                    ),
                ),
                (HashPhaseView::Inspecting(name), ReplyView::Kind(kind)) => match kind {
                    NodeKind::File => HashView::Active {
                        area,
                        path,
                        frames,
                        phase: HashPhaseView::Reading(name),
                    },
                    NodeKind::Dir => HashView::Active {
                        area,
                        path: path.push(name),
                        frames,
                        phase: HashPhaseView::Listing,
                    },
                    _ => advance(area, path, frames),
                },
                (HashPhaseView::Reading(name), ReplyView::Data(bytes)) => advance(
                    area,
                    path,
                    extended(frames, bytes),
                ),
                _ => self,
            },
            HashView::Finished(_) => self,
        }
    }
}

/// The reply is one that the job can go on with: it fits the request, and no message outgrows
/// what SHA-256 is defined for.
pub open spec fn hash_accepts(job: HashView, reply: ReplyView) -> bool {
    match job {
        HashView::Active { area, path, frames, phase } => match (phase, reply) {
            (_, ReplyView::Failed(_)) => true,
            (HashPhaseView::Listing, ReplyView::Names(_)) => true,
            (HashPhaseView::Inspecting(_), ReplyView::Kind(kind)) => kind == NodeKind::Dir
                ==> frames.last().message.len() + CHECKSUM_LEN <= MAX_MESSAGE,
            (HashPhaseView::Reading(_), ReplyView::Data(bytes)) => frames.last().message.len()
                + bytes.len() <= MAX_MESSAGE,
            _ => false,
        },
        HashView::Finished(_) => false,
    }
}

/// One directory whose checksum has been begun. The names still to come are kept in reverse.
struct Frame {
    hasher: Hasher,
    pending: Vec<Name>,
}

impl View for Frame {
    type V = FrameView;

    closed spec fn view(&self) -> FrameView {
        FrameView {
            message: self.hasher@,
            pending: crate::names::names_of(self.pending@).reverse(),
        }
    }
}

spec fn frames_of(frames: Seq<Frame>) -> Seq<FrameView> {
    frames.map_values(|frame: Frame| frame@)
}

/// The first `count` messages have room for one more checksum each.
spec fn roomy(frames: Seq<Frame>, count: int) -> bool {
    forall|i: int|
        0 <= i < count ==> (#[trigger] frames[i]).hasher@.len() + CHECKSUM_LEN <= MAX_MESSAGE
}

enum HashPhase {
    Listing,
    Inspecting(Name),
    Reading(Name),
}

enum HashState {
    Active { area: Area, path: Vec<Name>, frames: Vec<Frame>, phase: HashPhase },
    Finished(Result<String, BackupError>),
}

/// Computes the checksum of a directory, asking for what it needs step by step.
pub struct HashJob {
    state: HashState,
}

impl View for HashJob {
    type V = HashView;

    closed spec fn view(&self) -> HashView {
        match self.state {
            HashState::Active { area, path, frames, phase } => HashView::Active {
                area,
                path: crate::names::names_of(path@),
                frames: frames_of(frames@),
                phase: match phase {
                    HashPhase::Listing => HashPhaseView::Listing,
                    HashPhase::Inspecting(name) => HashPhaseView::Inspecting(name@),
                    HashPhase::Reading(name) => HashPhaseView::Reading(name@),
                },
            },
            HashState::Finished(Ok(text)) => HashView::Finished(Ok(text@)),
            HashState::Finished(Err(error)) => HashView::Finished(Err(error@)),
        }
    }
}

/// The checksum of the directory at `dir`, as a job.
pub fn compute_sha256_dir(dir: Place) -> (job: HashJob)
    ensures
        job@ == hash_start(dir@),
{
    let frames: Vec<Frame> = Vec::new();
    assert(frames_of(frames@) =~= Seq::empty());
    HashJob {
        state: HashState::Active {
            area: dir.area,
            path: dir.path,
            frames,
            phase: HashPhase::Listing,
        },
    }
}

/// Executes [`advance`].
fn advance_job(area: Area, dir: Vec<Name>, begun: Vec<Frame>) -> (job: HashJob)
    requires
        begun@.len() > 0,
        dir@.len() + 1 >= begun@.len(),
        roomy(begun@, begun@.len() - 1),
    ensures
        job@ == advance(area, crate::names::names_of(dir@), frames_of(begun@)),
{
    let ghost goal = advance(area, crate::names::names_of(dir@), frames_of(begun@));
    let mut path = dir;
    let mut frames = begun;
    loop
        invariant
            frames@.len() > 0,
            path@.len() + 1 >= frames@.len(),
            roomy(frames@, frames@.len() - 1),
            goal == advance(area, crate::names::names_of(path@), frames_of(frames@)),
            goal == advance(area, crate::names::names_of(dir@), frames_of(begun@)),
        decreases frames@.len(),
    {
        let ghost start = frames@;
        let ghost start_path = path@;
        let mut last = frames.pop().unwrap();
        assert(frames_of(start).last() == last@);
        assert(frames_of(start).drop_last() =~= frames_of(frames@));
        let ghost current = last;
        match last.pending.pop() {
            Some(name) => {
                proof {
                    let all = crate::names::names_of(current.pending@);
                    let rest = crate::names::names_of(last.pending@);
                    assert(all =~= rest.push(name@));
                    assert(all.reverse()[0] == name@);
                    assert(all.reverse().skip(1) =~= rest.reverse());
                }
                frames.push(last);
                assert(frames_of(frames@) =~= frames_of(start).drop_last().push(last@));
                return HashJob {
                    state: HashState::Active {
                        area,
                        path,
                        frames,
                        phase: HashPhase::Inspecting(name),
                    },
                };
            },
            None => {
                assert(current@.pending.len() == 0);
                let text = last.hasher.finish();
                match frames.pop() {
                    None => {
                        return HashJob { state: HashState::Finished(Ok(text)) };
                    },
                    Some(parent) => {
                        proof {
                            crate::digest::lemma_checksum_bytes(current.hasher@);
                            assert(parent == start[start.len() - 2]);
                        }
                        let hasher = parent.hasher.absorb(text.as_str().as_bytes());
                        let ghost outer = frames@;
                        frames.push(Frame { hasher, pending: parent.pending });
                        let dropped = path.pop();
                        proof {
                            assert(crate::names::names_of(path@)
                                =~= crate::names::names_of(start_path).drop_last());
                            let bytes = vstd::utf8::encode_utf8(
                                crate::digest::checksum(current.hasher@),
                            );
                            let inner = frames_of(start).drop_last();
                            assert(inner.last() == parent@);
                            assert(inner.drop_last() =~= frames_of(outer));
                            assert(frames_of(frames@) =~= extended(inner, bytes));
                        }
                    },
                }
            },
        }
    }
}

impl HashJob {
    #[verifier::type_invariant]
    spec fn sound(self) -> bool {
        match self.state {
            HashState::Active { area, path, frames, phase } => match phase {
                HashPhase::Listing => {
                    &&& path@.len() >= frames@.len()
                    &&& roomy(frames@, frames@.len() as int)
                },
                _ => {
                    &&& frames@.len() > 0
                    &&& path@.len() + 1 >= frames@.len()
                    &&& roomy(frames@, frames@.len() - 1)
                },
            },
            HashState::Finished(Ok(text)) => crate::digest::is_checksum(text@),
            HashState::Finished(Err(_)) => true,
        }
    }

    /// What the job needs next; nothing once it is over.
    pub fn request(&self) -> (request: Option<Request>)
        ensures
            request is Some <==> self@.request() is Some,
            request is Some ==> self@.request() == Some(request->0@),
    {
        match &self.state {
            HashState::Active { area, path, frames, phase } => match phase {
                HashPhase::Listing => Some(Request::ListDir(place(*area, path))),
                HashPhase::Inspecting(name) => Some(
                    Request::Inspect(child_place(*area, path, name)),
                ),
                HashPhase::Reading(name) => Some(
                    Request::ReadFile(child_place(*area, path, name)),
                ),
            },
            HashState::Finished(_) => None,
        }
    }

    /// Whether the job can go on with a reply.
    pub fn accepts(&self, reply: &Reply) -> (fits: bool)
        ensures
            fits == hash_accepts(self@, reply@),
    {
        proof {
            use_type_invariant(self);
        }
        match &self.state {
            HashState::Active { area, path, frames, phase } => match (phase, reply) {
                (_, Reply::Failed(_)) => true,
                (HashPhase::Listing, Reply::Names(_)) => true,
                (HashPhase::Inspecting(_), Reply::Kind(kind)) => {
                    let length: u64 = frames[frames.len() - 1].hasher.length();
                    *kind != NodeKind::Dir || length <= MAX_MESSAGE - CHECKSUM_LEN
                },
                (HashPhase::Reading(_), Reply::Data(bytes)) => {
                    let length: u64 = frames[frames.len() - 1].hasher.length();
                    bytes.len() as u64 <= MAX_MESSAGE - length
                },
                _ => false,
            },
            HashState::Finished(_) => false,
        }
    }

    /// Goes on with a reply.
    pub fn step(self, reply: Reply) -> (job: HashJob)
        requires
            hash_accepts(self@, reply@),
        ensures
            job@ == self@.step(reply@),
    {
        proof {
            use_type_invariant(&self);
        }
        match self.state {
            HashState::Active { area, path, frames, phase } => match (phase, reply) {
                (_, Reply::Failed(text)) => HashJob {
                    state: HashState::Finished(Err(BackupError::Io(text))),
                },
                (HashPhase::Listing, Reply::Names(names)) => {
                    let ghost start = frames@;
                    let mut frames = frames;
                    let mut pending = sort_names(names);
                    let ghost sorted = crate::names::names_of(pending@);
                    reverse_names(&mut pending);
                    let frame = Frame { hasher: Hasher::new(), pending };
                    assert(frame@.pending =~= sorted);
                    frames.push(frame);
                    assert(frames_of(frames@) =~= frames_of(start).push(frame@));
                    advance_job(area, path, frames)
                },
                (HashPhase::Inspecting(name), Reply::Kind(kind)) => match kind {
                    NodeKind::File => HashJob {
                        state: HashState::Active {
                            area,
                            path,
                            frames,
                            phase: HashPhase::Reading(name),
                        },
                    },
                    NodeKind::Dir => {
                        let ghost start = path@;
                        let ghost entered = name@;
                        let mut path = path;
                        path.push(name);
                        proof {
                            assert(crate::names::names_of(path@)
                                =~= crate::names::names_of(start).push(entered));
                            assert(frames_of(frames@).last() == frames@.last()@);
                        }
                        HashJob {
                            state: HashState::Active {
                                area,
                                path,
                                frames,
                                phase: HashPhase::Listing,
                            },
                        }
                    },
                    _ => advance_job(area, path, frames),
                },
                (HashPhase::Reading(name), Reply::Data(bytes)) => {
                    let ghost start = frames@;
                    let mut frames = frames;
                    assert(frames_of(start).last() == start.last()@);
                    match frames.pop() {
                        Some(last) => {
                            let hasher = last.hasher.absorb(bytes.as_slice());
                            let ghost outer = frames@;
                            frames.push(Frame { hasher, pending: last.pending });
                            proof {
                                assert(frames_of(start).drop_last() =~= frames_of(outer));
                                assert(frames_of(frames@) =~= extended(
                                    frames_of(start),
                                    bytes@,
                                ));
                            }
                        },
                        None => {},
                    }
                    advance_job(area, path, frames)
                },
                (phase, _) => {
                    assert(false);
                    HashJob { state: HashState::Active { area, path, frames, phase } }
                },
            },
            HashState::Finished(result) => HashJob { state: HashState::Finished(result) },
        }
    }

    /// How the job ended if it is over, or else the job again.
    pub(crate) fn settle(self) -> (settled: Result<Result<String, BackupError>, HashJob>)
        ensures
            match settled {
                Ok(Ok(text)) => self@ == HashView::Finished(Ok(text@))
                    && crate::digest::is_checksum(text@),
                Ok(Err(error)) => self@ == HashView::Finished(Err(error@)),
                Err(job) => self@ is Active && job@ == self@,
            },
    {
        proof {
            use_type_invariant(&self);
        }
        match self.state {
            HashState::Finished(result) => Ok(result),
            state => Err(HashJob { state }),
        }
    }

    /// How the job ended, if it is over.
    pub fn outcome(self) -> (outcome: Option<Result<String, BackupError>>)
        ensures
            match outcome {
                Some(Ok(text)) => self@ == HashView::Finished(Ok(text@))
                    && crate::digest::is_checksum(text@),
                Some(Err(error)) => self@ == HashView::Finished(Err(error@)),
                None => self@ is Active,
            },
    {
        proof {
            use_type_invariant(&self);
        }
        match self.state {
            HashState::Active { area, path, frames, phase } => None,
            HashState::Finished(result) => Some(result),
        }
    }
}

/// Reverses a list of names in place.
fn reverse_names(names: &mut Vec<Name>)
    ensures
        crate::names::names_of(final(names)@) == crate::names::names_of(old(names)@).reverse(),
{
    let mut reversed: Vec<Name> = Vec::new();
    let ghost all = names@;
    while names.len() > 0
        invariant
            names@ == all.take(names@.len() as int),
            names@.len() + reversed@.len() == all.len(),
            reversed@ == all.skip(names@.len() as int).reverse(),
        decreases names@.len(),
    {
        let ghost left = names@;
        match names.pop() {
            Some(name) => {
                reversed.push(name);
                proof {
                    let n = left.len() as int;
                    assert(names@ =~= all.take(n - 1));
                    assert(reversed@ =~= all.skip(n - 1).reverse());
                }
            },
            None => {},
        }
    }
    assert(reversed@ =~= all.reverse());
    assert(crate::names::names_of(reversed@) =~= crate::names::names_of(all).reverse());
    *names = reversed;
}

} // verus!
