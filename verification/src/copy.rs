//! The copy of a directory with everything in it.
use vstd::prelude::*;

use crate::error::{BackupError, ErrorView};
use crate::io::{
    child_place, copy_name, place, Place, Reply, ReplyView, Request, RequestView, Spot,
};
use crate::names::Name;
use crate::world::Machine;

verus! {

/// What a copy job is waiting for.
pub enum CopyPhaseView {
    /// The copy of the current directory to be created.
    Creating,
    /// The current directory to be opened.
    Opening,
    /// The next entry of the current directory.
    Walking,
    /// This file of the current directory to be copied.
    Copying(Seq<u8>),
}

/// The state of a copy job.
pub enum CopyView {
    /// At work in the directory `from`, whose copy is `to`, `depth` levels below the top.
    Active { from: Spot, to: Spot, depth: nat, phase: CopyPhaseView },
    /// Over.
    Finished(Result<(), ErrorView>),
}

/// A job that is to copy the directory `from` to `to`.
pub open spec fn copy_start(from: Spot, to: Spot) -> CopyView {
    CopyView::Active { from, to, depth: 0, phase: CopyPhaseView::Creating }
}

/// The directory around `spot`.
pub open spec fn around(spot: Spot) -> Spot {
    (spot.0, spot.1.drop_last())
}

impl Machine for CopyView {
    open spec fn request(self) -> Option<RequestView> {
        match self {
            CopyView::Active { from, to, depth, phase } => match phase {
                CopyPhaseView::Creating => Some(RequestView::CreateDirAll(to)),
                CopyPhaseView::Opening => Some(RequestView::OpenDir(from)),
                CopyPhaseView::Walking => Some(RequestView::NextEntry(from)),
                CopyPhaseView::Copying(name) => Some(
                    RequestView::CopyFile {
                        from: crate::tree::child(from, name),
                        to: crate::tree::child(to, name),
                    },
                ),
            },
            CopyView::Finished(_) => None,
        }
    }

    open spec fn step(self, reply: ReplyView) -> CopyView {
        match self {
            CopyView::Active { from, to, depth, phase } => match (phase, reply) {
                (_, ReplyView::Failed(text)) => CopyView::Finished(Err(ErrorView::Io(text))),
                (CopyPhaseView::Creating, ReplyView::Done) => CopyView::Active {
                    from,
                    to,
                    depth,
                    phase: CopyPhaseView::Opening,
                },
                (CopyPhaseView::Opening, ReplyView::Done) => CopyView::Active {
                    from,
                    to,
                    depth,
                    phase: CopyPhaseView::Walking,
                },
                (CopyPhaseView::Walking, ReplyView::Entry { name, is_dir }) => if is_dir {
                    CopyView::Active {
                        from: crate::tree::child(from, name),
                        to: crate::tree::child(to, name),
                        depth: depth + 1,
                        phase: CopyPhaseView::Creating,
                    }
                } else {
                    CopyView::Active { from, to, depth, phase: CopyPhaseView::Copying(name) }
                },
                (CopyPhaseView::Walking, ReplyView::EndOfDir) => if depth == 0 {
                    CopyView::Finished(Ok(()))
                } else {
                    CopyView::Active {
                        from: around(from),
                        to: around(to),
                        depth: (depth - 1) as nat,
                        phase: CopyPhaseView::Walking,
                    }
                },
                (CopyPhaseView::Copying(name), ReplyView::Done) => CopyView::Active {
                    from,
                    to,
                    depth,
                    phase: CopyPhaseView::Walking,
                },
                _ => self,
            },
            CopyView::Finished(_) => self,
        }
    }
}

/// The reply is one that the job can go on with.
pub open spec fn copy_accepts(job: CopyView, reply: ReplyView) -> bool {
    match job {
        CopyView::Active { from, to, depth, phase } => match (phase, reply) {
            (_, ReplyView::Failed(_)) => true,
            (CopyPhaseView::Walking, ReplyView::Entry { name, is_dir }) => true,
            (CopyPhaseView::Walking, ReplyView::EndOfDir) => true,
            (CopyPhaseView::Walking, _) => false,
            (_, ReplyView::Done) => true,
            _ => false,
        },
        CopyView::Finished(_) => false,
    }
}

enum CopyPhase {
    Creating,
    Opening,
    Walking,
    Copying(Name),
}

enum CopyState {
    /// `base` is the number of names in the path of the directory that is copied.
    Active { from: Place, to: Place, base: usize, phase: CopyPhase },
    Finished(Result<(), BackupError>),
}

/// Copies a directory, asking for what it needs step by step.
pub struct CopyJob {
    state: CopyState,
}

impl View for CopyJob {
    type V = CopyView;

    closed spec fn view(&self) -> CopyView {
        match self.state {
            CopyState::Active { from, to, base, phase } => CopyView::Active {
                from: from@,
                to: to@,
                depth: (from.path@.len() - base) as nat,
                phase: match phase {
                    CopyPhase::Creating => CopyPhaseView::Creating,
                    CopyPhase::Opening => CopyPhaseView::Opening,
                    CopyPhase::Walking => CopyPhaseView::Walking,
                    CopyPhase::Copying(name) => CopyPhaseView::Copying(name@),
                },
            },
            CopyState::Finished(Ok(_)) => CopyView::Finished(Ok(())),
            CopyState::Finished(Err(error)) => CopyView::Finished(Err(error@)),
        }
    }
}

/// The copy of the closed database directory `collab_db` to `out_dir`, as a job. Nothing may
/// write to `collab_db` while it is copied.
pub fn snapshot_closed_collab_db(collab_db: Place, out_dir: Place) -> (job: CopyJob)
    ensures
        job@ == copy_start(collab_db@, out_dir@),
{
    let base: usize = collab_db.path.len();
    CopyJob {
        state: CopyState::Active {
            from: collab_db,
            to: out_dir,
            base,
            phase: CopyPhase::Creating,
        },
    }
}

/// The place of `name` in the directory `dir`.
fn enter(dir: Place, name: Name) -> (inside: Place)
    ensures
        inside@ == crate::tree::child(dir@, name@),
        inside.path@.len() == dir.path@.len() + 1,
{
    let area = dir.area;
    let mut path = dir.path;
    let ghost start = path@;
    let ghost entered = name@;
    path.push(name);
    assert(crate::names::names_of(path@) =~= crate::names::names_of(start).push(entered));
    Place { area, path }
}

/// The directory around `dir`.
fn leave(dir: Place) -> (outside: Place)
    requires
        dir.path@.len() > 0,
    ensures
        outside@ == around(dir@),
        outside.path@.len() == dir.path@.len() - 1,
{
    let area = dir.area;
    let mut path = dir.path;
    let ghost start = path@;
    let last = path.pop();
    assert(crate::names::names_of(path@) =~= crate::names::names_of(start).drop_last());
    Place { area, path }
}

impl CopyJob {
    #[verifier::type_invariant]
    spec fn sound(self) -> bool {
        match self.state {
            CopyState::Active { from, to, base, phase } => {
                &&& base <= from.path@.len()
                &&& from.path@.len() - base <= to.path@.len()
            },
            CopyState::Finished(_) => true,
        }
    }

    /// What the job needs next; nothing once it is over.
    pub fn request(&self) -> (request: Option<Request>)
        ensures
            request is Some <==> self@.request() is Some,
            request is Some ==> self@.request() == Some(request->0@),
    {
        match &self.state {
            CopyState::Active { from, to, base, phase } => match phase {
                CopyPhase::Creating => Some(Request::CreateDirAll(place(to.area, &to.path))),
                CopyPhase::Opening => Some(Request::OpenDir(place(from.area, &from.path))),
                CopyPhase::Walking => Some(Request::NextEntry(place(from.area, &from.path))),
                CopyPhase::Copying(name) => Some(
                    Request::CopyFile {
                        from: child_place(from.area, &from.path, name),
                        to: child_place(to.area, &to.path, name),
                    },
                ),
            },
            CopyState::Finished(_) => None,
        }
    }

    /// Whether the job can go on with a reply.
    pub fn accepts(&self, reply: &Reply) -> (fits: bool)
        ensures
            fits == copy_accepts(self@, reply@),
    {
        match &self.state {
            CopyState::Active { from, to, base, phase } => match (phase, reply) {
                (_, Reply::Failed(_)) => true,
                (CopyPhase::Walking, Reply::Entry { name, is_dir }) => true,
                (CopyPhase::Walking, Reply::EndOfDir) => true,
                (CopyPhase::Walking, _) => false,
                (_, Reply::Done) => true,
                _ => false,
            },
            CopyState::Finished(_) => false,
        }
    }

    /// Goes on with a reply.
    pub fn step(self, reply: Reply) -> (job: CopyJob)
        requires
            copy_accepts(self@, reply@),
        ensures
            job@ == self@.step(reply@),
    {
        proof {
            use_type_invariant(&self);
        }
        match self.state {
            CopyState::Active { from, to, base, phase } => match (phase, reply) {
                (_, Reply::Failed(text)) => CopyJob {
                    state: CopyState::Finished(Err(BackupError::Io(text))),
                },
                (CopyPhase::Walking, Reply::Entry { name, is_dir }) => if is_dir {
                    let copied = copy_name(&name);
                    CopyJob {
                        state: CopyState::Active {
                            from: enter(from, name),
                            to: enter(to, copied),
                            base,
                            phase: CopyPhase::Creating,
                        },
                    }
                } else {
                    CopyJob {
                        state: CopyState::Active {
                            from,
                            to,
                            base,
                            phase: CopyPhase::Copying(name),
                        },
                    }
                },
                (CopyPhase::Walking, _) => if from.path.len() == base {
                    CopyJob { state: CopyState::Finished(Ok(())) }
                } else {
                    CopyJob {
                        state: CopyState::Active {
                            from: leave(from),
                            to: leave(to),
                            base,
                            phase: CopyPhase::Walking,
                        },
                    }
                },
                (CopyPhase::Creating, _) => CopyJob {
                    state: CopyState::Active { from, to, base, phase: CopyPhase::Opening },
                },
                (_, _) => CopyJob {
                    state: CopyState::Active { from, to, base, phase: CopyPhase::Walking },
                },
            },
            CopyState::Finished(result) => CopyJob { state: CopyState::Finished(result) },
        }
    }

    /// How the job ended if it is over, or else the job again.
    pub(crate) fn settle(self) -> (settled: Result<Result<(), BackupError>, CopyJob>)
        ensures
            match settled {
                Ok(Ok(_)) => self@ == CopyView::Finished(Ok(())),
                Ok(Err(error)) => self@ == CopyView::Finished(Err(error@)),
                Err(job) => self@ is Active && job@ == self@,
            },
    {
        proof {
            use_type_invariant(&self);
        }
        match self.state {
            CopyState::Finished(result) => Ok(result),
            state => Err(CopyJob { state }),
        }
    }

    /// How the job ended, if it is over.
    pub fn outcome(self) -> (outcome: Option<Result<(), BackupError>>)
        ensures
            match outcome {
                Some(Ok(_)) => self@ == CopyView::Finished(Ok(())),
                Some(Err(error)) => self@ == CopyView::Finished(Err(error@)),
                None => self@ is Active,
            },
    {
        match self.state {
            CopyState::Active { from, to, base, phase } => None,
            CopyState::Finished(result) => Some(result),
        }
    }
}

} // verus!
