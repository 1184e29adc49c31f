//! The way back: a snapshot is copied to a target directory, and what has arrived there is
//! checked.
use vstd::prelude::*;

use crate::checksum::{compute_sha256_dir, HashJob, HashView};
use crate::copy::{snapshot_closed_collab_db, CopyJob, CopyView};
use crate::digest::{compute_sha256_file, MAX_MESSAGE};
use crate::error::{BackupError, ErrorView};
use crate::io::{Area, Reply, ReplyView, Request, RequestView};
use crate::manifest::SnapshotManifest;
use crate::snapshot::{area_place, collab_place, database_place};
use crate::text::join2;
use crate::world::Machine;

verus! {

/// What is wrong with a checksum, if anything: the manifest has none under the name, or another
/// one.
pub open spec fn rejection(
    manifest: Map<Seq<char>, Seq<char>>,
    name: Seq<char>,
    actual: Seq<char>,
) -> Option<ErrorView> {
    if !manifest.contains_key(name) {
        Some(ErrorView::Snapshot("no checksum in the manifest for "@ + name))
    } else if manifest[name] != actual {
        Some(
            ErrorView::Snapshot(
                "checksum mismatch for "@ + name + ": expected "@ + manifest[name] + ", got "@
                    + actual,
            ),
        )
    } else {
        None
    }
}

/// Holds a checksum against the manifest.
pub fn check_checksum(manifest: &SnapshotManifest, name: &str, actual: &String) -> (checked: Result<
    (),
    BackupError,
>)
    ensures
        match checked {
            Ok(_) => rejection(manifest.checksums@, name@, actual@) is None,
            Err(error) => rejection(manifest.checksums@, name@, actual@) == Some(error@),
        },
{
    match manifest.checksums.get(name) {
        None => Err(BackupError::Snapshot(join2("no checksum in the manifest for ", name))),
        Some(expected) => if *expected == *actual {
            Ok(())
        } else {
            let mut text = join2("checksum mismatch for ", name);
            text.append(": expected ");
            text.append(expected.as_str());
            text.append(", got ");
            text.append(actual.as_str());
            Err(BackupError::Snapshot(text))
        },
    }
}

/// What a restoration is at.
pub enum RestorePhaseView {
    /// The target directory is to be created.
    Creating,
    /// The database is to be copied.
    CopyingDatabase,
    /// The collab database directory is being copied.
    Copying(CopyView),
    /// The copied database is to be read.
    Reading,
    /// The checksum of the copied directory is being computed.
    Hashing(HashView),
}

/// The state of a restoration.
pub enum RestoreView {
    /// At work, with the checksums of the manifest by name.
    Active { manifest: Map<Seq<char>, Seq<char>>, phase: RestorePhaseView },
    /// Over.
    Finished(Result<(), ErrorView>),
}

/// A restoration that has to meet the checksums of a manifest.
pub open spec fn restore_start(manifest: Map<Seq<char>, Seq<char>>) -> RestoreView {
    RestoreView::Active { manifest, phase: RestorePhaseView::Creating }
}

/// The restoration, given where the copy of the collab database directory has got to.
pub open spec fn while_copying(
    manifest: Map<Seq<char>, Seq<char>>,
    copy: CopyView,
) -> RestoreView {
    match copy {
        CopyView::Active { .. } => RestoreView::Active {
            manifest,
            phase: RestorePhaseView::Copying(copy),
        },
        CopyView::Finished(Ok(_)) => RestoreView::Active {
            manifest,
            phase: RestorePhaseView::Reading,
        },
        CopyView::Finished(Err(error)) => RestoreView::Finished(Err(error)),
    }
}

/// The restoration, given where the checksum of the copied directory has got to.
pub open spec fn while_hashing(
    manifest: Map<Seq<char>, Seq<char>>,
    hash: HashView,
) -> RestoreView {
    match hash {
        HashView::Active { .. } => RestoreView::Active {
            manifest,
            phase: RestorePhaseView::Hashing(hash),
        },
        HashView::Finished(Ok(text)) => match rejection(
            manifest,
            crate::snapshot::collab_name(),
            text,
        ) {
            None => RestoreView::Finished(Ok(())),
            Some(error) => RestoreView::Finished(Err(error)),
        },
        HashView::Finished(Err(error)) => RestoreView::Finished(Err(error)),
    }
}

impl Machine for RestoreView {
    open spec fn request(self) -> Option<RequestView> {
        match self {
            RestoreView::Active { manifest, phase } => match phase {
                RestorePhaseView::Creating => Some(
                    RequestView::CreateDirAll(crate::snapshot::area_spot(Area::Target)),
                ),
                RestorePhaseView::CopyingDatabase => Some(
                    RequestView::CopyFile {
                        from: crate::snapshot::database_spot(Area::Staging),
                        to: crate::snapshot::database_spot(Area::Target),
                    },
                ),
                RestorePhaseView::Copying(copy) => copy.request(),
                RestorePhaseView::Reading => Some(
                    RequestView::ReadFile(crate::snapshot::database_spot(Area::Target)),
                ),
                RestorePhaseView::Hashing(hash) => hash.request(),
            },
            RestoreView::Finished(_) => None,
        }
    }

    open spec fn step(self, reply: ReplyView) -> RestoreView {
        match self {
            RestoreView::Active { manifest, phase } => match (phase, reply) {
                (RestorePhaseView::Copying(copy), _) => while_copying(manifest, copy.step(reply)),
                (RestorePhaseView::Hashing(hash), _) => while_hashing(manifest, hash.step(reply)),
                (_, ReplyView::Failed(text)) => RestoreView::Finished(Err(ErrorView::Io(text))),
                (RestorePhaseView::Creating, ReplyView::Done) => RestoreView::Active {
                    manifest,
                    phase: RestorePhaseView::CopyingDatabase,
                },
                (RestorePhaseView::CopyingDatabase, ReplyView::Done) => RestoreView::Active {
                    manifest,
                    phase: RestorePhaseView::Copying(
                        crate::copy::copy_start(
                            crate::snapshot::collab_spot(Area::Staging),
                            crate::snapshot::collab_spot(Area::Target),
                        ),
                    ),
                },
                (RestorePhaseView::Reading, ReplyView::Data(bytes)) => match rejection(
                    manifest,
                    crate::snapshot::database_name(),
                    crate::digest::checksum(bytes),
                ) {
                    None => RestoreView::Active {
                        manifest,
                        phase: RestorePhaseView::Hashing(
                            crate::checksum::hash_start(
                                crate::snapshot::collab_spot(Area::Target),
                            ),
                        ),
                    },
                    Some(error) => RestoreView::Finished(Err(error)),
                },
                _ => self,
            },
            RestoreView::Finished(_) => self,
        }
    }
}

/// The reply is one that the restoration can go on with.
pub open spec fn restore_accepts(job: RestoreView, reply: ReplyView) -> bool {
    match job {
        RestoreView::Active { manifest, phase } => match (phase, reply) {
            (RestorePhaseView::Copying(copy), _) => crate::copy::copy_accepts(copy, reply),
            (RestorePhaseView::Hashing(hash), _) => crate::checksum::hash_accepts(hash, reply),
            (_, ReplyView::Failed(_)) => true,
            (RestorePhaseView::Creating, ReplyView::Done) => true,
            (RestorePhaseView::CopyingDatabase, ReplyView::Done) => true,
            (RestorePhaseView::Reading, ReplyView::Data(bytes)) => bytes.len() <= MAX_MESSAGE,
            _ => false,
        },
        RestoreView::Finished(_) => false,
    }
}

enum RestorePhase {
    Creating,
    CopyingDatabase,
    Copying(CopyJob),
    Reading,
    Hashing(HashJob),
}

enum RestoreState {
    Active { manifest: SnapshotManifest, phase: RestorePhase },
    Finished(Result<(), BackupError>),
}

/// Puts a snapshot back, asking for what it needs step by step.
pub struct RestoreJob {
    state: RestoreState,
}

impl View for RestoreJob {
    type V = RestoreView;

    closed spec fn view(&self) -> RestoreView {
        match self.state {
            RestoreState::Active { manifest, phase } => RestoreView::Active {
                manifest: manifest.checksums@,
                phase: match phase {
                    RestorePhase::Creating => RestorePhaseView::Creating,
                    RestorePhase::CopyingDatabase => RestorePhaseView::CopyingDatabase,
                    RestorePhase::Copying(copy) => RestorePhaseView::Copying(copy@),
                    RestorePhase::Reading => RestorePhaseView::Reading,
                    RestorePhase::Hashing(hash) => RestorePhaseView::Hashing(hash@),
                },
            },
            RestoreState::Finished(Ok(_)) => RestoreView::Finished(Ok(())),
            RestoreState::Finished(Err(error)) => RestoreView::Finished(Err(error@)),
        }
    }
}

impl RestoreJob {
    /// A restoration that has to meet the checksums of `manifest`.
    pub fn new(manifest: SnapshotManifest) -> (job: RestoreJob)
        ensures
            job@ == restore_start(manifest.checksums@),
    {
        RestoreJob { state: RestoreState::Active { manifest, phase: RestorePhase::Creating } }
    }

    /// What the restoration needs next; nothing once it is over.
    pub fn request(&self) -> (request: Option<Request>)
        ensures
            request is Some <==> self@.request() is Some,
            request is Some ==> self@.request() == Some(request->0@),
    {
        match &self.state {
            RestoreState::Active { manifest, phase } => match phase {
                RestorePhase::Creating => Some(Request::CreateDirAll(area_place(Area::Target))),
                RestorePhase::CopyingDatabase => Some(
                    Request::CopyFile {
                        from: database_place(Area::Staging),
                        to: database_place(Area::Target),
                    },
                ),
                RestorePhase::Copying(copy) => copy.request(),
                RestorePhase::Reading => Some(Request::ReadFile(database_place(Area::Target))),
                RestorePhase::Hashing(hash) => hash.request(),
            },
            RestoreState::Finished(_) => None,
        }
    }

    /// Whether the restoration can go on with a reply.
    pub fn accepts(&self, reply: &Reply) -> (fits: bool)
        ensures
            fits == restore_accepts(self@, reply@),
    {
        match &self.state {
            RestoreState::Active { manifest, phase } => match (phase, reply) {
                (RestorePhase::Copying(copy), _) => copy.accepts(reply),
                (RestorePhase::Hashing(hash), _) => hash.accepts(reply),
                (_, Reply::Failed(_)) => true,
                (RestorePhase::Creating, Reply::Done) => true,
                (RestorePhase::CopyingDatabase, Reply::Done) => true,
                (RestorePhase::Reading, Reply::Data(bytes)) => bytes.len() as u64 <= MAX_MESSAGE,
                _ => false,
            },
            RestoreState::Finished(_) => false,
        }
    }

    fn active(manifest: SnapshotManifest, phase: RestorePhase) -> (job: RestoreJob)
        ensures
            job.state == (RestoreState::Active { manifest, phase }),
    {
        RestoreJob { state: RestoreState::Active { manifest, phase } }
    }

    fn over(result: Result<(), BackupError>) -> (job: RestoreJob)
        ensures
            job.state == RestoreState::Finished(result),
    {
        RestoreJob { state: RestoreState::Finished(result) }
    }

    /// Goes on with a reply.
    pub fn step(self, reply: Reply) -> (job: RestoreJob)
        requires
            restore_accepts(self@, reply@),
        ensures
            job@ == self@.step(reply@),
    {
        match self.state {
            RestoreState::Active { manifest, phase } => match (phase, reply) {
                (RestorePhase::Copying(copy), reply) => match copy.step(reply).settle() {
                    Err(copy) => Self::active(manifest, RestorePhase::Copying(copy)),
                    Ok(Ok(_)) => Self::active(manifest, RestorePhase::Reading),
                    Ok(Err(error)) => Self::over(Err(error)),
                },
                (RestorePhase::Hashing(hash), reply) => match hash.step(reply).settle() {
                    Err(hash) => Self::active(manifest, RestorePhase::Hashing(hash)),
                    Ok(Ok(text)) => Self::over(check_checksum(&manifest, "collab_db", &text)),
                    Ok(Err(error)) => Self::over(Err(error)),
                },
                (_, Reply::Failed(text)) => Self::over(Err(BackupError::Io(text))),
                (RestorePhase::Creating, _) => Self::active(
                    manifest,
                    RestorePhase::CopyingDatabase,
                ),
                (RestorePhase::CopyingDatabase, _) => Self::active(
                    manifest,
                    RestorePhase::Copying(
                        snapshot_closed_collab_db(
                            collab_place(Area::Staging),
                            collab_place(Area::Target),
                        ),
                    ),
                ),
                (RestorePhase::Reading, Reply::Data(bytes)) => {
                    let text = compute_sha256_file(bytes.as_slice());
                    match check_checksum(&manifest, "flowy-database.db", &text) {
                        Ok(_) => Self::active(
                            manifest,
                            RestorePhase::Hashing(
                                compute_sha256_dir(collab_place(Area::Target)),
                            ),
                        ),
                        Err(error) => Self::over(Err(error)),
                    }
                },
                (phase, _) => Self::active(manifest, phase),
            },
            RestoreState::Finished(result) => Self::over(result),
        }
    }

    /// How the restoration ended, if it is over.
    pub fn outcome(self) -> (outcome: Option<Result<(), BackupError>>)
        ensures
            match outcome {
                Some(Ok(_)) => self@ == RestoreView::Finished(Ok(())),
                Some(Err(error)) => self@ == RestoreView::Finished(Err(error@)),
                None => self@ is Active,
            },
    {
        match self.state {
            RestoreState::Finished(result) => Some(result),
            RestoreState::Active { .. } => None,
        }
    }
}

/// A checksum is passed exactly where the manifest has it, whole, under the name. The error about
/// one that is not names it, and tells both checksums where there are two.
pub proof fn law_rejection(
    manifest: Map<Seq<char>, Seq<char>>,
    name: Seq<char>,
    actual: Seq<char>,
)
    ensures
        rejection(manifest, name, actual) is None <==> manifest.contains_pair(name, actual),
        rejection(manifest, name, actual) is Some ==> rejection(manifest, name, actual)->0
            is Snapshot,
        !manifest.contains_key(name) ==> ({
            let text = rejection(manifest, name, actual)->0->Snapshot_0;
            &&& ("no checksum in the manifest for "@).is_prefix_of(text)
            &&& text.skip("no checksum in the manifest for "@.len() as int) == name
        }),
        manifest.contains_key(name) && manifest[name] != actual ==> ({
            let text = rejection(manifest, name, actual)->0->Snapshot_0;
            let words = "checksum mismatch for "@ + name + ": expected "@;
            &&& words.is_prefix_of(text)
            &&& text.skip(words.len() as int) == manifest[name] + ", got "@ + actual
        }),
{
    let missing = "no checksum in the manifest for "@;
    if !manifest.contains_key(name) {
        let text = rejection(manifest, name, actual)->0->Snapshot_0;
        assert(missing =~= text.take(missing.len() as int));
        assert(text.skip(missing.len() as int) =~= name);
    } else if manifest[name] != actual {
        let text = rejection(manifest, name, actual)->0->Snapshot_0;
        let words = "checksum mismatch for "@ + name + ": expected "@;
        assert(words =~= text.take(words.len() as int));
        assert(text.skip(words.len() as int) =~= manifest[name] + ", got "@ + actual);
    }
}

} // verus!
