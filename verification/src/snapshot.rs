//! A snapshot of one user's data: a compacted copy of the database, a copy of the collab
//! database directory, and the checksums of both.
use vstd::prelude::*;

use crate::checksum::{compute_sha256_dir, HashJob, HashView};
use crate::copy::{snapshot_closed_collab_db, CopyJob, CopyView};
use crate::digest::{compute_sha256_file, MAX_MESSAGE};
use crate::error::{BackupError, ErrorView};
use crate::io::{
    name_from, Area, NodeKind, Place, Reply, ReplyView, Request, RequestView, Spot,
};
use crate::manifest::{Checksums, SnapshotManifest};
use crate::names::Name;
use crate::paths::{user_names, DataPath};
use crate::restore::RestoreJob;
use crate::world::Machine;

verus! {

/// The name of the database file.
pub open spec fn database_name() -> Seq<char> {
    "flowy-database.db"@
}

/// The name of the collab database directory.
pub open spec fn collab_name() -> Seq<char> {
    "collab_db"@
}

/// The top of an area.
pub open spec fn area_spot(area: Area) -> Spot {
    (area, Seq::empty())
}

/// The database file of an area.
pub open spec fn database_spot(area: Area) -> Spot {
    (area, seq![vstd::utf8::encode_utf8(database_name())])
}

/// The collab database directory of an area.
pub open spec fn collab_spot(area: Area) -> Spot {
    (area, seq![vstd::utf8::encode_utf8(collab_name())])
}

/// The manifest of a snapshot, from the checksums of its two outputs.
pub open spec fn manifest_of(
    database: Seq<char>,
    collab: Seq<char>,
) -> Map<Seq<char>, Seq<char>> {
    Map::empty().insert(database_name(), database).insert(collab_name(), collab)
}

/// The map has a checksum for each of the two outputs of a snapshot, and nothing else.
pub open spec fn is_manifest(manifest: Map<Seq<char>, Seq<char>>) -> bool {
    &&& manifest.dom() == set![database_name(), collab_name()]
    &&& crate::digest::is_checksum(manifest[database_name()])
    &&& crate::digest::is_checksum(manifest[collab_name()])
}

/// The two outputs are recorded under different names.
pub proof fn lemma_names_differ()
    ensures
        database_name() != collab_name(),
{
    reveal_strlit("flowy-database.db");
    reveal_strlit("collab_db");
    assert(database_name().len() != collab_name().len());
}

/// Which of the two outputs were not there before the snapshot: those are its own.
#[derive(Debug, Clone, Copy, PartialEq, Eq, Structural)]
pub struct Fresh {
    pub database: bool,
    pub collab: bool,
}

/// The state of a snapshot.
pub enum SnapshotView {
    /// The staging directory is to be created.
    Creating,
    /// Whether there is a database in the staging directory is to be seen.
    InspectingDatabase,
    /// Whether there is a collab database directory in the staging directory is to be seen.
    InspectingCollab { database: bool },
    /// The database is to be copied.
    Vacuuming { fresh: Fresh },
    /// The copy of the database is to be read.
    Reading { fresh: Fresh },
    /// The collab database directory is being copied; the checksum of the database is known.
    Copying { fresh: Fresh, database: Seq<char>, copy: CopyView },
    /// The checksum of the copied directory is being computed.
    Hashing { fresh: Fresh, database: Seq<char>, hash: HashView },
    /// The snapshot has failed: the directory that it has made is to be removed, and after it the
    /// database if the snapshot has made that too.
    RemovingCollab { fresh: Fresh, error: ErrorView },
    /// The snapshot has failed: the database that it has made is to be removed.
    RemovingDatabase(ErrorView),
    /// Over; on success there are the checksums by name.
    Finished(Result<Map<Seq<char>, Seq<char>>, ErrorView>),
}

/// The snapshot has failed before the copy of the directory was begun, or has removed that again.
pub open spec fn without_database(fresh: Fresh, error: ErrorView) -> SnapshotView {
    if fresh.database {
        SnapshotView::RemovingDatabase(error)
    } else {
        SnapshotView::Finished(Err(error))
    }
}

/// The snapshot has failed after the copy of the directory was begun.
pub open spec fn without_outputs(fresh: Fresh, error: ErrorView) -> SnapshotView {
    if fresh.collab {
        SnapshotView::RemovingCollab { fresh, error }
    } else {
        without_database(fresh, error)
    }
}

/// The snapshot, given where the copy of the collab database directory has got to.
pub open spec fn while_copying(
    fresh: Fresh,
    database: Seq<char>,
    copy: CopyView,
) -> SnapshotView {
    match copy {
        CopyView::Active { .. } => SnapshotView::Copying { fresh, database, copy },
        CopyView::Finished(Ok(_)) => SnapshotView::Hashing {
            fresh,
            database,
            hash: crate::checksum::hash_start(collab_spot(Area::Staging)),
        },
        CopyView::Finished(Err(error)) => without_outputs(fresh, error),
    }
}

/// The snapshot, given where the checksum of the copied directory has got to.
pub open spec fn while_hashing(
    fresh: Fresh,
    database: Seq<char>,
    hash: HashView,
) -> SnapshotView {
    match hash {
        HashView::Active { .. } => SnapshotView::Hashing { fresh, database, hash },
        HashView::Finished(Ok(collab)) => SnapshotView::Finished(
            Ok(manifest_of(database, collab)),
        ),
        HashView::Finished(Err(error)) => without_outputs(fresh, error),
    }
}

impl Machine for SnapshotView {
    open spec fn request(self) -> Option<RequestView> {
        match self {
            SnapshotView::Creating => Some(RequestView::CreateDirAll(area_spot(Area::Staging))),
            SnapshotView::InspectingDatabase => Some(
                RequestView::Inspect(database_spot(Area::Staging)),
            ),
            SnapshotView::InspectingCollab { .. } => Some(
                RequestView::Inspect(collab_spot(Area::Staging)),
            ),
            SnapshotView::Vacuuming { .. } => Some(
                RequestView::VacuumInto {
                    from: database_spot(Area::User),
                    to: database_spot(Area::Staging),
                },
            ),
            SnapshotView::Reading { .. } => Some(
                RequestView::ReadFile(database_spot(Area::Staging)),
            ),
            SnapshotView::Copying { fresh, database, copy } => copy.request(),
            SnapshotView::Hashing { fresh, database, hash } => hash.request(),
            SnapshotView::RemovingCollab { .. } => Some(
                RequestView::RemoveDirAll(collab_spot(Area::Staging)),
            ),
            SnapshotView::RemovingDatabase(_) => Some(
                RequestView::RemoveFile(database_spot(Area::Staging)),
            ),
            SnapshotView::Finished(_) => None,
        }
    }

    open spec fn step(self, reply: ReplyView) -> SnapshotView {
        match (self, reply) {
            (SnapshotView::Finished(_), _) => self,
            (SnapshotView::Copying { fresh, database, copy }, _) => while_copying(
                fresh,
                database,
                copy.step(reply),
            ),
            (SnapshotView::Hashing { fresh, database, hash }, _) => while_hashing(
                fresh,
                database,
                hash.step(reply),
            ),
            (SnapshotView::RemovingCollab { fresh, error }, _) => without_database(fresh, error),
            (SnapshotView::RemovingDatabase(error), _) => SnapshotView::Finished(Err(error)),
            (SnapshotView::Vacuuming { fresh }, ReplyView::Failed(text)) => without_database(
                fresh,
                ErrorView::Snapshot(text),
            ),
            (SnapshotView::Reading { fresh }, ReplyView::Failed(text)) => without_database(
                fresh,
                ErrorView::Io(text),
            ),
            (_, ReplyView::Failed(text)) => SnapshotView::Finished(Err(ErrorView::Io(text))),
            (SnapshotView::Creating, ReplyView::Done) => SnapshotView::InspectingDatabase,
            (SnapshotView::InspectingDatabase, ReplyView::Kind(kind)) =>
                SnapshotView::InspectingCollab { database: kind == NodeKind::Missing },
            (SnapshotView::InspectingCollab { database }, ReplyView::Kind(kind)) =>
                SnapshotView::Vacuuming {
                fresh: Fresh { database, collab: kind == NodeKind::Missing },
            },
            (SnapshotView::Vacuuming { fresh }, ReplyView::Done) => SnapshotView::Reading { fresh },
            (SnapshotView::Reading { fresh }, ReplyView::Data(bytes)) => SnapshotView::Copying {
                fresh,
                database: crate::digest::checksum(bytes),
                copy: crate::copy::copy_start(
                    collab_spot(Area::User),
                    collab_spot(Area::Staging),
                ),
            },
            _ => self,
        }
    }
}

/// The reply is one that the snapshot can go on with.
pub open spec fn snapshot_accepts(job: SnapshotView, reply: ReplyView) -> bool {
    match (job, reply) {
        (SnapshotView::Finished(_), _) => false,
        (SnapshotView::Copying { fresh, database, copy }, _) => crate::copy::copy_accepts(
            copy,
            reply,
        ),
        (SnapshotView::Hashing { fresh, database, hash }, _) => crate::checksum::hash_accepts(
            hash,
            reply,
        ),
        (_, ReplyView::Failed(_)) => true,
        (SnapshotView::Creating, ReplyView::Done) => true,
        (SnapshotView::InspectingDatabase, ReplyView::Kind(_)) => true,
        (SnapshotView::InspectingCollab { .. }, ReplyView::Kind(_)) => true,
        (SnapshotView::Vacuuming { .. }, ReplyView::Done) => true,
        (SnapshotView::RemovingCollab { .. }, ReplyView::Done) => true,
        (SnapshotView::RemovingDatabase(_), ReplyView::Done) => true,
        (SnapshotView::Reading { .. }, ReplyView::Data(bytes)) => bytes.len() <= MAX_MESSAGE,
        _ => false,
    }
}

/// The top of an area.
pub fn area_place(area: Area) -> (place: Place)
    ensures
        place@ == area_spot(area),
{
    let path: Vec<Name> = Vec::new();
    assert(crate::names::names_of(path@) =~= Seq::empty());
    Place { area, path }
}

fn named_place(area: Area, name: &str) -> (place: Place)
    ensures
        place@ == (area, seq![vstd::utf8::encode_utf8(name@)]),
{
    let mut path: Vec<Name> = Vec::new();
    path.push(name_from(name));
    assert(crate::names::names_of(path@) =~= seq![vstd::utf8::encode_utf8(name@)]);
    Place { area, path }
}

/// The database file of an area.
pub fn database_place(area: Area) -> (place: Place)
    ensures
        place@ == database_spot(area),
{
    named_place(area, "flowy-database.db")
}

/// The collab database directory of an area.
pub fn collab_place(area: Area) -> (place: Place)
    ensures
        place@ == collab_spot(area),
{
    named_place(area, "collab_db")
}

enum SnapshotState {
    Creating,
    InspectingDatabase,
    InspectingCollab { database: bool },
    Vacuuming { fresh: Fresh },
    Reading { fresh: Fresh },
    Copying { fresh: Fresh, database: String, copy: CopyJob },
    Hashing { fresh: Fresh, database: String, hash: HashJob },
    RemovingCollab { fresh: Fresh, error: BackupError },
    RemovingDatabase(BackupError),
    Finished(Result<SnapshotManifest, BackupError>),
}

/// Takes a snapshot, asking for what it needs step by step.
pub struct SnapshotJob {
    state: SnapshotState,
}

impl View for SnapshotJob {
    type V = SnapshotView;

    closed spec fn view(&self) -> SnapshotView {
        match self.state {
            SnapshotState::Creating => SnapshotView::Creating,
            SnapshotState::InspectingDatabase => SnapshotView::InspectingDatabase,
            SnapshotState::InspectingCollab { database } => SnapshotView::InspectingCollab {
                database,
            },
            SnapshotState::Vacuuming { fresh } => SnapshotView::Vacuuming { fresh },
            SnapshotState::Reading { fresh } => SnapshotView::Reading { fresh },
            SnapshotState::Copying { fresh, database, copy } => SnapshotView::Copying {
                fresh,
                database: database@,
                copy: copy@,
            },
            SnapshotState::Hashing { fresh, database, hash } => SnapshotView::Hashing {
                fresh,
                database: database@,
                hash: hash@,
            },
            SnapshotState::RemovingCollab { fresh, error } => SnapshotView::RemovingCollab {
                fresh,
                error: error@,
            },
            SnapshotState::RemovingDatabase(error) => SnapshotView::RemovingDatabase(error@),
            SnapshotState::Finished(Ok(manifest)) => SnapshotView::Finished(
                Ok(manifest.checksums@),
            ),
            SnapshotState::Finished(Err(error)) => SnapshotView::Finished(Err(error@)),
        }
    }
}

impl SnapshotJob {
    #[verifier::type_invariant]
    spec fn sound(self) -> bool {
        match self.state {
            SnapshotState::Copying { fresh, database, copy } => crate::digest::is_checksum(
                database@,
            ),
            SnapshotState::Hashing { fresh, database, hash } => crate::digest::is_checksum(
                database@,
            ),
            SnapshotState::Finished(Ok(manifest)) => is_manifest(manifest.checksums@),
            _ => true,
        }
    }

    /// What the snapshot needs next; nothing once it is over.
    pub fn request(&self) -> (request: Option<Request>)
        ensures
            request is Some <==> self@.request() is Some,
            request is Some ==> self@.request() == Some(request->0@),
    {
        match &self.state {
            SnapshotState::Creating => Some(Request::CreateDirAll(area_place(Area::Staging))),
            SnapshotState::InspectingDatabase => Some(
                Request::Inspect(database_place(Area::Staging)),
            ),
            SnapshotState::InspectingCollab { .. } => Some(
                Request::Inspect(collab_place(Area::Staging)),
            ),
            SnapshotState::Vacuuming { .. } => Some(
                Request::VacuumInto {
                    from: database_place(Area::User),
                    to: database_place(Area::Staging),
                },
            ),
            SnapshotState::Reading { .. } => Some(
                Request::ReadFile(database_place(Area::Staging)),
            ),
            SnapshotState::Copying { fresh, database, copy } => copy.request(),
            SnapshotState::Hashing { fresh, database, hash } => hash.request(),
            SnapshotState::RemovingCollab { .. } => Some(
                Request::RemoveDirAll(collab_place(Area::Staging)),
            ),
            SnapshotState::RemovingDatabase(_) => Some(
                Request::RemoveFile(database_place(Area::Staging)),
            ),
            SnapshotState::Finished(_) => None,
        }
    }

    /// Whether the snapshot can go on with a reply.
    pub fn accepts(&self, reply: &Reply) -> (fits: bool)
        ensures
            fits == snapshot_accepts(self@, reply@),
    {
        match (&self.state, reply) {
            (SnapshotState::Finished(_), _) => false,
            (SnapshotState::Copying { fresh, database, copy }, _) => copy.accepts(reply),
            (SnapshotState::Hashing { fresh, database, hash }, _) => hash.accepts(reply),
            (_, Reply::Failed(_)) => true,
            (SnapshotState::Creating, Reply::Done) => true,
            (SnapshotState::InspectingDatabase, Reply::Kind(_)) => true,
            (SnapshotState::InspectingCollab { .. }, Reply::Kind(_)) => true,
            (SnapshotState::Vacuuming { .. }, Reply::Done) => true,
            (SnapshotState::RemovingCollab { .. }, Reply::Done) => true,
            (SnapshotState::RemovingDatabase(_), Reply::Done) => true,
            (SnapshotState::Reading { .. }, Reply::Data(bytes)) => bytes.len() as u64
                <= MAX_MESSAGE,
            _ => false,
        }
    }

    fn over(result: Result<SnapshotManifest, BackupError>) -> (job: SnapshotJob)
        requires
            result matches Ok(manifest) ==> is_manifest(manifest.checksums@),
        ensures
            match result {
                Ok(manifest) => job@ == SnapshotView::Finished(Ok(manifest.checksums@)),
                Err(error) => job@ == SnapshotView::Finished(Err(error@)),
            },
    {
        SnapshotJob { state: SnapshotState::Finished(result) }
    }

    fn remove_database(fresh: Fresh, error: BackupError) -> (job: SnapshotJob)
        ensures
            job@ == without_database(fresh, error@),
    {
        if fresh.database {
            SnapshotJob { state: SnapshotState::RemovingDatabase(error) }
        } else {
            Self::over(Err(error))
        }
    }

    fn remove_outputs(fresh: Fresh, error: BackupError) -> (job: SnapshotJob)
        ensures
            job@ == without_outputs(fresh, error@),
    {
        if fresh.collab {
            SnapshotJob { state: SnapshotState::RemovingCollab { fresh, error } }
        } else {
            Self::remove_database(fresh, error)
        }
    }

    /// Goes on with a reply.
    pub fn step(self, reply: Reply) -> (job: SnapshotJob)
        requires
            snapshot_accepts(self@, reply@),
        ensures
            job@ == self@.step(reply@),
    {
        proof {
            use_type_invariant(&self);
        }
        match (self.state, reply) {
            (SnapshotState::Finished(result), _) => Self::over(result),
            (SnapshotState::Copying { fresh, database, copy }, reply) => match copy.step(
                reply,
            ).settle() {
                Err(copy) => SnapshotJob {
                    state: SnapshotState::Copying { fresh, database, copy },
                },
                Ok(Ok(_)) => SnapshotJob {
                    state: SnapshotState::Hashing {
                        fresh,
                        database,
                        hash: compute_sha256_dir(collab_place(Area::Staging)),
                    },
                },
                Ok(Err(error)) => Self::remove_outputs(fresh, error),
            },
            (SnapshotState::Hashing { fresh, database, hash }, reply) => match hash.step(
                reply,
            ).settle() {
                Err(hash) => SnapshotJob {
                    state: SnapshotState::Hashing { fresh, database, hash },
                },
                Ok(Ok(collab)) => {
                    let mut checksums = Checksums::new();
                    let first = checksums.insert("flowy-database.db".to_owned(), database);
                    let second = checksums.insert("collab_db".to_owned(), collab);
                    assert(checksums@.dom() =~= set![database_name(), collab_name()]);
                    proof {
                        lemma_names_differ();
                    }
                    Self::over(Ok(SnapshotManifest { checksums }))
                },
                Ok(Err(error)) => Self::remove_outputs(fresh, error),
            },
            (SnapshotState::RemovingCollab { fresh, error }, _) => Self::remove_database(
                fresh,
                error,
            ),
            (SnapshotState::RemovingDatabase(error), _) => Self::over(Err(error)),
            (SnapshotState::Vacuuming { fresh }, Reply::Failed(text)) => Self::remove_database(
                fresh,
                BackupError::Snapshot(text),
            ),
            (SnapshotState::Reading { fresh }, Reply::Failed(text)) => Self::remove_database(
                fresh,
                BackupError::Io(text),
            ),
            (_, Reply::Failed(text)) => Self::over(Err(BackupError::Io(text))),
            (SnapshotState::Creating, _) => SnapshotJob {
                state: SnapshotState::InspectingDatabase,
            },
            (SnapshotState::InspectingDatabase, Reply::Kind(kind)) => SnapshotJob {
                state: SnapshotState::InspectingCollab { database: kind == NodeKind::Missing },
            },
            (SnapshotState::InspectingCollab { database }, Reply::Kind(kind)) => SnapshotJob {
                state: SnapshotState::Vacuuming {
                    fresh: Fresh { database, collab: kind == NodeKind::Missing },
                },
            },
            (SnapshotState::Vacuuming { fresh }, _) => SnapshotJob {
                state: SnapshotState::Reading { fresh },
            },
            (SnapshotState::Reading { fresh }, Reply::Data(bytes)) => SnapshotJob {
                state: SnapshotState::Copying {
                    fresh,
                    database: compute_sha256_file(bytes.as_slice()),
                    copy: snapshot_closed_collab_db(
                        collab_place(Area::User),
                        collab_place(Area::Staging),
                    ),
                },
            },
            (state, _) => SnapshotJob { state },
        }
    }

    /// How the snapshot ended, if it is over.
    pub fn outcome(self) -> (outcome: Option<Result<SnapshotManifest, BackupError>>)
        ensures
            match outcome {
                Some(Ok(manifest)) => self@ == SnapshotView::Finished(Ok(manifest.checksums@))
                    && is_manifest(manifest.checksums@),
                Some(Err(error)) => self@ == SnapshotView::Finished(Err(error@)),
                None => !(self@ is Finished),
            },
    {
        proof {
            use_type_invariant(&self);
        }
        match self.state {
            SnapshotState::Finished(result) => Some(result),
            _ => None,
        }
    }
}

/// Takes snapshots of the users' data below a data root, and puts them back.
pub struct SnapshotService<R> {
    data_root: R,
}

impl<R> SnapshotService<R> {
    /// The data root.
    pub closed spec fn root(&self) -> R {
        self.data_root
    }

    /// A service for the data below `data_root`.
    pub fn new(data_root: R) -> (service: SnapshotService<R>)
        ensures
            service.root() == data_root,
    {
        SnapshotService { data_root }
    }

    /// The directory that holds the data of the user `uid`: the one below the data root that is
    /// named by the number.
    pub fn user_dir(&self, uid: i64) -> (path: DataPath<'_, R>)
        ensures
            *path.root == self.root(),
            crate::paths::parts_of(path.parts@) == crate::paths::user_parts(uid as int),
    {
        DataPath { root: &self.data_root, parts: user_names(uid) }
    }

    /// A snapshot of the user area into the staging area, as a job. While it is at work nothing
    /// may write to the database, and the collab database must be closed. If it fails once the
    /// copies have been begun, it removes those again that were not there before.
    pub fn snapshot(&self) -> (job: SnapshotJob)
        ensures
            job@ == SnapshotView::Creating,
    {
        SnapshotJob { state: SnapshotState::Creating }
    }

    /// The restoration of the snapshot in the staging area to the target area, as a job. The
    /// checksums of what arrives are held against the manifest.
    pub fn restore(&self, manifest: SnapshotManifest) -> (job: RestoreJob)
        ensures
            job@ == crate::restore::restore_start(manifest.checksums@),
    {
        RestoreJob::new(manifest)
    }
}

} // verus!
