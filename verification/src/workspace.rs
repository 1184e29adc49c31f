//! The backup of a workspace that is in use: everything that writes is closed, the snapshot is
//! taken, and everything is opened again, whatever came of the snapshot.
use vstd::prelude::*;

use crate::error::{BackupError, ErrorView};
use crate::manifest::SnapshotManifest;
use crate::paths::{staging_names, user_names};
use crate::text::join2;
use crate::uuids::{parse_uuid, random_uuid};

verus! {

/// Where a workspace lives.
#[derive(Debug, Clone, Copy, PartialEq, Eq, Structural)]
pub enum WorkspaceType {
    Local,
    Server,
}

impl WorkspaceType {
    /// Whether the workspace is kept on this device alone.
    pub fn is_local(&self) -> (local: bool)
        ensures
            local == (*self == WorkspaceType::Local),
    {
        match self {
            WorkspaceType::Local => true,
            WorkspaceType::Server => false,
        }
    }
}

/// Who is signed in, and where.
#[derive(Debug)]
pub struct Session {
    pub user_id: i64,
    pub user_uuid: [u8; 16],
    pub workspace_id: String,
}

/// [`Session`] over sequences.
pub struct SessionView {
    pub user_id: i64,
    pub user_uuid: Seq<u8>,
    pub workspace_id: Seq<char>,
}

impl View for Session {
    type V = SessionView;

    open spec fn view(&self) -> SessionView {
        SessionView {
            user_id: self.user_id,
            user_uuid: self.user_uuid@,
            workspace_id: self.workspace_id@,
        }
    }
}

/// Where a snapshot is assembled.
#[derive(Debug, Clone, Copy)]
pub enum Staging {
    /// In a directory below the data root, named by this identifier.
    Derived([u8; 16]),
    /// In the directory that the caller named.
    Given,
}

/// [`Staging`]: the identifier, or none for the caller's directory.
pub open spec fn staging_of(staging: Staging) -> Option<Seq<u8>> {
    match staging {
        Staging::Derived(id) => Some(id@),
        Staging::Given => None,
    }
}

/// The outcome of a backup. The snapshot succeeded; whether the workspace could be opened again
/// is told apart from that.
#[derive(Debug)]
pub struct WorkspaceBackupResult {
    pub manifest: SnapshotManifest,
    pub reopen_ok: bool,
    pub reopen_error: Option<String>,
}

impl Clone for WorkspaceBackupResult {
    fn clone(&self) -> (copy: WorkspaceBackupResult)
        ensures
            copy@ == self@,
    {
        let reopen_error = match &self.reopen_error {
            Some(text) => Some(text.clone()),
            None => None,
        };
        WorkspaceBackupResult {
            manifest: self.manifest.clone(),
            reopen_ok: self.reopen_ok,
            reopen_error,
        }
    }
}

/// [`WorkspaceBackupResult`] over sequences.
pub struct ResultView {
    pub manifest: Map<Seq<char>, Seq<char>>,
    pub reopen_ok: bool,
    pub reopen_error: Option<Seq<char>>,
}

impl View for WorkspaceBackupResult {
    type V = ResultView;

    open spec fn view(&self) -> ResultView {
        ResultView {
            manifest: self.manifest.checksums@,
            reopen_ok: self.reopen_ok,
            reopen_error: text_of(self.reopen_error),
        }
    }
}

/// Why there is no backup. `E` is the error of the services that the backup calls on; it is
/// handed through as it is.
#[derive(Debug)]
pub enum WorkspaceError<E> {
    /// A service that the backup needs is gone, or the snapshot of the backup failed.
    Internal(String),
    /// The identifier of the workspace is none.
    InvalidWorkspaceId(String),
    /// A service failed.
    Service(E),
    /// The snapshot into the caller's directory failed.
    Snapshot(BackupError),
}

/// [`WorkspaceError`] over sequences.
pub enum WorkspaceErrorView<E> {
    Internal(Seq<char>),
    InvalidWorkspaceId(Seq<char>),
    Service(E),
    Snapshot(ErrorView),
}

impl<E> View for WorkspaceError<E> {
    type V = WorkspaceErrorView<E>;

    open spec fn view(&self) -> WorkspaceErrorView<E> {
        match self {
            WorkspaceError::Internal(text) => WorkspaceErrorView::Internal(text@),
            WorkspaceError::InvalidWorkspaceId(text) => WorkspaceErrorView::InvalidWorkspaceId(
                text@,
            ),
            WorkspaceError::Service(error) => WorkspaceErrorView::Service(*error),
            WorkspaceError::Snapshot(error) => WorkspaceErrorView::Snapshot(error@),
        }
    }
}

/// A backup that came to nothing. What became of the workspace, where it had been closed, is told
/// apart from that: `reopen_error` says why it could not be opened again in full.
#[derive(Debug)]
pub struct WorkspaceFailure<E> {
    pub error: WorkspaceError<E>,
    pub reopen_error: Option<String>,
}

/// [`WorkspaceFailure`] over sequences.
pub struct FailureView<E> {
    pub error: WorkspaceErrorView<E>,
    pub reopen_error: Option<Seq<char>>,
}

impl<E> View for WorkspaceFailure<E> {
    type V = FailureView<E>;

    open spec fn view(&self) -> FailureView<E> {
        FailureView { error: self.error@, reopen_error: text_of(self.reopen_error) }
    }
}

/// An optional text as a sequence of characters.
pub open spec fn text_of(text: Option<String>) -> Option<Seq<char>> {
    match text {
        Some(text) => Some(text@),
        None => None,
    }
}

/// A failure before anything of the workspace was closed.
pub open spec fn unharmed<E>(error: WorkspaceErrorView<E>) -> FailureView<E> {
    FailureView { error, reopen_error: None }
}

/// What a backup needs done next.
#[derive(Debug)]
pub enum Call {
    /// Tell who is signed in.
    GetSession,
    /// Look up what type of workspace this is.
    WorkspaceType { user_id: i64, workspace_id: String },
    /// Close the live folder objects.
    CloseFolder,
    /// Close the live database objects.
    CloseDatabase,
    /// Close the live document objects.
    CloseDocument,
    /// Forget the awareness of the workspace.
    ClearAwareness { workspace: [u8; 16] },
    /// Close the collab database of the user.
    CloseCollabDb { user_id: i64 },
    /// Keep everything from writing to the database of the user. If it fails, nothing is kept from
    /// it.
    PauseWriters { user_id: i64 },
    /// Take the snapshot: of the directory `user` below the data root, into the directory
    /// `staging` below it, or into the one that the caller named.
    TakeSnapshot { user: Vec<String>, staging: Option<Vec<String>> },
    /// Let what was kept from writing to the database go on.
    ResumeWriters { user_id: i64 },
    /// Open the folder again, from what is on the local disk; whether to create it where there is
    /// none is told.
    ReopenFolder { user_id: i64, create_if_not_exist: bool },
    /// Open the database again.
    ReopenDatabase { user_id: i64, is_local: bool },
    /// Open the documents again.
    ReopenDocument { user_id: i64 },
    /// Open the storage again.
    ReopenStorage { workspace: [u8; 16] },
    /// Build the awareness of the workspace again.
    ReinitAwareness {
        user_id: i64,
        user_uuid: [u8; 16],
        workspace: [u8; 16],
        workspace_type: WorkspaceType,
    },
}

/// [`Call`] over sequences.
pub enum CallView {
    GetSession,
    WorkspaceType { user_id: i64, workspace_id: Seq<char> },
    CloseFolder,
    CloseDatabase,
    CloseDocument,
    ClearAwareness { workspace: Seq<u8> },
    CloseCollabDb { user_id: i64 },
    PauseWriters { user_id: i64 },
    TakeSnapshot { user: Seq<Seq<char>>, staging: Option<Seq<Seq<char>>> },
    ResumeWriters { user_id: i64 },
    ReopenFolder { user_id: i64, create_if_not_exist: bool },
    ReopenDatabase { user_id: i64, is_local: bool },
    ReopenDocument { user_id: i64 },
    ReopenStorage { workspace: Seq<u8> },
    ReinitAwareness {
        user_id: i64,
        user_uuid: Seq<u8>,
        workspace: Seq<u8>,
        workspace_type: WorkspaceType,
    },
}

impl View for Call {
    type V = CallView;

    open spec fn view(&self) -> CallView {
        match *self {
            Call::GetSession => CallView::GetSession,
            Call::WorkspaceType { user_id, workspace_id } => CallView::WorkspaceType {
                user_id,
                workspace_id: workspace_id@,
            },
            Call::CloseFolder => CallView::CloseFolder,
            Call::CloseDatabase => CallView::CloseDatabase,
            Call::CloseDocument => CallView::CloseDocument,
            Call::ClearAwareness { workspace } => CallView::ClearAwareness {
                workspace: workspace@,
            },
            Call::CloseCollabDb { user_id } => CallView::CloseCollabDb { user_id },
            Call::PauseWriters { user_id } => CallView::PauseWriters { user_id },
            Call::ResumeWriters { user_id } => CallView::ResumeWriters { user_id },
            Call::TakeSnapshot { user, staging } => CallView::TakeSnapshot {
                user: crate::paths::parts_of(user@),
                staging: match staging {
                    Some(parts) => Some(crate::paths::parts_of(parts@)),
                    None => None,
                },
            },
            Call::ReopenFolder { user_id, create_if_not_exist } => CallView::ReopenFolder {
                user_id,
                create_if_not_exist,
            },
            Call::ReopenDatabase { user_id, is_local } => CallView::ReopenDatabase {
                user_id,
                is_local,
            },
            Call::ReopenDocument { user_id } => CallView::ReopenDocument { user_id },
            Call::ReopenStorage { workspace } => CallView::ReopenStorage { workspace: workspace@ },
            Call::ReinitAwareness { user_id, user_uuid, workspace, workspace_type } =>
                CallView::ReinitAwareness {
                user_id,
                user_uuid: user_uuid@,
                workspace: workspace@,
                workspace_type,
            },
        }
    }
}

/// What came of a call.
#[derive(Debug)]
pub enum Answer<E> {
    /// The session.
    Session(Session),
    /// The type of the workspace.
    WorkspaceType(WorkspaceType),
    /// It was done.
    Done,
    /// The snapshot was taken.
    Manifest(SnapshotManifest),
    /// The snapshot was not taken.
    SnapshotFailed(BackupError),
    /// The service failed; `text` is its error in words.
    Failed { error: E, text: String },
}

/// [`Answer`] over sequences.
pub enum AnswerView<E> {
    Session(SessionView),
    WorkspaceType(WorkspaceType),
    Done,
    Manifest(Map<Seq<char>, Seq<char>>),
    SnapshotFailed(ErrorView),
    Failed { error: E, text: Seq<char> },
}

impl<E> View for Answer<E> {
    type V = AnswerView<E>;

    open spec fn view(&self) -> AnswerView<E> {
        match self {
            Answer::Session(session) => AnswerView::Session(session@),
            Answer::WorkspaceType(workspace_type) => AnswerView::WorkspaceType(*workspace_type),
            Answer::Done => AnswerView::Done,
            Answer::Manifest(manifest) => AnswerView::Manifest(manifest.checksums@),
            Answer::SnapshotFailed(error) => AnswerView::SnapshotFailed(error@),
            Answer::Failed { error, text } => AnswerView::Failed { error: *error, text: text@ },
        }
    }
}

/// What is known of the workspace once it is about to be closed.
pub struct ContextView {
    pub staging: Option<Seq<u8>>,
    pub session: SessionView,
    pub workspace: Seq<u8>,
    pub workspace_type: WorkspaceType,
}

/// What is done before the workspace is opened again, in this order.
#[derive(Debug, Clone, Copy, PartialEq, Eq, Structural)]
pub enum Closing {
    Folder,
    Database,
    Document,
    Awareness,
    CollabDb,
    Writers,
    Snapshot,
}

/// What is opened again, in this order.
#[derive(Debug, Clone, Copy, PartialEq, Eq, Structural)]
pub enum Reopening {
    Writers,
    Folder,
    Database,
    Document,
    Storage,
    Awareness,
}

/// The state of a backup.
pub enum WorkspaceView<E> {
    /// The session is to be found out.
    Starting { staging: Option<Seq<u8>> },
    /// The type of the workspace is to be found out.
    Typing { staging: Option<Seq<u8>>, session: SessionView, workspace: Seq<u8> },
    /// The workspace is being closed, or the snapshot taken.
    Closing { context: ContextView, at: Closing },
    /// The workspace is being opened again; what came of the snapshot is settled. The reason why
    /// the workspace will not be open again in full is kept, if there is one by now.
    Reopening {
        context: ContextView,
        snapshot: Result<Map<Seq<char>, Seq<char>>, WorkspaceErrorView<E>>,
        reopen_error: Option<Seq<char>>,
        at: Reopening,
    },
    /// Over.
    Finished(Result<ResultView, FailureView<E>>),
}

/// The snapshot failed: below the data root this is an internal error of the backup, in the
/// caller's directory it is the caller's to see.
pub open spec fn snapshot_error<E>(
    staging: Option<Seq<u8>>,
    error: ErrorView,
) -> WorkspaceErrorView<E> {
    if staging is Some {
        WorkspaceErrorView::Internal(
            "backup snapshot failed: "@ + crate::error::error_message(error),
        )
    } else {
        WorkspaceErrorView::Snapshot(error)
    }
}

/// The outcome, from what came of the snapshot and of the reopening. Both are told, whichever of
/// them failed.
pub open spec fn conclusion<E>(
    snapshot: Result<Map<Seq<char>, Seq<char>>, WorkspaceErrorView<E>>,
    reopen_error: Option<Seq<char>>,
) -> Result<ResultView, FailureView<E>> {
    match snapshot {
        Ok(manifest) => Ok(
            ResultView { manifest, reopen_ok: reopen_error is None, reopen_error },
        ),
        Err(error) => Err(FailureView { error, reopen_error }),
    }
}

/// The first of two reasons.
pub open spec fn first_of(one: Option<Seq<char>>, other: Option<Seq<char>>) -> Option<Seq<char>> {
    if one is Some {
        one
    } else {
        other
    }
}

/// The backup once the session is known and its workspace identifier was read, or was not.
pub open spec fn with_session<E>(
    staging: Option<Seq<u8>>,
    session: SessionView,
    parsed: Result<Seq<u8>, Seq<char>>,
) -> WorkspaceView<E> {
    match parsed {
        Ok(workspace) => WorkspaceView::Typing { staging, session, workspace },
        Err(text) => WorkspaceView::Finished(
            Err(unharmed(WorkspaceErrorView::InvalidWorkspaceId(text))),
        ),
    }
}

impl<E> WorkspaceView<E> {
    /// What the backup needs next; nothing once it is over.
    pub open spec fn call(self) -> Option<CallView> {
        match self {
            WorkspaceView::Starting { staging } => Some(CallView::GetSession),
            WorkspaceView::Typing { staging, session, workspace } => Some(
                CallView::WorkspaceType {
                    user_id: session.user_id,
                    workspace_id: session.workspace_id,
                },
            ),
            WorkspaceView::Closing { context, at } => Some(
                match at {
                    Closing::Folder => CallView::CloseFolder,
                    Closing::Database => CallView::CloseDatabase,
                    Closing::Document => CallView::CloseDocument,
                    Closing::Awareness => CallView::ClearAwareness {
                        workspace: context.workspace,
                    },
                    Closing::CollabDb => CallView::CloseCollabDb {
                        user_id: context.session.user_id,
                    },
                    Closing::Writers => CallView::PauseWriters {
                        user_id: context.session.user_id,
                    },
                    Closing::Snapshot => CallView::TakeSnapshot {
                        user: crate::paths::user_parts(context.session.user_id as int),
                        staging: match context.staging {
                            Some(id) => Some(crate::paths::staging_parts(id)),
                            None => None,
                        },
                    },
                },
            ),
            WorkspaceView::Reopening { context, snapshot, reopen_error, at } => Some(
                match at {
                    Reopening::Writers => CallView::ResumeWriters {
                        user_id: context.session.user_id,
                    },
                    Reopening::Folder => CallView::ReopenFolder {
                        user_id: context.session.user_id,
                        create_if_not_exist: false,
                    },
                    Reopening::Database => CallView::ReopenDatabase {
                        user_id: context.session.user_id,
                        is_local: context.workspace_type == WorkspaceType::Local,
                    },
                    Reopening::Document => CallView::ReopenDocument {
                        user_id: context.session.user_id,
                    },
                    Reopening::Storage => CallView::ReopenStorage {
                        workspace: context.workspace,
                    },
                    Reopening::Awareness => CallView::ReinitAwareness {
                        user_id: context.session.user_id,
                        user_uuid: context.session.user_uuid,
                        workspace: context.workspace,
                        workspace_type: context.workspace_type,
                    },
                },
            ),
            WorkspaceView::Finished(_) => None,
        }
    }

    /// The answer is one that the backup can go on with.
    pub open spec fn accepts(self, answer: AnswerView<E>) -> bool {
        match self {
            WorkspaceView::Starting { .. } => answer is Session || answer is Failed,
            WorkspaceView::Typing { .. } => answer is WorkspaceType || answer is Failed,
            WorkspaceView::Closing { context, at } => match at {
                Closing::Awareness => answer is Done,
                Closing::Snapshot => answer is Manifest || answer is SnapshotFailed,
                _ => answer is Done || answer is Failed,
            },
            WorkspaceView::Reopening { .. } => answer is Done || answer is Failed,
            WorkspaceView::Finished(_) => false,
        }
    }

    /// The backup after an answer.
    pub open spec fn step(self, answer: AnswerView<E>) -> WorkspaceView<E> {
        match self {
            WorkspaceView::Starting { staging } => match answer {
                AnswerView::Session(session) => with_session(
                    staging,
                    session,
                    crate::uuids::parsed_uuid(session.workspace_id),
                ),
                AnswerView::Failed { error, text } => WorkspaceView::Finished(
                    Err(unharmed(WorkspaceErrorView::Service(error))),
                ),
                _ => self,
            },
            WorkspaceView::Typing { staging, session, workspace } => match answer {
                AnswerView::WorkspaceType(workspace_type) => WorkspaceView::Closing {
                    context: ContextView { staging, session, workspace, workspace_type },
                    at: Closing::Folder,
                },
                AnswerView::Failed { error, text } => WorkspaceView::Finished(
                    Err(unharmed(WorkspaceErrorView::Service(error))),
                ),
                _ => self,
            },
            WorkspaceView::Closing { context, at } => match (at, answer) {
                (Closing::Folder, _) => WorkspaceView::Closing { context, at: Closing::Database },
                (Closing::Database, _) => WorkspaceView::Closing {
                    context,
                    at: Closing::Document,
                },
                (Closing::Document, _) => WorkspaceView::Closing {
                    context,
                    at: Closing::Awareness,
                },
                (Closing::Awareness, _) => WorkspaceView::Closing {
                    context,
                    at: Closing::CollabDb,
                },
                (Closing::CollabDb, AnswerView::Failed { error, text }) =>
                    WorkspaceView::Reopening {
                    context,
                    snapshot: Err(WorkspaceErrorView::Service(error)),
                    reopen_error: None,
                    at: Reopening::Folder,
                },
                (Closing::CollabDb, _) => WorkspaceView::Closing { context, at: Closing::Writers },
                (Closing::Writers, AnswerView::Failed { error, text }) =>
                    WorkspaceView::Reopening {
                    context,
                    snapshot: Err(WorkspaceErrorView::Service(error)),
                    reopen_error: None,
                    at: Reopening::Folder,
                },
                (Closing::Writers, _) => WorkspaceView::Closing { context, at: Closing::Snapshot },
                (Closing::Snapshot, AnswerView::Manifest(manifest)) => WorkspaceView::Reopening {
                    context,
                    snapshot: Ok(manifest),
                    reopen_error: None,
                    at: Reopening::Writers,
                },
                (Closing::Snapshot, AnswerView::SnapshotFailed(error)) =>
                    WorkspaceView::Reopening {
                    context,
                    snapshot: Err(snapshot_error(context.staging, error)),
                    reopen_error: None,
                    at: Reopening::Writers,
                },
                _ => self,
            },
            WorkspaceView::Reopening { context, snapshot, reopen_error, at } => match (at, answer) {
                (Reopening::Writers, AnswerView::Failed { error, text }) =>
                    WorkspaceView::Reopening {
                    context,
                    snapshot,
                    reopen_error: first_of(reopen_error, Some(text)),
                    at: Reopening::Folder,
                },
                (Reopening::Writers, _) => WorkspaceView::Reopening {
                    context,
                    snapshot,
                    reopen_error,
                    at: Reopening::Folder,
                },
                (Reopening::Storage, _) => WorkspaceView::Reopening {
                    context,
                    snapshot,
                    reopen_error,
                    at: Reopening::Awareness,
                },
                (_, AnswerView::Failed { error, text }) => WorkspaceView::Finished(
                    conclusion(snapshot, first_of(reopen_error, Some(text))),
                ),
                (Reopening::Folder, _) => WorkspaceView::Reopening {
                    context,
                    snapshot,
                    reopen_error,
                    at: Reopening::Database,
                },
                (Reopening::Database, _) => WorkspaceView::Reopening {
                    context,
                    snapshot,
                    reopen_error,
                    at: Reopening::Document,
                },
                (Reopening::Document, _) => WorkspaceView::Reopening {
                    context,
                    snapshot,
                    reopen_error,
                    at: Reopening::Storage,
                },
                (Reopening::Awareness, _) => WorkspaceView::Finished(
                    conclusion(snapshot, reopen_error),
                ),
            },
            WorkspaceView::Finished(_) => self,
        }
    }
}

/// What is known of the workspace once it is about to be closed.
struct Context {
    staging: Staging,
    session: Session,
    workspace: [u8; 16],
    workspace_type: WorkspaceType,
}

spec fn context_of(context: Context) -> ContextView {
    ContextView {
        staging: staging_of(context.staging),
        session: context.session@,
        workspace: context.workspace@,
        workspace_type: context.workspace_type,
    }
}

spec fn settled<E>(
    snapshot: Result<SnapshotManifest, WorkspaceError<E>>,
) -> Result<Map<Seq<char>, Seq<char>>, WorkspaceErrorView<E>> {
    match snapshot {
        Ok(manifest) => Ok(manifest.checksums@),
        Err(error) => Err(error@),
    }
}

enum WorkspaceState<E> {
    Starting { staging: Staging },
    Typing { staging: Staging, session: Session, workspace: [u8; 16] },
    Closing { context: Context, at: Closing },
    Reopening {
        context: Context,
        snapshot: Result<SnapshotManifest, WorkspaceError<E>>,
        reopen_error: Option<String>,
        at: Reopening,
    },
    Finished(Result<WorkspaceBackupResult, WorkspaceFailure<E>>),
}

/// Backs up a workspace, asking for what it needs step by step.
pub struct WorkspaceJob<E> {
    state: WorkspaceState<E>,
}

impl<E> View for WorkspaceJob<E> {
    type V = WorkspaceView<E>;

    closed spec fn view(&self) -> WorkspaceView<E> {
        match self.state {
            WorkspaceState::Starting { staging } => WorkspaceView::Starting {
                staging: staging_of(staging),
            },
            WorkspaceState::Typing { staging, session, workspace } => WorkspaceView::Typing {
                staging: staging_of(staging),
                session: session@,
                workspace: workspace@,
            },
            WorkspaceState::Closing { context, at } => WorkspaceView::Closing {
                context: context_of(context),
                at,
            },
            WorkspaceState::Reopening { context, snapshot, reopen_error, at } =>
                WorkspaceView::Reopening {
                context: context_of(context),
                snapshot: settled(snapshot),
                reopen_error: text_of(reopen_error),
                at,
            },
            WorkspaceState::Finished(Ok(result)) => WorkspaceView::Finished(Ok(result@)),
            WorkspaceState::Finished(Err(failure)) => WorkspaceView::Finished(Err(failure@)),
        }
    }
}

/// Which of the services that a backup needs are still there.
#[derive(Debug, Clone, Copy, PartialEq, Eq, Structural)]
pub struct LiveManagers {
    pub user: bool,
    pub folder: bool,
    pub database: bool,
    pub document: bool,
    pub storage: bool,
}

/// What to say of the first service that is gone, if one is.
pub open spec fn missing_manager(managers: LiveManagers) -> Option<Seq<char>> {
    if !managers.user {
        Some("UserManager no longer available"@)
    } else if !managers.folder {
        Some("FolderManager no longer available"@)
    } else if !managers.database {
        Some("DatabaseManager no longer available"@)
    } else if !managers.document {
        Some("DocumentManager no longer available"@)
    } else if !managers.storage {
        Some("StorageManager no longer available"@)
    } else {
        None
    }
}

/// What to say of the first service that is gone, if one is.
pub fn missing_manager_text(managers: LiveManagers) -> (text: Option<String>)
    ensures
        text_of(text) == missing_manager(managers),
{
    if !managers.user {
        Some("UserManager no longer available".to_owned())
    } else if !managers.folder {
        Some("FolderManager no longer available".to_owned())
    } else if !managers.database {
        Some("DatabaseManager no longer available".to_owned())
    } else if !managers.document {
        Some("DocumentManager no longer available".to_owned())
    } else if !managers.storage {
        Some("StorageManager no longer available".to_owned())
    } else {
        None
    }
}

/// The backup of the workspace in use into the staging directory with the identifier `id`, as a
/// job. The services that it needs are there.
pub fn workspace_backup_with_id<E>(id: [u8; 16]) -> (job: WorkspaceJob<E>)
    ensures
        job@ == derived_start::<E>(id@),
{
    WorkspaceJob { state: WorkspaceState::Starting { staging: Staging::Derived(id) } }
}

/// The backup of the workspace in use, as a job; or the error, where a service is gone. The
/// staging directory is derived here, below the data root, under a new random identifier: no
/// caller has a say in it.
pub fn execute_workspace_backup<E>(managers: LiveManagers) -> (job: Result<
    WorkspaceJob<E>,
    WorkspaceFailure<E>,
>)
    ensures
        match job {
            Ok(job) => missing_manager(managers) is None && exists|id: Seq<u8>|
                crate::uuids::marked_random(id) && job@ == #[trigger] derived_start::<E>(id),
            Err(failure) => missing_manager(managers) is Some && failure@ == unharmed(
                WorkspaceErrorView::<E>::Internal(missing_manager(managers)->0),
            ),
        },
{
    match missing_manager_text(managers) {
        Some(text) => Err(
            WorkspaceFailure { error: WorkspaceError::Internal(text), reopen_error: None },
        ),
        None => {
            let id = random_uuid();
            Ok(workspace_backup_with_id(id))
        },
    }
}

/// A backup that is to use the staging directory with the given identifier.
pub open spec fn derived_start<E>(id: Seq<u8>) -> WorkspaceView<E> {
    WorkspaceView::Starting { staging: Some(id) }
}

/// The backup of the workspace in use into a directory that the caller names, as a job.
pub fn run_workspace_backup<E>() -> (job: WorkspaceJob<E>)
    ensures
        job@ == (WorkspaceView::<E>::Starting { staging: None }),
{
    WorkspaceJob { state: WorkspaceState::Starting { staging: Staging::Given } }
}

/// The backup once the session is known and its workspace identifier was read, or was not.
pub fn backup_with_session<E>(
    staging: Staging,
    session: Session,
    parsed: Result<[u8; 16], String>,
) -> (job: WorkspaceJob<E>)
    ensures
        match parsed {
            Ok(workspace) => job@ == with_session::<E>(
                staging_of(staging),
                session@,
                Ok(workspace@),
            ),
            Err(text) => job@ == with_session::<E>(staging_of(staging), session@, Err(text@)),
        },
{
    match parsed {
        Ok(workspace) => WorkspaceJob {
            state: WorkspaceState::Typing { staging, session, workspace },
        },
        Err(text) => WorkspaceJob::failed(WorkspaceError::InvalidWorkspaceId(text)),
    }
}

/// The error of a backup whose snapshot failed.
fn snapshot_failure<E>(staging: &Staging, error: BackupError) -> (failure: WorkspaceError<E>)
    ensures
        failure@ == snapshot_error::<E>(staging_of(*staging), error@),
{
    match staging {
        Staging::Derived(_) => WorkspaceError::Internal(
            join2("backup snapshot failed: ", error.message().as_str()),
        ),
        Staging::Given => WorkspaceError::Snapshot(error),
    }
}

/// The outcome, from what came of the snapshot and of the reopening.
fn conclude<E>(
    snapshot: Result<SnapshotManifest, WorkspaceError<E>>,
    reopen_error: Option<String>,
) -> (job: WorkspaceJob<E>)
    ensures
        job@ == WorkspaceView::Finished(
            conclusion(settled(snapshot), text_of(reopen_error)),
        ),
{
    match snapshot {
        Ok(manifest) => {
            let reopen_ok = reopen_error.is_none();
            WorkspaceJob {
                state: WorkspaceState::Finished(
                    Ok(WorkspaceBackupResult { manifest, reopen_ok, reopen_error }),
                ),
            }
        },
        Err(error) => WorkspaceJob {
            state: WorkspaceState::Finished(Err(WorkspaceFailure { error, reopen_error })),
        },
    }
}

/// The reason that came first.
fn earlier(one: Option<String>, other: String) -> (first: Option<String>)
    ensures
        text_of(first) == first_of(text_of(one), Some(other@)),
{
    match one {
        Some(text) => Some(text),
        None => Some(other),
    }
}

impl<E> WorkspaceJob<E> {
    fn closing(context: Context, at: Closing) -> (job: WorkspaceJob<E>)
        ensures
            job@ == (WorkspaceView::<E>::Closing { context: context_of(context), at }),
    {
        WorkspaceJob { state: WorkspaceState::Closing { context, at } }
    }

    fn reopening(
        context: Context,
        snapshot: Result<SnapshotManifest, WorkspaceError<E>>,
        reopen_error: Option<String>,
        at: Reopening,
    ) -> (job: WorkspaceJob<E>)
        ensures
            job@ == (WorkspaceView::<E>::Reopening {
                context: context_of(context),
                snapshot: settled(snapshot),
                reopen_error: text_of(reopen_error),
                at,
            }),
    {
        WorkspaceJob { state: WorkspaceState::Reopening { context, snapshot, reopen_error, at } }
    }

    fn failed(error: WorkspaceError<E>) -> (job: WorkspaceJob<E>)
        ensures
            job@ == WorkspaceView::<E>::Finished(Err(unharmed(error@))),
    {
        WorkspaceJob {
            state: WorkspaceState::Finished(Err(WorkspaceFailure { error, reopen_error: None })),
        }
    }

    /// What the backup needs next; nothing once it is over.
    pub fn call(&self) -> (call: Option<Call>)
        ensures
            call is Some <==> self@.call() is Some,
            call is Some ==> self@.call() == Some(call->0@),
    {
        match &self.state {
            WorkspaceState::Starting { staging } => Some(Call::GetSession),
            WorkspaceState::Typing { staging, session, workspace } => Some(
                Call::WorkspaceType {
                    user_id: session.user_id,
                    workspace_id: session.workspace_id.clone(),
                },
            ),
            WorkspaceState::Closing { context, at } => match at {
                Closing::Folder => Some(Call::CloseFolder),
                Closing::Database => Some(Call::CloseDatabase),
                Closing::Document => Some(Call::CloseDocument),
                Closing::Awareness => Some(Call::ClearAwareness { workspace: context.workspace }),
                Closing::CollabDb => Some(
                    Call::CloseCollabDb { user_id: context.session.user_id },
                ),
                Closing::Writers => Some(Call::PauseWriters { user_id: context.session.user_id }),
                Closing::Snapshot => {
                    let user = user_names(context.session.user_id);
                    let staging = match &context.staging {
                        Staging::Derived(id) => Some(staging_names(*id)),
                        Staging::Given => None,
                    };
                    Some(Call::TakeSnapshot { user, staging })
                },
            },
            WorkspaceState::Reopening { context, snapshot, reopen_error, at } => match at {
                Reopening::Writers => Some(
                    Call::ResumeWriters { user_id: context.session.user_id },
                ),
                Reopening::Folder => Some(
                    Call::ReopenFolder {
                        user_id: context.session.user_id,
                        create_if_not_exist: false,
                    },
                ),
                Reopening::Database => Some(
                    Call::ReopenDatabase {
                        user_id: context.session.user_id,
                        is_local: context.workspace_type.is_local(),
                    },
                ),
                Reopening::Document => Some(
                    Call::ReopenDocument { user_id: context.session.user_id },
                ),
                Reopening::Storage => Some(Call::ReopenStorage { workspace: context.workspace }),
                Reopening::Awareness => Some(
                    Call::ReinitAwareness {
                        user_id: context.session.user_id,
                        user_uuid: context.session.user_uuid,
                        workspace: context.workspace,
                        workspace_type: context.workspace_type,
                    },
                ),
            },
            WorkspaceState::Finished(_) => None,
        }
    }

    /// Whether the backup can go on with an answer.
    pub fn accepts(&self, answer: &Answer<E>) -> (fits: bool)
        ensures
            fits == self@.accepts(answer@),
    {
        match (&self.state, answer) {
            (WorkspaceState::Starting { .. }, Answer::Session(_)) => true,
            (WorkspaceState::Starting { .. }, Answer::Failed { .. }) => true,
            (WorkspaceState::Typing { .. }, Answer::WorkspaceType(_)) => true,
            (WorkspaceState::Typing { .. }, Answer::Failed { .. }) => true,
            (WorkspaceState::Closing { context, at }, _) => match (at, answer) {
                (Closing::Awareness, Answer::Done) => true,
                (Closing::Awareness, _) => false,
                (Closing::Snapshot, Answer::Manifest(_)) => true,
                (Closing::Snapshot, Answer::SnapshotFailed(_)) => true,
                (Closing::Snapshot, _) => false,
                (_, Answer::Done) => true,
                (_, Answer::Failed { .. }) => true,
                _ => false,
            },
            (WorkspaceState::Reopening { .. }, Answer::Done) => true,
            (WorkspaceState::Reopening { .. }, Answer::Failed { .. }) => true,
            _ => false,
        }
    }

    /// Goes on with an answer.
    pub fn step(self, answer: Answer<E>) -> (job: WorkspaceJob<E>)
        requires
            self@.accepts(answer@),
        ensures
            job@ == self@.step(answer@),
    {
        match self.state {
            WorkspaceState::Starting { staging } => match answer {
                Answer::Session(session) => {
                    let parsed = parse_uuid(session.workspace_id.as_str());
                    backup_with_session(staging, session, parsed)
                },
                Answer::Failed { error, text } => Self::failed(WorkspaceError::Service(error)),
                _ => WorkspaceJob { state: WorkspaceState::Starting { staging } },
            },
            WorkspaceState::Typing { staging, session, workspace } => match answer {
                Answer::WorkspaceType(workspace_type) => Self::closing(
                    Context { staging, session, workspace, workspace_type },
                    Closing::Folder,
                ),
                Answer::Failed { error, text } => Self::failed(WorkspaceError::Service(error)),
                _ => WorkspaceJob {
                    state: WorkspaceState::Typing { staging, session, workspace },
                },
            },
            WorkspaceState::Closing { context, at } => match (at, answer) {
                (Closing::Folder, _) => Self::closing(context, Closing::Database),
                (Closing::Database, _) => Self::closing(context, Closing::Document),
                (Closing::Document, _) => Self::closing(context, Closing::Awareness),
                (Closing::Awareness, _) => Self::closing(context, Closing::CollabDb),
                (Closing::CollabDb, Answer::Failed { error, text }) => Self::reopening(
                    context,
                    Err(WorkspaceError::Service(error)),
                    None,
                    Reopening::Folder,
                ),
                (Closing::CollabDb, _) => Self::closing(context, Closing::Writers),
                (Closing::Writers, Answer::Failed { error, text }) => Self::reopening(
                    context,
                    Err(WorkspaceError::Service(error)),
                    None,
                    Reopening::Folder,
                ),
                (Closing::Writers, _) => Self::closing(context, Closing::Snapshot),
                (Closing::Snapshot, Answer::Manifest(manifest)) => Self::reopening(
                    context,
                    Ok(manifest),
                    None,
                    Reopening::Writers,
                ),
                (Closing::Snapshot, Answer::SnapshotFailed(error)) => {
                    let failure = snapshot_failure(&context.staging, error);
                    Self::reopening(context, Err(failure), None, Reopening::Writers)
                },
                (Closing::Snapshot, _) => Self::closing(context, Closing::Snapshot),
            },
            WorkspaceState::Reopening { context, snapshot, reopen_error, at } => match (
                at,
                answer,
            ) {
                (Reopening::Writers, Answer::Failed { error, text }) => Self::reopening(
                    context,
                    snapshot,
                    earlier(reopen_error, text),
                    Reopening::Folder,
                ),
                (Reopening::Writers, _) => Self::reopening(
                    context,
                    snapshot,
                    reopen_error,
                    Reopening::Folder,
                ),
                (Reopening::Storage, _) => Self::reopening(
                    context,
                    snapshot,
                    reopen_error,
                    Reopening::Awareness,
                ),
                (_, Answer::Failed { error, text }) => conclude(
                    snapshot,
                    earlier(reopen_error, text),
                ),
                (Reopening::Folder, _) => Self::reopening(
                    context,
                    snapshot,
                    reopen_error,
                    Reopening::Database,
                ),
                (Reopening::Database, _) => Self::reopening(
                    context,
                    snapshot,
                    reopen_error,
                    Reopening::Document,
                ),
                (Reopening::Document, _) => Self::reopening(
                    context,
                    snapshot,
                    reopen_error,
                    Reopening::Storage,
                ),
                (Reopening::Awareness, _) => conclude(snapshot, reopen_error),
            },
            WorkspaceState::Finished(result) => WorkspaceJob {
                state: WorkspaceState::Finished(result),
            },
        }
    }

    /// How the backup ended, if it is over.
    pub fn outcome(self) -> (outcome: Option<Result<WorkspaceBackupResult, WorkspaceFailure<E>>>)
        ensures
            match outcome {
                Some(Ok(result)) => self@ == WorkspaceView::<E>::Finished(Ok(result@)),
                Some(Err(failure)) => self@ == WorkspaceView::<E>::Finished(Err(failure@)),
                None => !(self@ is Finished),
            },
    {
        match self.state {
            WorkspaceState::Finished(result) => Some(result),
            _ => None,
        }
    }
}

/// What to warn of after a backup: the workspace that could not be opened again.
pub open spec fn warning(result: ResultView) -> Option<Seq<char>> {
    if result.reopen_ok {
        None
    } else {
        Some(
            "Backup completed but workspace reopen failed: "@ + match result.reopen_error {
                Some(text) => text,
                None => "unknown error"@,
            },
        )
    }
}

/// What to warn of after a backup, if anything.
pub fn reopen_warning(result: &WorkspaceBackupResult) -> (text: Option<String>)
    ensures
        match text {
            Some(text) => warning(result@) == Some(text@),
            None => warning(result@) is None,
        },
{
    if result.reopen_ok {
        None
    } else {
        let intro = "Backup completed but workspace reopen failed: ";
        match &result.reopen_error {
            Some(error) => Some(join2(intro, error.as_str())),
            None => Some(join2(intro, "unknown error")),
        }
    }
}

/// What to warn of after a backup that came to nothing: the workspace that could not be opened
/// again.
pub open spec fn failure_warning_chars<E>(failure: FailureView<E>) -> Option<Seq<char>> {
    match failure.reopen_error {
        Some(text) => Some("Backup failed and workspace reopen failed: "@ + text),
        None => None,
    }
}

/// What to warn of after a backup that came to nothing, if anything.
pub fn failure_warning<E>(failure: &WorkspaceFailure<E>) -> (text: Option<String>)
    ensures
        text_of(text) == failure_warning_chars(failure@),
{
    match &failure.reopen_error {
        Some(error) => Some(join2("Backup failed and workspace reopen failed: ", error.as_str())),
        None => None,
    }
}

} // verus!
