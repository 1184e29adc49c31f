//! What the jobs can be told, and how requests, replies, calls and answers are seen.
use vstd::prelude::*;

use crate::checksum::HashView;
use crate::copy::CopyView;
use crate::error::{BackupError, ErrorView};
use crate::io::{Place, Reply, ReplyView, Request, RequestView, Spot};
use crate::restore::RestoreView;
use crate::snapshot::SnapshotView;
use crate::workspace::{
    Answer, AnswerView, Call, Staging, WorkspaceBackupResult, WorkspaceError,
    WorkspaceErrorView, WorkspaceFailure,
};
use crate::world::Machine;

verus! {

/// The reply is one that there can be to the request: what was asked for, or that it failed.
pub open spec fn answers_to(request: RequestView, reply: ReplyView) -> bool {
    reply is Failed || match request {
        RequestView::ReadFile(_) => reply is Data,
        RequestView::NextEntry(_) => reply is Entry || reply is EndOfDir,
        RequestView::ListDir(_) => reply is Names,
        RequestView::Inspect(_) => reply is Kind,
        _ => reply is Done,
    }
}

/// A copy takes exactly the replies that there can be to what it asks for.
pub proof fn law_copy_takes_answers(job: CopyView, reply: ReplyView)
    ensures
        crate::copy::copy_accepts(job, reply) <==> job.request() is Some && answers_to(
            job.request()->0,
            reply,
        ),
{
}

/// A checksum takes no reply but those that there can be to what it asks for, and a failure at any
/// point. It takes every such reply as long as the message keeps within what SHA-256 is defined
/// for.
pub proof fn law_checksum_takes_answers(job: HashView, reply: ReplyView)
    ensures
        crate::checksum::hash_accepts(job, reply) ==> job.request() is Some && answers_to(
            job.request()->0,
            reply,
        ),
        job.request() is Some && reply is Failed ==> crate::checksum::hash_accepts(job, reply),
        job.request() is Some && answers_to(job.request()->0, reply)
            && crate::snapshot_laws::hash_has_room(job, reply) ==> crate::checksum::hash_accepts(
            job,
            reply,
        ),
{
}

/// A snapshot takes no reply but those that there can be to what it asks for, and a failure at any
/// point. It takes every such reply as long as what it takes a checksum of keeps within what
/// SHA-256 is defined for.
pub proof fn law_snapshot_takes_answers(job: SnapshotView, reply: ReplyView)
    ensures
        crate::snapshot::snapshot_accepts(job, reply) ==> job.request() is Some && answers_to(
            job.request()->0,
            reply,
        ),
        job.request() is Some && reply is Failed ==> crate::snapshot::snapshot_accepts(job, reply),
        ({
            &&& job.request() is Some
            &&& answers_to(job.request()->0, reply)
            &&& reply matches ReplyView::Data(bytes) ==> bytes.len() <= crate::digest::MAX_MESSAGE
            &&& job matches SnapshotView::Hashing { fresh, database, hash }
                ==> crate::snapshot_laws::hash_has_room(hash, reply)
        }) ==> crate::snapshot::snapshot_accepts(job, reply),
{
    match job {
        SnapshotView::Copying { fresh, database, copy } => {
            law_copy_takes_answers(copy, reply);
        },
        SnapshotView::Hashing { fresh, database, hash } => {
            law_checksum_takes_answers(hash, reply);
        },
        _ => {},
    }
}

/// A restoration takes no reply but those that there can be to what it asks for, and a failure at
/// any point. It takes every such reply as long as what it takes a checksum of keeps within what
/// SHA-256 is defined for.
pub proof fn law_restore_takes_answers(job: RestoreView, reply: ReplyView)
    ensures
        crate::restore::restore_accepts(job, reply) ==> job.request() is Some && answers_to(
            job.request()->0,
            reply,
        ),
        job.request() is Some && reply is Failed ==> crate::restore::restore_accepts(job, reply),
        ({
            &&& job.request() is Some
            &&& answers_to(job.request()->0, reply)
            &&& reply matches ReplyView::Data(bytes) ==> bytes.len() <= crate::digest::MAX_MESSAGE
            &&& job->phase matches crate::restore::RestorePhaseView::Hashing(hash)
                ==> crate::snapshot_laws::hash_has_room(hash, reply)
        }) ==> crate::restore::restore_accepts(job, reply),
{
    if let RestoreView::Active { manifest, phase } = job {
        match phase {
            crate::restore::RestorePhaseView::Copying(copy) => {
                law_copy_takes_answers(copy, reply);
            },
            crate::restore::RestorePhaseView::Hashing(hash) => {
                law_checksum_takes_answers(hash, reply);
            },
            _ => {},
        }
    }
}

/// The first failure that a copy meets is what it ends with: nothing more is asked for, and no
/// later reply makes it a success.
pub proof fn law_failed_copy_is_given_up(
    job: CopyView,
    text: Seq<char>,
    later: Seq<ReplyView>,
)
    requires
        job.request() is Some,
    ensures
        crate::world::run(job.step(ReplyView::Failed(text)), later) == CopyView::Finished(
            Err(ErrorView::Io(text)),
        ),
    decreases later.len(),
{
    if later.len() > 0 {
        let shorter = later.drop_last();
        law_failed_copy_is_given_up(job, text, shorter);
        crate::world::lemma_run_longer(
            job.step(ReplyView::Failed(text)),
            shorter,
            later.last(),
        );
        assert(shorter.push(later.last()) =~= later);
    }
}

/// The first failure that a checksum meets is what it ends with: nothing more is asked for, and no
/// later reply makes it a checksum.
pub proof fn law_failed_checksum_is_given_up(
    job: HashView,
    text: Seq<char>,
    later: Seq<ReplyView>,
)
    requires
        job.request() is Some,
    ensures
        crate::world::run(job.step(ReplyView::Failed(text)), later) == HashView::Finished(
            Err(ErrorView::Io(text)),
        ),
    decreases later.len(),
{
    if later.len() > 0 {
        let shorter = later.drop_last();
        law_failed_checksum_is_given_up(job, text, shorter);
        crate::world::lemma_run_longer(
            job.step(ReplyView::Failed(text)),
            shorter,
            later.last(),
        );
        assert(shorter.push(later.last()) =~= later);
    }
}

/// `spot` is the path of `place`: the same area, and name by name the same bytes.
pub open spec fn shows(spot: Spot, place: Place) -> bool {
    &&& spot.0 == place.area
    &&& spot.1.len() == place.path@.len()
    &&& forall|i: int| 0 <= i < spot.1.len() ==> #[trigger] spot.1[i] == place.path@[i]@
}

/// A request is seen as the operation that it is, on the paths that it names.
pub proof fn law_request_is_seen_as_it_is(request: Request)
    ensures
        match request {
            Request::CreateDirAll(place) => request@ is CreateDirAll && shows(
                request@->CreateDirAll_0,
                place,
            ),
            Request::VacuumInto { from, to } => request@ is VacuumInto && shows(
                request@->VacuumInto_from,
                from,
            ) && shows(request@->VacuumInto_to, to),
            Request::ReadFile(place) => request@ is ReadFile && shows(request@->ReadFile_0, place),
            Request::OpenDir(place) => request@ is OpenDir && shows(request@->OpenDir_0, place),
            Request::NextEntry(place) => request@ is NextEntry && shows(
                request@->NextEntry_0,
                place,
            ),
            Request::CopyFile { from, to } => request@ is CopyFile && shows(
                request@->CopyFile_from,
                from,
            ) && shows(request@->CopyFile_to, to),
            Request::ListDir(place) => request@ is ListDir && shows(request@->ListDir_0, place),
            Request::Inspect(place) => request@ is Inspect && shows(request@->Inspect_0, place),
            Request::RemoveFile(place) => request@ is RemoveFile && shows(
                request@->RemoveFile_0,
                place,
            ),
            Request::RemoveDirAll(place) => request@ is RemoveDirAll && shows(
                request@->RemoveDirAll_0,
                place,
            ),
        },
{
}

/// A reply is seen as what it is, with all that it holds.
pub proof fn law_reply_is_seen_as_it_is(reply: Reply)
    ensures
        match reply {
            Reply::Done => reply@ is Done,
            Reply::Data(bytes) => reply@ == ReplyView::Data(bytes@),
            Reply::Entry { name, is_dir } => reply@ is Entry && reply@->name == name@
                && reply@->is_dir == is_dir,
            Reply::EndOfDir => reply@ is EndOfDir,
            Reply::Names(names) => {
                &&& reply@ is Names
                &&& reply@->Names_0.len() == names@.len()
                &&& forall|i: int|
                    0 <= i < names@.len() ==> #[trigger] reply@->Names_0[i] == names@[i]@
            },
            Reply::Kind(kind) => reply@ == ReplyView::Kind(kind),
            Reply::Failed(text) => reply@ == ReplyView::Failed(text@),
        },
{
}

/// An error is seen as what it is, with its text.
pub proof fn law_error_is_seen_as_it_is(error: BackupError)
    ensures
        match error {
            BackupError::Io(text) => error@ == ErrorView::Io(text@),
            BackupError::Snapshot(text) => error@ == ErrorView::Snapshot(text@),
        },
{
}

/// A call is seen as what it is, with all that it carries.
pub proof fn law_call_is_seen_as_it_is(call: Call)
    ensures
        match call {
            Call::GetSession => call@ is GetSession,
            Call::WorkspaceType { user_id, workspace_id } => call@ is WorkspaceType
                && call@->WorkspaceType_user_id == user_id && call@->workspace_id == workspace_id@,
            Call::CloseFolder => call@ is CloseFolder,
            Call::CloseDatabase => call@ is CloseDatabase,
            Call::CloseDocument => call@ is CloseDocument,
            Call::ClearAwareness { workspace } => call@ is ClearAwareness
                && call@->ClearAwareness_workspace == workspace@,
            Call::CloseCollabDb { user_id } => call@ is CloseCollabDb
                && call@->CloseCollabDb_user_id == user_id,
            Call::PauseWriters { user_id } => call@ is PauseWriters && call@->PauseWriters_user_id
                == user_id,
            Call::TakeSnapshot { user, staging } => {
                &&& call@ is TakeSnapshot
                &&& call@->user.len() == user@.len()
                &&& forall|i: int| 0 <= i < user@.len() ==> #[trigger] call@->user[i] == user@[i]@
                &&& call@->staging is Some <==> staging is Some
                &&& staging is Some ==> {
                    &&& call@->staging->0.len() == staging->0@.len()
                    &&& forall|i: int|
                        0 <= i < staging->0@.len() ==> #[trigger] call@->staging->0[i]
                            == staging->0@[i]@
                }
            },
            Call::ResumeWriters { user_id } => call@ is ResumeWriters
                && call@->ResumeWriters_user_id == user_id,
            Call::ReopenFolder { user_id, create_if_not_exist } => call@ is ReopenFolder
                && call@->ReopenFolder_user_id == user_id && call@->create_if_not_exist
                == create_if_not_exist,
            Call::ReopenDatabase { user_id, is_local } => call@ is ReopenDatabase
                && call@->ReopenDatabase_user_id == user_id && call@->is_local == is_local,
            Call::ReopenDocument { user_id } => call@ is ReopenDocument
                && call@->ReopenDocument_user_id == user_id,
            Call::ReopenStorage { workspace } => call@ is ReopenStorage
                && call@->ReopenStorage_workspace == workspace@,
            Call::ReinitAwareness { user_id, user_uuid, workspace, workspace_type } => {
                &&& call@ is ReinitAwareness
                &&& call@->ReinitAwareness_user_id == user_id
                &&& call@->user_uuid == user_uuid@
                &&& call@->ReinitAwareness_workspace == workspace@
                &&& call@->workspace_type == workspace_type
            },
        },
{
}

/// An answer is seen as what it is, with all that it holds.
pub proof fn law_answer_is_seen_as_it_is<E>(answer: Answer<E>)
    ensures
        match answer {
            Answer::Session(session) => {
                &&& answer@ is Session
                &&& answer@->Session_0.user_id == session.user_id
                &&& answer@->Session_0.user_uuid == session.user_uuid@
                &&& answer@->Session_0.workspace_id == session.workspace_id@
            },
            Answer::WorkspaceType(workspace_type) => answer@ == AnswerView::<E>::WorkspaceType(
                workspace_type,
            ),
            Answer::Done => answer@ is Done,
            Answer::Manifest(manifest) => answer@ == AnswerView::<E>::Manifest(
                manifest.checksums@,
            ),
            Answer::SnapshotFailed(error) => answer@ == AnswerView::<E>::SnapshotFailed(error@),
            Answer::Failed { error, text } => answer@ is Failed && answer@->error == error
                && answer@->text == text@,
        },
{
}

/// The outcome of a backup is seen as what it is, with all that it holds.
pub proof fn law_outcome_is_seen_as_it_is<E>(
    result: WorkspaceBackupResult,
    failure: WorkspaceFailure<E>,
)
    ensures
        result@.manifest == result.manifest.checksums@,
        result@.reopen_ok == result.reopen_ok,
        result@.reopen_error is Some <==> result.reopen_error is Some,
        result.reopen_error matches Some(text) ==> result@.reopen_error == Some(text@),
        failure@.reopen_error is Some <==> failure.reopen_error is Some,
        failure.reopen_error matches Some(text) ==> failure@.reopen_error == Some(text@),
        match failure.error {
            WorkspaceError::Internal(text) => failure@.error == WorkspaceErrorView::<E>::Internal(
                text@,
            ),
            WorkspaceError::InvalidWorkspaceId(text) => failure@.error == WorkspaceErrorView::<
                E,
            >::InvalidWorkspaceId(text@),
            WorkspaceError::Service(error) => failure@.error == WorkspaceErrorView::<E>::Service(
                error,
            ),
            WorkspaceError::Snapshot(error) => failure@.error == WorkspaceErrorView::<
                E,
            >::Snapshot(error@),
        },
{
}

/// A staging directory is seen as the one with its identifier, or as the caller's.
pub proof fn law_staging_is_seen_as_it_is(staging: Staging)
    ensures
        match staging {
            Staging::Derived(id) => crate::workspace::staging_of(staging) == Some(id@),
            Staging::Given => crate::workspace::staging_of(staging) is None,
        },
{
}

} // verus!
