//! What holds of every backup of a workspace, whatever the services answer.
use vstd::prelude::*;

use crate::workspace::{
    AnswerView, CallView, Closing, ContextView, FailureView, LiveManagers, Reopening, ResultView,
    WorkspaceErrorView, WorkspaceType, WorkspaceView,
};

verus! {

/// The backup after all of `answers`.
pub open spec fn answered<E>(
    job: WorkspaceView<E>,
    answers: Seq<AnswerView<E>>,
) -> WorkspaceView<E>
    decreases answers.len(),
{
    if answers.len() == 0 {
        job
    } else {
        answered(job, answers.drop_last()).step(answers.last())
    }
}

/// Each of `answers` fits the call that the backup makes at that point.
pub open spec fn fitting<E>(job: WorkspaceView<E>, answers: Seq<AnswerView<E>>) -> bool
    decreases answers.len(),
{
    answers.len() > 0 ==> {
        &&& fitting(job, answers.drop_last())
        &&& answered(job, answers.drop_last()).accepts(answers.last())
    }
}

/// What fits as a whole fits up to any point.
pub proof fn lemma_fitting_part<E>(
    job: WorkspaceView<E>,
    answers: Seq<AnswerView<E>>,
    count: int,
)
    requires
        fitting(job, answers),
        0 <= count <= answers.len(),
    ensures
        fitting(job, answers.take(count)),
    decreases answers.len(),
{
    if count == answers.len() {
        assert(answers.take(count) =~= answers);
    } else {
        lemma_fitting_part(job, answers.drop_last(), count);
        assert(answers.drop_last().take(count) =~= answers.take(count));
    }
}

/// How many answers a backup takes at most from here on.
pub open spec fn steps_left<E>(job: WorkspaceView<E>) -> nat {
    match job {
        WorkspaceView::Starting { .. } => 15,
        WorkspaceView::Typing { .. } => 14,
        WorkspaceView::Closing { context, at } => match at {
            Closing::Folder => 13,
            Closing::Database => 12,
            Closing::Document => 11,
            Closing::Awareness => 10,
            Closing::CollabDb => 9,
            Closing::Writers => 8,
            Closing::Snapshot => 7,
        },
        WorkspaceView::Reopening { context, snapshot, reopen_error, at } => match at {
            Reopening::Writers => 6,
            Reopening::Folder => 5,
            Reopening::Database => 4,
            Reopening::Document => 3,
            Reopening::Storage => 2,
            Reopening::Awareness => 1,
        },
        WorkspaceView::Finished(_) => 0,
    }
}

/// Every backup comes to an end: it takes at most fifteen answers, and it goes on asking until
/// it is over.
pub proof fn law_backup_ends<E>(job: WorkspaceView<E>, answers: Seq<AnswerView<E>>)
    requires
        fitting(job, answers),
    ensures
        answers.len() + steps_left(answered(job, answers)) <= steps_left(job) <= 15,
        answered(job, answers).call() is None <==> answered(job, answers) is Finished,
    decreases answers.len(),
{
    if answers.len() > 0 {
        law_backup_ends(job, answers.drop_last());
    }
}

/// A backup that has begun to close the workspace opens it again: before it is over, it has come
/// to the point where it asks for the folder to be reopened. This holds whatever fails in
/// between.
pub proof fn law_closed_workspace_is_reopened<E>(
    job: WorkspaceView<E>,
    answers: Seq<AnswerView<E>>,
    begun: int,
) -> (at: int)
    requires
        fitting(job, answers),
        0 <= begun <= answers.len(),
        answered(job, answers.take(begun)) is Closing,
        answered(job, answers) is Finished,
    ensures
        begun < at < answers.len(),
        answered(job, answers.take(at)) matches WorkspaceView::Reopening {
            context,
            snapshot,
            reopen_error,
            at: next,
        } && next == Reopening::Folder,
        answered(job, answers.take(at)).call() matches Some(
            CallView::ReopenFolder { user_id, create_if_not_exist },
        ),
    decreases answers.len() - begun,
{
    assert(answers.take(answers.len() as int) =~= answers);
    let here = answered(job, answers.take(begun));
    let next = answered(job, answers.take(begun + 1));
    assert(begun < answers.len());
    lemma_fitting_part(job, answers, begun + 1);
    assert(answers.take(begun + 1).drop_last() =~= answers.take(begun));
    assert(next == here.step(answers[begun]));
    assert(here.accepts(answers[begun]));
    if next is Closing {
        law_closed_workspace_is_reopened(job, answers, begun + 1)
    } else {
        assert(next is Reopening);
        assert(begun + 1 < answers.len());
        if next->Reopening_at == Reopening::Writers {
            let later = answered(job, answers.take(begun + 2));
            lemma_fitting_part(job, answers, begun + 2);
            assert(answers.take(begun + 2).drop_last() =~= answers.take(begun + 1));
            assert(later == next.step(answers[begun + 1]));
            assert(begun + 2 < answers.len());
            begun + 2
        } else {
            begun + 1
        }
    }
}

/// Writers that were paused are let go: once the pause is answered, the snapshot is the one call
/// that comes before the call that ends the pause. This holds whatever came of the snapshot.
pub proof fn law_paused_writers_go_on<E>(
    context: ContextView,
    paused: AnswerView<E>,
    snapshot: AnswerView<E>,
)
    requires
        (WorkspaceView::Closing { context, at: Closing::Writers }).accepts(paused),
        paused is Done,
        (WorkspaceView::<E>::Closing { context, at: Closing::Snapshot }).accepts(snapshot),
    ensures
        ({
            let job = WorkspaceView::Closing { context, at: Closing::Writers };
            &&& job.call() == Some(CallView::PauseWriters { user_id: context.session.user_id })
            &&& job.step(paused).call()->0 is TakeSnapshot
            &&& job.step(paused).step(snapshot).call() == Some(
                CallView::ResumeWriters { user_id: context.session.user_id },
            )
        }),
{
}

/// Writers that could not be paused: the snapshot is not taken, and the workspace is opened again.
pub proof fn law_no_snapshot_without_the_pause<E>(context: ContextView, error: E, text: Seq<char>)
    ensures
        (WorkspaceView::Closing { context, at: Closing::Writers }).step(
            AnswerView::Failed { error, text },
        ) == (WorkspaceView::Reopening {
            context,
            snapshot: Err(WorkspaceErrorView::Service(error)),
            reopen_error: None,
            at: Reopening::Folder,
        }),
{
}

/// What the reopening comes to: the text of the first of its calls that failed, except that the
/// storage may fail unnoticed.
pub open spec fn reopen_failure<E>(answers: Seq<AnswerView<E>>) -> Option<Seq<char>> {
    if answers[0] is Failed {
        Some(answers[0]->text)
    } else if answers[1] is Failed {
        Some(answers[1]->text)
    } else if answers[2] is Failed {
        Some(answers[2]->text)
    } else if answers[4] is Failed {
        Some(answers[4]->text)
    } else {
        None
    }
}

/// Whether writers could be let go or not, the folder is reopened next; a failure is kept as the
/// reason why the workspace is not open again in full.
pub proof fn law_resuming<E>(job: WorkspaceView<E>, answer: AnswerView<E>)
    requires
        job matches WorkspaceView::Reopening { context, snapshot, reopen_error, at } && at
            == Reopening::Writers && reopen_error is None,
        job.accepts(answer),
    ensures
        job.step(answer) == (WorkspaceView::<E>::Reopening {
            context: job->Reopening_context,
            snapshot: job->Reopening_snapshot,
            reopen_error: if answer is Failed {
                Some(answer->text)
            } else {
                None
            },
            at: Reopening::Folder,
        }),
{
}

/// The reopening asks for the folder, the database, the documents, the storage and the awareness
/// in this order, and stops early only where the folder, the database or the documents fail. What
/// it comes to has no effect on what came of the snapshot, and both are told.
pub proof fn law_reopening<E>(job: WorkspaceView<E>, answers: Seq<AnswerView<E>>)
    requires
        job matches WorkspaceView::Reopening { context, snapshot, reopen_error, at } && at
            == Reopening::Folder,
        fitting(job, answers),
    ensures
        answers.len() <= 5,
        answered(job, answers) is Finished ==> answered(job, answers) == WorkspaceView::<
            E,
        >::Finished(
            crate::workspace::conclusion(
                job->Reopening_snapshot,
                crate::workspace::first_of(job->Reopening_reopen_error, reopen_failure(answers)),
            ),
        ),
        answered(job, answers) is Finished <==> answers.len() == 5 || (0 < answers.len() <= 3
            && answers.last() is Failed),
{
    law_backup_ends(job, answers);
    reveal_with_fuel(answered, 6);
    reveal_with_fuel(fitting, 6);
    let one = answers.drop_last();
    let two = one.drop_last();
    let three = two.drop_last();
    let four = three.drop_last();
    if answers.len() == 5 {
        assert(answers.last() == answers[4] && one.last() == answers[3] && two.last()
            == answers[2] && three.last() == answers[1] && four.last() == answers[0]);
        assert(four.drop_last().len() == 0);
    } else if answers.len() == 4 {
        assert(answers.last() == answers[3] && one.last() == answers[2] && two.last()
            == answers[1] && three.last() == answers[0]);
        assert(four.len() == 0);
    } else if answers.len() == 3 {
        assert(answers.last() == answers[2] && one.last() == answers[1] && two.last()
            == answers[0]);
        assert(three.len() == 0);
    } else if answers.len() == 2 {
        assert(answers.last() == answers[1] && one.last() == answers[0]);
        assert(two.len() == 0);
    } else if answers.len() == 1 {
        assert(one.len() == 0);
    }
}

/// The place of a closing step in the order.
pub open spec fn position(at: Closing) -> nat {
    match at {
        Closing::Folder => 0,
        Closing::Database => 1,
        Closing::Document => 2,
        Closing::Awareness => 3,
        Closing::CollabDb => 4,
        Closing::Writers => 5,
        Closing::Snapshot => 6,
    }
}

/// Nothing is closed before the session, its workspace and the type of it are known, and the
/// closing steps come in order, one answer each. Where the snapshot is kept was settled at the
/// start; no answer changes it.
pub proof fn law_closing_in_order<E>(
    staging: Option<Seq<u8>>,
    answers: Seq<AnswerView<E>>,
)
    requires
        fitting(WorkspaceView::Starting { staging }, answers),
    ensures
        match answered(WorkspaceView::Starting { staging }, answers) {
            WorkspaceView::Starting { staging: kept } => answers.len() == 0 && kept == staging,
            WorkspaceView::Typing { staging: kept, session, workspace } => {
                &&& answers.len() == 1
                &&& kept == staging
                &&& answers[0] == AnswerView::<E>::Session(session)
                &&& crate::uuids::parsed_uuid(session.workspace_id) == Ok::<
                    Seq<u8>,
                    Seq<char>,
                >(workspace)
            },
            WorkspaceView::Closing { context, at } => {
                &&& answers.len() == 2 + position(at)
                &&& context.staging == staging
                &&& answers[0] == AnswerView::<E>::Session(context.session)
                &&& crate::uuids::parsed_uuid(context.session.workspace_id) == Ok::<
                    Seq<u8>,
                    Seq<char>,
                >(context.workspace)
                &&& answers[1] == AnswerView::<E>::WorkspaceType(context.workspace_type)
                &&& at == Closing::Writers ==> answers[6] is Done
                &&& at == Closing::Snapshot ==> answers[6] is Done && answers[7] is Done
            },
            WorkspaceView::Reopening { context, snapshot, reopen_error, at } => answers.len() >= 7,
            WorkspaceView::Finished(_) => true,
        },
    decreases answers.len(),
{
    if answers.len() > 0 {
        law_closing_in_order(staging, answers.drop_last());
    }
}

/// The snapshot is taken only once the folder, the database and the document objects were asked
/// to close, the awareness was cleared, and the collab database was closed and the writers of the
/// other database were paused with success. It is taken of the user's directory, into the
/// directory that was derived at the start.
pub proof fn law_snapshot_of_a_closed_workspace<E>(
    staging: Option<Seq<u8>>,
    answers: Seq<AnswerView<E>>,
)
    requires
        fitting(WorkspaceView::Starting { staging }, answers),
        answered(WorkspaceView::Starting { staging }, answers).call() is Some,
        answered(WorkspaceView::Starting { staging }, answers).call()->0 is TakeSnapshot,
    ensures
        ({
            let start = WorkspaceView::<E>::Starting { staging };
            &&& answers.len() == 8
            &&& answers[0] is Session
            &&& answered(start, answers.take(2)).call() == Some(CallView::CloseFolder)
            &&& answered(start, answers.take(3)).call() == Some(CallView::CloseDatabase)
            &&& answered(start, answers.take(4)).call() == Some(CallView::CloseDocument)
            &&& answered(start, answers.take(5)).call() matches Some(
                CallView::ClearAwareness { workspace },
            )
            &&& answered(start, answers.take(6)).call() == Some(
                CallView::CloseCollabDb { user_id: answers[0]->Session_0.user_id },
            )
            &&& answers[6] is Done
            &&& answered(start, answers.take(7)).call() == Some(
                CallView::PauseWriters { user_id: answers[0]->Session_0.user_id },
            )
            &&& answers[7] is Done
            &&& answered(start, answers).call() == Some(
                CallView::TakeSnapshot {
                    user: crate::paths::user_parts(answers[0]->Session_0.user_id as int),
                    staging: match staging {
                        Some(id) => Some(crate::paths::staging_parts(id)),
                        None => None,
                    },
                },
            )
        }),
{
    let start = WorkspaceView::<E>::Starting { staging };
    law_closing_in_order(staging, answers);
    lemma_earlier_closing(staging, answers, 7);
    lemma_earlier_closing(staging, answers, 6);
    lemma_earlier_closing(staging, answers, 5);
    lemma_earlier_closing(staging, answers, 4);
    lemma_earlier_closing(staging, answers, 3);
    lemma_earlier_closing(staging, answers, 2);
}

/// A backup that has come to the snapshot was at each closing step before.
proof fn lemma_earlier_closing<E>(
    staging: Option<Seq<u8>>,
    answers: Seq<AnswerView<E>>,
    count: int,
)
    requires
        fitting(WorkspaceView::Starting { staging }, answers),
        answered(WorkspaceView::Starting { staging }, answers) is Closing,
        2 <= count <= answers.len(),
    ensures
        answered(WorkspaceView::Starting { staging }, answers.take(count)) matches
            WorkspaceView::Closing { context, at } && position(at) == count - 2 && answers[0]
            == AnswerView::<E>::Session(context.session),
    decreases answers.len(),
{
    law_closing_in_order(staging, answers);
    if count == answers.len() {
        assert(answers.take(count) =~= answers);
    } else {
        let before = answers.drop_last();
        law_closing_in_order(staging, before);
        lemma_earlier_closing(staging, before, count);
        assert(before.take(count) =~= answers.take(count));
    }
}

/// The manifest of a snapshot that has been taken by now.
pub open spec fn taken<E>(job: WorkspaceView<E>) -> Option<Map<Seq<char>, Seq<char>>> {
    match job {
        WorkspaceView::Reopening { context, snapshot: Ok(manifest), reopen_error, at } => Some(
            manifest,
        ),
        WorkspaceView::Finished(Ok(result)) => Some(result.manifest),
        _ => None,
    }
}

/// A backup succeeds if and only if its snapshot was taken, and then with the manifest of that
/// snapshot: nothing that happens before or after decides about it. The result says that the
/// workspace is open again exactly where it gives no reason why it is not.
pub proof fn law_success_is_the_snapshots<E>(
    staging: Option<Seq<u8>>,
    answers: Seq<AnswerView<E>>,
)
    requires
        fitting(WorkspaceView::Starting { staging }, answers),
        answered(WorkspaceView::Starting { staging }, answers) is Finished,
    ensures
        ({
            let outcome = answered(WorkspaceView::<E>::Starting { staging }, answers)->Finished_0;
            &&& outcome is Ok <==> exists|i: int|
                0 <= i < answers.len() && (#[trigger] answers[i]) is Manifest
            &&& outcome is Ok ==> answers.contains(
                AnswerView::<E>::Manifest(outcome->Ok_0.manifest),
            )
            &&& outcome is Ok ==> (outcome->Ok_0.reopen_ok <==> outcome->Ok_0.reopen_error is None)
        }),
{
    lemma_taken(WorkspaceView::Starting { staging }, answers);
    let outcome = answered(WorkspaceView::<E>::Starting { staging }, answers)->Finished_0;
    if exists|i: int| 0 <= i < answers.len() && (#[trigger] answers[i]) is Manifest {
        let i = choose|i: int| 0 <= i < answers.len() && (#[trigger] answers[i]) is Manifest;
        assert(answers.contains(AnswerView::<E>::Manifest(answers[i]->Manifest_0)));
    }
}

proof fn lemma_taken<E>(job: WorkspaceView<E>, answers: Seq<AnswerView<E>>)
    requires
        job is Starting,
        fitting(job, answers),
    ensures
        taken(answered(job, answers)) is Some <==> exists|i: int|
            0 <= i < answers.len() && (#[trigger] answers[i]) is Manifest,
        taken(answered(job, answers)) matches Some(manifest) ==> answers.contains(
            AnswerView::<E>::Manifest(manifest),
        ),
        answered(job, answers) matches WorkspaceView::Finished(Ok(result)) ==> (result.reopen_ok
            <==> result.reopen_error is None),
    decreases answers.len(),
{
    if answers.len() > 0 {
        let before = answers.drop_last();
        let last = answers.last();
        lemma_taken(job, before);
        let earlier = taken(answered(job, before));
        let now = taken(answered(job, answers));
        if earlier is Some {
            let manifest = AnswerView::<E>::Manifest(earlier->0);
            let i = choose|i: int| 0 <= i < before.len() && before[i] == manifest;
            assert(answers[i] == manifest);
            assert(answers[i] is Manifest);
        }
        if last is Manifest {
            assert(answers[answers.len() - 1] == last);
        }
        if exists|i: int| 0 <= i < answers.len() && (#[trigger] answers[i]) is Manifest {
            let i = choose|i: int| 0 <= i < answers.len() && (#[trigger] answers[i]) is Manifest;
            if i < before.len() {
                assert(before[i] is Manifest);
            }
        }
    }
}

/// The call is one whose failure leaves the workspace less than fully open.
pub open spec fn counts(call: CallView) -> bool {
    match call {
        CallView::ResumeWriters { .. } => true,
        CallView::ReopenFolder { .. } => true,
        CallView::ReopenDatabase { .. } => true,
        CallView::ReopenDocument { .. } => true,
        CallView::ReinitAwareness { .. } => true,
        _ => false,
    }
}

/// The answer with this number says that such a call failed.
pub open spec fn reopen_failed<E>(
    job: WorkspaceView<E>,
    answers: Seq<AnswerView<E>>,
    i: int,
) -> bool {
    &&& 0 <= i < answers.len()
    &&& answers[i] is Failed
    &&& answered(job, answers.take(i)).call() is Some
    &&& counts(answered(job, answers.take(i)).call()->0)
}

/// Why the workspace is not open again in full, as far as the backup knows by now.
pub open spec fn reopen_error_of<E>(job: WorkspaceView<E>) -> Option<Seq<char>> {
    match job {
        WorkspaceView::Reopening { context, snapshot, reopen_error, at } => reopen_error,
        WorkspaceView::Finished(Ok(result)) => result.reopen_error,
        WorkspaceView::Finished(Err(failure)) => failure.reopen_error,
        _ => None,
    }
}

/// Whatever came of the snapshot, the outcome tells what came of the reopening: it gives a reason
/// exactly where a call of the reopening that counts has failed, and the reason is the text of
/// such a failure.
pub proof fn law_reopen_failure_is_told<E>(
    staging: Option<Seq<u8>>,
    answers: Seq<AnswerView<E>>,
)
    requires
        fitting(WorkspaceView::Starting { staging }, answers),
    ensures
        ({
            let start = WorkspaceView::<E>::Starting { staging };
            let told = reopen_error_of(answered(start, answers));
            &&& told is Some <==> exists|i: int| #[trigger] reopen_failed(start, answers, i)
            &&& told is Some ==> exists|i: int| #[trigger]
                reopen_failed(start, answers, i) && answers[i]->text == told->0
        }),
    decreases answers.len(),
{
    let start = WorkspaceView::<E>::Starting { staging };
    if answers.len() > 0 {
        let before = answers.drop_last();
        let last = answers.len() - 1;
        law_reopen_failure_is_told(staging, before);
        assert(answers.take(last) =~= before);
        assert forall|i: int| 0 <= i < last implies #[trigger] reopen_failed(start, answers, i)
            == reopen_failed(start, before, i) by {
            assert(answers.take(i) =~= before.take(i));
        }
        let earlier = reopen_error_of(answered(start, before));
        let told = reopen_error_of(answered(start, answers));
        if earlier is Some {
            let i = choose|i: int| #[trigger]
                reopen_failed(start, before, i) && before[i]->text == earlier->0;
            assert(reopen_failed(start, answers, i));
            assert(answers[i]->text == told->0);
        } else {
            assert forall|i: int| 0 <= i < last implies !#[trigger] reopen_failed(
                start,
                answers,
                i,
            ) by {
                assert(!reopen_failed(start, before, i));
            }
            if reopen_failed(start, answers, last) {
                assert(told == Some(answers[last]->text));
            }
            if told is Some {
                assert(reopen_failed(start, answers, last));
            }
        }
    } else {
        assert forall|i: int| !#[trigger] reopen_failed(start, answers, i) by {}
    }
}

/// Whether the folder, the database and the document objects could be closed makes no difference:
/// two backups whose answers differ in nothing else make the same calls and end alike.
pub proof fn law_close_failures_change_nothing<E>(
    staging: Option<Seq<u8>>,
    one: Seq<AnswerView<E>>,
    other: Seq<AnswerView<E>>,
)
    requires
        fitting(WorkspaceView::Starting { staging }, one),
        fitting(WorkspaceView::Starting { staging }, other),
        one.len() == other.len(),
        forall|i: int| 0 <= i < one.len() && !(2 <= i < 5) ==> #[trigger] one[i] == other[i],
    ensures
        answered(WorkspaceView::Starting { staging }, one) == answered(
            WorkspaceView::Starting { staging },
            other,
        ),
    decreases one.len(),
{
    if one.len() > 0 {
        let last = one.len() - 1;
        let before = one.drop_last();
        law_close_failures_change_nothing(staging, before, other.drop_last());
        law_closing_in_order(staging, before);
        if !(2 <= last < 5) {
            assert(one[last] == other[last]);
        }
    }
}

/// A backup into the caller's directory, as it would be into the one with the given identifier.
pub open spec fn derived_like<E>(job: WorkspaceView<E>, id: Seq<u8>) -> WorkspaceView<E> {
    match job {
        WorkspaceView::Starting { staging } => WorkspaceView::Starting { staging: Some(id) },
        WorkspaceView::Typing { staging, session, workspace } => WorkspaceView::Typing {
            staging: Some(id),
            session,
            workspace,
        },
        WorkspaceView::Closing { context, at } => WorkspaceView::Closing {
            context: ContextView { staging: Some(id), ..context },
            at,
        },
        WorkspaceView::Reopening { context, snapshot, reopen_error, at } =>
            WorkspaceView::Reopening {
            context: ContextView { staging: Some(id), ..context },
            snapshot: match snapshot {
                Ok(manifest) => Ok(manifest),
                Err(error) => Err(worded_like(error, id)),
            },
            reopen_error,
            at,
        },
        WorkspaceView::Finished(Ok(result)) => WorkspaceView::Finished(Ok(result)),
        WorkspaceView::Finished(Err(failure)) => WorkspaceView::Finished(
            Err(
                FailureView {
                    error: worded_like(failure.error, id),
                    reopen_error: failure.reopen_error,
                },
            ),
        ),
    }
}

/// The error of a snapshot, worded as for a derived directory.
pub open spec fn worded_like<E>(
    error: WorkspaceErrorView<E>,
    id: Seq<u8>,
) -> WorkspaceErrorView<E> {
    match error {
        WorkspaceErrorView::Snapshot(inner) => crate::workspace::snapshot_error(Some(id), inner),
        _ => error,
    }
}

/// Where the snapshot is kept makes no other difference: a backup into the caller's directory and
/// one into a derived directory that get the same answers agree in everything but the directory
/// and the wording of an error of the snapshot.
pub proof fn law_both_backups_agree<E>(id: Seq<u8>, answers: Seq<AnswerView<E>>)
    ensures
        answered(WorkspaceView::Starting { staging: Some(id) }, answers) == derived_like(
            answered(WorkspaceView::Starting { staging: None }, answers),
            id,
        ),
        fitting(WorkspaceView::Starting { staging: Some(id) }, answers) == fitting(
            WorkspaceView::Starting { staging: None },
            answers,
        ),
        !(answered(WorkspaceView::Starting { staging: None }, answers) matches
            WorkspaceView::Closing { context, at } && at == Closing::Snapshot) ==> answered(
            WorkspaceView::Starting { staging: Some(id) },
            answers,
        ).call() == answered(WorkspaceView::<E>::Starting { staging: None }, answers).call(),
    decreases answers.len(),
{
    if answers.len() > 0 {
        law_both_backups_agree(id, answers.drop_last());
        lemma_given_kept(answers.drop_last());
    }
}

/// A backup into the caller's directory stays one.
proof fn lemma_given_kept<E>(answers: Seq<AnswerView<E>>)
    ensures
        match answered(WorkspaceView::<E>::Starting { staging: None }, answers) {
            WorkspaceView::Starting { staging } => staging is None,
            WorkspaceView::Typing { staging, .. } => staging is None,
            WorkspaceView::Closing { context, .. } => context.staging is None,
            WorkspaceView::Reopening { context, .. } => context.staging is None,
            WorkspaceView::Finished(_) => true,
        },
    decreases answers.len(),
{
    if answers.len() > 0 {
        lemma_given_kept(answers.drop_last());
    }
}

/// What a backup knows of the workspace is what was answered at its start.
proof fn lemma_context_kept<E>(staging: Option<Seq<u8>>, answers: Seq<AnswerView<E>>)
    requires
        fitting(WorkspaceView::Starting { staging }, answers),
    ensures
        answered(WorkspaceView::<E>::Starting { staging }, answers) matches
            WorkspaceView::Reopening { context, snapshot, reopen_error, at } ==> {
            &&& answers.len() >= 7
            &&& context.staging == staging
            &&& answers[0] == AnswerView::<E>::Session(context.session)
            &&& crate::uuids::parsed_uuid(context.session.workspace_id) == Ok::<
                Seq<u8>,
                Seq<char>,
            >(context.workspace)
            &&& answers[1] == AnswerView::<E>::WorkspaceType(context.workspace_type)
        },
    decreases answers.len(),
{
    if answers.len() > 0 {
        let before = answers.drop_last();
        lemma_context_kept(staging, before);
        law_closing_in_order(staging, before);
        law_closing_in_order(staging, answers);
    }
}

/// Every call carries what was answered at the start of the backup, and nothing else: the user id,
/// the user's identifier and the workspace of the session, the identifier that the workspace's text
/// stands for, and the type of the workspace. The database is opened again as a local one exactly
/// where the type that was answered is local; the folder is opened again from what is there, and
/// is not created. The snapshot is taken of the user's directory, into the directory that was
/// settled at the start.
pub proof fn law_calls_carry_what_was_answered<E>(
    staging: Option<Seq<u8>>,
    answers: Seq<AnswerView<E>>,
)
    requires
        fitting(WorkspaceView::Starting { staging }, answers),
    ensures
        ({
            let call = answered(WorkspaceView::<E>::Starting { staging }, answers).call();
            let session = answers[0]->Session_0;
            let id = crate::uuids::parsed_uuid(session.workspace_id);
            &&& call is Some && !(call->0 is GetSession) ==> answers.len() > 0 && answers[0]
                is Session && id is Ok
            &&& call is Some && !(call->0 is GetSession) && !(call->0 is WorkspaceType)
                ==> answers.len() > 1 && answers[1] is WorkspaceType
            &&& match call {
                None => true,
                Some(CallView::GetSession) => answers.len() == 0,
                Some(CallView::WorkspaceType { user_id, workspace_id }) => user_id
                    == session.user_id && workspace_id == session.workspace_id,
                Some(CallView::CloseFolder) => true,
                Some(CallView::CloseDatabase) => true,
                Some(CallView::CloseDocument) => true,
                Some(CallView::ClearAwareness { workspace }) => workspace == id->Ok_0,
                Some(CallView::CloseCollabDb { user_id }) => user_id == session.user_id,
                Some(CallView::PauseWriters { user_id }) => user_id == session.user_id,
                Some(CallView::TakeSnapshot { user, staging: into }) => {
                    &&& user == crate::paths::user_parts(session.user_id as int)
                    &&& into is Some <==> staging is Some
                    &&& staging is Some ==> into == Some(crate::paths::staging_parts(staging->0))
                },
                Some(CallView::ResumeWriters { user_id }) => user_id == session.user_id,
                Some(CallView::ReopenFolder { user_id, create_if_not_exist }) => user_id
                    == session.user_id && !create_if_not_exist,
                Some(CallView::ReopenDatabase { user_id, is_local }) => user_id
                    == session.user_id && (is_local <==> answers[1]->WorkspaceType_0
                    == WorkspaceType::Local),
                Some(CallView::ReopenDocument { user_id }) => user_id == session.user_id,
                Some(CallView::ReopenStorage { workspace }) => workspace == id->Ok_0,
                Some(CallView::ReinitAwareness { user_id, user_uuid, workspace, workspace_type })
                => {
                    &&& user_id == session.user_id
                    &&& user_uuid == session.user_uuid
                    &&& workspace == id->Ok_0
                    &&& workspace_type == answers[1]->WorkspaceType_0
                },
            }
        }),
{
    law_closing_in_order(staging, answers);
    lemma_context_kept(staging, answers);
}

/// The first call of a backup asks for the session, and each further one follows from the call
/// before it and its answer. Without a session, an identifier and a type nothing is closed and the
/// backup is over. The folder, the database and the documents are closed whatever comes of it, then
/// the awareness is cleared and the collab database closed. Only if that is done the writers are
/// paused, and only if that is done the snapshot is taken; whatever comes of it the writers go on.
/// Then everything is opened again, in the order of the folder, the database, the documents, the
/// storage and the awareness, up to the first that fails; only the storage may fail unnoticed.
pub proof fn law_calls_follow_each_other<E>(
    staging: Option<Seq<u8>>,
    answers: Seq<AnswerView<E>>,
)
    requires
        fitting(WorkspaceView::Starting { staging }, answers),
    ensures
        answers.len() == 0 ==> answered(WorkspaceView::<E>::Starting { staging }, answers).call()
            == Some(CallView::GetSession),
        answers.len() > 0 ==> ({
            let start = WorkspaceView::<E>::Starting { staging };
            let before = answered(start, answers.drop_last()).call();
            let answer = answers.last();
            let after = answered(start, answers).call();
            &&& before is Some
            &&& match before->0 {
                CallView::GetSession => if answer is Session && crate::uuids::parsed_uuid(
                    answer->Session_0.workspace_id,
                ) is Ok {
                    after is Some && after->0 is WorkspaceType
                } else {
                    after is None
                },
                CallView::WorkspaceType { .. } => if answer is Failed {
                    after is None
                } else {
                    after == Some(CallView::CloseFolder)
                },
                CallView::CloseFolder => after == Some(CallView::CloseDatabase),
                CallView::CloseDatabase => after == Some(CallView::CloseDocument),
                CallView::CloseDocument => after is Some && after->0 is ClearAwareness,
                CallView::ClearAwareness { .. } => after is Some && after->0 is CloseCollabDb,
                CallView::CloseCollabDb { .. } => after is Some && if answer is Failed {
                    after->0 is ReopenFolder
                } else {
                    after->0 is PauseWriters
                },
                CallView::PauseWriters { .. } => after is Some && if answer is Failed {
                    after->0 is ReopenFolder
                } else {
                    after->0 is TakeSnapshot
                },
                CallView::TakeSnapshot { .. } => after is Some && after->0 is ResumeWriters,
                CallView::ResumeWriters { .. } => after is Some && after->0 is ReopenFolder,
                CallView::ReopenFolder { .. } => if answer is Failed {
                    after is None
                } else {
                    after is Some && after->0 is ReopenDatabase
                },
                CallView::ReopenDatabase { .. } => if answer is Failed {
                    after is None
                } else {
                    after is Some && after->0 is ReopenDocument
                },
                CallView::ReopenDocument { .. } => if answer is Failed {
                    after is None
                } else {
                    after is Some && after->0 is ReopenStorage
                },
                CallView::ReopenStorage { .. } => after is Some && after->0 is ReinitAwareness,
                CallView::ReinitAwareness { .. } => after is None,
            }
        }),
{
}

/// Every call can be answered with what it asks for, or with a failure of the service; the clearing
/// of the awareness does not fail, and the snapshot has answers of its own. A backup that is over
/// takes no answer.
pub proof fn law_answers_fit_calls<E>(job: WorkspaceView<E>, answer: AnswerView<E>)
    ensures
        job.accepts(answer) <==> match job.call() {
            None => false,
            Some(CallView::GetSession) => answer is Session || answer is Failed,
            Some(CallView::WorkspaceType { .. }) => answer is WorkspaceType || answer is Failed,
            Some(CallView::ClearAwareness { .. }) => answer is Done,
            Some(CallView::TakeSnapshot { .. }) => answer is Manifest || answer is SnapshotFailed,
            Some(_) => answer is Done || answer is Failed,
        },
{
}

/// The error that the answer with this number is the cause of, if it is one: a service that the
/// backup cannot do without has failed, the identifier of the workspace is none, or the snapshot
/// was not taken. The last is told to the caller as it is where the caller named the directory.
pub open spec fn cause<E>(
    staging: Option<Seq<u8>>,
    answers: Seq<AnswerView<E>>,
    i: int,
) -> Option<WorkspaceErrorView<E>> {
    let call = answered(WorkspaceView::<E>::Starting { staging }, answers.take(i)).call();
    match (call, answers[i]) {
        (Some(CallView::GetSession), AnswerView::Failed { error, text }) => Some(
            WorkspaceErrorView::Service(error),
        ),
        (Some(CallView::WorkspaceType { .. }), AnswerView::Failed { error, text }) => Some(
            WorkspaceErrorView::Service(error),
        ),
        (Some(CallView::CloseCollabDb { .. }), AnswerView::Failed { error, text }) => Some(
            WorkspaceErrorView::Service(error),
        ),
        (Some(CallView::PauseWriters { .. }), AnswerView::Failed { error, text }) => Some(
            WorkspaceErrorView::Service(error),
        ),
        (Some(CallView::GetSession), AnswerView::Session(session)) => match
            crate::uuids::parsed_uuid(session.workspace_id) {
            Ok(_) => None,
            Err(text) => Some(WorkspaceErrorView::InvalidWorkspaceId(text)),
        },
        (Some(CallView::TakeSnapshot { .. }), AnswerView::SnapshotFailed(error)) => Some(
            if staging is Some {
                WorkspaceErrorView::Internal(
                    "backup snapshot failed: "@ + crate::error::error_message(error),
                )
            } else {
                WorkspaceErrorView::Snapshot(error)
            },
        ),
        _ => None,
    }
}

/// Why there will be no backup, as far as that is settled.
pub open spec fn error_of<E>(job: WorkspaceView<E>) -> Option<WorkspaceErrorView<E>> {
    match job {
        WorkspaceView::Reopening { context, snapshot: Err(error), reopen_error, at } => Some(error),
        WorkspaceView::Finished(Err(failure)) => Some(failure.error),
        _ => None,
    }
}

/// A backup that comes to nothing ends with the error of its cause: there is one, and whatever is
/// answered after it makes no difference. A backup in which nothing was such a cause does not come
/// to nothing.
pub proof fn law_failure_is_its_cause<E>(
    staging: Option<Seq<u8>>,
    answers: Seq<AnswerView<E>>,
)
    requires
        fitting(WorkspaceView::Starting { staging }, answers),
    ensures
        ({
            let error = error_of(answered(WorkspaceView::<E>::Starting { staging }, answers));
            &&& forall|i: int|
                0 <= i < answers.len() && (#[trigger] cause(staging, answers, i)) is Some
                    ==> error == cause(staging, answers, i)
            &&& error is Some ==> exists|i: int|
                0 <= i < answers.len() && #[trigger] cause(staging, answers, i) == error
        }),
    decreases answers.len(),
{
    let start = WorkspaceView::<E>::Starting { staging };
    let error = error_of(answered(start, answers));
    if answers.len() > 0 {
        let before = answers.drop_last();
        let last = answers.len() - 1;
        let earlier = error_of(answered(start, before));
        law_failure_is_its_cause(staging, before);
        law_closing_in_order(staging, before);
        lemma_context_kept(staging, before);
        assert(answers.take(last) =~= before);
        assert forall|i: int| 0 <= i < last implies #[trigger] cause(staging, answers, i) == cause(
            staging,
            before,
            i,
        ) by {
            assert(answers.take(i) =~= before.take(i));
        }
        if earlier is Some {
            assert(error == earlier);
            assert(cause(staging, answers, last) is None);
            let i = choose|i: int|
                0 <= i < before.len() && #[trigger] cause(staging, before, i) == earlier;
            assert(cause(staging, answers, i) == error);
        } else {
            assert forall|i: int| 0 <= i < last implies (#[trigger] cause(staging, answers, i))
                is None by {
                assert(cause(staging, before, i) is None);
            }
            assert(cause(staging, answers, last) == error);
        }
    }
}

/// The reason that is told of a workspace that is not open again in full is the text of the first
/// call of the reopening that counts and has failed.
pub proof fn law_first_reason_is_told<E>(staging: Option<Seq<u8>>, answers: Seq<AnswerView<E>>)
    requires
        fitting(WorkspaceView::Starting { staging }, answers),
    ensures
        ({
            let start = WorkspaceView::<E>::Starting { staging };
            let told = reopen_error_of(answered(start, answers));
            forall|i: int| #[trigger]
                reopen_failed(start, answers, i) && (forall|j: int|
                    0 <= j < i ==> !#[trigger] reopen_failed(start, answers, j)) ==> told == Some(
                    answers[i]->text,
                )
        }),
    decreases answers.len(),
{
    let start = WorkspaceView::<E>::Starting { staging };
    if answers.len() > 0 {
        let before = answers.drop_last();
        let last = answers.len() - 1;
        let told = reopen_error_of(answered(start, answers));
        law_first_reason_is_told(staging, before);
        law_reopen_failure_is_told(staging, before);
        assert(answers.take(last) =~= before);
        assert forall|i: int| 0 <= i < last implies #[trigger] reopen_failed(start, answers, i)
            == reopen_failed(start, before, i) by {
            assert(answers.take(i) =~= before.take(i));
        }
        assert forall|i: int| #[trigger]
            reopen_failed(start, answers, i) && (forall|j: int|
                0 <= j < i ==> !#[trigger] reopen_failed(start, answers, j)) implies told == Some(
            answers[i]->text,
        ) by {
            if i < last {
                assert(reopen_failed(start, before, i));
                assert forall|j: int| 0 <= j < i implies !#[trigger] reopen_failed(
                    start,
                    before,
                    j,
                ) by {
                    assert(!reopen_failed(start, answers, j));
                }
                assert(reopen_error_of(answered(start, before)) == Some(before[i]->text));
            } else {
                assert forall|j: int| !#[trigger] reopen_failed(start, before, j) by {
                    if 0 <= j < last {
                        assert(!reopen_failed(start, answers, j));
                    }
                }
            }
        }
    }
}

/// Whether the service with this place in the order is there.
pub open spec fn manager_is_there(managers: LiveManagers, i: int) -> bool {
    if i == 0 {
        managers.user
    } else if i == 1 {
        managers.folder
    } else if i == 2 {
        managers.database
    } else if i == 3 {
        managers.document
    } else {
        managers.storage
    }
}

/// A service that is gone is named, the first in the order of the user, the folder, the database,
/// the documents and the storage; where all are there, none is.
pub proof fn law_first_missing_manager_is_named(managers: LiveManagers)
    ensures
        ({
            let said = crate::workspace::missing_manager(managers);
            let names = seq![
                "UserManager no longer available"@,
                "FolderManager no longer available"@,
                "DatabaseManager no longer available"@,
                "DocumentManager no longer available"@,
                "StorageManager no longer available"@,
            ];
            &&& said is None <==> forall|i: int| 0 <= i < 5 ==> #[trigger] manager_is_there(
                managers,
                i,
            )
            &&& forall|i: int|
                0 <= i < 5 && !#[trigger] manager_is_there(managers, i) && (forall|j: int|
                    0 <= j < i ==> #[trigger] manager_is_there(managers, j)) ==> said == Some(
                    names[i],
                )
        }),
{
    let said = crate::workspace::missing_manager(managers);
    assert(manager_is_there(managers, 0) == managers.user);
    assert(manager_is_there(managers, 1) == managers.folder);
    assert(manager_is_there(managers, 2) == managers.database);
    assert(manager_is_there(managers, 3) == managers.document);
    assert(manager_is_there(managers, 4) == managers.storage);
}

/// A warning comes exactly where the workspace could not be opened again in full. It says what came
/// of the backup, and ends with the reason, word for word.
pub proof fn law_warnings_end_with_the_reason<E>(
    result: ResultView,
    failure: FailureView<E>,
)
    ensures
        crate::workspace::warning(result) is None <==> result.reopen_ok,
        !result.reopen_ok ==> ({
            let words = "Backup completed but workspace reopen failed: "@;
            let text = crate::workspace::warning(result)->0;
            &&& words.is_prefix_of(text)
            &&& text.skip(words.len() as int) == match result.reopen_error {
                Some(reason) => reason,
                None => "unknown error"@,
            }
        }),
        crate::workspace::failure_warning_chars(failure) is None <==> failure.reopen_error is None,
        failure.reopen_error is Some ==> ({
            let words = "Backup failed and workspace reopen failed: "@;
            let text = crate::workspace::failure_warning_chars(failure)->0;
            &&& words.is_prefix_of(text)
            &&& text.skip(words.len() as int) == failure.reopen_error->0
        }),
{
    if !result.reopen_ok {
        let words = "Backup completed but workspace reopen failed: "@;
        let text = crate::workspace::warning(result)->0;
        assert(words =~= text.take(words.len() as int));
        assert(text.skip(words.len() as int) =~= match result.reopen_error {
            Some(reason) => reason,
            None => "unknown error"@,
        });
    }
    if failure.reopen_error is Some {
        let words = "Backup failed and workspace reopen failed: "@;
        let text = crate::workspace::failure_warning_chars(failure)->0;
        assert(words =~= text.take(words.len() as int));
        assert(text.skip(words.len() as int) =~= failure.reopen_error->0);
    }
}

/// A backup with an identifier of its own takes its snapshot into the staging directory that is
/// named by that identifier, and nowhere else.
pub proof fn law_derived_backup_has_its_own_directory<E>(id: Seq<u8>, answers: Seq<AnswerView<E>>)
    requires
        fitting(crate::workspace::derived_start::<E>(id), answers),
    ensures
        answered(crate::workspace::derived_start::<E>(id), answers).call() matches Some(
            CallView::TakeSnapshot { user, staging },
        ) ==> staging == Some(crate::paths::staging_parts(id)),
{
    law_calls_carry_what_was_answered(Some(id), answers);
}

} // verus!
