//! The backup of a workspace, with services that answer from a script.
use flowy_backup::error::BackupError;
use flowy_backup::manifest::{Checksums, SnapshotManifest};
use flowy_backup::workspace::{
    backup_with_session, execute_workspace_backup, failure_warning, reopen_warning,
    run_workspace_backup, workspace_backup_with_id, Answer, Call, LiveManagers, Session, Staging,
    WorkspaceBackupResult, WorkspaceError, WorkspaceFailure, WorkspaceJob, WorkspaceType,
};

const ALL: LiveManagers =
    LiveManagers { user: true, folder: true, database: true, document: true, storage: true };

const WORKSPACE: &str = "550e8400-e29b-41d4-a716-446655440000";

const WORKSPACE_BYTES: [u8; 16] = [
    0x55, 0x0e, 0x84, 0x00, 0xe2, 0x9b, 0x41, 0xd4, 0xa7, 0x16, 0x44, 0x66, 0x55, 0x44, 0x00, 0x00,
];

fn session(workspace_id: &str) -> Session {
    Session { user_id: 42, user_uuid: [7; 16], workspace_id: String::from(workspace_id) }
}

fn manifest() -> SnapshotManifest {
    let mut checksums = Checksums::new();
    checksums.insert(String::from("flowy-database.db"), String::from("1"));
    SnapshotManifest { checksums }
}

fn name(call: &Call) -> &'static str {
    match call {
        Call::GetSession => "session",
        Call::WorkspaceType { .. } => "type",
        Call::CloseFolder => "close folder",
        Call::CloseDatabase => "close database",
        Call::CloseDocument => "close document",
        Call::ClearAwareness { .. } => "clear awareness",
        Call::CloseCollabDb { .. } => "close collab_db",
        Call::PauseWriters { .. } => "pause writers",
        Call::TakeSnapshot { .. } => "snapshot",
        Call::ResumeWriters { .. } => "resume writers",
        Call::ReopenFolder { .. } => "reopen folder",
        Call::ReopenDatabase { .. } => "reopen database",
        Call::ReopenDocument { .. } => "reopen document",
        Call::ReopenStorage { .. } => "reopen storage",
        Call::ReinitAwareness { .. } => "reinit awareness",
    }
}

type Outcome = Result<WorkspaceBackupResult, WorkspaceFailure<u32>>;

/// Runs a backup in which the calls in `failing` fail, and returns the calls in their order.
fn run(job: WorkspaceJob<u32>, failing: &[&str]) -> (Vec<&'static str>, Outcome) {
    let mut job = job;
    let mut calls: Vec<&'static str> = Vec::new();
    while let Some(call) = job.call() {
        let called = name(&call);
        calls.push(called);
        let fails = failing.contains(&called);
        let answer = match call {
            Call::TakeSnapshot { .. } if fails => {
                Answer::SnapshotFailed(BackupError::Io(String::from("disk full")))
            },
            Call::TakeSnapshot { .. } => Answer::Manifest(manifest()),
            _ if fails => {
                Answer::Failed { error: calls.len() as u32, text: format!("{} failed", called) }
            },
            Call::GetSession => Answer::Session(session(WORKSPACE)),
            Call::WorkspaceType { user_id, workspace_id } => {
                assert_eq!(user_id, 42);
                assert_eq!(workspace_id, WORKSPACE);
                Answer::WorkspaceType(WorkspaceType::Local)
            },
            _ => Answer::Done,
        };
        assert!(job.accepts(&answer));
        job = job.step(answer);
    }
    (calls, job.outcome().expect("a job without a call is over"))
}

fn derived() -> WorkspaceJob<u32> {
    execute_workspace_backup(ALL).expect("all managers are there")
}

const CALLS: [&str; 15] = [
    "session",
    "type",
    "close folder",
    "close database",
    "close document",
    "clear awareness",
    "close collab_db",
    "pause writers",
    "snapshot",
    "resume writers",
    "reopen folder",
    "reopen database",
    "reopen document",
    "reopen storage",
    "reinit awareness",
];

#[test]
fn backup_closes_snapshots_and_reopens() {
    let (calls, outcome) = run(derived(), &[]);
    assert_eq!(calls, CALLS);
    let result = outcome.unwrap();
    assert!(result.reopen_ok);
    assert_eq!(result.reopen_error, None);
    assert_eq!(result.manifest.checksums.get("flowy-database.db"), Some(&String::from("1")));
    assert_eq!(reopen_warning(&result), None);

    let (calls, outcome) = run(run_workspace_backup(), &[]);
    assert_eq!(calls, CALLS);
    assert!(outcome.is_ok());
}

#[test]
fn calls_carry_what_the_services_need() {
    let id: [u8; 16] = [0xab; 16];
    let mut job: WorkspaceJob<u32> = workspace_backup_with_id(id);
    let mut seen: usize = 0;
    while let Some(call) = job.call() {
        let answer = match call {
            Call::GetSession => Answer::Session(session(WORKSPACE)),
            Call::WorkspaceType { .. } => Answer::WorkspaceType(WorkspaceType::Server),
            Call::TakeSnapshot { user, staging } => {
                assert_eq!(user, vec![String::from("42")]);
                assert_eq!(
                    staging,
                    Some(vec![
                        String::from("backups"),
                        String::from("staging"),
                        String::from("abababab-abab-abab-abab-abababababab"),
                    ])
                );
                seen += 1;
                Answer::Manifest(manifest())
            },
            other => {
                match other {
                    Call::ClearAwareness { workspace } | Call::ReopenStorage { workspace } => {
                        assert_eq!(workspace, WORKSPACE_BYTES);
                        seen += 1;
                    },
                    Call::ReopenFolder { user_id, create_if_not_exist } => {
                        assert_eq!((user_id, create_if_not_exist), (42, false));
                        seen += 1;
                    },
                    Call::CloseCollabDb { user_id }
                    | Call::PauseWriters { user_id }
                    | Call::ResumeWriters { user_id }
                    | Call::ReopenDocument { user_id } => {
                        assert_eq!(user_id, 42);
                        seen += 1;
                    },
                    Call::ReopenDatabase { user_id, is_local } => {
                        assert_eq!((user_id, is_local), (42, false));
                        seen += 1;
                    },
                    Call::ReinitAwareness { user_id, user_uuid, workspace, workspace_type } => {
                        assert_eq!((user_id, user_uuid), (42, [7; 16]));
                        assert_eq!(workspace, WORKSPACE_BYTES);
                        assert_eq!(workspace_type, WorkspaceType::Server);
                        seen += 1;
                    },
                    _ => {},
                }
                Answer::Done
            },
        };
        job = job.step(answer);
    }
    assert_eq!(seen, 10);
    assert!(WorkspaceType::Local.is_local());
    assert!(!WorkspaceType::Server.is_local());
}

#[test]
fn staging_directory_is_new_each_time() {
    let mut names: Vec<String> = Vec::new();
    for _ in 0..2 {
        let mut job = derived();
        while let Some(call) = job.call() {
            let answer = match call {
                Call::GetSession => Answer::Session(session(WORKSPACE)),
                Call::WorkspaceType { .. } => Answer::WorkspaceType(WorkspaceType::Local),
                Call::TakeSnapshot { staging, .. } => {
                    let parts = staging.expect("a derived directory");
                    assert_eq!(parts[..2], [String::from("backups"), String::from("staging")]);
                    names.push(parts[2].clone());
                    Answer::Manifest(manifest())
                },
                _ => Answer::Done,
            };
            job = job.step(answer);
        }
    }
    assert_ne!(names[0], names[1]);
    for name in names {
        assert_eq!(name.len(), 36);
        assert_eq!(&name[14..15], "4");
        assert!("89ab".contains(&name[19..20]));
    }
}

#[test]
fn caller_names_the_staging_directory() {
    let mut job: WorkspaceJob<u32> = run_workspace_backup();
    let mut asked = false;
    while let Some(call) = job.call() {
        let answer = match call {
            Call::GetSession => Answer::Session(session(WORKSPACE)),
            Call::WorkspaceType { .. } => Answer::WorkspaceType(WorkspaceType::Local),
            Call::TakeSnapshot { staging, .. } => {
                assert_eq!(staging, None);
                asked = true;
                Answer::SnapshotFailed(BackupError::Snapshot(String::from("locked")))
            },
            _ => Answer::Done,
        };
        job = job.step(answer);
    }
    assert!(asked);
    match job.outcome() {
        Some(Err(WorkspaceFailure {
            error: WorkspaceError::Snapshot(BackupError::Snapshot(text)),
            reopen_error: None,
        })) => {
            assert_eq!(text, "locked");
        },
        other => panic!("{:?}", other),
    }
}

#[test]
fn missing_managers_are_named() {
    let cases = [
        (LiveManagers { user: false, folder: false, ..ALL }, "UserManager no longer available"),
        (LiveManagers { folder: false, ..ALL }, "FolderManager no longer available"),
        (
            LiveManagers { database: false, storage: false, ..ALL },
            "DatabaseManager no longer available",
        ),
        (LiveManagers { document: false, ..ALL }, "DocumentManager no longer available"),
        (LiveManagers { storage: false, ..ALL }, "StorageManager no longer available"),
    ];
    for (managers, expected) in cases {
        match execute_workspace_backup::<u32>(managers) {
            Err(WorkspaceFailure {
                error: WorkspaceError::Internal(text),
                reopen_error: None,
            }) => assert_eq!(text, expected),
            _ => panic!("{}", expected),
        }
    }
}

#[test]
fn nothing_is_closed_without_a_session() {
    let (calls, outcome) = run(derived(), &["session"]);
    assert_eq!(calls, ["session"]);
    assert!(matches!(
        outcome,
        Err(WorkspaceFailure { error: WorkspaceError::Service(1), reopen_error: None })
    ));

    let (calls, outcome) = run(derived(), &["type"]);
    assert_eq!(calls, ["session", "type"]);
    assert!(matches!(
        outcome,
        Err(WorkspaceFailure { error: WorkspaceError::Service(2), reopen_error: None })
    ));
}

#[test]
fn workspace_identifier_must_be_one() {
    let job = derived().step(Answer::Session(session("not an identifier")));
    assert!(job.call().is_none());
    match job.outcome() {
        Some(Err(WorkspaceFailure {
            error: WorkspaceError::InvalidWorkspaceId(text),
            reopen_error: None,
        })) => {
            assert_eq!(text, uuid::Uuid::parse_str("not an identifier").unwrap_err().to_string());
        },
        other => panic!("{:?}", other),
    }

    let job: WorkspaceJob<u32> =
        backup_with_session(Staging::Given, session("x"), Err(String::from("why")));
    match job.outcome() {
        Some(Err(WorkspaceFailure {
            error: WorkspaceError::InvalidWorkspaceId(text),
            reopen_error: None,
        })) => assert_eq!(text, "why"),
        other => panic!("{:?}", other),
    }
    let job: WorkspaceJob<u32> = backup_with_session(Staging::Given, session("x"), Ok([1; 16]));
    assert!(matches!(job.call(), Some(Call::WorkspaceType { .. })));
}

#[test]
fn objects_that_do_not_close_do_not_stop_the_backup() {
    let (calls, outcome) =
        run(derived(), &["close folder", "close database", "close document"]);
    assert_eq!(calls, CALLS);
    assert!(outcome.unwrap().reopen_ok);
}

#[test]
fn open_collab_db_is_never_copied() {
    let (calls, outcome) = run(derived(), &["close collab_db"]);
    assert!(!calls.contains(&"snapshot"));
    assert_eq!(calls[7..], CALLS[10..]);
    assert!(matches!(
        outcome,
        Err(WorkspaceFailure { error: WorkspaceError::Service(7), reopen_error: None })
    ));
}

#[test]
fn no_snapshot_is_taken_while_others_may_write() {
    let (calls, outcome) = run(derived(), &["pause writers"]);
    assert!(!calls.contains(&"snapshot"));
    assert_eq!(calls[8..], CALLS[10..]);
    assert!(matches!(
        outcome,
        Err(WorkspaceFailure { error: WorkspaceError::Service(8), reopen_error: None })
    ));
}

#[test]
fn workspace_is_reopened_even_if_writers_stay_paused() {
    let (calls, outcome) = run(derived(), &["resume writers"]);
    assert_eq!(calls, CALLS);
    let result = outcome.unwrap();
    assert!(!result.reopen_ok);
    assert_eq!(result.reopen_error, Some(String::from("resume writers failed")));

    let (_, outcome) = run(derived(), &["resume writers", "reopen database"]);
    assert_eq!(outcome.unwrap().reopen_error, Some(String::from("resume writers failed")));
}

#[test]
fn failed_snapshot_and_failed_reopening_are_both_told() {
    let (_, outcome) = run(run_workspace_backup(), &["snapshot", "reopen folder"]);
    match outcome {
        Err(failure) => {
            assert_eq!(
                failure_warning(&failure),
                Some(String::from(
                    "Backup failed and workspace reopen failed: reopen folder failed"
                ))
            );
            assert!(matches!(failure.error, WorkspaceError::Snapshot(BackupError::Io(_))));
            assert_eq!(failure.reopen_error, Some(String::from("reopen folder failed")));
        },
        Ok(result) => panic!("{:?}", result),
    }

    let (_, outcome) = run(run_workspace_backup(), &["snapshot", "reopen storage"]);
    match outcome {
        Err(failure) => {
            assert_eq!(failure.reopen_error, None);
            assert_eq!(failure_warning(&failure), None);
        },
        Ok(result) => panic!("{:?}", result),
    }
}

#[test]
fn workspace_is_reopened_after_a_failed_snapshot() {
    let (calls, outcome) = run(derived(), &["snapshot"]);
    assert_eq!(calls, CALLS);
    match outcome {
        Err(WorkspaceFailure { error: WorkspaceError::Internal(text), reopen_error: None }) => {
            assert_eq!(text, "backup snapshot failed: snapshot io: disk full");
        },
        other => panic!("{:?}", other),
    }
}

#[test]
fn failed_reopening_is_told_apart_from_the_snapshot() {
    for at in [10, 11, 12, 14] {
        let failing = CALLS[at];
        let (calls, outcome) = run(derived(), &[failing]);
        assert_eq!(calls, CALLS[..at + 1]);
        let result = outcome.unwrap();
        assert!(!result.reopen_ok);
        assert_eq!(result.reopen_error, Some(format!("{} failed", failing)));
        assert_eq!(
            reopen_warning(&result),
            Some(format!("Backup completed but workspace reopen failed: {} failed", failing))
        );

        let (_, outcome) = run(derived(), &["snapshot", failing]);
        match outcome {
            Err(WorkspaceFailure { error: WorkspaceError::Internal(_), reopen_error }) => {
                assert_eq!(reopen_error, Some(format!("{} failed", failing)));
            },
            other => panic!("{:?}", other),
        }
    }
    let (calls, outcome) = run(derived(), &["reopen storage"]);
    assert_eq!(calls, CALLS);
    assert!(outcome.unwrap().reopen_ok);
}

#[test]
fn warning_without_a_reason() {
    let result =
        WorkspaceBackupResult { manifest: manifest(), reopen_ok: false, reopen_error: None };
    assert_eq!(
        reopen_warning(&result.clone()),
        Some(String::from("Backup completed but workspace reopen failed: unknown error"))
    );
}

#[test]
fn answers_that_do_not_fit_are_told_apart() {
    let job = derived();
    assert!(!job.accepts(&Answer::Done));
    assert!(job.accepts(&Answer::Failed { error: 0, text: String::new() }));
    let job = job.step(Answer::Session(session(WORKSPACE)));
    assert!(!job.accepts(&Answer::Session(session(WORKSPACE))));
    let job = job.step(Answer::WorkspaceType(WorkspaceType::Local));
    assert!(job.accepts(&Answer::Done));
    assert!(!job.accepts(&Answer::Manifest(manifest())));
    let job = job.step(Answer::Done).step(Answer::Done).step(Answer::Done);
    assert!(!job.accepts(&Answer::Failed { error: 0, text: String::new() }));
    let job = job.step(Answer::Done).step(Answer::Done).step(Answer::Done);
    assert!(!job.accepts(&Answer::Done));
    assert!(job.accepts(&Answer::Manifest(manifest())));
}
