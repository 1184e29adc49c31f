//! Checksums of bytes, names, texts, manifests, statements, identifiers and events.
use flowy_backup::assembly::{
    make_plugins, only_logged, registered_core, startup_plan, upgrade_user, Part,
};
use flowy_backup::digest::{compute_sha256_file, Hasher};
use flowy_backup::error::BackupError;
use flowy_backup::events::{plugin_name, BackupEvent, BackupWorkspacePB};
use flowy_backup::manifest::{Checksums, SnapshotManifest};
use flowy_backup::names::{name_le, sort_names};
use flowy_backup::paths::{staging_names, user_names};
use flowy_backup::sql::{snapshot_sqlite, vacuum_into_statement, SqliteRequest};
use flowy_backup::text::{decimal_text, hex_text};
use rusqlite::Connection;

#[test]
fn checksum_of_bytes() {
    assert_eq!(
        compute_sha256_file(b""),
        "e3b0c44298fc1c149afbf4c8996fb92427ae41e4649b934ca495991b7852b855"
    );
    assert_eq!(
        compute_sha256_file(b"abc"),
        "ba7816bf8f01cfea414140de5dae2223b00361a396177a9cb410ff61f20015ad"
    );
}

#[test]
fn checksum_of_a_message_in_parts() {
    let hasher = Hasher::new().absorb(b"a").absorb(b"").absorb(b"bc");
    assert_eq!(hasher.length(), 3);
    assert_eq!(hasher.finish(), compute_sha256_file(b"abc"));
}

#[test]
fn names_are_sorted_by_their_bytes() {
    let names = vec![
        b"b".to_vec(),
        b"".to_vec(),
        vec![0xff],
        b"ab".to_vec(),
        b"B".to_vec(),
        b"a".to_vec(),
        b"a".to_vec(),
    ];
    assert_eq!(
        sort_names(names),
        vec![
            b"".to_vec(),
            b"B".to_vec(),
            b"a".to_vec(),
            b"a".to_vec(),
            b"ab".to_vec(),
            b"b".to_vec(),
            vec![0xff],
        ]
    );
    assert!(name_le(b"a", b"a"));
    assert!(name_le(b"a", b"ab"));
    assert!(!name_le(b"ab", b"a"));
    assert!(!name_le(b"b", b"ab"));
}

#[test]
fn numbers_and_bytes_as_text() {
    assert_eq!(decimal_text(0), "0");
    assert_eq!(decimal_text(9007199254740993), "9007199254740993");
    assert_eq!(decimal_text(-10), "-10");
    assert_eq!(decimal_text(i64::MIN), "-9223372036854775808");
    assert_eq!(hex_text(&[]), "");
    assert_eq!(hex_text(&[0x00, 0x0f, 0xa0, 0xff]), "000fa0ff");
}

#[test]
fn manifest_keeps_one_checksum_per_name() {
    let mut checksums = Checksums::new();
    assert_eq!(checksums.get("a"), None);
    assert_eq!(checksums.insert(String::from("b"), String::from("1")), None);
    assert_eq!(checksums.insert(String::from("a"), String::from("2")), None);
    assert_eq!(checksums.insert(String::from("c"), String::from("3")), None);
    assert_eq!(
        checksums.insert(String::from("b"), String::from("4")),
        Some(String::from("1"))
    );
    assert_eq!(checksums.get("b"), Some(&String::from("4")));
    assert_eq!(checksums.get("d"), None);
    let manifest = SnapshotManifest { checksums };
    let copy = manifest.clone();
    assert_eq!(
        copy.checksums.entries(),
        &vec![
            (String::from("a"), String::from("2")),
            (String::from("b"), String::from("4")),
            (String::from("c"), String::from("3")),
        ]
    );
}

#[test]
fn errors_in_words() {
    assert_eq!(BackupError::Io(String::from("gone")).message(), "snapshot io: gone");
    assert_eq!(BackupError::Snapshot(String::from("locked")).message(), "snapshot failed: locked");
}

#[test]
fn statement_doubles_quotes() {
    assert_eq!(vacuum_into_statement("/tmp/snap.db"), "VACUUM INTO '/tmp/snap.db'");
    assert_eq!(vacuum_into_statement(""), "VACUUM INTO ''");
    assert_eq!(
        vacuum_into_statement("/it's/'quoted''"),
        "VACUUM INTO '/it''s/''quoted'''''"
    );
}

#[test]
fn copy_of_a_database_reports_the_engine() {
    let job = snapshot_sqlite("/tmp/snap.db");
    assert!(matches!(job.request(), Some(SqliteRequest::Open)));
    let refused = job.step(Err(String::from("unable to open")));
    assert!(refused.request().is_none());
    match refused.outcome() {
        Some(Err(BackupError::Snapshot(text))) => assert_eq!(text, "unable to open"),
        other => panic!("{:?}", other),
    }

    let job = snapshot_sqlite("/tmp/snap.db").step(Ok(()));
    match job.request() {
        Some(SqliteRequest::Execute(sql)) => assert_eq!(sql, "VACUUM INTO '/tmp/snap.db'"),
        other => panic!("{:?}", other),
    }
    match job.step(Err(String::from("output file already exists"))).outcome() {
        Some(Err(BackupError::Snapshot(text))) => assert_eq!(text, "output file already exists"),
        other => panic!("{:?}", other),
    }
}

/// Runs the copy of a database as a job.
fn copy_database(from: &std::path::Path, to: &std::path::Path) -> Result<(), BackupError> {
    let mut connection: Option<Connection> = None;
    let mut job = snapshot_sqlite(&to.to_string_lossy());
    while let Some(request) = job.request() {
        let done = match request {
            SqliteRequest::Open => match Connection::open(from) {
                Ok(opened) => {
                    connection = Some(opened);
                    Ok(())
                },
                Err(error) => Err(error.to_string()),
            },
            SqliteRequest::Execute(sql) => connection
                .as_ref()
                .expect("an open database")
                .execute_batch(&sql)
                .map_err(|error| error.to_string()),
        };
        job = job.step(done);
    }
    job.outcome().expect("a job without a request is over")
}

fn seed_wal_db(db_path: &std::path::Path, id: i32, name: &str) {
    let conn = Connection::open(db_path).unwrap();
    conn.execute_batch("PRAGMA journal_mode = WAL").unwrap();
    conn.execute_batch("CREATE TABLE test (id INTEGER PRIMARY KEY, name TEXT)").unwrap();
    conn.execute(
        "INSERT INTO test (id, name) VALUES (?1, ?2)",
        [&id.to_string(), &name.to_string()],
    )
    .unwrap();
}

fn read_name(db_path: &std::path::Path, id: i32) -> String {
    let conn = Connection::open(db_path).expect("Failed to open database");
    let mut stmt = conn.prepare("SELECT name FROM test WHERE id = ?1").expect("Failed to prepare");
    let name: String = stmt.query_row([id], |row| row.get(0)).expect("Failed to query row");
    name
}

#[test]
fn vacuum_into_produces_openable_consistent_db() {
    let dir = tempfile::tempdir().unwrap();
    let src = dir.path().join("flowy-database.db");
    seed_wal_db(&src, 1, "a");
    let out = dir.path().join("snap.db");
    copy_database(&src, &out).unwrap();
    assert_eq!(read_name(&out, 1), "a");
}

#[test]
fn database_is_copied_to_a_path_with_quotes() {
    let dir = tempfile::tempdir().unwrap();
    let src = dir.path().join("flowy-database.db");
    seed_wal_db(&src, 7, "it's");
    let out = dir.path().join("o'snap''s.db");
    copy_database(&src, &out).unwrap();
    assert_eq!(read_name(&out, 7), "it's");
    match copy_database(&src, &out) {
        Err(BackupError::Snapshot(text)) => assert!(text.contains("already exists"), "{}", text),
        other => panic!("{:?}", other),
    }
}

#[test]
fn paths_below_the_data_root() {
    assert_eq!(user_names(1), vec![String::from("1")]);
    let id: [u8; 16] = [
        0x93, 0x6d, 0xa0, 0x1f, 0x9a, 0xbd, 0x4d, 0x9d, 0x80, 0xc7, 0x02, 0xaf, 0x85, 0xc8, 0x22,
        0xa8,
    ];
    assert_eq!(
        staging_names(id),
        vec![
            String::from("backups"),
            String::from("staging"),
            String::from("936da01f-9abd-4d9d-80c7-02af85c822a8"),
        ]
    );
}

#[test]
fn events_have_names() {
    assert_eq!(plugin_name(), "Flowy-Backup");
    assert_eq!(BackupEvent::BackupWorkspace.name(), "BackupWorkspace");
    assert_eq!(BackupEvent::BackupWorkspace.code(), 0);
    assert_eq!(BackupWorkspacePB::default(), BackupWorkspacePB {});
}

#[test]
fn plugins_are_registered_in_order() {
    assert_eq!(
        make_plugins(
            "folder", "database", "user", "document", "date", "search", "ai", "storage", "backup"
        ),
        vec!["user", "folder", "database", "document", "date", "search", "ai", "storage", "backup"]
    );
}

#[test]
fn parts_that_are_gone() {
    assert_eq!(registered_core(Some(Some(5))), Ok(5));
    assert_eq!(
        registered_core::<i32>(Some(None)),
        Err(String::from("AppFlowyCore reference no longer valid"))
    );
    assert_eq!(
        registered_core::<i32>(None),
        Err(String::from("AppFlowyCore not initialized for backup"))
    );
    assert_eq!(upgrade_user(Some("ann")), Ok("ann"));
    assert_eq!(
        upgrade_user::<&str>(None),
        Err(String::from("Unexpected error: UserSession is None"))
    );
}

#[test]
fn startup_builds_what_there_is_a_place_for() {
    let full = startup_plan(true, true);
    assert_eq!(full.len(), 19);
    assert_eq!(full[0], Part::StoragePath);
    assert_eq!(full[18], Part::EventDispatcher);
    let at = |part: Part| full.iter().position(|p| *p == part).unwrap();
    assert!(at(Part::Storage) < at(Part::Ai));
    assert!(at(Part::Ai) < at(Part::Database));
    assert!(at(Part::Database) < at(Part::User));
    let small = startup_plan(false, false);
    assert_eq!(small.len(), 17);
    assert!(!small.contains(&Part::VectorStore));
    assert!(!small.contains(&Part::IndexWriter));
    assert!(only_logged(Part::UserCallbacks));
    assert!(!only_logged(Part::Preferences));
    assert!(startup_plan(true, false).contains(&Part::VectorStore));
    assert!(startup_plan(false, true).contains(&Part::IndexWriter));
}
