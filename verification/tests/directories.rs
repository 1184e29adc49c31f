//! The jobs that read and write directories, driven by a disk that is kept in memory.
use std::collections::BTreeMap;

use flowy_backup::checksum::compute_sha256_dir;
use flowy_backup::copy::snapshot_closed_collab_db;
use flowy_backup::digest::compute_sha256_file;
use flowy_backup::error::BackupError;
use flowy_backup::io::{Area, NodeKind, Place, Reply, Request};
use flowy_backup::manifest::SnapshotManifest;
use flowy_backup::snapshot::{collab_place, database_place, SnapshotService};

type Key = (u8, Vec<Vec<u8>>);

#[derive(Clone, Debug, PartialEq)]
enum Node {
    File(Vec<u8>),
    Dir,
    Other,
}

/// A disk in memory. Walks and listings give the names backwards where `backwards` is set, and
/// the request with the number `fail_at` fails.
struct Memory {
    nodes: BTreeMap<Key, Node>,
    walks: Vec<Vec<Vec<u8>>>,
    backwards: bool,
    served: usize,
    fail_at: Option<usize>,
}

fn number(area: Area) -> u8 {
    match area {
        Area::User => 0,
        Area::Staging => 1,
        Area::Target => 2,
    }
}

fn key(place: &Place) -> Key {
    (number(place.area), place.path.clone())
}

fn spot(area: Area, path: &[&str]) -> Key {
    (number(area), path.iter().map(|name| name.as_bytes().to_vec()).collect())
}

fn place(area: Area, path: &[&str]) -> Place {
    Place { area, path: path.iter().map(|name| name.as_bytes().to_vec()).collect() }
}

impl Memory {
    fn new() -> Memory {
        Memory {
            nodes: BTreeMap::new(),
            walks: Vec::new(),
            backwards: false,
            served: 0,
            fail_at: None,
        }
    }

    fn dir(&mut self, area: Area, path: &[&str]) {
        for count in 0..path.len() + 1 {
            self.nodes.insert(spot(area, &path[..count]), Node::Dir);
        }
    }

    fn file(&mut self, area: Area, path: &[&str], contents: &[u8]) {
        self.dir(area, &path[..path.len() - 1]);
        self.nodes.insert(spot(area, path), Node::File(contents.to_vec()));
    }

    fn contents(&self, area: Area, path: &[&str]) -> Option<Vec<u8>> {
        match self.nodes.get(&spot(area, path)) {
            Some(Node::File(contents)) => Some(contents.clone()),
            _ => None,
        }
    }

    fn names(&self, place: &Place) -> Vec<Vec<u8>> {
        let (area, path) = key(place);
        let mut names: Vec<Vec<u8>> = self
            .nodes
            .keys()
            .filter(|(a, p)| *a == area && p.len() == path.len() + 1 && p.starts_with(&path))
            .map(|(_, p)| p[path.len()].clone())
            .collect();
        if self.backwards {
            names.reverse();
        }
        names
    }

    /// Everything below a place, by the path from there.
    fn tree(&self, area: Area, path: &[&str]) -> BTreeMap<Vec<Vec<u8>>, Node> {
        let (area, path) = spot(area, path);
        self.nodes
            .iter()
            .filter(|((a, p), _)| *a == area && p.starts_with(&path))
            .map(|((_, p), node)| (p[path.len()..].to_vec(), node.clone()))
            .collect()
    }

    fn serve(&mut self, request: &Request) -> Reply {
        let at = self.served;
        self.served += 1;
        if self.fail_at == Some(at) {
            return Reply::Failed(String::from("the disk is gone"));
        }
        match request {
            Request::CreateDirAll(place) => {
                let (area, path) = key(place);
                for count in 0..path.len() + 1 {
                    self.nodes.insert((area, path[..count].to_vec()), Node::Dir);
                }
                Reply::Done
            },
            Request::VacuumInto { to, .. } if self.taken(to) => {
                Reply::Failed(String::from("output file already exists"))
            },
            Request::VacuumInto { from, to } | Request::CopyFile { from, to } => {
                match self.nodes.get(&key(from)).cloned() {
                    Some(Node::File(contents)) => {
                        self.nodes.insert(key(to), Node::File(contents));
                        Reply::Done
                    },
                    _ => Reply::Failed(String::from("not a file")),
                }
            },
            Request::ReadFile(place) => match self.nodes.get(&key(place)) {
                Some(Node::File(contents)) => Reply::Data(contents.clone()),
                _ => Reply::Failed(String::from("not a file")),
            },
            Request::OpenDir(place) => match self.nodes.get(&key(place)) {
                Some(Node::Dir) => {
                    let mut names = self.names(place);
                    names.reverse();
                    self.walks.push(names);
                    Reply::Done
                },
                _ => Reply::Failed(String::from("not a directory")),
            },
            Request::NextEntry(place) => {
                let walk = self.walks.last_mut().expect("a walk");
                match walk.pop() {
                    Some(name) => {
                        let (area, mut path) = key(place);
                        path.push(name.clone());
                        let is_dir = self.nodes.get(&(area, path)) == Some(&Node::Dir);
                        Reply::Entry { name, is_dir }
                    },
                    None => {
                        self.walks.pop();
                        Reply::EndOfDir
                    },
                }
            },
            Request::ListDir(place) => match self.nodes.get(&key(place)) {
                Some(Node::Dir) => Reply::Names(self.names(place)),
                _ => Reply::Failed(String::from("not a directory")),
            },
            Request::RemoveFile(place) => {
                self.nodes.remove(&key(place));
                Reply::Done
            },
            Request::RemoveDirAll(place) => {
                let (area, path) = key(place);
                self.nodes.retain(|(a, p), _| *a != area || !p.starts_with(&path));
                Reply::Done
            },
            Request::Inspect(place) => match self.nodes.get(&key(place)) {
                Some(Node::File(_)) => Reply::Kind(NodeKind::File),
                Some(Node::Dir) => Reply::Kind(NodeKind::Dir),
                Some(Node::Other) => Reply::Kind(NodeKind::Other),
                None => Reply::Kind(NodeKind::Missing),
            },
        }
    }

    /// Whether the database engine refuses to write there.
    fn taken(&self, place: &Place) -> bool {
        match self.nodes.get(&key(place)) {
            Some(Node::File(contents)) => !contents.is_empty(),
            Some(_) => true,
            None => false,
        }
    }

    fn checksum(&mut self, dir: Place) -> Result<String, BackupError> {
        let mut job = compute_sha256_dir(dir);
        while let Some(request) = job.request() {
            let reply = self.serve(&request);
            assert!(job.accepts(&reply));
            job = job.step(reply);
        }
        job.outcome().expect("a job without a request is over")
    }

    fn copy(&mut self, from: Place, to: Place) -> Result<(), BackupError> {
        let mut job = snapshot_closed_collab_db(from, to);
        while let Some(request) = job.request() {
            let reply = self.serve(&request);
            assert!(job.accepts(&reply));
            job = job.step(reply);
        }
        job.outcome().expect("a job without a request is over")
    }

    fn snapshot(&mut self) -> Result<SnapshotManifest, BackupError> {
        let mut job = SnapshotService::new(()).snapshot();
        while let Some(request) = job.request() {
            let reply = self.serve(&request);
            assert!(job.accepts(&reply));
            job = job.step(reply);
        }
        job.outcome().expect("a job without a request is over")
    }

    fn restore(&mut self, manifest: &SnapshotManifest) -> Result<(), BackupError> {
        let mut job = SnapshotService::new(()).restore(manifest.clone());
        while let Some(request) = job.request() {
            let reply = self.serve(&request);
            assert!(job.accepts(&reply));
            job = job.step(reply);
        }
        job.outcome().expect("a job without a request is over")
    }
}

/// A user's data: a database, and a collab database directory with a directory in it.
fn seeded() -> Memory {
    let mut disk = Memory::new();
    disk.file(Area::User, &["flowy-database.db"], b"row 1: test-value");
    disk.file(Area::User, &["collab_db", "CURRENT"], b"MANIFEST-000004\n");
    disk.file(Area::User, &["collab_db", "000005.log"], b"test-key=test-collab-value");
    disk.file(Area::User, &["collab_db", "archive", "000003.log"], b"");
    disk
}

const EMPTY: &str = "e3b0c44298fc1c149afbf4c8996fb92427ae41e4649b934ca495991b7852b855";

#[test]
fn backup_then_restore_is_byte_identical() {
    let mut disk = seeded();
    let manifest = disk.snapshot().expect("Failed to snapshot");

    let before = disk.checksum(collab_place(Area::Staging)).expect("staging checksum 1");

    disk.dir(Area::Target, &[]);
    disk.restore(&manifest).expect("Failed to restore");

    let after = disk.checksum(collab_place(Area::Staging)).expect("staging checksum 2");
    assert_eq!(before, after, "Staging checksum should not change");

    let restored = disk
        .contents(Area::Target, &["flowy-database.db"])
        .expect("Restored SQLite db should exist");
    assert!(disk.nodes.contains_key(&spot(Area::Target, &["collab_db"])));

    let expected = manifest.checksums.get("flowy-database.db").expect("Missing sqlite checksum");
    assert_eq!(&compute_sha256_file(&restored), expected, "SQLite checksum should match");

    let actual = disk.checksum(collab_place(Area::Target)).expect("restored collab checksum");
    let expected = manifest.checksums.get("collab_db").expect("Missing collab checksum");
    assert_eq!(&actual, expected, "collab_db checksum should match");

    assert_eq!(
        disk.contents(Area::Target, &["collab_db", "000005.log"]).as_deref(),
        Some(&b"test-key=test-collab-value"[..]),
        "collab_db entry should match"
    );
    assert_eq!(restored, b"row 1: test-value", "SQLite row should match");
    assert_eq!(disk.tree(Area::Target, &["collab_db"]), disk.tree(Area::User, &["collab_db"]));
    assert_eq!(disk.tree(Area::Target, &[]), disk.tree(Area::Staging, &[]));
}

#[test]
fn restore_fails_on_checksum_mismatch() {
    let mut disk = seeded();
    let mut manifest = disk.snapshot().expect("Failed to snapshot");
    manifest
        .checksums
        .insert("flowy-database.db".to_string(), "corrupted-checksum".to_string());

    let result = disk.restore(&manifest);
    assert!(result.is_err(), "restore should fail on checksum mismatch");
    match result {
        Err(BackupError::Snapshot(msg)) => {
            assert!(msg.contains("checksum"), "Error message should mention checksum");
            assert_eq!(
                msg,
                format!(
                    "checksum mismatch for flowy-database.db: expected corrupted-checksum, got {}",
                    compute_sha256_file(b"row 1: test-value")
                )
            );
        },
        _ => panic!("Expected BackupError::Snapshot with checksum error"),
    }
}

#[test]
fn dropped_collab_db_copies_and_reopens_identically() {
    let mut disk = Memory::new();
    for i in 0..2_000 {
        let name = format!("obj-{}", i);
        disk.file(Area::User, &["collab_db", &name], &vec![(i % 251) as u8; 1024]);
    }
    disk.file(Area::User, &["collab_db", "obj-final"], b"the-last-committed-bytes");

    let from = place(Area::User, &["collab_db"]);
    let to = place(Area::User, &["collab_db_copy"]);
    disk.copy(from, to).expect("Failed to snapshot");

    assert_eq!(
        disk.contents(Area::User, &["collab_db_copy", "obj-0"]).as_deref(),
        Some(&vec![0u8; 1024][..])
    );
    assert_eq!(
        disk.contents(Area::User, &["collab_db_copy", "obj-final"]).as_deref(),
        Some(&b"the-last-committed-bytes"[..])
    );
    assert_eq!(
        disk.tree(Area::User, &["collab_db_copy"]),
        disk.tree(Area::User, &["collab_db"])
    );
}

#[test]
fn checksum_of_a_flat_directory() {
    let mut disk = Memory::new();
    disk.file(Area::User, &["d", "a"], b"alpha");
    disk.file(Area::User, &["d", "b"], b"beta");
    assert_eq!(
        disk.checksum(place(Area::User, &["d"])).unwrap(),
        "a4c4aeb92c20500f364b12b3771ef3a11193e2cf04d0f28956a829749993b39f"
    );
}

#[test]
fn checksum_of_a_directory_takes_that_of_the_directories_in_it() {
    let mut disk = Memory::new();
    disk.file(Area::User, &["d", "1"], b"first");
    disk.file(Area::User, &["d", "2", "x"], b"one");
    disk.file(Area::User, &["d", "2", "y"], b"two");
    disk.file(Area::User, &["d", "3"], b"last");
    assert_eq!(
        disk.checksum(place(Area::User, &["d", "2"])).unwrap(),
        "25b6746d5172ed6352966a013d93ac846e1110d5a25e8f183b5931f4688842a1"
    );
    assert_eq!(
        disk.checksum(place(Area::User, &["d"])).unwrap(),
        "c8e84e2da3d7aa80587f365e22f509bb0d45e391c8c154dc6d98831cbead030f"
    );
}

#[test]
fn checksum_of_empty_directories() {
    let mut disk = Memory::new();
    disk.dir(Area::User, &["d", "e"]);
    assert_eq!(disk.checksum(place(Area::User, &["d", "e"])).unwrap(), EMPTY);
    assert_eq!(
        disk.checksum(place(Area::User, &["d"])).unwrap(),
        "cd372fb85148700fa88095e3492d3f9f5beb43e555e5ff26d95f5a6adc36f8e6"
    );
}

#[test]
fn checksum_does_not_depend_on_the_order_of_the_listing() {
    let mut disk = seeded();
    let forwards = disk.checksum(collab_place(Area::User)).unwrap();
    disk.backwards = true;
    let backwards = disk.checksum(collab_place(Area::User)).unwrap();
    assert_eq!(forwards, backwards);
}

#[test]
fn checksum_reads_names_in_byte_order() {
    let mut disk = Memory::new();
    disk.file(Area::User, &["d", "B"], b"al");
    disk.file(Area::User, &["d", "a"], b"phabe");
    disk.file(Area::User, &["d", "ab"], b"t");
    disk.file(Area::User, &["d", "\u{e9}"], b"a");
    disk.backwards = true;
    assert_eq!(
        disk.checksum(place(Area::User, &["d"])).unwrap(),
        "a4c4aeb92c20500f364b12b3771ef3a11193e2cf04d0f28956a829749993b39f"
    );
}

#[test]
fn checksum_passes_over_what_is_neither_file_nor_directory() {
    let mut disk = Memory::new();
    disk.dir(Area::User, &["d"]);
    disk.nodes.insert(spot(Area::User, &["d", "dangling"]), Node::Other);
    assert_eq!(disk.checksum(place(Area::User, &["d"])).unwrap(), EMPTY);
}

#[test]
fn checksum_of_a_missing_directory_fails() {
    let mut disk = Memory::new();
    match disk.checksum(place(Area::User, &["d"])) {
        Err(BackupError::Io(text)) => assert_eq!(text, "not a directory"),
        other => panic!("{:?}", other),
    }
}

#[test]
fn copy_of_something_that_is_no_file_fails() {
    let mut disk = Memory::new();
    disk.dir(Area::User, &["d"]);
    disk.nodes.insert(spot(Area::User, &["d", "dangling"]), Node::Other);
    match disk.copy(place(Area::User, &["d"]), place(Area::Staging, &["d"])) {
        Err(BackupError::Io(text)) => assert_eq!(text, "not a file"),
        other => panic!("{:?}", other),
    }
}

#[test]
fn copy_keeps_what_is_at_the_destination_under_other_names() {
    let mut disk = Memory::new();
    disk.file(Area::User, &["d", "same"], b"new");
    disk.file(Area::User, &["d", "deep", "er", "file"], b"x");
    disk.file(Area::Staging, &["d", "same"], b"old");
    disk.file(Area::Staging, &["d", "other"], b"kept");
    disk.copy(place(Area::User, &["d"]), place(Area::Staging, &["d"])).unwrap();
    assert_eq!(disk.contents(Area::Staging, &["d", "same"]).unwrap(), b"new");
    assert_eq!(disk.contents(Area::Staging, &["d", "other"]).unwrap(), b"kept");
    assert_eq!(disk.contents(Area::Staging, &["d", "deep", "er", "file"]).unwrap(), b"x");
    assert_eq!(disk.contents(Area::User, &["d", "same"]).unwrap(), b"new");
}

#[test]
fn copy_takes_the_replies_that_the_tree_calls_for() {
    let mut disk = Memory::new();
    disk.dir(Area::User, &["empty"]);
    disk.copy(place(Area::User, &["empty"]), place(Area::Staging, &["empty"])).unwrap();
    assert_eq!(disk.served, 3);

    let mut disk = seeded();
    disk.copy(collab_place(Area::User), collab_place(Area::Staging)).unwrap();
    assert_eq!(disk.served, 3 + 2 + 2 + (4 + 2));
}

#[test]
fn checksum_takes_the_replies_that_the_tree_calls_for() {
    let mut disk = seeded();
    disk.checksum(collab_place(Area::User)).unwrap();
    assert_eq!(disk.served, 1 + 2 + 2 + (2 + 2));
}

#[test]
fn snapshot_records_both_outputs() {
    let mut disk = seeded();
    let user = disk.tree(Area::User, &[]);
    let manifest = disk.snapshot().unwrap();
    assert_eq!(disk.served, 5 + 13 + 9);
    let collab = disk.checksum(collab_place(Area::User)).unwrap();
    let entries: Vec<(String, String)> = manifest.checksums.entries().clone();
    assert_eq!(
        entries,
        vec![
            (String::from("collab_db"), collab),
            (String::from("flowy-database.db"), compute_sha256_file(b"row 1: test-value")),
        ]
    );
    assert_eq!(disk.tree(Area::User, &[]), user);
    assert_eq!(disk.tree(Area::Staging, &[]), user);
}

#[test]
fn every_failure_of_a_snapshot_is_reported() {
    for fail_at in 0..27 {
        let mut disk = seeded();
        disk.fail_at = Some(fail_at);
        let result = disk.snapshot();
        let removals = match fail_at {
            0..=2 => 0,
            3 | 4 => 1,
            _ => 2,
        };
        assert_eq!(disk.served, fail_at + 1 + removals);
        assert!(disk.tree(Area::Staging, &[]).keys().all(|path| path.is_empty()));
        assert_eq!(disk.tree(Area::User, &[]), seeded().tree(Area::User, &[]));
        match result {
            Err(BackupError::Snapshot(text)) => {
                assert_eq!(fail_at, 3);
                assert_eq!(text, "the disk is gone");
            },
            Err(BackupError::Io(text)) => {
                assert_ne!(fail_at, 3);
                assert_eq!(text, "the disk is gone");
            },
            Ok(_) => panic!("request {} failed unnoticed", fail_at),
        }
    }
}

#[test]
fn failed_snapshot_leaves_no_partial_artifact() {
    let mut disk = Memory::new();
    disk.file(Area::User, &["flowy-database.db"], b"row 1: test-value");
    match disk.snapshot() {
        Err(BackupError::Io(text)) => assert_eq!(text, "not a directory"),
        other => panic!("{:?}", other),
    }
    assert_eq!(disk.contents(Area::Staging, &["flowy-database.db"]), None);
    assert!(!disk.nodes.contains_key(&spot(Area::Staging, &["collab_db"])));
}

#[test]
fn failed_removal_does_not_hide_the_failure() {
    let mut job = SnapshotService::new(()).snapshot();
    let mut disk = seeded();
    for _ in 0..6 {
        let request = job.request().expect("a request");
        job = job.step(disk.serve(&request));
    }
    job = job.step(Reply::Failed(String::from("first")));
    match job.request() {
        Some(Request::RemoveDirAll(place)) => {
            assert_eq!(key(&place), spot(Area::Staging, &["collab_db"]));
        },
        other => panic!("{:?}", other),
    }
    assert!(job.accepts(&Reply::Failed(String::from("second"))));
    job = job.step(Reply::Failed(String::from("second")));
    match job.request() {
        Some(Request::RemoveFile(place)) => {
            assert_eq!(key(&place), spot(Area::Staging, &["flowy-database.db"]));
        },
        other => panic!("{:?}", other),
    }
    job = job.step(Reply::Failed(String::from("third")));
    match job.outcome() {
        Some(Err(BackupError::Io(text))) => assert_eq!(text, "first"),
        other => panic!("{:?}", other),
    }
}

#[test]
fn refused_database_copy_keeps_an_earlier_snapshot() {
    let mut disk = seeded();
    let manifest = disk.snapshot().unwrap();
    let before = disk.tree(Area::Staging, &[]);
    disk.served = 0;
    match disk.snapshot() {
        Err(BackupError::Snapshot(text)) => assert_eq!(text, "output file already exists"),
        other => panic!("{:?}", other),
    }
    assert_eq!(disk.served, 4);
    assert_eq!(disk.tree(Area::Staging, &[]), before);
    disk.restore(&manifest).expect("the earlier snapshot can be restored");
}

#[test]
fn database_copy_into_an_empty_file_is_not_refused_and_not_removed() {
    let mut disk = seeded();
    disk.file(Area::Staging, &["flowy-database.db"], b"");
    disk.fail_at = Some(4);
    assert!(matches!(disk.snapshot(), Err(BackupError::Io(_))));
    assert_eq!(disk.served, 5);
    assert_eq!(
        disk.contents(Area::Staging, &["flowy-database.db"]).as_deref(),
        Some(&b"row 1: test-value"[..])
    );
}

#[test]
fn failed_database_copy_removes_what_the_engine_has_begun() {
    let mut job = SnapshotService::new(()).snapshot();
    let mut disk = seeded();
    for _ in 0..3 {
        let request = job.request().expect("a request");
        job = job.step(disk.serve(&request));
    }
    assert!(matches!(job.request(), Some(Request::VacuumInto { .. })));
    disk.file(Area::Staging, &["flowy-database.db"], b"row");
    job = job.step(Reply::Failed(String::from("disk full")));
    match job.request() {
        Some(Request::RemoveFile(place)) => {
            assert_eq!(key(&place), spot(Area::Staging, &["flowy-database.db"]));
            job = job.step(disk.serve(&Request::RemoveFile(place)));
        },
        other => panic!("{:?}", other),
    }
    match job.outcome() {
        Some(Err(BackupError::Snapshot(text))) => assert_eq!(text, "disk full"),
        other => panic!("{:?}", other),
    }
    assert!(disk.tree(Area::Staging, &[]).keys().all(|path| path.is_empty()));
}

#[test]
fn failed_snapshot_keeps_a_directory_that_was_there_before() {
    for fail_at in 5..27 {
        let mut disk = seeded();
        disk.file(Area::Staging, &["collab_db", "earlier"], b"kept");
        disk.fail_at = Some(fail_at);
        assert!(matches!(disk.snapshot(), Err(BackupError::Io(_))));
        assert_eq!(disk.served, fail_at + 2);
        assert_eq!(disk.contents(Area::Staging, &["collab_db", "earlier"]).unwrap(), b"kept");
        assert_eq!(disk.contents(Area::Staging, &["flowy-database.db"]), None);
    }
}

#[test]
fn snapshot_of_a_directory_with_something_else_in_it_fails() {
    let mut disk = seeded();
    disk.nodes.insert(spot(Area::User, &["collab_db", "dangling"]), Node::Other);
    match disk.snapshot() {
        Err(BackupError::Io(text)) => assert_eq!(text, "not a file"),
        other => panic!("{:?}", other),
    }
    assert!(disk.tree(Area::Staging, &[]).keys().all(|path| path.is_empty()));
}

#[test]
fn manifest_matches_what_is_staged_beside_leftovers() {
    let mut disk = seeded();
    disk.file(Area::Staging, &["collab_db", "leftover"], b"old");
    let manifest = disk.snapshot().unwrap();
    let staged = disk.checksum(collab_place(Area::Staging)).unwrap();
    let user = disk.checksum(collab_place(Area::User)).unwrap();
    assert_eq!(manifest.checksums.get("collab_db"), Some(&staged));
    assert_ne!(staged, user);
}

#[test]
fn checksums_are_lower_case_hexadecimal() {
    let mut disk = seeded();
    let manifest = disk.snapshot().unwrap();
    assert_eq!(manifest.checksums.entries().len(), 2);
    for (_, text) in manifest.checksums.entries() {
        assert_eq!(text.len(), 64);
        assert!(text.chars().all(|c| matches!(c, '0'..='9' | 'a'..='f')));
    }
}

#[test]
fn every_failure_of_a_restoration_is_reported() {
    for fail_at in 0..25 {
        let mut disk = seeded();
        let manifest = disk.snapshot().unwrap();
        disk.served = 0;
        disk.fail_at = Some(fail_at);
        match disk.restore(&manifest) {
            Err(BackupError::Io(text)) => assert_eq!(text, "the disk is gone"),
            other => panic!("request {} failed unnoticed: {:?}", fail_at, other),
        }
        assert_eq!(disk.served, fail_at + 1);
    }
}

#[test]
fn restore_notices_an_altered_directory() {
    let mut disk = seeded();
    let manifest = disk.snapshot().unwrap();
    disk.file(Area::Staging, &["collab_db", "000005.log"], b"test-key=something-else");
    match disk.restore(&manifest) {
        Err(BackupError::Snapshot(text)) => {
            assert!(text.starts_with("checksum mismatch for collab_db: expected "), "{}", text);
        },
        other => panic!("{:?}", other),
    }
}

#[test]
fn restore_asks_for_every_checksum() {
    let mut disk = seeded();
    let manifest = disk.snapshot().unwrap();
    let database = manifest.checksums.get("flowy-database.db").unwrap().clone();

    let empty = SnapshotManifest { checksums: flowy_backup::manifest::Checksums::new() };
    match disk.restore(&empty) {
        Err(BackupError::Snapshot(text)) => {
            assert_eq!(text, "no checksum in the manifest for flowy-database.db");
        },
        other => panic!("{:?}", other),
    }

    let mut half = flowy_backup::manifest::Checksums::new();
    assert_eq!(half.insert(String::from("flowy-database.db"), database), None);
    match disk.restore(&SnapshotManifest { checksums: half }) {
        Err(BackupError::Snapshot(text)) => {
            assert_eq!(text, "no checksum in the manifest for collab_db");
        },
        other => panic!("{:?}", other),
    }
}

#[test]
fn replies_that_do_not_fit_are_told_apart() {
    let job = compute_sha256_dir(place(Area::User, &["d"]));
    assert!(job.accepts(&Reply::Names(Vec::new())));
    assert!(job.accepts(&Reply::Failed(String::new())));
    assert!(!job.accepts(&Reply::Done));
    assert!(!job.accepts(&Reply::Data(Vec::new())));
    let job = job.step(Reply::Names(vec![b"x".to_vec()]));
    assert!(job.accepts(&Reply::Kind(NodeKind::Dir)));
    assert!(!job.accepts(&Reply::Names(Vec::new())));
    let job = job.step(Reply::Kind(NodeKind::Other));
    assert!(!job.accepts(&Reply::Done));
    assert!(job.request().is_none());

    let job = snapshot_closed_collab_db(place(Area::User, &[]), place(Area::Staging, &[]));
    assert!(job.accepts(&Reply::Done));
    assert!(!job.accepts(&Reply::EndOfDir));
    let job = job.step(Reply::Done).step(Reply::Done);
    assert!(job.accepts(&Reply::EndOfDir));
    assert!(!job.accepts(&Reply::Done));

    let job = SnapshotService::new(()).snapshot();
    assert!(job.accepts(&Reply::Done));
    assert!(!job.accepts(&Reply::Data(Vec::new())));
    let job = job.step(Reply::Done);
    assert!(job.accepts(&Reply::Kind(NodeKind::Missing)));
    assert!(!job.accepts(&Reply::Done));
}

#[test]
fn requests_name_the_places() {
    let job = SnapshotService::new(()).snapshot();
    match job.request() {
        Some(Request::CreateDirAll(place)) => assert_eq!(key(&place), spot(Area::Staging, &[])),
        other => panic!("{:?}", other),
    }
    let job = job.step(Reply::Done);
    match job.request() {
        Some(Request::Inspect(place)) => {
            assert_eq!(key(&place), spot(Area::Staging, &["flowy-database.db"]));
        },
        other => panic!("{:?}", other),
    }
    let job = job.step(Reply::Kind(NodeKind::Missing));
    match job.request() {
        Some(Request::Inspect(place)) => {
            assert_eq!(key(&place), spot(Area::Staging, &["collab_db"]));
        },
        other => panic!("{:?}", other),
    }
    let job = job.step(Reply::Kind(NodeKind::Missing));
    match job.request() {
        Some(Request::VacuumInto { from, to }) => {
            assert_eq!(key(&from), spot(Area::User, &["flowy-database.db"]));
            assert_eq!(key(&to), key(&database_place(Area::Staging)));
        },
        other => panic!("{:?}", other),
    }
    assert!(job.outcome().is_none());
}
