use flowy_backup::paths::{staging_names, user_names};
use flowy_backup::snapshot::SnapshotService;

#[test]
fn user_directory_is_named_by_the_user_id() {
    let service = SnapshotService::new(String::from("/data"));
    let path = service.user_dir(42);
    assert_eq!(path.root, "/data");
    assert_eq!(path.parts, vec![String::from("42")]);
    assert_eq!(service.user_dir(-7).parts, vec![String::from("-7")]);
    assert_eq!(service.user_dir(0).parts, vec![String::from("0")]);
    assert_eq!(service.user_dir(i64::MIN).parts, vec![String::from("-9223372036854775808")]);
    assert_eq!(service.user_dir(i64::MAX).parts, vec![String::from("9223372036854775807")]);
}

#[test]
fn directories_of_users_and_backups_are_apart() {
    assert_ne!(user_names(1), user_names(-1));
    assert_ne!(user_names(1), user_names(10));
    let one = staging_names([0; 16]);
    let other = staging_names([1; 16]);
    assert_ne!(one, other);
    for uid in [0, 1, -1, i64::MAX] {
        assert!(!one.starts_with(&user_names(uid)));
        assert!(!user_names(uid).starts_with(&one));
    }
}

#[test]
fn no_part_of_a_path_leads_elsewhere() {
    let mut names = user_names(i64::MIN);
    names.extend(staging_names([0xff; 16]));
    for name in names {
        assert!(!name.is_empty() && name != "." && name != "..");
        assert!(!name.contains('/') && !name.contains('\\') && !name.contains(':'));
    }
}
