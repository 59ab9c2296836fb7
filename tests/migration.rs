use jdav_server::migration::migration_to_v1::{self, map_entry, map_users};
use jdav_server::migration::{migrate, MigrationError, StoredFile};
use jdav_server::models::{DatabaseModel, DatabaseVersion, DatabaseWithVersion, User};
use jdav_server::shared::{Id, Kilometer, KilometerEntry, Kind, Timestamp};

fn old_user(hash: &str, salt: &str) -> migration_to_v1::User {
    migration_to_v1::User { hash: hash.to_owned(), salt: salt.to_owned() }
}

fn old_entry(id: u128, meters: u32) -> migration_to_v1::KilometerEntry {
    migration_to_v1::KilometerEntry { id: Id { id }, kilometers: Kilometer { meters } }
}

const EPOCH: Timestamp = Timestamp { seconds: 0, nanos: 0 };

#[test]
fn missing_file_starts_empty_store() {
    let m = migrate(StoredFile::Missing).unwrap();
    assert!(m.entries.is_empty());
    assert!(m.users.is_empty());
    assert_eq!(m.database_version, DatabaseVersion::V1);
}

#[test]
fn unreadable_file_is_fatal() {
    assert_eq!(migrate(StoredFile::Unreadable).err(), Some(MigrationError::CorruptStore));
}

#[test]
fn untagged_entries_become_runs_at_the_epoch() {
    let old = migration_to_v1::DatabaseModel {
        entries: vec![("hase".to_owned(), vec![old_entry(11, 4200), old_entry(12, 800)])],
        users: vec![("hase".to_owned(), old_user("h", "s"))],
    };
    let m = migrate(StoredFile::Untagged(old)).unwrap();
    assert_eq!(m.database_version, DatabaseVersion::V1);
    assert_eq!(m.entries.len(), 1);
    assert_eq!(m.entries[0].0, "hase");
    assert_eq!(
        m.entries[0].1,
        vec![
            KilometerEntry { id: Id { id: 11 }, kilometers: Kilometer { meters: 4200 }, kind: Kind::Running, timestamp: EPOCH },
            KilometerEntry { id: Id { id: 12 }, kilometers: Kilometer { meters: 800 }, kind: Kind::Running, timestamp: EPOCH },
        ]
    );
    assert_eq!(m.users.len(), 1);
    assert_eq!(m.users[0].0, "hase");
    assert_eq!(m.users[0].1.hash, "h");
    assert_eq!(m.users[0].1.salt, "s");
}

#[test]
fn untagged_snapshot_with_duplicate_ids_is_corrupt() {
    let old = migration_to_v1::DatabaseModel {
        entries: vec![("hase".to_owned(), vec![old_entry(11, 1), old_entry(11, 2)])],
        users: vec![],
    };
    assert_eq!(migrate(StoredFile::Untagged(old)).err(), Some(MigrationError::CorruptStore));
}

fn snapshot() -> DatabaseModel {
    let e = KilometerEntry { id: Id { id: 3 }, kilometers: Kilometer { meters: 10 }, kind: Kind::Skating, timestamp: Timestamp { seconds: 1_600_000_000, nanos: 5 } };
    DatabaseModel {
        entries: vec![("hase".to_owned(), vec![e]), ("igel".to_owned(), vec![])],
        users: vec![("hase".to_owned(), User { hash: "h".to_owned(), salt: "s".to_owned() })],
        database_version: DatabaseVersion::V1,
    }
}

#[test]
fn current_snapshot_loads_unchanged() {
    let m = migrate(StoredFile::V1(snapshot())).unwrap();
    let expected = snapshot();
    assert_eq!(m.entries, expected.entries);
    assert_eq!(m.users.len(), 1);
    assert_eq!(m.users[0].0, "hase");
    assert_eq!(m.users[0].1.hash, "h");
    assert_eq!(m.users[0].1.salt, "s");
}

#[test]
fn duplicate_names_are_corrupt() {
    let mut m = snapshot();
    m.users.push(("hase".to_owned(), User { hash: "x".to_owned(), salt: "y".to_owned() }));
    assert_eq!(migrate(StoredFile::V1(m)).err(), Some(MigrationError::CorruptStore));
    let mut m = snapshot();
    m.entries.push(("igel".to_owned(), vec![]));
    assert_eq!(migrate(StoredFile::V1(m)).err(), Some(MigrationError::CorruptStore));
}

#[test]
fn consistency_check() {
    assert!(snapshot().is_consistent());
    assert!(DatabaseModel::default().is_consistent());
    let mut m = snapshot();
    let e = m.entries[0].1[0];
    m.entries[0].1.push(e);
    assert!(!m.is_consistent());
}

#[test]
fn map_entry_keeps_ids_and_distances() {
    let l = map_entry(&[old_entry(1, 2), old_entry(3, 4)]);
    assert_eq!(l.len(), 2);
    assert_eq!(l[1], KilometerEntry { id: Id { id: 3 }, kilometers: Kilometer { meters: 4 }, kind: Kind::Running, timestamp: EPOCH });
    assert!(map_entry(&[]).is_empty());
}

#[test]
fn map_users_keeps_names_digests_and_salts() {
    let users = map_users(vec![("a".to_owned(), old_user("h1", "s1")), ("b".to_owned(), old_user("h2", "s2"))]);
    assert_eq!(users.len(), 2);
    assert_eq!(users[1].0, "b");
    assert_eq!(users[1].1.hash, "h2");
    assert_eq!(users[1].1.salt, "s2");
}

#[test]
fn envelope_tells_versions_apart() {
    assert!(DatabaseWithVersion { database_version: Some(DatabaseVersion::V1) }.is_versioned());
    assert!(!DatabaseWithVersion { database_version: None }.is_versioned());
}
