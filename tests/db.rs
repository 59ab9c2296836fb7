use jdav_server::db::Database;
use jdav_server::highscore::get_highscore;
use jdav_server::models::DatabaseModel;
use jdav_server::shared::{Id, Kilometer, KilometerEntry, Kind, Timestamp, UserAuth};

fn auth(name: &str, pass: &str) -> UserAuth {
    UserAuth { name: name.to_owned(), pass: pass.to_owned() }
}

fn at(seconds: i64) -> Timestamp {
    Timestamp { seconds, nanos: 0 }
}

fn now() -> Timestamp {
    let t = chrono::Utc::now();
    Timestamp { seconds: t.timestamp(), nanos: t.timestamp_subsec_nanos() }
}

#[test]
pub fn can_process_one_kilometer_entry() {
    let mut database: DatabaseModel = Default::default();
    let id1 = Id { id: uuid::Uuid::new_v4().as_u128() };
    let id2 = Id { id: uuid::Uuid::new_v4().as_u128() };

    let kilometer1 = Kilometer { meters: 2000 };
    let kilometer2 = Kilometer { meters: 1000 };

    let kilometer_entry = KilometerEntry {
        id: id1,
        kilometers: kilometer1,
        kind: Kind::Running,
        timestamp: now(),
    };

    let kilometer_entry2 = KilometerEntry {
        id: id2,
        kilometers: kilometer2,
        kind: Kind::Running,
        timestamp: now(),
    };
    database.entries.push(("user1".to_owned(), vec![kilometer_entry]));

    database.entries.push(("user2".to_owned(), vec![kilometer_entry2]));

    let score = get_highscore(&database);
    let first = score.list.get(0).unwrap();
    let second = score.list.get(1).unwrap();
    assert_eq!(first.user, "user1");
    assert_eq!(second.user, "user2");
}

#[test]
fn highscore_ranks_regardless_of_insertion_order() {
    let mut db = Database::default();
    db.create_kilometer_entry(Kilometer { meters: 1000 }, "b".to_owned(), Kind::Running);
    db.create_kilometer_entry(Kilometer { meters: 2000 }, "a".to_owned(), Kind::Running);
    let list = db.get_highscore().list;
    assert_eq!(list.len(), 2);
    assert_eq!((list[0].user.as_str(), list[0].points), ("a", 8000));
    assert_eq!((list[1].user.as_str(), list[1].points), ("b", 4000));
}

#[test]
fn highscore_weighs_by_kind_and_sums_per_user() {
    let mut db = Database::default();
    db.create_kilometer_entry(Kilometer { meters: 10 }, "kletterer".to_owned(), Kind::Climbing);
    db.create_kilometer_entry(Kilometer { meters: 4000 }, "radler".to_owned(), Kind::Biking);
    db.create_kilometer_entry(Kilometer { meters: 100 }, "radler".to_owned(), Kind::Swimming);
    db.create_kilometer_entry(Kilometer { meters: 1000 }, "wanderer".to_owned(), Kind::Hiking);
    db.create_kilometer_entry(Kilometer { meters: 4 }, "wanderer".to_owned(), Kind::Skating);
    let list = db.get_highscore().list;
    let got: Vec<(&str, u128)> = list.iter().map(|e| (e.user.as_str(), e.points)).collect();
    assert_eq!(got, vec![("wanderer", 8012), ("radler", 8000), ("kletterer", 4000)]);
}

#[test]
fn highscore_keeps_order_of_ties() {
    let mut db = Database::default();
    db.create_kilometer_entry(Kilometer { meters: 250 }, "erst".to_owned(), Kind::Running);
    db.create_kilometer_entry(Kilometer { meters: 1000 }, "dann".to_owned(), Kind::Biking);
    let list = db.get_highscore().list;
    assert_eq!(list[0].user, "erst");
    assert_eq!(list[1].user, "dann");
    assert_eq!(list[0].points, 1000);
    assert_eq!(list[1].points, 1000);
}

#[test]
fn highscore_of_empty_store_is_empty() {
    assert!(Database::default().get_highscore().list.is_empty());
}

#[test]
fn highscore_of_largest_distances_does_not_overflow() {
    let mut db = Database::default();
    db.create_kilometer_entry(Kilometer { meters: u32::MAX }, "weit".to_owned(), Kind::Climbing);
    db.create_kilometer_entry(Kilometer { meters: u32::MAX }, "weit".to_owned(), Kind::Climbing);
    let list = db.get_highscore().list;
    assert_eq!(list[0].points, 2 * 400 * u32::MAX as u128);
}

#[test]
fn registered_user_authenticates_with_own_password_only() {
    let mut db = Database::default();
    assert!(db.create_user(auth("hase", "möhre")));
    assert!(db.authenticate_user(&auth("hase", "möhre")));
    assert!(!db.authenticate_user(&auth("hase", "moehre")));
    assert!(!db.authenticate_user(&auth("hase", "")));
    assert!(!db.authenticate_user(&auth("igel", "möhre")));
}

#[test]
fn second_registration_is_refused_whatever_the_password() {
    let mut db = Database::default();
    assert!(db.create_user(auth("hase", "eins")));
    assert!(!db.create_user(auth("hase", "zwei")));
    assert!(!db.create_user(auth("hase", "eins")));
    assert!(db.authenticate_user(&auth("hase", "eins")));
    assert!(!db.authenticate_user(&auth("hase", "zwei")));
    assert_eq!(db.database.users.len(), 1);
}

#[test]
fn empty_name_never_authenticates() {
    let mut db = Database::default();
    assert!(db.create_user(auth("", "leer")));
    assert!(!db.authenticate_user(&auth("", "leer")));
}

#[test]
fn salts_are_fresh_per_user() {
    let mut db = Database::default();
    assert!(db.create_user(auth("a", "gleich")));
    assert!(db.create_user(auth("b", "gleich")));
    let a = &db.database.users[0].1;
    let b = &db.database.users[1].1;
    assert_ne!(a.salt, b.salt);
    assert_ne!(a.hash, b.hash);
    assert_eq!(base64::decode(&a.salt).unwrap().len(), 8);
}

#[test]
fn registration_under_a_given_salt_stores_its_digest() {
    let mut db = Database::default();
    assert!(db.create_user_with_salt(auth("hase", "geheim"), "AAAAAAAAAAA=".to_owned()));
    let user = &db.database.users[0].1;
    assert_eq!(user.salt, "AAAAAAAAAAA=");
    assert_eq!(user.hash, "1CISUo5bTnipueD1mzu63ksMSpoYUf9QYCInKbz0aBc=");
    assert!(db.authenticate_user(&auth("hase", "geheim")));
}

#[test]
fn created_ids_are_distinct() {
    let mut db = Database::default();
    let mut ids = Vec::new();
    for i in 0..50u32 {
        ids.push(db.create_kilometer_entry(Kilometer { meters: i }, "hase".to_owned(), Kind::Running));
    }
    let entries = db.get_entries_for_user("hase".to_owned()).list;
    assert_eq!(entries.len(), 50);
    for a in 0..ids.len() {
        assert_eq!(entries[a].id, ids[a]);
        assert_eq!(entries[a].kilometers.meters, a as u32);
        for b in 0..a {
            assert_ne!(ids[a], ids[b]);
        }
    }
}

#[test]
fn colliding_candidate_gets_least_unused_id() {
    let mut db = Database::default();
    let five = Id { id: 5 };
    let k = Kilometer { meters: 1 };
    assert_eq!(db.insert_kilometer_entry(k, "hase".to_owned(), Kind::Running, five, at(1)), five);
    assert_eq!(db.insert_kilometer_entry(k, "hase".to_owned(), Kind::Running, five, at(2)), Id { id: 0 });
    assert_eq!(db.insert_kilometer_entry(k, "hase".to_owned(), Kind::Running, Id { id: 0 }, at(3)), Id { id: 1 });
    assert_eq!(db.insert_kilometer_entry(k, "igel".to_owned(), Kind::Running, five, at(4)), five);
    let list = db.get_entries_for_user("hase".to_owned()).list;
    let ids: Vec<u128> = list.iter().map(|e| e.id.id).collect();
    assert_eq!(ids, vec![5, 0, 1]);
    assert_eq!(list[2].timestamp, at(3));
}

#[test]
fn entries_of_unknown_user_are_empty() {
    let db = Database::default();
    assert!(db.get_entries_for_user("niemand".to_owned()).list.is_empty());
    assert_eq!(db.retrieve_kilometer_all("niemand".to_owned()), None);
    assert_eq!(db.retrieve_kilometer_sum("niemand".to_owned()), None);
    assert_eq!(db.retrieve_kilometer_entry(Id { id: 1 }, "niemand".to_owned()), None);
}

#[test]
fn entries_are_listed_in_creation_order() {
    let mut db = Database::default();
    let a = db.insert_kilometer_entry(Kilometer { meters: 3 }, "hase".to_owned(), Kind::Hiking, Id { id: 30 }, at(10));
    let b = db.insert_kilometer_entry(Kilometer { meters: 4 }, "hase".to_owned(), Kind::Biking, Id { id: 20 }, at(20));
    let list = db.get_entries_for_user("hase".to_owned()).list;
    assert_eq!(list.len(), 2);
    assert_eq!(list[0], KilometerEntry { id: a, kilometers: Kilometer { meters: 3 }, kind: Kind::Hiking, timestamp: at(10) });
    assert_eq!(list[1], KilometerEntry { id: b, kilometers: Kilometer { meters: 4 }, kind: Kind::Biking, timestamp: at(20) });
    assert_eq!(db.retrieve_kilometer_sum("hase".to_owned()), Some(7));
    assert_eq!(db.retrieve_kilometer_entry(b, "hase".to_owned()), Some(list[1]));
    assert_eq!(db.retrieve_kilometer_entry(Id { id: 99 }, "hase".to_owned()), None);
    assert_eq!(db.retrieve_kilometer_all("hase".to_owned()), Some(list));
}

#[test]
fn edit_with_unknown_id_changes_nothing() {
    let mut db = Database::default();
    let id = db.insert_kilometer_entry(Kilometer { meters: 3 }, "hase".to_owned(), Kind::Hiking, Id { id: 7 }, at(10));
    let before = db.get_entries_for_user("hase".to_owned()).list;
    let edit = KilometerEntry { id: Id { id: 8 }, kilometers: Kilometer { meters: 9 }, kind: Kind::Swimming, timestamp: at(99) };
    assert!(!db.edit_kilometer_entry("hase".to_owned(), edit));
    assert_eq!(db.get_entries_for_user("hase".to_owned()).list, before);
    assert_eq!(before[0].id, id);
}

#[test]
fn edit_of_unknown_user_is_refused() {
    let mut db = Database::default();
    let edit = KilometerEntry { id: Id { id: 8 }, kilometers: Kilometer { meters: 9 }, kind: Kind::Swimming, timestamp: at(99) };
    assert!(!db.edit_kilometer_entry("niemand".to_owned(), edit));
    assert!(db.database.entries.is_empty());
}

#[test]
fn edit_replaces_distance_and_kind_and_keeps_id_and_time() {
    let mut db = Database::default();
    db.insert_kilometer_entry(Kilometer { meters: 1 }, "hase".to_owned(), Kind::Running, Id { id: 1 }, at(10));
    let id = db.insert_kilometer_entry(Kilometer { meters: 3 }, "hase".to_owned(), Kind::Hiking, Id { id: 2 }, at(20));
    let edit = KilometerEntry { id, kilometers: Kilometer { meters: 9 }, kind: Kind::Swimming, timestamp: at(99) };
    assert!(db.edit_kilometer_entry("hase".to_owned(), edit));
    let list = db.get_entries_for_user("hase".to_owned()).list;
    assert_eq!(list.len(), 2);
    assert_eq!(list[0], KilometerEntry { id: Id { id: 1 }, kilometers: Kilometer { meters: 1 }, kind: Kind::Running, timestamp: at(10) });
    assert_eq!(list[1], KilometerEntry { id, kilometers: Kilometer { meters: 9 }, kind: Kind::Swimming, timestamp: at(20) });
}

#[test]
fn edits_touch_only_their_user() {
    let mut db = Database::default();
    db.insert_kilometer_entry(Kilometer { meters: 1 }, "a".to_owned(), Kind::Running, Id { id: 1 }, at(10));
    db.insert_kilometer_entry(Kilometer { meters: 2 }, "b".to_owned(), Kind::Running, Id { id: 1 }, at(10));
    let edit = KilometerEntry { id: Id { id: 1 }, kilometers: Kilometer { meters: 5 }, kind: Kind::Biking, timestamp: at(0) };
    assert!(db.edit_kilometer_entry("b".to_owned(), edit));
    assert_eq!(db.get_entries_for_user("a".to_owned()).list[0].kilometers.meters, 1);
    assert_eq!(db.get_entries_for_user("b".to_owned()).list[0].kilometers.meters, 5);
}

#[test]
fn store_over_loaded_snapshot_keeps_its_entries() {
    let e = KilometerEntry { id: Id { id: 4 }, kilometers: Kilometer { meters: 500 }, kind: Kind::Swimming, timestamp: at(7) };
    let model = DatabaseModel {
        entries: vec![("fisch".to_owned(), vec![e])],
        users: vec![],
        database_version: jdav_server::models::DatabaseVersion::V1,
    };
    let db = Database::new(model);
    assert_eq!(db.get_entries_for_user("fisch".to_owned()).list, vec![e]);
    let list = db.get_highscore().list;
    assert_eq!((list[0].user.as_str(), list[0].points), ("fisch", 20000));
}
