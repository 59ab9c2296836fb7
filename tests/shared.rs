use jdav_server::shared::{Entries, Highscore, Kilometer, KilometerEntry, Kind, UserAuth};

#[test]
pub fn does_conversion() {
    assert_eq!(
        Some(Kind::Climbing),
        Kind::from_string(&Kind::Climbing.get_path()),
    );
    assert_eq!(
        Some(Kind::Hiking),
        Kind::from_string(&Kind::Hiking.get_path()),
    );
    assert_eq!(
        Some(Kind::Running),
        Kind::from_string(&Kind::Running.get_path()),
    );
    assert_eq!(
        Some(Kind::Swimming),
        Kind::from_string(&Kind::Swimming.get_path()),
    );
    assert_eq!(
        Some(Kind::Biking),
        Kind::from_string(&Kind::Biking.get_path()),
    );
    assert_eq!(
        Some(Kind::Skating),
        Kind::from_string(&Kind::Skating.get_path()),
    );
}

#[test]
pub fn rejects_unknown() {
    assert_eq!(None, Kind::from_string("wurst"),);
}

#[test]
fn slugs_are_the_path_segments() {
    assert_eq!(Kind::Running.get_path(), "laufen");
    assert_eq!(Kind::Biking.get_path(), "radfahren");
    assert_eq!(Kind::Climbing.get_path(), "klettern");
    assert_eq!(Kind::Skating.get_path(), "skaten");
    assert_eq!(Kind::Hiking.get_path(), "wandern");
    assert_eq!(Kind::Swimming.get_path(), "schwimmen");
}

#[test]
fn near_slugs_are_rejected() {
    assert_eq!(Kind::from_string(""), None);
    assert_eq!(Kind::from_string("Laufen"), None);
    assert_eq!(Kind::from_string("laufen "), None);
    assert_eq!(Kind::from_string("lauf"), None);
}

#[test]
fn multipliers_are_counted_in_quarters() {
    assert_eq!(Kind::Running.get_kind_multiplier(), 4);
    assert_eq!(Kind::Biking.get_kind_multiplier(), 1);
    assert_eq!(Kind::Climbing.get_kind_multiplier(), 400);
    assert_eq!(Kind::Skating.get_kind_multiplier(), 3);
    assert_eq!(Kind::Hiking.get_kind_multiplier(), 8);
    assert_eq!(Kind::Swimming.get_kind_multiplier(), 40);
}

#[test]
fn kinds_have_display_names() {
    assert_eq!(Kind::Biking.to_string(), "Radeln");
    assert_eq!(Kind::Climbing.to_string(), "Klettern");
    assert_eq!(Kind::Running.to_string(), "Laufen");
    assert_eq!(Kind::Skating.to_string(), "Skaten");
    assert_eq!(Kind::Hiking.to_string(), "Wandern");
    assert_eq!(Kind::Swimming.to_string(), "Schwimmen");
}

#[test]
fn default_entry_is_nil_biking_at_epoch() {
    let e = KilometerEntry::default();
    assert_eq!(e.id.id, 0);
    assert_eq!(e.kilometers, Kilometer { meters: 0 });
    assert_eq!(e.kind, Kind::Biking);
    assert_eq!(e.timestamp.seconds, 0);
    assert_eq!(e.timestamp.nanos, 0);
}

#[test]
fn defaults_are_empty() {
    let a = UserAuth::default();
    assert_eq!(a.name, "");
    assert_eq!(a.pass, "");
    assert!(Highscore::default().list.is_empty());
    assert!(Entries::default().list.is_empty());
}

#[test]
fn basic_auth_header_encodes_name_and_password() {
    let auth = UserAuth { name: "wurst".to_owned(), pass: "kaese".to_owned() };
    assert_eq!(auth.to_basic_auth_header(), "Basic d3Vyc3Q6a2Flc2U=");
}

#[test]
fn every_kind_is_listed_once_and_round_trips() {
    let all = Kind::all();
    assert_eq!(all.len(), 6);
    for (i, k) in all.iter().enumerate() {
        assert_eq!(Kind::from_string(&k.get_path()), Some(*k));
        for other in &all[..i] {
            assert_ne!(other, k);
            assert_ne!(other.get_path(), k.get_path());
        }
    }
}
