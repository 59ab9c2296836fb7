use jdav_server::auth::{authorize, authorize_general, extract_basicauth, AuthError};
use jdav_server::credentials::hash_password;
use jdav_server::db::Database;
use jdav_server::shared::UserAuth;

#[test]
pub fn works() {
    let pass_entry = base64::encode(b"wurst:kaese");
    let user_auth = extract_basicauth(format!("Basic {}", pass_entry));
    assert_eq!(
        user_auth.unwrap(),
        UserAuth {
            name: "wurst".to_owned(),
            pass: "kaese".to_owned(),
        },
    )
}

#[test]
fn header_without_basic_is_refused() {
    assert_eq!(
        extract_basicauth("Bearer d3Vyc3Q6a2Flc2U=".to_owned()),
        Err(AuthError::InvalidAuthHeader)
    );
    assert_eq!(extract_basicauth(String::new()), Err(AuthError::InvalidAuthHeader));
}

#[test]
fn header_with_basic_twice_is_refused() {
    assert_eq!(
        extract_basicauth("Basic Basic d3Vyc3Q6a2Flc2U=".to_owned()),
        Err(AuthError::InvalidAuthHeader)
    );
}

#[test]
fn text_before_basic_is_ignored() {
    let auth = extract_basicauth("xyBasic d3Vyc3Q6a2Flc2U=".to_owned()).unwrap();
    assert_eq!(auth.name, "wurst");
    assert_eq!(auth.pass, "kaese");
}

#[test]
fn bad_base64_is_refused() {
    assert_eq!(extract_basicauth("Basic !!!".to_owned()), Err(AuthError::InvalidBase64));
}

#[test]
fn bytes_that_are_not_utf8_are_refused() {
    assert_eq!(extract_basicauth("Basic //46eA==".to_owned()), Err(AuthError::InvalidBase64));
}

#[test]
fn credentials_without_colon_are_refused() {
    assert_eq!(
        extract_basicauth("Basic bm9jb2xvbg==".to_owned()),
        Err(AuthError::InvalidAuthHeader)
    );
    assert_eq!(extract_basicauth("Basic ".to_owned()), Err(AuthError::InvalidAuthHeader));
}

#[test]
fn password_ends_at_the_second_colon() {
    let auth = extract_basicauth("Basic YTpiOmM=".to_owned()).unwrap();
    assert_eq!(auth.name, "a");
    assert_eq!(auth.pass, "b");
}

#[test]
fn non_ascii_credentials_are_decoded() {
    let auth = extract_basicauth("Basic aMOkc2luOnDDpHNz".to_owned()).unwrap();
    assert_eq!(auth.name, "häsin");
    assert_eq!(auth.pass, "päss");
}

#[test]
fn header_round_trips_credentials() {
    let auth = UserAuth { name: "häsin".to_owned(), pass: "p:w".to_owned() };
    let back = extract_basicauth(auth.to_basic_auth_header()).unwrap();
    assert_eq!(back.name, "häsin");
    assert_eq!(back.pass, "p");
}

#[test]
fn digest_is_base64_of_sha256_of_password_and_salt() {
    assert_eq!(
        hash_password("geheim", "AAAAAAAAAAA="),
        "1CISUo5bTnipueD1mzu63ksMSpoYUf9QYCInKbz0aBc="
    );
}

fn store_with_wurst() -> Database {
    let mut db = Database::default();
    assert!(db.create_user(UserAuth { name: "wurst".to_owned(), pass: "kaese".to_owned() }));
    db
}

#[test]
fn authorize_admits_the_named_user_only() {
    let db = store_with_wurst();
    let header = format!("Basic {}", base64::encode(b"wurst:kaese"));
    assert_eq!(authorize("wurst", header.clone(), &db), Ok(()));
    assert_eq!(authorize("brot", header, &db), Err(()));
    let wrong = format!("Basic {}", base64::encode(b"wurst:brot"));
    assert_eq!(authorize("wurst", wrong, &db), Err(()));
    assert_eq!(authorize("wurst", "garbage".to_owned(), &db), Err(()));
}

#[test]
fn authorize_general_admits_any_user() {
    let db = store_with_wurst();
    let header = format!("Basic {}", base64::encode(b"wurst:kaese"));
    assert_eq!(authorize_general(header, &db), Ok(()));
    let unknown = format!("Basic {}", base64::encode(b"brot:kaese"));
    assert_eq!(authorize_general(unknown, &db), Err(()));
}
