use jdav_server::auth::is_valid_username;

#[test]
pub fn space_is_bad() {
    assert_eq!(is_valid_username("a b"), false);
}

#[test]
pub fn reasonable_usernames_are_good() {
    assert_eq!(is_valid_username("hase123"), true);
}

#[test]
pub fn umlauts_are_bad() {
    assert_eq!(is_valid_username("häsin123"), false);
}

#[test]
pub fn empty_users_are_bad() {
    assert_eq!(is_valid_username(""), false);
}

#[test]
pub fn punctuation_is_bad() {
    assert_eq!(is_valid_username("hase-123"), false);
    assert_eq!(is_valid_username("hase:"), false);
}

#[test]
pub fn single_letters_and_digits_are_good() {
    assert_eq!(is_valid_username("Z"), true);
    assert_eq!(is_valid_username("0"), true);
    assert_eq!(is_valid_username("AbcXyz09"), true);
}
