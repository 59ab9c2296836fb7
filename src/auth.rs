//! Credentials in requests: the basic authorization header, its check
//! against the store, and the shape of acceptable user names.

use vstd::prelude::*;
use vstd::utf8::{decode_utf8, encode_utf8, valid_utf8};

use crate::db::{authenticates, Database};
use crate::shared::UserAuth;
use crate::text::{chars_of, same_text, string_of};

verus! {

/// The error type of `base64::decode`, carried opaquely.
#[verifier::external_type_specification]
#[verifier::external_body]
pub struct ExDecodeError(base64::DecodeError);

/// What decoding standard, padded base64 text gives: the bytes, or `None`
/// when the text is not such base64.
pub uninterp spec fn base64_decoded(text: Seq<u8>) -> Option<Seq<u8>>;

/// Relies on `base64::decode`: the bytes of standard, padded base64 text,
/// or an error when the text is not such base64. It panics when the length
/// of its input plus seven overflows `usize`.
#[verifier::external_body]
fn base64_decode(text: &[u8]) -> (r: Result<Vec<u8>, base64::DecodeError>)
    requires
        text@.len() + 7 <= usize::MAX,
    ensures
        r is Ok == base64_decoded(text@) is Some,
        r matches Ok(bytes) ==> base64_decoded(text@) == Some(bytes@),
{
    base64::decode(text)
}

/// Why a basic authorization header was refused.
#[derive(Clone, Copy, Debug, PartialEq, Eq, Structural)]
pub enum AuthError {
    InvalidAuthHeader,
    InvalidBase64,
}

/// The bytes of `Basic `.
pub open spec fn basic_prefix() -> Seq<u8> {
    seq![66u8, 97u8, 115u8, 105u8, 99u8, 32u8]
}

/// Whether `p` occurs in `s` at position `i`.
pub open spec fn occurs_at(s: Seq<u8>, p: Seq<u8>, i: int) -> bool {
    0 <= i && i + p.len() <= s.len() && s.subrange(i, i + p.len()) == p
}

/// Whether `Basic ` occurs in `h` at `i` and nowhere else.
pub open spec fn only_prefix_at(h: Seq<u8>, i: int) -> bool {
    occurs_at(h, basic_prefix(), i) && forall|j: int| occurs_at(h, basic_prefix(), j) ==> j == i
}

/// What follows `Basic ` in a header that holds it exactly once.
pub open spec fn basic_payload(h: Seq<u8>) -> Option<Seq<u8>> {
    if exists|i: int| only_prefix_at(h, i) {
        let i = choose|i: int| only_prefix_at(h, i);
        Some(h.subrange(i + 6, h.len() as int))
    } else {
        None
    }
}

/// The end of the first field of `t`: the position of its first colon, or
/// its length when it has none.
#[verifier::opaque]
pub open spec fn field_end(t: Seq<char>) -> int {
    if exists|i: int| 0 <= i < t.len() && t[i] == ':' {
        choose|i: int| 0 <= i < t.len() && t[i] == ':' && forall|j: int| 0 <= j < i ==> t[j] != ':'
    } else {
        t.len() as int
    }
}

/// The user name and password in the text `name:pass`: the text before the
/// first colon, and the text from there to the next colon or the end.
/// `None` without a colon.
pub open spec fn split_credentials(t: Seq<char>) -> Option<(Seq<char>, Seq<char>)> {
    let e = field_end(t);
    if e < t.len() {
        let rest = t.subrange(e + 1, t.len() as int);
        Some((t.subrange(0, e), rest.subrange(0, field_end(rest))))
    } else {
        None
    }
}

/// The credentials carried by a basic authorization header with bytes `h`.
pub open spec fn basic_auth_of(h: Seq<u8>) -> Result<(Seq<char>, Seq<char>), AuthError> {
    match basic_payload(h) {
        None => Err(AuthError::InvalidAuthHeader),
        Some(payload) => match base64_decoded(payload) {
            None => Err(AuthError::InvalidBase64),
            Some(bytes) => if !valid_utf8(bytes) {
                Err(AuthError::InvalidBase64)
            } else {
                match split_credentials(decode_utf8(bytes)) {
                    None => Err(AuthError::InvalidAuthHeader),
                    Some(c) => Ok(c),
                }
            },
        },
    }
}

/// Whether `Basic ` occurs in `h` at `i`.
fn prefix_at(h: &[u8], i: usize) -> (r: bool)
    requires
        i + 6 <= h@.len(),
    ensures
        r == occurs_at(h@, basic_prefix(), i as int),
{
    let r = h[i] == 66 && h[i + 1] == 97 && h[i + 2] == 115 && h[i + 3] == 105 && h[i + 4] == 99
        && h[i + 5] == 32;
    proof {
        if r {
            assert(h@.subrange(i as int, i + 6) =~= basic_prefix());
        } else if h@.subrange(i as int, i + 6) == basic_prefix() {
            assert(h@.subrange(i as int, i + 6)[0] == h@[i as int]);
            assert(h@.subrange(i as int, i + 6)[5] == h@[i + 5]);
            assert(h@.subrange(i as int, i + 6)[1] == h@[i + 1]);
            assert(h@.subrange(i as int, i + 6)[2] == h@[i + 2]);
            assert(h@.subrange(i as int, i + 6)[3] == h@[i + 3]);
            assert(h@.subrange(i as int, i + 6)[4] == h@[i + 4]);
        }
    }
    r
}

/// The position of the only `Basic ` in `h`, if it holds exactly one.
fn find_only_prefix(h: &[u8]) -> (r: Option<usize>)
    ensures
        match r {
            Some(i) => only_prefix_at(h@, i as int),
            None => !exists|i: int| only_prefix_at(h@, i),
        },
{
    let mut found: Option<usize> = None;
    let mut i: usize = 0;
    while i < h.len()
        invariant
            i <= h@.len(),
            match found {
                Some(f) => f < i && occurs_at(h@, basic_prefix(), f as int),
                None => true,
            },
            forall|j: int|
                0 <= j < i && occurs_at(h@, basic_prefix(), j) ==> found == Some(j as usize),
        decreases h.len() - i,
    {
        if h.len() - i >= 6 && prefix_at(h, i) {
            if found.is_some() {
                proof {
                    let f = found->0 as int;
                    assert forall|k: int| !only_prefix_at(h@, k) by {
                        if only_prefix_at(h@, k) {
                            assert(f == k);
                            assert(i == k);
                        }
                    }
                }
                return None;
            }
            found = Some(i);
        }
        i = i + 1;
    }
    proof {
        assert forall|j: int| occurs_at(h@, basic_prefix(), j) implies 0 <= j < i by {}
    }
    match found {
        Some(f) => Some(f),
        None => {
            proof {
                assert forall|k: int| !only_prefix_at(h@, k) by {}
            }
            None
        },
    }
}

/// The end of the field of `cs` that starts at `from`: the position of the
/// first colon from there on, or the length of `cs`.
fn field_end_from(cs: &Vec<char>, from: usize) -> (r: usize)
    requires
        from <= cs@.len(),
    ensures
        r == from + field_end(cs@.subrange(from as int, cs@.len() as int)),
        from <= r <= cs@.len(),
{
    let ghost t = cs@.subrange(from as int, cs@.len() as int);
    let mut i: usize = from;
    while i < cs.len()
        invariant
            from <= i <= cs@.len(),
            t == cs@.subrange(from as int, cs@.len() as int),
            forall|j: int| from <= j < i ==> cs@[j] != ':',
        decreases cs.len() - i,
    {
        if cs[i] == ':' {
            proof {
                reveal(field_end);
                let k = (i - from) as int;
                assert(t[k] == ':');
                assert forall|j: int| 0 <= j < k implies t[j] != ':' by {
                    assert(t[j] == cs@[from + j]);
                }
                let c = field_end(t);
                assert(0 <= c < t.len() && t[c] == ':' && forall|j: int| 0 <= j < c ==> t[j] != ':');
                if c < k {
                    assert(t[c] == cs@[from + c]);
                } else if k < c {
                }
            }
            return i;
        }
        i = i + 1;
    }
    proof {
        reveal(field_end);
        assert forall|j: int| 0 <= j < t.len() implies t[j] != ':' by {
            assert(t[j] == cs@[from + j]);
        }
    }
    i
}

/// The bytes of `h` from position `from` on.
fn bytes_from(h: &[u8], from: usize) -> (r: Vec<u8>)
    requires
        from <= h@.len(),
    ensures
        r@ == h@.subrange(from as int, h@.len() as int),
{
    let mut r: Vec<u8> = Vec::new();
    let mut i: usize = from;
    while i < h.len()
        invariant
            from <= i <= h@.len(),
            r@ == h@.subrange(from as int, i as int),
        decreases h.len() - i,
    {
        r.push(h[i]);
        i = i + 1;
        proof {
            assert(r@ =~= h@.subrange(from as int, i as int));
        }
    }
    r
}

/// The user name and password in `text`, split as `split_credentials` says.
fn split_text(text: &str) -> (r: Option<UserAuth>)
    ensures
        match (r, split_credentials(text@)) {
            (Some(a), Some((name, pass))) => a.name@ == name && a.pass@ == pass,
            (None, None) => true,
            _ => false,
        },
{
    let cs = chars_of(text);
    let end = field_end_from(&cs, 0);
    proof {
        assert(cs@.subrange(0, cs@.len() as int) =~= cs@);
    }
    if end == cs.len() {
        return None;
    }
    let pass_end = field_end_from(&cs, end + 1);
    let name = string_of(&cs, 0, end);
    let pass = string_of(&cs, end + 1, pass_end);
    proof {
        let t = cs@;
        let rest = t.subrange(end + 1, t.len() as int);
        assert(t.subrange(end + 1, pass_end as int) =~= rest.subrange(0, field_end(rest)));
    }
    Some(UserAuth { name, pass })
}

/// Reads the credentials of a basic authorization header: `Basic `,
/// exactly once, followed by the base64 text of `name:pass`.
pub fn extract_basicauth(header: String) -> (r: Result<UserAuth, AuthError>)
    requires
        encode_utf8(header@).len() < usize::MAX,
    ensures
        match (r, basic_auth_of(encode_utf8(header@))) {
            (Ok(a), Ok((name, pass))) => a.name@ == name && a.pass@ == pass,
            (Err(e), Err(f)) => e == f,
            _ => false,
        },
{
    let h = header.as_str().as_bytes();
    let at = match find_only_prefix(h) {
        None => {
            return Err(AuthError::InvalidAuthHeader);
        },
        Some(at) => at,
    };
    let n: usize = h.len();
    assert(basic_prefix().len() == 6);
    assert(occurs_at(h@, basic_prefix(), at as int));
    let payload = bytes_from(h, at + 6);
    proof {
        assert(only_prefix_at(h@, at as int));
        assert(basic_payload(h@) == Some(payload@));
    }
    let bytes = match base64_decode(payload.as_slice()) {
        Err(_) => {
            return Err(AuthError::InvalidBase64);
        },
        Ok(bytes) => bytes,
    };
    let text = match String::from_utf8(bytes) {
        Err(_) => {
            return Err(AuthError::InvalidBase64);
        },
        Ok(text) => text,
    };
    match split_text(text.as_str()) {
        None => Err(AuthError::InvalidAuthHeader),
        Some(auth) => Ok(auth),
    }
}

/// Whether a header with bytes `h` authenticates a user of `m`.
pub open spec fn authorized(m: crate::models::DatabaseModelView, h: Seq<u8>) -> bool {
    basic_auth_of(h) matches Ok((name, pass)) && authenticates(m, name, pass)
}

/// Whether a header with bytes `h` authenticates the user `user` of `m`.
pub open spec fn authorized_as(m: crate::models::DatabaseModelView, user: Seq<char>, h: Seq<u8>) -> bool {
    basic_auth_of(h) matches Ok((name, pass)) && authenticates(m, name, pass) && name == user
}

/// Admits a request for `user` whose header authenticates that very user.
pub fn authorize(user: &str, header: String, database: &Database) -> (r: Result<(), ()>)
    requires
        database@.wf(),
        encode_utf8(header@).len() < usize::MAX,
    ensures
        r is Ok == authorized_as(database@, user@, encode_utf8(header@)),
{
    let auth = match extract_basicauth(header) {
        Err(_) => {
            return Err(());
        },
        Ok(auth) => auth,
    };
    if !database.authenticate_user(&auth) || !same_text(auth.name.as_str(), user) {
        return Err(());
    }
    Ok(())
}

/// Admits a request whose header authenticates any user.
pub fn authorize_general(header: String, database: &Database) -> (r: Result<(), ()>)
    requires
        database@.wf(),
        encode_utf8(header@).len() < usize::MAX,
    ensures
        r is Ok == authorized(database@, encode_utf8(header@)),
{
    let auth = match extract_basicauth(header) {
        Err(_) => {
            return Err(());
        },
        Ok(auth) => auth,
    };
    if !database.authenticate_user(&auth) {
        return Err(());
    }
    Ok(())
}

/// Whether `c` is an ASCII letter or digit.
pub open spec fn is_ascii_alphanumeric(c: char) -> bool {
    ('0' <= c && c <= '9') || ('A' <= c && c <= 'Z') || ('a' <= c && c <= 'z')
}

/// Whether `username` is acceptable: not empty, and only ASCII letters and
/// digits.
pub fn is_valid_username(username: &str) -> (r: bool)
    ensures
        r == (username@.len() > 0 && forall|i: int|
            0 <= i < username@.len() ==> is_ascii_alphanumeric(#[trigger] username@[i])),
{
    let cs = chars_of(username);
    if cs.len() == 0 {
        return false;
    }
    let mut i: usize = 0;
    while i < cs.len()
        invariant
            cs@ == username@,
            i <= cs@.len(),
            forall|j: int| 0 <= j < i ==> is_ascii_alphanumeric(#[trigger] cs@[j]),
        decreases cs.len() - i,
    {
        let c = cs[i];
        if !(('0' <= c && c <= '9') || ('A' <= c && c <= 'Z') || ('a' <= c && c <= 'z')) {
            return false;
        }
        i = i + 1;
    }
    true
}

} // verus!
