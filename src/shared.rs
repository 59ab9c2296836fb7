//! Plain records shared between the store and its callers.

use vstd::prelude::*;
use vstd::utf8::encode_utf8;

use crate::credentials::{base64_encodable, base64_encode, base64_of};
use crate::text::{concat, same_text};

verus! {

/// A distance, held in whole meters.
#[derive(Clone, Copy, Debug, PartialEq, Eq, Structural, Default)]
pub struct Kilometer {
    pub meters: u32,
}

/// The identifier of an entry: the 128 bits of a UUID.
#[derive(Clone, Copy, Debug, PartialEq, Eq, Structural)]
pub struct Id {
    pub id: u128,
}

/// A UTC instant: whole seconds since the Unix epoch and the nanoseconds
/// past that second.
#[derive(Clone, Copy, Debug, PartialEq, Eq, Structural)]
pub struct Timestamp {
    pub seconds: i64,
    pub nanos: u32,
}

/// The instant that stands for "unknown": the Unix epoch.
pub open spec fn epoch() -> Timestamp {
    Timestamp { seconds: 0, nanos: 0 }
}

/// The kind of an activity. Each kind weighs its distance differently in
/// the highscore and has a slug that names it in request paths.
#[derive(Clone, Copy, Debug, PartialEq, Eq, Structural)]
pub enum Kind {
    Running,
    Biking,
    Climbing,
    Skating,
    Hiking,
    Swimming,
}

/// One recorded activity.
#[derive(Clone, Copy, Debug, PartialEq, Eq, Structural)]
pub struct KilometerEntry {
    pub id: Id,
    pub kilometers: Kilometer,
    pub kind: Kind,
    pub timestamp: Timestamp,
}

/// The weight of a kind, counted in quarters: a running meter is worth
/// four quarters, a biking meter one.
pub open spec fn quarter_weight(k: Kind) -> nat {
    match k {
        Kind::Running => 4,
        Kind::Biking => 1,
        Kind::Climbing => 400,
        Kind::Skating => 3,
        Kind::Hiking => 8,
        Kind::Swimming => 40,
    }
}

/// The slug that names a kind in request paths.
pub open spec fn slug(k: Kind) -> Seq<char> {
    match k {
        Kind::Running => "laufen"@,
        Kind::Biking => "radfahren"@,
        Kind::Climbing => "klettern"@,
        Kind::Skating => "skaten"@,
        Kind::Hiking => "wandern"@,
        Kind::Swimming => "schwimmen"@,
    }
}

/// The kind that a slug names, if any.
pub open spec fn kind_of_slug(s: Seq<char>) -> Option<Kind> {
    if s == slug(Kind::Running) {
        Some(Kind::Running)
    } else if s == slug(Kind::Biking) {
        Some(Kind::Biking)
    } else if s == slug(Kind::Climbing) {
        Some(Kind::Climbing)
    } else if s == slug(Kind::Skating) {
        Some(Kind::Skating)
    } else if s == slug(Kind::Swimming) {
        Some(Kind::Swimming)
    } else if s == slug(Kind::Hiking) {
        Some(Kind::Hiking)
    } else {
        None
    }
}

/// The name under which a kind is shown to people.
pub open spec fn display_name(k: Kind) -> Seq<char> {
    match k {
        Kind::Biking => "Radeln"@,
        Kind::Climbing => "Klettern"@,
        Kind::Running => "Laufen"@,
        Kind::Skating => "Skaten"@,
        Kind::Hiking => "Wandern"@,
        Kind::Swimming => "Schwimmen"@,
    }
}

impl Kind {
    /// The multiplier of this kind in quarters (`4` stands for `1.0`).
    pub fn get_kind_multiplier(&self) -> (r: u32)
        ensures
            r == quarter_weight(*self),
    {
        match self {
            Kind::Running => 4,
            Kind::Biking => 1,
            Kind::Climbing => 400,
            Kind::Skating => 3,
            Kind::Hiking => 8,
            Kind::Swimming => 40,
        }
    }

    /// Every kind, once each, in the order of the enum.
    pub fn all() -> (r: Vec<Kind>)
        ensures
            r@ == seq![
                Kind::Running,
                Kind::Biking,
                Kind::Climbing,
                Kind::Skating,
                Kind::Hiking,
                Kind::Swimming,
            ],
            forall|k: Kind| r@.contains(k),
    {
        let r = vec![
            Kind::Running,
            Kind::Biking,
            Kind::Climbing,
            Kind::Skating,
            Kind::Hiking,
            Kind::Swimming,
        ];
        assert forall|k: Kind| r@.contains(k) by {
            match k {
                Kind::Running => assert(r@[0] == k),
                Kind::Biking => assert(r@[1] == k),
                Kind::Climbing => assert(r@[2] == k),
                Kind::Skating => assert(r@[3] == k),
                Kind::Hiking => assert(r@[4] == k),
                Kind::Swimming => assert(r@[5] == k),
            }
        }
        r
    }

    /// The slug of this kind.
    pub fn get_path(&self) -> (r: String)
        ensures
            r@ == slug(*self),
    {
        match self {
            Kind::Running => "laufen",
            Kind::Biking => "radfahren",
            Kind::Climbing => "klettern",
            Kind::Skating => "skaten",
            Kind::Hiking => "wandern",
            Kind::Swimming => "schwimmen",
        }.to_owned()
    }

    /// The kind named by a slug; `None` for any other text.
    pub fn from_string(input: &str) -> (r: Option<Kind>)
        ensures
            r == kind_of_slug(input@),
    {
        if same_text(input, "laufen") {
            Some(Kind::Running)
        } else if same_text(input, "radfahren") {
            Some(Kind::Biking)
        } else if same_text(input, "klettern") {
            Some(Kind::Climbing)
        } else if same_text(input, "skaten") {
            Some(Kind::Skating)
        } else if same_text(input, "schwimmen") {
            Some(Kind::Swimming)
        } else if same_text(input, "wandern") {
            Some(Kind::Hiking)
        } else {
            None
        }
    }

    /// The name under which this kind is shown.
    pub fn to_string(&self) -> (r: String)
        ensures
            r@ == display_name(*self),
    {
        match self {
            Kind::Biking => "Radeln",
            Kind::Climbing => "Klettern",
            Kind::Running => "Laufen",
            Kind::Skating => "Skaten",
            Kind::Hiking => "Wandern",
            Kind::Swimming => "Schwimmen",
        }.to_owned()
    }
}

/// Every slug names its own kind again, and a text names a kind only when
/// it is that kind's slug.
pub proof fn lemma_slug_round_trip(k: Kind)
    ensures
        kind_of_slug(slug(k)) == Some(k),
        forall|s: Seq<char>| kind_of_slug(s) == Some(k) ==> s == slug(k),
{
    reveal_strlit("laufen");
    reveal_strlit("radfahren");
    reveal_strlit("klettern");
    reveal_strlit("skaten");
    reveal_strlit("wandern");
    reveal_strlit("schwimmen");
    assert("laufen"@[0] == 'l');
    assert("radfahren"@[0] == 'r');
    assert("klettern"@[0] == 'k');
    assert("skaten"@[1] == 'k');
    assert("schwimmen"@[1] == 'c');
    assert("wandern"@[0] == 'w');
}

impl Default for KilometerEntry {
    /// An entry with the nil id, no distance, biking, at the epoch.
    fn default() -> (r: Self)
        ensures
            r == (KilometerEntry {
                id: Id { id: 0 },
                kilometers: Kilometer { meters: 0 },
                kind: Kind::Biking,
                timestamp: epoch(),
            }),
    {
        KilometerEntry {
            id: Id { id: 0 },
            kilometers: Kilometer { meters: 0 },
            kind: Kind::Biking,
            timestamp: Timestamp { seconds: 0, nanos: 0 },
        }
    }
}

/// A user name and a password, as a caller presents them.
#[derive(Clone, Debug, PartialEq)]
pub struct UserAuth {
    pub name: String,
    pub pass: String,
}

impl Default for UserAuth {
    fn default() -> (r: Self)
        ensures
            r.name@ == Seq::<char>::empty(),
            r.pass@ == Seq::<char>::empty(),
    {
        UserAuth { name: String::new(), pass: String::new() }
    }
}

/// The credentials `name:pass` as they travel in a basic authorization header.
pub open spec fn basic_credentials(name: Seq<char>, pass: Seq<char>) -> Seq<u8> {
    encode_utf8(name + seq![':'] + pass)
}

impl UserAuth {
    /// The value of a basic authorization header for these credentials:
    /// `Basic ` followed by the base64 text of `name:pass`.
    pub fn to_basic_auth_header(&self) -> (r: String)
        requires
            base64_encodable(basic_credentials(self.name@, self.pass@).len()),
        ensures
            r@ == "Basic "@ + base64_of(basic_credentials(self.name@, self.pass@)),
    {
        let with_colon = concat(self.name.as_str(), ":");
        let composed = concat(with_colon.as_str(), self.pass.as_str());
        proof {
            reveal_strlit(":");
            assert(composed@ == self.name@ + seq![':'] + self.pass@);
        }
        let encoded = base64_encode(composed.as_str().as_bytes());
        concat("Basic ", encoded.as_str())
    }
}

/// The points of one user.
#[derive(Clone, Debug, PartialEq)]
pub struct HighscoreEntry {
    pub user: String,
    /// Counted in quarter meters: a running kilometer is worth 4000.
    pub points: u128,
}

/// Users ranked by their points, best first.
#[derive(Clone, Debug, PartialEq)]
pub struct Highscore {
    pub list: Vec<HighscoreEntry>,
}

impl Default for Highscore {
    fn default() -> (r: Self)
        ensures
            r.list@ == Seq::<HighscoreEntry>::empty(),
    {
        Highscore { list: Vec::new() }
    }
}

/// The entries of one user.
#[derive(Clone, Debug, PartialEq)]
pub struct Entries {
    pub list: Vec<KilometerEntry>,
}

impl Default for Entries {
    fn default() -> (r: Self)
        ensures
            r.list@ == Seq::<KilometerEntry>::empty(),
    {
        Entries { list: Vec::new() }
    }
}

} // verus!
