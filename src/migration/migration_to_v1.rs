//! The first, untagged generation of the snapshot, and its upgrade to the
//! current one. Its entries carry neither a kind nor a time: they become
//! runs made at the epoch.

use vstd::prelude::*;

use crate::models::{self, ids_distinct, keys_unique, users_view, Keyed, UserView};
use crate::shared::{self, epoch, Id, Kilometer, Kind, Timestamp};

verus! {

/// An entry of the untagged generation.
#[derive(Clone, Copy, Debug, PartialEq, Eq, Structural)]
pub struct KilometerEntry {
    pub id: Id,
    pub kilometers: Kilometer,
}

/// A user of the untagged generation.
#[derive(Clone, Debug)]
pub struct User {
    pub hash: String,
    pub salt: String,
}

impl View for User {
    type V = UserView;

    open spec fn view(&self) -> UserView {
        UserView { hash: self.hash@, salt: self.salt@ }
    }
}

/// A snapshot of the untagged generation.
pub struct DatabaseModel {
    pub entries: Vec<(String, Vec<KilometerEntry>)>,
    pub users: Vec<(String, User)>,
}

/// What an untagged snapshot holds.
pub struct DatabaseModelView {
    pub entries: Keyed<Seq<KilometerEntry>>,
    pub users: Keyed<UserView>,
}

impl DatabaseModelView {
    /// Names are unique in both lists and ids within each user's entries.
    pub open spec fn wf(self) -> bool {
        &&& keys_unique(self.entries)
        &&& keys_unique(self.users)
        &&& forall|i: int|
            0 <= i < self.entries.len() ==> ids_distinct(
                #[trigger] upgraded_list(self.entries[i].1),
            )
    }
}

impl View for DatabaseModel {
    type V = DatabaseModelView;

    open spec fn view(&self) -> DatabaseModelView {
        DatabaseModelView {
            entries: self.entries@.map_values(
                |p: (String, Vec<KilometerEntry>)| (p.0@, p.1@),
            ),
            users: self.users@.map_values(|p: (String, User)| (p.0@, p.1@)),
        }
    }
}

/// An untagged entry in the current schema: a run at the epoch.
pub open spec fn upgraded_entry(e: KilometerEntry) -> shared::KilometerEntry {
    shared::KilometerEntry { id: e.id, kilometers: e.kilometers, kind: Kind::Running, timestamp: epoch() }
}

/// A list of untagged entries in the current schema.
pub open spec fn upgraded_list(l: Seq<KilometerEntry>) -> Seq<shared::KilometerEntry> {
    l.map_values(|e: KilometerEntry| upgraded_entry(e))
}

/// An untagged snapshot in the current schema.
pub open spec fn upgraded(m: DatabaseModelView) -> models::DatabaseModelView {
    models::DatabaseModelView {
        entries: m.entries.map_values(
            |p: (Seq<char>, Seq<KilometerEntry>)| (p.0, upgraded_list(p.1)),
        ),
        users: m.users,
    }
}

/// The entries `entry` in the current schema.
pub fn map_entry(entry: &[KilometerEntry]) -> (r: Vec<shared::KilometerEntry>)
    ensures
        r@ == upgraded_list(entry@),
{
    let mut r: Vec<shared::KilometerEntry> = Vec::new();
    let mut i: usize = 0;
    while i < entry.len()
        invariant
            i <= entry@.len(),
            r@ == upgraded_list(entry@.subrange(0, i as int)),
        decreases entry.len() - i,
    {
        let e = entry[i];
        r.push(
            shared::KilometerEntry {
                id: e.id,
                kilometers: e.kilometers,
                kind: Kind::Running,
                timestamp: Timestamp { seconds: 0, nanos: 0 },
            },
        );
        i = i + 1;
        proof {
            assert(r@ =~= upgraded_list(entry@.subrange(0, i as int)));
        }
    }
    assert(entry@.subrange(0, entry@.len() as int) =~= entry@);
    r
}

/// The users `users` in the current schema: names, digests and salts stay.
pub fn map_users(users: Vec<(String, User)>) -> (r: Vec<(String, models::User)>)
    ensures
        users_view(r@) == users@.map_values(|p: (String, User)| (p.0@, p.1@)),
{
    let ghost src = users@.map_values(|p: (String, User)| (p.0@, p.1@));
    let mut r: Vec<(String, models::User)> = Vec::new();
    let mut i: usize = 0;
    while i < users.len()
        invariant
            i <= users@.len(),
            src == users@.map_values(|p: (String, User)| (p.0@, p.1@)),
            users_view(r@) == src.subrange(0, i as int),
        decreases users.len() - i,
    {
        let name = users[i].0.clone();
        let hash = users[i].1.hash.clone();
        let salt = users[i].1.salt.clone();
        let ghost before = r@;
        r.push((name, models::User { hash, salt }));
        proof {
            assert(users_view(r@) =~= users_view(before).push(src[i as int]));
            assert(src.subrange(0, i + 1) =~= src.subrange(0, i as int).push(src[i as int]));
        }
        i = i + 1;
    }
    assert(src.subrange(0, src.len() as int) =~= src);
    r
}

impl DatabaseModel {
    /// This snapshot in the current schema.
    pub fn to_v1(self) -> (r: models::DatabaseModel)
        ensures
            r@ == upgraded(self@),
            r.database_version == models::DatabaseVersion::V1,
    {
        let ghost m = self@;
        let mut entries: Vec<(String, Vec<shared::KilometerEntry>)> = Vec::new();
        let mut i: usize = 0;
        while i < self.entries.len()
            invariant
                i <= self.entries@.len(),
                m == self@,
                models::entry_lists_view(entries@) == upgraded(m).entries.subrange(0, i as int),
            decreases self.entries.len() - i,
        {
            let name = self.entries[i].0.clone();
            let list = map_entry(self.entries[i].1.as_slice());
            let ghost before = entries@;
            entries.push((name, list));
            proof {
                let u = upgraded(m).entries;
                assert(u[i as int] == (m.entries[i as int].0, upgraded_list(m.entries[i as int].1)));
                assert(models::entry_lists_view(entries@) =~= models::entry_lists_view(before).push(
                    u[i as int],
                ));
                assert(u.subrange(0, i + 1) =~= u.subrange(0, i as int).push(u[i as int]));
            }
            i = i + 1;
        }
        assert(upgraded(m).entries.subrange(0, m.entries.len() as int) =~= upgraded(m).entries);
        let users = map_users(self.users);
        models::DatabaseModel { entries, users, database_version: models::DatabaseVersion::V1 }
    }
}

} // verus!
