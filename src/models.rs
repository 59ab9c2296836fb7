//! The snapshot that the store holds and persists: users keyed by name,
//! and each user's entries in the order they were made.

use vstd::prelude::*;

use crate::shared::{Id, KilometerEntry};

verus! {

/// The credentials stored for one user.
#[derive(Clone, Debug)]
pub struct User {
    pub hash: String,
    pub salt: String,
}

/// What a stored user holds.
pub struct UserView {
    pub hash: Seq<char>,
    pub salt: Seq<char>,
}

impl View for User {
    type V = UserView;

    open spec fn view(&self) -> UserView {
        UserView { hash: self.hash@, salt: self.salt@ }
    }
}

/// The schema generations that carry a version tag.
#[derive(Clone, Copy, Debug, PartialEq, Eq, Structural)]
pub enum DatabaseVersion {
    V1,
}

/// The envelope of a stored snapshot: its version tag, absent in the
/// first, untagged generation.
#[derive(Clone, Copy, Debug)]
pub struct DatabaseWithVersion {
    pub database_version: Option<DatabaseVersion>,
}

impl DatabaseWithVersion {
    /// Whether the envelope carries a version tag.
    pub fn is_versioned(&self) -> (r: bool)
        ensures
            r == self.database_version is Some,
    {
        self.database_version.is_some()
    }
}

/// A list keyed by name, as the specifications see it.
pub type Keyed<V> = Seq<(Seq<char>, V)>;

/// Whether `k` is a key of `s`.
pub open spec fn has_key<V>(s: Keyed<V>, k: Seq<char>) -> bool {
    exists|i: int| 0 <= i < s.len() && #[trigger] s[i].0 == k
}

/// Whether no two items of `s` share a key.
pub open spec fn keys_unique<V>(s: Keyed<V>) -> bool {
    forall|i: int, j: int| 0 <= i < s.len() && 0 <= j < s.len() && i != j ==> s[i].0 != s[j].0
}

/// The position of key `k` in `s` (meaningful when `has_key(s, k)`).
pub open spec fn key_index<V>(s: Keyed<V>, k: Seq<char>) -> int {
    choose|i: int| 0 <= i < s.len() && s[i].0 == k
}

/// The value stored under key `k` (meaningful when `has_key(s, k)`).
pub open spec fn value_of<V>(s: Keyed<V>, k: Seq<char>) -> V {
    s[key_index(s, k)].1
}

/// Whether `id` is the id of an entry of `l`.
pub open spec fn has_id(l: Seq<KilometerEntry>, id: Id) -> bool {
    exists|i: int| 0 <= i < l.len() && #[trigger] l[i].id == id
}

/// Whether no two entries of `l` share an id.
pub open spec fn ids_distinct(l: Seq<KilometerEntry>) -> bool {
    forall|i: int, j: int| 0 <= i < l.len() && 0 <= j < l.len() && i != j ==> l[i].id != l[j].id
}

/// What a snapshot holds: each user's entries, in the order the users made
/// their first entry, and the users' credentials.
pub struct DatabaseModelView {
    pub entries: Keyed<Seq<KilometerEntry>>,
    pub users: Keyed<UserView>,
}

impl DatabaseModelView {
    /// The store's invariant: names are unique in both lists and ids are
    /// unique within each user's entries.
    pub open spec fn wf(self) -> bool {
        &&& keys_unique(self.entries)
        &&& keys_unique(self.users)
        &&& forall|i: int| 0 <= i < self.entries.len() ==> ids_distinct(#[trigger] self.entries[i].1)
    }

    /// The entries of `user`; none when the user has made none.
    pub open spec fn entries_of(self, user: Seq<char>) -> Seq<KilometerEntry> {
        if has_key(self.entries, user) {
            value_of(self.entries, user)
        } else {
            Seq::empty()
        }
    }
}

/// The snapshot itself.
pub struct DatabaseModel {
    pub entries: Vec<(String, Vec<KilometerEntry>)>,
    pub users: Vec<(String, User)>,
    pub database_version: DatabaseVersion,
}

/// The view of a list of named entry lists.
pub open spec fn entry_lists_view(v: Seq<(String, Vec<KilometerEntry>)>) -> Keyed<Seq<KilometerEntry>> {
    v.map_values(|p: (String, Vec<KilometerEntry>)| (p.0@, p.1@))
}

/// The view of a list of named users.
pub open spec fn users_view(v: Seq<(String, User)>) -> Keyed<UserView> {
    v.map_values(|p: (String, User)| (p.0@, p.1@))
}

impl View for DatabaseModel {
    type V = DatabaseModelView;

    open spec fn view(&self) -> DatabaseModelView {
        DatabaseModelView { entries: entry_lists_view(self.entries@), users: users_view(self.users@) }
    }
}

impl Default for DatabaseModel {
    /// An empty snapshot of the current schema.
    fn default() -> (r: Self)
        ensures
            r@.entries.len() == 0,
            r@.users.len() == 0,
            r@.wf(),
            r.database_version == DatabaseVersion::V1,
    {
        DatabaseModel { entries: Vec::new(), users: Vec::new(), database_version: DatabaseVersion::V1 }
    }
}

/// The position of the item named `k` in `v`, if there is one.
pub fn find_key<V>(v: &Vec<(String, V)>, k: &str) -> (r: Option<usize>)
    ensures
        match r {
            Some(i) => i < v@.len() && v@[i as int].0@ == k@,
            None => forall|i: int| 0 <= i < v@.len() ==> v@[i].0@ != k@,
        },
{
    let mut i: usize = 0;
    while i < v.len()
        invariant
            i <= v@.len(),
            forall|j: int| 0 <= j < i ==> v@[j].0@ != k@,
        decreases v.len() - i,
    {
        if crate::text::same_text(v[i].0.as_str(), k) {
            return Some(i);
        }
        i = i + 1;
    }
    None
}

/// With unique keys, the position of a key is the one where it stands.
pub proof fn lemma_key_index<V>(s: Keyed<V>, i: int)
    requires
        keys_unique(s),
        0 <= i < s.len(),
    ensures
        has_key(s, s[i].0),
        key_index(s, s[i].0) == i,
        value_of(s, s[i].0) == s[i].1,
{
    assert(has_key(s, s[i].0));
}


/// Whether no two items of `v` share a name.
fn names_unique<V>(v: &Vec<(String, V)>) -> (r: bool)
    ensures
        r == forall|i: int, j: int|
            0 <= i < v@.len() && 0 <= j < v@.len() && i != j ==> v@[i].0@ != v@[j].0@,
{
    let mut i: usize = 0;
    while i < v.len()
        invariant
            i <= v@.len(),
            forall|a: int, b: int|
                0 <= a < i && 0 <= b < v@.len() && a != b ==> v@[a].0@ != v@[b].0@,
        decreases v.len() - i,
    {
        let mut j: usize = 0;
        while j < v.len()
            invariant
                i < v@.len(),
                j <= v@.len(),
                forall|a: int, b: int|
                    0 <= a < i && 0 <= b < v@.len() && a != b ==> v@[a].0@ != v@[b].0@,
                forall|b: int| 0 <= b < j && b != i ==> v@[i as int].0@ != v@[b].0@,
            decreases v.len() - j,
        {
            if j != i && crate::text::same_text(v[i].0.as_str(), v[j].0.as_str()) {
                return false;
            }
            j = j + 1;
        }
        i = i + 1;
    }
    true
}

/// Whether no two entries of `l` share an id.
fn ids_unique(l: &Vec<KilometerEntry>) -> (r: bool)
    ensures
        r == ids_distinct(l@),
{
    let mut i: usize = 0;
    while i < l.len()
        invariant
            i <= l@.len(),
            forall|a: int, b: int| 0 <= a < i && 0 <= b < l@.len() && a != b ==> l@[a].id != l@[b].id,
        decreases l.len() - i,
    {
        let mut j: usize = 0;
        while j < l.len()
            invariant
                i < l@.len(),
                j <= l@.len(),
                forall|a: int, b: int|
                    0 <= a < i && 0 <= b < l@.len() && a != b ==> l@[a].id != l@[b].id,
                forall|b: int| 0 <= b < j && b != i ==> l@[i as int].id != l@[b].id,
            decreases l.len() - j,
        {
            if j != i && l[i].id == l[j].id {
                return false;
            }
            j = j + 1;
        }
        i = i + 1;
    }
    true
}

impl DatabaseModel {
    /// Whether this snapshot keeps the store's invariant.
    pub fn is_consistent(&self) -> (r: bool)
        ensures
            r == self@.wf(),
    {
        let ghost m = self@;
        let entries_ok = names_unique(&self.entries);
        let users_ok = names_unique(&self.users);
        proof {
            assert(entries_ok == keys_unique(m.entries)) by {
                if !entries_ok {
                    let (a, b) = choose|a: int, b: int|
                        0 <= a < self.entries@.len() && 0 <= b < self.entries@.len() && a != b
                            && self.entries@[a].0@ == self.entries@[b].0@;
                    assert(m.entries[a].0 == m.entries[b].0);
                }
            }
            assert(users_ok == keys_unique(m.users)) by {
                if !users_ok {
                    let (a, b) = choose|a: int, b: int|
                        0 <= a < self.users@.len() && 0 <= b < self.users@.len() && a != b
                            && self.users@[a].0@ == self.users@[b].0@;
                    assert(m.users[a].0 == m.users[b].0);
                }
            }
        }
        if !entries_ok || !users_ok {
            return false;
        }
        let mut i: usize = 0;
        while i < self.entries.len()
            invariant
                i <= self.entries@.len(),
                m == self@,
                keys_unique(m.entries),
                keys_unique(m.users),
                forall|a: int| 0 <= a < i ==> ids_distinct(#[trigger] m.entries[a].1),
            decreases self.entries.len() - i,
        {
            if !ids_unique(&self.entries[i].1) {
                assert(m.entries[i as int].1 == self.entries@[i as int].1@);
                return false;
            }
            i = i + 1;
        }
        true
    }
}

} // verus!
