//! The store: registration and authentication of users, creation, editing
//! and listing of entries, and the highscore over them.

use vstd::prelude::*;
use vstd::set_lib::{lemma_int_range, lemma_len_subset, set_int_range};

use crate::credentials::{hash_password, is_salt, new_salt, password_digest};
use crate::highscore::{get_highscore, highscore_view, ranked, scores};
use crate::models::{
    entry_lists_view, find_key, has_id, has_key, ids_distinct, key_index, keys_unique,
    lemma_key_index, users_view, value_of, DatabaseModel, DatabaseModelView, User, UserView,
};
use crate::shared::{Entries, Highscore, Id, Kilometer, KilometerEntry, Kind, Timestamp, UserAuth};
use crate::text::same_text;

verus! {

/// Whether a registration of `name` is accepted: the name is not taken.
pub open spec fn can_register(m: DatabaseModelView, name: Seq<char>) -> bool {
    !has_key(m.users, name)
}

/// The snapshot after registering `name` with password `pass` under `salt`.
pub open spec fn registered(
    m: DatabaseModelView,
    name: Seq<char>,
    pass: Seq<char>,
    salt: Seq<char>,
) -> DatabaseModelView {
    if can_register(m, name) {
        DatabaseModelView {
            entries: m.entries,
            users: m.users.push((name, UserView { hash: password_digest(pass, salt), salt })),
        }
    } else {
        m
    }
}

/// Whether `name` and `pass` authenticate a user: the name is not empty, it
/// is registered, and the digest of `pass` under the stored salt is the
/// stored digest.
pub open spec fn authenticates(m: DatabaseModelView, name: Seq<char>, pass: Seq<char>) -> bool {
    &&& name.len() > 0
    &&& has_key(m.users, name)
    &&& value_of(m.users, name).hash == password_digest(pass, value_of(m.users, name).salt)
}

/// The least id that no entry of `l` has (meaningful when there is one).
pub open spec fn least_unused_id(l: Seq<KilometerEntry>) -> u128 {
    choose|k: u128| !has_id(l, Id { id: k }) && forall|j: u128| j < k ==> has_id(l, Id { id: j })
}

/// The id that a new entry of a user with entries `l` gets: the candidate,
/// unless an entry has it already; then the least id not in use.
pub open spec fn fresh_id(l: Seq<KilometerEntry>, candidate: Id) -> Id {
    if !has_id(l, candidate) {
        candidate
    } else {
        Id { id: least_unused_id(l) }
    }
}

/// The snapshot after `user` recorded `kilometers` of `kind` at
/// `timestamp`, with `candidate` proposed as id, and the id given.
pub open spec fn created(
    m: DatabaseModelView,
    user: Seq<char>,
    kilometers: Kilometer,
    kind: Kind,
    candidate: Id,
    timestamp: Timestamp,
) -> (DatabaseModelView, Id) {
    let l = m.entries_of(user);
    let id = fresh_id(l, candidate);
    let e = KilometerEntry { id, kilometers, kind, timestamp };
    let entries = if has_key(m.entries, user) {
        m.entries.update(key_index(m.entries, user), (user, l.push(e)))
    } else {
        m.entries.push((user, seq![e]))
    };
    (DatabaseModelView { entries, users: m.users }, id)
}

/// The position of the entry with `id` in `l` (meaningful when `has_id(l, id)`).
pub open spec fn entry_index(l: Seq<KilometerEntry>, id: Id) -> int {
    choose|j: int| 0 <= j < l.len() && l[j].id == id
}

/// Whether an edit of `user`'s entry `e` finds its target.
pub open spec fn edit_applies(m: DatabaseModelView, user: Seq<char>, e: KilometerEntry) -> bool {
    has_key(m.entries, user) && has_id(value_of(m.entries, user), e.id)
}

/// `old` with the distance and kind of `e`; id and time stay.
pub open spec fn amended(old: KilometerEntry, e: KilometerEntry) -> KilometerEntry {
    KilometerEntry { id: old.id, kilometers: e.kilometers, kind: e.kind, timestamp: old.timestamp }
}

/// The snapshot after `user` edited entry `e`.
pub open spec fn edited(m: DatabaseModelView, user: Seq<char>, e: KilometerEntry) -> DatabaseModelView {
    if edit_applies(m, user, e) {
        let k = key_index(m.entries, user);
        let l = m.entries[k].1;
        let j = entry_index(l, e.id);
        DatabaseModelView {
            entries: m.entries.update(k, (user, l.update(j, amended(l[j], e)))),
            users: m.users,
        }
    } else {
        m
    }
}

/// The sum of the distances of `l`, in meters.
pub open spec fn meters_of(l: Seq<KilometerEntry>) -> nat
    decreases l.len(),
{
    if l.len() == 0 {
        0
    } else {
        meters_of(l.drop_last()) + l.last().kilometers.meters as nat
    }
}

/// Relies on `uuid::Uuid::new_v4`: a random (version 4) UUID, taken as its
/// 128 bits.
#[verifier::external_body]
fn random_id() -> (r: Id) {
    Id { id: uuid::Uuid::new_v4().as_u128() }
}

/// Relies on `chrono::Utc::now`: the current time, as seconds since the
/// epoch and nanoseconds past the second.
#[verifier::external_body]
fn now() -> (r: Timestamp) {
    let t = chrono::Utc::now();
    Timestamp { seconds: t.timestamp(), nanos: t.timestamp_subsec_nanos() }
}

/// Whether an entry of `l` has `id`.
fn contains_id(l: &Vec<KilometerEntry>, id: Id) -> (r: Option<usize>)
    ensures
        match r {
            Some(j) => j < l@.len() && l@[j as int].id == id,
            None => !has_id(l@, id),
        },
{
    let mut j: usize = 0;
    while j < l.len()
        invariant
            j <= l@.len(),
            forall|i: int| 0 <= i < j ==> l@[i].id != id,
        decreases l.len() - j,
    {
        if l[j].id == id {
            return Some(j);
        }
        j = j + 1;
    }
    None
}

/// A list that holds every id up to `k` is longer than `k`.
proof fn lemma_ids_pigeonhole(l: Seq<KilometerEntry>, k: u128)
    requires
        forall|j: u128| j <= k ==> has_id(l, Id { id: j }),
    ensures
        k < l.len(),
{
    let ids = l.map_values(|e: KilometerEntry| e.id.id as int);
    let used = ids.to_set();
    let range = set_int_range(0, k + 1);
    assert(range.subset_of(used)) by {
        assert forall|x: int| range.contains(x) implies used.contains(x) by {
            let j = x as u128;
            assert(has_id(l, Id { id: j }));
            let i = choose|i: int| 0 <= i < l.len() && #[trigger] l[i].id == Id { id: j };
            assert(ids[i] == x);
        }
    }
    ids.lemma_cardinality_of_set();
    lemma_int_range(0, k + 1);
    lemma_len_subset(range, used);
}

/// A list of entries shorter than the number of ids leaves some id unused,
/// and then there is a least unused one.
proof fn lemma_least_unused_exists(l: Seq<KilometerEntry>)
    requires
        l.len() <= usize::MAX,
    ensures
        !has_id(l, Id { id: least_unused_id(l) }),
        forall|j: u128| j < least_unused_id(l) ==> has_id(l, Id { id: j }),
{
    let n = l.len() as u128;
    if forall|j: u128| j <= n ==> has_id(l, Id { id: j }) {
        lemma_ids_pigeonhole(l, n);
    }
    let k = choose|k: u128| k <= n && !has_id(l, Id { id: k });
    lemma_least_below(l, k);
}

/// Below an unused id there is a least unused one.
proof fn lemma_least_below(l: Seq<KilometerEntry>, k: u128)
    requires
        !has_id(l, Id { id: k }),
    ensures
        exists|c: u128| !has_id(l, Id { id: c }) && forall|j: u128| j < c ==> has_id(l, Id { id: j }),
    decreases k,
{
    if !(forall|j: u128| j < k ==> has_id(l, Id { id: j })) {
        let j = choose|j: u128| j < k && !has_id(l, Id { id: j });
        lemma_least_below(l, j);
    }
}

/// The id a new entry gets is not used by the user's other entries.
proof fn lemma_fresh_id(l: Seq<KilometerEntry>, candidate: Id)
    requires
        l.len() <= usize::MAX,
    ensures
        !has_id(l, fresh_id(l, candidate)),
{
    if has_id(l, candidate) {
        lemma_least_unused_exists(l);
    }
}

/// One new entry whose id is fresh: it is appended to its user's list, and
/// the invariant holds.
proof fn lemma_created_fresh(
    m: DatabaseModelView,
    user: Seq<char>,
    kilometers: Kilometer,
    kind: Kind,
    candidate: Id,
    timestamp: Timestamp,
)
    requires
        m.wf(),
        !has_id(m.entries_of(user), fresh_id(m.entries_of(user), candidate)),
    ensures
        ({
            let (m2, id) = created(m, user, kilometers, kind, candidate, timestamp);
            &&& m2.wf()
            &&& m2.users == m.users
            &&& !has_id(m.entries_of(user), id)
            &&& m2.entries_of(user) == m.entries_of(user).push(
                KilometerEntry { id, kilometers, kind, timestamp },
            )
        }),
{
    let l = m.entries_of(user);
    let (m2, id) = created(m, user, kilometers, kind, candidate, timestamp);
    let e = KilometerEntry { id, kilometers, kind, timestamp };
    let nl = l.push(e);
    assert(ids_distinct(nl)) by {
        assert forall|x: int, y: int| 0 <= x < nl.len() && 0 <= y < nl.len() && x != y implies nl[x].id
            != nl[y].id by {
            if x == l.len() {
                assert(l[y] == nl[y]);
            } else if y == l.len() {
                assert(l[x] == nl[x]);
            } else {
                if has_key(m.entries, user) {
                    assert(ids_distinct(m.entries[key_index(m.entries, user)].1));
                }
            }
        }
    }
    if has_key(m.entries, user) {
        let k = key_index(m.entries, user);
        assert(m2.entries == m.entries.update(k, (user, nl)));
        assert(keys_unique(m2.entries)) by {
            assert forall|i: int, j: int|
                0 <= i < m2.entries.len() && 0 <= j < m2.entries.len() && i != j implies m2.entries[i].0
                != m2.entries[j].0 by {
                assert(m.entries[i].0 != m.entries[j].0);
            }
        }
        assert forall|i: int| 0 <= i < m2.entries.len() implies ids_distinct(
            #[trigger] m2.entries[i].1,
        ) by {
            if i != k {
                assert(m2.entries[i] == m.entries[i]);
            }
        }
        lemma_key_index(m2.entries, k);
    } else {
        let n = m.entries.len() as int;
        assert(m2.entries == m.entries.push((user, seq![e])));
        assert(nl =~= seq![e]);
        assert(keys_unique(m2.entries)) by {
            assert forall|i: int, j: int|
                0 <= i < m2.entries.len() && 0 <= j < m2.entries.len() && i != j implies m2.entries[i].0
                != m2.entries[j].0 by {
                if i == n {
                    assert(m2.entries[j] == m.entries[j]);
                } else if j == n {
                    assert(m2.entries[i] == m.entries[i]);
                } else {
                    assert(m2.entries[i] == m.entries[i] && m2.entries[j] == m.entries[j]);
                }
            }
        }
        assert forall|i: int| 0 <= i < m2.entries.len() implies ids_distinct(
            #[trigger] m2.entries[i].1,
        ) by {
            if i != n {
                assert(m2.entries[i] == m.entries[i]);
            }
        }
        lemma_key_index(m2.entries, n);
    }
}

/// One new entry: it is appended to its user's list with a fresh id, and
/// the invariant holds.
pub proof fn lemma_created(
    m: DatabaseModelView,
    user: Seq<char>,
    kilometers: Kilometer,
    kind: Kind,
    candidate: Id,
    timestamp: Timestamp,
)
    requires
        m.wf(),
        m.entries_of(user).len() <= usize::MAX,
    ensures
        ({
            let (m2, id) = created(m, user, kilometers, kind, candidate, timestamp);
            &&& m2.wf()
            &&& m2.users == m.users
            &&& !has_id(m.entries_of(user), id)
            &&& m2.entries_of(user) == m.entries_of(user).push(
                KilometerEntry { id, kilometers, kind, timestamp },
            )
        }),
{
    lemma_fresh_id(m.entries_of(user), candidate);
    lemma_created_fresh(m, user, kilometers, kind, candidate, timestamp);
}

/// The least id that no entry of `l` has.
fn pick_unused_id(l: &Vec<KilometerEntry>) -> (r: u128)
    ensures
        r == least_unused_id(l@),
        !has_id(l@, Id { id: r }),
{
    let n: usize = l.len();
    let mut k: u128 = 0;
    loop
        invariant
            n == l@.len(),
            k <= l@.len(),
            forall|j: u128| j < k ==> has_id(l@, Id { id: j }),
        ensures
            !has_id(l@, Id { id: k }),
            forall|j: u128| j < k ==> has_id(l@, Id { id: j }),
        decreases l@.len() - k,
    {
        let probe = Id { id: k };
        if contains_id(l, probe).is_none() {
            break;
        }
        proof {
            assert forall|j: u128| j <= k implies has_id(l@, Id { id: j }) by {
                if j == k {
                    let i = choose|i: int| 0 <= i < l@.len() && l@[i].id == Id { id: k };
                    assert(l@[i].id == Id { id: k });
                }
            }
            lemma_ids_pigeonhole(l@, k);
        }
        k = k + 1;
    }
    proof {
        let p = |x: u128| !has_id(l@, Id { id: x }) && forall|j: u128| j < x ==> has_id(l@, Id { id: j });
        assert(p(k));
        let c = least_unused_id(l@);
        assert(p(c));
        if c < k {
            assert(has_id(l@, Id { id: c }));
        } else if k < c {
            assert(has_id(l@, Id { id: k }));
        }
    }
    k
}

/// The id a new entry gets among the entries `l`.
fn pick_fresh_id(l: &Vec<KilometerEntry>, candidate: Id) -> (r: Id)
    ensures
        r == fresh_id(l@, candidate),
        !has_id(l@, r),
{
    match contains_id(l, candidate) {
        None => candidate,
        Some(_) => Id { id: pick_unused_id(l) },
    }
}

/// The store, holding one snapshot.
pub struct Database {
    pub database: DatabaseModel,
}

impl View for Database {
    type V = DatabaseModelView;

    open spec fn view(&self) -> DatabaseModelView {
        self.database@
    }
}

impl Default for Database {
    /// An empty store.
    fn default() -> (r: Self)
        ensures
            r@.entries.len() == 0,
            r@.users.len() == 0,
            r@.wf(),
    {
        Database { database: DatabaseModel::default() }
    }
}

impl Database {
    /// A store over a snapshot.
    pub fn new(database: DatabaseModel) -> (r: Self)
        ensures
            r@ == database@,
    {
        Database { database }
    }

    /// Registers `new_user` under `salt`: refused, with no change, when the
    /// name is taken; otherwise the user is stored with the digest of the
    /// password under `salt`.
    pub fn create_user_with_salt(&mut self, new_user: UserAuth, salt: String) -> (r: bool)
        requires
            old(self)@.wf(),
        ensures
            final(self)@.wf(),
            r == can_register(old(self)@, new_user.name@),
            final(self)@ == registered(old(self)@, new_user.name@, new_user.pass@, salt@),
    {
        let hash = hash_password(new_user.pass.as_str(), salt.as_str());
        match find_key(&self.database.users, new_user.name.as_str()) {
            Some(i) => {
                proof {
                    assert(users_view(self.database.users@)[i as int].0 == new_user.name@);
                }
                false
            },
            None => {
                let ghost before = self.database.users@;
                let ghost name = new_user.name@;
                let user = User { hash, salt };
                let ghost u = user@;
                self.database.users.push((new_user.name, user));
                proof {
                    assert(users_view(self.database.users@) =~= users_view(before).push((name, u)));
                    assert(!has_key(users_view(before), name));
                }
                true
            },
        }
    }

    /// Registers `new_user` with a fresh random salt: refused, with no
    /// change, when the name is taken.
    pub fn create_user(&mut self, new_user: UserAuth) -> (r: bool)
        requires
            old(self)@.wf(),
        ensures
            final(self)@.wf(),
            r == can_register(old(self)@, new_user.name@),
            exists|salt: Seq<char>|
                is_salt(salt) && final(self)@ == #[trigger] registered(
                    old(self)@,
                    new_user.name@,
                    new_user.pass@,
                    salt,
                ),
    {
        let salt = new_salt();
        let ghost s = salt@;
        let ghost name = new_user.name@;
        let ghost pass = new_user.pass@;
        let r = self.create_user_with_salt(new_user, salt);
        assert(is_salt(s) && self@ == registered(old(self)@, name, pass, s));
        r
    }

    /// Whether `user_auth` authenticates a registered user.
    pub fn authenticate_user(&self, user_auth: &UserAuth) -> (r: bool)
        requires
            self@.wf(),
        ensures
            r == authenticates(self@, user_auth.name@, user_auth.pass@),
    {
        if user_auth.name.as_str().is_empty() {
            return false;
        }
        match find_key(&self.database.users, user_auth.name.as_str()) {
            None => {
                proof {
                    if has_key(self@.users, user_auth.name@) {
                        let i = choose|i: int|
                            0 <= i < self@.users.len() && #[trigger] self@.users[i].0
                                == user_auth.name@;
                        assert(self.database.users@[i].0@ == user_auth.name@);
                    }
                }
                false
            },
            Some(i) => {
                let user = &self.database.users[i].1;
                let hash = hash_password(user_auth.pass.as_str(), user.salt.as_str());
                proof {
                    lemma_key_index(self@.users, i as int);
                }
                same_text(hash.as_str(), user.hash.as_str())
            },
        }
    }

    /// Records an entry of `user` with `candidate` proposed as its id and
    /// made at `timestamp`; returns the id it got.
    pub fn insert_kilometer_entry(
        &mut self,
        kilometer: Kilometer,
        user: String,
        kind: Kind,
        candidate: Id,
        timestamp: Timestamp,
    ) -> (r: Id)
        requires
            old(self)@.wf(),
        ensures
            final(self)@.wf(),
            (final(self)@, r) == created(old(self)@, user@, kilometer, kind, candidate, timestamp),
    {
        let ghost m = self@;
        let ghost name = user@;
        match find_key(&self.database.entries, user.as_str()) {
            Some(i) => {
                proof {
                    lemma_key_index(m.entries, i as int);
                }
                let mut slot: (String, Vec<KilometerEntry>) = (String::new(), Vec::new());
                self.database.entries.set_and_swap(i, &mut slot);
                let id = pick_fresh_id(&slot.1, candidate);
                let e = KilometerEntry { id, kilometers: kilometer, kind, timestamp };
                let ghost old_list = slot.1@;
                slot.1.push(e);
                let ghost p = (slot.0@, slot.1@);
                self.database.entries.set(i, slot);
                proof {
                    assert(entry_lists_view(self.database.entries@) =~= m.entries.update(
                        i as int,
                        p,
                    ));
                    assert(old_list == m.entries_of(name));
                    lemma_created_fresh(m, name, kilometer, kind, candidate, timestamp);
                }
                id
            },
            None => {
                proof {
                    if has_key(m.entries, name) {
                        let i = choose|i: int|
                            0 <= i < m.entries.len() && #[trigger] m.entries[i].0 == name;
                        assert(self.database.entries@[i].0@ == name);
                    }
                    assert(!has_id(Seq::<KilometerEntry>::empty(), candidate));
                }
                let e = KilometerEntry { id: candidate, kilometers: kilometer, kind, timestamp };
                let mut list: Vec<KilometerEntry> = Vec::new();
                list.push(e);
                let ghost before = self.database.entries@;
                let ghost p = (user@, list@);
                self.database.entries.push((user, list));
                proof {
                    assert(entry_lists_view(self.database.entries@) =~= entry_lists_view(before).push(p));
                    assert(p.1 =~= seq![e]);
                    assert(m.entries_of(name) =~= Seq::<KilometerEntry>::empty());
                    lemma_created_fresh(m, name, kilometer, kind, candidate, timestamp);
                }
                candidate
            },
        }
    }

    /// Records an entry of `user`, made now, under a fresh random id that no
    /// other entry of the user has; returns that id.
    pub fn create_kilometer_entry(&mut self, kilometer: Kilometer, user: String, kind: Kind) -> (r: Id)
        requires
            old(self)@.wf(),
        ensures
            final(self)@.wf(),
            exists|candidate: Id, timestamp: Timestamp|
                (final(self)@, r) == #[trigger] created(
                    old(self)@,
                    user@,
                    kilometer,
                    kind,
                    candidate,
                    timestamp,
                ),
    {
        let candidate = random_id();
        let timestamp = now();
        let ghost name = user@;
        let r = self.insert_kilometer_entry(kilometer, user, kind, candidate, timestamp);
        assert((self@, r) == created(old(self)@, name, kilometer, kind, candidate, timestamp));
        r
    }

    /// Edits `user`'s entry with the id of `new_kilometer_entry`: its
    /// distance and kind are replaced, its id and time stay. Returns
    /// whether there was such an entry; without one nothing changes.
    pub fn edit_kilometer_entry(&mut self, user: String, new_kilometer_entry: KilometerEntry) -> (r: bool)
        requires
            old(self)@.wf(),
        ensures
            final(self)@.wf(),
            r == edit_applies(old(self)@, user@, new_kilometer_entry),
            final(self)@ == edited(old(self)@, user@, new_kilometer_entry),
            !has_id(old(self)@.entries_of(user@), new_kilometer_entry.id) ==> !r && final(self)@
                == old(self)@,
            forall|j: int|
                0 <= j < old(self)@.entries_of(user@).len() && (#[trigger] old(self)@.entries_of(
                    user@,
                )[j]).id == new_kilometer_entry.id ==> final(self)@.entries_of(user@)
                    == old(self)@.entries_of(user@).update(
                    j,
                    amended(old(self)@.entries_of(user@)[j], new_kilometer_entry),
                ),
    {
        let ghost m = self@;
        let ghost name = user@;
        let e = new_kilometer_entry;
        match find_key(&self.database.entries, user.as_str()) {
            None => {
                proof {
                    if has_key(m.entries, name) {
                        let i = choose|i: int|
                            0 <= i < m.entries.len() && #[trigger] m.entries[i].0 == name;
                        assert(self.database.entries@[i].0@ == name);
                    }
                }
                false
            },
            Some(i) => {
                proof {
                    lemma_key_index(m.entries, i as int);
                }
                match contains_id(&self.database.entries[i].1, e.id) {
                    None => false,
                    Some(j) => {
                        let ghost l = m.entries[i as int].1;
                        proof {
                            assert(l[j as int].id == e.id);
                            assert(entry_index(l, e.id) == j) by {
                                let c = entry_index(l, e.id);
                                assert(0 <= c < l.len() && l[c].id == e.id);
                                assert(ids_distinct(m.entries[i as int].1));
                            }
                        }
                        let mut slot: (String, Vec<KilometerEntry>) = (String::new(), Vec::new());
                        self.database.entries.set_and_swap(i, &mut slot);
                        let current = slot.1[j];
                        let updated = KilometerEntry {
                            id: current.id,
                            kilometers: e.kilometers,
                            kind: e.kind,
                            timestamp: current.timestamp,
                        };
                        slot.1.set(j, updated);
                        let ghost p = (slot.0@, slot.1@);
                        self.database.entries.set(i, slot);
                        proof {
                            assert(entry_lists_view(self.database.entries@) =~= m.entries.update(
                                i as int,
                                p,
                            ));
                            assert(p.1 =~= l.update(j as int, amended(l[j as int], e)));
                            assert forall|a: int| 0 <= a < self@.entries.len() implies ids_distinct(
                                #[trigger] self@.entries[a].1,
                            ) by {
                                if a == i {
                                    let nl = self@.entries[a].1;
                                    assert forall|x: int, y: int|
                                        0 <= x < nl.len() && 0 <= y < nl.len() && x != y implies nl[x].id
                                        != nl[y].id by {
                                        assert(nl[x].id == l[x].id && nl[y].id == l[y].id);
                                    }
                                }
                            }
                            assert(keys_unique(self@.entries)) by {
                                assert forall|x: int, y: int|
                                    0 <= x < self@.entries.len() && 0 <= y < self@.entries.len() && x
                                        != y implies self@.entries[x].0 != self@.entries[y].0 by {
                                    assert(m.entries[x].0 != m.entries[y].0);
                                }
                            }
                            lemma_key_index(self@.entries, i as int);
                        }
                        true
                    },
                }
            },
        }
    }

    /// The entries of `user`, in the order they were made; none for a user
    /// without entries.
    pub fn get_entries_for_user(&self, user: String) -> (r: Entries)
        requires
            self@.wf(),
        ensures
            r.list@ == self@.entries_of(user@),
    {
        match self.retrieve_kilometer_all(user) {
            Some(list) => Entries { list },
            None => Entries { list: Vec::new() },
        }
    }

    /// The entries of `user`, or `None` when the user has made none.
    pub fn retrieve_kilometer_all(&self, user: String) -> (r: Option<Vec<KilometerEntry>>)
        requires
            self@.wf(),
        ensures
            r is Some == has_key(self@.entries, user@),
            r matches Some(list) ==> list@ == self@.entries_of(user@),
    {
        match find_key(&self.database.entries, user.as_str()) {
            None => {
                proof {
                    if has_key(self@.entries, user@) {
                        let i = choose|i: int|
                            0 <= i < self@.entries.len() && #[trigger] self@.entries[i].0 == user@;
                        assert(self.database.entries@[i].0@ == user@);
                    }
                }
                None
            },
            Some(i) => {
                proof {
                    lemma_key_index(self@.entries, i as int);
                }
                let list = self.database.entries[i].1.clone();
                proof {
                    assert(list@ =~= self.database.entries@[i as int].1@);
                }
                Some(list)
            },
        }
    }

    /// The entry of `user` with id `ident`, if there is one.
    pub fn retrieve_kilometer_entry(&self, ident: Id, user: String) -> (r: Option<KilometerEntry>)
        requires
            self@.wf(),
        ensures
            r == (if has_id(self@.entries_of(user@), ident) {
                Some(self@.entries_of(user@)[entry_index(self@.entries_of(user@), ident)])
            } else {
                None::<KilometerEntry>
            }),
    {
        let ghost l = self@.entries_of(user@);
        match self.retrieve_kilometer_all(user) {
            None => {
                assert(!has_id(l, ident));
                None
            },
            Some(list) => {
                match contains_id(&list, ident) {
                    None => None,
                    Some(j) => {
                        proof {
                            let c = entry_index(l, ident);
                            assert(0 <= c < l.len() && l[c].id == ident);
                            let k = key_index(self@.entries, user@);
                            assert(ids_distinct(self@.entries[k].1));
                        }
                        Some(list[j])
                    },
                }
            },
        }
    }

    /// The total distance of `user`'s entries in meters, or `None` when the
    /// user has made none.
    pub fn retrieve_kilometer_sum(&self, user: String) -> (r: Option<u128>)
        requires
            self@.wf(),
        ensures
            r is Some == has_key(self@.entries, user@),
            r matches Some(total) ==> total == meters_of(self@.entries_of(user@)),
    {
        match self.retrieve_kilometer_all(user) {
            None => None,
            Some(list) => {
                let mut sum: u128 = 0;
                let mut i: usize = 0;
                while i < list.len()
                    invariant
                        i <= list.len(),
                        sum == meters_of(list@.subrange(0, i as int)),
                        sum <= i * 4294967295,
                    decreases list.len() - i,
                {
                    proof {
                        let n = i as int;
                        assert((n + 1) * 4294967295 <= 0x1_0000_0000_0000_0000 * 4294967295) by (nonlinear_arith)
                            requires
                                n + 1 <= 0x1_0000_0000_0000_0000,
                        ;
                        assert(list@.subrange(0, n + 1).drop_last() =~= list@.subrange(0, n));
                    }
                    sum = sum + list[i].kilometers.meters as u128;
                    i = i + 1;
                }
                assert(list@.subrange(0, list@.len() as int) =~= list@);
                Some(sum)
            },
        }
    }

    /// The highscore over all entries.
    pub fn get_highscore(&self) -> (r: Highscore)
        ensures
            highscore_view(r.list@) == ranked(scores(self@.entries)),
    {
        get_highscore(&self.database)
    }
}

} // verus!
