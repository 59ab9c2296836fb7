//! Properties of the store that relate several operations, or hold of
//! every sequence of them.

use vstd::prelude::*;

use crate::credentials::password_digest;
use crate::db::{authenticates, can_register, created, lemma_created, registered};
use crate::highscore::{
    descending, lemma_ranked, lemma_ranked_order_independent, points_distinct, ranked, scores,
};
use crate::migration::{migrated, StoredFileView};
use crate::migration::migration_to_v1::{self, upgraded_entry};
use crate::models::{
    has_id, has_key, ids_distinct, key_index, keys_unique, lemma_key_index, value_of,
    DatabaseModelView, UserView,
};
use crate::shared::{epoch, Id, Kilometer, KilometerEntry, Kind, Timestamp};

verus! {

/// An accepted registration stores the user under its name, with the
/// digest of the password under the salt.
proof fn lemma_registered(m: DatabaseModelView, name: Seq<char>, pass: Seq<char>, salt: Seq<char>)
    requires
        m.wf(),
        can_register(m, name),
    ensures
        has_key(registered(m, name, pass, salt).users, name),
        value_of(registered(m, name, pass, salt).users, name) == (UserView {
            hash: password_digest(pass, salt),
            salt,
        }),
{
    let m2 = registered(m, name, pass, salt);
    let n = m.users.len() as int;
    assert(m2.users[n] == (name, UserView { hash: password_digest(pass, salt), salt }));
    assert(keys_unique(m2.users)) by {
        assert forall|i: int, j: int|
            0 <= i < m2.users.len() && 0 <= j < m2.users.len() && i != j implies m2.users[i].0
            != m2.users[j].0 by {
            if i == n {
                assert(m2.users[j] == m.users[j]);
            } else if j == n {
                assert(m2.users[i] == m.users[i]);
            } else {
                assert(m2.users[i] == m.users[i] && m2.users[j] == m.users[j]);
            }
        }
    }
    lemma_key_index(m2.users, n);
}

/// A user who has just been registered is authenticated by the password
/// given at registration, provided the name is not empty.
pub proof fn lemma_register_then_authenticate(
    m: DatabaseModelView,
    name: Seq<char>,
    pass: Seq<char>,
    salt: Seq<char>,
)
    requires
        m.wf(),
        can_register(m, name),
        name.len() > 0,
    ensures
        authenticates(registered(m, name, pass, salt), name, pass),
{
    lemma_registered(m, name, pass, salt);
}

/// Right after a registration, a password whose digest under the new salt
/// differs from that of the registered password does not authenticate.
pub proof fn lemma_register_then_other_password(
    m: DatabaseModelView,
    name: Seq<char>,
    pass: Seq<char>,
    salt: Seq<char>,
    other_pass: Seq<char>,
)
    requires
        m.wf(),
        can_register(m, name),
        password_digest(other_pass, salt) != password_digest(pass, salt),
    ensures
        !authenticates(registered(m, name, pass, salt), name, other_pass),
{
    lemma_registered(m, name, pass, salt);
}

/// Once a name is registered, every further registration of it is
/// refused, whatever the password, and leaves the store as it is.
pub proof fn lemma_register_twice(
    m: DatabaseModelView,
    name: Seq<char>,
    pass: Seq<char>,
    salt: Seq<char>,
    other_pass: Seq<char>,
    other_salt: Seq<char>,
)
    ensures
        !can_register(registered(m, name, pass, salt), name),
        registered(registered(m, name, pass, salt), name, other_pass, other_salt) == registered(
            m,
            name,
            pass,
            salt,
        ),
{
    let m2 = registered(m, name, pass, salt);
    if can_register(m, name) {
        let n = m.users.len() as int;
        assert(m2.users[n].0 == name);
    }
}

/// One request to record an entry: the distance, the kind, the proposed
/// id and the time.
pub type CreateRequest = (Kilometer, Kind, Id, Timestamp);

/// The store after `user` made the requests `reqs` one after the other,
/// and the ids they were given.
pub open spec fn created_many(m: DatabaseModelView, user: Seq<char>, reqs: Seq<CreateRequest>) -> (
    DatabaseModelView,
    Seq<Id>,
)
    decreases reqs.len(),
{
    if reqs.len() == 0 {
        (m, Seq::empty())
    } else {
        let (m1, ids) = created_many(m, user, reqs.drop_last());
        let r = reqs.last();
        let (m2, id) = created(m1, user, r.0, r.1, r.2, r.3);
        (m2, ids.push(id))
    }
}

/// The entry that request `r` records under `id`.
pub open spec fn requested_entry(r: CreateRequest, id: Id) -> KilometerEntry {
    KilometerEntry { id, kilometers: r.0, kind: r.1, timestamp: r.3 }
}

/// N requests of one user, however they were interleaved with each other,
/// add exactly N entries: the user's earlier entries stay as they were and
/// each request's entry follows, in order, under the id it was given.
pub proof fn lemma_creates_not_lost(m: DatabaseModelView, user: Seq<char>, reqs: Seq<CreateRequest>)
    requires
        m.wf(),
        m.entries_of(user).len() + reqs.len() <= usize::MAX,
    ensures
        ({
            let (m2, ids) = created_many(m, user, reqs);
            let before = m.entries_of(user);
            let after = m2.entries_of(user);
            &&& m2.wf()
            &&& ids.len() == reqs.len()
            &&& after.len() == before.len() + reqs.len()
            &&& after.subrange(0, before.len() as int) == before
            &&& forall|k: int|
                0 <= k < reqs.len() ==> after[before.len() + k] == requested_entry(
                    #[trigger] reqs[k],
                    ids[k],
                )
        }),
    decreases reqs.len(),
{
    if reqs.len() > 0 {
        let (m1, ids1) = created_many(m, user, reqs.drop_last());
        lemma_creates_not_lost(m, user, reqs.drop_last());
        let r = reqs.last();
        lemma_created(m1, user, r.0, r.1, r.2, r.3);
        let (m2, ids) = created_many(m, user, reqs);
        let before = m.entries_of(user);
        let mid = m1.entries_of(user);
        let after = m2.entries_of(user);
        assert(after.subrange(0, before.len() as int) =~= before) by {
            assert(mid.subrange(0, before.len() as int) == before);
        }
        assert forall|k: int| 0 <= k < reqs.len() implies after[before.len() + k] == requested_entry(
            #[trigger] reqs[k],
            ids[k],
        ) by {
            if k < reqs.len() - 1 {
                assert(reqs.drop_last()[k] == reqs[k]);
                assert(ids1[k] == ids[k]);
            }
        }
    }
}

/// The entries of `user` in a store that keeps the invariant hold
/// distinct ids.
proof fn lemma_entries_of_distinct(m: DatabaseModelView, user: Seq<char>)
    requires
        m.wf(),
    ensures
        ids_distinct(m.entries_of(user)),
{
    if has_key(m.entries, user) {
        assert(ids_distinct(m.entries[key_index(m.entries, user)].1));
    }
}

/// However many entries one user records, one after the other, the ids
/// they are given are pairwise distinct, and distinct from the ids of the
/// user's earlier entries.
pub proof fn lemma_created_ids_distinct(m: DatabaseModelView, user: Seq<char>, reqs: Seq<CreateRequest>)
    requires
        m.wf(),
        m.entries_of(user).len() + reqs.len() <= usize::MAX,
    ensures
        ({
            let ids = created_many(m, user, reqs).1;
            &&& forall|a: int, b: int| 0 <= a < ids.len() && 0 <= b < ids.len() && a != b ==> ids[a] != ids[b]
            &&& forall|a: int| 0 <= a < ids.len() ==> !has_id(m.entries_of(user), #[trigger] ids[a])
        }),
{
    let (m2, ids) = created_many(m, user, reqs);
    lemma_creates_not_lost(m, user, reqs);
    lemma_entries_of_distinct(m2, user);
    let before = m.entries_of(user);
    let after = m2.entries_of(user);
    let n = before.len() as int;
    assert forall|a: int, b: int| 0 <= a < ids.len() && 0 <= b < ids.len() && a != b implies ids[a]
        != ids[b] by {
        assert(after[n + a] == requested_entry(reqs[a], ids[a]));
        assert(after[n + b] == requested_entry(reqs[b], ids[b]));
    }
    assert forall|a: int| 0 <= a < ids.len() implies !has_id(before, #[trigger] ids[a]) by {
        assert(after[n + a] == requested_entry(reqs[a], ids[a]));
        if has_id(before, ids[a]) {
            let j = choose|j: int| 0 <= j < before.len() && before[j].id == ids[a];
            assert(after.subrange(0, n)[j] == after[j]);
        }
    }
}

/// The highscore ranks users best first, and lists each user with entries
/// once, with the sum of the entries' distances weighted by kind.
pub proof fn lemma_highscore_ranked(m: DatabaseModelView)
    ensures
        descending(ranked(scores(m.entries))),
        ranked(scores(m.entries)).to_multiset() == scores(m.entries).to_multiset(),
{
    lemma_ranked(scores(m.entries));
}

/// When no two users have the same points, the highscore does not depend
/// on the order in which the users made their first entries: two stores
/// whose users have the same points rank them alike.
pub proof fn lemma_highscore_order_independent(
    m1: DatabaseModelView,
    m2: DatabaseModelView,
)
    requires
        scores(m1.entries).to_multiset() == scores(m2.entries).to_multiset(),
        points_distinct(scores(m1.entries)),
    ensures
        ranked(scores(m1.entries)) == ranked(scores(m2.entries)),
{
    lemma_ranked_order_independent(scores(m1.entries), scores(m2.entries));
}

/// A snapshot that keeps the invariant, stored under the current version
/// and loaded again, is the same snapshot.
pub proof fn lemma_round_trip(m: DatabaseModelView)
    requires
        m.wf(),
    ensures
        migrated(StoredFileView::V1(m)) == Ok::<DatabaseModelView, crate::migration::MigrationError>(m),
{
}

/// An untagged snapshot loads without error: names, digests, salts, ids
/// and distances stay, and every entry becomes a run at the epoch.
pub proof fn lemma_untagged_loads(m: migration_to_v1::DatabaseModelView)
    requires
        m.wf(),
    ensures
        migrated(StoredFileView::Untagged(m)) matches Ok(v) && {
            &&& v.users == m.users
            &&& v.entries.len() == m.entries.len()
            &&& forall|i: int|
                0 <= i < m.entries.len() ==> (#[trigger] v.entries[i]).0 == m.entries[i].0
                    && v.entries[i].1.len() == m.entries[i].1.len()
            &&& forall|i: int, j: int|
                0 <= i < m.entries.len() && 0 <= j < m.entries[i].1.len() ==> {
                    let e = (#[trigger] v.entries[i].1[j]);
                    &&& e.id == m.entries[i].1[j].id
                    &&& e.kilometers == m.entries[i].1[j].kilometers
                    &&& e.kind == Kind::Running
                    &&& e.timestamp == epoch()
                }
        },
{
    let v = migration_to_v1::upgraded(m);
    assert forall|i: int, j: int| 0 <= i < m.entries.len() && 0 <= j < m.entries[i].1.len() implies {
        let e = (#[trigger] v.entries[i].1[j]);
        &&& e.id == m.entries[i].1[j].id
        &&& e.kilometers == m.entries[i].1[j].kilometers
        &&& e.kind == Kind::Running
        &&& e.timestamp == epoch()
    } by {
        assert(v.entries[i].1[j] == upgraded_entry(m.entries[i].1[j]));
    }
}

} // verus!
