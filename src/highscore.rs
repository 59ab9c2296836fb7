//! The highscore: every user's distance weighted by kind, summed, and
//! ranked best first. Users with equal points keep the order in which they
//! stand in the snapshot.

use vstd::prelude::*;

use crate::models::{entry_lists_view, DatabaseModel, Keyed};
use crate::shared::{quarter_weight, Highscore, HighscoreEntry, KilometerEntry};

verus! {

/// The points of one entry, in quarter meters.
pub open spec fn entry_points(e: KilometerEntry) -> nat {
    e.kilometers.meters as nat * quarter_weight(e.kind)
}

/// The points of a list of entries: the sum of their points.
pub open spec fn points_of(l: Seq<KilometerEntry>) -> nat
    decreases l.len(),
{
    if l.len() == 0 {
        0
    } else {
        points_of(l.drop_last()) + entry_points(l.last())
    }
}

/// A user's name and points.
pub type Score = (Seq<char>, nat);

/// The score of each user, in the order of the snapshot.
pub open spec fn scores(entries: Keyed<Seq<KilometerEntry>>) -> Seq<Score> {
    entries.map_values(|p: (Seq<char>, Seq<KilometerEntry>)| (p.0, points_of(p.1)))
}

/// Where `x` goes in `s`: before the first score that is lower than its own.
pub open spec fn rank_index(s: Seq<Score>, x: Score) -> int
    decreases s.len(),
{
    if s.len() == 0 || s[0].1 < x.1 {
        0
    } else {
        1 + rank_index(s.drop_first(), x)
    }
}

/// `s` with `x` placed before the first lower score.
pub open spec fn insert_ranked(s: Seq<Score>, x: Score) -> Seq<Score>
    decreases s.len(),
{
    if s.len() == 0 {
        seq![x]
    } else if s[0].1 < x.1 {
        seq![x] + s
    } else {
        seq![s[0]] + insert_ranked(s.drop_first(), x)
    }
}

/// The scores ranked best first; equal scores keep their order.
pub open spec fn ranked(s: Seq<Score>) -> Seq<Score>
    decreases s.len(),
{
    if s.len() == 0 {
        Seq::empty()
    } else {
        insert_ranked(ranked(s.drop_last()), s.last())
    }
}

/// Whether the scores are in descending order of points.
pub open spec fn descending(s: Seq<Score>) -> bool {
    forall|i: int, j: int| 0 <= i < j < s.len() ==> s[i].1 >= s[j].1
}

/// The view of a highscore list.
pub open spec fn highscore_view(h: Seq<HighscoreEntry>) -> Seq<Score> {
    h.map_values(|e: HighscoreEntry| (e.user@, e.points as nat))
}

/// The highest number of points that a single entry can give.
pub const MAX_ENTRY_POINTS: u128 = 4294967295 * 400;

proof fn lemma_entry_points_bound(e: KilometerEntry)
    ensures
        entry_points(e) <= MAX_ENTRY_POINTS,
{
    let m = e.kilometers.meters as nat;
    let w = quarter_weight(e.kind);
    assert(m * w <= 4294967295 * 400) by (nonlinear_arith)
        requires
            m <= 4294967295,
            w <= 400,
    ;
}

/// `rank_index` is the first position whose score is lower than `x`'s.
proof fn lemma_rank_index(s: Seq<Score>, x: Score, k: int)
    requires
        0 <= k <= s.len(),
        forall|j: int| 0 <= j < k ==> s[j].1 >= x.1,
        k < s.len() ==> s[k].1 < x.1,
    ensures
        rank_index(s, x) == k,
    decreases s.len(),
{
    if s.len() > 0 && k > 0 {
        lemma_rank_index(s.drop_first(), x, k - 1);
    }
}

/// Ranked insertion puts `x` at its rank index.
proof fn lemma_insert_ranked(s: Seq<Score>, x: Score)
    ensures
        0 <= rank_index(s, x) <= s.len(),
        insert_ranked(s, x) == s.insert(rank_index(s, x), x),
    decreases s.len(),
{
    if s.len() == 0 {
        assert(insert_ranked(s, x) =~= s.insert(0, x));
    } else if s[0].1 < x.1 {
        assert(insert_ranked(s, x) =~= s.insert(0, x));
    } else {
        lemma_insert_ranked(s.drop_first(), x);
        assert(insert_ranked(s, x) =~= s.insert(rank_index(s, x), x));
    }
}

/// Ranked insertion keeps a descending list descending.
proof fn lemma_insert_ranked_descending(s: Seq<Score>, x: Score)
    requires
        descending(s),
    ensures
        descending(insert_ranked(s, x)),
    decreases s.len(),
{
    if s.len() > 0 && s[0].1 >= x.1 {
        let t = s.drop_first();
        lemma_insert_ranked_descending(t, x);
        lemma_insert_ranked(t, x);
        let r = insert_ranked(s, x);
        assert forall|i: int, j: int| 0 <= i < j < r.len() implies r[i].1 >= r[j].1 by {
            if i == 0 {
                let k = rank_index(t, x);
                if j - 1 < k {
                    assert(r[j] == t[j - 1]);
                } else if j - 1 == k {
                } else {
                    assert(r[j] == t[j - 2]);
                }
            }
        }
    }
}

/// The ranking is in descending order of points, and holds each score of
/// the input exactly as often as the input does.
pub proof fn lemma_ranked(s: Seq<Score>)
    ensures
        descending(ranked(s)),
        ranked(s).to_multiset() == s.to_multiset(),
        ranked(s).len() == s.len(),
    decreases s.len(),
{
    broadcast use vstd::seq_lib::to_multiset_insert, vstd::seq_lib::to_multiset_build;

    if s.len() > 0 {
        let t = ranked(s.drop_last());
        lemma_ranked(s.drop_last());
        lemma_insert_ranked_descending(t, s.last());
        lemma_insert_ranked(t, s.last());
        assert(s.drop_last().push(s.last()) =~= s);
    } else {
        assert(s =~= Seq::<Score>::empty());
    }
}

/// The points of `list`, in quarter meters.
fn user_points(list: &Vec<KilometerEntry>) -> (r: u128)
    ensures
        r == points_of(list@),
{
    let mut sum: u128 = 0;
    let mut i: usize = 0;
    while i < list.len()
        invariant
            i <= list.len(),
            sum == points_of(list@.subrange(0, i as int)),
            sum <= i * MAX_ENTRY_POINTS,
        decreases list.len() - i,
    {
        let e = list[i];
        let meters = e.kilometers.meters as u128;
        let weight = e.kind.get_kind_multiplier() as u128;
        proof {
            lemma_entry_points_bound(e);
        }
        let p: u128 = meters * weight;
        proof {
            let n = i as int;
            assert((n + 1) * MAX_ENTRY_POINTS <= 0x1_0000_0000_0000_0000 * MAX_ENTRY_POINTS) by (nonlinear_arith)
                requires
                    n + 1 <= 0x1_0000_0000_0000_0000,
            ;
            assert(n * MAX_ENTRY_POINTS + MAX_ENTRY_POINTS == (n + 1) * MAX_ENTRY_POINTS) by (nonlinear_arith);
            assert(list@.subrange(0, n + 1).drop_last() =~= list@.subrange(0, n));
        }
        sum = sum + p;
        i = i + 1;
    }
    assert(list@.subrange(0, list@.len() as int) =~= list@);
    sum
}

/// The position before the first entry of `list` with fewer points than
/// `points`.
fn rank_position(list: &Vec<HighscoreEntry>, points: u128, user: Ghost<Seq<char>>) -> (r: usize)
    ensures
        r == rank_index(highscore_view(list@), (user@, points as nat)),
{
    let ghost s = highscore_view(list@);
    let mut i: usize = 0;
    while i < list.len()
        invariant
            i <= list.len(),
            s == highscore_view(list@),
            forall|j: int| 0 <= j < i ==> s[j].1 >= points,
        decreases list.len() - i,
    {
        if list[i].points < points {
            proof {
                lemma_rank_index(s, (user@, points as nat), i as int);
            }
            return i;
        }
        i = i + 1;
    }
    proof {
        lemma_rank_index(s, (user@, points as nat), i as int);
    }
    i
}

/// The highscore of a snapshot: one line per user with entries, with the
/// user's weighted points, ranked best first.
pub fn get_highscore(database: &DatabaseModel) -> (r: Highscore)
    ensures
        highscore_view(r.list@) == ranked(scores(database@.entries)),
{
    let ghost all = scores(database@.entries);
    let mut list: Vec<HighscoreEntry> = Vec::new();
    let mut i: usize = 0;
    while i < database.entries.len()
        invariant
            i <= database.entries.len(),
            all == scores(entry_lists_view(database.entries@)),
            highscore_view(list@) == ranked(all.subrange(0, i as int)),
        decreases database.entries.len() - i,
    {
        let user = database.entries[i].0.clone();
        let points = user_points(&database.entries[i].1);
        let ghost x: Score = (user@, points as nat);
        let pos = rank_position(&list, points, Ghost(user@));
        proof {
            let prefix = all.subrange(0, i as int);
            assert(all.subrange(0, i + 1).drop_last() =~= prefix);
            assert(all[i as int] == x);
            lemma_insert_ranked(ranked(prefix), x);
        }
        let ghost before = list@;
        list.insert(pos, HighscoreEntry { user, points });
        proof {
            assert(highscore_view(list@) =~= highscore_view(before).insert(pos as int, x));
        }
        i = i + 1;
    }
    assert(all.subrange(0, all.len() as int) =~= all);
    Highscore { list }
}

/// Whether no two scores of `s` have the same points.
pub open spec fn points_distinct(s: Seq<Score>) -> bool {
    forall|i: int, j: int| 0 <= i < s.len() && 0 <= j < s.len() && i != j ==> s[i].1 != s[j].1
}

/// Two descending lists with the same scores, no two of them with equal
/// points, are the same list.
proof fn lemma_descending_unique(a: Seq<Score>, b: Seq<Score>)
    requires
        descending(a),
        descending(b),
        points_distinct(a),
        a.to_multiset() == b.to_multiset(),
    ensures
        a == b,
    decreases a.len(),
{
    broadcast use vstd::seq_lib::to_multiset_remove, vstd::seq_lib::group_to_multiset_ensures;

    assert(a.len() == b.len()) by {
        a.to_multiset_ensures();
        b.to_multiset_ensures();
    }
    if a.len() > 0 {
        a.to_multiset_ensures();
        b.to_multiset_ensures();
        assert(b.to_multiset().contains(b[0]));
        assert(a.to_multiset().contains(a[0]));
        let i = choose|i: int| 0 <= i < a.len() && a[i] == b[0];
        let j = choose|j: int| 0 <= j < b.len() && b[j] == a[0];
        assert(a[0].1 >= a[i].1);
        assert(b[0].1 >= b[j].1);
        assert(i == 0);
        let ra = a.remove(0);
        let rb = b.remove(0);
        assert(ra == a.drop_first());
        assert(rb == b.drop_first());
        assert(ra.to_multiset() == rb.to_multiset());
        assert(points_distinct(ra)) by {
            assert forall|x: int, y: int| 0 <= x < ra.len() && 0 <= y < ra.len() && x != y implies ra[x].1
                != ra[y].1 by {
                assert(ra[x] == a[x + 1] && ra[y] == a[y + 1]);
            }
        }
        assert(descending(ra)) by {
            assert forall|x: int, y: int| 0 <= x < y < ra.len() implies ra[x].1 >= ra[y].1 by {
                assert(ra[x] == a[x + 1] && ra[y] == a[y + 1]);
            }
        }
        assert(descending(rb)) by {
            assert forall|x: int, y: int| 0 <= x < y < rb.len() implies rb[x].1 >= rb[y].1 by {
                assert(rb[x] == b[x + 1] && rb[y] == b[y + 1]);
            }
        }
        lemma_descending_unique(ra, rb);
        assert(a =~= b) by {
            assert forall|k: int| 0 <= k < a.len() implies a[k] == b[k] by {
                if k > 0 {
                    assert(ra[k - 1] == rb[k - 1]);
                }
            }
        }
    }
}

/// Rearranging scores keeps their points pairwise distinct.
proof fn lemma_points_distinct_permutation(s: Seq<Score>, r: Seq<Score>)
    requires
        s.to_multiset() == r.to_multiset(),
        points_distinct(s),
    ensures
        points_distinct(r),
{
    broadcast use vstd::seq_lib::group_to_multiset_ensures, vstd::multiset::group_multiset_axioms;

    assert forall|x: int, y: int| 0 <= x < r.len() && 0 <= y < r.len() && x != y implies r[x].1
        != r[y].1 by {
        if r[x].1 == r[y].1 {
            assert(r.contains(r[x]));
            assert(r.contains(r[y]));
            assert(r.to_multiset().count(r[x]) > 0);
            assert(r.to_multiset().count(r[y]) > 0);
            assert(s.contains(r[x]));
            assert(s.contains(r[y]));
            let a = choose|a: int| 0 <= a < s.len() && s[a] == r[x];
            let b = choose|b: int| 0 <= b < s.len() && s[b] == r[y];
            if a == b {
                let rr = r.remove(x);
                let k = if y < x { y } else { y - 1 };
                assert(rr[k] == r[y]);
                assert(rr.contains(r[x]));
                assert(rr.to_multiset().count(r[x]) > 0);
                assert(r.to_multiset().count(r[x]) >= 2);
                let ss = s.remove(a);
                assert(!ss.contains(s[a])) by {
                    if ss.contains(s[a]) {
                        let c = choose|c: int| 0 <= c < ss.len() && ss[c] == s[a];
                        let d = if c < a { c } else { c + 1 };
                        assert(ss[c] == s[d]);
                    }
                }
                assert(ss.to_multiset().count(s[a]) == 0);
                assert(s.to_multiset().count(s[a]) == 1);
            }
        }
    }
}

/// When no two users have the same points, the ranking does not depend on
/// the order in which the users came.
pub proof fn lemma_ranked_order_independent(s1: Seq<Score>, s2: Seq<Score>)
    requires
        s1.to_multiset() == s2.to_multiset(),
        points_distinct(s1),
    ensures
        ranked(s1) == ranked(s2),
{
    lemma_ranked(s1);
    lemma_ranked(s2);
    let r = ranked(s1);
    lemma_points_distinct_permutation(s1, r);
    lemma_descending_unique(r, ranked(s2));
}

} // verus!
