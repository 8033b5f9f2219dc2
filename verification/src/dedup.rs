//! Duplicate games and duplicate players: which rows are copies of one another, and
//! which one of them stays.
use crate::union_find;
use crate::union_find::{uf_find, uf_union};
use std::collections::HashMap;
use vstd::prelude::*;

verus! {

broadcast use vstd::std_specs::hash::group_hash_axioms;

// ── Which copy of a game stays ───────────────────────────────────────────────

/// The two games of each pair.
pub open spec fn pair_ids(pairs: Seq<(u32, i64, u32, i64)>) -> Seq<(u32, u32)> {
    pairs.map_values(|p: (u32, i64, u32, i64)| (p.0, p.2))
}

/// Some pair names the game.
pub open spec fn is_paired(pairs: Seq<(u32, i64, u32, i64)>, id: u32) -> bool {
    exists|i: int| 0 <= i < pairs.len() && ((#[trigger] pairs[i]).0 == id || pairs[i].2 == id)
}

/// The length that the last pair naming the game gives it.
pub open spec fn pgn_length(pairs: Seq<(u32, i64, u32, i64)>, id: u32) -> i64
    decreases pairs.len(),
{
    if pairs.len() == 0 {
        0
    } else if pairs.last().2 == id {
        pairs.last().3
    } else if pairs.last().0 == id {
        pairs.last().1
    } else {
        pgn_length(pairs.drop_last(), id)
    }
}

/// The longer game is the better copy; of two equally long ones, that with the lower id.
pub open spec fn better_copy(pairs: Seq<(u32, i64, u32, i64)>, a: u32, b: u32) -> bool {
    ||| pgn_length(pairs, a) > pgn_length(pairs, b)
    ||| pgn_length(pairs, a) == pgn_length(pairs, b) && a < b
}

/// `w` is the best of all the copies of `id` that the pairs know of.
pub open spec fn is_survivor(pairs: Seq<(u32, i64, u32, i64)>, id: u32, w: u32) -> bool {
    &&& is_paired(pairs, w)
    &&& union_find::joined_by(pair_ids(pairs), id, w)
    &&& forall|v: u32| #[trigger]
        is_paired(pairs, v) && union_find::joined_by(pair_ids(pairs), id, v) && v != w ==> better_copy(
            pairs,
            w,
            v,
        )
}

/// A list of all games that go, each with the copy of it that stays.
pub open spec fn are_losers(pairs: Seq<(u32, i64, u32, i64)>, out: Seq<(u32, u32)>) -> bool {
    forall|id: u32, w: u32| #[trigger]
        out.contains((id, w)) <==> is_paired(pairs, id) && id != w && is_survivor(pairs, id, w)
}

proof fn lemma_paired_more(
    pairs: Seq<(u32, i64, u32, i64)>,
    p: (u32, i64, u32, i64),
    id: u32,
)
    ensures
        is_paired(pairs.push(p), id) <==> is_paired(pairs, id) || id == p.0 || id == p.2,
        pair_ids(pairs.push(p)) == pair_ids(pairs).push((p.0, p.2)),
        pgn_length(pairs.push(p), id) == if id == p.2 {
            p.3
        } else if id == p.0 {
            p.1
        } else {
            pgn_length(pairs, id)
        },
{
    let more = pairs.push(p);
    assert(more.drop_last() =~= pairs);
    assert(pair_ids(more) =~= pair_ids(pairs).push((p.0, p.2)));
    if is_paired(pairs, id) {
        let i = choose|i: int|
            0 <= i < pairs.len() && ((#[trigger] pairs[i]).0 == id || pairs[i].2 == id);
        assert(more[i] == pairs[i]);
    }
    if is_paired(more, id) {
        let i = choose|i: int|
            0 <= i < more.len() && ((#[trigger] more[i]).0 == id || more[i].2 == id);
        if i < pairs.len() {
            assert(more[i] == pairs[i]);
        }
    }
    assert(more[pairs.len() as int] == p);
}

/// What the first pass over the pairs has gathered: who is joined with whom, each
/// game's length, and the games in the order in which they turn up.
spec fn gathered(
    pairs: Seq<(u32, i64, u32, i64)>,
    parent: Map<u32, u32>,
    len: Map<u32, i64>,
    ids: Seq<u32>,
) -> bool {
    &&& union_find::is_forest(parent)
    &&& union_find::stays_inside(parent)
    &&& union_find::roots_follow(parent, pair_ids(pairs))
    &&& ids.no_duplicates()
    &&& forall|id: u32| #[trigger] parent.contains_key(id) <==> is_paired(pairs, id)
    &&& forall|id: u32| #[trigger] len.contains_key(id) <==> is_paired(pairs, id)
    &&& forall|id: u32| #[trigger] ids.contains(id) <==> is_paired(pairs, id)
    &&& forall|id: u32| #[trigger] len.contains_key(id) ==> len[id] == pgn_length(pairs, id)
}

/// Makes room for a game that may be new.
fn add_game(
    parent: &mut HashMap<u32, u32>,
    ids: &mut Vec<u32>,
    id: u32,
    Ghost(edges): Ghost<Seq<(u32, u32)>>,
)
    requires
        union_find::is_forest(old(parent)@),
        union_find::stays_inside(old(parent)@),
        union_find::roots_follow(old(parent)@, edges),
        old(ids)@.no_duplicates(),
        forall|x: u32| #[trigger] old(parent)@.contains_key(x) <==> old(ids)@.contains(x),
        forall|i: int|
            0 <= i < edges.len() ==> old(parent)@.contains_key((#[trigger] edges[i]).0)
                && old(parent)@.contains_key(edges[i].1),
    ensures
        union_find::is_forest(final(parent)@),
        union_find::stays_inside(final(parent)@),
        union_find::roots_follow(final(parent)@, edges),
        final(ids)@.no_duplicates(),
        forall|x: u32| #[trigger]
            final(parent)@.contains_key(x) <==> old(parent)@.contains_key(x) || x == id,
        forall|x: u32| #[trigger]
            final(parent)@.contains_key(x) <==> final(ids)@.contains(x),
{
    if !parent.contains_key(&id) {
        proof {
            union_find::lemma_add_single(parent@, edges, id);
        }
        let ghost before = ids@;
        parent.insert(id, id);
        ids.push(id);
        proof {
            assert(!before.contains(id));
            assert forall|x: u32| ids@.contains(x) <==> before.contains(x) || x == id by {
                if before.contains(x) {
                    let k = before.index_of(x);
                    assert(ids@[k] == x);
                }
                assert(ids@[before.len() as int] == id);
                if ids@.contains(x) {
                    let k = ids@.index_of(x);
                    if k < before.len() {
                        assert(before[k] == x);
                    }
                }
            }
            assert forall|i: int, j: int|
                0 <= i < ids@.len() && 0 <= j < ids@.len() && i != j implies ids@[i] != ids@[j] by {
                if i < before.len() {
                    assert(before.contains(before[i]));
                }
                if j < before.len() {
                    assert(before.contains(before[j]));
                }
            }
        }
    }
}

proof fn lemma_edges_inside(
    pairs: Seq<(u32, i64, u32, i64)>,
    parent: Map<u32, u32>,
    len: Map<u32, i64>,
    ids: Seq<u32>,
)
    requires
        gathered(pairs, parent, len, ids),
    ensures
        ({
            let edges = pair_ids(pairs);
            forall|i: int|
                0 <= i < edges.len() ==> parent.contains_key((#[trigger] edges[i]).0)
                    && parent.contains_key(edges[i].1)
        }),
{
    let edges = pair_ids(pairs);
    assert forall|i: int| 0 <= i < edges.len() implies parent.contains_key((#[trigger] edges[i]).0)
        && parent.contains_key(edges[i].1) by {
        assert(is_paired(pairs, pairs[i].0));
        assert(is_paired(pairs, pairs[i].2));
    }
}

/// Given duplicate pairs `(id, length of its text, id, length of its text)`, joins them
/// into clusters and picks one survivor per cluster: the game with the longest text, or
/// of several that are equally long the one with the lowest id. Returns
/// `(loser, survivor)` for every other game.
pub fn resolve_survivors(pairs: &[(u32, i64, u32, i64)]) -> (out: Vec<(u32, u32)>)
    ensures
        are_losers(pairs@, out@),
        forall|i: int, j: int| 0 <= i < j < out.len() ==> (#[trigger] out@[i]).0 != (#[trigger] out@[j]).0,
{
    let mut parent: HashMap<u32, u32> = HashMap::new();
    let mut len: HashMap<u32, i64> = HashMap::new();
    let mut ids: Vec<u32> = Vec::new();
    let mut i: usize = 0;
    proof {
        let none = pairs@.take(0);
        assert(union_find::depth_falls(parent@, |x: u32| 0nat));
        assert(pair_ids(none) =~= Seq::<(u32, u32)>::empty());
        assert(gathered(none, parent@, len@, ids@));
    }
    while i < pairs.len()
        invariant
            i <= pairs.len(),
            gathered(pairs@.take(i as int), parent@, len@, ids@),
        decreases pairs.len() - i,
    {
        let (a, la, b, lb) = pairs[i];
        let ghost seen = pairs@.take(i as int);
        let ghost edges = pair_ids(seen);
        proof {
            lemma_edges_inside(seen, parent@, len@, ids@);
        }
        add_game(&mut parent, &mut ids, a, Ghost(edges));
        add_game(&mut parent, &mut ids, b, Ghost(edges));
        len.insert(a, la);
        len.insert(b, lb);
        let ghost apart = parent@;
        uf_union(&mut parent, a, b);
        proof {
            union_find::lemma_union_follows(apart, parent@, edges, a, b);
            let now = pairs@.take(i + 1);
            assert(now =~= seen.push(pairs@[i as int]));
            assert forall|id: u32| true implies {
                &&& #[trigger] is_paired(now, id) <==> is_paired(seen, id) || id == a || id == b
                &&& pgn_length(now, id) == if id == b {
                    lb
                } else if id == a {
                    la
                } else {
                    pgn_length(seen, id)
                }
            } by {
                lemma_paired_more(seen, pairs@[i as int], id);
            }
            lemma_paired_more(seen, pairs@[i as int], a);
            assert forall|id: u32| #[trigger] parent@.contains_key(id) <==> is_paired(now, id) by {
                assert(parent@.dom().contains(id) <==> apart.dom().contains(id));
            }
            assert forall|id: u32| #[trigger] ids@.contains(id) <==> is_paired(now, id) by {
                assert(apart.contains_key(id) <==> ids@.contains(id));
            }
            assert forall|id: u32| #[trigger] len@.contains_key(id) implies len@[id] == pgn_length(
                now,
                id,
            ) by {
                assert(is_paired(now, id) <==> is_paired(seen, id) || id == a || id == b);
            }
            assert forall|id: u32| #[trigger] len@.contains_key(id) <==> is_paired(now, id) by {
                assert(is_paired(now, id) <==> is_paired(seen, id) || id == a || id == b);
            }
            assert(gathered(now, parent@, len@, ids@));
        }
        i += 1;
    }
    assert(pairs@.take(i as int) =~= pairs@);
    let ghost joined = parent@;
    // Best copy per cluster root.
    let mut winner: HashMap<u32, (i64, u32)> = HashMap::new();
    let mut k: usize = 0;
    while k < ids.len()
        invariant
            k <= ids.len(),
            gathered(pairs@, joined, len@, ids@),
            union_find::is_forest(parent@),
            parent@.dom() == joined.dom(),
            union_find::same_roots(parent@, joined),
            best_so_far(pairs@, joined, ids@.take(k as int), winner@),
        decreases ids.len() - k,
    {
        let id: u32 = ids[k];
        let ghost had = ids@.take(k as int);
        let ghost before = winner@;
        let r: u32 = uf_find(&mut parent, id);
        assert(ids@.contains(id));
        assert(len@.contains_key(id));
        let l: i64 = *len.get(&id).unwrap();
        let better: bool = match winner.get(&r) {
            Some(e) => l > e.0 || (l == e.0 && id < e.1),
            None => true,
        };
        if better {
            winner.insert(r, (l, id));
        }
        proof {
            let now = ids@.take(k + 1);
            assert(now =~= had.push(id));
            assert(r == union_find::root(joined, id));
            lemma_best_step(pairs@, joined, had, id, before, winner@);
        }
        k += 1;
    }
    assert(ids@.take(k as int) =~= ids@);
    let mut out: Vec<(u32, u32)> = Vec::new();
    let mut m: usize = 0;
    while m < ids.len()
        invariant
            m <= ids.len(),
            gathered(pairs@, joined, len@, ids@),
            union_find::is_forest(parent@),
            union_find::same_roots(parent@, joined),
            best_so_far(pairs@, joined, ids@, winner@),
            forall|id: u32, w: u32| #[trigger]
                out@.contains((id, w)) <==> ids@.take(m as int).contains(id) && id != w
                    && is_survivor(pairs@, id, w),
            forall|x: int, y: int|
                0 <= x < y < out.len() ==> (#[trigger] out@[x]).0 != (#[trigger] out@[y]).0,
        decreases ids.len() - m,
    {
        let id: u32 = ids[m];
        let r: u32 = uf_find(&mut parent, id);
        proof {
            assert(ids@.contains(id));
            lemma_winner_survives(pairs@, joined, len@, ids@, winner@, id);
        }
        let w: u32 = winner.get(&r).unwrap().1;
        let ghost before = out@;
        let ghost had = ids@.take(m as int);
        if id != w {
            out.push((id, w));
        }
        proof {
            assert(ids@.take(m + 1) =~= had.push(id));
            assert(!had.contains(id));
            lemma_push_contains(had, id);
            assert forall|x: u32, v: u32| #[trigger]
                out@.contains((x, v)) <==> ids@.take(m + 1).contains(x) && x != v && is_survivor(
                    pairs@,
                    x,
                    v,
                ) by {
                if id != w {
                    lemma_push_contains(before, (id, w));
                }
                assert(before.contains((x, v)) <==> had.contains(x) && x != v && is_survivor(
                    pairs@,
                    x,
                    v,
                ));
                if x == id && is_survivor(pairs@, id, v) {
                    lemma_one_survivor(pairs@, id, v, w);
                }
            }
            assert forall|x: int, y: int| 0 <= x < y < out@.len() implies (#[trigger] out@[x]).0
                != (#[trigger] out@[y]).0 by {
                if y == before.len() {
                    assert(before[x] == out@[x]);
                    let e = out@[x];
                    assert(before.contains((e.0, e.1)));
                } else {
                    assert(before[x] == out@[x] && before[y] == out@[y]);
                }
            }
        }
        m += 1;
    }
    proof {
        assert(ids@.take(m as int) =~= ids@);
    }
    out
}

proof fn lemma_push_contains<T>(s: Seq<T>, t: T)
    ensures
        forall|x: T| #[trigger] s.push(t).contains(x) <==> s.contains(x) || x == t,
{
    assert forall|x: T| #[trigger] s.push(t).contains(x) <==> s.contains(x) || x == t by {
        if s.contains(x) {
            let k = s.index_of(x);
            assert(s.push(t)[k] == x);
        }
        assert(s.push(t)[s.len() as int] == t);
        if s.push(t).contains(x) {
            let k = s.push(t).index_of(x);
            if k < s.len() {
                assert(s[k] == x);
            }
        }
    }
}

/// For each root that some of `ids` has, `winner` holds the best of those.
spec fn best_so_far(
    pairs: Seq<(u32, i64, u32, i64)>,
    parent: Map<u32, u32>,
    ids: Seq<u32>,
    winner: Map<u32, (i64, u32)>,
) -> bool {
    &&& forall|id: u32| #[trigger] ids.contains(id) ==> winner.contains_key(union_find::root(parent, id))
    &&& forall|r: u32| #[trigger]
        winner.contains_key(r) ==> {
            let w = winner[r].1;
            &&& ids.contains(w)
            &&& union_find::root(parent, w) == r
            &&& winner[r].0 == pgn_length(pairs, w)
            &&& forall|v: u32| #[trigger]
                ids.contains(v) && union_find::root(parent, v) == r && v != w ==> better_copy(pairs, w, v)
        }
}

proof fn lemma_best_step(
    pairs: Seq<(u32, i64, u32, i64)>,
    parent: Map<u32, u32>,
    ids: Seq<u32>,
    id: u32,
    before: Map<u32, (i64, u32)>,
    after: Map<u32, (i64, u32)>,
)
    requires
        best_so_far(pairs, parent, ids, before),
        ({
            let r = union_find::root(parent, id);
            let l = pgn_length(pairs, id);
            let better = !before.contains_key(r) || l > before[r].0 || (l == before[r].0 && id
                < before[r].1);
            after == if better {
                before.insert(r, (l, id))
            } else {
                before
            }
        }),
    ensures
        best_so_far(pairs, parent, ids.push(id), after),
{
    let now = ids.push(id);
    lemma_push_contains(ids, id);
    assert forall|r: u32| #[trigger] after.contains_key(r) implies {
        let w = after[r].1;
        &&& now.contains(w)
        &&& union_find::root(parent, w) == r
        &&& after[r].0 == pgn_length(pairs, w)
        &&& forall|v: u32| #[trigger]
            now.contains(v) && union_find::root(parent, v) == r && v != w ==> better_copy(pairs, w, v)
    } by {
        if r != union_find::root(parent, id) {
            assert(before.contains_key(r));
        }
    }
}

/// A game has one survivor.
proof fn lemma_one_survivor(pairs: Seq<(u32, i64, u32, i64)>, id: u32, v: u32, w: u32)
    requires
        is_survivor(pairs, id, v),
        is_survivor(pairs, id, w),
    ensures
        v == w,
{
}

proof fn lemma_winner_survives(
    pairs: Seq<(u32, i64, u32, i64)>,
    parent: Map<u32, u32>,
    len: Map<u32, i64>,
    ids: Seq<u32>,
    winner: Map<u32, (i64, u32)>,
    id: u32,
)
    requires
        gathered(pairs, parent, len, ids),
        best_so_far(pairs, parent, ids, winner),
        ids.contains(id),
    ensures
        winner.contains_key(union_find::root(parent, id)),
        is_survivor(pairs, id, winner[union_find::root(parent, id)].1),
{
    let r = union_find::root(parent, id);
    let w = winner[r].1;
    assert(winner.contains_key(r));
    assert(ids.contains(w));
    assert(parent.contains_key(w) && parent.contains_key(id));
    assert(union_find::joined_by(pair_ids(pairs), id, w));
    assert forall|v: u32| #[trigger]
        is_paired(pairs, v) && union_find::joined_by(pair_ids(pairs), id, v) && v != w implies better_copy(
        pairs,
        w,
        v,
    ) by {
        assert(parent.contains_key(v));
        assert(union_find::root(parent, id) == union_find::root(parent, v));
        assert(ids.contains(v));
    }
}

/// The survivor of a cluster is never among its losers, and all copies of one game
/// have the same survivor.
pub proof fn law_survivor_survives(pairs: Seq<(u32, i64, u32, i64)>, id: u32, w: u32)
    requires
        is_paired(pairs, id),
        is_survivor(pairs, id, w),
    ensures
        is_survivor(pairs, w, w),
        forall|v: u32| is_survivor(pairs, w, v) ==> v == w,
        forall|other: u32|
            union_find::joined_by(pair_ids(pairs), id, other) ==> #[trigger] is_survivor(pairs, other, w),
{
    let edges = pair_ids(pairs);
    assert forall|other: u32| union_find::joined_by(edges, id, other) implies #[trigger] is_survivor(
        pairs,
        other,
        w,
    ) by {
        union_find::law_joined_symmetric(edges, id, other);
        union_find::law_joined_transitive(edges, other, id, w);
        assert forall|v: u32| #[trigger]
            is_paired(pairs, v) && union_find::joined_by(edges, other, v) && v != w implies better_copy(
            pairs,
            w,
            v,
        ) by {
            union_find::law_joined_transitive(edges, id, other, v);
        }
    }
    assert(is_survivor(pairs, w, w));
    union_find::law_joined_reflexive(edges, w);
    assert forall|v: u32| is_survivor(pairs, w, v) implies v == w by {
        lemma_one_survivor(pairs, w, v, w);
    }
}

/// The best copy of a game among those that the first `n` pairs name, and itself.
proof fn lemma_best_of(pairs: Seq<(u32, i64, u32, i64)>, id: u32, n: int) -> (w: u32)
    requires
        is_paired(pairs, id),
        0 <= n <= pairs.len(),
    ensures
        is_paired(pairs, w),
        union_find::joined_by(pair_ids(pairs), id, w),
        w == id || better_copy(pairs, w, id),
        forall|i: int, v: u32|
            0 <= i < n && ((#[trigger] pairs[i]).0 == v || pairs[i].2 == v)
                && #[trigger] union_find::joined_by(pair_ids(pairs), id, v) && v != w ==> better_copy(
                pairs,
                w,
                v,
            ),
    decreases n,
{
    let edges = pair_ids(pairs);
    if n == 0 {
        union_find::law_joined_reflexive(edges, id);
        id
    } else {
        let w = lemma_best_of(pairs, id, n - 1);
        let a = pairs[n - 1].0;
        let b = pairs[n - 1].2;
        assert(is_paired(pairs, a) && is_paired(pairs, b));
        let x = if union_find::joined_by(edges, id, a) && better_copy(pairs, a, w) {
            a
        } else {
            w
        };
        if union_find::joined_by(edges, id, b) && better_copy(pairs, b, x) {
            b
        } else {
            x
        }
    }
}

/// Of the copies of a game one stays.
pub proof fn law_a_copy_stays(pairs: Seq<(u32, i64, u32, i64)>, id: u32) -> (w: u32)
    requires
        is_paired(pairs, id),
    ensures
        is_survivor(pairs, id, w),
{
    let w = lemma_best_of(pairs, id, pairs.len() as int);
    assert forall|v: u32| #[trigger]
        is_paired(pairs, v) && union_find::joined_by(pair_ids(pairs), id, v) && v != w implies better_copy(
        pairs,
        w,
        v,
    ) by {
        let i = choose|i: int| 0 <= i < pairs.len() && ((#[trigger] pairs[i]).0 == v || pairs[i].2 == v);
        assert(pairs[i].0 == v || pairs[i].2 == v);
    }
    w
}

/// Of two games that make a pair, one goes.
pub proof fn law_one_of_a_pair_goes(
    pairs: Seq<(u32, i64, u32, i64)>,
    losers: Seq<(u32, u32)>,
    k: int,
)
    requires
        are_losers(pairs, losers),
        0 <= k < pairs.len(),
        pairs[k].0 != pairs[k].2,
    ensures
        goes(losers, pairs[k].0) || goes(losers, pairs[k].2),
{
    let a = pairs[k].0;
    let b = pairs[k].2;
    assert(is_paired(pairs, a) && is_paired(pairs, b));
    union_find::law_joined_contains_pairs(pair_ids(pairs), k);
    assert(union_find::joined_by(pair_ids(pairs), a, b));
    let w = law_a_copy_stays(pairs, a);
    law_survivor_survives(pairs, a, w);
    assert(is_survivor(pairs, b, w));
    if a != w {
        assert(losers.contains((a, w)));
    } else {
        assert(losers.contains((b, w)));
    }
}

/// Whether a game goes.
pub open spec fn goes(losers: Seq<(u32, u32)>, id: u32) -> bool {
    exists|w: u32| #[trigger] losers.contains((id, w))
}

// ── Laws of lengths ──────────────────────────────────────────────────────────

/// The length of a game is the one that the pairs give it, on whichever side it stands.
pub proof fn law_lengths_are_those_of_the_pairs(pairs: Seq<(u32, i64, u32, i64)>, id: u32, length: i64)
    requires
        is_paired(pairs, id),
        forall|i: int|
            0 <= i < pairs.len() ==> ((#[trigger] pairs[i]).0 == id ==> pairs[i].1 == length) && (
            pairs[i].2 == id ==> pairs[i].3 == length),
    ensures
        pgn_length(pairs, id) == length,
    decreases pairs.len(),
{
    let n = pairs.len() as int;
    let last = pairs[n - 1];
    if last.0 != id && last.2 != id {
        let front = pairs.drop_last();
        let k = choose|k: int|
            0 <= k < pairs.len() && ((#[trigger] pairs[k]).0 == id || pairs[k].2 == id);
        assert(front[k] == pairs[k]);
        assert forall|i: int| 0 <= i < front.len() implies ((#[trigger] front[i]).0 == id
            ==> front[i].1 == length) && (front[i].2 == id ==> front[i].3 == length) by {
            assert(front[i] == pairs[i]);
        }
        law_lengths_are_those_of_the_pairs(front, id, length);
    }
}

/// The longer game is the better copy, and of two as long the one with the lower number; of
/// two games one is better, and only one.
pub proof fn law_which_copy_is_better(pairs: Seq<(u32, i64, u32, i64)>, a: u32, b: u32)
    requires
        a != b,
    ensures
        pgn_length(pairs, a) > pgn_length(pairs, b) ==> better_copy(pairs, a, b),
        pgn_length(pairs, a) == pgn_length(pairs, b) && a < b ==> better_copy(pairs, a, b),
        better_copy(pairs, a, b) <==> !better_copy(pairs, b, a),
{
}

/// Nothing is lost: the copy that stays is at least as long as any that goes into it.
pub proof fn law_the_longest_copy_stays(pairs: Seq<(u32, i64, u32, i64)>, id: u32, w: u32)
    requires
        is_paired(pairs, id),
        is_survivor(pairs, id, w),
    ensures
        pgn_length(pairs, w) >= pgn_length(pairs, id),
        pgn_length(pairs, w) == pgn_length(pairs, id) ==> w <= id,
{
    union_find::law_joined_reflexive(pair_ids(pairs), id);
}

} // verus!
