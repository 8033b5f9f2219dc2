//! Classes of things that pairs join, and the parent map that finds them.
use std::collections::HashMap;
use vstd::prelude::*;

verus! {

broadcast use vstd::std_specs::hash::group_hash_axioms;

// ── Classes ──────────────────────────────────────────────────────────────────

/// `a` and `b` are in one class once each pair has joined the classes of its two ends,
/// in order.
pub open spec fn joined_by(pairs: Seq<(u32, u32)>, a: u32, b: u32) -> bool
    decreases pairs.len(),
{
    if pairs.len() == 0 {
        a == b
    } else {
        let before = pairs.drop_last();
        let (x, y) = pairs.last();
        ||| joined_by(before, a, b)
        ||| joined_by(before, a, x) && joined_by(before, y, b)
        ||| joined_by(before, a, y) && joined_by(before, x, b)
    }
}

/// Everything is in its own class.
pub proof fn law_joined_reflexive(pairs: Seq<(u32, u32)>, a: u32)
    ensures
        joined_by(pairs, a, a),
    decreases pairs.len(),
{
    if pairs.len() > 0 {
        law_joined_reflexive(pairs.drop_last(), a);
    }
}

/// Being in one class does not depend on which of two things is named first.
pub proof fn law_joined_symmetric(pairs: Seq<(u32, u32)>, a: u32, b: u32)
    requires
        joined_by(pairs, a, b),
    ensures
        joined_by(pairs, b, a),
    decreases pairs.len(),
{
    if pairs.len() > 0 {
        let before = pairs.drop_last();
        let (x, y) = pairs.last();
        if joined_by(before, a, b) {
            law_joined_symmetric(before, a, b);
        } else if joined_by(before, a, x) && joined_by(before, y, b) {
            law_joined_symmetric(before, a, x);
            law_joined_symmetric(before, y, b);
        } else {
            law_joined_symmetric(before, a, y);
            law_joined_symmetric(before, x, b);
        }
    }
}

/// Two things in the class of a third are in one class.
pub proof fn law_joined_transitive(pairs: Seq<(u32, u32)>, a: u32, b: u32, c: u32)
    requires
        joined_by(pairs, a, b),
        joined_by(pairs, b, c),
    ensures
        joined_by(pairs, a, c),
    decreases pairs.len(),
{
    if pairs.len() > 0 {
        let before = pairs.drop_last();
        let (x, y) = pairs.last();
        let ab = joined_by(before, a, b);
        let bc = joined_by(before, b, c);
        let ax = joined_by(before, a, x) && joined_by(before, y, b);
        let bx = joined_by(before, b, x) && joined_by(before, y, c);
        if ab && bc {
            law_joined_transitive(before, a, b, c);
        } else if ab && bx {
            law_joined_transitive(before, a, b, x);
        } else if ab {
            law_joined_transitive(before, a, b, y);
        } else if ax && bc {
            law_joined_transitive(before, y, b, c);
        } else if bc {
            law_joined_transitive(before, x, b, c);
        } else if ax && !bx {
            law_joined_transitive(before, a, x, c);
        } else if !ax && bx {
            law_joined_transitive(before, a, y, c);
        }
    }
}

/// The two ends of each pair are in one class.
pub proof fn law_joined_contains_pairs(pairs: Seq<(u32, u32)>, i: int)
    requires
        0 <= i < pairs.len(),
    ensures
        joined_by(pairs, pairs[i].0, pairs[i].1),
    decreases pairs.len(),
{
    let before = pairs.drop_last();
    if i == pairs.len() - 1 {
        law_joined_reflexive(before, pairs[i].0);
        law_joined_reflexive(before, pairs[i].1);
    } else {
        assert(before[i] == pairs[i]);
        law_joined_contains_pairs(before, i);
    }
}

/// The classes are as small as they can be: any equivalence that holds of each pair
/// holds of any two things in one class.
pub proof fn law_joined_is_smallest(
    pairs: Seq<(u32, u32)>,
    eqv: spec_fn(u32, u32) -> bool,
    a: u32,
    b: u32,
)
    requires
        forall|u: u32| #[trigger] eqv(u, u),
        forall|u: u32, v: u32| #[trigger] eqv(u, v) ==> eqv(v, u),
        forall|u: u32, v: u32, w: u32|
            #![trigger eqv(u, v), eqv(v, w)]
            eqv(u, v) && eqv(v, w) ==> eqv(u, w),
        forall|i: int| 0 <= i < pairs.len() ==> eqv((#[trigger] pairs[i]).0, pairs[i].1),
        joined_by(pairs, a, b),
    ensures
        eqv(a, b),
    decreases pairs.len(),
{
    if pairs.len() > 0 {
        let before = pairs.drop_last();
        let (x, y) = pairs.last();
        assert forall|i: int| 0 <= i < before.len() implies eqv(
            (#[trigger] before[i]).0,
            before[i].1,
        ) by {
            assert(before[i] == pairs[i]);
        }
        assert(eqv(pairs[pairs.len() - 1].0, pairs[pairs.len() - 1].1));
        assert(eqv(x, y) && eqv(y, x));
        if joined_by(before, a, b) {
            law_joined_is_smallest(before, eqv, a, b);
        } else if joined_by(before, a, x) && joined_by(before, y, b) {
            law_joined_is_smallest(before, eqv, a, x);
            law_joined_is_smallest(before, eqv, y, b);
            assert(eqv(a, y));
        } else {
            law_joined_is_smallest(before, eqv, a, y);
            law_joined_is_smallest(before, eqv, x, b);
            assert(eqv(a, x));
        }
    }
}

// ── Parent maps ──────────────────────────────────────────────────────────────

/// `depth` falls along the parent link of `x`, unless `x` is its own parent.
pub open spec fn link_falls(m: Map<u32, u32>, depth: spec_fn(u32) -> nat, x: u32) -> bool {
    m[x] != x ==> depth(m[x]) < depth(x)
}

/// `depth` falls along every parent link of `m`.
pub open spec fn depth_falls(m: Map<u32, u32>, depth: spec_fn(u32) -> nat) -> bool {
    forall|x: u32| m.contains_key(x) ==> #[trigger] link_falls(m, depth, x)
}

/// The parent links of `m` run in no circle: they lead, from everywhere, to a root.
pub open spec fn is_forest(m: Map<u32, u32>) -> bool {
    exists|depth: spec_fn(u32) -> nat| depth_falls(m, depth)
}

/// Whether no parent link leads on from `r`: it is its own parent, or has none.
pub open spec fn is_root(m: Map<u32, u32>, r: u32) -> bool {
    m.contains_key(r) ==> m[r] == r
}

/// Whether every parent is in `m` itself.
pub open spec fn stays_inside(m: Map<u32, u32>) -> bool {
    forall|x: u32| m.contains_key(x) ==> m.contains_key(#[trigger] m[x])
}

/// Where the parent links from `x` end.
pub open spec fn root_by(m: Map<u32, u32>, depth: spec_fn(u32) -> nat, x: u32) -> u32
    decreases depth(x),
{
    if m.contains_key(x) && m[x] != x && depth(m[x]) < depth(x) {
        root_by(m, depth, m[x])
    } else {
        x
    }
}

/// Where the parent links from `x` end; `x` itself if `m` does not hold it.
#[verifier::opaque]
pub open spec fn root(m: Map<u32, u32>, x: u32) -> u32 {
    root_by(m, choose|depth: spec_fn(u32) -> nat| depth_falls(m, depth), x)
}

/// Where `n` parent links lead from `x`.
pub open spec fn after_links(m: Map<u32, u32>, x: u32, n: nat) -> u32
    decreases n,
{
    if n == 0 || !m.contains_key(x) {
        x
    } else {
        after_links(m, m[x], (n - 1) as nat)
    }
}

/// Whether the parent links from `x` pass through `y`; they begin with `x` itself.
pub open spec fn on_path(m: Map<u32, u32>, x: u32, y: u32) -> bool {
    exists|n: nat| #[trigger] after_links(m, x, n) == y
}

/// `m` with everything on the path from `x` pointing straight at the root; all else is as
/// it was.
pub open spec fn compressed(m: Map<u32, u32>, x: u32) -> Map<u32, u32> {
    Map::new(
        |y: u32| m.contains_key(y),
        |y: u32|
            if on_path(m, x, y) {
                root(m, x)
            } else {
                m[y]
            },
    )
}

proof fn lemma_root_by_any(
    m: Map<u32, u32>,
    d1: spec_fn(u32) -> nat,
    d2: spec_fn(u32) -> nat,
    x: u32,
)
    requires
        depth_falls(m, d1),
        depth_falls(m, d2),
    ensures
        root_by(m, d1, x) == root_by(m, d2, x),
    decreases d1(x),
{
    if m.contains_key(x) && m[x] != x {
        assert(link_falls(m, d1, x) && link_falls(m, d2, x));
        lemma_root_by_any(m, d1, d2, m[x]);
    }
}

proof fn lemma_root(m: Map<u32, u32>, d: spec_fn(u32) -> nat, x: u32)
    requires
        depth_falls(m, d),
    ensures
        root(m, x) == root_by(m, d, x),
{
    reveal(root);
    let c = choose|depth: spec_fn(u32) -> nat| depth_falls(m, depth);
    lemma_root_by_any(m, c, d, x);
}

/// One step along the links does not change where they end, and the end is a root.
pub proof fn lemma_root_step(m: Map<u32, u32>, x: u32)
    requires
        is_forest(m),
    ensures
        m.contains_key(x) ==> root(m, x) == root(m, m[x]),
        is_root(m, root(m, x)),
        is_root(m, x) ==> root(m, x) == x,
        root(m, root(m, x)) == root(m, x),
        stays_inside(m) && m.contains_key(x) ==> m.contains_key(root(m, x)),
{
    let d = choose|depth: spec_fn(u32) -> nat| depth_falls(m, depth);
    lemma_root_end(m, d, x);
    lemma_root(m, d, x);
    lemma_root(m, d, root(m, x));
    if m.contains_key(x) {
        assert(link_falls(m, d, x));
        lemma_root(m, d, m[x]);
    }
}

proof fn lemma_root_end(m: Map<u32, u32>, d: spec_fn(u32) -> nat, x: u32)
    requires
        depth_falls(m, d),
    ensures
        is_root(m, root_by(m, d, x)),
        root_by(m, d, x) != x ==> d(root_by(m, d, x)) < d(x),
        stays_inside(m) && m.contains_key(x) ==> m.contains_key(root_by(m, d, x)),
    decreases d(x),
{
    if m.contains_key(x) && m[x] != x {
        assert(link_falls(m, d, x));
        lemma_root_end(m, d, m[x]);
    }
}

/// The path from `x` is `x` and the path from its parent.
proof fn lemma_path_step(m: Map<u32, u32>, x: u32, y: u32)
    ensures
        on_path(m, x, y) <==> y == x || m.contains_key(x) && on_path(m, m[x], y),
{
    assert(after_links(m, x, 0) == x);
    if on_path(m, x, y) {
        let n = choose|n: nat| #[trigger] after_links(m, x, n) == y;
        if n > 0 && m.contains_key(x) {
            assert(after_links(m, m[x], (n - 1) as nat) == y);
        }
    }
    if m.contains_key(x) && on_path(m, m[x], y) {
        let n = choose|n: nat| #[trigger] after_links(m, m[x], n) == y;
        assert(after_links(m, x, n + 1) == y);
    }
}

/// A root has nothing on its path but itself.
proof fn lemma_path_from_root(m: Map<u32, u32>, r: u32, y: u32)
    requires
        is_root(m, r),
    ensures
        on_path(m, r, y) <==> y == r,
{
    lemma_path_step(m, r, y);
    if on_path(m, r, y) {
        let n = choose|n: nat| #[trigger] after_links(m, r, n) == y;
        lemma_root_stays(m, r, n);
    }
}

proof fn lemma_root_stays(m: Map<u32, u32>, r: u32, n: nat)
    requires
        is_root(m, r),
    ensures
        after_links(m, r, n) == r,
    decreases n,
{
    if n > 0 && m.contains_key(r) {
        lemma_root_stays(m, r, (n - 1) as nat);
    }
}

/// What is on the path from `x` lies no deeper than `x`, and has the same root.
proof fn lemma_path_falls(m: Map<u32, u32>, d: spec_fn(u32) -> nat, x: u32, y: u32)
    requires
        depth_falls(m, d),
        on_path(m, x, y),
    ensures
        d(y) <= d(x),
        root(m, y) == root(m, x),
    decreases d(x),
{
    lemma_path_step(m, x, y);
    lemma_root_step(m, x);
    if y != x {
        assert(link_falls(m, d, x));
        if m[x] == x {
            lemma_path_from_root(m, x, y);
        } else {
            lemma_path_falls(m, d, m[x], y);
        }
    }
}

/// Shortening the path from `x` leaves every root as it was.
proof fn lemma_compress(m: Map<u32, u32>, d: spec_fn(u32) -> nat, x: u32, y: u32)
    requires
        depth_falls(m, d),
    ensures
        depth_falls(compressed(m, x), d),
        root(compressed(m, x), y) == root(m, y),
    decreases d(y),
{
    let m2 = compressed(m, x);
    let r = root(m, x);
    assert forall|z: u32| m2.contains_key(z) implies #[trigger] link_falls(m2, d, z) by {
        assert(link_falls(m, d, z));
        if on_path(m, x, z) {
            lemma_path_falls(m, d, x, z);
            lemma_root(m, d, z);
            lemma_root_end(m, d, z);
        }
    }
    assert(depth_falls(m2, d));
    lemma_root_step(m, y);
    lemma_root_step(m2, y);
    if m.contains_key(y) {
        assert(link_falls(m2, d, y));
        if on_path(m, x, y) {
            lemma_path_falls(m, d, x, y);
            lemma_root_step(m, x);
            if r != y {
                lemma_compress(m, d, x, r);
            }
        } else if m[y] != y {
            assert(link_falls(m, d, y));
            lemma_compress(m, d, x, m[y]);
        }
    }
}

/// Pointing the root `ra` at another root `rb` moves exactly the things under `ra`.
proof fn lemma_link(m: Map<u32, u32>, ra: u32, rb: u32, y: u32)
    requires
        is_forest(m),
        is_root(m, ra),
        is_root(m, rb),
        ra != rb,
    ensures
        is_forest(m.insert(ra, rb)),
        root(m.insert(ra, rb), y) == if root(m, y) == ra {
            rb
        } else {
            root(m, y)
        },
{
    let d = choose|depth: spec_fn(u32) -> nat| depth_falls(m, depth);
    let m2 = m.insert(ra, rb);
    let d2 = |x: u32|
        if root_by(m, d, x) == ra {
            (d(x) + d(rb) + 1) as nat
        } else {
            d(x)
        };
    assert(depth_falls(m2, d2)) by {
        assert forall|x: u32| m2.contains_key(x) implies #[trigger] link_falls(m2, d2, x) by {
            assert(root_by(m, d, rb) == rb);
            assert(root_by(m, d, ra) == ra);
            if x != ra {
                assert(link_falls(m, d, x));
            }
        }
    }
    lemma_link_roots(m, d, d2, ra, rb, y);
    lemma_root(m2, d2, y);
    lemma_root(m, d, y);
}

proof fn lemma_link_roots(
    m: Map<u32, u32>,
    d: spec_fn(u32) -> nat,
    d2: spec_fn(u32) -> nat,
    ra: u32,
    rb: u32,
    y: u32,
)
    requires
        depth_falls(m, d),
        depth_falls(m.insert(ra, rb), d2),
        is_root(m, ra),
        is_root(m, rb),
        ra != rb,
    ensures
        root_by(m.insert(ra, rb), d2, y) == if root_by(m, d, y) == ra {
            rb
        } else {
            root_by(m, d, y)
        },
    decreases d(y),
{
    let m2 = m.insert(ra, rb);
    assert(m.contains_key(y) ==> link_falls(m, d, y));
    assert(m2.contains_key(y) ==> link_falls(m2, d2, y));
    if m.contains_key(y) && m[y] != y {
        lemma_link_roots(m, d, d2, ra, rb, m[y]);
        assert(m2[y] == m[y]);
    } else if y == ra {
        assert(m2[ra] == rb);
        assert(root_by(m2, d2, rb) == rb);
    }
}

/// The parent links of `a` and of `b` end alike from everywhere.
pub open spec fn same_roots(a: Map<u32, u32>, b: Map<u32, u32>) -> bool {
    forall|y: u32| #[trigger] root(a, y) == root(b, y)
}

/// The parent links of `b` are those of `a` once everything under the root of `x` has
/// gone under the root of `y`.
pub open spec fn roots_joined(a: Map<u32, u32>, b: Map<u32, u32>, x: u32, y: u32) -> bool {
    forall|z: u32| #[trigger]
        root(b, z) == if root(a, z) == root(a, x) {
            root(a, y)
        } else {
            root(a, z)
        }
}

proof fn lemma_compress_all(m: Map<u32, u32>, x: u32)
    requires
        is_forest(m),
    ensures
        is_forest(compressed(m, x)),
        same_roots(compressed(m, x), m),
        compressed(m, x).dom() == m.dom(),
        stays_inside(m) ==> stays_inside(compressed(m, x)),
{
    let d = choose|depth: spec_fn(u32) -> nat| depth_falls(m, depth);
    let m2 = compressed(m, x);
    assert forall|y: u32| #[trigger] root(m2, y) == root(m, y) by {
        lemma_compress(m, d, x, y);
    }
    lemma_compress(m, d, x, x);
    assert(m2.dom() =~= m.dom());
    if stays_inside(m) {
        assert forall|y: u32| m2.contains_key(y) implies m2.contains_key(#[trigger] m2[y]) by {
            if on_path(m, x, y) {
                lemma_path_falls(m, d, x, y);
                lemma_root_step(m, y);
            }
            assert(m.contains_key(m[y]));
        }
    }
}

proof fn lemma_link_all(m: Map<u32, u32>, a: u32, b: u32)
    requires
        is_forest(m),
        root(m, a) != root(m, b),
    ensures
        is_forest(m.insert(root(m, a), root(m, b))),
        roots_joined(m, m.insert(root(m, a), root(m, b)), a, b),
        stays_inside(m) && m.contains_key(b) ==> stays_inside(
            m.insert(root(m, a), root(m, b)),
        ),
{
    let ra = root(m, a);
    let rb = root(m, b);
    lemma_root_step(m, a);
    lemma_root_step(m, b);
    assert forall|z: u32| #[trigger] root(m.insert(ra, rb), z) == (if root(m, z) == ra {
        rb
    } else {
        root(m, z)
    }) by {
        lemma_link(m, ra, rb, z);
    }
    lemma_link(m, ra, rb, a);
    let m2 = m.insert(ra, rb);
    if stays_inside(m) && m.contains_key(b) {
        assert forall|y: u32| m2.contains_key(y) implies m2.contains_key(#[trigger] m2[y]) by {
            if y != ra {
                assert(m.contains_key(y));
            }
        }
    }
}

/// Union-find root with path compression: the end of the parent links from `x`. Everything
/// on the way now points straight at it, all else is as it was, and no root changes.
pub fn uf_find(parent: &mut HashMap<u32, u32>, x: u32) -> (r: u32)
    requires
        is_forest(old(parent)@),
    ensures
        r == root(old(parent)@, x),
        is_root(old(parent)@, r),
        final(parent)@ == compressed(old(parent)@, x),
        is_forest(final(parent)@),
        final(parent)@.dom() == old(parent)@.dom(),
        same_roots(final(parent)@, old(parent)@),
        stays_inside(old(parent)@) ==> stays_inside(final(parent)@),
{
    let ghost before = parent@;
    let ghost depth = choose|depth: spec_fn(u32) -> nat| depth_falls(before, depth);
    let mut top: u32 = x;
    loop
        invariant
            parent@ == before,
            depth_falls(before, depth),
            root(before, top) == root(before, x),
        ensures
            parent@ == before,
            depth_falls(before, depth),
            top == root(before, x),
        decreases depth(top),
    {
        proof {
            lemma_root_step(before, top);
            assert(before.contains_key(top) ==> link_falls(before, depth, top));
        }
        match parent.get(&top) {
            Some(p) => {
                let q: u32 = *p;
                if q == top {
                    break ;
                }
                top = q;
            },
            None => {
                break ;
            },
        }
    }
    proof {
        lemma_root_step(before, x);
    }
    let mut cur: u32 = x;
    loop
        invariant
            depth_falls(before, depth),
            is_root(before, top),
            root(before, cur) == top,
            parent@.dom() == before.dom(),
            forall|y: u32| #[trigger] before.contains_key(y) ==> parent@[y] == (if on_path(
                before,
                x,
                y,
            ) && !on_path(before, cur, y) {
                top
            } else {
                before[y]
            }),
            forall|y: u32| #[trigger] on_path(before, cur, y) ==> on_path(before, x, y),
        ensures
            parent@.dom() == before.dom(),
            forall|y: u32| #[trigger] before.contains_key(y) ==> parent@[y] == (if on_path(
                before,
                x,
                y,
            ) {
                top
            } else {
                before[y]
            }),
        decreases depth(cur),
    {
        let ghost was = parent@;
        proof {
            assert forall|y: u32| #[trigger] on_path(before, cur, y) <==> y == cur
                || before.contains_key(cur) && on_path(before, before[cur], y) by {
                lemma_path_step(before, cur, y);
            }
            assert(on_path(before, cur, cur));
            lemma_root_step(before, cur);
            assert(before.dom().contains(cur) <==> was.dom().contains(cur));
        }
        match parent.get(&cur) {
            Some(p) => {
                let q: u32 = *p;
                assert(before.contains_key(cur) && q == before[cur]);
                if q == top {
                    proof {
                        assert forall|y: u32| #[trigger] before.contains_key(y) implies parent@[y]
                            == (if on_path(before, x, y) {
                            top
                        } else {
                            before[y]
                        }) by {
                            lemma_path_from_root(before, top, y);
                            assert(on_path(before, cur, y) ==> on_path(before, x, y));
                        }
                    }
                    break ;
                }
                proof {
                    assert(link_falls(before, depth, cur));
                    if q == cur {
                        assert(is_root(before, cur));
                    }
                    if on_path(before, q, cur) {
                        lemma_path_falls(before, depth, q, cur);
                    }
                }
                parent.insert(cur, top);
                proof {
                    assert(parent@.dom() =~= before.dom());
                    assert forall|y: u32| #[trigger] on_path(before, q, y) implies on_path(
                        before,
                        x,
                        y,
                    ) by {
                        assert(on_path(before, cur, y));
                    }
                }
                cur = q;
            },
            None => {
                proof {
                    assert forall|y: u32| #[trigger] before.contains_key(y) implies parent@[y]
                        == (if on_path(before, x, y) {
                        top
                    } else {
                        before[y]
                    }) by {
                        assert(on_path(before, cur, y) <==> y == cur);
                    }
                }
                break ;
            },
        }
    }
    proof {
        assert forall|y: u32| #[trigger] parent@.contains_key(y) <==> before.contains_key(y) by {
            assert(parent@.dom().contains(y) <==> before.dom().contains(y));
        }
        assert(parent@ =~= compressed(before, x));
        lemma_compress_all(before, x);
    }
    top
}

/// The parent map once the classes of `a` and `b` were put together.
pub open spec fn united(m: Map<u32, u32>, a: u32, b: u32) -> Map<u32, u32> {
    let found = compressed(compressed(m, a), b);
    if root(m, a) == root(m, b) {
        found
    } else {
        found.insert(root(m, a), root(m, b))
    }
}

/// Puts the classes of `a` and `b` together.
pub fn uf_union(parent: &mut HashMap<u32, u32>, a: u32, b: u32)
    requires
        is_forest(old(parent)@),
    ensures
        final(parent)@ == united(old(parent)@, a, b),
        is_forest(final(parent)@),
        final(parent)@.dom() == (if root(old(parent)@, a) == root(old(parent)@, b) {
            old(parent)@.dom()
        } else {
            old(parent)@.dom().insert(root(old(parent)@, a))
        }),
        roots_joined(old(parent)@, final(parent)@, a, b),
        stays_inside(old(parent)@) && old(parent)@.contains_key(a) && old(
            parent,
        )@.contains_key(b) ==> stays_inside(final(parent)@) && final(parent)@.dom() == old(
            parent,
        )@.dom(),
{
    let ghost before = parent@;
    let ra: u32 = uf_find(parent, a);
    let rb: u32 = uf_find(parent, b);
    proof {
        lemma_root_step(before, a);
    }
    if ra != rb {
        proof {
            assert(root(parent@, a) == ra && root(parent@, b) == rb);
            assert(parent@.dom().contains(b) <==> before.dom().contains(b));
            lemma_link_all(parent@, a, b);
        }
        parent.insert(ra, rb);
        assert(parent@.dom() =~= before.dom().insert(ra));
        assert(before.contains_key(ra) ==> parent@.dom() =~= before.dom());
    }
}

/// Two things of the parent map share a root exactly when `pairs` joins them.
pub open spec fn roots_follow(m: Map<u32, u32>, pairs: Seq<(u32, u32)>) -> bool {
    forall|a: u32, b: u32|
        #![trigger root(m, a), root(m, b)]
        m.contains_key(a) && m.contains_key(b) ==> (root(m, a) == root(m, b) <==> joined_by(
            pairs,
            a,
            b,
        ))
}

/// Joining two things in the map is what one more pair does to the classes.
pub proof fn lemma_union_follows(
    m: Map<u32, u32>,
    m2: Map<u32, u32>,
    pairs: Seq<(u32, u32)>,
    x: u32,
    y: u32,
)
    requires
        roots_follow(m, pairs),
        m.contains_key(x),
        m.contains_key(y),
        m2.dom() == m.dom(),
        roots_joined(m, m2, x, y),
    ensures
        roots_follow(m2, pairs.push((x, y))),
{
    let more = pairs.push((x, y));
    assert(more.drop_last() =~= pairs);
    assert forall|a: u32, b: u32|
        #![trigger root(m2, a), root(m2, b)]
        m2.contains_key(a) && m2.contains_key(b) implies (root(m2, a) == root(m2, b) <==> joined_by(
        more,
        a,
        b,
    )) by {
        assert(m.dom().contains(a) && m.dom().contains(b));
        assert(joined_by(pairs, a, b) <==> root(m, a) == root(m, b));
        assert(joined_by(pairs, a, x) <==> root(m, a) == root(m, x));
        assert(joined_by(pairs, y, b) <==> root(m, y) == root(m, b));
        assert(joined_by(pairs, a, y) <==> root(m, a) == root(m, y));
        assert(joined_by(pairs, x, b) <==> root(m, x) == root(m, b));
    }
}

/// A new thing, alone in its class, disturbs nothing.
pub proof fn lemma_add_single(m: Map<u32, u32>, pairs: Seq<(u32, u32)>, x: u32)
    requires
        is_forest(m),
        stays_inside(m),
        roots_follow(m, pairs),
        !m.contains_key(x),
        forall|i: int| 0 <= i < pairs.len() ==> (#[trigger] pairs[i]).0 != x && pairs[i].1 != x,
    ensures
        is_forest(m.insert(x, x)),
        stays_inside(m.insert(x, x)),
        roots_follow(m.insert(x, x), pairs),
{
    let d = choose|depth: spec_fn(u32) -> nat| depth_falls(m, depth);
    let m2 = m.insert(x, x);
    assert(depth_falls(m2, d)) by {
        assert forall|y: u32| m2.contains_key(y) implies #[trigger] link_falls(m2, d, y) by {
            if y != x {
                assert(link_falls(m, d, y));
            }
        }
    }
    assert forall|y: u32| root(m2, y) == root(m, y) by {
        lemma_root(m2, d, y);
        lemma_root(m, d, y);
        lemma_single_roots(m, d, x, y);
    }
    assert forall|y: u32| m2.contains_key(y) implies m2.contains_key(#[trigger] m2[y]) by {
        if y != x {
            assert(m.contains_key(y));
        }
    }
    assert forall|a: u32, b: u32|
        #![trigger root(m2, a), root(m2, b)]
        m2.contains_key(a) && m2.contains_key(b) implies (root(m2, a) == root(m2, b) <==> joined_by(
        pairs,
        a,
        b,
    )) by {
        lemma_root_step(m, a);
        lemma_root_step(m, b);
        if a == x || b == x {
            if a == b {
                law_joined_reflexive(pairs, a);
            } else {
                lemma_untouched(pairs, x, a, b);
            }
        }
    }
}

proof fn lemma_single_roots(m: Map<u32, u32>, d: spec_fn(u32) -> nat, x: u32, y: u32)
    requires
        depth_falls(m, d),
        !m.contains_key(x),
    ensures
        root_by(m.insert(x, x), d, y) == root_by(m, d, y),
    decreases d(y),
{
    if m.contains_key(y) && m[y] != y {
        assert(link_falls(m, d, y));
        lemma_single_roots(m, d, x, m[y]);
    }
}

/// What no pair names is alone in its class.
pub proof fn lemma_untouched(pairs: Seq<(u32, u32)>, x: u32, a: u32, b: u32)
    requires
        forall|i: int| 0 <= i < pairs.len() ==> (#[trigger] pairs[i]).0 != x && pairs[i].1 != x,
        a == x || b == x,
        a != b,
    ensures
        !joined_by(pairs, a, b),
    decreases pairs.len(),
{
    if pairs.len() > 0 {
        let before = pairs.drop_last();
        assert(pairs.last() == pairs[pairs.len() - 1]);
        assert forall|i: int| 0 <= i < before.len() implies (#[trigger] before[i]).0 != x
            && before[i].1 != x by {
            assert(before[i] == pairs[i]);
        }
        lemma_untouched(before, x, a, b);
        let (u, v) = pairs.last();
        if a == x {
            lemma_untouched(before, x, a, u);
            lemma_untouched(before, x, a, v);
        } else {
            lemma_untouched(before, x, v, b);
            lemma_untouched(before, x, u, b);
        }
    }
}

} // verus!
