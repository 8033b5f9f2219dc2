//! Comparing and sorting.
use crate::text::chars_of;
use vstd::prelude::*;

verus! {

// ── Comparing lists of numbers ───────────────────────────────────────────────

/// The `i`-th number of a list; 0 behind its last one.
pub open spec fn part(v: Seq<nat>, i: int) -> nat {
    if 0 <= i < v.len() {
        v[i]
    } else {
        0
    }
}

/// Whether two lists agree before `i`, and the first has the lower number there.
pub open spec fn lower_at(a: Seq<nat>, b: Seq<nat>, i: int) -> bool {
    &&& 0 <= i
    &&& part(a, i) < part(b, i)
    &&& forall|k: int| 0 <= k < i ==> #[trigger] part(a, k) == part(b, k)
}

/// Whether a list comes before another: where they first differ it has the lower number.
pub open spec fn precedes(a: Seq<nat>, b: Seq<nat>) -> bool {
    exists|i: int| #[trigger] lower_at(a, b, i)
}

/// The order is strict: no list comes before itself, and what comes before an earlier one
/// is earlier.
pub proof fn law_order_is_strict(a: Seq<nat>, b: Seq<nat>, c: Seq<nat>)
    ensures
        !precedes(a, a),
        precedes(a, b) ==> !precedes(b, a),
        precedes(a, b) && precedes(b, c) ==> precedes(a, c),
{
    if precedes(a, b) {
        let i = choose|i: int| #[trigger] lower_at(a, b, i);
        if precedes(b, a) {
            let j = choose|j: int| #[trigger] lower_at(b, a, j);
            assert(part(a, i) != part(b, i));
            assert(part(a, j) != part(b, j));
        }
        if precedes(b, c) {
            let j = choose|j: int| #[trigger] lower_at(b, c, j);
            let k = if i < j {
                i
            } else {
                j
            };
            assert forall|l: int| 0 <= l < k implies #[trigger] part(a, l) == part(c, l) by {
                assert(part(a, l) == part(b, l));
                assert(part(b, l) == part(c, l));
            }
            if i < j {
                assert(part(b, i) == part(c, i));
            } else if j < i {
                assert(part(a, j) == part(b, j));
            }
            assert(lower_at(a, c, k));
        }
    }
}

/// Where two lists first differ, if they do up to a place.
proof fn lemma_first_difference(a: Seq<nat>, b: Seq<nat>, n: int) -> (k: int)
    requires
        0 <= n,
    ensures
        0 <= k <= n + 1,
        forall|j: int| 0 <= j < k ==> #[trigger] part(a, j) == part(b, j),
        k <= n ==> part(a, k) != part(b, k),
    decreases n,
{
    if n == 0 {
        if part(a, 0) == part(b, 0) {
            1
        } else {
            0
        }
    } else {
        let k = lemma_first_difference(a, b, n - 1);
        if k < n {
            k
        } else if part(a, n) == part(b, n) {
            n + 1
        } else {
            n
        }
    }
}

/// What lies between an earlier and a later list is later than the one or earlier than
/// the other.
pub proof fn lemma_between(a: Seq<nat>, b: Seq<nat>, c: Seq<nat>)
    requires
        precedes(a, c),
    ensures
        precedes(a, b) || precedes(b, c),
{
    let i = choose|i: int| #[trigger] lower_at(a, c, i);
    let k = lemma_first_difference(a, b, i);
    if k > i {
        assert forall|j: int| 0 <= j < i implies #[trigger] part(b, j) == part(c, j) by {
            assert(part(a, j) == part(b, j));
            assert(part(a, j) == part(c, j));
        }
        assert(part(a, i) == part(b, i));
        assert(lower_at(b, c, i));
    } else if part(a, k) < part(b, k) {
        assert(lower_at(a, b, k));
    } else {
        assert forall|j: int| 0 <= j < k implies #[trigger] part(b, j) == part(c, j) by {
            assert(part(a, j) == part(b, j));
            assert(part(a, j) == part(c, j));
        }
        if k < i {
            assert(part(a, k) == part(c, k));
        }
        assert(lower_at(b, c, k));
    }
}

// ── Comparing texts ──────────────────────────────────────────────────────────

/// The numbers by which a text is ordered: those of its characters, above 0.
pub open spec fn codes(s: Seq<char>) -> Seq<nat> {
    s.map_values(|c: char| (c as u32 + 1) as nat)
}

fn code_of(c: char) -> (n: u64)
    ensures
        n == c as u32 + 1,
{
    c as u32 as u64 + 1
}

/// The numbers by which a text is ordered.
pub fn codes_of(s: &str) -> (out: Vec<u64>)
    ensures
        numbers(out@) == codes(s@),
{
    let chars: Vec<char> = chars_of(s);
    let mut out: Vec<u64> = Vec::new();
    let mut i: usize = 0;
    while i < chars.len()
        invariant
            i <= chars.len(),
            numbers(out@) == codes(chars@).take(i as int),
        decreases chars.len() - i,
    {
        let ghost had = numbers(out@);
        out.push(code_of(chars[i]));
        i += 1;
        assert(numbers(out@) =~= had.push((chars@[i - 1] as u32 + 1) as nat));
        assert(numbers(out@) =~= codes(chars@).take(i as int));
    }
    assert(numbers(out@) =~= codes(s@));
    out
}

/// A list of machine numbers, as numbers.
pub open spec fn numbers(v: Seq<u64>) -> Seq<nat> {
    v.map_values(|n: u64| n as nat)
}

/// Whether a list comes before another.
pub fn comes_before(a: &[u64], b: &[u64]) -> (r: bool)
    ensures
        r == precedes(numbers(a@), numbers(b@)),
{
    let ghost x = numbers(a@);
    let ghost y = numbers(b@);
    let n: usize = if a.len() > b.len() {
        a.len()
    } else {
        b.len()
    };
    let mut i: usize = 0;
    while i < n
        invariant
            i <= n,
            n >= a.len(),
            n >= b.len(),
            x == numbers(a@),
            y == numbers(b@),
            forall|k: int| 0 <= k < i ==> #[trigger] part(x, k) == part(y, k),
        decreases n - i,
    {
        let p: u64 = if i < a.len() {
            a[i]
        } else {
            0
        };
        let q: u64 = if i < b.len() {
            b[i]
        } else {
            0
        };
        assert(p == part(x, i as int));
        assert(q == part(y, i as int));
        if p != q {
            proof {
                if p < q {
                    assert(lower_at(x, y, i as int));
                } else {
                    assert forall|j: int| !#[trigger] lower_at(x, y, j) by {
                        if j > i {
                            assert(part(x, i as int) != part(y, i as int));
                        }
                    }
                }
            }
            return p < q;
        }
        i += 1;
    }
    proof {
        assert forall|j: int| !#[trigger] lower_at(x, y, j) by {
            if 0 <= j < n {
                assert(part(x, j) == part(y, j));
            }
        }
    }
    false
}

// ── Sorting ──────────────────────────────────────────────────────────────────

/// Whether the entry at one place comes before that at another: by its key, and where
/// the keys are equal by its place.
pub open spec fn goes_first(keys: Seq<Seq<nat>>, a: int, b: int) -> bool {
    !precedes(keys[b], keys[a]) && (precedes(keys[a], keys[b]) || a < b)
}

/// Places in the order of their keys.
pub open spec fn in_key_order(keys: Seq<Seq<nat>>, places: Seq<usize>) -> bool {
    forall|i: int, j: int|
        0 <= i < j < places.len() ==> goes_first(
            keys,
            #[trigger] places[i] as int,
            #[trigger] places[j] as int,
        )
}

/// Every place below `n` occurs, and occurs once.
pub open spec fn is_arrangement(places: Seq<usize>, n: int) -> bool {
    &&& places.len() == n
    &&& places.no_duplicates()
    &&& forall|i: int| 0 <= i < places.len() ==> (#[trigger] places[i]) < n
    &&& forall|p: int| 0 <= p < n ==> #[trigger] places.contains(p as usize)
}

/// The keys of a list, as numbers.
pub open spec fn key_numbers(v: Seq<Vec<u64>>) -> Seq<Seq<nat>> {
    v.map_values(|k: Vec<u64>| numbers(k@))
}

proof fn lemma_insert(keys: Seq<Seq<nat>>, places: Seq<usize>, n: usize, at: int)
    requires
        is_arrangement(places, n as int),
        in_key_order(keys, places),
        n < keys.len(),
        0 <= at <= n,
        forall|k: int| 0 <= k < at ==> !precedes(keys[n as int], keys[#[trigger] places[k] as int]),
        forall|k: int|
            at <= k < n ==> precedes(keys[n as int], keys[#[trigger] places[k] as int]),
    ensures
        is_arrangement(places.insert(at, n), n + 1),
        in_key_order(keys, places.insert(at, n)),
{
    let p = places.insert(at, n);
    assert forall|i: int, j: int| 0 <= i < j < p.len() implies goes_first(
        keys,
        #[trigger] p[i] as int,
        #[trigger] p[j] as int,
    ) by {
        let a = p[i] as int;
        let b = p[j] as int;
        if i < at && j == at {
            assert(p[i] == places[i]);
            assert(!precedes(keys[n as int], keys[places[i] as int]));
        } else if i == at {
            assert(p[j] == places[j - 1]);
            assert(precedes(keys[n as int], keys[places[j - 1] as int]));
            law_order_is_strict(keys[a], keys[b], keys[a]);
        } else {
            let i2 = if i < at {
                i
            } else {
                i - 1
            };
            let j2 = if j < at {
                j
            } else {
                j - 1
            };
            assert(p[i] == places[i2] && p[j] == places[j2]);
            assert(goes_first(keys, places[i2] as int, places[j2] as int));
        }
    }
    assert forall|q: int| 0 <= q < n + 1 implies #[trigger] p.contains(q as usize) by {
        if q == n {
            assert(p[at] == n);
        } else {
            assert(places.contains(q as usize));
            let k = choose|k: int| 0 <= k < places.len() && places[k] == q as usize;
            if k < at {
                assert(p[k] == q as usize);
            } else {
                assert(p[k + 1] == q as usize);
            }
        }
    }
    assert forall|i: int| 0 <= i < p.len() implies (#[trigger] p[i]) < n + 1 by {
        if i < at {
            assert(p[i] == places[i]);
        } else if i > at {
            assert(p[i] == places[i - 1]);
        }
    }
    assert(p.no_duplicates()) by {
        assert forall|i: int, j: int| 0 <= i < p.len() && 0 <= j < p.len() && i != j implies p[i]
            != p[j] by {
            let i2 = if i < at {
                i
            } else {
                i - 1
            };
            let j2 = if j < at {
                j
            } else {
                j - 1
            };
            if i == at {
                assert(p[j] == places[j2]);
                assert(places[j2] < n);
            } else if j == at {
                assert(p[i] == places[i2]);
                assert(places[i2] < n);
            } else {
                assert(p[i] == places[i2] && p[j] == places[j2]);
            }
        }
    }
}

/// The places of a list of keys in the order of the keys; equal keys keep their order.
pub fn sort_places(keys: &[Vec<u64>]) -> (places: Vec<usize>)
    ensures
        is_arrangement(places@, keys@.len() as int),
        in_key_order(key_numbers(keys@), places@),
{
    let ghost ks = key_numbers(keys@);
    let mut places: Vec<usize> = Vec::new();
    let mut i: usize = 0;
    while i < keys.len()
        invariant
            i <= keys.len(),
            ks == key_numbers(keys@),
            is_arrangement(places@, i as int),
            in_key_order(ks, places@),
        decreases keys.len() - i,
    {
        let key: &Vec<u64> = &keys[i];
        assert(ks[i as int] == numbers(key@));
        let mut low: usize = 0;
        let mut high: usize = i;
        while low < high
            invariant
                low <= high <= i < keys.len(),
                ks == key_numbers(keys@),
                ks[i as int] == numbers(key@),
                is_arrangement(places@, i as int),
                in_key_order(ks, places@),
                forall|k: int|
                    0 <= k < low ==> !precedes(ks[i as int], ks[#[trigger] places@[k] as int]),
                forall|k: int|
                    high <= k < i ==> precedes(ks[i as int], ks[#[trigger] places@[k] as int]),
            decreases high - low,
        {
            let mid: usize = low + (high - low) / 2;
            let at: usize = places[mid];
            assert(ks[at as int] == numbers(keys@[at as int]@));
            if comes_before(key, &keys[at]) {
                proof {
                    assert forall|k: int| mid <= k < i implies precedes(
                        ks[i as int],
                        ks[#[trigger] places@[k] as int],
                    ) by {
                        if k > mid {
                            assert(goes_first(ks, places@[mid as int] as int, places@[k] as int));
                            lemma_between(ks[i as int], ks[places@[k] as int], ks[at as int]);
                        }
                    }
                }
                high = mid;
            } else {
                proof {
                    assert forall|k: int| 0 <= k < mid + 1 implies !precedes(
                        ks[i as int],
                        ks[#[trigger] places@[k] as int],
                    ) by {
                        if k < mid {
                            assert(goes_first(ks, places@[k] as int, places@[mid as int] as int));
                            if precedes(ks[i as int], ks[places@[k] as int]) {
                                lemma_between(ks[i as int], ks[at as int], ks[places@[k] as int]);
                            }
                        }
                    }
                }
                low = mid + 1;
            }
        }
        proof {
            lemma_insert(ks, places@, i, low as int);
        }
        places.insert(low, i);
        i += 1;
    }
    places
}

// ── Laws of texts in order ───────────────────────────────────────────────────

/// Texts are ordered by the first character in which they differ, and a text comes before
/// every longer one that begins with it.
pub proof fn law_texts_are_ordered_by_their_characters(
    a: Seq<char>,
    c: char,
    d: char,
    x: Seq<char>,
    y: Seq<char>,
)
    ensures
        (c as u32) < (d as u32) ==> precedes(codes(a + seq![c] + x), codes(a + seq![d] + y)),
        precedes(codes(a), codes(a + seq![c] + x)),
{
    let p = codes(a + seq![c] + x);
    let q = codes(a + seq![d] + y);
    let n = a.len() as int;
    assert(p[n] == c as u32 + 1);
    assert(q[n] == d as u32 + 1);
    assert forall|k: int| 0 <= k < n implies #[trigger] part(p, k) == part(q, k) by {
        assert((a + seq![c] + x)[k] == (a + seq![d] + y)[k]);
    }
    if (c as u32) < (d as u32) {
        assert(lower_at(p, q, n));
    }
    let r = codes(a);
    assert forall|k: int| 0 <= k < n implies #[trigger] part(r, k) == part(p, k) by {
        assert((a + seq![c] + x)[k] == a[k]);
    }
    assert(part(r, n) == 0);
    assert(lower_at(r, p, n));
}

} // verus!
