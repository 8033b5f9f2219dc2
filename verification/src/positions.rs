//! The rows of the position index that a line of moves gives: for each position its
//! number of half-moves, its hash, and the move made in it.
use crate::reporter;
use vstd::prelude::*;

verus! {

/// The position depth, in half-moves, at which a game is indexed unless told otherwise.
pub const DEFAULT_POSITION_DEPTH: i16 = 40;

/// A row: half-moves made, hash, and the move made here, if one is known.
pub type PositionEntry = (i16, i64, Option<String>);

pub type EntryView = (i16, i64, Option<Seq<char>>);

pub open spec fn entry_view(e: PositionEntry) -> EntryView {
    (e.0, e.1, reporter::opt_text(e.2))
}

pub open spec fn entries(v: Seq<PositionEntry>) -> Seq<EntryView> {
    v.map_values(|e: PositionEntry| entry_view(e))
}

/// The hash of a position as it is stored: the same bits, signed.
pub open spec fn stored_hash(hash: u64) -> i64 {
    hash as i64
}

/// The rows once a move has been made from the last of them, as the `n`-th half-move: as
/// deep as one beyond the depth, that row says which move it was.
pub open spec fn with_next(v: Seq<EntryView>, n: int, depth: int, san: Seq<char>) -> Seq<EntryView> {
    if n <= depth + 1 && v.len() > 0 {
        v.update(v.len() - 1, (v.last().0, v.last().1, Some(san)))
    } else {
        v
    }
}

/// The rows with one for the position after the `n`-th half-move.
pub open spec fn with_row(v: Seq<EntryView>, n: int, hash: u64) -> Seq<EntryView> {
    v.push((n as i16, stored_hash(hash), None))
}

/// Notes in the last row which move was made there.
pub fn set_next(v: &mut Vec<PositionEntry>, n: i16, depth: i16, san: &str)
    ensures
        entries(final(v)@) == with_next(entries(old(v)@), n as int, depth as int, san@),
{
    if (n as i32) <= (depth as i32) + 1 && v.len() > 0 {
        let last: usize = v.len() - 1;
        let ghost before = entries(v@);
        let row: PositionEntry = (v[last].0, v[last].1, Some(san.to_owned()));
        v.set(last, row);
        assert(entries(v@) =~= before.update(
            last as int,
            (before.last().0, before.last().1, Some(san@)),
        ));
    }
}

/// Appends the row of a position.
pub fn push_row(v: &mut Vec<PositionEntry>, n: i16, hash: u64)
    ensures
        entries(final(v)@) == with_row(entries(old(v)@), n as int, hash),
{
    let ghost before = entries(v@);
    v.push((n, hash as i64, None));
    assert(entries(v@) =~= before.push((n, stored_hash(hash), None)));
}

// ── Laws of index rows ───────────────────────────────────────────────────────

/// A row more stands at the end with its number and its position, and no move yet; those
/// before it stay.
pub proof fn law_rows_are_added_at_the_end(v: Seq<EntryView>, n: i16, hash: u64, k: int)
    ensures
        with_row(v, n as int, hash).len() == v.len() + 1,
        with_row(v, n as int, hash).last().0 == n,
        with_row(v, n as int, hash).last().1 == hash as i64,
        with_row(v, n as int, hash).last().2 is None,
        0 <= k < v.len() ==> with_row(v, n as int, hash)[k] == v[k],
{
}

/// The last row gets the move that was made from it, down to one move beyond the depth; what
/// it says of the position stays, and so do the other rows.
pub proof fn law_last_row_gets_the_move(
    v: Seq<EntryView>,
    n: int,
    depth: int,
    san: Seq<char>,
    k: int,
)
    requires
        v.len() > 0,
    ensures
        with_next(v, n, depth, san).len() == v.len(),
        with_next(v, n, depth, san).last().0 == v.last().0,
        with_next(v, n, depth, san).last().1 == v.last().1,
        n <= depth + 1 ==> with_next(v, n, depth, san).last().2 == Some(san),
        n > depth + 1 ==> with_next(v, n, depth, san) == v,
        0 <= k < v.len() - 1 ==> with_next(v, n, depth, san)[k] == v[k],
{
}

/// Two positions are stored as one only if their hashes are one.
pub proof fn law_hashes_stay_apart(a: u64, b: u64)
    ensures
        stored_hash(a) == stored_hash(b) ==> a == b,
{
    assert(a as i64 == b as i64 ==> a == b) by (bit_vector);
}

} // verus!
