//! Building the index of positions from the games that are stored.
use crate::importer::{INDEX_READ_BATCH, INDEX_REPORT_CHUNK};
use crate::reporter::Report;
use crate::text;
use crate::text::{append_num, signed_decimal};
use vstd::prelude::*;
use vstd::string::*;

verus! {

/// How an index run begins.
#[derive(Clone, Copy, PartialEq, Eq, Structural, Debug)]
pub enum IndexStart {
    /// No depth: the positions go, and nothing else is done.
    Clear,
    /// The positions go, and all games are done again.
    Rebuild,
    /// Only games without positions are done.
    Extend,
}

/// Decides how an index run begins.
pub fn index_start(depth: Option<i16>, rebuild: bool) -> (s: IndexStart)
    ensures
        s == (if depth is None {
            IndexStart::Clear
        } else if rebuild {
            IndexStart::Rebuild
        } else {
            IndexStart::Extend
        }),
{
    if depth.is_none() {
        IndexStart::Clear
    } else if rebuild {
        IndexStart::Rebuild
    } else {
        IndexStart::Extend
    }
}

/// What is told at such a beginning; the length of the work is not known.
pub fn start_report(s: IndexStart) -> (r: Option<Report>)
    ensures
        match s {
            IndexStart::Extend => r is None,
            _ => r matches Some(Report::Progress { current, total, message }) && current == 0
                && total == 0 && message@ == (if s == IndexStart::Clear {
                "Clearing positions table…"@
            } else {
                "Rebuilding positions table from scratch…"@
            }),
        },
{
    match s {
        IndexStart::Clear => Some(
            Report::Progress {
                current: 0,
                total: 0,
                message: "Clearing positions table…".to_owned(),
            },
        ),
        IndexStart::Rebuild => Some(
            Report::Progress {
                current: 0,
                total: 0,
                message: "Rebuilding positions table from scratch…".to_owned(),
            },
        ),
        IndexStart::Extend => None,
    }
}

/// What is told when the positions are gone and nothing else is done.
pub const CLEARED: &'static str = "Positions table cleared.";

/// What is told once the games are counted: that there are none to do, which is the end, or
/// how many there are.
pub fn pending_report(pending: u64, depth: i16) -> (r: Report)
    ensures
        if pending == 0 {
            r matches Report::Done { message } && message@
                == "All games are already indexed. Use --rebuild to reprocess with a different depth."@
        } else {
            r matches Report::Log { message } && message@ == "Indexing positions for "@ + text::dec(
                pending as nat,
            ) + " game(s) (depth: "@ + text::signed_dec(depth as int) + " half-moves)..."@
        },
{
    if pending == 0 {
        return Report::Done {
            message:
                "All games are already indexed. Use --rebuild to reprocess with a different depth.".to_owned(),
        };
    }
    let mut m: String = "Indexing positions for ".to_owned();
    append_num(&mut m, pending);
    m.append(" game(s) (depth: ");
    let d: String = signed_decimal(depth as i64);
    m.append(d.as_str());
    m.append(" half-moves)...");
    Report::Log { message: m }
}

/// A run over the games, in the order of their numbers: they are read in large batches, and
/// done in small ones.
pub struct IndexRun {
    pub total: u64,
    pub done: u64,
    /// The highest number that was read.
    pub last_id: u32,
}

/// The small batches of a large one: from their first place to before their second.
pub open spec fn chunks(len: int, size: int) -> Seq<(usize, usize)>
    recommends
        size > 0,
{
    Seq::new(
        ((len + size - 1) / size) as nat,
        |i: int|
            (
                (i * size) as usize,
                (if (i + 1) * size < len {
                    (i + 1) * size
                } else {
                    len
                }) as usize,
            ),
    )
}

fn split_chunks(len: usize) -> (v: Vec<(usize, usize)>)
    requires
        len <= INDEX_READ_BATCH,
    ensures
        v@ == chunks(len as int, INDEX_REPORT_CHUNK as int),
{
    let mut v: Vec<(usize, usize)> = Vec::new();
    let mut lo: usize = 0;
    while lo < len
        invariant
            len <= INDEX_READ_BATCH,
            lo == v@.len() * INDEX_REPORT_CHUNK,
            lo <= len + INDEX_REPORT_CHUNK,
            v@.len() == 0 || (v@.len() - 1) * INDEX_REPORT_CHUNK < len,
            forall|k: int|
                0 <= k < v@.len() ==> (#[trigger] v@[k]) == (
                    (k * INDEX_REPORT_CHUNK) as usize,
                    (if (k + 1) * INDEX_REPORT_CHUNK < len {
                        (k + 1) * INDEX_REPORT_CHUNK
                    } else {
                        len as int
                    }) as usize,
                ),
        decreases len + INDEX_REPORT_CHUNK - lo,
    {
        let hi: usize = if lo + INDEX_REPORT_CHUNK < len {
            lo + INDEX_REPORT_CHUNK
        } else {
            len
        };
        v.push((lo, hi));
        lo += INDEX_REPORT_CHUNK;
    }
    assert(v@ =~= chunks(len as int, INDEX_REPORT_CHUNK as int));
    v
}

/// The small batches hold all games of the large one, each once: every place lies in one.
pub proof fn law_chunks_cover(len: int, size: int, at: int) -> (k: int)
    requires
        0 <= at < len <= usize::MAX,
        0 < size,
    ensures
        0 <= k < chunks(len, size).len(),
        chunks(len, size)[k].0 <= at < chunks(len, size)[k].1,
        forall|j: int|
            0 <= j < chunks(len, size).len() && j != k ==> !((#[trigger] chunks(len, size)[j]).0
                <= at < chunks(len, size)[j].1),
{
    let k = at / size;
    let n = (len + size - 1) / size;
    assert(k * size <= at < (k + 1) * size && 0 <= k) by (nonlinear_arith)
        requires
            k == at / size,
            size > 0,
            at >= 0,
    ;
    assert(k < n) by (nonlinear_arith)
        requires
            k * size <= at,
            at < len,
            size > 0,
            n == (len + size - 1) / size,
    ;
    assert forall|j: int| 0 <= j < n && j != k implies !((#[trigger] chunks(len, size)[j]).0 <= at
        < chunks(len, size)[j].1) by {
        assert((n - 1) * size < len) by (nonlinear_arith)
            requires
                size > 0,
                n == (len + size - 1) / size,
        ;
        assert(0 <= j * size < len) by (nonlinear_arith)
            requires
                0 <= j < n,
                size > 0,
                (n - 1) * size < len,
        ;
        assert((j + 1) * size <= at || at < j * size) by (nonlinear_arith)
            requires
                j != k,
                k * size <= at < (k + 1) * size,
                size > 0,
        ;
    }
    k
}

/// What is done with a large batch.
pub enum BatchStep {
    /// These small batches are done.
    Work(Vec<(usize, usize)>),
    /// The run ends: there are no games left, or it was cancelled.
    Over,
}

impl IndexRun {
    pub fn new(total: u64) -> (r: Self)
        ensures
            r.total == total,
            r.done == 0,
            r.last_id == 0,
    {
        IndexRun { total, done: 0, last_id: 0 }
    }

    /// Takes the next large batch, given by the numbers of its games. The next one begins
    /// behind its last.
    pub fn take(&mut self, ids: &[u32], cancelled: bool) -> (s: BatchStep)
        requires
            ids.len() <= INDEX_READ_BATCH,
        ensures
            final(self).total == old(self).total,
            final(self).done == old(self).done,
            match s {
                BatchStep::Work(v) => ids.len() > 0 && !cancelled && final(self).last_id
                    == ids@.last() && v@ == chunks(ids.len() as int, INDEX_REPORT_CHUNK as int),
                BatchStep::Over => (ids.len() == 0 || cancelled) && final(self).last_id
                    == old(self).last_id,
            },
    {
        if ids.len() == 0 || cancelled {
            return BatchStep::Over;
        }
        self.last_id = ids[ids.len() - 1];
        BatchStep::Work(split_chunks(ids.len()))
    }

    /// Notes that so many games are done, and says what is told.
    pub fn chunk_done(&mut self, count: usize) -> (r: Report)
        requires
            old(self).done + count <= u64::MAX,
        ensures
            final(self).total == old(self).total,
            final(self).last_id == old(self).last_id,
            final(self).done == old(self).done + count,
            r matches Report::Progress { current, total, message } && current == final(self).done
                && total == final(self).total && message@ == "Indexed "@ + text::dec(
                final(self).done as nat,
            ) + " / "@ + text::dec(final(self).total as nat) + " games"@,
    {
        self.done += count as u64;
        let mut m: String = "Indexed ".to_owned();
        append_num(&mut m, self.done);
        m.append(" / ");
        append_num(&mut m, self.total);
        m.append(" games");
        Report::Progress { current: self.done, total: self.total, message: m }
    }

    /// What is told when the run is over without an error.
    pub fn done(&self, cancelled: bool) -> (r: Report)
        ensures
            if cancelled {
                r matches Report::Cancelled { message } && message@
                    == "Position indexing cancelled — resumes on the next run."@
            } else {
                r matches Report::Done { message } && message@ == "Indexing complete. "@
                    + text::dec(self.total as nat) + " games indexed."@
            },
    {
        if cancelled {
            return Report::Cancelled {
                message: "Position indexing cancelled — resumes on the next run.".to_owned(),
            };
        }
        let mut m: String = "Indexing complete. ".to_owned();
        append_num(&mut m, self.total);
        m.append(" games indexed.");
        Report::Done { message: m }
    }
}

} // verus!
