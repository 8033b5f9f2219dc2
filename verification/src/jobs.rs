//! Jobs: what kinds there are, what a job's state is and how events change it, the
//! offline gate, the first-run marker and the safety copy.
use crate::paths;
use crate::reporter;
use crate::reporter::{clone_opt, JobEvent};
use crate::text;
use crate::text::{chars_of, decimal, parse_u32, parse_u64, same, split_words, to_lower};
use vstd::prelude::*;
use vstd::string::*;

verus! {

// ── Kinds of job ─────────────────────────────────────────────────────────────

/// Jobs whose loop can stop part-way on a committed boundary.
pub open spec fn stops_midway(t: Seq<char>) -> bool {
    ||| t == "import"@
    ||| t == "import_pgn"@
    ||| t == "sources_sync"@
    ||| t == "update"@
    ||| t == "download"@
    ||| t == "index_positions"@
    ||| t == "dedup_games"@
    ||| t == "dedup_players"@
}

/// Jobs that make network requests.
pub open spec fn uses_network(t: Seq<char>) -> bool {
    t == "download"@ || t == "sources_sync"@ || t == "update"@ || t == "fide_refresh"@
}

/// Jobs that only read the database.
pub open spec fn reads_only(t: Seq<char>) -> bool {
    t == "backup"@ || t == "players_export"@ || t == "resolve_export"@
}

/// Jobs that must be through before a maintenance pass starts: those that bring games
/// in, and those of a maintenance pass itself.
pub open spec fn holds_maintenance(t: Seq<char>) -> bool {
    ||| t == "import"@
    ||| t == "import_pgn"@
    ||| t == "sources_sync"@
    ||| t == "download"@
    ||| t == "update"@
    ||| t == "fide_refresh"@
    ||| t == "resolve_fide"@
    ||| t == "dedup_players"@
    ||| t == "dedup_games"@
    ||| t == "index_positions"@
    ||| t == "normalise"@
}

/// Jobs that write through the appender, which is not safe against a crash.
pub open spec fn appends(t: Seq<char>, fast: bool) -> bool {
    ||| (t == "import"@ || t == "import_pgn"@ || t == "index_positions"@) && fast
    ||| t == "update"@
    ||| t == "fide_refresh"@
}

/// Whether a running job of this type honours a request to stop.
pub fn is_cancellable(job_type: &str) -> (b: bool)
    ensures
        b == stops_midway(job_type@),
{
    same(job_type, "import") || same(job_type, "import_pgn") || same(job_type, "sources_sync")
        || same(job_type, "update") || same(job_type, "download") || same(
        job_type,
        "index_positions",
    ) || same(job_type, "dedup_games") || same(job_type, "dedup_players")
}

/// Whether a job of this type makes network requests, so that a lost connection pauses
/// it instead of failing it.
pub fn job_uses_network(job_type: &str) -> (b: bool)
    ensures
        b == uses_network(job_type@),
{
    same(job_type, "download") || same(job_type, "sources_sync") || same(job_type, "update")
        || same(job_type, "fide_refresh")
}

/// Whether a maintenance pass has to wait for jobs of this type.
pub fn blocks_maintenance(job_type: &str) -> (b: bool)
    ensures
        b == holds_maintenance(job_type@),
{
    same(job_type, "import") || same(job_type, "import_pgn") || same(job_type, "sources_sync")
        || same(job_type, "download") || same(job_type, "update") || same(job_type, "fide_refresh")
        || same(job_type, "resolve_fide") || same(job_type, "dedup_players") || same(
        job_type,
        "dedup_games",
    ) || same(job_type, "index_positions") || same(job_type, "normalise")
}

/// Whether a job of this type only reads, so that it need not wait for a long write.
pub fn is_read_only(job_type: &str) -> (b: bool)
    ensures
        b == reads_only(job_type@),
{
    same(job_type, "backup") || same(job_type, "players_export") || same(
        job_type,
        "resolve_export",
    )
}

/// Whether a job writes through the appender: killing it mid-write can corrupt the
/// database, where any other job rolls back.
pub fn uses_appender(job_type: &str, fast: bool) -> (b: bool)
    ensures
        b == appends(job_type@, fast),
{
    ((same(job_type, "import") || same(job_type, "import_pgn") || same(job_type, "index_positions"))
        && fast) || same(job_type, "update") || same(job_type, "fide_refresh")
}

/// Whether an error in small letters tells that the database was invalidated.
pub fn tells_invalidation(low: &str) -> (b: bool)
    ensures
        b == text::contains(low@, "invalidated"@),
{
    text::has(&chars_of(low), &chars_of("invalidated"))
}

/// Whether a job error means that the whole database instance is dead until its
/// connections are reopened.
pub fn is_invalidation_error(msg: &str) -> (b: bool)
    ensures
        b == text::contains(text::lowercase(msg@), "invalidated"@),
        text::is_ascii_text(msg@) ==> b == text::contains(
            text::ascii_lowercase(msg@),
            "invalidated"@,
        ),
{
    let low: String = to_lower(msg);
    tells_invalidation(low.as_str())
}

// ── The offline gate ─────────────────────────────────────────────────────────

/// How long a network job pauses before it is tried again: a quarter of an hour.
pub const OFFLINE_RETRY_MS: u64 = 900_000;

/// A stuck job blocks another that came later, if the two are of one cluster or both
/// use the network.
pub open spec fn blocks(
    seq: u64,
    cluster: Seq<char>,
    net: bool,
    job_seq: u64,
    job_cluster: Seq<char>,
    job_net: bool,
) -> bool {
    seq < job_seq && (cluster == job_cluster || (job_net && net))
}

/// Whether any of the stuck jobs, each given as when it came, its cluster and whether it
/// uses the network, blocks a job.
pub fn offline_gate_blocks(
    job_seq: u64,
    job_cluster: &str,
    job_net: bool,
    stuck: &[(u64, &str, bool)],
) -> (b: bool)
    ensures
        b == exists|i: int|
            0 <= i < stuck.len() && blocks(
                (#[trigger] stuck@[i]).0,
                stuck@[i].1@,
                stuck@[i].2,
                job_seq,
                job_cluster@,
                job_net,
            ),
{
    let mut i: usize = 0;
    while i < stuck.len()
        invariant
            i <= stuck.len(),
            forall|k: int|
                0 <= k < i ==> !blocks(
                    (#[trigger] stuck@[k]).0,
                    stuck@[k].1@,
                    stuck@[k].2,
                    job_seq,
                    job_cluster@,
                    job_net,
                ),
        decreases stuck.len() - i,
    {
        let (seq, cluster, net) = stuck[i];
        if seq < job_seq && (same(cluster, job_cluster) || (job_net && net)) {
            return true;
        }
        i += 1;
    }
    false
}

/// A job never blocks itself, nor one that came before it.
pub proof fn law_gate_blocks_only_later_jobs(
    seq: u64,
    cluster: Seq<char>,
    net: bool,
    job_seq: u64,
    job_cluster: Seq<char>,
    job_net: bool,
)
    requires
        job_seq <= seq,
    ensures
        !blocks(seq, cluster, net, job_seq, job_cluster, job_net),
{
}

/// Of two different network jobs one blocks the other, so that no two of them ever
/// run past each other while one is stuck.
pub proof fn law_network_jobs_go_one_by_one(a: u64, ca: Seq<char>, b: u64, cb: Seq<char>)
    requires
        a != b,
    ensures
        blocks(a, ca, true, b, cb, true) || blocks(b, cb, true, a, ca, true),
{
}

// ── A job's state ────────────────────────────────────────────────────────────

#[derive(Clone, Copy, PartialEq, Eq, Structural, Debug)]
pub enum JobStatus {
    Queued,
    Running,
    /// Paused: the machine is offline.
    Waiting,
    Done,
    Error,
    Cancelled,
}

pub open spec fn status_text(s: JobStatus) -> Seq<char> {
    match s {
        JobStatus::Queued => "queued"@,
        JobStatus::Running => "running"@,
        JobStatus::Waiting => "waiting"@,
        JobStatus::Done => "done"@,
        JobStatus::Error => "error"@,
        JobStatus::Cancelled => "cancelled"@,
    }
}

impl JobStatus {
    /// The status as clients see it.
    pub fn name(&self) -> (s: String)
        ensures
            s@ == status_text(*self),
    {
        match self {
            JobStatus::Queued => "queued".to_owned(),
            JobStatus::Running => "running".to_owned(),
            JobStatus::Waiting => "waiting".to_owned(),
            JobStatus::Done => "done".to_owned(),
            JobStatus::Error => "error".to_owned(),
            JobStatus::Cancelled => "cancelled".to_owned(),
        }
    }

    /// Whether a job in this state still has something to do.
    pub fn in_flight(&self) -> (b: bool)
        ensures
            b == is_in_flight(*self),
    {
        match self {
            JobStatus::Queued | JobStatus::Running | JobStatus::Waiting => true,
            _ => false,
        }
    }
}

pub open spec fn is_in_flight(s: JobStatus) -> bool {
    s is Queued || s is Running || s is Waiting
}

#[derive(Debug)]
pub struct JobState {
    pub status: JobStatus,
    pub value: u64,
    pub total: u64,
    pub message: String,
    pub path: Option<String>,
    pub error: Option<String>,
    /// When the job last started to run, and when it ended, in milliseconds since the
    /// epoch.
    pub started_at: Option<u64>,
    pub ended_at: Option<u64>,
    /// When the next automatic retry comes, while the job waits for a connection.
    pub retry_at: Option<u64>,
}

impl JobState {
    /// The state of a job that has just been submitted.
    pub fn queued() -> (s: JobState)
        ensures
            is_fresh(s),
    {
        JobState {
            status: JobStatus::Queued,
            value: 0,
            total: 0,
            message: String::new(),
            path: None,
            error: None,
            started_at: None,
            ended_at: None,
            retry_at: None,
        }
    }
}

pub open spec fn is_fresh(s: JobState) -> bool {
    &&& s.status is Queued
    &&& s.value == 0
    &&& s.total == 0
    &&& s.message@.len() == 0
    &&& s.path is None
    &&& s.error is None
    &&& s.started_at is None
    &&& s.ended_at is None
    &&& s.retry_at is None
}

/// What an event makes of a job's state `a`, at the time `now`.
pub open spec fn after_event(a: JobState, ev: JobEvent, now: u64, b: JobState) -> bool {
    let kind = ev.kind@;
    &&& b.value == (match ev.value {
        Some(v) => v,
        None => a.value,
    })
    &&& b.total == (match ev.total {
        Some(t) => t,
        None => a.total,
    })
    &&& b.message@ == (if ev.message@.len() > 0 {
        ev.message@
    } else {
        a.message@
    })
    &&& b.retry_at == a.retry_at
    &&& if kind == "done"@ {
        &&& b.status is Done
        &&& b.ended_at == Some(now)
        &&& b.path == (if ev.path is Some {
            ev.path
        } else {
            a.path
        })
        &&& b.error == a.error
        &&& b.started_at == a.started_at
    } else if kind == "error"@ {
        &&& b.status is Error
        &&& b.ended_at == Some(now)
        &&& b.path == a.path
        &&& b.error is Some && b.error->0@ == ev.message@
        &&& b.started_at == a.started_at
    } else if kind == "cancelled"@ {
        &&& b.status is Cancelled
        &&& b.ended_at == Some(now)
        &&& b.path == a.path
        &&& b.error == a.error
        &&& b.started_at == a.started_at
    } else if kind == "waiting"@ {
        &&& b.status is Waiting
        &&& b.ended_at == a.ended_at
        &&& b.path == a.path
        &&& b.error == a.error
        &&& b.started_at == a.started_at
    } else {
        &&& b.status == (if a.status is Queued {
            JobStatus::Running
        } else {
            a.status
        })
        &&& b.ended_at == a.ended_at
        &&& b.path == a.path
        &&& b.error == a.error
        &&& b.started_at == (if a.started_at is None {
            Some(now)
        } else {
            a.started_at
        })
    }
}

/// Brings an event into a job's state: its numbers and message, and the status that
/// its kind stands for. A pause is not an end.
pub fn apply_event(s: &mut JobState, ev: &JobEvent, now: u64)
    ensures
        after_event(*old(s), *ev, now, *final(s)),
{
    if let Some(v) = ev.value {
        s.value = v;
    }
    if let Some(t) = ev.total {
        s.total = t;
    }
    if !ev.message.as_str().is_empty() {
        s.message = ev.message.clone();
    }
    if same(ev.kind.as_str(), "done") {
        s.status = JobStatus::Done;
        s.ended_at = Some(now);
        if ev.path.is_some() {
            s.path = clone_opt(&ev.path);
        }
    } else if same(ev.kind.as_str(), "error") {
        s.status = JobStatus::Error;
        s.ended_at = Some(now);
        s.error = Some(ev.message.clone());
    } else if same(ev.kind.as_str(), "cancelled") {
        s.status = JobStatus::Cancelled;
        s.ended_at = Some(now);
    } else if same(ev.kind.as_str(), "waiting") {
        s.status = JobStatus::Waiting;
    } else {
        if s.status == JobStatus::Queued {
            s.status = JobStatus::Running;
        }
        if s.started_at.is_none() {
            s.started_at = Some(now);
        }
    }
}

/// How many events of a job are kept for a client that joins late.
pub const EVENT_BUFFER_CAP: usize = 512;

/// The buffered events once one more has come: the oldest goes when there is no room.
pub open spec fn buffered(events: Seq<JobEvent>, ev: JobEvent) -> Seq<JobEvent> {
    if events.len() >= EVENT_BUFFER_CAP {
        events.skip(1).push(ev)
    } else {
        events.push(ev)
    }
}

/// Keeps an event for clients that join late.
pub fn buffer_event(events: &mut Vec<JobEvent>, ev: JobEvent)
    ensures
        final(events)@ == buffered(old(events)@, ev),
{
    if events.len() >= EVENT_BUFFER_CAP {
        events.remove(0);
        assert(events@ =~= old(events)@.skip(1));
    }
    events.push(ev);
}

/// The buffer never outgrows its bound, and the newest event is in it.
pub proof fn law_event_buffer_is_bounded(events: Seq<JobEvent>, ev: JobEvent)
    requires
        events.len() <= EVENT_BUFFER_CAP,
    ensures
        buffered(events, ev).len() <= EVENT_BUFFER_CAP,
        buffered(events, ev).last() == ev,
{
}

/// A paused job has not ended.
pub proof fn law_waiting_is_not_an_end(a: JobState, ev: JobEvent, now: u64, b: JobState)
    requires
        ev.kind@ == "waiting"@,
        after_event(a, ev, now, b),
    ensures
        is_in_flight(b.status),
        b.ended_at == a.ended_at,
{
    reveal_strlit("waiting");
    reveal_strlit("done");
    reveal_strlit("error");
    reveal_strlit("cancelled");
    assert("waiting"@.len() == 7);
    assert("done"@.len() == 4);
    assert("error"@.len() == 5);
    assert("cancelled"@.len() == 9);
}

// ── The first-run marker ─────────────────────────────────────────────────────

/// The marker's text: how often the load was resumed, and how many issues it has in.
pub open spec fn sentinel_text(attempts: u32, imported: u64) -> Seq<char> {
    text::dec(attempts as nat) + " "@ + text::dec(imported as nat)
}

/// The marker for a load, as the path to write and the text to write there.
pub fn set_setup_sentinel(db: &str, attempts: u32, imported: u64) -> (r: (String, String))
    ensures
        r.0@ == db@ + ".setup-in-progress"@,
        r.1@ == sentinel_text(attempts, imported),
{
    let mut out: String = decimal(attempts as u64);
    out.append(" ");
    let n: String = decimal(imported);
    out.append(n.as_str());
    (paths::setup_sentinel_path(db), out)
}

/// The marker for a load that has just begun.
pub fn write_setup_sentinel(db: &str) -> (r: (String, String))
    ensures
        r.0@ == db@ + ".setup-in-progress"@,
        r.1@ == sentinel_text(0, 0),
{
    set_setup_sentinel(db, 0, 0)
}

/// The numbers in a marker's text: its first two words, each 0 where it is missing or
/// no number. No marker is `(0, 0)`.
pub open spec fn sentinel_numbers(content: Option<Seq<char>>) -> (u32, u64) {
    match content {
        None => (0, 0),
        Some(s) => {
            let ws = text::words(s);
            (
                (if ws.len() >= 1 {
                    match text::parse_nat(ws[0], u32::MAX as nat) {
                        Some(n) => n as u32,
                        None => 0,
                    }
                } else {
                    0
                }),
                (if ws.len() >= 2 {
                    match text::parse_nat(ws[1], u64::MAX as nat) {
                        Some(n) => n as u64,
                        None => 0,
                    }
                } else {
                    0
                }),
            )
        },
    }
}

/// Reads a marker's text: `(times resumed, issues imported)`.
pub fn read_setup_sentinel(content: Option<&str>) -> (r: (u32, u64))
    ensures
        r == sentinel_numbers(
            match content {
                Some(s) => Some(s@),
                None => None,
            },
        ),
{
    match content {
        None => (0, 0),
        Some(s) => {
            let ws: Vec<String> = split_words(&chars_of(s));
            let ghost words = text::words(s@);
            assert(ws.len() == words.len()) by {
                assert(text::texts(ws@).len() == ws@.len());
            }
            let attempts: u32 = if ws.len() >= 1 {
                assert(words[0] == ws@[0]@);
                match parse_u32(&chars_of(ws[0].as_str())) {
                    Some(n) => n,
                    None => 0,
                }
            } else {
                0
            };
            let imported: u64 = if ws.len() >= 2 {
                assert(words[1] == ws@[1]@);
                match parse_u64(&chars_of(ws[1].as_str())) {
                    Some(n) => n,
                    None => 0,
                }
            } else {
                0
            };
            (attempts, imported)
        },
    }
}

/// What was written to the marker is what is read from it.
pub proof fn law_sentinel_reads_back(attempts: u32, imported: u64)
    ensures
        sentinel_numbers(Some(sentinel_text(attempts, imported))) == (attempts, imported),
{
    let a = text::dec(attempts as nat);
    let b = text::dec(imported as nat);
    text::law_two_decimals_are_two_words(attempts as nat, imported as nat);
    text::law_decimal_reads_back(attempts as nat, u32::MAX as nat);
    text::law_decimal_reads_back(imported as nat, u64::MAX as nat);
}

/// Where the marker is that is to be removed.
pub fn remove_setup_sentinel(db: &str) -> (path: String)
    ensures
        path@ == db@ + ".setup-in-progress"@,
{
    paths::setup_sentinel_path(db)
}

/// Whether a load is marked, by what its marker's file holds, if it is there.
pub fn setup_sentinel_present(content: Option<&str>) -> (b: bool)
    ensures
        b == (content is Some),
{
    content.is_some()
}

/// A change to the marker of a load.
pub enum Marking {
    /// The load has just begun.
    Write,
    /// So often resumed, with so many issues in.
    Numbers { attempts: u32, imported: u64 },
    Remove,
}

/// Files, by path, after a change to the marker of a database.
pub open spec fn marked(
    files: Map<Seq<char>, Seq<char>>,
    db: Seq<char>,
    m: Marking,
) -> Map<Seq<char>, Seq<char>> {
    let path = db + ".setup-in-progress"@;
    match m {
        Marking::Write => files.insert(path, sentinel_text(0, 0)),
        Marking::Numbers { attempts, imported } => files.insert(path, sentinel_text(attempts, imported)),
        Marking::Remove => files.remove(path),
    }
}

/// What the marker's file of a database holds, if it is there.
pub open spec fn marker_in(files: Map<Seq<char>, Seq<char>>, db: Seq<char>) -> Option<Seq<char>> {
    let path = db + ".setup-in-progress"@;
    if files.contains_key(path) {
        Some(files[path])
    } else {
        None
    }
}

/// A load is marked as the last change says, whatever came before, and the marker gives back
/// the numbers that were last written; there are none to give back once it is removed.
pub proof fn law_last_marking_counts(files: Map<Seq<char>, Seq<char>>, db: Seq<char>, m: Marking)
    ensures
        marker_in(marked(files, db, m), db) is Some <==> !(m is Remove),
        sentinel_numbers(marker_in(marked(files, db, m), db)) == (match m {
            Marking::Numbers { attempts, imported } => (attempts, imported),
            _ => (0u32, 0u64),
        }),
        sentinel_numbers(marker_in(Map::empty(), db)) == (0u32, 0u64),
        marker_in(Map::empty(), db) is None,
{
    match m {
        Marking::Numbers { attempts, imported } => {
            law_sentinel_reads_back(attempts, imported);
        },
        Marking::Write => {
            law_sentinel_reads_back(0, 0);
        },
        Marking::Remove => {},
    }
}

/// A load is disposable, so that no safety copy is owed, only while its marker stands
/// and the database is still empty.
pub fn setup_load_is_disposable(sentinel_present: bool, has_games: bool) -> (b: bool)
    ensures
        b == (sentinel_present && !has_games),
{
    sentinel_present && !has_games
}

// ── The safety copy ──────────────────────────────────────────────────────────

/// From how many pending games on a fast index takes a safety copy first.
pub const FAST_INDEX_SNAPSHOT_THRESHOLD: i64 = 200_000;

/// Whether an import takes a safety copy first: only a bulk one, and not into a
/// disposable database.
pub fn import_wants_snapshot(bulk: bool, sentinel_present: bool, has_games: bool) -> (b: bool)
    ensures
        b == (bulk && !(sentinel_present && !has_games)),
{
    bulk && !setup_load_is_disposable(sentinel_present, has_games)
}

/// Whether a position index takes a safety copy first: only a fast one, that rebuilds
/// or has many games to do, and not on a disposable database.
pub fn index_wants_snapshot(
    fast: bool,
    rebuild: bool,
    pending: i64,
    sentinel_present: bool,
    has_games: bool,
) -> (b: bool)
    ensures
        b == (fast && (rebuild || pending >= 200_000) && !(sentinel_present && !has_games)),
{
    fast && (rebuild || pending >= FAST_INDEX_SNAPSHOT_THRESHOLD) && !setup_load_is_disposable(
        sentinel_present,
        has_games,
    )
}

/// What becomes of the safety copy once the operation is over.
#[derive(Clone, Copy, PartialEq, Eq, Structural, Debug)]
pub enum SnapshotFate {
    /// There was none.
    Absent,
    Removed,
    /// It stays, to be restored over the database.
    Kept,
}

/// What becomes of the safety copy, and the line to log about it.
pub open spec fn import_snapshot_end(snapshotted: bool, error: Option<Seq<char>>) -> (
    SnapshotFate,
    Option<Seq<char>>,
) {
    if !snapshotted {
        (SnapshotFate::Absent, None)
    } else {
        match error {
            None => (SnapshotFate::Removed, Some("Safety snapshot removed."@)),
            Some(e) => if text::contains(text::lowercase(e), "invalidated"@) {
                (
                    SnapshotFate::Kept,
                    Some(
                        "Import failed fatally — the safety snapshot will be restored, rolling back this import."@,
                    ),
                )
            } else {
                (SnapshotFate::Removed, None)
            },
        }
    }
}

/// Decides, after a guarded import, about the safety copy: it goes after success and
/// after an ordinary failure, and stays after one that killed the database instance, so
/// that reopening rolls the import back.
pub fn finish_import(snapshotted: bool, error: Option<&str>) -> (r: (SnapshotFate, Option<String>))
    ensures
        (r.0, reporter::opt_text(r.1)) == import_snapshot_end(
            snapshotted,
            match error {
                Some(e) => Some(e@),
                None => None,
            },
        ),
{
    if !snapshotted {
        return (SnapshotFate::Absent, None);
    }
    match error {
        None => (SnapshotFate::Removed, Some("Safety snapshot removed.".to_owned())),
        Some(e) => if is_invalidation_error(e) {
            (
                SnapshotFate::Kept,
                Some(
                    "Import failed fatally — the safety snapshot will be restored, rolling back this import.".to_owned(),
                ),
            )
        } else {
            (SnapshotFate::Removed, None)
        },
    }
}

/// Decides, after a guarded index, about the safety copy: it goes after success and
/// stays after any failure, to be restored on the next start.
pub fn finish_index(snapshotted: bool, ok: bool) -> (r: (SnapshotFate, Option<String>))
    ensures
        !snapshotted ==> r.0 is Absent && r.1 is None,
        snapshotted && ok ==> r.0 is Removed && r.1 is Some && r.1->0@
            == "Safety snapshot removed."@,
        snapshotted && !ok ==> r.0 is Kept && r.1 is Some && r.1->0@
            == "Indexing did not complete — the safety snapshot will be restored on next start."@,
{
    if !snapshotted {
        (SnapshotFate::Absent, None)
    } else if ok {
        (SnapshotFate::Removed, Some("Safety snapshot removed.".to_owned()))
    } else {
        (
            SnapshotFate::Kept,
            Some(
                "Indexing did not complete — the safety snapshot will be restored on next start.".to_owned(),
            ),
        )
    }
}

// ── Laws of job types ────────────────────────────────────────────────────────

/// Which jobs can stop midway, use the network, only read, or append.
pub proof fn law_kinds_of_jobs(t: Seq<char>, fast: bool)
    ensures
        uses_network(t) <==> t == "download"@ || t == "sources_sync"@ || t == "update"@ || t
            == "fide_refresh"@,
        reads_only(t) <==> t == "backup"@ || t == "players_export"@ || t == "resolve_export"@,
        stops_midway(t) <==> t == "import"@ || t == "import_pgn"@ || t == "sources_sync"@ || t
            == "update"@ || t == "download"@ || t == "index_positions"@ || t == "dedup_games"@ || t
            == "dedup_players"@,
        appends(t, true) <==> t == "import"@ || t == "import_pgn"@ || t == "index_positions"@ || t
            == "update"@ || t == "fide_refresh"@,
        appends(t, false) <==> t == "update"@ || t == "fide_refresh"@,
{
}

/// A maintenance pass waits for every job that uses the network, that can stop midway, or
/// that appends; and a job that appends slowly appends fast too.
pub proof fn law_maintenance_waits_for_writers(t: Seq<char>, fast: bool)
    ensures
        uses_network(t) ==> holds_maintenance(t),
        stops_midway(t) ==> holds_maintenance(t),
        appends(t, fast) ==> holds_maintenance(t),
        appends(t, false) ==> appends(t, true),
        t == "resolve_fide"@ || t == "normalise"@ ==> holds_maintenance(t),
{
}

/// A job in flight is queued, runs or waits; one that is done, failed or cancelled is not.
pub proof fn law_jobs_in_flight()
    ensures
        is_in_flight(JobStatus::Queued) && is_in_flight(JobStatus::Running) && is_in_flight(
            JobStatus::Waiting,
        ),
        !is_in_flight(JobStatus::Done) && !is_in_flight(JobStatus::Error) && !is_in_flight(
            JobStatus::Cancelled,
        ),
{
}

/// The names of the states.
pub proof fn law_states_have_names()
    ensures
        status_text(JobStatus::Queued) == "queued"@,
        status_text(JobStatus::Running) == "running"@,
        status_text(JobStatus::Waiting) == "waiting"@,
        status_text(JobStatus::Done) == "done"@,
        status_text(JobStatus::Error) == "error"@,
        status_text(JobStatus::Cancelled) == "cancelled"@,
{
}

/// An event ends a job only if it says so, and then the time of the end is noted; an error is
/// kept with its message; and what an event does not say stays as it was.
pub proof fn law_events_change_what_they_say(a: JobState, ev: JobEvent, now: u64, b: JobState)
    requires
        after_event(a, ev, now, b),
    ensures
        ev.kind@ == "done"@ ==> b.status is Done && b.ended_at == Some(now),
        ev.kind@ == "error"@ ==> b.status is Error && b.ended_at == Some(now) && b.error is Some
            && b.error->0@ == ev.message@,
        ev.kind@ == "cancelled"@ ==> b.status is Cancelled && b.ended_at == Some(now),
        ev.kind@ != "done"@ && ev.kind@ != "error"@ && ev.kind@ != "cancelled"@ ==> b.ended_at
            == a.ended_at && b.error == a.error && b.path == a.path,
        ev.kind@ != "error"@ ==> b.error == a.error,
        ev.kind@ != "done"@ ==> b.path == a.path,
        ev.kind@ == "done"@ && ev.path is Some ==> b.path == ev.path,
        ev.value is None ==> b.value == a.value,
        ev.value is Some ==> b.value == ev.value->0,
        ev.total is None ==> b.total == a.total,
        ev.total is Some ==> b.total == ev.total->0,
        ev.message@.len() == 0 ==> b.message@ == a.message@,
        ev.message@.len() > 0 ==> b.message@ == ev.message@,
        a.started_at is Some ==> b.started_at == a.started_at,
        ev.kind@ == "progress"@ && a.status is Queued ==> b.status is Running && (a.started_at
            is None ==> b.started_at == Some(now)),
{
    reveal_strlit("progress");
    reveal_strlit("done");
    reveal_strlit("error");
    reveal_strlit("cancelled");
    reveal_strlit("waiting");
    assert("progress"@.len() == 8 && "done"@.len() == 4 && "error"@.len() == 5);
    assert("cancelled"@.len() == 9 && "waiting"@.len() == 7);
}

/// The newest event is at the end, and the ones before it keep their order.
pub proof fn law_newest_event_is_last(events: Seq<JobEvent>, ev: JobEvent, k: int)
    ensures
        buffered(events, ev).last() == ev,
        events.len() < EVENT_BUFFER_CAP ==> buffered(events, ev).len() == events.len() + 1 && (0 <= k
            < events.len() ==> buffered(events, ev)[k] == events[k]),
        events.len() >= EVENT_BUFFER_CAP ==> buffered(events, ev).len() == events.len() && (0 <= k
            < events.len() - 1 ==> buffered(events, ev)[k] == events[k + 1]),
{
}

/// The safety copy goes with the import that it was made for, unless the database was lost in
/// it: then it stays, to be restored.
pub proof fn law_safety_copies(error: Seq<char>)
    ensures
        import_snapshot_end(false, None).0 is Absent,
        import_snapshot_end(false, Some(error)).0 is Absent,
        import_snapshot_end(true, None).0 is Removed,
        text::contains(text::lowercase(error), "invalidated"@) ==> import_snapshot_end(
            true,
            Some(error),
        ).0 is Kept,
        !text::contains(text::lowercase(error), "invalidated"@) ==> import_snapshot_end(
            true,
            Some(error),
        ).0 is Removed,
{
}

/// A fresh job has not begun, and has nothing to say.
pub proof fn law_fresh_jobs_have_not_begun(s: JobState)
    requires
        is_fresh(s),
    ensures
        is_in_flight(s.status),
        s.started_at is None && s.ended_at is None && s.error is None && s.path is None,
        s.value == 0 && s.total == 0,
{
}

} // verus!
