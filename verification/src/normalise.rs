//! Normalising player names: renaming players to the names under which FIDE lists them.
//!
//! Most names come at once from a cache service; the rest are looked up one by one. The
//! look-ups themselves are made elsewhere: this module says which players are due, what
//! each answer means for the database, and when to pause or to give up.
use crate::names;
use crate::patterns;
use crate::reporter;
use crate::reporter::Report;
use crate::text;
use crate::text::{append_num, chars_of, parse_u64, same, trimmed};
use std::collections::HashMap;
use vstd::prelude::*;
use vstd::string::*;

verus! {

broadcast use vstd::std_specs::hash::group_hash_axioms;

/// The FIDE ratings site.
pub const RATINGS_BASE: &'static str = "https://ratings.fide.com";

/// The cache service: one request resolves many FIDE IDs.
pub const NORMALISE_SERVICE_URL: &'static str = "https://normalise.lpdo.com/normalise";

/// FIDE IDs per cache request: the service's own limit.
pub const SERVICE_CHUNK: usize = 20_000;

/// A player whose name has not been normalised yet.
#[derive(Debug)]
pub struct PendingPlayer {
    pub id: u32,
    pub fide_id: u32,
    pub name: String,
}

impl Clone for PendingPlayer {
    fn clone(&self) -> (r: Self)
        ensures
            r == *self,
    {
        PendingPlayer { id: self.id, fide_id: self.fide_id, name: self.name.clone() }
    }
}

/// What a look-up of one player came to.
#[derive(Debug)]
pub enum LookupResult {
    Found { id: u32, fide_id: u32, name: String, canonical: String },
    NotFound { id: u32, fide_id: u32, name: String },
    Error { id: u32, fide_id: u32, name: String, msg: String },
}

/// How a run is paced.
#[derive(Clone, Copy, Debug)]
pub struct NormaliseOptions {
    pub dry_run: bool,
    pub delay_ms: u64,
    pub batch_size: usize,
    pub batch_pause_ms: u64,
    pub workers: usize,
    /// So many errors in a row pause the run or end it; 0 for no such limit.
    pub error_threshold: usize,
    pub error_pause_ms: u64,
    /// End the run, rather than pause it, at the error threshold.
    pub stop_on_errors: bool,
}

/// A change to a player's row.
#[derive(Debug)]
pub enum PlayerUpdate {
    /// Take this name, with this form for searching, and count as normalised.
    Rename { id: u32, name: String, search_name: String },
    /// Count as normalised under the name as it is.
    MarkNormalised { id: u32 },
}

pub open spec fn is_rename(u: Option<PlayerUpdate>, id: u32, name: Seq<char>) -> bool {
    u matches Some(PlayerUpdate::Rename { id: i, name: n, search_name: s }) && i == id && n@ == name
        && s@ == names::normalized(name)
}

pub open spec fn is_mark(u: Option<PlayerUpdate>, id: u32) -> bool {
    u == Some(PlayerUpdate::MarkNormalised { id })
}

/// What a canonical name does to a player: whether the stored name differs from it, and
/// the change to write, which is none in a dry run.
pub fn apply_canonical(id: u32, current_name: &str, canonical: &str, dry_run: bool) -> (r: (
    bool,
    Option<PlayerUpdate>,
))
    ensures
        r.0 == (current_name@ != canonical@),
        if dry_run {
            r.1 is None
        } else if r.0 {
            is_rename(r.1, id, canonical@)
        } else {
            is_mark(r.1, id)
        },
{
    let changed: bool = !same(current_name, canonical);
    if dry_run {
        (changed, None)
    } else if changed {
        (
            changed,
            Some(
                PlayerUpdate::Rename {
                    id,
                    name: canonical.to_owned(),
                    search_name: names::normalize_name(canonical),
                },
            ),
        )
    } else {
        (changed, Some(PlayerUpdate::MarkNormalised { id }))
    }
}

// ── The cache service ────────────────────────────────────────────────────────

pub open spec fn view_opt(s: Option<&str>) -> Option<Seq<char>> {
    match s {
        Some(s) => Some(s@),
        None => None,
    }
}

/// The first of two that is there.
pub open spec fn first_of(a: Option<Seq<char>>, b: Option<Seq<char>>) -> Option<Seq<char>> {
    if a is Some {
        a
    } else {
        b
    }
}

/// The address and key of the cache service: the address that was asked for or the usual
/// one, and the key that was asked for, else the one of the environment, else the one
/// the program was built with. Without a key, or with a blank one, the service is off.
pub fn resolve_service(
    service_url: Option<&str>,
    service_key: Option<&str>,
    env_key: Option<&str>,
    built_in_key: Option<&str>,
    no_service: bool,
) -> (r: Option<(String, String)>)
    ensures
        ({
            let url = match service_url {
                Some(u) => u@,
                None => NORMALISE_SERVICE_URL@,
            };
            let key = first_of(
                view_opt(service_key),
                first_of(view_opt(env_key), view_opt(built_in_key)),
            );
            if no_service || key is None || text::trim(key->0).len() == 0 || text::trim(url).len()
                == 0 {
                r is None
            } else {
                r matches Some((u, k)) && u@ == url && k@ == key->0
            }
        }),
{
    if no_service {
        return None;
    }
    let url: &str = match service_url {
        Some(u) => u,
        None => NORMALISE_SERVICE_URL,
    };
    let key: Option<&str> = match service_key {
        Some(k) => Some(k),
        None => match env_key {
            Some(k) => Some(k),
            None => built_in_key,
        },
    };
    match key {
        None => None,
        Some(k) => {
            let bare_key: String = trimmed(k);
            let bare_url: String = trimmed(url);
            if bare_key.as_str().is_empty() || bare_url.as_str().is_empty() {
                None
            } else {
                Some((url.to_owned(), k.to_owned()))
            }
        },
    }
}

/// How many players to select at most: with the cache service on, all of them, as one
/// cheap request covers them; without it each is a slow look-up, so the limit holds.
pub fn select_limit(service_on: bool, limit: Option<usize>) -> (r: Option<usize>)
    ensures
        r == if service_on {
            None
        } else {
            limit
        },
{
    if service_on {
        None
    } else {
        limit
    }
}

// ── Planning a run ───────────────────────────────────────────────────────────

/// What a run does: names from the cache for the `hits`, look-ups for the `misses`.
pub struct NormalisePlan {
    pub hits: Vec<PendingPlayer>,
    pub misses: Vec<PendingPlayer>,
    /// Players left for a later run.
    pub deferred: usize,
    pub summary: String,
    /// Says that players are left, where some are.
    pub warning: Option<String>,
}

/// Whether the cache knows a player's name.
pub open spec fn cached(cache: Map<u32, String>) -> spec_fn(PendingPlayer) -> bool {
    |p: PendingPlayer| cache.contains_key(p.fide_id)
}

pub open spec fn not_cached(cache: Map<u32, String>) -> spec_fn(PendingPlayer) -> bool {
    |p: PendingPlayer| !cache.contains_key(p.fide_id)
}

/// The first `limit` of a sequence, or all of it.
pub open spec fn capped(s: Seq<PendingPlayer>, limit: Option<usize>) -> Seq<PendingPlayer> {
    match limit {
        Some(n) => if n < s.len() {
            s.take(n as int)
        } else {
            s
        },
        None => s,
    }
}

pub open spec fn plan_summary(hits: nat, misses: nat, o: NormaliseOptions) -> Seq<char> {
    "Normalising"@ + (if o.dry_run {
        " (dry-run)"@
    } else {
        ""@
    }) + ": "@ + text::dec(hits) + " from cache, "@ + text::dec(misses)
        + " via FIDE lookup (workers="@ + text::dec(o.workers as nat) + ", delay="@ + text::dec(
        o.delay_ms as nat,
    ) + "ms)."@
}

pub open spec fn plan_warning(misses: nat, deferred: nat) -> Seq<char> {
    "⚠ FIDE lookups capped at "@ + text::dec(misses) + "; "@ + text::dec(deferred)
        + " player(s) left pending. Re-run to continue, or run `chess-db players normalise` from the command line for the full set."@
}

/// Splits the pending players into those whose name the cache gave and those to be looked
/// up, each in their order. The limit caps the look-ups only. What is beyond that, of
/// `pending_total` in all, is deferred. With nobody pending there is no plan.
pub fn plan_run(
    pending: &[PendingPlayer],
    pending_total: usize,
    cache: &HashMap<u32, String>,
    limit: Option<usize>,
    options: &NormaliseOptions,
) -> (r: Option<NormalisePlan>)
    ensures
        r is None <==> pending@.len() == 0,
        r matches Some(plan) ==> {
            let done = plan.hits@.len() + plan.misses@.len();
            &&& plan.hits@ == pending@.filter(cached(cache@))
            &&& plan.misses@ == capped(pending@.filter(not_cached(cache@)), limit)
            &&& done <= pending@.len()
            &&& plan.deferred == (if pending_total > done {
                pending_total - done
            } else {
                0
            })
            &&& plan.summary@ == plan_summary(plan.hits@.len(), plan.misses@.len(), *options)
            &&& reporter::opt_text(plan.warning) == (if plan.deferred > 0 {
                Some(plan_warning(plan.misses@.len(), plan.deferred as nat))
            } else {
                None
            })
        },
{
    if pending.len() == 0 {
        return None;
    }
    let ghost all = pending@;
    let ghost known = cached(cache@);
    let ghost unknown = not_cached(cache@);
    let n: usize = pending.len();
    let mut hits: Vec<PendingPlayer> = Vec::new();
    let mut misses: Vec<PendingPlayer> = Vec::new();
    let mut i: usize = 0;
    proof {
        reveal(Seq::filter);
        assert(all.take(0) =~= Seq::<PendingPlayer>::empty());
    }
    while i < n
        invariant
            i <= n,
            n == all.len(),
            known == cached(cache@),
            unknown == not_cached(cache@),
            all == pending@,
            hits@ == all.take(i as int).filter(known),
            misses@ == all.take(i as int).filter(unknown),
            hits@.len() + misses@.len() == i,
        decreases n - i,
    {
        let row: PendingPlayer = pending[i].clone();
        proof {
            reveal(Seq::filter);
            let t = all.take(i + 1);
            assert(t.drop_last() =~= all.take(i as int));
            assert(t.last() == row);
        }
        if cache.contains_key(&row.fide_id) {
            hits.push(row);
        } else {
            misses.push(row);
        }
        i += 1;
    }
    assert(all.take(i as int) =~= all);
    if let Some(cap) = limit {
        if cap < misses.len() {
            misses.truncate(cap);
        }
    }
    let total: usize = hits.len() + misses.len();
    let deferred: usize = if pending_total > total {
        pending_total - total
    } else {
        0
    };
    let mut summary: String = "Normalising".to_owned();
    summary.append(
        if options.dry_run {
            " (dry-run)"
        } else {
            ""
        },
    );
    summary.append(": ");
    append_num(&mut summary, hits.len() as u64);
    summary.append(" from cache, ");
    append_num(&mut summary, misses.len() as u64);
    summary.append(" via FIDE lookup (workers=");
    append_num(&mut summary, options.workers as u64);
    summary.append(", delay=");
    append_num(&mut summary, options.delay_ms);
    summary.append("ms).");
    let warning: Option<String> = if deferred > 0 {
        let mut w: String = "⚠ FIDE lookups capped at ".to_owned();
        append_num(&mut w, misses.len() as u64);
        w.append("; ");
        append_num(&mut w, deferred as u64);
        w.append(
            " player(s) left pending. Re-run to continue, or run `chess-db players normalise` from the command line for the full set.",
        );
        Some(w)
    } else {
        None
    };
    Some(NormalisePlan { hits, misses, deferred, summary, warning })
}

/// What a run reports where there is nothing to do.
pub fn nothing_pending() -> (r: Report)
    ensures
        r matches Report::Done { message } && message@
            == "All players with FIDE IDs are already normalised."@,
{
    Report::Done { message: "All players with FIDE IDs are already normalised.".to_owned() }
}

/// Tells that the cache service did not answer: a failure there is not the end, all
/// players then go by look-ups.
pub fn service_failed(error: &str) -> (r: Report)
    ensures
        r matches Report::Log { message } && message@ == "⚠ Cache service unavailable ("@
            + error@ + "); using FIDE lookups instead."@,
{
    let mut message: String = "⚠ Cache service unavailable (".to_owned();
    message.append(error);
    message.append("); using FIDE lookups instead.");
    Report::Log { message }
}

// ── A run ────────────────────────────────────────────────────────────────────

/// How far a run has come.
#[derive(Clone, Copy, Debug)]
pub struct NormaliseRun {
    /// Players to be treated in all.
    pub total: usize,
    pub updated: usize,
    pub not_found: usize,
    pub errors: usize,
    /// Players treated, by the cache and by look-ups.
    pub completed: usize,
    /// Players looked up, for the pauses between batches.
    pub fide_done: usize,
    pub consecutive_errs: usize,
    pub aborted: bool,
}

/// What one name from the cache leads to.
pub struct CachedStep {
    pub update: Option<PlayerUpdate>,
    pub progress: Option<Report>,
}

/// What one answer to a look-up leads to.
pub struct LookupStep {
    /// Shown on the progress bar while the pause between batches lasts, which comes
    /// before everything else; `None` for no such pause.
    pub batch_pause: Option<String>,
    /// Printed above the progress bar.
    pub line: String,
    pub update: Option<PlayerUpdate>,
    /// Set where the errors in a row have come to the threshold.
    pub trouble: Option<Trouble>,
    /// Shown on the progress bar afterwards; not where the run ends here.
    pub status: Option<String>,
    pub progress: Option<Report>,
}

/// Too many errors in a row.
pub enum Trouble {
    /// The run ends here, with this in the log.
    Stop { log: Report },
    /// All look-ups wait for the error pause, with this line before it.
    Pause { line: String },
}

pub open spec fn progress_is(
    r: Report,
    current: nat,
    total: usize,
    verb: Seq<char>,
) -> bool {
    r matches Report::Progress { current: c, total: t, message } && c == current && t == total
        && message@ == verb + text::dec(current) + " / "@ + text::dec(total as nat) + " players"@
}

pub open spec fn tally(updated: int, not_found: int, errors: int) -> Seq<char> {
    text::dec(updated as nat) + "✓ "@ + text::dec(not_found as nat) + "? "@ + text::dec(
        errors as nat,
    ) + "✗"@
}

/// The beginning of the line about a player.
pub open spec fn player_line(id: u32, fide_id: u32, name: Seq<char>) -> Seq<char> {
    "  ["@ + text::dec(id as nat) + "] fide_id="@ + text::dec(fide_id as nat) + " \""@ + name
        + "\""@
}

pub open spec fn result_line(r: LookupResult) -> Seq<char> {
    match r {
        LookupResult::Found { id, fide_id, name, canonical } => player_line(id, fide_id, name@) + (
        if name@ != canonical@ {
            " → \""@ + canonical@ + "\""@
        } else {
            " — already normalised"@
        }),
        LookupResult::NotFound { id, fide_id, name } => player_line(id, fide_id, name@)
            + " — not found on FIDE (marking as checked)"@,
        LookupResult::Error { id, fide_id, name, msg } => player_line(id, fide_id, name@)
            + " — error: "@ + msg@,
    }
}

/// Whether one more error is one too many.
pub open spec fn over_threshold(run: NormaliseRun, o: NormaliseOptions) -> bool {
    o.error_threshold > 0 && run.consecutive_errs + 1 >= o.error_threshold
}

/// The state after an answer.
pub open spec fn run_after(run: NormaliseRun, r: LookupResult, o: NormaliseOptions) -> NormaliseRun {
    let stops = r is Error && over_threshold(run, o) && o.stop_on_errors;
    NormaliseRun {
        total: run.total,
        updated: (run.updated + (if r is Found {
            1int
        } else {
            0
        })) as usize,
        not_found: (run.not_found + (if r is NotFound {
            1int
        } else {
            0
        })) as usize,
        errors: (run.errors + (if r is Error {
            1int
        } else {
            0
        })) as usize,
        completed: (run.completed + (if stops {
            0int
        } else {
            1
        })) as usize,
        fide_done: (run.fide_done + (if stops {
            0int
        } else {
            1
        })) as usize,
        consecutive_errs: if r is Error {
            if over_threshold(run, o) && !o.stop_on_errors {
                0
            } else {
                (run.consecutive_errs + 1) as usize
            }
        } else {
            0
        },
        aborted: run.aborted || stops,
    }
}

/// The change to the database that an answer leads to.
pub open spec fn update_for(u: Option<PlayerUpdate>, r: LookupResult, dry_run: bool) -> bool {
    if dry_run || r is Error {
        u is None
    } else {
        match r {
            LookupResult::Found { id, fide_id, name, canonical } => if name@ != canonical@ {
                is_rename(u, id, canonical@)
            } else {
                is_mark(u, id)
            },
            LookupResult::NotFound { id, fide_id, name } => is_mark(u, id),
            LookupResult::Error { .. } => true,
        }
    }
}

pub open spec fn trouble_for(
    t: Option<Trouble>,
    run: NormaliseRun,
    r: LookupResult,
    o: NormaliseOptions,
) -> bool {
    if r is Error && over_threshold(run, o) {
        if o.stop_on_errors {
            t matches Some(Trouble::Stop { log }) && log matches Report::Log { message } && message@
                == "⚠ Stopping after "@ + text::dec((run.consecutive_errs + 1) as nat)
                + " consecutive errors (FIDE may be unreachable or rate-limiting)."@
        } else {
            t matches Some(Trouble::Pause { line }) && line@ == "  ⚠ "@ + text::dec(
                (run.consecutive_errs + 1) as nat,
            ) + " consecutive errors — pausing "@ + text::dec(
                o.error_pause_ms as nat / 3_600_000,
            ) + "h"@ + text::dec((o.error_pause_ms as nat % 3_600_000) / 60_000)
                + "m before retrying…"@
        }
    } else {
        t is None
    }
}

fn progress_report(current: usize, total: usize, verb: &str) -> (r: Report)
    ensures
        progress_is(r, current as nat, total, verb@),
{
    let mut message: String = verb.to_owned();
    append_num(&mut message, current as u64);
    message.append(" / ");
    append_num(&mut message, total as u64);
    message.append(" players");
    Report::Progress { current: current as u64, total: total as u64, message }
}

fn line_start(id: u32, fide_id: u32, name: &str) -> (line: String)
    ensures
        line@ == player_line(id, fide_id, name@),
{
    let mut line: String = "  [".to_owned();
    append_num(&mut line, id as u64);
    line.append("] fide_id=");
    append_num(&mut line, fide_id as u64);
    line.append(" \"");
    line.append(name);
    line.append("\"");
    line
}

fn tally_text(updated: usize, not_found: usize, errors: usize) -> (s: String)
    ensures
        s@ == tally(updated as int, not_found as int, errors as int),
{
    let mut s: String = String::new();
    append_num(&mut s, updated as u64);
    s.append("✓ ");
    append_num(&mut s, not_found as u64);
    s.append("? ");
    append_num(&mut s, errors as u64);
    s.append("✗");
    assert(Seq::<char>::empty() + text::dec(updated as nat) =~= text::dec(updated as nat));
    s
}

impl NormaliseRun {
    /// A run's counts fit together: every player treated is counted once, and the error
    /// that ended a run is counted as an error only.
    pub open spec fn wf(self) -> bool {
        &&& self.updated + self.not_found + self.errors == self.completed + (if self.aborted {
            1int
        } else {
            0
        })
        &&& self.completed <= self.total
        &&& self.aborted ==> self.completed < self.total
        &&& self.fide_done <= self.completed
        &&& self.consecutive_errs <= self.errors
    }

    pub fn new(total: usize) -> (run: Self)
        ensures
            run.wf(),
            run == (NormaliseRun {
                total,
                updated: 0,
                not_found: 0,
                errors: 0,
                completed: 0,
                fide_done: 0,
                consecutive_errs: 0,
                aborted: false,
            }),
    {
        NormaliseRun {
            total,
            updated: 0,
            not_found: 0,
            errors: 0,
            completed: 0,
            fide_done: 0,
            consecutive_errs: 0,
            aborted: false,
        }
    }

    /// How many names from the cache go by between two progress reports: about a hundredth
    /// of all.
    pub open spec fn report_every(self) -> nat {
        if self.total / 100 > 1 {
            (self.total / 100) as nat
        } else {
            1
        }
    }

    /// Takes a name from the cache: the player is renamed or marked, and progress is
    /// reported now and then only, as names from the cache go by quickly.
    pub fn take_cached(&mut self, player: &PendingPlayer, canonical: &str, dry_run: bool) -> (step:
        CachedStep)
        requires
            old(self).wf(),
            !old(self).aborted,
            old(self).completed < old(self).total,
        ensures
            final(self).wf(),
            *final(self) == (NormaliseRun {
                updated: (old(self).updated + 1) as usize,
                completed: (old(self).completed + 1) as usize,
                ..*old(self)
            }),
            if dry_run {
                step.update is None
            } else if player.name@ != canonical@ {
                is_rename(step.update, player.id, canonical@)
            } else {
                is_mark(step.update, player.id)
            },
            if final(self).completed as nat % old(self).report_every() == 0 {
                step.progress matches Some(p) && progress_is(
                    p,
                    final(self).completed as nat,
                    old(self).total,
                    "Cached "@,
                )
            } else {
                step.progress is None
            },
    {
        let (_changed, update) = apply_canonical(
            player.id,
            player.name.as_str(),
            canonical,
            dry_run,
        );
        self.updated = self.updated + 1;
        self.completed = self.completed + 1;
        let every: usize = if self.total / 100 > 1 {
            self.total / 100
        } else {
            1
        };
        let progress: Option<Report> = if self.completed % every == 0 {
            Some(progress_report(self.completed, self.total, "Cached "))
        } else {
            None
        };
        CachedStep { update, progress }
    }

    /// The report at the end of the names from the cache, where there were any.
    pub fn cached_done(&self) -> (r: Option<Report>)
        ensures
            if self.updated > 0 {
                r matches Some(p) && progress_is(p, self.completed as nat, self.total, "Cached "@)
            } else {
                r is None
            },
    {
        if self.updated > 0 {
            Some(progress_report(self.completed, self.total, "Cached "))
        } else {
            None
        }
    }

    /// Takes the answer to a look-up. A pause is due before it after each full batch.
    pub fn take_result(&mut self, result: &LookupResult, options: &NormaliseOptions) -> (step:
        LookupStep)
        requires
            old(self).wf(),
            !old(self).aborted,
            old(self).completed < old(self).total,
            options.batch_size > 0,
        ensures
            final(self).wf(),
            *final(self) == run_after(*old(self), *result, *options),
            reporter::opt_text(step.batch_pause) == (if old(self).fide_done > 0 && old(
                self,
            ).fide_done as nat % (options.batch_size as nat) == 0 {
                Some(
                    tally(
                        old(self).updated as int,
                        old(self).not_found as int,
                        old(self).errors as int,
                    ) + "  — pausing "@ + text::dec(options.batch_pause_ms as nat / 1000)
                        + "s…"@,
                )
            } else {
                None
            }),
            step.line@ == result_line(*result),
            update_for(step.update, *result, options.dry_run),
            trouble_for(step.trouble, *old(self), *result, *options),
            reporter::opt_text(step.status) == (if final(self).aborted {
                None
            } else {
                Some(
                    tally(
                        final(self).updated as int,
                        final(self).not_found as int,
                        final(self).errors as int,
                    ),
                )
            }),
            if final(self).aborted {
                step.progress is None
            } else {
                step.progress matches Some(p) && progress_is(
                    p,
                    final(self).completed as nat,
                    old(self).total,
                    "Checked "@,
                )
            },
    {
        let batch_pause: Option<String> = if self.fide_done > 0 && self.fide_done
            % options.batch_size == 0 {
            let mut s: String = tally_text(self.updated, self.not_found, self.errors);
            s.append("  — pausing ");
            append_num(&mut s, options.batch_pause_ms / 1000);
            s.append("s…");
            Some(s)
        } else {
            None
        };
        let mut trouble: Option<Trouble> = None;
        let line: String;
        let update: Option<PlayerUpdate>;
        match result {
            LookupResult::Found { id, fide_id, name, canonical } => {
                self.consecutive_errs = 0;
                let (changed, u) = apply_canonical(
                    *id,
                    name.as_str(),
                    canonical.as_str(),
                    options.dry_run,
                );
                let mut l: String = line_start(*id, *fide_id, name.as_str());
                let mut tail: String;
                if changed {
                    tail = " → \"".to_owned();
                    tail.append(canonical.as_str());
                    tail.append("\"");
                } else {
                    tail = " — already normalised".to_owned();
                }
                l.append(tail.as_str());
                line = l;
                update = u;
                self.updated = self.updated + 1;
            },
            LookupResult::NotFound { id, fide_id, name } => {
                self.consecutive_errs = 0;
                let mut l: String = line_start(*id, *fide_id, name.as_str());
                l.append(" — not found on FIDE (marking as checked)");
                line = l;
                update =
                if options.dry_run {
                    None
                } else {
                    Some(PlayerUpdate::MarkNormalised { id: *id })
                };
                self.not_found = self.not_found + 1;
            },
            LookupResult::Error { id, fide_id, name, msg } => {
                self.consecutive_errs = self.consecutive_errs + 1;
                let mut l: String = line_start(*id, *fide_id, name.as_str());
                l.append(" — error: ");
                l.append(msg.as_str());
                line = l;
                update = None;
                self.errors = self.errors + 1;
                if options.error_threshold > 0 && self.consecutive_errs >= options.error_threshold {
                    if options.stop_on_errors {
                        let mut m: String = "⚠ Stopping after ".to_owned();
                        append_num(&mut m, self.consecutive_errs as u64);
                        m.append(
                            " consecutive errors (FIDE may be unreachable or rate-limiting).",
                        );
                        self.aborted = true;
                        return LookupStep {
                            batch_pause,
                            line,
                            update,
                            trouble: Some(Trouble::Stop { log: Report::Log { message: m } }),
                            status: None,
                            progress: None,
                        };
                    }
                    let mut m: String = "  ⚠ ".to_owned();
                    append_num(&mut m, self.consecutive_errs as u64);
                    m.append(" consecutive errors — pausing ");
                    append_num(&mut m, options.error_pause_ms / 3_600_000);
                    m.append("h");
                    append_num(&mut m, (options.error_pause_ms % 3_600_000) / 60_000);
                    m.append("m before retrying…");
                    trouble = Some(Trouble::Pause { line: m });
                    self.consecutive_errs = 0;
                }
            },
        }
        self.completed = self.completed + 1;
        self.fide_done = self.fide_done + 1;
        let status: Option<String> = Some(tally_text(self.updated, self.not_found, self.errors));
        let progress: Option<Report> = Some(
            progress_report(self.completed, self.total, "Checked "),
        );
        LookupStep { batch_pause, line, update, trouble, status, progress }
    }

    /// The report at the end. A run that was given up ends in an error, so that it does
    /// not count as complete.
    pub fn finish(&self, error_threshold: usize) -> (r: Report)
        ensures
            if self.aborted {
                r matches Report::Error { message } && message@ == "Stopped after "@ + text::dec(
                    error_threshold as nat,
                ) + " consecutive errors — "@ + text::dec(self.updated as nat) + " updated, "@
                    + text::dec(self.not_found as nat) + " not found, "@ + text::dec(
                    self.errors as nat,
                )
                    + " error(s) so far. Try again later, or run `chess-db players normalise` from the command line."@
            } else {
                r matches Report::Done { message } && message@ == "Normalised "@ + text::dec(
                    self.completed as nat,
                ) + " player(s): "@ + text::dec(self.updated as nat) + " updated, "@ + text::dec(
                    self.not_found as nat,
                ) + " not found, "@ + text::dec(self.errors as nat) + " error(s)."@
            },
    {
        if self.aborted {
            let mut m: String = "Stopped after ".to_owned();
            append_num(&mut m, error_threshold as u64);
            m.append(" consecutive errors — ");
            append_num(&mut m, self.updated as u64);
            m.append(" updated, ");
            append_num(&mut m, self.not_found as u64);
            m.append(" not found, ");
            append_num(&mut m, self.errors as u64);
            m.append(
                " error(s) so far. Try again later, or run `chess-db players normalise` from the command line.",
            );
            Report::Error { message: m }
        } else {
            let mut m: String = "Normalised ".to_owned();
            append_num(&mut m, self.completed as u64);
            m.append(" player(s): ");
            append_num(&mut m, self.updated as u64);
            m.append(" updated, ");
            append_num(&mut m, self.not_found as u64);
            m.append(" not found, ");
            append_num(&mut m, self.errors as u64);
            m.append(" error(s).");
            Report::Done { message: m }
        }
    }
}

// ── Reading the search page ──────────────────────────────────────────────────

/// The cells of a result row that matter, where they are there.
pub struct SearchRow {
    pub id: Option<String>,
    pub name: Option<String>,
}

/// The name that a row gives for a FIDE ID: none if the row is of somebody else, or has
/// no name in it.
pub open spec fn name_in_row(
    id: Option<Seq<char>>,
    name: Option<Seq<char>>,
    fide_id: u64,
) -> Option<Seq<char>> {
    if id is Some && text::parse_nat(id->0, u64::MAX as nat) == Some(fide_id as nat) && name is Some
        && text::trim(name->0).len() > 0 {
        Some(text::trim(name->0))
    } else {
        None
    }
}

/// The first name that any row gives for a FIDE ID.
pub open spec fn first_name(
    rows: Seq<(Option<Seq<char>>, Option<Seq<char>>)>,
    fide_id: u64,
) -> Option<Seq<char>>
    decreases rows.len(),
{
    if rows.len() == 0 {
        None
    } else {
        match name_in_row(rows[0].0, rows[0].1, fide_id) {
            Some(n) => Some(n),
            None => first_name(rows.skip(1), fide_id),
        }
    }
}

pub open spec fn row_texts(rows: Seq<SearchRow>) -> Seq<(Option<Seq<char>>, Option<Seq<char>>)> {
    rows.map_values(|r: SearchRow| (reporter::opt_text(r.id), reporter::opt_text(r.name)))
}

/// The name that a list of result rows gives for a FIDE ID.
pub fn pick_name(rows: &[SearchRow], fide_id: u64) -> (r: Option<String>)
    ensures
        reporter::opt_text(r) == first_name(row_texts(rows@), fide_id),
{
    let ghost all = row_texts(rows@);
    let mut i: usize = 0;
    assert(all.skip(0) =~= all);
    while i < rows.len()
        invariant
            i <= rows.len(),
            all == row_texts(rows@),
            first_name(all, fide_id) == first_name(all.skip(i as int), fide_id),
        decreases rows.len() - i,
    {
        let row: &SearchRow = &rows[i];
        proof {
            assert(all.skip(i as int)[0] == all[i as int]);
            assert(all.skip(i as int).skip(1) =~= all.skip(i + 1));
        }
        i += 1;
        let id: Option<u64> = match &row.id {
            Some(t) => parse_u64(&chars_of(t.as_str())),
            None => None,
        };
        match id {
            Some(n) => {
                if n == fide_id {
                    match &row.name {
                        Some(t) => {
                            let name: String = trimmed(t.as_str());
                            if !name.as_str().is_empty() {
                                return Some(name);
                            }
                        },
                        None => {},
                    }
                }
            },
            None => {},
        }
    }
    assert(all.skip(i as int) =~= Seq::empty());
    None
}

pub const ROW_PATTERN: &'static str = "(?s)<tr\\b[^>]*>(.*?)</tr>";

pub const FIDE_ID_PATTERN: &'static str =
    "(?s)<td[^>]*data-label=\"FIDEID\"[^>]*>\\s*(\\d+)\\s*</td>";

pub const NAME_PATTERN: &'static str = "class=\"found_name\"[^>]*>([^<]+)<";

/// The rows of a search page: the FIDE ID and the name that stand in each.
pub open spec fn page_rows(html: Seq<char>) -> Seq<(Option<Seq<char>>, Option<Seq<char>>)> {
    match patterns::first_groups(ROW_PATTERN@, html) {
        Some(all) => all.map_values(
            |g: Option<Seq<char>>|
                {
                    let row = match g {
                        Some(t) => t,
                        None => ""@,
                    };
                    (
                        patterns::first_group(FIDE_ID_PATTERN@, row),
                        patterns::first_group(NAME_PATTERN@, row),
                    )
                },
        ),
        None => Seq::empty(),
    }
}

/// The name that a FIDE search page shows for a FIDE ID.
pub fn extract_name_for_id(html: &str, fide_id: u64) -> (r: Option<String>)
    ensures
        reporter::opt_text(r) == first_name(page_rows(html@), fide_id),
{
    let all: Vec<Option<String>> = match patterns::groups(ROW_PATTERN, html) {
        Some(all) => all,
        None => {
            return None;
        },
    };
    let mut rows: Vec<SearchRow> = Vec::new();
    let mut i: usize = 0;
    while i < all.len()
        invariant
            i <= all.len(),
            rows@.len() == i,
            patterns::first_groups(ROW_PATTERN@, html@) == Some(patterns::opt_texts(all@)),
            row_texts(rows@) =~= page_rows(html@).take(i as int),
        decreases all.len() - i,
    {
        let row: &str = match &all[i] {
            Some(t) => t.as_str(),
            None => "",
        };
        rows.push(
            SearchRow {
                id: patterns::find_group(FIDE_ID_PATTERN, row),
                name: patterns::find_group(NAME_PATTERN, row),
            },
        );
        i += 1;
    }
    assert(row_texts(rows@) =~= page_rows(html@));
    pick_name(&rows, fide_id)
}

// ── Laws ─────────────────────────────────────────────────────────────────────

proof fn lemma_split_counts(s: Seq<PendingPlayer>, cache: Map<u32, String>)
    ensures
        s.filter(cached(cache)).len() + s.filter(not_cached(cache)).len() == s.len(),
    decreases s.len(),
{
    reveal(Seq::filter);
    if s.len() > 0 {
        lemma_split_counts(s.drop_last(), cache);
    }
}

/// Nobody is lost: every pending player is taken from the cache, looked up or deferred,
/// as long as all that are pending were selected.
pub proof fn law_nobody_is_lost(
    pending: Seq<PendingPlayer>,
    cache: Map<u32, String>,
    limit: Option<usize>,
)
    ensures
        ({
            let hits = pending.filter(cached(cache));
            let misses = capped(pending.filter(not_cached(cache)), limit);
            let done = hits.len() + misses.len();
            &&& done <= pending.len()
            &&& limit is None ==> done == pending.len()
        }),
{
    lemma_split_counts(pending, cache);
}

/// An answer that is not an error ends the row of errors, so only errors in an unbroken
/// row can stop a run.
pub proof fn law_only_unbroken_errors_stop(
    run: NormaliseRun,
    good: LookupResult,
    bad: LookupResult,
    o: NormaliseOptions,
)
    requires
        run.wf(),
        run.completed + 1 < run.total,
        !run.aborted,
        !(good is Error),
        bad is Error,
        o.error_threshold > 1,
    ensures
        !run_after(run_after(run, good, o), bad, o).aborted,
{
}

// ── Laws of runs ─────────────────────────────────────────────────────────────

/// Every answer is counted once, under what it is: a name, nobody, or an error. An error in
/// a row counts as one more, and any other answer ends the row.
pub proof fn law_answers_are_counted(run: NormaliseRun, r: LookupResult, o: NormaliseOptions)
    requires
        run.wf(),
        run.completed < run.total,
        !run.aborted,
    ensures
        ({
            let n = run_after(run, r, o);
            &&& r is Found ==> n.updated == run.updated + 1 && n.not_found == run.not_found
                && n.errors == run.errors && n.consecutive_errs == 0
            &&& r is NotFound ==> n.updated == run.updated && n.not_found == run.not_found + 1
                && n.errors == run.errors && n.consecutive_errs == 0
            &&& r is Error ==> n.updated == run.updated && n.not_found == run.not_found && n.errors
                == run.errors + 1
            &&& r is Error && o.error_threshold == 0 ==> n.consecutive_errs == run.consecutive_errs
                + 1 && !n.aborted
            &&& !n.aborted ==> n.completed == run.completed + 1 && n.fide_done == run.fide_done + 1
            &&& n.total == run.total
        }),
{
}

/// A run is given up at the error that makes the row of errors as long as the threshold, if
/// it is to stop then, and at no other answer.
pub proof fn law_when_runs_are_given_up(run: NormaliseRun, r: LookupResult, o: NormaliseOptions)
    requires
        !run.aborted,
    ensures
        run_after(run, r, o).aborted <==> r is Error && o.stop_on_errors && o.error_threshold > 0
            && run.consecutive_errs + 1 >= o.error_threshold,
{
}

/// A name from the federation is taken over with the form in which it is searched; a name
/// that is right already, and a player who was not found, is marked; an error changes
/// nothing, nor does a dry run.
pub proof fn law_answers_lead_to_changes(u: Option<PlayerUpdate>, r: LookupResult, dry_run: bool)
    requires
        update_for(u, r, dry_run),
    ensures
        dry_run || r is Error ==> u is None,
        !dry_run ==> (r matches LookupResult::Found { id, fide_id, name, canonical } ==> {
            &&& name@ == canonical@ ==> u == Some(PlayerUpdate::MarkNormalised { id })
            &&& name@ != canonical@ ==> {
                u matches Some(PlayerUpdate::Rename { id: i, name: n, search_name: s }) && i == id
                    && n@ == canonical@ && s@ == names::normalized(canonical@)
            }
        }),
        !dry_run ==> (r matches LookupResult::NotFound { id, fide_id, name } ==> u == Some(
            PlayerUpdate::MarkNormalised { id },
        )),
{
}

/// The name of a player is that of the first row with the player's number and a name.
pub proof fn law_names_are_those_of_the_number(
    rows: Seq<(Option<Seq<char>>, Option<Seq<char>>)>,
    fide_id: u64,
    k: int,
)
    requires
        0 <= k < rows.len(),
        rows[k].0 == Some(text::dec(fide_id as nat)),
        rows[k].1 is Some,
        text::trim(rows[k].1->0).len() > 0,
        forall|i: int| 0 <= i < k ==> name_in_row((#[trigger] rows[i]).0, rows[i].1, fide_id) is None,
    ensures
        first_name(rows, fide_id) == Some(text::trim(rows[k].1->0)),
    decreases rows.len(),
{
    text::law_decimal_reads_back(fide_id as nat, u64::MAX as nat);
    if k > 0 {
        let rest = rows.skip(1);
        assert(name_in_row(rows[0].0, rows[0].1, fide_id) is None);
        assert forall|i: int| 0 <= i < k - 1 implies name_in_row(
            (#[trigger] rest[i]).0,
            rest[i].1,
            fide_id,
        ) is None by {
            assert(rest[i] == rows[i + 1]);
        }
        law_names_are_those_of_the_number(rest, fide_id, k - 1);
    }
}

/// The row of another number gives no name, nor does one without a number.
pub proof fn law_other_rows_give_no_name(other: u64, name: Option<Seq<char>>, fide_id: u64)
    requires
        other != fide_id,
    ensures
        name_in_row(Some(text::dec(other as nat)), name, fide_id) is None,
        name_in_row(None, name, fide_id) is None,
{
    text::law_decimal_reads_back(other as nat, u64::MAX as nat);
}

/// Players are looked up in their order, no more than the limit.
pub proof fn law_limits_cut_the_end(s: Seq<PendingPlayer>, limit: Option<usize>, k: int)
    ensures
        limit is None ==> capped(s, limit) == s,
        limit matches Some(n) ==> capped(s, limit).len() == if n < s.len() {
            n as nat
        } else {
            s.len()
        },
        0 <= k < capped(s, limit).len() ==> capped(s, limit)[k] == s[k],
{
}

/// Who is in the cache is not looked up, and who is not in it is.
pub proof fn law_the_cache_is_asked_first(
    pending: Seq<PendingPlayer>,
    cache: Map<u32, String>,
    p: PendingPlayer,
)
    requires
        pending.contains(p),
    ensures
        cache.contains_key(p.fide_id) <==> pending.filter(cached(cache)).contains(p),
        !cache.contains_key(p.fide_id) <==> pending.filter(not_cached(cache)).contains(p),
{
    broadcast use vstd::seq_lib::group_filter_ensures;

    let i = pending.index_of(p);
    let a = pending.filter(cached(cache));
    let b = pending.filter(not_cached(cache));
    assert(pending[i] == p);
    if cache.contains_key(p.fide_id) {
        assert(cached(cache)(pending[i]));
        assert(a.contains(pending[i]));
    } else {
        assert(not_cached(cache)(pending[i]));
        assert(b.contains(pending[i]));
    }
    if a.contains(p) {
        let k = a.index_of(p);
        assert(cached(cache)(a[k]));
    }
    if b.contains(p) {
        let k = b.index_of(p);
        assert(not_cached(cache)(b[k]));
    }
}

/// The first of two settings that is there counts.
pub proof fn law_first_setting_counts(a: Seq<char>, b: Option<Seq<char>>)
    ensures
        first_of(Some(a), b) == Some(a),
        first_of(None, b) == b,
{
}

/// A run that has too many errors in a row stops or pauses, as it was told; no other answer
/// gives trouble.
pub proof fn law_what_trouble_leads_to(
    t: Option<Trouble>,
    run: NormaliseRun,
    r: LookupResult,
    o: NormaliseOptions,
)
    requires
        trouble_for(t, run, r, o),
    ensures
        r is Error && o.error_threshold > 0 && run.consecutive_errs + 1 >= o.error_threshold ==> {
            &&& o.stop_on_errors ==> t is Some && t->0 is Stop
            &&& !o.stop_on_errors ==> t is Some && t->0 is Pause
        },
        !(r is Error) || o.error_threshold == 0 || run.consecutive_errs + 1 < o.error_threshold
            ==> t is None,
{
}

/// The line about a player says who it is and what was found.
pub proof fn law_lines_say_what_was_found(id: u32, fide_id: u32, name: String, canonical: String)
    ensures
        player_line(id, fide_id, name@) == "  ["@ + text::dec(id as nat) + "] fide_id="@
            + text::dec(fide_id as nat) + " \""@ + name@ + "\""@,
        name@ != canonical@ ==> result_line(
            LookupResult::Found { id, fide_id, name, canonical },
        ) == player_line(id, fide_id, name@) + (" → \""@ + canonical@ + "\""@),
        name@ == canonical@ ==> result_line(
            LookupResult::Found { id, fide_id, name, canonical },
        ) == player_line(id, fide_id, name@) + " — already normalised"@,
        result_line(LookupResult::NotFound { id, fide_id, name }) == player_line(
            id,
            fide_id,
            name@,
        ) + " — not found on FIDE (marking as checked)"@,
{
}

} // verus!
