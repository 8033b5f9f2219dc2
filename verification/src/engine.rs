//! A chess engine on the server that speaks UCI: where it is looked for, what it is told,
//! and what is made of its answers.
use crate::chess;
use crate::chess::{find_san, play, read_position, BoardPosition, Played};
use crate::paths;
use crate::paths::join_path;
use crate::reporter;
use crate::reporter::clone_opt;
use crate::sorting;
use crate::text;
use crate::text::{
    append_num, chars_of, clone_all, has_prefix, is_among, joined, parse_i32, parse_u32, parse_u64,
    same, slice, split_char, split_words, string_of, trimmed,
};
use std::collections::VecDeque;
use vstd::hash_map::StringHashMap;
use vstd::prelude::*;
use vstd::string::*;

verus! {

/// No search goes on longer than this, in seconds, unless it is asked for again.
pub const MAX_SEARCH_SECS: u64 = 300;

/// How long an engine may take to introduce itself, in seconds.
pub const HANDSHAKE_SECS: u64 = 10;

/// So many positions are remembered.
pub const REMEMBER_MAX: usize = 20_000;

// ── Settings ─────────────────────────────────────────────────────────────────

/// The engine to run, and its options.
#[derive(Debug)]
pub struct EngineSettings {
    /// The engine to run; the first one found where it is `None`.
    pub path: Option<String>,
    pub threads: u32,
    pub hash_mb: u32,
}

pub open spec fn clamped(n: int, low: int, high: int) -> int {
    if n < low {
        low
    } else if n > high {
        high
    } else {
        n
    }
}

fn clamp(n: u32, low: u32, high: u32) -> (r: u32)
    requires
        low <= high,
    ensures
        r == clamped(n as int, low as int, high as int),
{
    if n < low {
        low
    } else if n > high {
        high
    } else {
        n
    }
}

impl Clone for EngineSettings {
    fn clone(&self) -> (r: Self)
        ensures
            r == *self,
    {
        EngineSettings {
            path: clone_opt(&self.path),
            threads: self.threads,
            hash_mb: self.hash_mb,
        }
    }
}

impl EngineSettings {
    /// The settings to begin with: half the cores, as the server answers queries while the
    /// engine thinks.
    pub fn for_cores(cores: u32) -> (s: Self)
        ensures
            s.path is None,
            s.threads == clamped(cores as int / 2, 1, 16),
            s.hash_mb == 256,
    {
        EngineSettings { path: None, threads: clamp(cores / 2, 1, 16), hash_mb: 256 }
    }

    /// Changes the settings. The engine must be one of those that were found; what is not
    /// given stays.
    pub fn configure(
        &mut self,
        path: Option<String>,
        threads: Option<u32>,
        hash_mb: Option<u32>,
        found: &[String],
        settings_file: &str,
    ) -> (r: Result<(), String>)
        ensures
            if path is Some && !text::texts(found@).contains(path->0@) {
                &&& *final(self) == *old(self)
                &&& r matches Err(e)
                &&& e@ == path->0@
                    + " is not one of the engines found in the standard locations. To use another engine, name it in "@
                    + settings_file@ + " on the server."@
            } else {
                &&& r is Ok
                &&& final(self).path == (if path is Some {
                    path
                } else {
                    old(self).path
                })
                &&& final(self).threads == (match threads {
                    Some(t) => clamped(t as int, 1, 256),
                    None => old(self).threads as int,
                })
                &&& final(self).hash_mb == (match hash_mb {
                    Some(h) => clamped(h as int, 16, 65536),
                    None => old(self).hash_mb as int,
                })
            },
    {
        if let Some(p) = path {
            if !is_among(found, p.as_str()) {
                let mut e: String = p;
                e.append(
                    " is not one of the engines found in the standard locations. To use another engine, name it in ",
                );
                e.append(settings_file);
                e.append(" on the server.");
                return Err(e);
            }
            self.path = Some(p);
        }
        if let Some(t) = threads {
            self.threads = clamp(t, 1, 256);
        }
        if let Some(h) = hash_mb {
            self.hash_mb = clamp(h, 16, 65536);
        }
        Ok(())
    }

    /// The engine to run: the one that was chosen, else the first one found.
    pub fn engine_to_run(&self, found: &[String]) -> (r: Result<String, String>)
        ensures
            match self.path {
                Some(p) => r matches Ok(s) && s@ == p@,
                None => if found@.len() > 0 {
                    r matches Ok(s) && s@ == found@[0]@
                } else {
                    r matches Err(e) && e@ == "No chess engine found on the server."@
                },
            },
    {
        match &self.path {
            Some(p) => Ok(p.clone()),
            None => if found.len() > 0 {
                Ok(found[0].clone())
            } else {
                Err("No chess engine found on the server.".to_owned())
            },
        }
    }
}

// ── Looking for engines ──────────────────────────────────────────────────────

/// Where package managers put engines, beside the search path.
pub open spec fn known() -> Seq<Seq<char>> {
    seq![
        "/usr/games/stockfish"@,
        "/usr/bin/stockfish"@,
        "/usr/local/bin/stockfish"@,
        "/opt/homebrew/bin/stockfish"@,
        "/snap/bin/stockfish"@,
        "/usr/bin/lc0"@,
        "/usr/local/bin/lc0"@,
        "/opt/homebrew/bin/lc0"@,
    ]
}

/// What engines are called on the search path of directories.
pub open spec fn on_path(dirs: Seq<Seq<char>>) -> Seq<Seq<char>>
    decreases dirs.len(),
{
    if dirs.len() == 0 {
        Seq::empty()
    } else {
        on_path(dirs.drop_last()).push(paths::join_of(dirs.last(), "stockfish"@)).push(
            paths::join_of(dirs.last(), "lc0"@),
        )
    }
}

fn push_text(v: &mut Vec<String>, s: String)
    ensures
        text::texts(final(v)@) == text::texts(old(v)@).push(s@),
{
    let ghost had = text::texts(v@);
    v.push(s);
    assert(text::texts(v@) =~= had.push(s@));
}

/// All places where an engine is looked for, in order of preference: the directories of
/// the search path, then the usual places.
pub fn candidate_paths(dirs: &[String]) -> (out: Vec<String>)
    ensures
        text::texts(out@) == on_path(text::texts(dirs@)) + known(),
{
    let mut out: Vec<String> = Vec::new();
    let ghost all = text::texts(dirs@);
    let mut i: usize = 0;
    assert(all.take(0) =~= Seq::empty());
    assert(text::texts(out@) =~= Seq::empty());
    while i < dirs.len()
        invariant
            i <= dirs.len(),
            all == text::texts(dirs@),
            text::texts(out@) == on_path(all.take(i as int)),
        decreases dirs.len() - i,
    {
        push_text(&mut out, join_path(dirs[i].as_str(), "stockfish"));
        push_text(&mut out, join_path(dirs[i].as_str(), "lc0"));
        i += 1;
        proof {
            let t = all.take(i as int);
            assert(t.drop_last() =~= all.take(i - 1));
            assert(t.last() == all[i - 1]);
        }
    }
    assert(all.take(i as int) =~= all);
    let ghost front = text::texts(out@);
    push_text(&mut out, "/usr/games/stockfish".to_owned());
    push_text(&mut out, "/usr/bin/stockfish".to_owned());
    push_text(&mut out, "/usr/local/bin/stockfish".to_owned());
    push_text(&mut out, "/opt/homebrew/bin/stockfish".to_owned());
    push_text(&mut out, "/snap/bin/stockfish".to_owned());
    push_text(&mut out, "/usr/bin/lc0".to_owned());
    push_text(&mut out, "/usr/local/bin/lc0".to_owned());
    push_text(&mut out, "/opt/homebrew/bin/lc0".to_owned());
    assert(text::texts(out@) =~= front + known());
    out
}

/// What is known of a place: whether a program is there, and where it really is.
#[derive(Debug)]
pub struct Candidate {
    pub path: String,
    pub executable: bool,
    /// The path with all links followed, where that can be told.
    pub canonical: Option<String>,
}

/// Engines found so far, with what is known of them, and places looked at.
pub struct Found {
    pub engines: Seq<Candidate>,
    pub searched: Seq<Seq<char>>,
}

/// The place of a program, with links followed where that can be told.
pub open spec fn real_place(c: Candidate) -> Seq<char> {
    match c.canonical {
        Some(p) => p@,
        None => c.path@,
    }
}

/// Whether an engine that was found is the program at another place.
pub open spec fn same_program(f: Candidate, c: Candidate) -> bool {
    f.path@ == c.path@ || (f.canonical is Some && f.canonical->0@ == real_place(c))
}

/// The search after one more place: a place is looked at once, and a program counts once.
pub open spec fn after_candidate(f: Found, c: Candidate) -> Found {
    if f.searched.contains(c.path@) {
        f
    } else {
        Found {
            searched: f.searched.push(c.path@),
            engines: if c.executable && !(exists|i: int|
                0 <= i < f.engines.len() && same_program(#[trigger] f.engines[i], c)) {
                f.engines.push(c)
            } else {
                f.engines
            },
        }
    }
}

pub open spec fn search(cs: Seq<Candidate>) -> Found
    decreases cs.len(),
{
    if cs.len() == 0 {
        Found { engines: Seq::empty(), searched: Seq::empty() }
    } else {
        after_candidate(search(cs.drop_last()), cs.last())
    }
}

pub open spec fn engine_paths(v: Seq<Candidate>) -> Seq<Seq<char>> {
    v.map_values(|c: Candidate| c.path@)
}

fn is_same_program(f: &Candidate, c: &Candidate) -> (b: bool)
    ensures
        b == same_program(*f, *c),
{
    if same(f.path.as_str(), c.path.as_str()) {
        return true;
    }
    let place: &str = match &c.canonical {
        Some(p) => p.as_str(),
        None => c.path.as_str(),
    };
    match &f.canonical {
        Some(p) => same(p.as_str(), place),
        None => false,
    }
}

/// The engines among some places, in order of preference, and the places looked at.
pub fn find_engines(candidates: &[Candidate]) -> (r: (Vec<String>, Vec<String>))
    ensures
        text::texts(r.0@) == engine_paths(search(candidates@).engines),
        text::texts(r.1@) == search(candidates@).searched,
{
    let mut engines: Vec<String> = Vec::new();
    let mut places: Vec<usize> = Vec::new();
    let mut searched: Vec<String> = Vec::new();
    let mut i: usize = 0;
    proof {
        assert(candidates@.take(0) =~= Seq::empty());
        assert(text::texts(engines@) =~= Seq::empty());
        assert(text::texts(searched@) =~= Seq::empty());
        assert(picked(candidates@, places@) =~= Seq::empty());
        assert(engine_paths(Seq::empty()) =~= Seq::empty());
    }
    while i < candidates.len()
        invariant
            i <= candidates.len(),
            forall|k: int| 0 <= k < places@.len() ==> #[trigger] places@[k] < i,
            picked(candidates@, places@) == search(candidates@.take(i as int)).engines,
            text::texts(engines@) == engine_paths(search(candidates@.take(i as int)).engines),
            text::texts(searched@) == search(candidates@.take(i as int)).searched,
        decreases candidates.len() - i,
    {
        let c: &Candidate = &candidates[i];
        let ghost before = search(candidates@.take(i as int));
        proof {
            let t = candidates@.take(i + 1);
            assert(t.drop_last() =~= candidates@.take(i as int));
            assert(t.last() == *c);
        }
        if !is_among(&searched, c.path.as_str()) {
            push_text(&mut searched, c.path.clone());
            if c.executable {
                let mut known_already: bool = false;
                let mut k: usize = 0;
                while k < places.len() && !known_already
                    invariant
                        k <= places.len(),
                        i < candidates.len(),
                        *c == candidates@[i as int],
                        before == search(candidates@.take(i as int)),
                        forall|j: int| 0 <= j < places@.len() ==> #[trigger] places@[j] < i,
                        picked(candidates@, places@) == before.engines,
                        known_already ==> exists|j: int|
                            0 <= j < before.engines.len() && same_program(
                                #[trigger] before.engines[j],
                                *c,
                            ),
                        !known_already ==> forall|j: int|
                            0 <= j < k ==> !same_program(#[trigger] before.engines[j], *c),
                    decreases places.len() - k,
                {
                    let f: &Candidate = &candidates[places[k]];
                    assert(before.engines[k as int] == *f);
                    if is_same_program(f, c) {
                        known_already = true;
                    }
                    k += 1;
                }
                if !known_already {
                    let ghost had = picked(candidates@, places@);
                    let ghost had_paths = text::texts(engines@);
                    places.push(i);
                    push_text(&mut engines, c.path.clone());
                    assert(picked(candidates@, places@) =~= had.push(*c));
                    assert(engine_paths(had.push(*c)) =~= engine_paths(had).push(c.path@));
                }
            }
        }
        i += 1;
    }
    assert(candidates@.take(i as int) =~= candidates@);
    (engines, searched)
}

/// The candidates at some places of a list.
pub open spec fn picked(cs: Seq<Candidate>, places: Seq<usize>) -> Seq<Candidate> {
    places.map_values(|p: usize| cs[p as int])
}

// ── Versions ─────────────────────────────────────────────────────────────────

/// The newest release of Stockfish.
#[derive(Debug)]
pub struct LatestRelease {
    pub version: String,
    pub url: String,
}

/// The release number in a Stockfish name.
pub open spec fn version_in(name: Seq<char>) -> Option<Seq<char>> {
    let prefix = "Stockfish "@;
    if text::starts_with(name, prefix) {
        let ws = text::words(name.skip(prefix.len() as int));
        if ws.len() > 0 && ws[0].len() > 0 && text::is_digit(ws[0][0]) {
            Some(ws[0])
        } else {
            None
        }
    } else {
        None
    }
}

/// The release number in a Stockfish name: "16" of "Stockfish 16". A development build
/// has none.
pub fn stockfish_version(name: &str) -> (r: Option<String>)
    ensures
        reporter::opt_text(r) == version_in(name@),
{
    let chars: Vec<char> = chars_of(name);
    let prefix: Vec<char> = chars_of("Stockfish ");
    if !has_prefix(&chars, &prefix) {
        return None;
    }
    let rest: Vec<char> = slice(&chars, prefix.len(), chars.len());
    assert(rest@ =~= name@.skip(prefix@.len() as int));
    let words: Vec<String> = split_words(&rest);
    let ghost ws = text::words(rest@);
    assert(text::texts(words@) == ws);
    assert(words@.len() == ws.len());
    if words.len() == 0 {
        return None;
    }
    assert(words@[0]@ == ws[0]);
    let first: Vec<char> = chars_of(words[0].as_str());
    if first.len() > 0 && '0' <= first[0] && first[0] <= '9' {
        Some(words[0].clone())
    } else {
        None
    }
}

/// The numbers of a version; a part that is no number counts as 0.
pub open spec fn parts_of(v: Seq<char>) -> Seq<nat> {
    text::split_on(v, '.').map_values(
        |p: Seq<char>|
            match text::parse_nat(p, u32::MAX as nat) {
                Some(n) => n,
                None => 0,
            },
    )
}

fn version_parts(v: &str) -> (out: Vec<u32>)
    ensures
        out@.len() == parts_of(v@).len(),
        forall|i: int| 0 <= i < out@.len() ==> #[trigger] out@[i] == parts_of(v@)[i],
{
    let pieces: Vec<String> = split_char(&chars_of(v), '.');
    let ghost all = text::split_on(v@, '.');
    assert(text::texts(pieces@) == all);
    assert(pieces@.len() == all.len());
    let mut out: Vec<u32> = Vec::new();
    let mut i: usize = 0;
    while i < pieces.len()
        invariant
            i <= pieces.len(),
            text::texts(pieces@) == all,
            all == text::split_on(v@, '.'),
            out@.len() == i,
            forall|k: int| 0 <= k < i ==> #[trigger] out@[k] == parts_of(v@)[k],
        decreases pieces.len() - i,
    {
        assert(pieces@[i as int]@ == all[i as int]);
        let n: u32 = match parse_u32(&chars_of(pieces[i].as_str())) {
            Some(n) => n,
            None => 0,
        };
        out.push(n);
        i += 1;
    }
    out
}

/// Whether a release is older than another: 16 than 17.1, and that than 19.
pub fn older(a: &str, b: &str) -> (r: bool)
    ensures
        r == sorting::precedes(parts_of(a@), parts_of(b@)),
{
    let x: Vec<u32> = version_parts(a);
    let y: Vec<u32> = version_parts(b);
    let ghost xs = parts_of(a@);
    let ghost ys = parts_of(b@);
    let n: usize = if x.len() > y.len() {
        x.len()
    } else {
        y.len()
    };
    let mut i: usize = 0;
    while i < n
        invariant
            i <= n,
            n >= x.len(),
            n >= y.len(),
            xs == parts_of(a@),
            ys == parts_of(b@),
            x@.len() == xs.len(),
            y@.len() == ys.len(),
            forall|k: int| 0 <= k < x@.len() ==> #[trigger] x@[k] == xs[k],
            forall|k: int| 0 <= k < y@.len() ==> #[trigger] y@[k] == ys[k],
            forall|k: int| 0 <= k < i ==> #[trigger] sorting::part(xs, k) == sorting::part(ys, k),
        decreases n - i,
    {
        let p: u32 = if i < x.len() {
            x[i]
        } else {
            0
        };
        let q: u32 = if i < y.len() {
            y[i]
        } else {
            0
        };
        assert(p == sorting::part(xs, i as int));
        assert(q == sorting::part(ys, i as int));
        if p != q {
            proof {
                if p < q {
                    assert(sorting::lower_at(xs, ys, i as int));
                } else {
                    assert forall|j: int| !#[trigger] sorting::lower_at(xs, ys, j) by {
                        if j > i {
                            assert(sorting::part(xs, i as int) != sorting::part(ys, i as int));
                        }
                    }
                }
            }
            return p < q;
        }
        i += 1;
    }
    proof {
        assert forall|j: int| !#[trigger] sorting::lower_at(xs, ys, j) by {
            if 0 <= j < n {
                assert(sorting::part(xs, j) == sorting::part(ys, j));
            }
        }
    }
    false
}

/// The version of a release by its tag.
pub fn release_version(tag: &str) -> (v: String)
    ensures
        v@ == (if text::starts_with(tag@, "sf_"@) {
            tag@.skip(3)
        } else {
            tag@
        }),
{
    let chars: Vec<char> = chars_of(tag);
    proof {
        reveal_strlit("sf_");
    }
    if has_prefix(&chars, &chars_of("sf_")) {
        let rest: Vec<char> = slice(&chars, 3, chars.len());
        assert(rest@ =~= tag@.skip(3));
        string_of(&rest)
    } else {
        tag.to_owned()
    }
}

/// Whether what is known of the newest release is still good, after so many seconds: for a
/// day, or for an hour where nothing could be learnt.
pub fn release_is_fresh(age_secs: u64, known: bool) -> (b: bool)
    ensures
        b == (age_secs < (if known {
            86400int
        } else {
            3600
        })),
{
    if known {
        age_secs < 86400
    } else {
        age_secs < 3600
    }
}

// ── Status ───────────────────────────────────────────────────────────────────

/// What a client is told of the engine.
#[derive(Debug)]
pub struct EngineStatus {
    pub available: bool,
    pub path: Option<String>,
    pub name: Option<String>,
    pub error: Option<String>,
    pub settings: EngineSettings,
    pub found: Vec<String>,
    pub searched: Vec<String>,
    pub settings_file: String,
    pub os: String,
    pub version: Option<String>,
    pub latest: Option<LatestRelease>,
    pub update_available: bool,
}

/// An engine that runs.
#[derive(Debug)]
pub struct RunningEngine {
    pub path: String,
    pub name: String,
}

/// Whether the newest release is worth asking for: for Stockfish, or while there is no
/// engine.
pub fn wants_latest(name: Option<&str>) -> (b: bool)
    ensures
        b == (name is None || text::starts_with(name->0@, "Stockfish"@)),
{
    match name {
        None => true,
        Some(n) => has_prefix(&chars_of(n), &chars_of("Stockfish")),
    }
}

/// Puts the status together.
pub fn engine_status(
    running: Option<RunningEngine>,
    settings: EngineSettings,
    found: Vec<String>,
    searched: Vec<String>,
    last_error: Option<String>,
    latest: Option<LatestRelease>,
    settings_file: String,
    os: String,
) -> (s: EngineStatus)
    ensures
        s.available == (running is Some),
        reporter::opt_text(s.path) == (match running {
            Some(r) => Some(r.path@),
            None => match settings.path {
                Some(p) => Some(p@),
                None => if found@.len() > 0 {
                    Some(found@[0]@)
                } else {
                    None
                },
            },
        }),
        reporter::opt_text(s.name) == (match running {
            Some(r) => Some(r.name@),
            None => None,
        }),
        s.error == (if running is Some {
            None
        } else {
            last_error
        }),
        s.settings == settings,
        s.found == found,
        s.searched == searched,
        s.settings_file == settings_file,
        s.os == os,
        reporter::opt_text(s.version) == (match running {
            Some(r) => version_in(r.name@),
            None => None,
        }),
        s.latest == latest,
        s.update_available == (running is Some && version_in(running->0.name@) is Some && latest
            is Some && sorting::precedes(
            parts_of(version_in(running->0.name@)->0),
            parts_of(latest->0.version@),
        )),
{
    let version: Option<String> = match &running {
        Some(r) => stockfish_version(r.name.as_str()),
        None => None,
    };
    let update_available: bool = match (&version, &latest) {
        (Some(v), Some(l)) => older(v.as_str(), l.version.as_str()),
        _ => false,
    };
    let path: Option<String> = match &running {
        Some(r) => Some(r.path.clone()),
        None => match &settings.path {
            Some(p) => Some(p.clone()),
            None => if found.len() > 0 {
                Some(found[0].clone())
            } else {
                None
            },
        },
    };
    let available: bool = running.is_some();
    let name: Option<String> = match running {
        Some(r) => Some(r.name),
        None => None,
    };
    EngineStatus {
        available,
        path,
        name,
        error: if available {
            None
        } else {
            last_error
        },
        settings,
        found,
        searched,
        settings_file,
        os,
        version,
        latest,
        update_available,
    }
}

// ── Talking to the engine ────────────────────────────────────────────────────

/// What a line of the introduction says.
#[derive(Debug)]
pub enum Greeting {
    /// The engine's name.
    Name(String),
    /// The end of the introduction.
    UciOk,
    /// The engine is ready.
    ReadyOk,
    Other,
}

/// Reads a line of the introduction.
pub fn read_greeting(line: &str) -> (g: Greeting)
    ensures
        ({
            let t = text::trim(line@);
            if text::starts_with(t, "id name "@) {
                g matches Greeting::Name(n) && n@ == t.skip(8)
            } else if t == "uciok"@ {
                g is UciOk
            } else if t == "readyok"@ {
                g is ReadyOk
            } else {
                g is Other
            }
        }),
{
    let t: String = trimmed(line);
    let chars: Vec<char> = chars_of(t.as_str());
    proof {
        reveal_strlit("id name ");
    }
    if has_prefix(&chars, &chars_of("id name ")) {
        let name: Vec<char> = slice(&chars, 8, chars.len());
        assert(name@ =~= t@.skip(8));
        Greeting::Name(string_of(&name))
    } else if same(t.as_str(), "uciok") {
        Greeting::UciOk
    } else if same(t.as_str(), "readyok") {
        Greeting::ReadyOk
    } else {
        Greeting::Other
    }
}

/// The name of an engine: the one it gave, else its path.
pub fn engine_name(name: &str, path: &str) -> (s: String)
    ensures
        s@ == (if name@.len() == 0 {
            path@
        } else {
            name@
        }),
{
    if name.is_empty() {
        path.to_owned()
    } else {
        name.to_owned()
    }
}

/// The commands that set an engine's options.
pub fn option_commands(settings: &EngineSettings) -> (out: Vec<String>)
    ensures
        text::texts(out@) == seq![
            "setoption name Threads value "@ + text::dec(settings.threads as nat),
            "setoption name Hash value "@ + text::dec(settings.hash_mb as nat),
            "isready"@,
        ],
{
    let mut threads: String = "setoption name Threads value ".to_owned();
    append_num(&mut threads, settings.threads as u64);
    let mut hash: String = "setoption name Hash value ".to_owned();
    append_num(&mut hash, settings.hash_mb as u64);
    let mut out: Vec<String> = Vec::new();
    out.push(threads);
    out.push(hash);
    out.push("isready".to_owned());
    assert(text::texts(out@) =~= seq![
        "setoption name Threads value "@ + text::dec(settings.threads as nat),
        "setoption name Hash value "@ + text::dec(settings.hash_mb as nat),
        "isready"@,
    ]);
    out
}

/// How a position came about: where the game started, and the moves from there, in UCI
/// notation.
#[derive(Debug)]
pub struct MoveHistory {
    pub start: String,
    pub moves: Vec<String>,
}

/// The command that sets a position up: with the moves to it where they are known, so
/// that the engine can tell a repetition.
pub open spec fn position_command(fen: Seq<char>, history: Option<MoveHistory>) -> Seq<char> {
    if history is Some && history->0.moves@.len() > 0 {
        "position fen "@ + history->0.start@ + " moves "@ + text::join(
            text::texts(history->0.moves@),
            " "@,
        )
    } else {
        "position fen "@ + fen
    }
}

/// The commands that start a search with so many lines.
pub fn search_commands(fen: &str, history: &Option<MoveHistory>, lines: u32) -> (out: Vec<String>)
    ensures
        text::texts(out@) == seq![
            "setoption name MultiPV value "@ + text::dec(clamped(lines as int, 1, 10) as nat),
            position_command(fen@, *history),
            "go infinite"@,
        ],
{
    let mut multi: String = "setoption name MultiPV value ".to_owned();
    append_num(&mut multi, clamp(lines, 1, 10) as u64);
    let mut position: String = "position fen ".to_owned();
    match history {
        Some(h) => {
            if h.moves.len() > 0 {
                position.append(h.start.as_str());
                position.append(" moves ");
                let list: String = joined(&h.moves, " ");
                position.append(list.as_str());
            } else {
                position.append(fen);
            }
        },
        None => {
            position.append(fen);
        },
    }
    let mut out: Vec<String> = Vec::new();
    out.push(multi);
    out.push(position);
    out.push("go infinite".to_owned());
    assert(text::texts(out@) =~= seq![
        "setoption name MultiPV value "@ + text::dec(clamped(lines as int, 1, 10) as nat),
        position_command(fen@, *history),
        "go infinite"@,
    ]);
    out
}

/// The parts of a FEN that matter for an evaluation: placement, side, castling and en
/// passant.
pub open spec fn key_words(fen: Seq<char>) -> Seq<Seq<char>> {
    let ws = text::words(fen);
    if ws.len() > 4 {
        ws.take(4)
    } else {
        ws
    }
}

/// What a position is remembered by; the move counters do not matter.
pub open spec fn key_of(fen: Seq<char>) -> Seq<char> {
    text::join(key_words(fen), " "@)
}

/// What a position is remembered by.
pub fn position_key(fen: &str) -> (k: String)
    ensures
        k@ == key_of(fen@),
{
    let words: Vec<String> = split_words(&chars_of(fen));
    let ghost ws = text::words(fen@);
    assert(text::texts(words@) == ws);
    assert(words@.len() == ws.len());
    let n: usize = if words.len() > 4 {
        4
    } else {
        words.len()
    };
    let mut first: Vec<String> = Vec::new();
    let mut i: usize = 0;
    assert(text::texts(first@) =~= ws.take(0));
    while i < n
        invariant
            i <= n <= words.len(),
            text::texts(words@) == ws,
            text::texts(first@) == ws.take(i as int),
        decreases n - i,
    {
        push_text(&mut first, words[i].clone());
        i += 1;
        assert(text::texts(first@) =~= ws.take(i as int));
    }
    assert(text::texts(first@) =~= key_words(fen@));
    joined(&first, " ")
}

/// Whether White is to move: unless the FEN says otherwise.
pub fn white_to_move(fen: &str) -> (b: bool)
    ensures
        b == !(text::words(fen@).len() > 1 && text::words(fen@)[1] == "b"@),
{
    let words: Vec<String> = split_words(&chars_of(fen));
    let ghost ws = text::words(fen@);
    assert(text::texts(words@) == ws);
    assert(words@.len() == ws.len());
    if words.len() > 1 {
        assert(words@[1]@ == ws[1]);
        !same(words[1].as_str(), "b")
    } else {
        true
    }
}

// ── What the engine says ─────────────────────────────────────────────────────

/// A line of analysis. Scores are White's.
#[derive(Debug)]
pub struct Line {
    pub multipv: u32,
    pub eval_cp: Option<i32>,
    pub mate: Option<i32>,
    pub pv_uci: Vec<String>,
}

pub struct LineView {
    pub multipv: u32,
    pub eval_cp: Option<i32>,
    pub mate: Option<i32>,
    pub pv_uci: Seq<Seq<char>>,
}

impl View for Line {
    type V = LineView;

    open spec fn view(&self) -> LineView {
        LineView {
            multipv: self.multipv,
            eval_cp: self.eval_cp,
            mate: self.mate,
            pv_uci: text::texts(self.pv_uci@),
        }
    }
}

impl Clone for Line {
    fn clone(&self) -> (r: Self)
        ensures
            r@ == self@,
    {
        Line {
            multipv: self.multipv,
            eval_cp: self.eval_cp,
            mate: self.mate,
            pv_uci: clone_all(&self.pv_uci),
        }
    }
}

pub open spec fn line_views(v: Seq<Line>) -> Seq<LineView> {
    v.map_values(|l: Line| l@)
}

fn clone_lines(v: &Vec<Line>) -> (r: Vec<Line>)
    ensures
        line_views(r@) == line_views(v@),
        r@.len() == v@.len(),
{
    let mut r: Vec<Line> = Vec::new();
    let mut i: usize = 0;
    while i < v.len()
        invariant
            i <= v.len(),
            line_views(r@) == line_views(v@).take(i as int),
        decreases v.len() - i,
    {
        let ghost had = line_views(r@);
        r.push(v[i].clone());
        i += 1;
        assert(line_views(r@) =~= had.push(v@[i - 1]@));
        assert(line_views(r@) =~= line_views(v@).take(i as int));
    }
    assert(line_views(r@) =~= line_views(v@));
    assert(line_views(r@).len() == r@.len());
    r
}

/// What an `info` line of the engine says.
#[derive(Debug)]
pub struct Info {
    pub depth: Option<u32>,
    pub nodes: Option<u64>,
    pub nps: Option<u64>,
    /// A line with an exact score, of the side to move.
    pub line: Option<Line>,
}

/// What the words of an `info` line have said so far.
pub struct InfoWords {
    pub depth: Option<u32>,
    pub nodes: Option<u64>,
    pub nps: Option<u64>,
    pub multipv: u32,
    pub cp: Option<i32>,
    pub mate: Option<i32>,
    pub bound: bool,
    pub pv: Seq<Seq<char>>,
}

/// The word at a place, if there is one.
pub open spec fn word(ts: Seq<Seq<char>>, i: int) -> Option<Seq<char>> {
    if 0 <= i < ts.len() {
        Some(ts[i])
    } else {
        None
    }
}

pub open spec fn word_u32(ts: Seq<Seq<char>>, i: int) -> Option<u32> {
    match word(ts, i) {
        Some(t) => match text::parse_nat(t, u32::MAX as nat) {
            Some(n) => Some(n as u32),
            None => None,
        },
        None => None,
    }
}

pub open spec fn word_u64(ts: Seq<Seq<char>>, i: int) -> Option<u64> {
    match word(ts, i) {
        Some(t) => match text::parse_nat(t, u64::MAX as nat) {
            Some(n) => Some(n as u64),
            None => None,
        },
        None => None,
    }
}

pub open spec fn word_i32(ts: Seq<Seq<char>>, i: int) -> Option<i32> {
    match word(ts, i) {
        Some(t) => match text::parse_int(t, 0x8000_0000, 0x7fff_ffff) {
            Some(n) => Some(n as i32),
            None => None,
        },
        None => None,
    }
}

pub open spec fn is_bound(t: Option<Seq<char>>) -> bool {
    t == Some("lowerbound"@) || t == Some("upperbound"@)
}

/// What the words from a place on add.
pub open spec fn info_words(ts: Seq<Seq<char>>, i: int, w: InfoWords) -> InfoWords
    decreases ts.len() + 4 - i,
{
    if i < 0 || i >= ts.len() {
        w
    } else if ts[i] == "depth"@ {
        info_words(ts, i + 2, InfoWords { depth: word_u32(ts, i + 1), ..w })
    } else if ts[i] == "nodes"@ {
        info_words(ts, i + 2, InfoWords { nodes: word_u64(ts, i + 1), ..w })
    } else if ts[i] == "nps"@ {
        info_words(ts, i + 2, InfoWords { nps: word_u64(ts, i + 1), ..w })
    } else if ts[i] == "multipv"@ {
        info_words(
            ts,
            i + 2,
            InfoWords {
                multipv: match word_u32(ts, i + 1) {
                    Some(n) => n,
                    None => 1,
                },
                ..w
            },
        )
    } else if ts[i] == "score"@ {
        let scored = if word(ts, i + 1) == Some("cp"@) {
            InfoWords { cp: word_i32(ts, i + 2), ..w }
        } else if word(ts, i + 1) == Some("mate"@) {
            InfoWords { mate: word_i32(ts, i + 2), ..w }
        } else {
            w
        };
        if is_bound(word(ts, i + 3)) {
            info_words(ts, i + 4, InfoWords { bound: true, ..scored })
        } else {
            info_words(ts, i + 3, scored)
        }
    } else if ts[i] == "pv"@ {
        InfoWords { pv: ts.skip(i + 1), ..w }
    } else if ts[i] == "string"@ {
        w
    } else {
        info_words(ts, i + 1, w)
    }
}

pub open spec fn no_words() -> InfoWords {
    InfoWords {
        depth: None,
        nodes: None,
        nps: None,
        multipv: 1,
        cp: None,
        mate: None,
        bound: false,
        pv: Seq::empty(),
    }
}

/// The line that an `info` line carries: one with moves and an exact score. A mate counts
/// more than a number.
pub open spec fn line_in(w: InfoWords) -> Option<LineView> {
    if w.pv.len() > 0 && !w.bound && (w.cp is Some || w.mate is Some) {
        Some(
            LineView {
                multipv: w.multipv,
                eval_cp: if w.mate is Some {
                    None
                } else {
                    w.cp
                },
                mate: w.mate,
                pv_uci: w.pv,
            },
        )
    } else {
        None
    }
}

/// What an `info` line says; nothing if it is none.
pub open spec fn info_in(t: Seq<char>) -> Option<InfoWords> {
    let ws = text::words(t);
    if ws.len() > 0 && ws[0] == "info"@ {
        Some(info_words(ws.skip(1), 0, no_words()))
    } else {
        None
    }
}

pub open spec fn opt_line(l: Option<Line>) -> Option<LineView> {
    match l {
        Some(l) => Some(l@),
        None => None,
    }
}

/// The word so many places behind another.
fn word_behind<'a>(ts: &'a Vec<String>, i: usize, k: usize) -> (r: Option<&'a str>)
    requires
        i < ts.len(),
    ensures
        match r {
            Some(t) => word(text::texts(ts@), i + k) == Some(t@),
            None => word(text::texts(ts@), i + k) is None,
        },
{
    if k < ts.len() - i {
        assert(text::texts(ts@)[i + k] == ts@[i + k]@);
        Some(ts[i + k].as_str())
    } else {
        None
    }
}

fn read_u32(ts: &Vec<String>, i: usize, k: usize) -> (r: Option<u32>)
    requires
        i < ts.len(),
    ensures
        r == word_u32(text::texts(ts@), i + k),
{
    match word_behind(ts, i, k) {
        Some(t) => parse_u32(&chars_of(t)),
        None => None,
    }
}

fn read_u64(ts: &Vec<String>, i: usize, k: usize) -> (r: Option<u64>)
    requires
        i < ts.len(),
    ensures
        r == word_u64(text::texts(ts@), i + k),
{
    match word_behind(ts, i, k) {
        Some(t) => parse_u64(&chars_of(t)),
        None => None,
    }
}

fn read_i32(ts: &Vec<String>, i: usize, k: usize) -> (r: Option<i32>)
    requires
        i < ts.len(),
    ensures
        r == word_i32(text::texts(ts@), i + k),
{
    match word_behind(ts, i, k) {
        Some(t) => parse_i32(&chars_of(t)),
        None => None,
    }
}

fn word_is(ts: &Vec<String>, i: usize, k: usize, w: &str) -> (b: bool)
    requires
        i < ts.len(),
    ensures
        b == (word(text::texts(ts@), i + k) == Some(w@)),
{
    match word_behind(ts, i, k) {
        Some(t) => same(t, w),
        None => false,
    }
}

/// A place so many words on, or the end.
fn ahead(n: usize, i: usize, k: usize) -> (j: usize)
    requires
        i < n,
        k > 0,
    ensures
        i < j <= n,
        j == i + k || (j == n && i + k >= n),
{
    if k < n - i {
        i + k
    } else {
        n
    }
}

/// Reads an `info` line.
pub fn parse_info(t: &str) -> (r: Option<Info>)
    ensures
        match info_in(t@) {
            Some(w) => r matches Some(i) && i.depth == w.depth && i.nodes == w.nodes && i.nps
                == w.nps && opt_line(i.line) == line_in(w),
            None => r is None,
        },
{
    let mut toks: Vec<String> = split_words(&chars_of(t));
    let ghost ws = text::words(t@);
    assert(text::texts(toks@) == ws);
    assert(toks@.len() == ws.len());
    if toks.len() == 0 {
        return None;
    }
    assert(toks@[0]@ == ws[0]);
    if !same(toks[0].as_str(), "info") {
        return None;
    }
    toks.remove(0);
    let ghost ts = ws.skip(1);
    assert(text::texts(toks@) =~= ts);
    let mut depth: Option<u32> = None;
    let mut nodes: Option<u64> = None;
    let mut nps: Option<u64> = None;
    let mut multipv: u32 = 1;
    let mut cp: Option<i32> = None;
    let mut mate: Option<i32> = None;
    let mut bound: bool = false;
    let mut pv: Vec<String> = Vec::new();
    let mut i: usize = 0;
    let ghost all = info_words(ts, 0, no_words());
    let ghost mut w = no_words();
    assert(text::texts(pv@) =~= Seq::empty());
    let mut over: bool = false;
    while i < toks.len() && !over
        invariant
            toks@.len() == ts.len(),
            text::texts(toks@) == ts,
            i <= ts.len(),
            w == (InfoWords { depth, nodes, nps, multipv, cp, mate, bound, pv: text::texts(pv@) }),
            if over {
                all == w
            } else {
                all == info_words(ts, i as int, w)
            },
        decreases toks.len() - i + (if over {
            0int
        } else {
            1
        }),
    {
        assert(ts[i as int] == toks@[i as int]@);
        if word_is(&toks, i, 0, "depth") {
            depth = read_u32(&toks, i, 1);
            i = ahead(toks.len(), i, 2);
        } else if word_is(&toks, i, 0, "nodes") {
            nodes = read_u64(&toks, i, 1);
            i = ahead(toks.len(), i, 2);
        } else if word_is(&toks, i, 0, "nps") {
            nps = read_u64(&toks, i, 1);
            i = ahead(toks.len(), i, 2);
        } else if word_is(&toks, i, 0, "multipv") {
            multipv =
            match read_u32(&toks, i, 1) {
                Some(n) => n,
                None => 1,
            };
            i = ahead(toks.len(), i, 2);
        } else if word_is(&toks, i, 0, "score") {
            if word_is(&toks, i, 1, "cp") {
                cp = read_i32(&toks, i, 2);
            } else if word_is(&toks, i, 1, "mate") {
                mate = read_i32(&toks, i, 2);
            }
            if word_is(&toks, i, 3, "lowerbound") || word_is(&toks, i, 3, "upperbound") {
                bound = true;
                i = ahead(toks.len(), i, 4);
            } else {
                i = ahead(toks.len(), i, 3);
            }
        } else if word_is(&toks, i, 0, "pv") {
            let mut k: usize = i + 1;
            let mut rest: Vec<String> = Vec::new();
            assert(text::texts(rest@) =~= ts.subrange(i + 1, i + 1));
            while k < toks.len()
                invariant
                    i < toks.len(),
                    i + 1 <= k <= toks.len(),
                    toks@.len() == ts.len(),
                    text::texts(toks@) == ts,
                    text::texts(rest@) == ts.subrange(i + 1, k as int),
                decreases toks.len() - k,
            {
                push_text(&mut rest, toks[k].clone());
                k += 1;
                assert(text::texts(rest@) =~= ts.subrange(i + 1, k as int));
            }
            assert(ts.subrange(i + 1, k as int) =~= ts.skip(i + 1));
            pv = rest;
            over = true;
        } else if word_is(&toks, i, 0, "string") {
            over = true;
        } else {
            i += 1;
        }
        proof {
            reveal_with_fuel(info_words, 2);
            w = InfoWords { depth, nodes, nps, multipv, cp, mate, bound, pv: text::texts(pv@) };
        }
    }
    assert(all == w);
    assert(text::texts(pv@).len() == pv@.len());
    let line: Option<Line> = if pv.len() > 0 && !bound && (cp.is_some() || mate.is_some()) {
        Some(
            Line {
                multipv,
                eval_cp: if mate.is_some() {
                    None
                } else {
                    cp
                },
                mate,
                pv_uci: pv,
            },
        )
    } else {
        None
    };
    Some(Info { depth, nodes, nps, line })
}

// ── A search ─────────────────────────────────────────────────────────────────

/// How far a search has come.
#[derive(Debug)]
pub struct Snapshot {
    pub gen: u64,
    pub depth: u32,
    pub nodes: u64,
    pub nps: u64,
    pub lines: Vec<Line>,
    /// The search is over.
    pub done: bool,
    /// Remembered from an earlier search.
    pub cached: bool,
}

pub struct SnapshotView {
    pub gen: u64,
    pub depth: u32,
    pub nodes: u64,
    pub nps: u64,
    pub lines: Seq<LineView>,
    pub done: bool,
    pub cached: bool,
}

impl View for Snapshot {
    type V = SnapshotView;

    open spec fn view(&self) -> SnapshotView {
        SnapshotView {
            gen: self.gen,
            depth: self.depth,
            nodes: self.nodes,
            nps: self.nps,
            lines: line_views(self.lines@),
            done: self.done,
            cached: self.cached,
        }
    }
}

impl Clone for Snapshot {
    fn clone(&self) -> (r: Self)
        ensures
            r@ == self@,
    {
        Snapshot {
            gen: self.gen,
            depth: self.depth,
            nodes: self.nodes,
            nps: self.nps,
            lines: clone_lines(&self.lines),
            done: self.done,
            cached: self.cached,
        }
    }
}

/// The search that is under way.
#[derive(Debug)]
pub struct Search {
    pub gen: u64,
    /// What the position is remembered by, with the engine's name.
    pub key: String,
    pub white_to_move: bool,
    pub searching: bool,
    pub depth: u32,
    pub nodes: u64,
    pub nps: u64,
    /// The best lines, by their number.
    pub lines: Vec<Line>,
}

pub struct SearchView {
    pub gen: u64,
    pub key: Seq<char>,
    pub white_to_move: bool,
    pub searching: bool,
    pub depth: u32,
    pub nodes: u64,
    pub nps: u64,
    pub lines: Seq<LineView>,
}

impl View for Search {
    type V = SearchView;

    open spec fn view(&self) -> SearchView {
        SearchView {
            gen: self.gen,
            key: self.key@,
            white_to_move: self.white_to_move,
            searching: self.searching,
            depth: self.depth,
            nodes: self.nodes,
            nps: self.nps,
            lines: line_views(self.lines@),
        }
    }
}

/// Lines stand in the order of their numbers, each number once.
pub open spec fn in_order(lines: Seq<LineView>) -> bool {
    forall|i: int, j: int|
        0 <= i < j < lines.len() ==> (#[trigger] lines[i]).multipv < (#[trigger] lines[j]).multipv
}

/// The lines with one more, which takes the place of one with its number.
pub open spec fn with_line(lines: Seq<LineView>, l: LineView) -> Seq<LineView>
    decreases lines.len(),
{
    if lines.len() == 0 {
        seq![l]
    } else if lines.last().multipv < l.multipv {
        lines.push(l)
    } else if lines.last().multipv == l.multipv {
        lines.drop_last().push(l)
    } else {
        with_line(lines.drop_last(), l).push(lines.last())
    }
}

/// A score from the other side.
pub open spec fn turned(n: Option<i32>) -> Option<i32> {
    match n {
        Some(n) => Some(if n == i32::MIN {
            n
        } else {
            (-n) as i32
        }),
        None => None,
    }
}

/// A line with White's scores.
pub open spec fn for_white(l: LineView, white_to_move: bool) -> LineView {
    if white_to_move {
        l
    } else {
        LineView { eval_cp: turned(l.eval_cp), mate: turned(l.mate), ..l }
    }
}

/// What a snapshot of a search shows.
pub open spec fn shown(s: SearchView) -> SnapshotView {
    SnapshotView {
        gen: s.gen,
        depth: s.depth,
        nodes: s.nodes,
        nps: s.nps,
        lines: s.lines,
        done: !s.searching,
        cached: false,
    }
}

/// The search after a line from the engine.
pub open spec fn after_line(s: SearchView, line: Seq<char>) -> SearchView {
    let t = text::trim(line);
    if !s.searching {
        s
    } else if text::starts_with(t, "bestmove"@) {
        SearchView { searching: false, ..s }
    } else {
        match info_in(t) {
            Some(w) => SearchView {
                depth: match w.depth {
                    Some(d) => if d > s.depth {
                        d
                    } else {
                        s.depth
                    },
                    None => s.depth,
                },
                nodes: match w.nodes {
                    Some(n) => n,
                    None => s.nodes,
                },
                nps: match w.nps {
                    Some(n) => n,
                    None => s.nps,
                },
                lines: match line_in(w) {
                    Some(l) => with_line(s.lines, for_white(l, s.white_to_move)),
                    None => s.lines,
                },
                ..s
            },
            None => s,
        }
    }
}

/// Whether a line from the engine is worth a snapshot: the end of the search, or a line of
/// analysis.
pub open spec fn is_news(s: SearchView, line: Seq<char>) -> bool {
    let t = text::trim(line);
    s.searching && (text::starts_with(t, "bestmove"@) || (info_in(t) is Some && line_in(
        info_in(t)->0,
    ) is Some))
}

fn turn(n: Option<i32>) -> (r: Option<i32>)
    ensures
        r == turned(n),
{
    match n {
        Some(n) => Some(
            if n == i32::MIN {
                n
            } else {
                -n
            },
        ),
        None => None,
    }
}

proof fn lemma_with_line_ordered(lines: Seq<LineView>, l: LineView)
    requires
        in_order(lines),
    ensures
        in_order(with_line(lines, l)),
        forall|i: int|
            0 <= i < with_line(lines, l).len() ==> (#[trigger] with_line(lines, l)[i]).multipv
                == l.multipv || exists|j: int|
                0 <= j < lines.len() && (#[trigger] lines[j]).multipv == with_line(
                    lines,
                    l,
                )[i].multipv,
    decreases lines.len(),
{
    if lines.len() > 0 && lines.last().multipv > l.multipv {
        let front = lines.drop_last();
        assert(in_order(front));
        lemma_with_line_ordered(front, l);
        let w = with_line(front, l);
        let all = with_line(lines, l);
        assert(all == w.push(lines.last()));
        assert forall|i: int| 0 <= i < w.len() implies (#[trigger] w[i]).multipv
            < lines.last().multipv by {
            if w[i].multipv != l.multipv {
                let j = choose|j: int|
                    0 <= j < front.len() && (#[trigger] front[j]).multipv == w[i].multipv;
                assert(front[j] == lines[j]);
            }
        }
        assert forall|i: int| 0 <= i < all.len() implies (#[trigger] all[i]).multipv == l.multipv
            || exists|j: int|
            0 <= j < lines.len() && (#[trigger] lines[j]).multipv == all[i].multipv by {
            if i < w.len() {
                assert(all[i] == w[i]);
                if w[i].multipv != l.multipv {
                    let j = choose|j: int|
                        0 <= j < front.len() && (#[trigger] front[j]).multipv == w[i].multipv;
                    assert(lines[j].multipv == all[i].multipv);
                }
            } else {
                assert(lines[lines.len() - 1].multipv == all[i].multipv);
            }
        }
    } else if lines.len() > 0 && lines.last().multipv == l.multipv {
        let front = lines.drop_last();
        let all = front.push(l);
        assert(with_line(lines, l) == all);
        assert forall|i: int| 0 <= i < all.len() implies (#[trigger] all[i]).multipv == l.multipv
            || exists|j: int|
            0 <= j < lines.len() && (#[trigger] lines[j]).multipv == all[i].multipv by {
            if i < front.len() {
                assert(lines[i].multipv == all[i].multipv);
            }
        }
    } else if lines.len() > 0 {
        let all = lines.push(l);
        assert forall|i: int| 0 <= i < all.len() implies (#[trigger] all[i]).multipv == l.multipv
            || exists|j: int|
            0 <= j < lines.len() && (#[trigger] lines[j]).multipv == all[i].multipv by {
            if i < lines.len() {
                assert(lines[i].multipv == all[i].multipv);
            }
        }
    }
}

fn insert_line(lines: &mut Vec<Line>, l: Line)
    ensures
        line_views(final(lines)@) == with_line(line_views(old(lines)@), l@),
{
    let n: usize = lines.len();
    let ghost before = line_views(lines@);
    assert(before.len() == n);
    let number: u32 = l.multipv;
    if n == 0 || lines[n - 1].multipv < number {
        lines.push(l);
        assert(line_views(lines@) =~= before.push(l@));
        if n > 0 {
            assert(before.last() == before[n - 1]);
        } else {
            assert(line_views(lines@) =~= seq![l@]);
        }
        return;
    }
    assert(before.last() == before[n - 1]);
    if lines[n - 1].multipv == number {
        lines.set(n - 1, l);
        assert(line_views(lines@) =~= before.drop_last().push(l@));
        return;
    }
    match lines.pop() {
        Some(last) => {
            assert(line_views(lines@) =~= before.drop_last());
            assert(last@ == before.last());
            insert_line_before(lines, l, last);
        },
        None => {},
    }
}

fn insert_line_before(lines: &mut Vec<Line>, l: Line, last: Line)
    ensures
        line_views(final(lines)@) == with_line(line_views(old(lines)@), l@).push(last@),
{
    let mut behind: Vec<Line> = Vec::new();
    behind.push(last);
    let ghost start = line_views(lines@);
    let ghost mut front = start;
    while lines.len() > 0 && lines[lines.len() - 1].multipv > l.multipv
        invariant
            front == line_views(lines@),
            behind@.len() > 0,
            start + line_views(behind@).reverse().skip(0) == start + line_views(behind@).reverse(),
            with_line(start, l@).push(last@) == with_line(front, l@) + line_views(
                behind@,
            ).reverse(),
        decreases lines.len(),
    {
        let ghost old_front = front;
        let ghost old_behind = line_views(behind@);
        assert(front.len() == lines@.len());
        match lines.pop() {
            Some(x) => {
                proof {
                    front = line_views(lines@);
                    assert(front =~= old_front.drop_last());
                    assert(x@ == old_front.last());
                }
                behind.push(x);
                proof {
                    assert(line_views(behind@) =~= old_behind.push(x@));
                    assert(old_behind.push(x@).reverse() =~= seq![x@] + old_behind.reverse());
                    assert(with_line(old_front, l@) == with_line(front, l@).push(x@));
                    assert(with_line(front, l@).push(x@) + old_behind.reverse() =~= with_line(
                        front,
                        l@,
                    ) + (seq![x@] + old_behind.reverse()));
                }
            },
            None => {},
        }
    }
    assert(front.len() == lines@.len());
    if lines.len() > 0 && lines[lines.len() - 1].multipv == l.multipv {
        assert(front.last() == front[front.len() - 1]);
        lines.pop();
        assert(line_views(lines@) =~= front.drop_last());
    } else if lines.len() > 0 {
        assert(front.last() == front[front.len() - 1]);
    }
    let ghost kept = line_views(lines@);
    lines.push(l);
    assert(line_views(lines@) =~= kept.push(l@));
    assert(line_views(lines@) =~= with_line(front, l@));
    let ghost base = line_views(lines@);
    let ghost tail = line_views(behind@).reverse();
    while behind.len() > 0
        invariant
            line_views(lines@) + line_views(behind@).reverse() == base + tail,
        decreases behind.len(),
    {
        let ghost b = line_views(behind@);
        let ghost f = line_views(lines@);
        assert(b.len() == behind@.len());
        match behind.pop() {
            Some(x) => {
                assert(line_views(behind@) =~= b.drop_last());
                assert(x@ == b.last());
                lines.push(x);
                assert(line_views(lines@) =~= f.push(x@));
                assert(b.reverse() =~= seq![x@] + b.drop_last().reverse());
                assert(f.push(x@) + b.drop_last().reverse() =~= f + b.reverse());
            },
            None => {},
        }
    }
    assert(line_views(behind@).reverse() =~= Seq::empty());
    assert(line_views(lines@) + Seq::<LineView>::empty() =~= line_views(lines@));
}

impl Search {
    /// Nothing is searched yet.
    pub fn idle() -> (s: Self)
        ensures
            s@ == (SearchView {
                gen: 0,
                key: ""@,
                white_to_move: true,
                searching: false,
                depth: 0,
                nodes: 0,
                nps: 0,
                lines: Seq::empty(),
            }),
    {
        let s = Search {
            gen: 0,
            key: "".to_owned(),
            white_to_move: true,
            searching: false,
            depth: 0,
            nodes: 0,
            nps: 0,
            lines: Vec::new(),
        };
        assert(line_views(s.lines@) =~= Seq::empty());
        s
    }

    /// A new search of a position by an engine, with a number of its own.
    pub fn start(gen: u64, engine: &str, fen: &str) -> (s: Self)
        ensures
            s@ == (SearchView {
                gen,
                key: engine@ + "|"@ + key_of(fen@),
                white_to_move: !(text::words(fen@).len() > 1 && text::words(fen@)[1] == "b"@),
                searching: true,
                depth: 0,
                nodes: 0,
                nps: 0,
                lines: Seq::empty(),
            }),
    {
        let mut key: String = engine.to_owned();
        key.append("|");
        let position: String = position_key(fen);
        key.append(position.as_str());
        let s = Search {
            gen,
            key,
            white_to_move: white_to_move(fen),
            searching: true,
            depth: 0,
            nodes: 0,
            nps: 0,
            lines: Vec::new(),
        };
        assert(line_views(s.lines@) =~= Seq::empty());
        s
    }

    pub fn snapshot(&self) -> (s: Snapshot)
        ensures
            s@ == shown(self@),
    {
        Snapshot {
            gen: self.gen,
            depth: self.depth,
            nodes: self.nodes,
            nps: self.nps,
            lines: clone_lines(&self.lines),
            done: !self.searching,
            cached: false,
        }
    }

    /// Whether a search is still to be stopped: it is the one under way.
    pub fn is_current(&self, gen: u64) -> (b: bool)
        ensures
            b == (self.gen == gen && self.searching),
    {
        self.gen == gen && self.searching
    }

    /// Takes a line from the engine; gives a snapshot where it is worth one.
    pub fn take_line(&mut self, line: &str) -> (r: Option<Snapshot>)
        ensures
            final(self)@ == after_line(old(self)@, line@),
            if is_news(old(self)@, line@) {
                r matches Some(s) && s@ == shown(final(self)@)
            } else {
                r is None
            },
    {
        let t: String = trimmed(line);
        if has_prefix(&chars_of(t.as_str()), &chars_of("bestmove")) {
            if !self.searching {
                return None;
            }
            self.searching = false;
            return Some(self.snapshot());
        }
        match parse_info(t.as_str()) {
            None => None,
            Some(info) => {
                if !self.searching {
                    return None;
                }
                if let Some(d) = info.depth {
                    if d > self.depth {
                        self.depth = d;
                    }
                }
                if let Some(n) = info.nodes {
                    self.nodes = n;
                }
                if let Some(n) = info.nps {
                    self.nps = n;
                }
                match info.line {
                    Some(l) => {
                        let mine: Line = if self.white_to_move {
                            l
                        } else {
                            Line {
                                multipv: l.multipv,
                                eval_cp: turn(l.eval_cp),
                                mate: turn(l.mate),
                                pv_uci: l.pv_uci,
                            }
                        };
                        insert_line(&mut self.lines, mine);
                        Some(self.snapshot())
                    },
                    None => None,
                }
            },
        }
    }

    /// The engine is gone: whatever was searched is over.
    pub fn engine_gone(&mut self) -> (s: Snapshot)
        ensures
            final(self)@ == (SearchView { searching: false, ..old(self)@ }),
            s@ == shown(final(self)@),
    {
        self.searching = false;
        self.snapshot()
    }
}

/// Whatever the engine says, the lines stay in the order of their numbers, each number
/// once.
pub proof fn law_lines_stay_in_order(s: SearchView, line: Seq<char>)
    requires
        in_order(s.lines),
    ensures
        in_order(after_line(s, line).lines),
{
    let t = text::trim(line);
    if info_in(t) is Some && line_in(info_in(t)->0) is Some {
        lemma_with_line_ordered(s.lines, for_white(line_in(info_in(t)->0)->0, s.white_to_move));
    }
}

/// A search never gets shallower, and once it is over nothing changes it.
pub proof fn law_searches_deepen(s: SearchView, line: Seq<char>)
    ensures
        after_line(s, line).depth >= s.depth,
        !s.searching ==> after_line(s, line) == s,
        after_line(s, line).gen == s.gen,
        after_line(s, line).key == s.key,
{
}

// ── Remembering ──────────────────────────────────────────────────────────────

/// The deepest result for each position, while the server runs. The oldest go first.
pub struct Remembered {
    pub by_key: StringHashMap<Snapshot>,
    pub order: VecDeque<String>,
}

/// Whether a result is better than what is remembered: deeper, or as deep with more lines.
pub open spec fn is_better(s: SnapshotView, than: SnapshotView) -> bool {
    s.depth > than.depth || (s.depth == than.depth && s.lines.len() > than.lines.len())
}

/// A result as it is remembered.
pub open spec fn kept(s: SnapshotView) -> SnapshotView {
    SnapshotView { cached: true, done: true, ..s }
}

/// What is remembered, and since when.
pub struct Memory {
    pub results: Map<Seq<char>, SnapshotView>,
    pub order: Seq<Seq<char>>,
}

/// What is remembered once a result was offered.
pub open spec fn after_offer(m: Memory, key: Seq<char>, s: SnapshotView) -> Memory {
    if s.lines.len() == 0 || (m.results.contains_key(key) && !is_better(s, m.results[key])) {
        m
    } else if m.results.contains_key(key) {
        Memory { results: m.results.insert(key, kept(s)), ..m }
    } else if m.order.len() + 1 > REMEMBER_MAX {
        Memory {
            results: m.results.remove(m.order.push(key)[0]).insert(key, kept(s)),
            order: m.order.push(key).skip(1),
        }
    } else {
        Memory { results: m.results.insert(key, kept(s)), order: m.order.push(key) }
    }
}

/// What is remembered is noted in order, each position once, and never too much.
pub open spec fn memory_ok(m: Memory) -> bool {
    &&& m.order.len() <= REMEMBER_MAX
    &&& m.order.no_duplicates()
    &&& forall|k: Seq<char>| #[trigger] m.results.contains_key(k) <==> m.order.contains(k)
}

impl Remembered {
    pub open spec fn memory(&self) -> Memory {
        Memory {
            results: self.by_key@.map_values(|s: Snapshot| s@),
            order: self.order@.map_values(|s: String| s@),
        }
    }

    pub fn new() -> (r: Self)
        ensures
            r.memory() == (Memory { results: Map::empty(), order: Seq::empty() }),
    {
        let r = Remembered { by_key: StringHashMap::new(), order: VecDeque::new() };
        assert(r.memory().results =~= Map::empty());
        assert(r.memory().order =~= Seq::empty());
        r
    }

    /// The result that is remembered for a position.
    pub fn get(&self, key: &str) -> (r: Option<Snapshot>)
        ensures
            match r {
                Some(s) => self.memory().results.contains_key(key@) && s@
                    == self.memory().results[key@],
                None => !self.memory().results.contains_key(key@),
            },
    {
        match self.by_key.get(key) {
            Some(s) => Some(s.clone()),
            None => None,
        }
    }

    /// Keeps a result if it is better than what is remembered for the position.
    pub fn offer(&mut self, key: &str, s: &Snapshot)
        ensures
            final(self).memory() == after_offer(old(self).memory(), key@, s@),
    {
        assert(line_views(s.lines@).len() == s.lines@.len());
        if s.lines.len() == 0 {
            return;
        }
        let ghost before = self.memory();
        let known: bool = match self.by_key.get(key) {
            Some(old) => {
                assert(line_views(old.lines@).len() == old.lines@.len());
                assert(before.results[key@] == old@);
                if old.depth > s.depth || (old.depth == s.depth && old.lines.len()
                    >= s.lines.len()) {
                    return;
                }
                true
            },
            None => false,
        };
        if !known {
            let ghost had = self.order@;
            self.order.push_back(key.to_owned());
            let ghost longer = self.order@;
            assert(self.memory().order =~= before.order.push(key@));
            if self.order.len() > REMEMBER_MAX {
                if let Some(k) = self.order.pop_front() {
                    self.by_key.remove(k.as_str());
                    assert(self.memory().order =~= before.order.push(key@).skip(1));
                    assert(k@ == before.order.push(key@)[0]);
                    assert(self.memory().results =~= before.results.remove(k@));
                }
            }
        }
        let ghost mid = self.memory();
        let keep = Snapshot {
            gen: s.gen,
            depth: s.depth,
            nodes: s.nodes,
            nps: s.nps,
            lines: clone_lines(&s.lines),
            done: true,
            cached: true,
        };
        self.by_key.insert(key.to_owned(), keep);
        assert(self.memory().results =~= mid.results.insert(key@, kept(s@)));
        assert(self.memory().order =~= mid.order);
        assert(self.memory() =~= after_offer(before, key@, s@));
    }
}

/// The memory stays in order, and never grows beyond its bound.
pub proof fn law_memory_is_bounded(m: Memory, key: Seq<char>, s: SnapshotView)
    requires
        memory_ok(m),
    ensures
        memory_ok(after_offer(m, key, s)),
{
    let n = after_offer(m, key, s);
    if s.lines.len() > 0 && !m.results.contains_key(key) {
        let longer = m.order.push(key);
        assert(!m.order.contains(key));
        assert forall|k: Seq<char>| #[trigger] n.results.contains_key(k) <==> n.order.contains(
            k,
        ) by {
            if n.order.contains(k) {
                let i = choose|i: int| 0 <= i < n.order.len() && n.order[i] == k;
                let off: int = if longer.len() > REMEMBER_MAX {
                    1
                } else {
                    0
                };
                assert(longer[i + off] == k);
                if i + off < m.order.len() {
                    assert(m.order[i + off] == k);
                    assert(m.order.contains(k));
                }
            }
            if n.results.contains_key(k) {
                if k == key {
                    assert(longer[m.order.len() as int] == key);
                    assert(n.order[n.order.len() - 1] == key);
                } else {
                    assert(m.order.contains(k));
                    let i = choose|i: int| 0 <= i < m.order.len() && m.order[i] == k;
                    if longer.len() > REMEMBER_MAX {
                        assert(i > 0);
                        assert(n.order[i - 1] == k);
                    } else {
                        assert(n.order[i] == k);
                    }
                }
            }
        }
    }
}

/// What is remembered of a position only gets better, as long as it is remembered.
pub proof fn law_results_only_get_better(m: Memory, key: Seq<char>, s: SnapshotView, other: Seq<char>)
    requires
        m.results.contains_key(other),
        after_offer(m, key, s).results.contains_key(other),
    ensures
        ({
            let new = after_offer(m, key, s).results[other];
            new == m.results[other] || is_better(new, m.results[other])
        }),
{
}

// ── Positions for the engine ─────────────────────────────────────────────────

/// A FEN that an engine can be given: read and written back, so that nothing but a
/// position gets through.
pub fn clean_fen(fen: &str) -> (r: Option<String>)
    ensures
        match chess::position_of(text::trim(fen@)) {
            Some(p) => r matches Some(s) && s@ == p.fen,
            None => r is None,
        },
{
    let t: String = trimmed(fen);
    match read_position(t.as_str()) {
        Some(p) => Some(p.fen),
        None => None,
    }
}

pub open spec fn is_mark(c: char) -> bool {
    c == '+' || c == '#' || c == '!' || c == '?'
}

pub open spec fn marks() -> spec_fn(char) -> bool {
    |c: char| is_mark(c)
}

/// A move without white space round it, and without the marks behind it.
pub open spec fn bare_san(s: Seq<char>) -> Seq<char> {
    text::cut_end(text::trim(s), marks())
}

fn strip_marks(s: &str) -> (out: String)
    ensures
        out@ == bare_san(s@),
{
    let t: String = trimmed(s);
    let chars: Vec<char> = chars_of(t.as_str());
    let mut n: usize = chars.len();
    while n > 0 && (chars[n - 1] == '+' || chars[n - 1] == '#' || chars[n - 1] == '!' || chars[n
        - 1] == '?')
        invariant
            n <= chars.len(),
            forall|k: int| n <= k < chars.len() ==> is_mark(#[trigger] chars@[k]),
        decreases n,
    {
        n -= 1;
    }
    proof {
        text::lemma_cut_end_is(chars@, marks(), n as int);
        assert(chars@.subrange(0, n as int) =~= chars@.take(n as int));
    }
    string_of(&slice(&chars, 0, n))
}

/// Where some moves lead from a position, and what they are in UCI notation; nothing if
/// one of them is not legal.
pub open spec fn walked(fen: Seq<char>, sans: Seq<Seq<char>>) -> Option<(Seq<char>, Seq<Seq<char>>)>
    decreases sans.len(),
{
    if sans.len() == 0 {
        Some((fen, Seq::empty()))
    } else {
        match walked(fen, sans.drop_last()) {
            None => None,
            Some((at, moves)) => match chess::san_in(at, bare_san(sans.last())) {
                None => None,
                Some(m) => match chess::played_in(at, m) {
                    None => None,
                    Some(p) => Some((p.next.fen, moves.push(m))),
                },
            },
        }
    }
}

/// The history of a position, if the moves lead to it from the start.
pub open spec fn history_of(start: Seq<char>, sans: Seq<Seq<char>>, fen: Seq<char>) -> Option<
    (Seq<char>, Seq<Seq<char>>),
> {
    if sans.len() == 0 || sans.len() > 1000 {
        None
    } else {
        match chess::position_of(text::trim(start)) {
            None => None,
            Some(p) => match walked(p.fen, sans) {
                None => None,
                Some((at, moves)) => if key_of(at) == key_of(fen) {
                    Some((p.fen, moves))
                } else {
                    None
                },
            },
        }
    }
}

proof fn lemma_walk_fails(fen: Seq<char>, sans: Seq<Seq<char>>, n: int)
    requires
        0 <= n <= sans.len(),
        walked(fen, sans.take(n)) is None,
    ensures
        walked(fen, sans) is None,
    decreases sans.len(),
{
    if n < sans.len() {
        assert(sans.drop_last().take(n) =~= sans.take(n));
        lemma_walk_fails(fen, sans.drop_last(), n);
    } else {
        assert(sans.take(n) =~= sans);
    }
}

/// Whether the moves end on the position they are said to lead to.
pub fn history_reaching(start: String, moves: Vec<String>, reached: &str, fen: &str) -> (r: Option<
    MoveHistory,
>)
    ensures
        if key_of(reached@) == key_of(fen@) {
            r matches Some(h) && h.start == start && h.moves == moves
        } else {
            r is None
        },
{
    let a: String = position_key(reached);
    let b: String = position_key(fen);
    if same(a.as_str(), b.as_str()) {
        Some(MoveHistory { start, moves })
    } else {
        None
    }
}

/// Replays moves from a starting position, and gives the start and the moves in UCI
/// notation, but only if they end on the position. Anything that does not add up is
/// dropped, and the engine gets the bare position.
pub fn history_to_uci(start: &str, sans: &[String], fen: &str) -> (r: Option<MoveHistory>)
    ensures
        match history_of(start@, text::texts(sans@), fen@) {
            Some((s, moves)) => r matches Some(h) && h.start@ == s && text::texts(h.moves@)
                == moves,
            None => r is None,
        },
{
    let ghost all = text::texts(sans@);
    assert(all.len() == sans@.len());
    if sans.len() == 0 || sans.len() > 1000 {
        return None;
    }
    let begin: String = trimmed(start);
    let first: BoardPosition = match read_position(begin.as_str()) {
        Some(p) => p,
        None => {
            return None;
        },
    };
    let mut at: String = first.fen.clone();
    let mut moves: Vec<String> = Vec::new();
    let mut i: usize = 0;
    assert(all.take(0) =~= Seq::empty());
    assert(text::texts(moves@) =~= Seq::empty());
    while i < sans.len()
        invariant
            i <= sans.len(),
            sans.len() <= 1000,
            all == text::texts(sans@),
            walked(first.fen@, all.take(i as int)) == Some((at@, text::texts(moves@))),
            history_of(start@, all, fen@) == (match walked(first.fen@, all) {
                None => None,
                Some((a, ms)) => if key_of(a) == key_of(fen@) {
                    Some((first.fen@, ms))
                } else {
                    None
                },
            }),
        decreases sans.len() - i,
    {
        proof {
            let t = all.take(i + 1);
            assert(t.drop_last() =~= all.take(i as int));
            assert(t.last() == sans@[i as int]@);
        }
        let san: String = strip_marks(sans[i].as_str());
        let m: String = match find_san(at.as_str(), san.as_str()) {
            Some(m) => m,
            None => {
                proof {
                    lemma_walk_fails(first.fen@, all, i + 1);
                }
                return None;
            },
        };
        let p: Played = match play(at.as_str(), m.as_str()) {
            Some(p) => p,
            None => {
                proof {
                    lemma_walk_fails(first.fen@, all, i + 1);
                }
                return None;
            },
        };
        at = p.next.fen;
        push_text(&mut moves, m);
        i += 1;
    }
    assert(all.take(i as int) =~= all);
    history_reaching(first.fen, moves, at.as_str(), fen)
}

// ── Laws of analysis ─────────────────────────────────────────────────────────

/// A new line is among the lines, those with other numbers stay as they are, and nothing
/// else comes in.
pub proof fn law_other_lines_stay(lines: Seq<LineView>, l: LineView, other: LineView)
    requires
        in_order(lines),
    ensures
        with_line(lines, l).contains(l),
        other.multipv != l.multipv ==> (with_line(lines, l).contains(other) <==> lines.contains(
            other,
        )),
        other.multipv == l.multipv && with_line(lines, l).contains(other) ==> other == l,
    decreases lines.len(),
{
    let all = with_line(lines, l);
    let front = lines.drop_last();
    if lines.len() == 0 {
        assert(all[0] == l);
    } else if lines.last().multipv < l.multipv {
        assert(all[lines.len() as int] == l);
        if lines.contains(other) {
            let i = lines.index_of(other);
            assert(all[i] == other);
        }
        if all.contains(other) {
            let i = all.index_of(other);
            if i < lines.len() {
                assert(lines[i] == other);
                assert(lines[i].multipv <= lines.last().multipv);
            }
        }
    } else if lines.last().multipv == l.multipv {
        assert(all[lines.len() - 1] == l);
        if lines.contains(other) && other.multipv != l.multipv {
            let i = lines.index_of(other);
            assert(all[i] == other);
        }
        if all.contains(other) {
            let i = all.index_of(other);
            if i < lines.len() - 1 {
                assert(lines[i] == other);
                assert(lines[i].multipv < lines[lines.len() - 1].multipv);
            }
        }
    } else {
        assert(in_order(front));
        law_other_lines_stay(front, l, other);
        let w = with_line(front, l);
        assert(all == w.push(lines.last()));
        let k = w.index_of(l);
        assert(all[k] == l);
        if lines.contains(other) && other.multipv != l.multipv {
            let i = lines.index_of(other);
            if i < front.len() {
                assert(front[i] == other);
                let j = w.index_of(other);
                assert(all[j] == other);
            } else {
                assert(all[w.len() as int] == other);
            }
        }
        if all.contains(other) {
            let i = all.index_of(other);
            if i < w.len() {
                assert(w[i] == other);
                assert(w.contains(other));
                if other.multipv != l.multipv {
                    let j = front.index_of(other);
                    assert(lines[j] == other);
                }
            } else {
                assert(lines[lines.len() - 1] == other);
            }
        }
    }
}

/// A score from the other side has the other sign, and is the same again when it is turned
/// twice; the lowest number, which has no opposite, stays.
pub proof fn law_turning_changes_the_sign(n: i32)
    ensures
        n > i32::MIN ==> turned(Some(n)) == Some((-n) as i32),
        turned(Some(i32::MIN)) == Some(i32::MIN),
        turned(None) is None,
        turned(turned(Some(n))) == Some(n),
{
}

/// The scores that are shown are White's: what an engine reports with White to move is kept
/// as it is, and the same report with Black to move is kept with the other sign, for a
/// number and for a mate alike.
pub proof fn law_scores_are_whites(
    s: SearchView,
    line: Seq<char>,
    w: InfoWords,
    white: LineView,
    black: LineView,
)
    requires
        s.searching,
        in_order(s.lines),
        s.white_to_move,
        !text::starts_with(text::trim(line), "bestmove"@),
        info_in(text::trim(line)) == Some(w),
        w.pv.len() > 0,
        !w.bound,
        w.cp is Some || w.mate is Some,
        w.cp != Some(i32::MIN),
        w.mate != Some(i32::MIN),
        after_line(s, line).lines.contains(white),
        after_line(SearchView { white_to_move: false, ..s }, line).lines.contains(black),
        white.multipv == w.multipv,
        black.multipv == w.multipv,
    ensures
        white.pv_uci == w.pv,
        black.pv_uci == w.pv,
        w.mate is Some ==> {
            &&& white.mate == w.mate && white.eval_cp is None
            &&& black.mate == Some((-w.mate->0) as i32) && black.eval_cp is None
        },
        w.mate is None ==> {
            &&& white.mate is None && white.eval_cp == w.cp
            &&& black.mate is None && black.eval_cp == Some((-w.cp->0) as i32)
        },
{
    let l = line_in(w)->0;
    law_other_lines_stay(s.lines, for_white(l, true), white);
    law_other_lines_stay(s.lines, for_white(l, false), black);
}

/// An exact line with a score is shown from then on.
pub proof fn law_reported_lines_are_shown(s: SearchView, line: Seq<char>, w: InfoWords)
    requires
        s.searching,
        in_order(s.lines),
        !text::starts_with(text::trim(line), "bestmove"@),
        info_in(text::trim(line)) == Some(w),
    ensures
        w.pv.len() > 0 && !w.bound && (w.cp is Some || w.mate is Some) ==> is_news(s, line)
            && exists|l: LineView| #[trigger]
            after_line(s, line).lines.contains(l) && l.multipv == w.multipv && l.pv_uci == w.pv,
        w.pv.len() == 0 || w.bound || (w.cp is None && w.mate is None) ==> after_line(s, line).lines
            == s.lines && !is_news(s, line),
        after_line(s, line).nodes == (match w.nodes {
            Some(n) => n,
            None => s.nodes,
        }),
        after_line(s, line).nps == (match w.nps {
            Some(n) => n,
            None => s.nps,
        }),
        w.depth matches Some(d) ==> after_line(s, line).depth == if d > s.depth {
            d
        } else {
            s.depth
        },
        after_line(s, line).searching,
{
    if w.pv.len() > 0 && !w.bound && (w.cp is Some || w.mate is Some) {
        let l = for_white(line_in(w)->0, s.white_to_move);
        law_other_lines_stay(s.lines, l, l);
        assert(after_line(s, line).lines.contains(l));
    }
}

/// The best move ends a search, and only that: what was found stays.
pub proof fn law_best_move_ends_the_search(s: SearchView, line: Seq<char>)
    requires
        s.searching,
        text::starts_with(text::trim(line), "bestmove"@),
    ensures
        !after_line(s, line).searching,
        shown(after_line(s, line)).done,
        after_line(s, line).lines == s.lines,
        after_line(s, line).depth == s.depth,
        after_line(s, line).nodes == s.nodes,
        is_news(s, line),
{
}

/// What is shown of a search is what the search found.
pub proof fn law_snapshots_show_the_search(s: SearchView)
    ensures
        shown(s).gen == s.gen,
        shown(s).depth == s.depth,
        shown(s).nodes == s.nodes,
        shown(s).nps == s.nps,
        shown(s).lines == s.lines,
        shown(s).done == !s.searching,
        !shown(s).cached,
{
}

/// The words of a line of analysis.
pub open spec fn info_line(depth: u32, multipv: u32, kind: Seq<char>, score: i32, pv: Seq<Seq<char>>) -> Seq<
    Seq<char>,
> {
    seq![
        "info"@,
        "depth"@,
        text::dec(depth as nat),
        "multipv"@,
        text::dec(multipv as nat),
        "score"@,
        kind,
        text::signed_dec(score as int),
        "pv"@,
    ] + pv
}

proof fn lemma_numbers_are_words(n: nat, m: int)
    ensures
        text::is_word(text::dec(n)),
        text::is_word(text::signed_dec(m)),
{
    text::lemma_dec_digits(n);
    assert forall|i: int| 0 <= i < text::dec(n).len() implies !text::is_white(
        #[trigger] text::dec(n)[i],
    ) by {
        assert(text::is_digit(text::dec(n)[i]));
    }
    let k: nat = if m < 0 {
        (-m) as nat
    } else {
        m as nat
    };
    text::lemma_dec_digits(k);
    let t = text::signed_dec(m);
    assert forall|i: int| 0 <= i < t.len() implies !text::is_white(#[trigger] t[i]) by {
        if m < 0 {
            if i > 0 {
                assert(t[i] == text::dec(k)[i - 1]);
                assert(text::is_digit(text::dec(k)[i - 1]));
            }
        } else {
            assert(text::is_digit(text::dec(k)[i]));
        }
    }
}

/// What an engine writes in a line of analysis is what is read: depth, number, score and
/// moves, a score in hundredths or in moves to the mate.
pub proof fn law_lines_of_analysis_read_back(
    depth: u32,
    multipv: u32,
    score: i32,
    pv: Seq<Seq<char>>,
)
    requires
        forall|i: int| 0 <= i < pv.len() ==> text::is_word(#[trigger] pv[i]),
    ensures
        info_in(text::join(info_line(depth, multipv, "cp"@, score, pv), " "@)) == Some(
            InfoWords {
                depth: Some(depth),
                nodes: None,
                nps: None,
                multipv,
                cp: Some(score),
                mate: None,
                bound: false,
                pv,
            },
        ),
        info_in(text::join(info_line(depth, multipv, "mate"@, score, pv), " "@)) == Some(
            InfoWords {
                depth: Some(depth),
                nodes: None,
                nps: None,
                multipv,
                cp: None,
                mate: Some(score),
                bound: false,
                pv,
            },
        ),
{
    lemma_info_line(depth, multipv, true, score, pv);
    lemma_info_line(depth, multipv, false, score, pv);
}

#[verifier::rlimit(40)]
proof fn lemma_info_line(depth: u32, multipv: u32, cp: bool, score: i32, pv: Seq<Seq<char>>)
    requires
        forall|i: int| 0 <= i < pv.len() ==> text::is_word(#[trigger] pv[i]),
    ensures
        ({
            let kind = if cp {
                "cp"@
            } else {
                "mate"@
            };
            info_in(text::join(info_line(depth, multipv, kind, score, pv), " "@)) == Some(
                InfoWords {
                    depth: Some(depth),
                    nodes: None,
                    nps: None,
                    multipv,
                    cp: if cp {
                        Some(score)
                    } else {
                        None
                    },
                    mate: if cp {
                        None
                    } else {
                        Some(score)
                    },
                    bound: false,
                    pv,
                },
            )
        }),
{
    reveal_strlit("info");
    reveal_strlit("depth");
    reveal_strlit("nodes");
    reveal_strlit("nps");
    reveal_strlit("multipv");
    reveal_strlit("score");
    reveal_strlit("cp");
    reveal_strlit("mate");
    reveal_strlit("pv");
    reveal_strlit("lowerbound");
    reveal_strlit("upperbound");
    let kind = if cp {
        "cp"@
    } else {
        "mate"@
    };
    let ws = info_line(depth, multipv, kind, score, pv);
    lemma_numbers_are_words(depth as nat, score as int);
    lemma_numbers_are_words(multipv as nat, 0);
    assert("depth"@[0] == 'd' && "nodes"@[0] == 'n' && "score"@[0] == 's' && "cp"@[0] == 'c' && "pv"@[0]
        == 'p');
    assert forall|i: int| 0 <= i < ws.len() implies text::is_word(#[trigger] ws[i]) by {
        if i >= 9 {
            assert(ws[i] == pv[i - 9]);
        }
    }
    text::law_joined_words_come_apart(ws);
    let ts = ws.skip(1);
    assert(ts[0] == "depth"@ && ts[2] == "multipv"@ && ts[4] == "score"@ && ts[5] == kind && ts[7]
        == "pv"@);
    text::law_decimal_reads_back(depth as nat, u32::MAX as nat);
    text::law_decimal_reads_back(multipv as nat, u32::MAX as nat);
    text::law_signed_decimal_reads_back(score as int, 0x8000_0000, 0x7fff_ffff);
    let w1 = InfoWords { depth: Some(depth), ..no_words() };
    let w2 = InfoWords { multipv, ..w1 };
    let w3 = if cp {
        InfoWords { cp: Some(score), ..w2 }
    } else {
        InfoWords { mate: Some(score), ..w2 }
    };
    assert(word_u32(ts, 1) == Some(depth));
    assert(word_u32(ts, 3) == Some(multipv));
    assert(word_i32(ts, 6) == Some(score));
    assert(!is_bound(word(ts, 7)));
    assert(info_words(ts, 0, no_words()) == info_words(ts, 2, w1));
    assert(info_words(ts, 2, w1) == info_words(ts, 4, w2));
    assert(info_words(ts, 4, w2) == info_words(ts, 7, w3));
    assert(ts.skip(8) =~= pv);
    assert(info_words(ts, 7, w3) == InfoWords { pv, ..w3 });
}

/// A result with lines is remembered as it was, marked as remembered; one without lines, or
/// one that is not better, changes nothing.
pub proof fn law_results_are_remembered(m: Memory, key: Seq<char>, s: SnapshotView)
    ensures
        s.lines.len() > 0 && !m.results.contains_key(key) ==> {
            let r = after_offer(m, key, s).results;
            &&& r.contains_key(key)
            &&& r[key].lines == s.lines
            &&& r[key].depth == s.depth
            &&& r[key].nodes == s.nodes
            &&& r[key].nps == s.nps
            &&& r[key].cached
            &&& r[key].done
        },
        s.lines.len() > 0 && m.results.contains_key(key) && (s.depth > m.results[key].depth || s.depth
            == m.results[key].depth && s.lines.len() > m.results[key].lines.len()) ==> after_offer(
            m,
            key,
            s,
        ).results[key].lines == s.lines && after_offer(m, key, s).results[key].depth == s.depth,
        s.lines.len() == 0 ==> after_offer(m, key, s) == m,
        m.results.contains_key(key) && s.depth < m.results[key].depth ==> after_offer(m, key, s)
            == m,
{
}

/// What is remembered of other positions stays, as long as there is room.
pub proof fn law_other_results_stay(m: Memory, key: Seq<char>, s: SnapshotView, other: Seq<char>)
    requires
        other != key,
        m.order.len() < REMEMBER_MAX || m.results.contains_key(key),
    ensures
        after_offer(m, key, s).results.contains_key(other) == m.results.contains_key(other),
        m.results.contains_key(other) ==> after_offer(m, key, s).results[other]
            == m.results[other],
{
}

/// Positions that differ in their move counters only are remembered as one.
pub proof fn law_counters_do_not_matter(four: Seq<Seq<char>>, counters: Seq<Seq<char>>)
    requires
        four.len() == 4,
        forall|i: int| 0 <= i < 4 ==> text::is_word(#[trigger] four[i]),
        forall|i: int| 0 <= i < counters.len() ==> text::is_word(#[trigger] counters[i]),
    ensures
        key_of(text::join(four + counters, " "@)) == text::join(four, " "@),
{
    let ws = four + counters;
    assert forall|i: int| 0 <= i < ws.len() implies text::is_word(#[trigger] ws[i]) by {
        if i < 4 {
            assert(ws[i] == four[i]);
        } else {
            assert(ws[i] == counters[i - 4]);
        }
    }
    text::law_joined_words_come_apart(ws);
    assert(ws.take(4) =~= four);
    if counters.len() == 0 {
        assert(ws =~= four);
    }
}

/// Positions that differ in placement, side, castling or en passant are remembered apart.
pub proof fn law_other_positions_have_other_keys(a: Seq<Seq<char>>, b: Seq<Seq<char>>)
    requires
        a.len() == 4 && b.len() == 4,
        forall|i: int| 0 <= i < 4 ==> text::is_word(#[trigger] a[i]),
        forall|i: int| 0 <= i < 4 ==> text::is_word(#[trigger] b[i]),
        a != b,
    ensures
        key_of(text::join(a, " "@)) != key_of(text::join(b, " "@)),
{
    text::law_joined_words_come_apart(a);
    text::law_joined_words_come_apart(b);
    law_counters_do_not_matter(a, Seq::empty());
    law_counters_do_not_matter(b, Seq::empty());
    assert(a + Seq::<Seq<char>>::empty() =~= a);
    assert(b + Seq::<Seq<char>>::empty() =~= b);
}

/// A number within its bounds stays, and any other becomes the nearest bound.
pub proof fn law_numbers_stay_within_bounds(n: int, low: int, high: int)
    requires
        low <= high,
    ensures
        low <= clamped(n, low, high) <= high,
        low <= n <= high ==> clamped(n, low, high) == n,
        n < low ==> clamped(n, low, high) == low,
        n > high ==> clamped(n, low, high) == high,
{
}

/// The release number of Stockfish is the word behind its name, if it begins with a digit.
pub proof fn law_release_numbers_are_found(v: Seq<char>)
    requires
        text::is_word(v),
    ensures
        text::is_digit(v[0]) ==> version_in("Stockfish "@ + v) == Some(v),
        !text::is_digit(v[0]) ==> version_in("Stockfish "@ + v) is None,
{
    let name = "Stockfish "@ + v;
    let n = "Stockfish "@.len() as int;
    assert(name.take(n) =~= "Stockfish "@);
    assert(name.skip(n) =~= v);
    text::law_joined_words_come_apart(seq![v]);
    assert(text::join(seq![v], " "@) == v);
    assert(text::starts_with(name, "Stockfish "@));
}

/// The position is set up as it is given, or from its start with the moves that lead to it.
pub proof fn law_positions_are_set_up(fen: Seq<char>, h: MoveHistory)
    ensures
        position_command(fen, None) == "position fen "@ + fen,
        h.moves@.len() == 0 ==> position_command(fen, Some(h)) == "position fen "@ + fen,
        h.moves@.len() > 0 ==> position_command(fen, Some(h)) == "position fen "@ + h.start@
            + " moves "@ + text::join(text::texts(h.moves@), " "@),
{
}

/// Moves that are played in two parts lead where they lead in one.
pub proof fn law_walks_go_on(
    fen: Seq<char>,
    a: Seq<Seq<char>>,
    b: Seq<Seq<char>>,
    at: Seq<char>,
    first: Seq<Seq<char>>,
)
    requires
        walked(fen, a) == Some((at, first)),
    ensures
        walked(fen, a + b) == (match walked(at, b) {
            Some((end, moves)) => Some((end, first + moves)),
            None => None,
        }),
    decreases b.len(),
{
    if b.len() == 0 {
        assert(a + b =~= a);
        assert(first + Seq::<Seq<char>>::empty() =~= first);
    } else {
        assert((a + b).drop_last() =~= a + b.drop_last());
        law_walks_go_on(fen, a, b.drop_last(), at, first);
        match walked(at, b.drop_last()) {
            Some((end, moves)) => {
                match chess::san_in(end, bare_san(b.last())) {
                    Some(m) => {
                        assert((first + moves).push(m) =~= first + moves.push(m));
                    },
                    None => {},
                }
            },
            None => {},
        }
    }
}

/// A history is as long as the moves, and its end is the position that was asked for.
pub proof fn law_histories_lead_to_the_position(start: Seq<char>, sans: Seq<Seq<char>>, fen: Seq<char>)
    ensures
        history_of(start, sans, fen) matches Some((from, moves)) ==> {
            &&& chess::position_of(text::trim(start)) matches Some(p) && p.fen == from
            &&& walked(from, sans) matches Some((at, ms)) && ms == moves && key_of(at) == key_of(
                fen,
            )
            &&& moves.len() == sans.len()
            &&& 1 <= sans.len() <= 1000
        },
{
    if history_of(start, sans, fen) is Some {
        lemma_walk_length(chess::position_of(text::trim(start))->0.fen, sans);
    }
}

proof fn lemma_walk_length(fen: Seq<char>, sans: Seq<Seq<char>>)
    ensures
        walked(fen, sans) matches Some((at, ms)) ==> ms.len() == sans.len(),
    decreases sans.len(),
{
    if sans.len() > 0 {
        lemma_walk_length(fen, sans.drop_last());
    }
}

/// Every place is looked at; what is found is executable, was among the places, and stands
/// for every executable program there.
pub proof fn law_engines_are_found(cs: Seq<Candidate>, k: int)
    requires
        0 <= k < cs.len(),
    ensures
        search(cs).searched.contains(cs[k].path@),
        forall|i: int|
            0 <= i < search(cs).engines.len() ==> (#[trigger] search(cs).engines[i]).executable
                && cs.contains(search(cs).engines[i]),
    decreases cs.len(),
{
    let front = cs.drop_last();
    let f = search(front);
    let g = search(cs);
    lemma_searched_grows(f, cs.last());
    if k < front.len() {
        law_engines_are_found(front, k);
        assert(front[k] == cs[k]);
    } else if front.len() > 0 {
        law_engines_are_found(front, 0);
    }
    assert forall|i: int| 0 <= i < g.engines.len() implies (#[trigger] g.engines[i]).executable
        && cs.contains(g.engines[i]) by {
        if i < f.engines.len() {
            assert(f.engines[i] == g.engines[i]);
            if front.len() > 0 {
                let j = front.index_of(f.engines[i]);
                assert(cs[j] == front[j]);
            }
        } else {
            assert(g.engines[i] == cs[cs.len() - 1]);
        }
    }
}

proof fn lemma_searched_grows(f: Found, c: Candidate)
    ensures
        after_candidate(f, c).searched.contains(c.path@),
        forall|p: Seq<char>| #[trigger]
            f.searched.contains(p) ==> after_candidate(f, c).searched.contains(p),
{
    let g = after_candidate(f, c);
    if !f.searched.contains(c.path@) {
        assert(g.searched[f.searched.len() as int] == c.path@);
        assert forall|p: Seq<char>| #[trigger] f.searched.contains(p) implies g.searched.contains(
            p,
        ) by {
            let i = f.searched.index_of(p);
            assert(g.searched[i] == p);
        }
    }
}

/// What is told of a line, a snapshot and a search is what they hold.
pub proof fn law_snapshots_hold_what_is_told(s: Snapshot, r: Search, k: int)
    ensures
        s@.gen == s.gen && s@.depth == s.depth && s@.nodes == s.nodes && s@.nps == s.nps && s@.done
            == s.done && s@.cached == s.cached,
        s@.lines.len() == s.lines@.len(),
        0 <= k < s.lines@.len() ==> {
            let l = s.lines@[k];
            &&& s@.lines[k].multipv == l.multipv
            &&& s@.lines[k].eval_cp == l.eval_cp
            &&& s@.lines[k].mate == l.mate
            &&& s@.lines[k].pv_uci == text::texts(l.pv_uci@)
        },
        r@.gen == r.gen && r@.key == r.key@ && r@.white_to_move == r.white_to_move && r@.searching
            == r.searching && r@.depth == r.depth && r@.nodes == r.nodes && r@.nps == r.nps,
        0 <= k < r.lines@.len() ==> r@.lines[k].mate == r.lines@[k].mate && r@.lines[k].eval_cp
            == r.lines@[k].eval_cp,
{
}

/// The parts of a version are its numbers, one for each part.
pub proof fn law_versions_have_their_parts(a: u32, b: u32)
    ensures
        parts_of(text::dec(a as nat)) == seq![a as nat],
        parts_of(text::dec(a as nat) + seq!['.'] + text::dec(b as nat)) == seq![
            a as nat,
            b as nat,
        ],
{
    let x = text::dec(a as nat);
    let y = text::dec(b as nat);
    text::lemma_dec_digits(a as nat);
    text::lemma_dec_digits(b as nat);
    text::law_decimal_reads_back(a as nat, u32::MAX as nat);
    text::law_decimal_reads_back(b as nat, u32::MAX as nat);
    assert forall|i: int| 0 <= i < x.len() implies #[trigger] x[i] != '.' by {
        assert(text::is_digit(x[i]));
    }
    assert forall|i: int| 0 <= i < y.len() implies #[trigger] y[i] != '.' by {
        assert(text::is_digit(y[i]));
    }
    let one = seq![x];
    let two = seq![x, y];
    text::law_joined_pieces_come_apart(one, '.');
    text::law_joined_pieces_come_apart(two, '.');
    assert(text::join(one, seq!['.']) == x);
    assert(two.drop_last() =~= one);
    assert(text::join(two, seq!['.']) == x + seq!['.'] + y);
    assert(parts_of(x) =~= seq![a as nat]);
    assert(parts_of(x + seq!['.'] + y) =~= seq![a as nat, b as nat]);
}

/// In each directory of the search path both engines are looked for, Stockfish first.
pub proof fn law_both_engines_are_looked_for(dirs: Seq<Seq<char>>, k: int)
    requires
        0 <= k < dirs.len(),
    ensures
        on_path(dirs).len() == 2 * dirs.len(),
        on_path(dirs)[2 * k] == paths::join_of(dirs[k], "stockfish"@),
        on_path(dirs)[2 * k + 1] == paths::join_of(dirs[k], "lc0"@),
    decreases dirs.len(),
{
    let d = dirs.drop_last();
    lemma_on_path_length(d);
    if k < d.len() {
        law_both_engines_are_looked_for(d, k);
        assert(d[k] == dirs[k]);
    }
}

proof fn lemma_on_path_length(dirs: Seq<Seq<char>>)
    ensures
        on_path(dirs).len() == 2 * dirs.len(),
    decreases dirs.len(),
{
    if dirs.len() > 0 {
        lemma_on_path_length(dirs.drop_last());
    }
}

/// Two places are one program if their paths are the same, or the links of one lead to the
/// other.
pub proof fn law_one_program_at_two_places(f: Candidate, c: Candidate)
    ensures
        f.path@ == c.path@ ==> same_program(f, c),
        f.canonical is Some && c.canonical is Some && f.canonical->0@ == c.canonical->0@
            ==> same_program(f, c),
        f.canonical is Some && c.canonical is None && f.canonical->0@ == c.path@ ==> same_program(
            f,
            c,
        ),
        f.canonical is None && f.path@ != c.path@ ==> !same_program(f, c),
{
}

} // verus!
