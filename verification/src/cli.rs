//! The commands of the command line, and what becomes of them while a server runs that
//! owns the database: jobs, single requests, questions.
use crate::job_plan;
use crate::job_plan::{ExportTo, JobPlan, PgnInput, Source};
use crate::locations;
use crate::params;
use crate::params::{ParamValue, Params};
use crate::reporter;
use crate::text;
use crate::text::{append_num, chars_of, decimal, parse_unsigned, same};
use vstd::prelude::*;
use vstd::string::*;

verus! {

/// A search for games.
#[derive(Debug)]
pub struct GamesSearch {
    pub name: Option<String>,
    pub fide_id: Option<u32>,
    pub white: Option<String>,
    pub black: Option<String>,
    pub white_fide_id: Option<u32>,
    pub black_fide_id: Option<u32>,
    pub event: Option<String>,
    pub eco: Option<String>,
    pub first_moves: Option<String>,
    pub from: Option<String>,
    pub to: Option<String>,
    pub fen: Option<String>,
    pub moves_stats: bool,
    pub show_moves: bool,
    pub limit: u32,
    pub pgn: bool,
    pub count: bool,
}

/// A command.
#[derive(Debug)]
pub enum Command {
    Download { from: u32, to: Option<u32>, dir: String },
    Import {
        dir: String,
        max_position_depth: u16,
        reindex_threshold: usize,
        fast: bool,
        skip_dedup: bool,
    },
    ImportPgn {
        path: String,
        collection: String,
        private: bool,
        on_duplicate: String,
        max_position_depth: u16,
        reindex_threshold: usize,
        fast: bool,
        skip_dedup: bool,
    },
    IndexPositions { max_position_depth: u16, rebuild: bool, safe: bool },
    DedupGames { dry_run: bool },
    Cleanup { non_standard: bool, dry_run: bool },
    Normalise { dry_run: bool, stop_on_errors: bool, limit: Option<usize> },
    PlayersImport { path: String },
    PlayersExport { path: String },
    Backup { collection: String, dir: String },
    SyncSource { key: String, fast: bool },
    EnableSource { key: String, enabled: bool },
    SetWindow { key: String, from: Option<String>, to: Option<String>, exclude_undated: bool },
    SoftDelete { id: u32 },
    Restore { id: u32 },
    SetVisibility { id: u32, visibility: String },
    AddCollection { id: u32, name: String },
    RemoveCollection { id: u32, name: String },
    SetFideId { player_id: u32, fide_id: u32 },
    SetMoves { id: u32, moves: String },
    SetHeaders { id: u32, tags: String },
    Delete { ids: Vec<u32>, yes_all: bool },
    Purge { dry_run: bool },
    Merge { keep_id: u32, drop_id: u32, yes: bool },
    MergeByName { keep_name: String, drop_name: String, yes: bool },
    Status,
    ListSources,
    Show { ids: Vec<u32> },
    SearchPlayers { name: String, fide_id: Option<u32>, exact: bool, id_only: bool },
    SearchGames(GamesSearch),
    /// A command that only works on the database itself.
    Direct,
}

// ── Jobs ─────────────────────────────────────────────────────────────────────

pub enum ParamView {
    Bool(bool),
    Number(Option<u64>),
    Text(Seq<char>),
    Other,
}

pub open spec fn value_view(v: ParamValue) -> ParamView {
    match v {
        ParamValue::Bool(b) => ParamView::Bool(b),
        ParamValue::Number(n) => ParamView::Number(n),
        ParamValue::Text(t) => ParamView::Text(t@),
        ParamValue::Other => ParamView::Other,
    }
}

pub open spec fn entries_view(v: Seq<(String, ParamValue)>) -> Seq<(Seq<char>, ParamView)> {
    v.map_values(|e: (String, ParamValue)| (e.0@, value_view(e.1)))
}

pub open spec fn opt_param(n: Option<u32>) -> ParamView {
    match n {
        Some(n) => ParamView::Number(Some(n as u64)),
        None => ParamView::Other,
    }
}

pub open spec fn opt_text_param(t: Option<String>) -> ParamView {
    match t {
        Some(t) => ParamView::Text(t@),
        None => ParamView::Other,
    }
}

pub open spec fn limit_param(n: Option<usize>) -> ParamView {
    match n {
        Some(n) => ParamView::Number(Some(n as u64)),
        None => ParamView::Other,
    }
}

pub open spec fn num(n: u32) -> ParamView {
    ParamView::Number(Some(n as u64))
}

/// The job that does what a command says: its type and its parameters. Other commands are
/// no jobs.
pub open spec fn job_for(c: Command) -> Option<(Seq<char>, Seq<(Seq<char>, ParamView)>)> {
    match c {
        Command::Download { from, to, dir } => Some(
            (
                "download"@,
                seq![
                    ("from"@, num(from)),
                    ("to"@, opt_param(to)),
                    ("dir"@, ParamView::Text(dir@)),
                ],
            ),
        ),
        Command::Import { dir, fast, skip_dedup, .. } => Some(
            (
                "import"@,
                seq![
                    ("dir"@, ParamView::Text(dir@)),
                    ("fast"@, ParamView::Bool(fast)),
                    ("skip_dedup"@, ParamView::Bool(skip_dedup)),
                ],
            ),
        ),
        Command::ImportPgn { path, collection, private, on_duplicate, fast, .. } => Some(
            (
                "import_pgn"@,
                seq![
                    ("path"@, ParamView::Text(path@)),
                    ("collection"@, ParamView::Text(collection@)),
                    ("on_duplicate"@, ParamView::Text(on_duplicate@)),
                    ("fast"@, ParamView::Bool(fast)),
                    ("private"@, ParamView::Bool(private)),
                ],
            ),
        ),
        Command::IndexPositions { rebuild, safe, .. } => Some(
            (
                "index_positions"@,
                seq![("rebuild"@, ParamView::Bool(rebuild)), ("fast"@, ParamView::Bool(!safe))],
            ),
        ),
        Command::DedupGames { dry_run } => Some(
            ("dedup_games"@, seq![("dry_run"@, ParamView::Bool(dry_run))]),
        ),
        Command::Cleanup { non_standard, dry_run } => Some(
            (
                "cleanup"@,
                seq![
                    ("non_standard"@, ParamView::Bool(non_standard)),
                    ("dry_run"@, ParamView::Bool(dry_run)),
                ],
            ),
        ),
        Command::Normalise { dry_run, stop_on_errors, limit } => Some(
            (
                "normalise"@,
                seq![
                    ("dry_run"@, ParamView::Bool(dry_run)),
                    ("stop_on_errors"@, ParamView::Bool(stop_on_errors)),
                    ("limit"@, limit_param(limit)),
                ],
            ),
        ),
        Command::PlayersImport { path } => Some(
            ("players_import"@, seq![("path"@, ParamView::Text(path@))]),
        ),
        Command::PlayersExport { path } => Some(
            ("players_export"@, seq![("path"@, ParamView::Text(path@))]),
        ),
        Command::Backup { collection, dir } => Some(
            (
                "backup"@,
                seq![
                    ("collection"@, ParamView::Text(collection@)),
                    ("dir"@, ParamView::Text(dir@)),
                ],
            ),
        ),
        Command::SyncSource { key, fast } => Some(
            (
                "sources_sync"@,
                seq![("source"@, ParamView::Text(key@)), ("fast"@, ParamView::Bool(fast))],
            ),
        ),
        Command::EnableSource { key, enabled } => Some(
            (
                "sources_set_enabled"@,
                seq![("source"@, ParamView::Text(key@)), ("enabled"@, ParamView::Bool(enabled))],
            ),
        ),
        Command::SetWindow { key, from, to, exclude_undated } => Some(
            (
                "sources_set_window"@,
                seq![
                    ("source"@, ParamView::Text(key@)),
                    ("from"@, opt_text_param(from)),
                    ("to"@, opt_text_param(to)),
                    ("exclude_undated"@, ParamView::Bool(exclude_undated)),
                ],
            ),
        ),
        _ => None,
    }
}

/// A job to be run by the server.
#[derive(Debug)]
pub struct JobSpec {
    pub job_type: String,
    pub params: Params,
}

fn put(p: &mut Vec<(String, ParamValue)>, key: &str, v: ParamValue)
    ensures
        entries_view(final(p)@) == entries_view(old(p)@).push((key@, value_view(v))),
{
    let ghost before = p@;
    p.push((key.to_owned(), v));
    assert(entries_view(p@) =~= entries_view(before).push((key@, value_view(v))));
}

fn text_value(s: &String) -> (v: ParamValue)
    ensures
        value_view(v) == ParamView::Text(s@),
{
    ParamValue::Text(s.clone())
}

fn opt_text_value(s: &Option<String>) -> (v: ParamValue)
    ensures
        value_view(v) == opt_text_param(*s),
{
    match s {
        Some(s) => ParamValue::Text(s.clone()),
        None => ParamValue::Other,
    }
}

/// Finds the job that does what a command says.
pub fn job_spec_for(c: &Command) -> (r: Option<JobSpec>)
    ensures
        match r {
            Some(j) => job_for(*c) == Some((j.job_type@, entries_view(j.params.entries@))),
            None => job_for(*c) is None,
        },
{
    let mut p: Vec<(String, ParamValue)> = Vec::new();
    assert(entries_view(p@) =~= Seq::empty());
    let job_type: &str = match c {
        Command::Download { from, to, dir } => {
            put(&mut p, "from", ParamValue::Number(Some(*from as u64)));
            let to_value: ParamValue = match to {
                Some(n) => ParamValue::Number(Some(*n as u64)),
                None => ParamValue::Other,
            };
            put(&mut p, "to", to_value);
            put(&mut p, "dir", text_value(dir));
            "download"
        },
        Command::Import { dir, fast, skip_dedup, .. } => {
            put(&mut p, "dir", text_value(dir));
            put(&mut p, "fast", ParamValue::Bool(*fast));
            put(&mut p, "skip_dedup", ParamValue::Bool(*skip_dedup));
            "import"
        },
        Command::ImportPgn { path, collection, private, on_duplicate, fast, .. } => {
            put(&mut p, "path", text_value(path));
            put(&mut p, "collection", text_value(collection));
            put(&mut p, "on_duplicate", text_value(on_duplicate));
            put(&mut p, "fast", ParamValue::Bool(*fast));
            put(&mut p, "private", ParamValue::Bool(*private));
            "import_pgn"
        },
        Command::IndexPositions { rebuild, safe, .. } => {
            put(&mut p, "rebuild", ParamValue::Bool(*rebuild));
            put(&mut p, "fast", ParamValue::Bool(!*safe));
            "index_positions"
        },
        Command::DedupGames { dry_run } => {
            put(&mut p, "dry_run", ParamValue::Bool(*dry_run));
            "dedup_games"
        },
        Command::Cleanup { non_standard, dry_run } => {
            put(&mut p, "non_standard", ParamValue::Bool(*non_standard));
            put(&mut p, "dry_run", ParamValue::Bool(*dry_run));
            "cleanup"
        },
        Command::Normalise { dry_run, stop_on_errors, limit } => {
            put(&mut p, "dry_run", ParamValue::Bool(*dry_run));
            put(&mut p, "stop_on_errors", ParamValue::Bool(*stop_on_errors));
            let limit_value: ParamValue = match limit {
                Some(n) => ParamValue::Number(Some(*n as u64)),
                None => ParamValue::Other,
            };
            put(&mut p, "limit", limit_value);
            "normalise"
        },
        Command::PlayersImport { path } => {
            put(&mut p, "path", text_value(path));
            "players_import"
        },
        Command::PlayersExport { path } => {
            put(&mut p, "path", text_value(path));
            "players_export"
        },
        Command::Backup { collection, dir } => {
            put(&mut p, "collection", text_value(collection));
            put(&mut p, "dir", text_value(dir));
            "backup"
        },
        Command::SyncSource { key, fast } => {
            put(&mut p, "source", text_value(key));
            put(&mut p, "fast", ParamValue::Bool(*fast));
            "sources_sync"
        },
        Command::EnableSource { key, enabled } => {
            put(&mut p, "source", text_value(key));
            put(&mut p, "enabled", ParamValue::Bool(*enabled));
            "sources_set_enabled"
        },
        Command::SetWindow { key, from, to, exclude_undated } => {
            put(&mut p, "source", text_value(key));
            put(&mut p, "from", opt_text_value(from));
            put(&mut p, "to", opt_text_value(to));
            put(&mut p, "exclude_undated", ParamValue::Bool(*exclude_undated));
            "sources_set_window"
        },
        _ => return None,
    };
    assert(entries_view(p@) =~= (job_for(*c)->0).1);
    Some(JobSpec { job_type: job_type.to_owned(), params: Params { entries: p } })
}

/// The options of a command that a job does not take, where they are not what the server
/// does anyway.
pub open spec fn dropped_flags(c: Command) -> Seq<Seq<char>> {
    let depth = |d: u16| if d != 40 {
        seq!["max-position-depth"@]
    } else {
        Seq::empty()
    };
    let threshold = |t: usize| if t != 10 {
        seq!["reindex-threshold"@]
    } else {
        Seq::empty()
    };
    match c {
        Command::Import { max_position_depth, reindex_threshold, .. } => depth(max_position_depth)
            + threshold(reindex_threshold),
        Command::ImportPgn { max_position_depth, reindex_threshold, skip_dedup, .. } => depth(
            max_position_depth,
        ) + threshold(reindex_threshold) + (if skip_dedup {
            seq!["skip-dedup"@]
        } else {
            Seq::empty()
        }),
        Command::IndexPositions { max_position_depth, .. } => depth(max_position_depth),
        _ => Seq::empty(),
    }
}

/// What is told of an option that is dropped.
pub open spec fn dropped_note(flag: Seq<char>) -> Seq<char> {
    "note: --"@ + flag
        + " is ignored when proxying to the daemon (it uses its built-in default)"@
}

pub open spec fn dropped_notes(flags: Seq<Seq<char>>) -> Seq<Seq<char>> {
    flags.map_values(|f: Seq<char>| dropped_note(f))
}

fn push_note(out: &mut Vec<String>, flag: &str)
    ensures
        text::texts(final(out)@) == text::texts(old(out)@).push(dropped_note(flag@)),
{
    let ghost before = out@;
    let mut m: String = "note: --".to_owned();
    m.append(flag);
    m.append(" is ignored when proxying to the daemon (it uses its built-in default)");
    out.push(m);
    assert(text::texts(out@) =~= text::texts(before).push(dropped_note(flag@)));
}

/// Warns of options that are dropped.
pub fn warn_dropped_flags(c: &Command) -> (out: Vec<String>)
    ensures
        text::texts(out@) == dropped_notes(dropped_flags(*c)),
{
    let mut out: Vec<String> = Vec::new();
    assert(text::texts(out@) =~= Seq::empty());
    match c {
        Command::Import { max_position_depth, reindex_threshold, .. } => {
            if *max_position_depth != 40 {
                push_note(&mut out, "max-position-depth");
            }
            if *reindex_threshold != 10 {
                push_note(&mut out, "reindex-threshold");
            }
        },
        Command::ImportPgn { max_position_depth, reindex_threshold, skip_dedup, .. } => {
            if *max_position_depth != 40 {
                push_note(&mut out, "max-position-depth");
            }
            if *reindex_threshold != 10 {
                push_note(&mut out, "reindex-threshold");
            }
            if *skip_dedup {
                push_note(&mut out, "skip-dedup");
            }
        },
        Command::IndexPositions { max_position_depth, .. } => {
            if *max_position_depth != 40 {
                push_note(&mut out, "max-position-depth");
            }
        },
        _ => {},
    }
    assert(text::texts(out@) =~= dropped_notes(dropped_flags(*c)));
    out
}

// ── Single requests ──────────────────────────────────────────────────────────

/// What a request carries.
#[derive(Debug)]
pub enum Payload {
    Nothing,
    /// A text under a name.
    Text { name: String, value: String },
    /// A number under a name.
    Number { name: String, value: u32 },
    /// JSON under a name, as it was given.
    Json { name: String, value: String },
}

pub enum PayloadView {
    Nothing,
    Text { name: Seq<char>, value: Seq<char> },
    Number { name: Seq<char>, value: u32 },
    Json { name: Seq<char>, value: Seq<char> },
}

impl View for Payload {
    type V = PayloadView;

    open spec fn view(&self) -> PayloadView {
        match self {
            Payload::Nothing => PayloadView::Nothing,
            Payload::Text { name, value } => PayloadView::Text { name: name@, value: value@ },
            Payload::Number { name, value } => PayloadView::Number { name: name@, value: *value },
            Payload::Json { name, value } => PayloadView::Json { name: name@, value: value@ },
        }
    }
}

/// A request that changes something: it is sent with POST.
#[derive(Debug)]
pub struct MutationSpec {
    pub path: String,
    pub payload: Payload,
}

pub open spec fn game_path(id: u32, what: Seq<char>) -> Seq<char> {
    "/games/"@ + text::dec(id as nat) + what
}

/// What serde_json finds wrong with a text that should be JSON; `None` where it is JSON.
pub uninterp spec fn json_fault_in(json: Seq<char>) -> Option<Seq<char>>;

/// `serde_json::from_str` into a `Value`, and the text of the error with which it refuses
/// what is no JSON: a function of the text alone.
#[verifier::external_body]
fn json_fault(json: &str) -> (r: Option<String>)
    ensures
        reporter::opt_text(r) == json_fault_in(json@),
{
    match serde_json::from_str::<serde_json::Value>(json) {
        Ok(_) => None,
        Err(e) => Some(e.to_string()),
    }
}

/// The tags that a command gives a game, if it does.
pub open spec fn tags_of(c: Command) -> Option<Seq<char>> {
    match c {
        Command::SetHeaders { tags, .. } => Some(tags@),
        _ => None,
    }
}

/// Whether this is the request that does what a command says, or the refusal of tags in
/// which there is a fault.
pub open spec fn is_mutation(
    r: Option<Result<MutationSpec, String>>,
    c: Command,
    fault: Option<Seq<char>>,
) -> bool {
    match r {
        None => mutation_of(c) is None,
        Some(Ok(m)) => mutation_of(c) == Some((m.path@, m.payload@)) && !(tags_of(c) is Some
            && fault is Some),
        Some(Err(e)) => tags_of(c) is Some && fault is Some && e@
            == "--tags must be a JSON array: "@ + fault->0,
    }
}

/// The request that does what a command says.
pub open spec fn mutation_of(c: Command) -> Option<(Seq<char>, PayloadView)> {
    match c {
        Command::SoftDelete { id } => Some((game_path(id, "/soft-delete"@), PayloadView::Nothing)),
        Command::Restore { id } => Some((game_path(id, "/restore"@), PayloadView::Nothing)),
        Command::SetVisibility { id, visibility } => Some(
            (
                game_path(id, "/visibility"@),
                PayloadView::Text { name: "visibility"@, value: visibility@ },
            ),
        ),
        Command::AddCollection { id, name } => Some(
            (game_path(id, "/collections"@), PayloadView::Text { name: "name"@, value: name@ }),
        ),
        Command::RemoveCollection { id, name } => Some(
            (
                game_path(id, "/collections/remove"@),
                PayloadView::Text { name: "name"@, value: name@ },
            ),
        ),
        Command::SetFideId { player_id, fide_id } => Some(
            (
                "/players/"@ + text::dec(player_id as nat) + "/fide-id"@,
                PayloadView::Number { name: "fide_id"@, value: fide_id },
            ),
        ),
        Command::SetMoves { id, moves } => Some(
            (game_path(id, "/moves"@), PayloadView::Text { name: "moves"@, value: moves@ }),
        ),
        Command::SetHeaders { id, tags } => Some(
            (game_path(id, "/headers"@), PayloadView::Json { name: "tags"@, value: tags@ }),
        ),
        _ => None,
    }
}

fn path_of_game(id: u32, what: &str) -> (p: String)
    ensures
        p@ == game_path(id, what@),
{
    let mut p: String = "/games/".to_owned();
    append_num(&mut p, id as u64);
    p.append(what);
    p
}

fn text_payload(name: &str, value: &String) -> (p: Payload)
    ensures
        p@ == (PayloadView::Text { name: name@, value: value@ }),
{
    Payload::Text { name: name.to_owned(), value: value.clone() }
}

/// Finds the request that does what a command says, or says why it cannot be sent: tags
/// have to be JSON.
pub fn mutation_for(c: &Command) -> (r: Option<Result<MutationSpec, String>>)
    ensures
        is_mutation(
            r,
            *c,
            match tags_of(*c) {
                Some(t) => json_fault_in(t),
                None => None,
            },
        ),
{
    let fault: Option<String> = match c {
        Command::SetHeaders { tags, .. } => json_fault(tags.as_str()),
        _ => None,
    };
    mutation_with(c, fault)
}

/// The same, where it is known what is wrong with the tags, if anything.
pub fn mutation_with(c: &Command, fault: Option<String>) -> (r: Option<Result<MutationSpec, String>>)
    ensures
        is_mutation(r, *c, reporter::opt_text(fault)),
{
    if let Command::SetHeaders { .. } = c {
        if let Some(f) = fault {
            let mut e: String = "--tags must be a JSON array: ".to_owned();
            e.append(f.as_str());
            return Some(Err(e));
        }
    }
    match request_for(c) {
        Some(m) => Some(Ok(m)),
        None => None,
    }
}

fn request_for(c: &Command) -> (r: Option<MutationSpec>)
    ensures
        match r {
            Some(m) => mutation_of(*c) == Some((m.path@, m.payload@)),
            None => mutation_of(*c) is None,
        },
{
    match c {
        Command::SoftDelete { id } => Some(
            MutationSpec { path: path_of_game(*id, "/soft-delete"), payload: Payload::Nothing },
        ),
        Command::Restore { id } => Some(
            MutationSpec { path: path_of_game(*id, "/restore"), payload: Payload::Nothing },
        ),
        Command::SetVisibility { id, visibility } => Some(
            MutationSpec {
                path: path_of_game(*id, "/visibility"),
                payload: text_payload("visibility", visibility),
            },
        ),
        Command::AddCollection { id, name } => Some(
            MutationSpec {
                path: path_of_game(*id, "/collections"),
                payload: text_payload("name", name),
            },
        ),
        Command::RemoveCollection { id, name } => Some(
            MutationSpec {
                path: path_of_game(*id, "/collections/remove"),
                payload: text_payload("name", name),
            },
        ),
        Command::SetFideId { player_id, fide_id } => {
            let mut path: String = "/players/".to_owned();
            append_num(&mut path, *player_id as u64);
            path.append("/fide-id");
            Some(
                MutationSpec {
                    path,
                    payload: Payload::Number { name: "fide_id".to_owned(), value: *fide_id },
                },
            )
        },
        Command::SetMoves { id, moves } => Some(
            MutationSpec {
                path: path_of_game(*id, "/moves"),
                payload: text_payload("moves", moves),
            },
        ),
        Command::SetHeaders { id, tags } => Some(
            MutationSpec {
                path: path_of_game(*id, "/headers"),
                payload: Payload::Json { name: "tags".to_owned(), value: tags.clone() },
            },
        ),
        _ => None,
    }
}

// ── Questions ────────────────────────────────────────────────────────────────

pub open spec fn text_query(name: Seq<char>, v: Option<String>) -> Seq<(Seq<char>, Seq<char>)> {
    match v {
        Some(v) => seq![(name, v@)],
        None => Seq::empty(),
    }
}

pub open spec fn number_query(name: Seq<char>, v: Option<u32>) -> Seq<(Seq<char>, Seq<char>)> {
    match v {
        Some(v) => seq![(name, text::dec(v as nat))],
        None => Seq::empty(),
    }
}

pub open spec fn flag_query(name: Seq<char>, v: bool) -> Seq<(Seq<char>, Seq<char>)> {
    if v {
        seq![(name, "true"@)]
    } else {
        Seq::empty()
    }
}

/// The question for games that a search comes to.
pub open spec fn games_query(s: GamesSearch) -> Seq<(Seq<char>, Seq<char>)> {
    text_query("name"@, s.name) + number_query("fide_id"@, s.fide_id) + text_query(
        "white"@,
        s.white,
    ) + text_query("black"@, s.black) + number_query("white_fide_id"@, s.white_fide_id)
        + number_query("black_fide_id"@, s.black_fide_id) + text_query("event"@, s.event)
        + text_query("eco"@, s.eco) + text_query("first_moves"@, s.first_moves) + text_query(
        "from"@,
        s.from,
    ) + text_query("to"@, s.to) + text_query("fen"@, s.fen) + seq![
        ("limit"@, text::dec(s.limit as nat)),
    ] + flag_query("pgn"@, s.pgn) + flag_query("count"@, s.count)
}

pub open spec fn query_views(v: Seq<(String, String)>) -> Seq<(Seq<char>, Seq<char>)> {
    v.map_values(|e: (String, String)| (e.0@, e.1@))
}

fn ask(q: &mut Vec<(String, String)>, name: &str, value: String)
    ensures
        query_views(final(q)@) == query_views(old(q)@).push((name@, value@)),
{
    let ghost before = q@;
    q.push((name.to_owned(), value));
    assert(query_views(q@) =~= query_views(before).push((name@, value@)));
}

fn ask_text(q: &mut Vec<(String, String)>, name: &str, v: &Option<String>)
    ensures
        query_views(final(q)@) == query_views(old(q)@) + text_query(name@, *v),
{
    let ghost before = query_views(q@);
    match v {
        Some(v) => ask(q, name, v.clone()),
        None => {},
    }
    assert(query_views(q@) =~= before + text_query(name@, *v));
}

fn ask_number(q: &mut Vec<(String, String)>, name: &str, v: Option<u32>)
    ensures
        query_views(final(q)@) == query_views(old(q)@) + number_query(name@, v),
{
    let ghost before = query_views(q@);
    match v {
        Some(v) => ask(q, name, decimal(v as u64)),
        None => {},
    }
    assert(query_views(q@) =~= before + number_query(name@, v));
}

fn ask_flag(q: &mut Vec<(String, String)>, name: &str, v: bool)
    ensures
        query_views(final(q)@) == query_views(old(q)@) + flag_query(name@, v),
{
    let ghost before = query_views(q@);
    if v {
        ask(q, name, "true".to_owned());
    }
    assert(query_views(q@) =~= before + flag_query(name@, v));
}

/// Writes the question for games that a search comes to.
pub fn search_query(s: &GamesSearch) -> (q: Vec<(String, String)>)
    ensures
        query_views(q@) == games_query(*s),
{
    let mut q: Vec<(String, String)> = Vec::new();
    assert(query_views(q@) =~= Seq::empty());
    ask_text(&mut q, "name", &s.name);
    assert(query_views(q@) =~= text_query("name"@, s.name));
    ask_number(&mut q, "fide_id", s.fide_id);
    ask_text(&mut q, "white", &s.white);
    ask_text(&mut q, "black", &s.black);
    ask_number(&mut q, "white_fide_id", s.white_fide_id);
    ask_number(&mut q, "black_fide_id", s.black_fide_id);
    ask_text(&mut q, "event", &s.event);
    ask_text(&mut q, "eco", &s.eco);
    ask_text(&mut q, "first_moves", &s.first_moves);
    ask_text(&mut q, "from", &s.from);
    ask_text(&mut q, "to", &s.to);
    ask_text(&mut q, "fen", &s.fen);
    let ghost before = query_views(q@);
    ask(&mut q, "limit", decimal(s.limit as u64));
    assert(query_views(q@) =~= before + seq![("limit"@, text::dec(s.limit as nat))]);
    ask_flag(&mut q, "pgn", s.pgn);
    ask_flag(&mut q, "count", s.count);
    q
}

/// How a command gets to the server.
#[derive(Clone, Copy, PartialEq, Eq, Structural, Debug)]
pub enum Route {
    /// As a job.
    Job,
    /// As a single request.
    Mutation,
    /// In several requests.
    Several,
    /// As a question.
    Question,
    /// Not at all.
    Nowhere,
}

pub open spec fn route_of(c: Command) -> Route {
    if job_for(c) is Some {
        Route::Job
    } else if mutation_of(c) is Some {
        Route::Mutation
    } else {
        match c {
            Command::Delete { .. } | Command::Purge { .. } | Command::Merge { .. }
            | Command::MergeByName { .. } => Route::Several,
            Command::Status | Command::ListSources | Command::Show { .. }
            | Command::SearchPlayers { .. } => Route::Question,
            Command::SearchGames(s) => if s.moves_stats {
                Route::Nowhere
            } else {
                Route::Question
            },
            _ => Route::Nowhere,
        }
    }
}

/// Finds how a command gets to the server.
pub fn route(c: &Command) -> (r: Route)
    ensures
        r == route_of(*c),
{
    if job_spec_for(c).is_some() {
        return Route::Job;
    }
    if request_for(c).is_some() {
        return Route::Mutation;
    }
    match c {
        Command::Delete { .. } | Command::Purge { .. } | Command::Merge { .. }
        | Command::MergeByName { .. } => Route::Several,
        Command::Status | Command::ListSources | Command::Show { .. }
        | Command::SearchPlayers { .. } => Route::Question,
        Command::SearchGames(s) => if s.moves_stats {
            Route::Nowhere
        } else {
            Route::Question
        },
        _ => Route::Nowhere,
    }
}

// ── Server or database ───────────────────────────────────────────────────────

/// The port that a server listens on unless it is told otherwise.
pub const DEFAULT_PORT: u16 = 7777;

/// Whether the database is to be opened whatever server there is: by the option, or by the
/// environment.
pub fn force_local(option: bool, env: Option<&str>) -> (b: bool)
    ensures
        b == (option || (env is Some && (env->0@ == "1"@ || env->0@ == "true"@))),
{
    option || match env {
        Some(v) => same(v, "1") || same(v, "true"),
        None => false,
    }
}

/// The port of the server: by the option, else by the environment where that is a port,
/// else the usual one.
pub fn server_port(option: Option<u16>, env: Option<&str>) -> (p: u16)
    ensures
        p == (match option {
            Some(p) => p as int,
            None => if env is Some && text::parse_nat(env->0@, u16::MAX as nat) is Some {
                text::parse_nat(env->0@, u16::MAX as nat)->0 as int
            } else {
                DEFAULT_PORT as int
            },
        }),
{
    match option {
        Some(p) => p,
        None => match env {
            Some(v) => match parse_unsigned(&chars_of(v), u16::MAX as u64) {
                Some(n) => n as u16,
                None => DEFAULT_PORT,
            },
            None => DEFAULT_PORT,
        },
    }
}

/// What is done with a command.
pub enum Access {
    /// It goes to the server.
    Server(Route),
    /// The database is opened.
    Database,
    /// It cannot be done, for this reason.
    Refused(String),
}

/// What is told of a command that a running server keeps from the database.
pub const LOCKED: &'static str =
    "the lpdo-server daemon is running and holds the database lock, so this command can't run directly, and it isn't proxyable yet. Stop the daemon (systemctl --user stop lpdo-server) and retry, or pass --local.";

/// Whether a decision between the server and the database is right: a server that runs owns
/// the database, so that is opened only where there is none, or on demand.
pub open spec fn is_access(
    a: Access,
    c: Command,
    local: bool,
    remote: bool,
    server: bool,
    port: u16,
) -> bool {
    match a {
        Access::Server(r) => !local && server && r == route_of(c) && r != Route::Nowhere,
        Access::Database => local || (!server && !remote),
        Access::Refused(m) => !local && (if server {
            route_of(c) == Route::Nowhere && m@ == LOCKED@
        } else {
            remote && m@ == "--remote: no lpdo-server daemon reachable on 127.0.0.1:"@ + text::dec(
                port as nat,
            )
        }),
    }
}

/// Decides between the server and the database.
pub fn choose_access(c: &Command, local: bool, remote: bool, server: bool, port: u16) -> (a: Access)
    ensures
        is_access(a, *c, local, remote, server, port),
{
    if local {
        return Access::Database;
    }
    if server {
        let r: Route = route(c);
        return match r {
            Route::Nowhere => Access::Refused(LOCKED.to_owned()),
            _ => Access::Server(r),
        };
    }
    if remote {
        let mut m: String = "--remote: no lpdo-server daemon reachable on 127.0.0.1:".to_owned();
        append_num(&mut m, port as u64);
        return Access::Refused(m);
    }
    Access::Database
}

/// While a server runs, the database is opened on demand only, and what the server does not
/// take is refused.
pub proof fn law_one_owner(a: Access, c: Command, local: bool, remote: bool, port: u16)
    requires
        is_access(a, c, local, remote, true, port),
    ensures
        a is Database <==> local,
        a is Refused <==> !local && route_of(c) == Route::Nowhere,
{
}

/// The depth of a position index that is asked for with 0 for none.
pub fn index_depth(max_position_depth: u16) -> (d: Option<i16>)
    ensures
        d == (if max_position_depth == 0 {
            None
        } else {
            Some(max_position_depth as i16)
        }),
{
    if max_position_depth == 0 {
        None
    } else {
        Some(max_position_depth as i16)
    }
}


// ── Commands and what the server makes of them ───────────────────────────────

/// What is found under a name.
pub open spec fn found(e: Seq<(Seq<char>, ParamView)>, key: Seq<char>) -> Option<ParamView>
    decreases e.len(),
{
    if e.len() == 0 {
        None
    } else if e[0].0 == key {
        Some(e[0].1)
    } else {
        found(e.skip(1), key)
    }
}

proof fn lemma_found(e: Seq<(String, ParamValue)>, key: Seq<char>)
    ensures
        match params::find_param(e, key) {
            Some(v) => found(entries_view(e), key) == Some(value_view(v)),
            None => found(entries_view(e), key) is None,
        },
    decreases e.len(),
{
    if e.len() > 0 {
        assert(entries_view(e)[0] == (e[0].0@, value_view(e[0].1)));
        assert(entries_view(e).skip(1) =~= entries_view(e.skip(1)));
        lemma_found(e.skip(1), key);
    }
}

/// Whether what the server makes of a command is what it says. What a job does not take is
/// what the server does anyway. `home` is the home directory of the server.
pub open spec fn is_carried_over(
    c: Command,
    catalog: Seq<Source>,
    home: Option<Seq<char>>,
    r: Result<JobPlan, String>,
) -> bool {
    let at_home = |path: Seq<char>| locations::expanded(path, home);
    match c {
        Command::Download { from: f, to: t, dir: d } => match job_plan::source_index(
            catalog,
            "twic"@,
        ) {
            None => job_plan::fails_with(r, job_plan::unknown_source("twic"@)),
            Some(i) => r matches Ok(JobPlan::Download { source, from, to, dir }) && source == i
                && from == Some(f) && to == t && reporter::opt_text(dir) == Some(at_home(d@)),
        },
        Command::Import { dir: d, fast: f, skip_dedup: s, .. } => match job_plan::source_index(
            catalog,
            "twic"@,
        ) {
            None => job_plan::fails_with(r, job_plan::unknown_source("twic"@)),
            Some(i) => r matches Ok(JobPlan::Import { source, dir, fast, skip_dedup }) && source
                == i && reporter::opt_text(dir) == Some(at_home(d@)) && fast == f && skip_dedup == s,
        },
        Command::ImportPgn { path: p, collection, private, on_duplicate, fast: f, .. } => {
            &&& r matches Ok(JobPlan::ImportPgn { spec, fast, skip_dedup, depth, input })
            &&& spec.collection@ == collection@
            &&& spec.on_duplicate@ == on_duplicate@
            &&& spec.visibility@ == (if private {
                "private"@
            } else {
                "public"@
            })
            &&& fast == f
            &&& !skip_dedup
            &&& depth == Some(40i16)
            &&& input matches PgnInput::File { path, cleanup } && path@ == at_home(p@)
                && !cleanup
        },
        Command::IndexPositions { rebuild: b, safe, .. } => r matches Ok(
            JobPlan::IndexPositions { rebuild, fast },
        ) && rebuild == b && fast == !safe,
        Command::DedupGames { dry_run: d } => r matches Ok(JobPlan::DedupGames { dry_run, full })
            && dry_run == d && !full,
        Command::Cleanup { non_standard: n, dry_run: d } => r matches Ok(
            JobPlan::Cleanup { non_standard, dry_run },
        ) && non_standard == n && dry_run == d,
        Command::Normalise { dry_run: d, .. } => r matches Ok(JobPlan::Normalise { dry_run })
            && dry_run == d,
        Command::PlayersImport { path: p } => r matches Ok(JobPlan::PlayersImport { path }) && path@
            == at_home(p@),
        Command::PlayersExport { path: p } => r matches Ok(
            JobPlan::PlayersExport { to: ExportTo::File(f) },
        ) && f@ == at_home(p@),
        Command::Backup { collection: c, dir: d } => r matches Ok(
            JobPlan::Backup { collection, dir },
        ) && collection@ == c@ && dir@ == at_home(d@),
        Command::SyncSource { key, .. } => match job_plan::source_index(catalog, key@) {
            None => job_plan::fails_with(r, job_plan::unknown_source(key@)),
            Some(i) => r matches Ok(JobPlan::SyncSource { source }) && source == i,
        },
        Command::EnableSource { key: k, enabled: e } => r matches Ok(
            JobPlan::SetEnabled { key, enabled, acknowledge },
        ) && key@ == k@ && enabled == e && !acknowledge,
        Command::SetWindow { key: k, from: f, to: t, exclude_undated: x } => r matches Ok(
            JobPlan::SetWindow { key, from, to, exclude_undated },
        ) && key@ == k@ && reporter::opt_text(from) == reporter::opt_text(f) && reporter::opt_text(
            to,
        ) == reporter::opt_text(t) && exclude_undated == x,
        _ => true,
    }
}

proof fn lemma_names_differ()
    ensures
        "from"@ != "to"@,
        "from"@ != "dir"@,
        "from"@ != "source"@,
        "to"@ != "dir"@,
        "to"@ != "source"@,
        "dir"@ != "source"@,
        "dir"@ != "fast"@,
        "dir"@ != "skip_dedup"@,
        "dir"@ != "collection"@,
        "dir"@ != "path"@,
        "fast"@ != "skip_dedup"@,
        "fast"@ != "source"@,
        "fast"@ != "rebuild"@,
        "fast"@ != "private"@,
        "skip_dedup"@ != "source"@,
        "source"@ != "enabled"@,
        "source"@ != "exclude_undated"@,
        "exclude_undated"@ != "from"@,
        "exclude_undated"@ != "to"@,
        "credit_acked"@ != "source"@,
        "credit_acked"@ != "enabled"@,
        "dry_run"@ != "full"@,
        "dry_run"@ != "non_standard"@,
{
    reveal_strlit("from");
    assert("from"@.len() == 4 && "from"@[0] == 'f');
    reveal_strlit("to");
    assert("to"@.len() == 2 && "to"@[0] == 't');
    reveal_strlit("dir");
    assert("dir"@.len() == 3 && "dir"@[0] == 'd');
    reveal_strlit("source");
    assert("source"@.len() == 6 && "source"@[0] == 's');
    reveal_strlit("fast");
    assert("fast"@.len() == 4 && "fast"@[0] == 'f');
    reveal_strlit("skip_dedup");
    assert("skip_dedup"@.len() == 10 && "skip_dedup"@[0] == 's');
    reveal_strlit("collection");
    assert("collection"@.len() == 10 && "collection"@[0] == 'c');
    reveal_strlit("path");
    assert("path"@.len() == 4 && "path"@[0] == 'p');
    reveal_strlit("rebuild");
    assert("rebuild"@.len() == 7 && "rebuild"@[0] == 'r');
    reveal_strlit("private");
    assert("private"@.len() == 7 && "private"@[0] == 'p');
    reveal_strlit("enabled");
    assert("enabled"@.len() == 7 && "enabled"@[0] == 'e');
    reveal_strlit("exclude_undated");
    assert("exclude_undated"@.len() == 15 && "exclude_undated"@[0] == 'e');
    reveal_strlit("credit_acked");
    assert("credit_acked"@.len() == 12 && "credit_acked"@[0] == 'c');
    reveal_strlit("dry_run");
    assert("dry_run"@.len() == 7 && "dry_run"@[0] == 'd');
    reveal_strlit("full");
    assert("full"@.len() == 4 && "full"@[0] == 'f');
    reveal_strlit("non_standard");
    assert("non_standard"@.len() == 12 && "non_standard"@[0] == 'n');
}

/// The names of an import of a file differ from one another and from those that a job for
/// it can also have.
proof fn lemma_import_names_differ()
    ensures
        "path"@ != "collection"@,
        "path"@ != "on_duplicate"@,
        "path"@ != "fast"@,
        "path"@ != "private"@,
        "path"@ != "content"@,
        "path"@ != "cleanup"@,
        "path"@ != "skip_dedup"@,
        "path"@ != "max_position_depth"@,
        "collection"@ != "on_duplicate"@,
        "collection"@ != "fast"@,
        "collection"@ != "private"@,
        "collection"@ != "content"@,
        "collection"@ != "cleanup"@,
        "collection"@ != "skip_dedup"@,
        "collection"@ != "max_position_depth"@,
        "on_duplicate"@ != "fast"@,
        "on_duplicate"@ != "private"@,
        "on_duplicate"@ != "content"@,
        "on_duplicate"@ != "cleanup"@,
        "on_duplicate"@ != "skip_dedup"@,
        "on_duplicate"@ != "max_position_depth"@,
        "fast"@ != "private"@,
        "fast"@ != "content"@,
        "fast"@ != "cleanup"@,
        "fast"@ != "skip_dedup"@,
        "fast"@ != "max_position_depth"@,
        "private"@ != "content"@,
        "private"@ != "cleanup"@,
        "private"@ != "skip_dedup"@,
        "private"@ != "max_position_depth"@,
{
    reveal_strlit("path");
    assert("path"@.len() == 4 && "path"@[0] == 'p');
    reveal_strlit("collection");
    assert("collection"@.len() == 10 && "collection"@[0] == 'c');
    reveal_strlit("on_duplicate");
    assert("on_duplicate"@.len() == 12 && "on_duplicate"@[0] == 'o');
    reveal_strlit("fast");
    assert("fast"@.len() == 4 && "fast"@[0] == 'f');
    reveal_strlit("private");
    assert("private"@.len() == 7 && "private"@[0] == 'p');
    reveal_strlit("content");
    assert("content"@.len() == 7 && "content"@[0] == 'c');
    reveal_strlit("cleanup");
    assert("cleanup"@.len() == 7 && "cleanup"@[0] == 'c');
    reveal_strlit("skip_dedup");
    assert("skip_dedup"@.len() == 10 && "skip_dedup"@[0] == 's');
    reveal_strlit("max_position_depth");
    assert("max_position_depth"@.len() == 18 && "max_position_depth"@[0] == 'm');
}

/// The types of jobs differ.
proof fn lemma_types_differ()
    ensures
        "download"@ != "__fault_invalidate"@,
        "import"@ != "__fault_invalidate"@,
        "import"@ != "download"@,
        "import_pgn"@ != "__fault_invalidate"@,
        "import_pgn"@ != "download"@,
        "import_pgn"@ != "import"@,
        "import_pgn"@ != "sources_set_enabled"@,
        "import_pgn"@ != "sources_set_window"@,
        "import_pgn"@ != "sources_sync"@,
        "index_positions"@ != "__fault_invalidate"@,
        "index_positions"@ != "download"@,
        "index_positions"@ != "import"@,
        "index_positions"@ != "sources_set_enabled"@,
        "index_positions"@ != "sources_set_window"@,
        "index_positions"@ != "sources_sync"@,
        "index_positions"@ != "import_pgn"@,
        "dedup_games"@ != "__fault_invalidate"@,
        "dedup_games"@ != "download"@,
        "dedup_games"@ != "import"@,
        "dedup_games"@ != "sources_set_enabled"@,
        "dedup_games"@ != "sources_set_window"@,
        "dedup_games"@ != "sources_sync"@,
        "dedup_games"@ != "import_pgn"@,
        "dedup_games"@ != "index_positions"@,
        "cleanup"@ != "__fault_invalidate"@,
        "cleanup"@ != "download"@,
        "cleanup"@ != "import"@,
        "cleanup"@ != "sources_set_enabled"@,
        "cleanup"@ != "sources_set_window"@,
        "cleanup"@ != "sources_sync"@,
        "cleanup"@ != "import_pgn"@,
        "cleanup"@ != "index_positions"@,
        "cleanup"@ != "dedup_games"@,
        "cleanup"@ != "dedup_players"@,
        "normalise"@ != "__fault_invalidate"@,
        "normalise"@ != "download"@,
        "normalise"@ != "import"@,
        "normalise"@ != "sources_set_enabled"@,
        "normalise"@ != "sources_set_window"@,
        "normalise"@ != "sources_sync"@,
        "normalise"@ != "import_pgn"@,
        "normalise"@ != "index_positions"@,
        "normalise"@ != "dedup_games"@,
        "normalise"@ != "dedup_players"@,
        "normalise"@ != "cleanup"@,
        "players_import"@ != "__fault_invalidate"@,
        "players_import"@ != "download"@,
        "players_import"@ != "import"@,
        "players_import"@ != "sources_set_enabled"@,
        "players_import"@ != "sources_set_window"@,
        "players_import"@ != "sources_sync"@,
        "players_import"@ != "import_pgn"@,
        "players_import"@ != "index_positions"@,
        "players_import"@ != "dedup_games"@,
        "players_import"@ != "dedup_players"@,
        "players_import"@ != "cleanup"@,
        "players_import"@ != "normalise"@,
        "players_import"@ != "resolve_fide"@,
        "players_import"@ != "resolve_export"@,
        "players_import"@ != "resolve_import"@,
        "players_import"@ != "fide_refresh"@,
        "players_export"@ != "__fault_invalidate"@,
        "players_export"@ != "download"@,
        "players_export"@ != "import"@,
        "players_export"@ != "sources_set_enabled"@,
        "players_export"@ != "sources_set_window"@,
        "players_export"@ != "sources_sync"@,
        "players_export"@ != "import_pgn"@,
        "players_export"@ != "index_positions"@,
        "players_export"@ != "dedup_games"@,
        "players_export"@ != "dedup_players"@,
        "players_export"@ != "cleanup"@,
        "players_export"@ != "normalise"@,
        "players_export"@ != "resolve_fide"@,
        "players_export"@ != "resolve_export"@,
        "players_export"@ != "resolve_import"@,
        "players_export"@ != "fide_refresh"@,
        "players_export"@ != "players_import"@,
        "backup"@ != "__fault_invalidate"@,
        "backup"@ != "download"@,
        "backup"@ != "import"@,
        "backup"@ != "sources_set_enabled"@,
        "backup"@ != "sources_set_window"@,
        "backup"@ != "sources_sync"@,
        "backup"@ != "import_pgn"@,
        "backup"@ != "index_positions"@,
        "backup"@ != "dedup_games"@,
        "backup"@ != "dedup_players"@,
        "backup"@ != "cleanup"@,
        "backup"@ != "normalise"@,
        "backup"@ != "resolve_fide"@,
        "backup"@ != "resolve_export"@,
        "backup"@ != "resolve_import"@,
        "backup"@ != "fide_refresh"@,
        "backup"@ != "players_import"@,
        "backup"@ != "players_export"@,
        "sources_sync"@ != "__fault_invalidate"@,
        "sources_sync"@ != "download"@,
        "sources_sync"@ != "import"@,
        "sources_sync"@ != "sources_set_enabled"@,
        "sources_sync"@ != "sources_set_window"@,
        "sources_set_enabled"@ != "__fault_invalidate"@,
        "sources_set_enabled"@ != "download"@,
        "sources_set_enabled"@ != "import"@,
        "sources_set_window"@ != "__fault_invalidate"@,
        "sources_set_window"@ != "download"@,
        "sources_set_window"@ != "import"@,
        "sources_set_window"@ != "sources_set_enabled"@,
{
    reveal_strlit("__fault_invalidate");
    assert("__fault_invalidate"@.len() == 18 && "__fault_invalidate"@[0] == '_');
    reveal_strlit("download");
    assert("download"@.len() == 8 && "download"@[0] == 'd');
    reveal_strlit("import");
    assert("import"@.len() == 6 && "import"@[0] == 'i');
    reveal_strlit("sources_set_enabled");
    assert("sources_set_enabled"@.len() == 19 && "sources_set_enabled"@[0] == 's');
    reveal_strlit("sources_set_window");
    assert("sources_set_window"@.len() == 18 && "sources_set_window"@[0] == 's');
    reveal_strlit("sources_sync");
    assert("sources_sync"@.len() == 12 && "sources_sync"@[0] == 's');
    reveal_strlit("import_pgn");
    assert("import_pgn"@.len() == 10 && "import_pgn"@[0] == 'i');
    reveal_strlit("index_positions");
    assert("index_positions"@.len() == 15 && "index_positions"@[0] == 'i');
    reveal_strlit("dedup_games");
    assert("dedup_games"@.len() == 11 && "dedup_games"@[0] == 'd');
    reveal_strlit("dedup_players");
    assert("dedup_players"@.len() == 13 && "dedup_players"@[0] == 'd');
    reveal_strlit("cleanup");
    assert("cleanup"@.len() == 7 && "cleanup"@[0] == 'c');
    reveal_strlit("normalise");
    assert("normalise"@.len() == 9 && "normalise"@[0] == 'n');
    reveal_strlit("resolve_fide");
    assert("resolve_fide"@.len() == 12 && "resolve_fide"@[0] == 'r');
    reveal_strlit("resolve_export");
    assert("resolve_export"@.len() == 14 && "resolve_export"@[0] == 'r');
    reveal_strlit("resolve_import");
    assert("resolve_import"@.len() == 14 && "resolve_import"@[0] == 'r');
    reveal_strlit("fide_refresh");
    assert("fide_refresh"@.len() == 12 && "fide_refresh"@[0] == 'f');
    reveal_strlit("players_import");
    assert("players_import"@.len() == 14 && "players_import"@[0] == 'p');
    reveal_strlit("players_export");
    assert("players_export"@.len() == 14 && "players_export"@[0] == 'p');
    reveal_strlit("backup");
    assert("backup"@.len() == 6 && "backup"@[0] == 'b');
    assert("players_export"@[8] != "players_import"@[8]);
}

proof fn lemma_download_carried(
    c: Command,
    p: Params,
    catalog: Seq<Source>,
    home: Option<Seq<char>>,
    r: Result<JobPlan, String>,
)
    requires
        c is Download || c is Import,
        job_for(c) is Some,
        (job_for(c)->0).1 == entries_view(p.entries@),
        job_plan::plan_of((job_for(c)->0).0, p, catalog, home, false, r),
    ensures
        is_carried_over(c, catalog, home, r),
{
    reveal_with_fuel(found, 7);
    lemma_names_differ();
    lemma_types_differ();
    lemma_found(p.entries@, "source"@);
    lemma_found(p.entries@, "from"@);
    lemma_found(p.entries@, "to"@);
    lemma_found(p.entries@, "dir"@);
    lemma_found(p.entries@, "fast"@);
    lemma_found(p.entries@, "skip_dedup"@);
}

proof fn lemma_import_pgn_carried(
    c: Command,
    p: Params,
    catalog: Seq<Source>,
    home: Option<Seq<char>>,
    r: Result<JobPlan, String>,
)
    requires
        c is ImportPgn,
        job_for(c) is Some,
        (job_for(c)->0).1 == entries_view(p.entries@),
        job_plan::plan_of((job_for(c)->0).0, p, catalog, home, false, r),
    ensures
        is_carried_over(c, catalog, home, r),
{
    reveal_with_fuel(found, 7);
    lemma_import_names_differ();
    lemma_types_differ();
    lemma_found(p.entries@, "path"@);
    lemma_found(p.entries@, "content"@);
    lemma_found(p.entries@, "collection"@);
    lemma_found(p.entries@, "on_duplicate"@);
    lemma_found(p.entries@, "private"@);
    lemma_found(p.entries@, "fast"@);
    lemma_found(p.entries@, "skip_dedup"@);
    lemma_found(p.entries@, "max_position_depth"@);
    lemma_found(p.entries@, "cleanup"@);
}

proof fn lemma_upkeep_carried(
    c: Command,
    p: Params,
    catalog: Seq<Source>,
    home: Option<Seq<char>>,
    r: Result<JobPlan, String>,
)
    requires
        c is IndexPositions || c is DedupGames || c is Cleanup || c is Normalise,
        job_for(c) is Some,
        (job_for(c)->0).1 == entries_view(p.entries@),
        job_plan::plan_of((job_for(c)->0).0, p, catalog, home, false, r),
    ensures
        is_carried_over(c, catalog, home, r),
{
    reveal_with_fuel(found, 7);
    lemma_names_differ();
    lemma_types_differ();
    lemma_found(p.entries@, "rebuild"@);
    lemma_found(p.entries@, "fast"@);
    lemma_found(p.entries@, "dry_run"@);
    lemma_found(p.entries@, "full"@);
    lemma_found(p.entries@, "non_standard"@);
}

proof fn lemma_files_carried(
    c: Command,
    p: Params,
    catalog: Seq<Source>,
    home: Option<Seq<char>>,
    r: Result<JobPlan, String>,
)
    requires
        c is PlayersImport || c is PlayersExport || c is Backup,
        job_for(c) is Some,
        (job_for(c)->0).1 == entries_view(p.entries@),
        job_plan::plan_of((job_for(c)->0).0, p, catalog, home, false, r),
    ensures
        is_carried_over(c, catalog, home, r),
{
    reveal_with_fuel(found, 7);
    lemma_names_differ();
    lemma_types_differ();
    lemma_found(p.entries@, "path"@);
    lemma_found(p.entries@, "dir"@);
    lemma_found(p.entries@, "collection"@);
}

proof fn lemma_sources_carried(
    c: Command,
    p: Params,
    catalog: Seq<Source>,
    home: Option<Seq<char>>,
    r: Result<JobPlan, String>,
)
    requires
        c is SyncSource || c is EnableSource || c is SetWindow,
        job_for(c) is Some,
        (job_for(c)->0).1 == entries_view(p.entries@),
        job_plan::plan_of((job_for(c)->0).0, p, catalog, home, false, r),
    ensures
        is_carried_over(c, catalog, home, r),
{
    reveal_with_fuel(found, 7);
    lemma_names_differ();
    lemma_types_differ();
    lemma_found(p.entries@, "source"@);
    lemma_found(p.entries@, "enabled"@);
    lemma_found(p.entries@, "credit_acked"@);
    lemma_found(p.entries@, "from"@);
    lemma_found(p.entries@, "to"@);
    lemma_found(p.entries@, "exclude_undated"@);
}

/// A command that goes to the server as a job is done there as it says: what the server
/// reads from the job's parameters is what the command was given.
pub proof fn law_jobs_do_what_commands_say(
    c: Command,
    p: Params,
    catalog: Seq<Source>,
    home: Option<Seq<char>>,
    r: Result<JobPlan, String>,
)
    requires
        job_for(c) is Some,
        (job_for(c)->0).1 == entries_view(p.entries@),
        job_plan::plan_of((job_for(c)->0).0, p, catalog, home, false, r),
    ensures
        is_carried_over(c, catalog, home, r),
{
    if c is Download || c is Import {
        lemma_download_carried(c, p, catalog, home, r);
    } else if c is ImportPgn {
        lemma_import_pgn_carried(c, p, catalog, home, r);
    } else if c is IndexPositions || c is DedupGames || c is Cleanup || c is Normalise {
        lemma_upkeep_carried(c, p, catalog, home, r);
    } else if c is PlayersImport || c is PlayersExport || c is Backup {
        lemma_files_carried(c, p, catalog, home, r);
    } else {
        lemma_sources_carried(c, p, catalog, home, r);
    }
}

// ── Laws of requests ─────────────────────────────────────────────────────────

/// What a search asks for is asked of the server, each thing under its own name, and what it
/// does not ask for is not.
#[verifier::rlimit(60)]
pub proof fn law_searches_are_asked_as_they_are(s: GamesSearch, v: Seq<char>)
    ensures
        games_query(s).contains(("name"@, v)) <==> s.name is Some && s.name->0@ == v,
        games_query(s).contains(("white"@, v)) <==> s.white is Some && s.white->0@ == v,
        games_query(s).contains(("black"@, v)) <==> s.black is Some && s.black->0@ == v,
        games_query(s).contains(("event"@, v)) <==> s.event is Some && s.event->0@ == v,
        games_query(s).contains(("eco"@, v)) <==> s.eco is Some && s.eco->0@ == v,
        games_query(s).contains(("first_moves"@, v)) <==> s.first_moves is Some && s.first_moves->0@ == v,
        games_query(s).contains(("from"@, v)) <==> s.from is Some && s.from->0@ == v,
        games_query(s).contains(("to"@, v)) <==> s.to is Some && s.to->0@ == v,
        games_query(s).contains(("fen"@, v)) <==> s.fen is Some && s.fen->0@ == v,
        games_query(s).contains(("fide_id"@, v)) <==> s.fide_id is Some && text::dec(s.fide_id->0 as nat) == v,
        games_query(s).contains(("white_fide_id"@, v)) <==> s.white_fide_id is Some && text::dec(s.white_fide_id->0 as nat) == v,
        games_query(s).contains(("black_fide_id"@, v)) <==> s.black_fide_id is Some && text::dec(s.black_fide_id->0 as nat) == v,
        games_query(s).contains(("limit"@, v)) <==> text::dec(s.limit as nat) == v,
        games_query(s).contains(("pgn"@, v)) <==> s.pgn && v == "true"@,
        games_query(s).contains(("count"@, v)) <==> s.count && v == "true"@,
{
    lemma_asked(s, "name"@, v);
    lemma_asked(s, "fide_id"@, v);
    lemma_asked(s, "white"@, v);
    lemma_asked(s, "black"@, v);
    lemma_asked(s, "white_fide_id"@, v);
    lemma_asked(s, "black_fide_id"@, v);
    lemma_asked(s, "event"@, v);
    lemma_asked(s, "eco"@, v);
    lemma_asked(s, "first_moves"@, v);
    lemma_asked(s, "from"@, v);
    lemma_asked(s, "to"@, v);
    lemma_asked(s, "fen"@, v);
    lemma_asked(s, "limit"@, v);
    lemma_asked(s, "pgn"@, v);
    lemma_asked(s, "count"@, v);
    lemma_query_names();
}

/// The names in a question differ in length or in their first letter.
proof fn lemma_query_names()
    ensures
        "name"@.len() == 4 && "name"@[0] == 'n',
        "fide_id"@.len() == 7 && "fide_id"@[0] == 'f',
        "white"@.len() == 5 && "white"@[0] == 'w',
        "black"@.len() == 5 && "black"@[0] == 'b',
        "white_fide_id"@.len() == 13 && "white_fide_id"@[0] == 'w',
        "black_fide_id"@.len() == 13 && "black_fide_id"@[0] == 'b',
        "event"@.len() == 5 && "event"@[0] == 'e',
        "eco"@.len() == 3 && "eco"@[0] == 'e',
        "first_moves"@.len() == 11 && "first_moves"@[0] == 'f',
        "from"@.len() == 4 && "from"@[0] == 'f',
        "to"@.len() == 2 && "to"@[0] == 't',
        "fen"@.len() == 3 && "fen"@[0] == 'f',
        "limit"@.len() == 5 && "limit"@[0] == 'l',
        "pgn"@.len() == 3 && "pgn"@[0] == 'p',
        "count"@.len() == 5 && "count"@[0] == 'c',
{
    reveal_strlit("name");
    reveal_strlit("fide_id");
    reveal_strlit("white");
    reveal_strlit("black");
    reveal_strlit("white_fide_id");
    reveal_strlit("black_fide_id");
    reveal_strlit("event");
    reveal_strlit("eco");
    reveal_strlit("first_moves");
    reveal_strlit("from");
    reveal_strlit("to");
    reveal_strlit("fen");
    reveal_strlit("limit");
    reveal_strlit("pgn");
    reveal_strlit("count");
}

proof fn lemma_asked(s: GamesSearch, key: Seq<char>, v: Seq<char>)
    ensures
        games_query(s).contains((key, v)) <==> {
            ||| text_query("name"@, s.name).contains((key, v))
            ||| number_query("fide_id"@, s.fide_id).contains((key, v))
            ||| text_query("white"@, s.white).contains((key, v))
            ||| text_query("black"@, s.black).contains((key, v))
            ||| number_query("white_fide_id"@, s.white_fide_id).contains((key, v))
            ||| number_query("black_fide_id"@, s.black_fide_id).contains((key, v))
            ||| text_query("event"@, s.event).contains((key, v))
            ||| text_query("eco"@, s.eco).contains((key, v))
            ||| text_query("first_moves"@, s.first_moves).contains((key, v))
            ||| text_query("from"@, s.from).contains((key, v))
            ||| text_query("to"@, s.to).contains((key, v))
            ||| text_query("fen"@, s.fen).contains((key, v))
            ||| seq![("limit"@, text::dec(s.limit as nat))].contains((key, v))
            ||| flag_query("pgn"@, s.pgn).contains((key, v))
            ||| flag_query("count"@, s.count).contains((key, v))
        },
        forall|n: Seq<char>, t: Option<String>| #[trigger]
            text_query(n, t).contains((key, v)) <==> t is Some && n == key && t->0@ == v,
        forall|n: Seq<char>, t: Option<u32>| #[trigger]
            number_query(n, t).contains((key, v)) <==> t is Some && n == key && text::dec(
                t->0 as nat,
            ) == v,
        forall|n: Seq<char>, b: bool| #[trigger]
            flag_query(n, b).contains((key, v)) <==> b && n == key && v == "true"@,
        seq![("limit"@, text::dec(s.limit as nat))].contains((key, v)) <==> key == "limit"@
            && text::dec(s.limit as nat) == v,
{
    let e = (key, v);
    let q1 = text_query("name"@, s.name);
    let q2 = q1 + number_query("fide_id"@, s.fide_id);
    let q3 = q2 + text_query("white"@, s.white);
    let q4 = q3 + text_query("black"@, s.black);
    let q5 = q4 + number_query("white_fide_id"@, s.white_fide_id);
    let q6 = q5 + number_query("black_fide_id"@, s.black_fide_id);
    let q7 = q6 + text_query("event"@, s.event);
    let q8 = q7 + text_query("eco"@, s.eco);
    let q9 = q8 + text_query("first_moves"@, s.first_moves);
    let q10 = q9 + text_query("from"@, s.from);
    let q11 = q10 + text_query("to"@, s.to);
    let q12 = q11 + text_query("fen"@, s.fen);
    let q13 = q12 + seq![("limit"@, text::dec(s.limit as nat))];
    let q14 = q13 + flag_query("pgn"@, s.pgn);
    lemma_in_either(q1, number_query("fide_id"@, s.fide_id), e);
    lemma_in_either(q2, text_query("white"@, s.white), e);
    lemma_in_either(q3, text_query("black"@, s.black), e);
    lemma_in_either(q4, number_query("white_fide_id"@, s.white_fide_id), e);
    lemma_in_either(q5, number_query("black_fide_id"@, s.black_fide_id), e);
    lemma_in_either(q6, text_query("event"@, s.event), e);
    lemma_in_either(q7, text_query("eco"@, s.eco), e);
    lemma_in_either(q8, text_query("first_moves"@, s.first_moves), e);
    lemma_in_either(q9, text_query("from"@, s.from), e);
    lemma_in_either(q10, text_query("to"@, s.to), e);
    lemma_in_either(q11, text_query("fen"@, s.fen), e);
    lemma_in_either(q12, seq![("limit"@, text::dec(s.limit as nat))], e);
    lemma_in_either(q13, flag_query("pgn"@, s.pgn), e);
    lemma_in_either(q14, flag_query("count"@, s.count), e);
    assert forall|n: Seq<char>, t: Option<String>| #[trigger]
        text_query(n, t).contains((key, v)) <==> t is Some && n == key && t->0@ == v by {
        if t is Some {
            assert(text_query(n, t)[0] == (n, t->0@));
        }
    }
    assert forall|n: Seq<char>, t: Option<u32>| #[trigger]
        number_query(n, t).contains((key, v)) <==> t is Some && n == key && text::dec(t->0 as nat)
        == v by {
        if t is Some {
            assert(number_query(n, t)[0] == (n, text::dec(t->0 as nat)));
        }
    }
    assert forall|n: Seq<char>, b: bool| #[trigger]
        flag_query(n, b).contains((key, v)) <==> b && n == key && v == "true"@ by {
        if b {
            assert(flag_query(n, b)[0] == (n, "true"@));
        }
    }
    let limit = seq![("limit"@, text::dec(s.limit as nat))];
    assert(limit[0] == ("limit"@, text::dec(s.limit as nat)));
}

proof fn lemma_in_either(
    a: Seq<(Seq<char>, Seq<char>)>,
    b: Seq<(Seq<char>, Seq<char>)>,
    e: (Seq<char>, Seq<char>),
)
    ensures
        (a + b).contains(e) <==> a.contains(e) || b.contains(e),
{
    let s = a + b;
    if s.contains(e) {
        let i = s.index_of(e);
        if i < a.len() {
            assert(a[i] == e);
        } else {
            assert(b[i - a.len()] == e);
        }
    }
    if a.contains(e) {
        let i = a.index_of(e);
        assert(s[i] == e);
    }
    if b.contains(e) {
        let i = b.index_of(e);
        assert(s[i + a.len()] == e);
    }
}

/// A command on a game goes to that game, under the path of what it does, with what it was
/// given.
pub proof fn law_commands_go_to_their_game(id: u32, t: String, n: u32)
    ensures
        mutation_of(Command::SoftDelete { id }) == Some(
            ("/games/"@ + text::dec(id as nat) + "/soft-delete"@, PayloadView::Nothing),
        ),
        mutation_of(Command::Restore { id }) == Some(
            ("/games/"@ + text::dec(id as nat) + "/restore"@, PayloadView::Nothing),
        ),
        mutation_of(Command::SetVisibility { id, visibility: t }) == Some(
            (
                "/games/"@ + text::dec(id as nat) + "/visibility"@,
                PayloadView::Text { name: "visibility"@, value: t@ },
            ),
        ),
        mutation_of(Command::AddCollection { id, name: t }) == Some(
            (
                "/games/"@ + text::dec(id as nat) + "/collections"@,
                PayloadView::Text { name: "name"@, value: t@ },
            ),
        ),
        mutation_of(Command::RemoveCollection { id, name: t }) == Some(
            (
                "/games/"@ + text::dec(id as nat) + "/collections/remove"@,
                PayloadView::Text { name: "name"@, value: t@ },
            ),
        ),
        mutation_of(Command::SetMoves { id, moves: t }) == Some(
            (
                "/games/"@ + text::dec(id as nat) + "/moves"@,
                PayloadView::Text { name: "moves"@, value: t@ },
            ),
        ),
        mutation_of(Command::SetHeaders { id, tags: t }) == Some(
            (
                "/games/"@ + text::dec(id as nat) + "/headers"@,
                PayloadView::Json { name: "tags"@, value: t@ },
            ),
        ),
{
}

/// Nothing is both a job and a request, and what is neither job nor request nor question is
/// not sent.
pub proof fn law_each_command_has_one_way(c: Command)
    ensures
        !(job_for(c) is Some && mutation_of(c) is Some),
        job_for(c) is Some <==> route_of(c) == Route::Job,
        mutation_of(c) is Some <==> route_of(c) == Route::Mutation,
        c is Status || c is ListSources || c is Show || c is SearchPlayers ==> route_of(c)
            == Route::Question,
        c is Delete || c is Purge || c is Merge || c is MergeByName ==> route_of(c)
            == Route::Several,
{
}

/// An option that the server would not follow is named, and one that it follows anyway is
/// not.
pub proof fn law_dropped_options_are_named(c: Command)
    ensures
        c matches Command::Import { max_position_depth, reindex_threshold, .. } ==> {
            &&& max_position_depth == 40 && reindex_threshold == 10 ==> dropped_flags(c).len() == 0
            &&& max_position_depth != 40 ==> dropped_flags(c).contains("max-position-depth"@)
            &&& reindex_threshold != 10 ==> dropped_flags(c).contains("reindex-threshold"@)
        },
        c matches Command::IndexPositions { max_position_depth, .. } ==> {
            &&& max_position_depth == 40 ==> dropped_flags(c).len() == 0
            &&& max_position_depth != 40 ==> dropped_flags(c) == seq!["max-position-depth"@]
        },
        c is Download || c is Backup || c is DedupGames ==> dropped_flags(c).len() == 0,
{
    match c {
        Command::Import { max_position_depth, reindex_threshold, .. } => {
            let f = dropped_flags(c);
            if max_position_depth != 40 {
                assert(f[0] == "max-position-depth"@);
            }
            if reindex_threshold != 10 {
                assert(f[f.len() - 1] == "reindex-threshold"@);
            }
        },
        _ => {},
    }
}

/// What is told of a payload is what it holds.
pub proof fn law_payloads_hold_what_is_told(n: String, t: String, v: u32)
    ensures
        Payload::Nothing@ == PayloadView::Nothing,
        (Payload::Text { name: n, value: t })@ == (PayloadView::Text { name: n@, value: t@ }),
        (Payload::Number { name: n, value: v })@ == (PayloadView::Number { name: n@, value: v }),
        (Payload::Json { name: n, value: t })@ == (PayloadView::Json { name: n@, value: t@ }),
{
}

/// A request is refused only for tags with a fault in them.
pub proof fn law_only_faulty_tags_are_refused(
    r: Option<Result<MutationSpec, String>>,
    c: Command,
    fault: Option<Seq<char>>,
)
    requires
        is_mutation(r, c, fault),
    ensures
        r is None <==> mutation_of(c) is None,
        r matches Some(Err(e)) ==> c is SetHeaders && fault is Some,
        c is SetHeaders && fault is Some ==> r is Some && r->0 is Err,
        c is SetHeaders && fault is None ==> r is Some && r->0 is Ok,
{
}

} // verus!
