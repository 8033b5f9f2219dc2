//! From a job's type and parameters to what is to be done: decoding a submission, and
//! the decisions of the jobs that go in several steps.
use crate::importer::ImportSpec;
use crate::locations;
use crate::locations::expand_home;
use crate::params;
use crate::params::Params;
use crate::paths;
use crate::paths::join_path;
use crate::progress;
use crate::reporter;
use crate::text;
use crate::text::{append_num, same};
use vstd::prelude::*;
use vstd::string::*;

verus! {

/// One import source of the catalog.
#[derive(Debug)]
pub struct Source {
    pub key: String,
    pub name: String,
    pub collection: String,
}

/// Where games come from for an import of a PGN text.
pub enum PgnInput {
    /// The text itself.
    Content(String),
    /// A file, and whether it is to be removed afterwards.
    File { path: String, cleanup: bool },
}

/// Where the FIDE list comes from.
pub enum FideOrigin {
    File(String),
    Url(String),
}

/// Where an export goes: to a file, or to a dated file in a directory.
pub enum ExportTo {
    File(String),
    Directory(String),
}

/// What a job is to do. A source is named by its place in the catalog, a directory that
/// is `None` is the source's own.
pub enum JobPlan {
    Download { source: usize, from: Option<u32>, to: Option<u32>, dir: Option<String> },
    Import { source: usize, dir: Option<String>, fast: bool, skip_dedup: bool },
    SetEnabled { key: String, enabled: bool, acknowledge: bool },
    SetWindow { key: String, from: Option<String>, to: Option<String>, exclude_undated: bool },
    SyncSource { source: usize },
    ImportPgn {
        spec: ImportSpec,
        fast: bool,
        skip_dedup: bool,
        depth: Option<i16>,
        input: PgnInput,
    },
    IndexPositions { rebuild: bool, fast: bool },
    DedupGames { dry_run: bool, full: bool },
    DedupPlayers,
    Cleanup { non_standard: bool, dry_run: bool },
    Normalise { dry_run: bool },
    ResolveFide { dry_run: bool, no_service: bool },
    ResolveExport { path: String },
    ResolveImport { path: String },
    FideRefresh { if_due: bool, origin: FideOrigin },
    PlayersImport { path: String },
    PlayersExport { to: ExportTo },
    Backup { collection: String, dir: String },
    Update,
}

/// The official FIDE player list.
pub const FIDE_LIST_URL: &'static str = "https://ratings.fide.com/download/players_list.zip";

/// Where the source with the given key first stands in the catalog.
pub open spec fn source_index(catalog: Seq<Source>, key: Seq<char>) -> Option<usize> {
    if exists|i: int| 0 <= i < catalog.len() && (#[trigger] catalog[i]).key@ == key {
        Some(
            (choose|i: int|
                0 <= i < catalog.len() && (#[trigger] catalog[i]).key@ == key && forall|k: int|
                    0 <= k < i ==> (#[trigger] catalog[k]).key@ != key) as usize,
        )
    } else {
        None
    }
}

/// The source with the given key.
pub fn find_source(catalog: &[Source], key: &str) -> (r: Option<usize>)
    ensures
        r == source_index(catalog@, key@),
        r matches Some(i) ==> i < catalog.len() && catalog@[i as int].key@ == key@,
{
    let mut i: usize = 0;
    while i < catalog.len()
        invariant
            i <= catalog.len(),
            forall|k: int| 0 <= k < i ==> (#[trigger] catalog@[k]).key@ != key@,
        decreases catalog.len() - i,
    {
        if same(catalog[i].key.as_str(), key) {
            proof {
                let c = choose|c: int|
                    0 <= c < catalog@.len() && (#[trigger] catalog@[c]).key@ == key@ && forall|
                        k: int,
                    |
                        0 <= k < c ==> (#[trigger] catalog@[k]).key@ != key@;
                assert(catalog@[i as int].key@ == key@);
                assert(c == i);
            }
            return Some(i);
        }
        i += 1;
    }
    None
}

// ── Texts of refusals ────────────────────────────────────────────────────────

pub open spec fn unknown_source(key: Seq<char>) -> Seq<char> {
    "unknown source '"@ + key + "'"@
}

pub open spec fn required(key: Seq<char>) -> Seq<char> {
    "'"@ + key + "' required"@
}

pub open spec fn unknown_job(t: Seq<char>) -> Seq<char> {
    "unknown job type: "@ + t
}

fn unknown_source_text(key: &str) -> (s: String)
    ensures
        s@ == unknown_source(key@),
{
    let mut out: String = "unknown source '".to_owned();
    out.append(key);
    out.append("'");
    out
}

fn required_text(key: &str) -> (s: String)
    ensures
        s@ == required(key@),
{
    let mut out: String = "'".to_owned();
    out.append(key);
    out.append("' required");
    out
}

// ── Decoding ─────────────────────────────────────────────────────────────────

pub open spec fn low32(n: Option<u64>) -> Option<u32> {
    match n {
        Some(v) => Some(v as u32),
        None => None,
    }
}

/// The position depth of a PGN import: 40 unless the parameters say otherwise, and none
/// for 0.
pub open spec fn import_depth(n: Option<u64>) -> Option<i16> {
    match n {
        Some(d) => if d == 0 {
            None
        } else {
            Some(d as i16)
        },
        None => Some(40),
    }
}

pub open spec fn or_text(t: Option<Seq<char>>, d: Seq<char>) -> Seq<char> {
    match t {
        Some(s) => s,
        None => d,
    }
}

pub open spec fn fails_with(r: Result<JobPlan, String>, e: Seq<char>) -> bool {
    r matches Err(m) && m@ == e
}

/// The path that a parameter gives, with the home directory for `~` at its beginning.
pub open spec fn path_in(p: Params, key: Seq<char>, home: Option<Seq<char>>) -> Option<Seq<char>> {
    match params::param_text(p, key) {
        Some(s) => Some(locations::expanded(s, home)),
        None => None,
    }
}

/// What a job of type `t` with parameters `p` is to do, or how it is refused. Paths begin
/// at the home directory where they say so.
pub open spec fn plan_of(
    t: Seq<char>,
    p: Params,
    catalog: Seq<Source>,
    home: Option<Seq<char>>,
    fault_injection: bool,
    r: Result<JobPlan, String>,
) -> bool {
    let txt = |k: Seq<char>| params::param_text(p, k);
    let pth = |k: Seq<char>| path_in(p, k, home);
    let flg = |k: Seq<char>| params::param_flag(p, k);
    if t == "__fault_invalidate"@ {
        fails_with(
            r,
            if fault_injection {
                "FATAL Error: database has been invalidated (injected fault). The connection has been invalidated by a previous fatal error."@
            } else {
                "__fault_invalidate is disabled; set LPDO_FAULT_INJECTION=1 on the server to enable it"@
            },
        )
    } else if t == "download"@ {
        let key = or_text(txt("source"@), "twic"@);
        match source_index(catalog, key) {
            None => fails_with(r, unknown_source(key)),
            Some(i) => r matches Ok(JobPlan::Download { source, from, to, dir }) && source == i
                && from == low32(params::param_number(p, "from"@)) && to == low32(
                params::param_number(p, "to"@),
            ) && reporter::opt_text(dir) == pth("dir"@),
        }
    } else if t == "import"@ {
        let key = or_text(txt("source"@), "twic"@);
        match source_index(catalog, key) {
            None => fails_with(r, unknown_source(key)),
            Some(i) => r matches Ok(JobPlan::Import { source, dir, fast, skip_dedup }) && source
                == i && reporter::opt_text(dir) == pth("dir"@) && fast == flg("fast"@)
                && skip_dedup == flg("skip_dedup"@),
        }
    } else if t == "sources_set_enabled"@ {
        match txt("source"@) {
            None => fails_with(r, "sources_set_enabled: 'source' required"@),
            Some(k) => r matches Ok(JobPlan::SetEnabled { key, enabled, acknowledge }) && key@ == k
                && enabled == flg("enabled"@) && acknowledge == flg("credit_acked"@),
        }
    } else if t == "sources_set_window"@ {
        match txt("source"@) {
            None => fails_with(r, "sources_set_window: 'source' required"@),
            Some(k) => r matches Ok(JobPlan::SetWindow { key, from, to, exclude_undated }) && key@
                == k && reporter::opt_text(from) == txt("from"@) && reporter::opt_text(to) == txt(
                "to"@,
            ) && exclude_undated == flg("exclude_undated"@),
        }
    } else if t == "sources_sync"@ {
        match txt("source"@) {
            None => fails_with(r, "sources_sync: 'source' required"@),
            Some(k) => match source_index(catalog, k) {
                None => fails_with(r, unknown_source(k)),
                Some(i) => r matches Ok(JobPlan::SyncSource { source }) && source == i,
            },
        }
    } else if t == "import_pgn"@ {
        if txt("content"@) is None && txt("path"@) is None {
            fails_with(r, required("path"@))
        } else {
            &&& r matches Ok(JobPlan::ImportPgn { spec, fast, skip_dedup, depth, input })
            &&& spec.collection@ == or_text(txt("collection"@), "Manual"@)
            &&& spec.on_duplicate@ == or_text(txt("on_duplicate"@), "skip"@)
            &&& spec.visibility@ == (if flg("private"@) {
                "private"@
            } else {
                "public"@
            })
            &&& fast == flg("fast"@)
            &&& skip_dedup == flg("skip_dedup"@)
            &&& depth == import_depth(params::param_number(p, "max_position_depth"@))
            &&& match txt("content"@) {
                Some(c) => input matches PgnInput::Content(text) && text@ == c,
                None => input matches PgnInput::File { path, cleanup } && Some(path@) == pth(
                    "path"@,
                ) && cleanup == flg("cleanup"@),
            }
        }
    } else if t == "index_positions"@ {
        r matches Ok(JobPlan::IndexPositions { rebuild, fast }) && rebuild == flg("rebuild"@)
            && fast == flg("fast"@)
    } else if t == "dedup_games"@ {
        r matches Ok(JobPlan::DedupGames { dry_run, full }) && dry_run == flg("dry_run"@) && full
            == flg("full"@)
    } else if t == "dedup_players"@ {
        r matches Ok(JobPlan::DedupPlayers)
    } else if t == "cleanup"@ {
        r matches Ok(JobPlan::Cleanup { non_standard, dry_run }) && non_standard == flg(
            "non_standard"@,
        ) && dry_run == flg("dry_run"@)
    } else if t == "normalise"@ {
        r matches Ok(JobPlan::Normalise { dry_run }) && dry_run == flg("dry_run"@)
    } else if t == "resolve_fide"@ {
        r matches Ok(JobPlan::ResolveFide { dry_run, no_service }) && dry_run == flg("dry_run"@)
            && no_service == flg("no_service"@)
    } else if t == "resolve_export"@ {
        match pth("path"@) {
            None => fails_with(r, required("path"@)),
            Some(x) => r matches Ok(JobPlan::ResolveExport { path }) && path@ == x,
        }
    } else if t == "resolve_import"@ {
        match pth("path"@) {
            None => fails_with(r, required("path"@)),
            Some(x) => r matches Ok(JobPlan::ResolveImport { path }) && path@ == x,
        }
    } else if t == "fide_refresh"@ {
        &&& r matches Ok(JobPlan::FideRefresh { if_due, origin })
        &&& if_due == flg("if_due"@)
        &&& if txt("file"@) is Some && txt("file"@)->0.len() > 0 {
            origin matches FideOrigin::File(f) && Some(f@) == txt("file"@)
        } else {
            origin matches FideOrigin::Url(u) && u@ == or_text(txt("url"@), FIDE_LIST_URL@)
        }
    } else if t == "players_import"@ {
        match pth("path"@) {
            None => fails_with(r, required("path"@)),
            Some(x) => r matches Ok(JobPlan::PlayersImport { path }) && path@ == x,
        }
    } else if t == "players_export"@ {
        match (pth("path"@), pth("dir"@)) {
            (Some(x), _) => r matches Ok(JobPlan::PlayersExport { to: ExportTo::File(f) }) && f@
                == x,
            (None, Some(d)) => r matches Ok(JobPlan::PlayersExport { to: ExportTo::Directory(f) })
                && f@ == d,
            (None, None) => fails_with(r, required("dir"@)),
        }
    } else if t == "backup"@ {
        match (txt("collection"@), pth("dir"@)) {
            (None, _) => fails_with(r, "backup: 'collection' required"@),
            (Some(_), None) => fails_with(r, required("dir"@)),
            (Some(c), Some(d)) => r matches Ok(JobPlan::Backup { collection, dir }) && collection@
                == c && dir@ == d,
        }
    } else if t == "update"@ {
        r matches Ok(JobPlan::Update)
    } else {
        fails_with(r, unknown_job(t))
    }
}

fn text_or(p: &Params, key: &str, default: &str) -> (s: String)
    ensures
        s@ == or_text(params::param_text(*p, key@), default@),
{
    match p.text(key) {
        Some(s) => s,
        None => default.to_owned(),
    }
}

fn number32(p: &Params, key: &str) -> (r: Option<u32>)
    ensures
        r == low32(params::param_number(*p, key@)),
{
    match p.number(key) {
        Some(v) => Some(v as u32),
        None => None,
    }
}

fn dir_param(p: &Params, key: &str, home: Option<&str>) -> (r: Option<String>)
    ensures
        reporter::opt_text(r) == path_in(*p, key@, locations::opt(home)),
{
    match p.text(key) {
        Some(s) => Some(expand_home(s.as_str(), home)),
        None => None,
    }
}

fn path_param(p: &Params, key: &str, home: Option<&str>) -> (r: Result<String, String>)
    ensures
        match r {
            Ok(s) => path_in(*p, key@, locations::opt(home)) == Some(s@),
            Err(e) => path_in(*p, key@, locations::opt(home)) is None && e@ == required(key@),
        },
{
    match dir_param(p, key, home) {
        Some(s) => Ok(s),
        None => Err(required_text(key)),
    }
}

/// Decodes a job: what it is to do, or the message with which it is refused. The
/// invalidation of the database that `__fault_invalidate` simulates is a refusal too; it
/// is disabled unless fault injection is on. `home` is the home directory, where it is
/// known.
pub fn plan_job(
    job_type: &str,
    p: &Params,
    catalog: &[Source],
    home: Option<&str>,
    fault_injection: bool,
) -> (r: Result<JobPlan, String>)
    ensures
        plan_of(job_type@, *p, catalog@, locations::opt(home), fault_injection, r),
{
    if same(job_type, "__fault_invalidate") {
        return if fault_injection {
            Err(
                "FATAL Error: database has been invalidated (injected fault). The connection has been invalidated by a previous fatal error.".to_owned(),
            )
        } else {
            Err(
                "__fault_invalidate is disabled; set LPDO_FAULT_INJECTION=1 on the server to enable it".to_owned(),
            )
        };
    }
    if same(job_type, "download") {
        let key: String = text_or(p, "source", "twic");
        return match find_source(catalog, key.as_str()) {
            None => Err(unknown_source_text(key.as_str())),
            Some(source) => Ok(
                JobPlan::Download {
                    source,
                    from: number32(p, "from"),
                    to: number32(p, "to"),
                    dir: dir_param(p, "dir", home),
                },
            ),
        };
    }
    if same(job_type, "import") {
        let key: String = text_or(p, "source", "twic");
        return match find_source(catalog, key.as_str()) {
            None => Err(unknown_source_text(key.as_str())),
            Some(source) => Ok(
                JobPlan::Import {
                    source,
                    dir: dir_param(p, "dir", home),
                    fast: p.flag("fast"),
                    skip_dedup: p.flag("skip_dedup"),
                },
            ),
        };
    }
    if same(job_type, "sources_set_enabled") {
        return match p.text("source") {
            None => Err("sources_set_enabled: 'source' required".to_owned()),
            Some(key) => Ok(
                JobPlan::SetEnabled {
                    key,
                    enabled: p.flag("enabled"),
                    acknowledge: p.flag("credit_acked"),
                },
            ),
        };
    }
    if same(job_type, "sources_set_window") {
        return match p.text("source") {
            None => Err("sources_set_window: 'source' required".to_owned()),
            Some(key) => Ok(
                JobPlan::SetWindow {
                    key,
                    from: p.text("from"),
                    to: p.text("to"),
                    exclude_undated: p.flag("exclude_undated"),
                },
            ),
        };
    }
    if same(job_type, "sources_sync") {
        return match p.text("source") {
            None => Err("sources_sync: 'source' required".to_owned()),
            Some(key) => match find_source(catalog, key.as_str()) {
                None => Err(unknown_source_text(key.as_str())),
                Some(source) => Ok(JobPlan::SyncSource { source }),
            },
        };
    }
    if same(job_type, "import_pgn") {
        return plan_import_pgn(p, home);
    }
    if same(job_type, "index_positions") {
        return Ok(JobPlan::IndexPositions { rebuild: p.flag("rebuild"), fast: p.flag("fast") });
    }
    if same(job_type, "dedup_games") {
        return Ok(JobPlan::DedupGames { dry_run: p.flag("dry_run"), full: p.flag("full") });
    }
    if same(job_type, "dedup_players") {
        return Ok(JobPlan::DedupPlayers);
    }
    if same(job_type, "cleanup") {
        return Ok(
            JobPlan::Cleanup { non_standard: p.flag("non_standard"), dry_run: p.flag("dry_run") },
        );
    }
    if same(job_type, "normalise") {
        return Ok(JobPlan::Normalise { dry_run: p.flag("dry_run") });
    }
    if same(job_type, "resolve_fide") {
        return Ok(
            JobPlan::ResolveFide { dry_run: p.flag("dry_run"), no_service: p.flag("no_service") },
        );
    }
    if same(job_type, "resolve_export") {
        return match path_param(p, "path", home) {
            Ok(path) => Ok(JobPlan::ResolveExport { path }),
            Err(e) => Err(e),
        };
    }
    if same(job_type, "resolve_import") {
        return match path_param(p, "path", home) {
            Ok(path) => Ok(JobPlan::ResolveImport { path }),
            Err(e) => Err(e),
        };
    }
    if same(job_type, "fide_refresh") {
        let origin: FideOrigin = match p.text("file") {
            Some(f) => if f.as_str().is_empty() {
                FideOrigin::Url(text_or(p, "url", FIDE_LIST_URL))
            } else {
                FideOrigin::File(f)
            },
            None => FideOrigin::Url(text_or(p, "url", FIDE_LIST_URL)),
        };
        return Ok(JobPlan::FideRefresh { if_due: p.flag("if_due"), origin });
    }
    if same(job_type, "players_import") {
        return match path_param(p, "path", home) {
            Ok(path) => Ok(JobPlan::PlayersImport { path }),
            Err(e) => Err(e),
        };
    }
    if same(job_type, "players_export") {
        return match dir_param(p, "path", home) {
            Some(path) => Ok(JobPlan::PlayersExport { to: ExportTo::File(path) }),
            None => match path_param(p, "dir", home) {
                Ok(dir) => Ok(JobPlan::PlayersExport { to: ExportTo::Directory(dir) }),
                Err(e) => Err(e),
            },
        };
    }
    if same(job_type, "backup") {
        return match p.text("collection") {
            None => Err("backup: 'collection' required".to_owned()),
            Some(collection) => match path_param(p, "dir", home) {
                Ok(dir) => Ok(JobPlan::Backup { collection, dir }),
                Err(e) => Err(e),
            },
        };
    }
    if same(job_type, "update") {
        return Ok(JobPlan::Update);
    }
    let mut e: String = "unknown job type: ".to_owned();
    e.append(job_type);
    Err(e)
}

fn plan_import_pgn(p: &Params, home: Option<&str>) -> (r: Result<JobPlan, String>)
    ensures
        plan_of("import_pgn"@, *p, Seq::empty(), locations::opt(home), false, r),
        forall|catalog: Seq<Source>, fault: bool|
            plan_of("import_pgn"@, *p, catalog, locations::opt(home), fault, r),
{
    proof {
        reveal_strlit("import_pgn");
        reveal_strlit("__fault_invalidate");
        reveal_strlit("download");
        reveal_strlit("import");
        reveal_strlit("sources_set_enabled");
        reveal_strlit("sources_set_window");
        reveal_strlit("sources_sync");
        assert("import_pgn"@.len() == 10);
    }
    let spec = ImportSpec {
        collection: text_or(p, "collection", "Manual"),
        on_duplicate: text_or(p, "on_duplicate", "skip"),
        visibility: if p.flag("private") {
            "private".to_owned()
        } else {
            "public".to_owned()
        },
    };
    let depth: Option<i16> = match p.number("max_position_depth") {
        Some(d) => if d == 0 {
            None
        } else {
            Some(d as i16)
        },
        None => Some(40),
    };
    let input: PgnInput = match p.text("content") {
        Some(content) => PgnInput::Content(content),
        None => match path_param(p, "path", home) {
            Ok(path) => PgnInput::File { path, cleanup: p.flag("cleanup") },
            Err(e) => {
                return Err(e);
            },
        },
    };
    Ok(
        JobPlan::ImportPgn {
            spec,
            fast: p.flag("fast"),
            skip_dedup: p.flag("skip_dedup"),
            depth,
            input,
        },
    )
}

// ── How a job goes about it ──────────────────────────────────────────────────

/// With what games are imported: down to which half-move positions are indexed, whether it
/// is a bulk import whatever its size (for 0), whether rows are appended, and whether
/// duplicates are let through.
#[derive(Clone, Copy, PartialEq, Eq, Structural, Debug)]
pub struct ImportSettings {
    pub depth: Option<i16>,
    pub threshold: usize,
    pub fast: bool,
    pub skip_dedup: bool,
}

/// With what the imports of a job are made. A source that is synced leaves positions and
/// duplicates to the maintenance behind it; an update looks for duplicates, and is always a
/// bulk import. Nothing for a job that imports no games.
pub open spec fn settings_of(plan: JobPlan) -> Option<ImportSettings> {
    match plan {
        JobPlan::Import { fast, skip_dedup, .. } => Some(
            ImportSettings { depth: Some(40), threshold: 10, fast, skip_dedup },
        ),
        JobPlan::SyncSource { .. } => Some(
            ImportSettings { depth: None, threshold: 10, fast: true, skip_dedup: true },
        ),
        JobPlan::ImportPgn { fast, skip_dedup, depth, .. } => Some(
            ImportSettings { depth, threshold: 10, fast, skip_dedup },
        ),
        JobPlan::Update => Some(
            ImportSettings { depth: None, threshold: 0, fast: true, skip_dedup: false },
        ),
        _ => None,
    }
}

/// With what the imports of a job are made.
pub fn import_settings(plan: &JobPlan) -> (s: Option<ImportSettings>)
    ensures
        s == settings_of(*plan),
{
    match plan {
        JobPlan::Import { fast, skip_dedup, .. } => Some(
            ImportSettings { depth: Some(40), threshold: 10, fast: *fast, skip_dedup: *skip_dedup },
        ),
        JobPlan::SyncSource { .. } => Some(
            ImportSettings { depth: None, threshold: 10, fast: true, skip_dedup: true },
        ),
        JobPlan::ImportPgn { fast, skip_dedup, depth, .. } => Some(
            ImportSettings {
                depth: *depth,
                threshold: 10,
                fast: *fast,
                skip_dedup: *skip_dedup,
            },
        ),
        JobPlan::Update => Some(
            ImportSettings { depth: None, threshold: 0, fast: true, skip_dedup: false },
        ),
        _ => None,
    }
}

/// Whether the imports of a job are large enough for a safety copy: those of a source by
/// the size of what was downloaded, which `bulk` tells, those of PGN files where duplicates
/// are let through.
pub fn import_is_risky(plan: &JobPlan, bulk: bool) -> (b: bool)
    ensures
        b == (match *plan {
            JobPlan::SyncSource { .. } => bulk,
            JobPlan::ImportPgn { skip_dedup, .. } => skip_dedup,
            _ => false,
        }),
{
    match plan {
        JobPlan::SyncSource { .. } => bulk,
        JobPlan::ImportPgn { skip_dedup, .. } => *skip_dedup,
        _ => false,
    }
}

/// How positions are indexed: down to which half-move, whether from scratch, and whether
/// rows are appended.
#[derive(Clone, Copy, PartialEq, Eq, Structural, Debug)]
pub struct IndexSettings {
    pub depth: i16,
    pub rebuild: bool,
    pub fast: bool,
}

/// How a job indexes positions, if it does.
pub fn index_settings(plan: &JobPlan) -> (s: Option<IndexSettings>)
    ensures
        s == (match *plan {
            JobPlan::IndexPositions { rebuild, fast } => Some(
                IndexSettings { depth: 40, rebuild, fast },
            ),
            JobPlan::Update => Some(IndexSettings { depth: 40, rebuild: false, fast: true }),
            _ => None,
        }),
{
    match plan {
        JobPlan::IndexPositions { rebuild, fast } => Some(
            IndexSettings { depth: 40, rebuild: *rebuild, fast: *fast },
        ),
        JobPlan::Update => Some(IndexSettings { depth: 40, rebuild: false, fast: true }),
        _ => None,
    }
}

/// Why names are not normalised: there is no FIDE list to take them from. `listed` is how
/// many players it has.
pub fn normalise_refusal(listed: u64) -> (r: Option<String>)
    ensures
        match r {
            Some(m) => listed == 0 && m@
                == "No FIDE list loaded yet — skipping name normalisation (nothing to do)."@,
            None => listed > 0,
        },
{
    if listed == 0 {
        Some("No FIDE list loaded yet — skipping name normalisation (nothing to do).".to_owned())
    } else {
        None
    }
}

/// Why the FIDE list is not loaded anew: it is only to be where that is due.
pub fn refresh_refusal(if_due: bool, due: bool) -> (r: Option<String>)
    ensures
        match r {
            Some(m) => if_due && !due && m@ == "FIDE list is current — no refresh needed."@,
            None => !if_due || due,
        },
{
    if if_due && !due {
        Some("FIDE list is current — no refresh needed.".to_owned())
    } else {
        None
    }
}

/// The file that players are exported to. In a directory it is named after the day, which
/// is written as in `20260603`.
pub fn export_path(to: &ExportTo, day: &str) -> (path: String)
    ensures
        path@ == (match *to {
            ExportTo::File(f) => f@,
            ExportTo::Directory(d) => paths::join_of(d@, day@ + "-players.csv"@),
        }),
{
    match to {
        ExportTo::File(f) => f.clone(),
        ExportTo::Directory(d) => {
            let mut name: String = day.to_owned();
            name.append("-players.csv");
            join_path(d.as_str(), name.as_str())
        },
    }
}

/// What an export of so many players comes to: it fails where there are none.
pub fn export_result(count: u64, path: &str) -> (r: Result<String, String>)
    ensures
        match r {
            Ok(m) => count > 0 && m@ == "Exported "@ + text::dec(count as nat) + " player(s) to "@
                + path@,
            Err(e) => count == 0 && e@ == "no normalised players to export"@,
        },
{
    if count == 0 {
        return Err("no normalised players to export".to_owned());
    }
    let mut m: String = "Exported ".to_owned();
    append_num(&mut m, count);
    m.append(" player(s) to ");
    m.append(path);
    Ok(m)
}

/// What is told when the resolved names were exported.
pub fn resolutions_message(count: u64, path: &str) -> (m: String)
    ensures
        m@ == "Exported "@ + text::dec(count as nat) + " resolution(s) to "@ + path@,
{
    let mut m: String = "Exported ".to_owned();
    append_num(&mut m, count);
    m.append(" resolution(s) to ");
    m.append(path);
    m
}

/// What is told when a source was enabled or disabled.
pub fn enabled_message(key: &str, enabled: bool) -> (m: String)
    ensures
        m@ == "Source '"@ + key@ + "' "@ + (if enabled {
            "enabled"@
        } else {
            "disabled"@
        }) + "."@,
{
    let mut m: String = "Source '".to_owned();
    m.append(key);
    m.append("' ");
    m.append(
        if enabled {
            "enabled"
        } else {
            "disabled"
        },
    );
    m.append(".");
    m
}

/// What is told when the dates of a source were set.
pub fn window_message(key: &str) -> (m: String)
    ensures
        m@ == "Updated date window for '"@ + key@ + "'."@,
{
    let mut m: String = "Updated date window for '".to_owned();
    m.append(key);
    m.append("'.");
    m
}

// ── Syncing a source ─────────────────────────────────────────────────────────

/// How far the sync of a source has come.
#[derive(Clone, Copy, PartialEq, Eq, Structural, Debug)]
pub enum SyncStage {
    Downloading,
    Importing,
}

/// How a stage of a sync ended: with the number of games that came in, or with an error.
pub enum StageEnd {
    Games(u64),
    Failed(String),
}

/// What comes next in the sync of a source.
pub enum SyncNext {
    /// Import what was downloaded.
    Import,
    /// Note this as the outcome of the run, and stop without a word.
    Cancelled { record: String },
    /// Note this as the outcome, report this message, and ask for maintenance.
    Synced { record: String, message: String },
    /// Note this as the outcome and fail with the error.
    Failed { record: String, error: String },
}

pub open spec fn sync_message(name: Seq<char>, imported: u64) -> Seq<char> {
    if imported == 0 {
        name + ": already up to date — no new games."@
    } else {
        name + ": "@ + progress::grouped(imported as i64 as int) + " games imported."@
    }
}

/// The next step of a sync, once a stage has ended. A request to stop comes before
/// everything else; the run's outcome is noted before maintenance is asked for.
pub fn sync_next(stage: SyncStage, end: StageEnd, cancelled: bool, name: &str) -> (next: SyncNext)
    ensures
        if cancelled {
            next matches SyncNext::Cancelled { record } && record@ == "cancelled"@
        } else {
            match end {
                StageEnd::Failed(e) => next matches SyncNext::Failed { record, error } && record@
                    == "error: "@ + e@ && error@ == e@,
                StageEnd::Games(n) => if stage is Downloading {
                    next is Import
                } else {
                    next matches SyncNext::Synced { record, message } && record@ == "ok"@
                        && message@ == sync_message(name@, n)
                },
            }
        },
{
    if cancelled {
        return SyncNext::Cancelled { record: "cancelled".to_owned() };
    }
    match end {
        StageEnd::Failed(error) => {
            let mut record: String = "error: ".to_owned();
            record.append(error.as_str());
            SyncNext::Failed { record, error }
        },
        StageEnd::Games(n) => match stage {
            SyncStage::Downloading => SyncNext::Import,
            SyncStage::Importing => {
                let mut message: String = name.to_owned();
                if n == 0 {
                    message.append(": already up to date — no new games.");
                } else {
                    message.append(": ");
                    let count: String = progress::thousands(n as i64);
                    message.append(count.as_str());
                    message.append(" games imported.");
                }
                SyncNext::Synced { record: "ok".to_owned(), message }
            },
        },
    }
}

// ── The update job ───────────────────────────────────────────────────────────

/// How far the update of all feeds has come.
#[derive(Clone, Copy, PartialEq, Eq, Structural, Debug)]
pub enum UpdateStage {
    /// Nothing is done yet.
    Start,
    /// The FIDE list has been seen to.
    Listed,
    /// Feed number `.0` has been downloaded.
    Downloaded(usize),
    /// Feed number `.0` has been imported.
    Imported(usize),
    /// Positions have been indexed.
    Indexed,
    /// Players have been renamed, where there was a list.
    Normalised,
}

/// What comes next in an update.
#[derive(Clone, Copy, PartialEq, Eq, Structural, Debug)]
pub enum UpdateNext {
    RefreshFideList,
    Download(usize),
    Import(usize),
    IndexPositions,
    Normalise,
    /// Report that no feed is enabled.
    NothingToUpdate,
    /// Report that the update is complete.
    Complete,
    /// Stop without a word: the job was asked to.
    Stopped,
}

/// The next step of an update, in order: the FIDE list if that is due, each of the
/// `feeds` first downloaded and then imported, then the position index, then names if
/// there is a FIDE list. A request to stop is honoured between any two of them, from the
/// first feed on.
pub fn update_next(
    stage: UpdateStage,
    feeds: usize,
    list_due: bool,
    has_list: bool,
    cancelled: bool,
) -> (next: UpdateNext)
    requires
        stage matches UpdateStage::Imported(i) ==> i < feeds,
    ensures
        next == update_step(stage, feeds, list_due, has_list, cancelled),
{
    match stage {
        UpdateStage::Start => if list_due {
            UpdateNext::RefreshFideList
        } else {
            if feeds == 0 {
                UpdateNext::NothingToUpdate
            } else if cancelled {
                UpdateNext::Stopped
            } else {
                UpdateNext::Download(0)
            }
        },
        UpdateStage::Listed => if feeds == 0 {
            UpdateNext::NothingToUpdate
        } else if cancelled {
            UpdateNext::Stopped
        } else {
            UpdateNext::Download(0)
        },
        UpdateStage::Downloaded(i) => if cancelled {
            UpdateNext::Stopped
        } else {
            UpdateNext::Import(i)
        },
        UpdateStage::Imported(i) => if cancelled {
            UpdateNext::Stopped
        } else if i + 1 < feeds {
            UpdateNext::Download(i + 1)
        } else {
            UpdateNext::IndexPositions
        },
        UpdateStage::Indexed => if cancelled {
            UpdateNext::Stopped
        } else if has_list {
            UpdateNext::Normalise
        } else {
            UpdateNext::Complete
        },
        UpdateStage::Normalised => UpdateNext::Complete,
    }
}

/// The next step of an update; see [`update_next`].
pub open spec fn update_step(
    stage: UpdateStage,
    feeds: usize,
    list_due: bool,
    has_list: bool,
    cancelled: bool,
) -> UpdateNext {
    let first_feed = if feeds == 0 {
        UpdateNext::NothingToUpdate
    } else if cancelled {
        UpdateNext::Stopped
    } else {
        UpdateNext::Download(0)
    };
    match stage {
        UpdateStage::Start => if list_due {
            UpdateNext::RefreshFideList
        } else {
            first_feed
        },
        UpdateStage::Listed => first_feed,
        UpdateStage::Normalised => UpdateNext::Complete,
        _ => if cancelled {
            UpdateNext::Stopped
        } else {
            match stage {
                UpdateStage::Downloaded(i) => UpdateNext::Import(i),
                UpdateStage::Imported(i) => if i + 1 < feeds {
                    UpdateNext::Download((i + 1) as usize)
                } else {
                    UpdateNext::IndexPositions
                },
                _ => if has_list {
                    UpdateNext::Normalise
                } else {
                    UpdateNext::Complete
                },
            }
        },
    }
}

/// The stage that follows once a step of an update has been carried out.
pub fn update_done(next: UpdateNext) -> (stage: Option<UpdateStage>)
    ensures
        stage == stage_after(next),
{
    match next {
        UpdateNext::RefreshFideList => Some(UpdateStage::Listed),
        UpdateNext::Download(i) => Some(UpdateStage::Downloaded(i)),
        UpdateNext::Import(i) => Some(UpdateStage::Imported(i)),
        UpdateNext::IndexPositions => Some(UpdateStage::Indexed),
        UpdateNext::Normalise => Some(UpdateStage::Normalised),
        _ => None,
    }
}

pub open spec fn stage_after(next: UpdateNext) -> Option<UpdateStage> {
    match next {
        UpdateNext::RefreshFideList => Some(UpdateStage::Listed),
        UpdateNext::Download(i) => Some(UpdateStage::Downloaded(i)),
        UpdateNext::Import(i) => Some(UpdateStage::Imported(i)),
        UpdateNext::IndexPositions => Some(UpdateStage::Indexed),
        UpdateNext::Normalise => Some(UpdateStage::Normalised),
        _ => None,
    }
}

/// What is told before a step of an update, of a feed by its name and its number.
pub open spec fn update_log_text(next: UpdateNext, names: Seq<Seq<char>>) -> Option<Seq<char>> {
    match next {
        UpdateNext::RefreshFideList => Some("Refreshing the FIDE player list…"@),
        UpdateNext::Download(i) => Some(
            "["@ + text::dec((i + 1) as nat) + "/"@ + text::dec(names.len()) + "] "@
                + names[i as int] + ": download"@,
        ),
        UpdateNext::Import(i) => Some(names[i as int] + ": import (fast)"@),
        UpdateNext::IndexPositions => Some("Indexing positions (fast)"@),
        UpdateNext::Normalise => Some("Normalising players"@),
        _ => None,
    }
}

/// What is told before a step of an update of the feeds with these names.
pub fn update_log(next: UpdateNext, names: &[String]) -> (r: Option<String>)
    requires
        next matches UpdateNext::Download(i) ==> i < names.len(),
        next matches UpdateNext::Import(i) ==> i < names.len(),
    ensures
        reporter::opt_text(r) == update_log_text(next, text::texts(names@)),
{
    proof {
        assert(text::texts(names@).len() == names@.len());
    }
    match next {
        UpdateNext::RefreshFideList => Some("Refreshing the FIDE player list…".to_owned()),
        UpdateNext::Download(i) => {
            let mut m: String = "[".to_owned();
            append_num(&mut m, i as u64 + 1);
            m.append("/");
            append_num(&mut m, names.len() as u64);
            m.append("] ");
            m.append(names[i].as_str());
            m.append(": download");
            Some(m)
        },
        UpdateNext::Import(i) => {
            let mut m: String = names[i].clone();
            m.append(": import (fast)");
            Some(m)
        },
        UpdateNext::IndexPositions => Some("Indexing positions (fast)".to_owned()),
        UpdateNext::Normalise => Some("Normalising players".to_owned()),
        _ => None,
    }
}

/// What is told at the end of an update, if it was not stopped.
pub fn update_message(next: UpdateNext) -> (r: Option<String>)
    ensures
        reporter::opt_text(r) == (match next {
            UpdateNext::NothingToUpdate => Some("No feed sources enabled — nothing to update."@),
            UpdateNext::Complete => Some("Database update complete"@),
            _ => None,
        }),
{
    match next {
        UpdateNext::NothingToUpdate => Some(
            "No feed sources enabled — nothing to update.".to_owned(),
        ),
        UpdateNext::Complete => Some("Database update complete".to_owned()),
        _ => None,
    }
}

/// What is told of the FIDE list in an update: a failure does not end it.
pub fn refresh_message(loaded: &Result<u64, String>) -> (m: String)
    ensures
        m@ == (match *loaded {
            Ok(n) => "FIDE list refreshed ("@ + text::dec(n as nat) + " players)."@,
            Err(e) => "FIDE list refresh failed (will retry next update): "@ + e@,
        }),
{
    match loaded {
        Ok(n) => {
            let mut m: String = "FIDE list refreshed (".to_owned();
            append_num(&mut m, *n);
            m.append(" players).");
            m
        },
        Err(e) => {
            let mut m: String = "FIDE list refresh failed (will retry next update): ".to_owned();
            m.append(e.as_str());
            m
        },
    }
}

/// How many steps an uninterrupted update still takes after a stage.
pub open spec fn steps_left(stage: UpdateStage, feeds: usize) -> nat {
    match stage {
        UpdateStage::Start => (2 * feeds + 4) as nat,
        UpdateStage::Listed => (2 * feeds + 3) as nat,
        UpdateStage::Downloaded(i) => (2 * (feeds - i) + 2) as nat,
        UpdateStage::Imported(i) => (2 * (feeds - i) + 1) as nat,
        UpdateStage::Indexed => 2,
        UpdateStage::Normalised => 1,
    }
}

/// A stage that an update of so many feeds can be at.
pub open spec fn stage_ok(stage: UpdateStage, feeds: usize) -> bool {
    match stage {
        UpdateStage::Downloaded(i) => i < feeds,
        UpdateStage::Imported(i) => i < feeds,
        _ => true,
    }
}

/// Every update comes to an end: each step leads to a stage with fewer steps left, and
/// never past the feeds that there are.
pub proof fn law_update_ends(
    stage: UpdateStage,
    feeds: usize,
    list_due: bool,
    has_list: bool,
    cancelled: bool,
)
    requires
        stage_ok(stage, feeds),
    ensures
        ({
            let next = update_step(stage, feeds, list_due, has_list, cancelled);
            stage_after(next) matches Some(s) ==> stage_ok(s, feeds) && steps_left(s, feeds)
                < steps_left(stage, feeds)
        }),
{
}

// ── Laws of plans ────────────────────────────────────────────────────────────

/// A source is found where it first stands, and one that is not there is not found.
pub proof fn law_sources_are_found(catalog: Seq<Source>, key: Seq<char>, k: int)
    requires
        0 <= k < catalog.len() <= usize::MAX,
        catalog[k].key@ == key,
        forall|i: int| 0 <= i < k ==> (#[trigger] catalog[i]).key@ != key,
    ensures
        source_index(catalog, key) == Some(k as usize),
{
    let c = choose|c: int|
        0 <= c < catalog.len() && (#[trigger] catalog[c]).key@ == key && forall|i: int|
            0 <= i < c ==> (#[trigger] catalog[i]).key@ != key;
    assert(catalog[k].key@ == key);
    assert(c == k);
}

/// What a job is to do is what its parameters say, each under its own name.
pub proof fn law_plans_are_made_of_parameters(
    t: Seq<char>,
    p: Params,
    catalog: Seq<Source>,
    home: Option<Seq<char>>,
    fault_injection: bool,
    r: Result<JobPlan, String>,
)
    requires
        plan_of(t, p, catalog, home, fault_injection, r),
    ensures
        r matches Ok(plan) ==> match plan {
            JobPlan::Download { source, from, to, dir } => t == "download"@ && from == low32(
                params::param_number(p, "from"@),
            ) && to == low32(params::param_number(p, "to"@)) && reporter::opt_text(dir) == path_in(
                p,
                "dir"@,
                home,
            ),
            JobPlan::Import { source, dir, fast, skip_dedup } => t == "import"@
                && reporter::opt_text(dir) == path_in(p, "dir"@, home) && fast == params::param_flag(
                p,
                "fast"@,
            ) && skip_dedup == params::param_flag(p, "skip_dedup"@),
            JobPlan::SetEnabled { key, enabled, acknowledge } => t == "sources_set_enabled"@
                && params::param_text(p, "source"@) == Some(key@) && enabled == params::param_flag(
                p,
                "enabled"@,
            ) && acknowledge == params::param_flag(p, "credit_acked"@),
            JobPlan::SetWindow { key, from, to, exclude_undated } => t == "sources_set_window"@
                && params::param_text(p, "source"@) == Some(key@) && reporter::opt_text(from)
                == params::param_text(p, "from"@) && reporter::opt_text(to) == params::param_text(
                p,
                "to"@,
            ) && exclude_undated == params::param_flag(p, "exclude_undated"@),
            JobPlan::SyncSource { source } => t == "sources_sync"@,
            JobPlan::ImportPgn { spec, fast, skip_dedup, depth, input } => t == "import_pgn"@
                && fast == params::param_flag(p, "fast"@) && skip_dedup == params::param_flag(
                p,
                "skip_dedup"@,
            ) && (spec.visibility@ == "private"@ || spec.visibility@ == "public"@) && (
            params::param_flag(p, "private"@) ==> spec.visibility@ == "private"@) && (
            !params::param_flag(p, "private"@) ==> spec.visibility@ == "public"@) && (
            params::param_text(p, "content"@) is Some <==> input is Content),
            JobPlan::IndexPositions { rebuild, fast } => t == "index_positions"@ && rebuild
                == params::param_flag(p, "rebuild"@) && fast == params::param_flag(p, "fast"@),
            JobPlan::DedupGames { dry_run, full } => t == "dedup_games"@ && dry_run
                == params::param_flag(p, "dry_run"@) && full == params::param_flag(p, "full"@),
            JobPlan::DedupPlayers => t == "dedup_players"@,
            JobPlan::Cleanup { non_standard, dry_run } => t == "cleanup"@ && non_standard
                == params::param_flag(p, "non_standard"@) && dry_run == params::param_flag(
                p,
                "dry_run"@,
            ),
            JobPlan::Normalise { dry_run } => t == "normalise"@ && dry_run == params::param_flag(
                p,
                "dry_run"@,
            ),
            JobPlan::ResolveFide { dry_run, no_service } => t == "resolve_fide"@ && dry_run
                == params::param_flag(p, "dry_run"@) && no_service == params::param_flag(
                p,
                "no_service"@,
            ),
            JobPlan::ResolveExport { path } => t == "resolve_export"@ && path_in(p, "path"@, home)
                == Some(path@),
            JobPlan::ResolveImport { path } => t == "resolve_import"@ && path_in(p, "path"@, home)
                == Some(path@),
            JobPlan::FideRefresh { if_due, origin } => t == "fide_refresh"@ && if_due
                == params::param_flag(p, "if_due"@),
            JobPlan::PlayersImport { path } => t == "players_import"@ && path_in(p, "path"@, home)
                == Some(path@),
            JobPlan::PlayersExport { to } => t == "players_export"@,
            JobPlan::Backup { collection, dir } => t == "backup"@ && params::param_text(
                p,
                "collection"@,
            ) == Some(collection@) && path_in(p, "dir"@, home) == Some(dir@),
            JobPlan::Update => t == "update"@,
        },
{
}

/// Positions are indexed down to the depth that is asked for, not at all for 0, and to the
/// fortieth half-move where nothing is said.
pub proof fn law_depths_of_imports(n: u64)
    ensures
        import_depth(None) == Some(40i16),
        import_depth(Some(0)) is None,
        0 < n <= i16::MAX ==> import_depth(Some(n)) == Some(n as i16),
{
}

/// An import of a file or a source does what it was asked to; one for a source that is synced
/// leaves positions and duplicates to what comes after it; an update looks for duplicates;
/// and no other job imports games.
pub proof fn law_settings_of_imports(
    source: usize,
    dir: Option<String>,
    spec: ImportSpec,
    fast: bool,
    skip_dedup: bool,
    depth: Option<i16>,
    input: PgnInput,
)
    ensures
        settings_of(JobPlan::Import { source, dir, fast, skip_dedup }) matches Some(s) && s.fast
            == fast && s.skip_dedup == skip_dedup && s.depth == Some(40i16) && s.threshold == 10,
        settings_of(JobPlan::ImportPgn { spec, fast, skip_dedup, depth, input }) matches Some(s)
            && s.fast == fast && s.skip_dedup == skip_dedup && s.depth == depth && s.threshold
            == 10,
        settings_of(JobPlan::SyncSource { source }) matches Some(s) && s.fast && s.skip_dedup
            && s.depth is None && s.threshold == 10,
        settings_of(JobPlan::Update) matches Some(s) && s.fast && !s.skip_dedup && s.depth is None
            && s.threshold == 0,
        settings_of(JobPlan::DedupPlayers) is None,
{
}

/// An update goes feed by feed: each is downloaded and then imported, then the positions are
/// indexed and the players normalised, where there is a list for it.
pub proof fn law_updates_go_feed_by_feed(i: usize, feeds: usize, list_due: bool, has_list: bool)
    requires
        i < feeds,
    ensures
        update_step(UpdateStage::Start, feeds, true, has_list, false)
            == UpdateNext::RefreshFideList,
        update_step(UpdateStage::Start, feeds, false, has_list, false) == UpdateNext::Download(0),
        update_step(UpdateStage::Listed, feeds, list_due, has_list, false) == UpdateNext::Download(
            0,
        ),
        update_step(UpdateStage::Downloaded(i), feeds, list_due, has_list, false)
            == UpdateNext::Import(i),
        i + 1 < feeds ==> update_step(UpdateStage::Imported(i), feeds, list_due, has_list, false)
            == UpdateNext::Download((i + 1) as usize),
        i + 1 == feeds ==> update_step(UpdateStage::Imported(i), feeds, list_due, has_list, false)
            == UpdateNext::IndexPositions,
        update_step(UpdateStage::Indexed, feeds, list_due, true, false) == UpdateNext::Normalise,
        update_step(UpdateStage::Indexed, feeds, list_due, false, false) == UpdateNext::Complete,
        update_step(UpdateStage::Normalised, feeds, list_due, has_list, false)
            == UpdateNext::Complete,
{
}

/// A cancelled update downloads, imports and indexes nothing more.
pub proof fn law_cancelled_updates_stop(
    stage: UpdateStage,
    feeds: usize,
    list_due: bool,
    has_list: bool,
)
    ensures
        ({
            let n = update_step(stage, feeds, list_due, has_list, true);
            &&& !(n is Download) && !(n is Import) && !(n is IndexPositions) && !(n is Normalise)
            &&& n is RefreshFideList ==> stage is Start
            &&& stage is Downloaded || stage is Imported || stage is Indexed ==> n is Stopped
        }),
{
}

/// Without a feed there is nothing to update.
pub proof fn law_nothing_to_update(has_list: bool, cancelled: bool)
    ensures
        update_step(UpdateStage::Start, 0, false, has_list, cancelled)
            == UpdateNext::NothingToUpdate,
        update_step(UpdateStage::Listed, 0, false, has_list, cancelled)
            == UpdateNext::NothingToUpdate,
{
}

/// A step that is done leads to its stage.
pub proof fn law_steps_lead_to_their_stages(i: usize)
    ensures
        stage_after(UpdateNext::RefreshFideList) == Some(UpdateStage::Listed),
        stage_after(UpdateNext::Download(i)) == Some(UpdateStage::Downloaded(i)),
        stage_after(UpdateNext::Import(i)) == Some(UpdateStage::Imported(i)),
        stage_after(UpdateNext::IndexPositions) == Some(UpdateStage::Indexed),
        stage_after(UpdateNext::Normalise) == Some(UpdateStage::Normalised),
        stage_after(UpdateNext::Complete) is None,
        stage_after(UpdateNext::Stopped) is None,
        stage_after(UpdateNext::NothingToUpdate) is None,
{
}

/// What is told of a sync and of the steps of an update.
pub proof fn law_updates_are_told(name: Seq<char>, n: u64, names: Seq<Seq<char>>, i: usize)
    requires
        i < names.len(),
        0 < n <= i64::MAX,
    ensures
        sync_message(name, 0) == name + ": already up to date — no new games."@,
        sync_message(name, n) == name + ": "@ + progress::grouped(n as int) + " games imported."@,
        update_log_text(UpdateNext::Download(i), names) == Some(
            "["@ + text::dec((i + 1) as nat) + "/"@ + text::dec(names.len()) + "] "@
                + names[i as int] + ": download"@,
        ),
        update_log_text(UpdateNext::Import(i), names) == Some(
            names[i as int] + ": import (fast)"@,
        ),
        update_log_text(UpdateNext::Complete, names) is None,
{
}

} // verus!
