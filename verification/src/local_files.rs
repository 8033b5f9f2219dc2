//! The client's own files: browsing directories for PGN files, sending them to a server,
//! and writing games to them.
use crate::inputs;
use crate::inputs::sort_names;
use crate::paths;
use crate::paths::join_path;
use crate::sorting;
use crate::sorting::{codes_of, sort_places};
use crate::text;
use crate::text::{chars_of, has_prefix, has_suffix, slice, string_of, to_lower, trim_chars};
use vstd::prelude::*;
use vstd::string::*;

verus! {

/// A file of more bytes than this is not read whole.
pub const MAX_FILE_SIZE: u64 = 100 * 1024 * 1024;

// ── Names ────────────────────────────────────────────────────────────────────

/// The endings of files that the browser shows.
pub open spec fn browsable_endings() -> Seq<Seq<char>> {
    seq![".pgn"@, ".zip"@, ".zst"@, ".zstd"@, ".gz"@, ".gzip"@]
}

/// The endings of files that a server takes.
pub open spec fn uploadable_endings() -> Seq<Seq<char>> {
    seq![".pgn"@, ".zip"@, ".zst"@, ".zstd"@, ".7z"@]
}

/// Whether a text has one of some endings.
pub open spec fn has_ending(s: Seq<char>, endings: Seq<Seq<char>>) -> bool {
    exists|i: int| 0 <= i < endings.len() && text::ends_with(s, #[trigger] endings[i])
}

fn ends(s: &[char], ending: &str) -> (b: bool)
    ensures
        b == text::ends_with(s@, ending@),
{
    has_suffix(s, &chars_of(ending))
}

/// Whether the browser shows a file: PGN, plain or compressed.
pub fn is_browsable_pgn(name: &str) -> (b: bool)
    ensures
        b == has_ending(text::lowercase(name@), browsable_endings()),
        text::is_ascii_text(name@) ==> b == has_ending(
            text::ascii_lowercase(name@),
            browsable_endings(),
        ),
{
    let lower: String = to_lower(name);
    ends_browsably(lower.as_str())
}

/// Whether the browser shows a file whose name is this in small letters.
pub fn ends_browsably(lower: &str) -> (b: bool)
    ensures
        b == has_ending(lower@, browsable_endings()),
{
    let n: Vec<char> = chars_of(lower);
    let b: bool = ends(&n, ".pgn") || ends(&n, ".zip") || ends(&n, ".zst") || ends(&n, ".zstd")
        || ends(&n, ".gz") || ends(&n, ".gzip");
    proof {
        let e = browsable_endings();
        assert(e[0] == ".pgn"@ && e[1] == ".zip"@ && e[2] == ".zst"@);
        assert(e[3] == ".zstd"@ && e[4] == ".gz"@ && e[5] == ".gzip"@);
    }
    b
}

/// Whether a server takes a file; compressed in fewer ways than the browser shows.
pub fn is_uploadable(name: &str) -> (b: bool)
    ensures
        b == has_ending(text::lowercase(name@), uploadable_endings()),
        text::is_ascii_text(name@) ==> b == has_ending(
            text::ascii_lowercase(name@),
            uploadable_endings(),
        ),
{
    let lower: String = to_lower(name);
    ends_uploadably(lower.as_str())
}

/// Whether a server takes a file whose name is this in small letters.
pub fn ends_uploadably(lower: &str) -> (b: bool)
    ensures
        b == has_ending(lower@, uploadable_endings()),
{
    let n: Vec<char> = chars_of(lower);
    let b: bool = ends(&n, ".pgn") || ends(&n, ".zip") || ends(&n, ".zst") || ends(&n, ".zstd")
        || ends(&n, ".7z");
    proof {
        let e = uploadable_endings();
        assert(e[0] == ".pgn"@ && e[1] == ".zip"@ && e[2] == ".zst"@);
        assert(e[3] == ".zstd"@ && e[4] == ".7z"@);
    }
    b
}

/// The first argument after the program's own that names a file the browser can open.
pub fn pgn_arg(argv: &[String]) -> (r: Option<String>)
    ensures
        match r {
            Some(s) => exists|i: int|
                1 <= i < argv@.len() && s@ == argv@[i]@ && has_ending(
                    text::lowercase(s@),
                    browsable_endings(),
                ) && forall|k: int|
                    1 <= k < i ==> !has_ending(
                        text::lowercase((#[trigger] argv@[k])@),
                        browsable_endings(),
                    ),
            None => forall|k: int|
                1 <= k < argv@.len() ==> !has_ending(
                    text::lowercase((#[trigger] argv@[k])@),
                    browsable_endings(),
                ),
        },
{
    let mut i: usize = 1;
    while i < argv.len()
        invariant
            1 <= i,
            forall|k: int|
                1 <= k < i && k < argv@.len() ==> !has_ending(
                    text::lowercase((#[trigger] argv@[k])@),
                    browsable_endings(),
                ),
        decreases argv.len() - i,
    {
        if is_browsable_pgn(argv[i].as_str()) {
            return Some(argv[i].clone());
        }
        i += 1;
    }
    None
}

// ── Directories ──────────────────────────────────────────────────────────────

/// An entry of a directory.
#[derive(Debug)]
pub struct DirEntry {
    pub name: String,
    pub is_dir: bool,
    pub size: u64,
}

/// What a directory shows.
#[derive(Debug)]
pub struct DirectoryListing {
    pub path: String,
    pub parent: Option<String>,
    pub entries: Vec<DirEntry>,
}

impl Clone for DirEntry {
    fn clone(&self) -> (r: Self)
        ensures
            r == *self,
    {
        DirEntry { name: self.name.clone(), is_dir: self.is_dir, size: self.size }
    }
}

/// Where a path leads that may begin with the home directory; an empty one is the home
/// directory itself.
pub open spec fn expanded(path: Seq<char>, home: Option<Seq<char>>) -> Option<Seq<char>> {
    if path.len() == 0 || path == "~"@ {
        home
    } else if text::starts_with(path, "~/"@) {
        match home {
            Some(h) => Some(paths::join_of(h, path.skip(2))),
            None => None,
        }
    } else {
        Some(path)
    }
}

fn no_home() -> (s: String)
    ensures
        s@ == "Cannot determine home directory"@,
{
    "Cannot determine home directory".to_owned()
}

pub open spec fn home_text(home: Option<&str>) -> Option<Seq<char>> {
    match home {
        Some(h) => Some(h@),
        None => None,
    }
}

/// The directory that a path means. A path that needs the home directory is refused where
/// there is none.
pub fn directory_of(path: &str, home: Option<&str>) -> (r: Result<String, String>)
    ensures
        match expanded(path@, home_text(home)) {
            Some(p) => r matches Ok(s) && s@ == p,
            None => r matches Err(e) && e@ == "Cannot determine home directory"@,
        },
{
    let chars: Vec<char> = chars_of(path);
    proof {
        reveal_strlit("~");
        reveal_strlit("~/");
    }
    if chars.len() == 0 || text::same(path, "~") {
        match home {
            Some(h) => Ok(h.to_owned()),
            None => Err(no_home()),
        }
    } else {
        destination_of(path, home)
    }
}

/// The file that a path means, where only a leading `~/` stands for the home directory.
pub fn destination_of(path: &str, home: Option<&str>) -> (r: Result<String, String>)
    ensures
        if text::starts_with(path@, "~/"@) {
            match home {
                Some(h) => r matches Ok(s) && s@ == paths::join_of(h@, path@.skip(2)),
                None => r matches Err(e) && e@ == "Cannot determine home directory"@,
            }
        } else {
            r matches Ok(s) && s@ == path@
        },
{
    let chars: Vec<char> = chars_of(path);
    proof {
        reveal_strlit("~/");
    }
    if has_prefix(&chars, &chars_of("~/")) {
        match home {
            Some(h) => {
                let rest: Vec<char> = slice(&chars, 2, chars.len());
                assert(rest@ =~= path@.skip(2));
                let tail: String = string_of(&rest);
                Ok(join_path(h, tail.as_str()))
            },
            None => Err(no_home()),
        }
    } else {
        Ok(path.to_owned())
    }
}

/// Whether a name is hidden.
pub open spec fn is_hidden(name: Seq<char>) -> bool {
    name.len() > 0 && name[0] == '.'
}

/// The directories that are shown.
pub open spec fn shown_dirs() -> spec_fn(DirEntry) -> bool {
    |e: DirEntry| !is_hidden(e.name@) && e.is_dir
}

/// The files that are shown.
pub open spec fn shown_files() -> spec_fn(DirEntry) -> bool {
    |e: DirEntry|
        !is_hidden(e.name@) && !e.is_dir && has_ending(
            text::lowercase(e.name@),
            browsable_endings(),
        )
}

/// What entries are sorted by: their names, whatever the case.
pub open spec fn name_keys(v: Seq<DirEntry>) -> Seq<Seq<nat>> {
    v.map_values(|e: DirEntry| sorting::codes(text::lowercase(e.name@)))
}

/// Whether a list is another one, sorted by name; entries with equal names stay in their
/// order.
pub open spec fn is_sorted_from(out: Seq<DirEntry>, v: Seq<DirEntry>) -> bool {
    exists|p: Seq<usize>| #[trigger] arranges(p, v) && out == rearranged(v, p)
}

pub open spec fn arranges(p: Seq<usize>, v: Seq<DirEntry>) -> bool {
    sorting::is_arrangement(p, v.len() as int) && sorting::in_key_order(name_keys(v), p)
}

pub open spec fn rearranged(v: Seq<DirEntry>, p: Seq<usize>) -> Seq<DirEntry> {
    p.map_values(|i: usize| v[i as int])
}

fn sort_entries(v: &Vec<DirEntry>) -> (out: Vec<DirEntry>)
    ensures
        is_sorted_from(out@, v@),
{
    let mut keys: Vec<Vec<u64>> = Vec::new();
    let mut i: usize = 0;
    while i < v.len()
        invariant
            i <= v.len(),
            keys@.len() == i,
            forall|k: int|
                0 <= k < i ==> sorting::numbers((#[trigger] keys@[k])@) == sorting::codes(
                    text::lowercase(v@[k].name@),
                ),
        decreases v.len() - i,
    {
        let lower: String = to_lower(v[i].name.as_str());
        keys.push(codes_of(lower.as_str()));
        i += 1;
    }
    let places: Vec<usize> = sort_places(&keys);
    assert(sorting::key_numbers(keys@) =~= name_keys(v@));
    let mut out: Vec<DirEntry> = Vec::new();
    let mut j: usize = 0;
    while j < places.len()
        invariant
            j <= places.len(),
            sorting::is_arrangement(places@, v@.len() as int),
            out@ == rearranged(v@, places@).take(j as int),
        decreases places.len() - j,
    {
        let at: usize = places[j];
        out.push(v[at].clone());
        j += 1;
        assert(out@ =~= rearranged(v@, places@).take(j as int));
    }
    assert(out@ =~= rearranged(v@, places@));
    assert(arranges(places@, v@));
    out
}

/// The size of a directory is 0.
pub open spec fn sizeless(dirs: Seq<DirEntry>) -> Seq<DirEntry> {
    dirs.map_values(|e: DirEntry| DirEntry { size: 0, ..e })
}

/// What a directory shows, of all that is in it: the directories, then the PGN files, each
/// by name; nothing that is hidden. The size of a directory is 0.
pub fn listing(path: String, parent: Option<String>, all: &[DirEntry]) -> (l: DirectoryListing)
    ensures
        l.path == path,
        l.parent == parent,
        exists|dirs: Seq<DirEntry>, files: Seq<DirEntry>|
            is_sorted_from(dirs, sizeless(all@.filter(shown_dirs()))) && is_sorted_from(
                files,
                all@.filter(shown_files()),
            ) && l.entries@ == #[trigger] (dirs + files),
{
    let mut dirs: Vec<DirEntry> = Vec::new();
    let mut files: Vec<DirEntry> = Vec::new();
    let mut i: usize = 0;
    proof {
        reveal(Seq::filter);
        assert(all@.take(0) =~= Seq::empty());
    }
    while i < all.len()
        invariant
            i <= all.len(),
            dirs@ == sizeless(all@.take(i as int).filter(shown_dirs())),
            files@ == all@.take(i as int).filter(shown_files()),
        decreases all.len() - i,
    {
        proof {
            reveal(Seq::filter);
            let t = all@.take(i + 1);
            assert(t.drop_last() =~= all@.take(i as int));
            assert(t.last() == all@[i as int]);
        }
        let name: Vec<char> = chars_of(all[i].name.as_str());
        if !(name.len() > 0 && name[0] == '.') {
            if all[i].is_dir {
                let ghost had = all@.take(i as int).filter(shown_dirs());
                dirs.push(DirEntry { name: all[i].name.clone(), is_dir: true, size: 0 });
                assert(dirs@ =~= sizeless(had.push(all@[i as int])));
            } else if is_browsable_pgn(all[i].name.as_str()) {
                files.push(all[i].clone());
            }
        }
        i += 1;
    }
    assert(all@.take(i as int) =~= all@);
    let mut entries: Vec<DirEntry> = sort_entries(&dirs);
    let mut sorted_files: Vec<DirEntry> = sort_entries(&files);
    let ghost d = entries@;
    let ghost f = sorted_files@;
    entries.append(&mut sorted_files);
    assert(entries@ == d + f);
    DirectoryListing { path, parent, entries }
}

/// Whether a file is too large to be read whole.
pub fn is_too_large(size: u64) -> (b: bool)
    ensures
        b == (size > MAX_FILE_SIZE),
{
    size > MAX_FILE_SIZE
}

// ── Sending files ────────────────────────────────────────────────────────────

/// The address of a service of a server.
pub fn service_url(base_url: &str, service: &str) -> (url: String)
    ensures
        url@ == text::trim_end_matches(base_url@, '/') + service@,
{
    let mut url: String = string_of(&text::trim_end_char(&chars_of(base_url), '/'));
    url.append(service);
    url
}

/// Whether these are the paths of files in a folder, in the order of their names.
pub open spec fn is_upload_of(
    files: Seq<Seq<char>>,
    folder: Seq<char>,
    names: Seq<Seq<char>>,
) -> bool {
    exists|sorted: Seq<Seq<char>>|
        #[trigger] inputs::is_sorted_list(sorted, names) && files == sorted.map_values(
            |n: Seq<char>| paths::join_of(folder, n),
        )
}

/// What is sent, or why nothing is: a file by itself, or the files of a folder that a
/// server takes, of which there must be some, in the order of their names.
pub fn files_to_upload(path: &str, is_file: bool, is_dir: bool, names: &[String]) -> (r: Result<
    Vec<String>,
    String,
>)
    ensures
        if is_file {
            r matches Ok(v) && text::texts(v@) == seq![path@]
        } else if is_dir {
            let wanted = text::texts(names@).filter(uploadable());
            if wanted.len() == 0 {
                r matches Err(e) && e@ == path@ + ": no .pgn/.zip/.zst/.7z files in folder"@
            } else {
                r matches Ok(v) && is_upload_of(text::texts(v@), path@, wanted)
            }
        } else {
            r matches Err(e) && e@ == path@ + ": not a file or folder"@
        },
{
    let mut out: Vec<String> = Vec::new();
    if is_file {
        out.push(path.to_owned());
        assert(text::texts(out@) =~= seq![path@]);
        return Ok(out);
    }
    if !is_dir {
        let mut e: String = path.to_owned();
        e.append(": not a file or folder");
        return Err(e);
    }
    let ghost all = text::texts(names@);
    let mut i: usize = 0;
    proof {
        reveal(Seq::filter);
        assert(all.take(0) =~= Seq::empty());
        assert(text::texts(out@) =~= Seq::empty());
    }
    while i < names.len()
        invariant
            i <= names.len(),
            all == text::texts(names@),
            text::texts(out@) == all.take(i as int).filter(uploadable()),
        decreases names.len() - i,
    {
        proof {
            reveal(Seq::filter);
            let t = all.take(i + 1);
            assert(t.drop_last() =~= all.take(i as int));
            assert(t.last() == names@[i as int]@);
        }
        let ghost before = text::texts(out@);
        if is_uploadable(names[i].as_str()) {
            out.push(names[i].clone());
            assert(text::texts(out@) =~= before.push(names@[i as int]@));
        }
        i += 1;
    }
    assert(all.take(i as int) =~= all);
    assert(text::texts(out@).len() == out@.len());
    if out.len() == 0 {
        let mut e: String = path.to_owned();
        e.append(": no .pgn/.zip/.zst/.7z files in folder");
        Err(e)
    } else {
        let sorted: Vec<String> = sort_names(&out);
        Ok(join_all(path, &sorted))
    }
}

fn join_all(folder: &str, names: &[String]) -> (out: Vec<String>)
    ensures
        text::texts(out@) == text::texts(names@).map_values(
            |n: Seq<char>| paths::join_of(folder@, n),
        ),
{
    let ghost want = text::texts(names@).map_values(|n: Seq<char>| paths::join_of(folder@, n));
    let mut out: Vec<String> = Vec::new();
    let mut i: usize = 0;
    while i < names.len()
        invariant
            i <= names.len(),
            want == text::texts(names@).map_values(|n: Seq<char>| paths::join_of(folder@, n)),
            out@.len() == i,
            forall|k: int| 0 <= k < i ==> (#[trigger] out@[k])@ == want[k],
        decreases names.len() - i,
    {
        out.push(join_path(folder, names[i].as_str()));
        i += 1;
    }
    assert(text::texts(out@) =~= want);
    out
}

pub open spec fn uploadable() -> spec_fn(Seq<char>) -> bool {
    |name: Seq<char>| has_ending(text::lowercase(name), uploadable_endings())
}

/// Tells when progress is worth reporting: about every hundredth of a transfer.
#[derive(Clone, Copy, Debug)]
pub struct ProgressTicker {
    pub step: u64,
    pub next_emit: u64,
}

impl ProgressTicker {
    /// For a transfer of so many bytes.
    pub fn new(total: u64) -> (t: Self)
        ensures
            t.next_emit == 0,
            t.step == (if total / 100 > 1 {
                total / 100
            } else {
                1
            }),
    {
        ProgressTicker {
            step: if total / 100 > 1 {
                total / 100
            } else {
                1
            },
            next_emit: 0,
        }
    }

    /// Whether to report that so many bytes are through; the next report comes a step
    /// later.
    pub fn tick(&mut self, at: u64) -> (emit: bool)
        requires
            at + old(self).step <= u64::MAX,
        ensures
            emit == (at >= old(self).next_emit),
            final(self).step == old(self).step,
            final(self).next_emit == (if emit {
                at + old(self).step
            } else {
                old(self).next_emit as int
            }),
    {
        if at >= self.next_emit {
            self.next_emit = at + self.step;
            true
        } else {
            false
        }
    }
}

// ── Writing games ────────────────────────────────────────────────────────────

pub open spec fn is_line_end(c: char) -> bool {
    c == '\r' || c == '\n'
}

pub open spec fn line_ends() -> spec_fn(char) -> bool {
    |c: char| is_line_end(c)
}

/// A game without the line ends at its end.
pub open spec fn bare_game(pgn: Seq<char>) -> Seq<char> {
    text::cut_end(pgn, line_ends())
}

/// Whether a file ends with a blank line.
pub open spec fn ends_blank(tail: Seq<char>) -> bool {
    text::ends_with(tail, "\n\n"@) || text::ends_with(tail, "\r\n\r\n"@)
}

/// What is added to a file to append a game to it: a blank line first, unless the file is
/// empty or ends with one. `tail` is the end of the file, `None` if it has nothing in it.
pub fn appended_text(pgn: &str, tail: Option<&str>) -> (r: Result<String, String>)
    ensures
        if text::trim(bare_game(pgn@)).len() == 0 {
            r matches Err(e) && e@ == "PGN content is empty"@
        } else {
            r matches Ok(s) && s@ == (if tail is Some && !ends_blank(tail->0@) {
                "\n\n"@
            } else {
                ""@
            }) + bare_game(pgn@) + "\n"@
        },
{
    let chars: Vec<char> = chars_of(pgn);
    let mut n: usize = chars.len();
    while n > 0 && (chars[n - 1] == '\r' || chars[n - 1] == '\n')
        invariant
            n <= chars.len(),
            forall|k: int| n <= k < chars.len() ==> is_line_end(#[trigger] chars@[k]),
        decreases n,
    {
        n -= 1;
    }
    proof {
        text::lemma_cut_end_is(chars@, line_ends(), n as int);
        assert(chars@.subrange(0, n as int) =~= chars@.take(n as int));
    }
    let game: Vec<char> = slice(&chars, 0, n);
    if trim_chars(&game).len() == 0 {
        return Err("PGN content is empty".to_owned());
    }
    let needs_blank: bool = match tail {
        Some(t) => {
            let end: Vec<char> = chars_of(t);
            !(has_suffix(&end, &chars_of("\n\n")) || has_suffix(&end, &chars_of("\r\n\r\n")))
        },
        None => false,
    };
    let mut out: String = if needs_blank {
        "\n\n".to_owned()
    } else {
        "".to_owned()
    };
    let body: String = string_of(&game);
    out.append(body.as_str());
    out.append("\n");
    Ok(out)
}

/// Checks a pasted text: it must not be blank.
pub fn check_content(content: &str) -> (r: Result<(), String>)
    ensures
        if text::trim(content@).len() == 0 {
            r matches Err(e) && e@ == "PGN content is empty"@
        } else {
            r is Ok
        },
{
    if trim_chars(&chars_of(content)).len() == 0 {
        Err("PGN content is empty".to_owned())
    } else {
        Ok(())
    }
}

/// The name of the file that is written in place of another until it is complete.
pub fn temp_name(file_name: Option<&str>) -> (s: String)
    ensures
        s@ == "."@ + (match file_name {
            Some(n) => n@,
            None => "pgn"@,
        }) + ".tmp"@,
{
    let mut s: String = ".".to_owned();
    s.append(
        match file_name {
            Some(n) => n,
            None => "pgn",
        },
    );
    s.append(".tmp");
    s
}

/// A file to which a game is appended, whatever was in it, ends with a newline, and the
/// game is in it, behind a blank line or at the very beginning.
pub proof fn law_appended_game_stands_apart(old_file: Seq<char>, pgn: Seq<char>)
    requires
        text::trim(bare_game(pgn)).len() > 0,
    ensures
        ({
            let tail = if old_file.len() > 0 && !ends_blank(old_file) {
                "\n\n"@
            } else {
                ""@
            };
            let before = old_file + tail;
            let new_file = before + bare_game(pgn) + "\n"@;
            &&& before.len() == 0 || ends_blank(before)
            &&& new_file.len() > 0 && new_file.last() == '\n'
        }),
{
    reveal_strlit("\n");
    reveal_strlit("\n\n");
    reveal_strlit("");
    let before = old_file + "\n\n"@;
    assert(before.skip(before.len() - 2) =~= "\n\n"@);
    assert(old_file + ""@ =~= old_file);
}

// ── Laws of local files ──────────────────────────────────────────────────────

/// Which files are shown, and which a server takes, is told by their endings.
pub proof fn law_endings_tell_the_files(stem: Seq<char>)
    ensures
        has_ending(stem + ".pgn"@, browsable_endings()),
        has_ending(stem + ".zip"@, browsable_endings()),
        has_ending(stem + ".zst"@, browsable_endings()),
        has_ending(stem + ".gz"@, browsable_endings()),
        has_ending(stem + ".pgn"@, uploadable_endings()),
        has_ending(stem + ".zip"@, uploadable_endings()),
        has_ending(stem + ".zst"@, uploadable_endings()),
        has_ending(stem + ".7z"@, uploadable_endings()),
        !has_ending(stem + ".txt"@, browsable_endings()),
        !has_ending(stem + ".txt"@, uploadable_endings()),
{
    reveal_strlit(".pgn");
    reveal_strlit(".zip");
    reveal_strlit(".zst");
    reveal_strlit(".zstd");
    reveal_strlit(".gz");
    reveal_strlit(".gzip");
    reveal_strlit(".7z");
    reveal_strlit(".txt");
    let none = Seq::<char>::empty();
    let b = browsable_endings();
    let u = uploadable_endings();
    text::law_parts_are_found(stem, ".pgn"@, none);
    text::law_parts_are_found(stem, ".zip"@, none);
    text::law_parts_are_found(stem, ".zst"@, none);
    text::law_parts_are_found(stem, ".gz"@, none);
    text::law_parts_are_found(stem, ".7z"@, none);
    assert(b[0] == ".pgn"@ && b[1] == ".zip"@ && b[2] == ".zst"@ && b[4] == ".gz"@);
    assert(u[0] == ".pgn"@ && u[1] == ".zip"@ && u[2] == ".zst"@ && u[4] == ".7z"@);
    let t = stem + ".txt"@;
    assert(t.last() == 't' && t[t.len() - 2] == 'x');
    assert forall|i: int| 0 <= i < b.len() implies !text::ends_with(t, #[trigger] b[i]) by {
        lemma_other_ending(t, b[i]);
    }
    assert forall|i: int| 0 <= i < u.len() implies !text::ends_with(t, #[trigger] u[i]) by {
        lemma_other_ending(t, u[i]);
    }
}

proof fn lemma_other_ending(t: Seq<char>, e: Seq<char>)
    requires
        t.len() >= 2 && e.len() >= 2,
        t.last() != e.last() || t[t.len() - 2] != e[e.len() - 2],
    ensures
        !text::ends_with(t, e),
{
    if text::ends_with(t, e) {
        let s = t.skip(t.len() - e.len());
        assert(s[e.len() - 1] == t.last());
        assert(s[e.len() - 2] == t[t.len() - 2]);
    }
}

/// Directories and files are shown apart, and hidden ones not at all.
pub proof fn law_what_is_shown(e: DirEntry)
    ensures
        !(shown_dirs()(e) && shown_files()(e)),
        e.name@.len() > 0 && e.name@[0] == '.' ==> !shown_dirs()(e) && !shown_files()(e),
        e.is_dir && !(e.name@.len() > 0 && e.name@[0] == '.') ==> shown_dirs()(e),
        shown_files()(e) ==> !e.is_dir,
{
}

/// The tilde is the home directory, alone or before a path; any other path is its own.
pub proof fn law_tildes_are_the_home(rest: Seq<char>, home: Seq<char>)
    ensures
        expanded("~"@, Some(home)) == Some(home),
        expanded(Seq::empty(), Some(home)) == Some(home),
        expanded("~/"@ + rest, Some(home)) == Some(paths::join_of(home, rest)),
        expanded("~/"@ + rest, None) is None,
        rest.len() > 0 && rest[0] != '~' ==> expanded(rest, Some(home)) == Some(rest),
{
    reveal_strlit("~");
    reveal_strlit("~/");
    let none = Seq::<char>::empty();
    text::law_parts_are_found(none, "~/"@, rest);
    assert(("~/"@ + rest).skip(2) =~= rest);
    if rest.len() > 1 {
        assert(rest.take(2)[0] == rest[0]);
    }
}

/// Directories lose their sizes, and nothing else.
pub proof fn law_directories_have_no_size(dirs: Seq<DirEntry>, k: int)
    requires
        0 <= k < dirs.len(),
    ensures
        sizeless(dirs).len() == dirs.len(),
        sizeless(dirs)[k].size == 0,
        sizeless(dirs)[k].name == dirs[k].name,
        sizeless(dirs)[k].is_dir == dirs[k].is_dir,
{
}

/// A game is written without the line ends behind it, and no other character is lost.
pub proof fn law_games_lose_only_line_ends(pgn: Seq<char>, ends: Seq<char>)
    requires
        pgn.len() > 0 ==> pgn.last() != '\n' && pgn.last() != '\r',
        forall|i: int| 0 <= i < ends.len() ==> #[trigger] ends[i] == '\n' || ends[i] == '\r',
    ensures
        bare_game(pgn + ends) == pgn,
{
    let s = pgn + ends;
    assert forall|i: int| pgn.len() <= i < s.len() implies line_ends()(#[trigger] s[i]) by {
        assert(s[i] == ends[i - pgn.len()]);
    }
    text::lemma_cut_end_is(s, line_ends(), pgn.len() as int);
    assert(s.take(pgn.len() as int) =~= pgn);
}

/// A sorted list holds what the list holds, as often as it does, in the order of the names.
pub proof fn law_sorting_loses_nothing(out: Seq<DirEntry>, v: Seq<DirEntry>, k: int)
    requires
        is_sorted_from(out, v),
        0 <= k < v.len(),
        v.len() <= usize::MAX,
    ensures
        out.len() == v.len(),
        out.contains(v[k]),
        0 <= k < out.len() ==> v.contains(out[k]),
        forall|i: int, j: int|
            0 <= i < j < out.len() ==> !sorting::precedes(
                sorting::codes(text::lowercase((#[trigger] out[j]).name@)),
                sorting::codes(text::lowercase((#[trigger] out[i]).name@)),
            ),
{
    let p = choose|p: Seq<usize>| #[trigger] arranges(p, v) && out == rearranged(v, p);
    assert(p.contains(k as usize));
    let i = p.index_of(k as usize);
    assert(out[i] == v[k]);
    assert(out[k] == v[p[k] as int]);
    assert forall|i: int, j: int| 0 <= i < j < out.len() implies !sorting::precedes(
        sorting::codes(text::lowercase((#[trigger] out[j]).name@)),
        sorting::codes(text::lowercase((#[trigger] out[i]).name@)),
    ) by {
        assert(sorting::goes_first(name_keys(v), p[i] as int, p[j] as int));
        assert(out[i] == v[p[i] as int] && out[j] == v[p[j] as int]);
    }
}

} // verus!
