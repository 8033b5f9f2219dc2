//! Backups of a collection: a PGN file inside of an archive, named after the time and the
//! collection.
use crate::text;
use crate::text::{
    append_num, chars_of, debug_text, is_alnum, string_of, trim_end_char, trim_start_char,
};
use vstd::prelude::*;
use vstd::string::*;

verus! {

/// Whether a character can stand in a file name.
pub open spec fn is_safe(c: char) -> bool {
    text::alphanumeric(c) || c == '-' || c == '_'
}

pub open spec fn safe_char(c: char) -> char {
    if is_safe(c) {
        c
    } else {
        '_'
    }
}

/// What takes the place of an ASCII character in the name of a file.
pub open spec fn ascii_safe_char(c: char) -> char {
    if text::is_ascii_letter(c) || text::is_digit(c) || c == '-' || c == '_' {
        c
    } else {
        '_'
    }
}

/// A name with which a file can be named: other characters become `_`, and those at the
/// ends go. Where nothing is left, another name takes its place.
pub open spec fn safe_name(name: Seq<char>) -> Seq<char> {
    trimmed_name(name.map_values(|c: char| safe_char(c)))
}

/// A name without underscores at its ends, or another name where nothing is left.
pub open spec fn trimmed_name(chars: Seq<char>) -> Seq<char> {
    let t = text::trim_end_matches(text::trim_start_matches(chars, '_'), '_');
    if t.len() == 0 {
        "collection"@
    } else {
        t
    }
}

proof fn lemma_trimmed_has_no_slash(s: Seq<char>)
    requires
        forall|k: int| 0 <= k < s.len() ==> s[k] != '/',
    ensures
        forall|k: int|
            0 <= k < text::trim_end_matches(text::trim_start_matches(s, '_'), '_').len()
                ==> text::trim_end_matches(text::trim_start_matches(s, '_'), '_')[k] != '/',
{
    let a = text::trim_start_matches(s, '_');
    let t = text::trim_end_matches(a, '_');
    text::lemma_lead_bound(s, text::is_char('_'));
    text::lemma_cut_end(a, text::is_char('_'));
    assert forall|k: int| 0 <= k < t.len() implies t[k] != '/' by {
        assert(t[k] == a[k]);
        assert(a[k] == s[k + text::lead(s, text::is_char('_'))]);
    }
}

/// Makes a name safe to be part of a file name. It is not empty and holds no `/`, so that
/// the file stays in its directory.
pub fn sanitize_for_filename(name: &str) -> (r: String)
    ensures
        r@ == safe_name(name@),
        text::is_ascii_text(name@) ==> r@ == trimmed_name(
            name@.map_values(|c: char| ascii_safe_char(c)),
        ),
        r@.len() > 0,
        forall|i: int| 0 <= i < r@.len() ==> #[trigger] r@[i] != '/',
{
    let chars: Vec<char> = chars_of(name);
    let ghost want = name@.map_values(|c: char| safe_char(c));
    let mut out: Vec<char> = Vec::new();
    let mut i: usize = 0;
    while i < chars.len()
        invariant
            i <= chars.len(),
            chars@ == name@,
            want == name@.map_values(|c: char| safe_char(c)),
            out@ == want.take(i as int),
            forall|k: int| 0 <= k < i ==> out@[k] != '/',
            forall|k: int|
                0 <= k < i && (name@[k] as u32) < 128 ==> out@[k] == ascii_safe_char(
                    #[trigger] name@[k],
                ),
        decreases chars.len() - i,
    {
        let c: char = chars[i];
        if is_alnum(c) || c == '-' || c == '_' {
            out.push(c);
        } else {
            out.push('_');
        }
        i += 1;
        assert(out@ =~= want.take(i as int));
    }
    assert(out@ =~= want);
    proof {
        if text::is_ascii_text(name@) {
            assert(out@ =~= name@.map_values(|c: char| ascii_safe_char(c)));
        }
        lemma_trimmed_has_no_slash(out@);
        reveal_strlit("collection");
    }
    let t: Vec<char> = trim_end_char(&trim_start_char(&out, '_'), '_');
    if t.len() == 0 {
        "collection".to_owned()
    } else {
        string_of(&t)
    }
}

/// The file of a backup: its name, and the name of what it holds.
#[derive(Debug)]
pub struct BackupNames {
    pub entry: String,
    pub file: String,
}

/// Names a backup that is made at a time, written as in `20260603-084231`.
pub fn backup_names(stamp: &str, collection: &str) -> (n: BackupNames)
    ensures
        n.entry@ == stamp@ + "-"@ + safe_name(collection@) + ".pgn"@,
        n.file@ == stamp@ + "-"@ + safe_name(collection@) + ".pgn.zip"@,
{
    let safe: String = sanitize_for_filename(collection);
    let mut base: String = stamp.to_owned();
    base.append("-");
    base.append(safe.as_str());
    let mut entry: String = base.clone();
    entry.append(".pgn");
    let mut file: String = base;
    file.append(".pgn.zip");
    BackupNames { entry, file }
}

/// Why there is no backup: `None` if there can be one. `games` is how many games the
/// collection has, `None` if there is no such collection.
pub fn backup_refusal(collection: &str, games: Option<usize>) -> (r: Option<String>)
    ensures
        match r {
            Some(m) => match games {
                None => m@ == "collection "@ + text::debug_form(collection@) + " not found"@,
                Some(n) => n == 0 && m@ == "collection "@ + text::debug_form(collection@)
                    + " has no games to back up"@,
            },
            None => games is Some && games->0 > 0,
        },
{
    let shown: String = debug_text(collection);
    refusal_of_shown(shown.as_str(), games)
}

/// Why there is no backup of a collection whose name is shown so.
pub fn refusal_of_shown(shown: &str, games: Option<usize>) -> (r: Option<String>)
    ensures
        match r {
            Some(m) => match games {
                None => m@ == "collection "@ + shown@ + " not found"@,
                Some(n) => n == 0 && m@ == "collection "@ + shown@ + " has no games to back up"@,
            },
            None => games is Some && games->0 > 0,
        },
{
    let why: &str = match games {
        None => " not found",
        Some(n) => {
            if n > 0 {
                return None;
            }
            " has no games to back up"
        },
    };
    let mut m: String = "collection ".to_owned();
    m.append(shown);
    m.append(why);
    Some(m)
}

/// A game as it stands in the file.
pub open spec fn entry_text(pgn: Seq<char>) -> Seq<char> {
    text::trim_end(pgn) + "\n\n"@
}

/// Writes a game for the file: games are separated by an empty line.
pub fn backup_entry(pgn: &str) -> (r: String)
    ensures
        r@ == entry_text(pgn@),
{
    let chars: Vec<char> = chars_of(pgn);
    let mut n: usize = chars.len();
    while n > 0 && text::white(chars[n - 1])
        invariant
            n <= chars.len(),
            forall|k: int| n <= k < chars.len() ==> text::is_white(#[trigger] chars@[k]),
        decreases n,
    {
        n -= 1;
    }
    proof {
        text::lemma_cut_end_is(chars@, text::whites(), n as int);
    }
    let kept: Vec<char> = text::slice(&chars, 0, n);
    assert(kept@ =~= chars@.take(n as int));
    let mut r: String = string_of(&kept);
    r.append("\n\n");
    r
}

/// Whether the progress is told after a game: about a hundred times in all, and at the
/// end.
pub fn tells_progress(done: u64, total: u64) -> (b: bool)
    ensures
        b == (done as int % (if total / 100 < 1 {
            1int
        } else {
            total as int / 100
        }) == 0 || done == total),
{
    let step: u64 = if total / 100 < 1 {
        1
    } else {
        total / 100
    };
    done % step == 0 || done == total
}

/// What is told at the end.
pub fn backup_done(total: u64, collection: &str, path: &str) -> (m: String)
    ensures
        m@ == "Backed up "@ + text::dec(total as nat) + " game(s) from "@ + text::debug_form(
            collection@,
        ) + " to "@ + path@,
{
    let shown: String = debug_text(collection);
    done_with_shown(total, shown.as_str(), path)
}

/// What is told at the end of a backup of a collection whose name is shown so.
pub fn done_with_shown(total: u64, shown: &str, path: &str) -> (m: String)
    ensures
        m@ == "Backed up "@ + text::dec(total as nat) + " game(s) from "@ + shown@ + " to "@
            + path@,
{
    let mut m: String = "Backed up ".to_owned();
    append_num(&mut m, total);
    m.append(" game(s) from ");
    m.append(shown);
    m.append(" to ");
    m.append(path);
    m
}

// ── Laws of file names ───────────────────────────────────────────────────────

/// The name of a file holds nothing but letters, numbers, dashes and underscores; those that
/// can stand in it stay as they are.
pub proof fn law_file_names_are_safe(name: Seq<char>, i: int)
    requires
        0 <= i < name.len(),
    ensures
        is_safe(safe_char(name[i])) || safe_char(name[i]) == '_',
        is_safe(name[i]) ==> safe_char(name[i]) == name[i],
        !is_safe(name[i]) ==> safe_char(name[i]) == '_',
{
}

/// A name that begins and ends well keeps all its characters, and the underscores round it
/// go.
pub proof fn law_names_lose_only_their_ends(a: Seq<char>, name: Seq<char>, b: Seq<char>)
    requires
        forall|i: int| 0 <= i < a.len() ==> #[trigger] a[i] == '_',
        forall|i: int| 0 <= i < b.len() ==> #[trigger] b[i] == '_',
        name.len() > 0 ==> name[0] != '_' && name.last() != '_',
    ensures
        name.len() > 0 ==> trimmed_name(a + name + b) == name,
        name.len() == 0 ==> trimmed_name(a + name + b) == "collection"@,
{
    let s = a + name + b;
    let p = text::is_char('_');
    if name.len() > 0 {
        assert forall|i: int| 0 <= i < a.len() implies p(#[trigger] s[i]) by {
            assert(s[i] == a[i]);
        }
        assert(s[a.len() as int] == name[0]);
        text::lemma_lead_is(s, p, a.len());
        let t = s.skip(a.len() as int);
        assert(t =~= name + b);
        assert forall|i: int| name.len() <= i < t.len() implies p(#[trigger] t[i]) by {
            assert(t[i] == b[i - name.len()]);
        }
        text::lemma_cut_end_is(t, p, name.len() as int);
        assert(t.take(name.len() as int) =~= name);
    } else {
        assert forall|i: int| 0 <= i < s.len() implies p(#[trigger] s[i]) by {
            if i < a.len() {
                assert(s[i] == a[i]);
            } else {
                assert(s[i] == b[i - a.len()]);
            }
        }
        text::lemma_lead_is(s, p, s.len());
        let t = s.skip(s.len() as int);
        assert(t =~= Seq::empty());
    }
}

/// A game in the file ends with one blank line, whatever white space stood behind it.
pub proof fn law_games_end_with_a_blank_line(pgn: Seq<char>, ends: Seq<char>)
    requires
        pgn.len() > 0 ==> !text::is_white(pgn.last()),
        forall|i: int| 0 <= i < ends.len() ==> text::is_white(#[trigger] ends[i]),
    ensures
        entry_text(pgn + ends) == pgn + "\n\n"@,
{
    let s = pgn + ends;
    assert forall|i: int| pgn.len() <= i < s.len() implies text::whites()(#[trigger] s[i]) by {
        assert(s[i] == ends[i - pgn.len()]);
    }
    text::lemma_cut_end_is(s, text::whites(), pgn.len() as int);
    assert(s.take(pgn.len() as int) =~= pgn);
}

/// A name whose characters can all stand in a file name is kept as it is.
pub proof fn law_safe_names_stay(name: Seq<char>)
    requires
        name.len() > 0,
        name[0] != '_' && name.last() != '_',
        forall|i: int| 0 <= i < name.len() ==> is_safe(#[trigger] name[i]),
    ensures
        safe_name(name) == name,
{
    let m = name.map_values(|c: char| safe_char(c));
    assert(m =~= name);
    let none = Seq::<char>::empty();
    law_names_lose_only_their_ends(none, name, none);
    assert(none + name + none =~= name);
}

} // verus!
