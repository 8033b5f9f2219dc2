//! Where the server and the command line keep what they need.
use crate::paths;
use crate::paths::join_path;
use crate::text;
use crate::text::{chars_of, has_prefix, same, slice, string_of};
use vstd::prelude::*;
use vstd::string::*;

verus! {

/// A text that may be missing.
pub open spec fn opt(s: Option<&str>) -> Option<Seq<char>> {
    match s {
        Some(s) => Some(s@),
        None => None,
    }
}

/// The home directory, or the current one where it is not known.
pub open spec fn home_or_here(home: Option<Seq<char>>) -> Seq<char> {
    match home {
        Some(h) => h,
        None => "."@,
    }
}

/// Whether the environment says where the data is.
pub open spec fn is_set(env: Option<Seq<char>>) -> bool {
    env is Some && env->0.len() > 0
}

/// Where the data is: where the environment says so, or in the home directory.
pub open spec fn root(env: Option<Seq<char>>, home: Option<Seq<char>>) -> Seq<char> {
    if is_set(env) {
        env->0
    } else {
        paths::join_of(home_or_here(home), ".chess-db"@)
    }
}

fn home_dir(home: Option<&str>) -> (r: String)
    ensures
        r@ == home_or_here(opt(home)),
{
    match home {
        Some(h) => h.to_owned(),
        None => ".".to_owned(),
    }
}

fn set_dir(env: Option<&str>) -> (r: Option<String>)
    ensures
        match r {
            Some(d) => is_set(opt(env)) && d@ == env->0@,
            None => !is_set(opt(env)),
        },
{
    match env {
        Some(d) => if d.is_empty() {
            None
        } else {
            Some(d.to_owned())
        },
        None => None,
    }
}

/// The root of all data. `env` is what the environment says, `home` the home directory.
pub fn data_root(env: Option<&str>, home: Option<&str>) -> (r: String)
    ensures
        r@ == root(opt(env), opt(home)),
{
    match set_dir(env) {
        Some(d) => d,
        None => {
            let h: String = home_dir(home);
            join_path(h.as_str(), ".chess-db")
        },
    }
}

/// Where the files of a source are kept.
pub fn source_dir(env: Option<&str>, home: Option<&str>, key: &str) -> (r: String)
    ensures
        r@ == paths::join_of(root(opt(env), opt(home)), key@),
{
    let d: String = data_root(env, home);
    join_path(d.as_str(), key)
}

/// Where the files of TWIC are kept.
pub fn default_dir(env: Option<&str>, home: Option<&str>) -> (r: String)
    ensures
        r@ == paths::join_of(root(opt(env), opt(home)), "twic"@),
{
    source_dir(env, home, "twic")
}

/// Where the database is.
pub fn default_db_path(env: Option<&str>, home: Option<&str>) -> (r: String)
    ensures
        r@ == paths::join_of(root(opt(env), opt(home)), "chess.db"@),
{
    source_dir(env, home, "chess.db")
}

/// Where backups go: beside the data where the environment says where that is, else to a
/// place of their own in the home directory.
pub fn default_backup_dir(env: Option<&str>, home: Option<&str>) -> (r: String)
    ensures
        r@ == (if is_set(opt(env)) {
            paths::join_of(env->0@, "backup"@)
        } else {
            paths::join_of(paths::join_of(home_or_here(opt(home)), "lpdo"@), "backup"@)
        }),
{
    match set_dir(env) {
        Some(d) => join_path(d.as_str(), "backup"),
        None => {
            let h: String = home_dir(home);
            let l: String = join_path(h.as_str(), "lpdo");
            join_path(l.as_str(), "backup")
        },
    }
}

/// A path in which `~` at the beginning is the home directory.
pub open spec fn expanded(path: Seq<char>, home: Option<Seq<char>>) -> Seq<char> {
    if path == "~"@ {
        home_or_here(home)
    } else if text::starts_with(path, "~/"@) && home is Some {
        paths::join_of(home->0, path.skip(2))
    } else {
        path
    }
}

/// Replaces `~` at the beginning of a path by the home directory.
pub fn expand_home(path: &str, home: Option<&str>) -> (r: String)
    ensures
        r@ == expanded(path@, opt(home)),
{
    if same(path, "~") {
        return home_dir(home);
    }
    let chars: Vec<char> = chars_of(path);
    let tilde: Vec<char> = chars_of("~/");
    if has_prefix(&chars, &tilde) {
        match home {
            Some(h) => {
                proof {
                    reveal_strlit("~/");
                }
                let rest: Vec<char> = slice(&chars, 2, chars.len());
                assert(rest@ =~= path@.skip(2));
                let rest_text: String = string_of(&rest);
                return join_path(h, rest_text.as_str());
            },
            None => {},
        }
    }
    path.to_owned()
}

/// Where the environment says where the data is, the home directory does not matter.
pub proof fn law_environment_comes_first(env: Seq<char>, a: Option<Seq<char>>, b: Option<Seq<char>>)
    requires
        env.len() > 0,
    ensures
        root(Some(env), a) == env,
        root(Some(env), a) == root(Some(env), b),
{
}

/// The data lies in the home directory unless the environment says otherwise; an empty
/// setting says nothing.
pub proof fn law_data_lies_at_home(home: Seq<char>)
    ensures
        root(None, Some(home)) == paths::join_of(home, ".chess-db"@),
        root(Some(Seq::empty()), Some(home)) == paths::join_of(home, ".chess-db"@),
        root(None, None) == paths::join_of("."@, ".chess-db"@),
{
}

/// The tilde is the home directory, alone or before a path; any other path is its own, and so
/// is every path where the home directory is not known.
pub proof fn law_tildes_are_expanded(rest: Seq<char>, home: Seq<char>)
    ensures
        expanded("~"@, Some(home)) == home,
        expanded("~"@, None) == "."@,
        expanded("~/"@ + rest, Some(home)) == paths::join_of(home, rest),
        expanded("~/"@ + rest, None) == "~/"@ + rest,
        rest.len() == 0 || rest[0] != '~' ==> expanded(rest, Some(home)) == rest,
{
    reveal_strlit("~");
    reveal_strlit("~/");
    text::law_parts_are_found(Seq::empty(), "~/"@, rest);
    let p = "~/"@ + rest;
    assert(p.skip(2) =~= rest);
    assert(p.len() >= 2 && "~"@.len() == 1);
    if rest.len() >= 2 {
        assert(rest.take(2)[0] == rest[0]);
    }
    assert("~"@[0] == '~' && "~/"@[0] == '~');
}

} // verus!
