//! Where things are kept on disk, as text: paths whose parts are separated by `/`.
use crate::text::{chars_of, slice, string_of};
use vstd::prelude::*;
use vstd::string::*;

verus! {

/// Where the last `/` of `s` stands; -1 if there is none.
pub open spec fn last_slash(s: Seq<char>) -> int
    decreases s.len(),
{
    if s.len() == 0 {
        -1
    } else if s.last() == '/' {
        s.len() - 1
    } else {
        last_slash(s.drop_last())
    }
}

/// The path without slashes at its end, and without parts `.` there, which say nothing;
/// such a part is kept only where it begins the path.
pub open spec fn without_end(p: Seq<char>) -> Seq<char>
    decreases p.len(),
{
    if p.len() > 0 && p.last() == '/' {
        without_end(p.drop_last())
    } else if p.len() > 1 && p.last() == '.' && p[p.len() - 2] == '/' {
        without_end(p.drop_last().drop_last())
    } else {
        p
    }
}

/// The directory that `p` is in: what stands before its last part. `None` for the root
/// and for an empty path, empty for a path of one part.
pub open spec fn parent_of(p: Seq<char>) -> Option<Seq<char>> {
    let s = without_end(p);
    if s.len() == 0 {
        None
    } else {
        let i = last_slash(s);
        if i < 0 {
            Some(Seq::empty())
        } else {
            let dir = without_end(s.take(i));
            if dir.len() == 0 {
                Some("/"@)
            } else {
                Some(dir)
            }
        }
    }
}

/// `name` inside the directory `dir`; `name` itself where that is absolute or `dir` is
/// empty.
pub open spec fn join_of(dir: Seq<char>, name: Seq<char>) -> Seq<char> {
    if dir.len() == 0 || name.len() > 0 && name[0] == '/' {
        name
    } else if dir.last() == '/' {
        dir + name
    } else {
        dir + "/"@ + name
    }
}

proof fn lemma_last_slash(s: Seq<char>, i: int)
    requires
        -1 <= i < s.len(),
        i >= 0 ==> s[i] == '/',
        forall|k: int| i < k < s.len() ==> #[trigger] s[k] != '/',
    ensures
        last_slash(s) == i,
    decreases s.len(),
{
    if s.len() > 0 && i < s.len() - 1 {
        assert(s[s.len() - 1] != '/');
        assert forall|k: int| i < k < s.drop_last().len() implies #[trigger] s.drop_last()[k]
            != '/' by {
            assert(s.drop_last()[k] == s[k]);
        }
        lemma_last_slash(s.drop_last(), i);
    }
}

fn cut_path(s: &[char]) -> (out: Vec<char>)
    ensures
        out@ == without_end(s@),
{
    let mut n: usize = s.len();
    assert(s@.take(n as int) =~= s@);
    while n > 0 && (s[n - 1] == '/' || (n > 1 && s[n - 1] == '.' && s[n - 2] == '/'))
        invariant
            n <= s.len(),
            without_end(s@.take(n as int)) == without_end(s@),
        decreases n,
    {
        proof {
            let p = s@.take(n as int);
            assert(p.drop_last() =~= s@.take(n - 1));
            if n > 1 {
                assert(p.drop_last().drop_last() =~= s@.take(n - 2));
            }
        }
        if s[n - 1] == '/' {
            n -= 1;
        } else {
            n -= 2;
        }
    }
    assert(s@.subrange(0, n as int) =~= s@.take(n as int));
    slice(s, 0, n)
}

/// The directory that `p` is in.
pub fn parent_dir(p: &str) -> (r: Option<String>)
    ensures
        match r {
            Some(d) => parent_of(p@) == Some(d@),
            None => parent_of(p@) is None,
        },
{
    let s: Vec<char> = cut_path(&chars_of(p));
    if s.len() == 0 {
        return None;
    }
    let mut i: usize = s.len();
    while i > 0 && s[i - 1] != '/'
        invariant
            i <= s.len(),
            forall|k: int| i <= k < s.len() ==> #[trigger] s@[k] != '/',
        decreases i,
    {
        i -= 1;
    }
    proof {
        lemma_last_slash(s@, i - 1);
    }
    if i == 0 {
        return Some(String::new());
    }
    assert(s@.subrange(0, i - 1) =~= s@.take(i - 1));
    let dir: Vec<char> = cut_path(&slice(&s, 0, i - 1));
    if dir.len() == 0 {
        Some("/".to_owned())
    } else {
        Some(string_of(&dir))
    }
}

/// `name` inside the directory `dir`.
pub fn join_path(dir: &str, name: &str) -> (r: String)
    ensures
        r@ == join_of(dir@, name@),
{
    let d: Vec<char> = chars_of(dir);
    let n: Vec<char> = chars_of(name);
    if d.len() == 0 || (n.len() > 0 && n[0] == '/') {
        name.to_owned()
    } else {
        let mut out: String = dir.to_owned();
        if d[d.len() - 1] != '/' {
            out.append("/");
        }
        out.append(name);
        out
    }
}

/// `path` with `suffix` right behind it, part of the same file name.
pub fn with_suffix(path: &str, suffix: &str) -> (r: String)
    ensures
        r@ == path@ + suffix@,
{
    let mut out: String = path.to_owned();
    out.append(suffix);
    out
}

// ── The database and the files beside it ─────────────────────────────────────

/// The marker that stands beside the database while the first-run load goes on.
pub fn setup_sentinel_path(db: &str) -> (r: String)
    ensures
        r@ == db@ + ".setup-in-progress"@,
{
    with_suffix(db, ".setup-in-progress")
}

/// The safety copy of the database.
pub fn snapshot_path(db: &str) -> (r: String)
    ensures
        r@ == db@ + ".snapshot"@,
{
    with_suffix(db, ".snapshot")
}

/// The safety copy while it is being written.
pub fn snapshot_tmp_path(db: &str) -> (r: String)
    ensures
        r@ == db@ + ".snapshot.tmp"@,
{
    with_suffix(db, ".snapshot.tmp")
}

/// The database's write-ahead log.
pub fn wal_path(db: &str) -> (r: String)
    ensures
        r@ == db@ + ".wal"@,
{
    with_suffix(db, ".wal")
}

/// The safety copy of the write-ahead log.
pub fn snapshot_wal_path(db: &str) -> (r: String)
    ensures
        r@ == db@ + ".snapshot.wal"@,
{
    with_suffix(db, ".snapshot.wal")
}

/// The files beside one database are all different from it and from each other.
pub proof fn law_sidecar_files_differ(db: Seq<char>)
    ensures
        ({
            let files = seq![
                db,
                db + ".setup-in-progress"@,
                db + ".snapshot"@,
                db + ".snapshot.tmp"@,
                db + ".wal"@,
                db + ".snapshot.wal"@,
            ];
            forall|i: int, j: int|
                0 <= i < j < files.len() ==> #[trigger] files[i] != #[trigger] files[j]
        }),
{
    reveal_strlit(".setup-in-progress");
    reveal_strlit(".snapshot");
    reveal_strlit(".snapshot.tmp");
    reveal_strlit(".wal");
    reveal_strlit(".snapshot.wal");
    let n = db.len() as int;
    let tmp = db + ".snapshot.tmp"@;
    let wal = db + ".snapshot.wal"@;
    assert(tmp[n + 10] == 't');
    assert(wal[n + 10] == 'w');
    assert((db + ".setup-in-progress"@).len() == n + 18);
    assert((db + ".snapshot"@).len() == n + 9);
    assert(tmp.len() == n + 13);
    assert(wal.len() == n + 13);
    assert((db + ".wal"@).len() == n + 4);
}

// ── Laws of paths ────────────────────────────────────────────────────────────

/// A name in a directory stands behind it and a slash; an absolute name stands alone, and so
/// does any name in no directory.
pub proof fn law_names_stand_behind_directories(dir: Seq<char>, name: Seq<char>)
    ensures
        dir.len() > 0 && dir.last() != '/' && !(name.len() > 0 && name[0] == '/') ==> join_of(
            dir,
            name,
        ) == dir + seq!['/'] + name,
        dir.len() > 0 && dir.last() == '/' && !(name.len() > 0 && name[0] == '/') ==> join_of(
            dir,
            name,
        ) == dir + name,
        name.len() > 0 && name[0] == '/' ==> join_of(dir, name) == name,
        join_of(Seq::empty(), name) == name,
{
    reveal_strlit("/");
    assert("/"@ =~= seq!['/']);
}

proof fn lemma_slash_is(s: Seq<char>, i: int)
    requires
        0 <= i < s.len(),
        s[i] == '/',
        forall|k: int| i < k < s.len() ==> s[k] != '/',
    ensures
        last_slash(s) == i,
    decreases s.len(),
{
    if i < s.len() - 1 {
        assert(s[s.len() - 1] != '/');
        lemma_slash_is(s.drop_last(), i);
    }
}

/// A name that was put into a directory is in that directory.
pub proof fn law_parents_are_found(dir: Seq<char>, name: Seq<char>)
    requires
        dir.len() > 0 && dir.last() != '/',
        !(dir.len() > 1 && dir.last() == '.' && dir[dir.len() - 2] == '/'),
        name.len() > 0 && !name.contains('/') && name != seq!['.'],
    ensures
        parent_of(join_of(dir, name)) == Some(dir),
{
    law_names_stand_behind_directories(dir, name);
    assert(name.contains(name[0]));
    let s = dir + seq!['/'] + name;
    assert(join_of(dir, name) == s);
    assert(s.last() == name.last());
    assert(name.contains(name[name.len() - 1]));
    if name.len() == 1 {
        assert(name[0] != '.') by {
            if name[0] == '.' {
                assert(name =~= seq!['.']);
            }
        }
    } else {
        assert(s[s.len() - 2] == name[name.len() - 2]);
        assert(name.contains(name[name.len() - 2]));
    }
    assert(without_end(s) == s);
    let n = dir.len() as int;
    assert forall|k: int| n < k < s.len() implies s[k] != '/' by {
        assert(name.contains(name[k - n - 1]));
        assert(s[k] == name[k - n - 1]);
    }
    lemma_slash_is(s, n);
    assert(s.take(n) =~= dir);
    assert(without_end(dir) == dir);
}

} // verus!
