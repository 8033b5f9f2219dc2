//! The FIDE list of players: one per line, in columns of fixed width.
use crate::importer::lower_ascii;
use crate::reporter;
use crate::text;
use crate::text::{
    append_num, chars_of, has_suffix, parse_u32, slice, string_of, trim_chars,
};
use vstd::prelude::*;
use vstd::string::*;
use vstd::utf8::*;

verus! {

/// After so many players the progress is told.
pub const PROGRESS_STEP: u64 = 200000;

/// How many bytes a character takes in UTF-8.
pub open spec fn width(c: char) -> nat {
    encode_scalar(c as u32).len()
}

/// How many bytes a text takes in UTF-8.
pub open spec fn byte_len(s: Seq<char>) -> nat
    decreases s.len(),
{
    if s.len() == 0 {
        0
    } else {
        width(s[0]) + byte_len(s.skip(1))
    }
}

/// How many characters at the start of a text lie in its first `n` bytes as a whole.
pub open spec fn fit(s: Seq<char>, n: int) -> nat
    decreases s.len(),
{
    if s.len() == 0 || width(s[0]) > n {
        0
    } else {
        1 + fit(s.skip(1), n - width(s[0]))
    }
}

/// What the first `n` bytes of a text say; where they end inside of a character, its part
/// is replaced.
pub open spec fn first_bytes(s: Seq<char>, n: int) -> Seq<char> {
    let k = fit(s, n) as int;
    if k < s.len() && byte_len(s.take(k)) < n {
        s.take(k).push('\u{FFFD}')
    } else {
        s.take(k)
    }
}

/// The player in a line: the number stands in the first 15 bytes, the name in the next 61.
/// Lines with no number or no name, such as the first one, hold no player.
pub open spec fn player_in(line: Seq<char>) -> Option<(u32, Seq<char>)> {
    let k = fit(line, 15) as int;
    if byte_len(line) < 16 || byte_len(line.take(k)) != 15 {
        None
    } else {
        match text::parse_nat(text::trim(line.take(k)), u32::MAX as nat) {
            None => None,
            Some(id) => {
                let name = text::trim(first_bytes(line.skip(k), 61));
                if name.len() == 0 {
                    None
                } else {
                    Some((id as u32, name))
                }
            },
        }
    }
}

fn width_of(c: char) -> (n: usize)
    ensures
        n == width(c),
        1 <= n <= 4,
{
    proof {
        char_is_scalar(c);
    }
    let u: u32 = c as u32;
    if u < 0x80 {
        1
    } else if u < 0x800 {
        2
    } else if u < 0x10000 {
        3
    } else {
        4
    }
}

proof fn lemma_byte_len_split(s: Seq<char>, k: int)
    requires
        0 <= k <= s.len(),
    ensures
        byte_len(s) == byte_len(s.take(k)) + byte_len(s.skip(k)),
    decreases s.len(),
{
    if k == 0 {
        assert(s.take(0) =~= Seq::empty());
        assert(s.skip(0) =~= s);
    } else {
        lemma_byte_len_split(s.skip(1), k - 1);
        assert(s.take(k).skip(1) =~= s.skip(1).take(k - 1));
        assert(s.skip(1).skip(k - 1) =~= s.skip(k));
        assert(s.take(k)[0] == s[0]);
    }
}

proof fn lemma_fit_bound(s: Seq<char>, n: int)
    ensures
        fit(s, n) <= s.len(),
        n >= 0 ==> byte_len(s.take(fit(s, n) as int)) <= n,
    decreases s.len(),
{
    if s.len() > 0 && width(s[0]) <= n {
        lemma_fit_bound(s.skip(1), n - width(s[0]));
        let k = fit(s, n) as int;
        assert(s.take(k).skip(1) =~= s.skip(1).take(k - 1));
        assert(s.take(k)[0] == s[0]);
    } else {
        assert(s.take(0) =~= Seq::empty());
    }
}

/// How many characters of `s` from `from` on lie in `n` bytes, and how many bytes those
/// take.
fn fitting(s: &[char], from: usize, n: usize) -> (r: (usize, usize))
    requires
        from <= s.len(),
    ensures
        r.0 == fit(s@.skip(from as int), n as int),
        r.1 == byte_len(s@.skip(from as int).take(r.0 as int)),
        from + r.0 <= s.len(),
        r.1 <= n,
{
    let mut k: usize = 0;
    let mut used: usize = 0;
    let ghost all = s@.skip(from as int);
    proof {
        assert(all.skip(0) =~= all);
        assert(all.take(0) =~= Seq::empty());
    }
    while from + k < s.len() && width_of(s[from + k]) <= n - used
        invariant
            from + k <= s.len(),
            used <= n,
            all == s@.skip(from as int),
            fit(all, n as int) == k + fit(all.skip(k as int), n - used),
            used == byte_len(all.take(k as int)),
        decreases s.len() - k,
    {
        let w: usize = width_of(s[from + k]);
        proof {
            assert(all.skip(k as int)[0] == s@[from + k]);
            assert(all.skip(k as int).skip(1) =~= all.skip(k + 1));
            lemma_byte_len_split(all.take(k + 1), k as int);
            assert(all.take(k + 1).take(k as int) =~= all.take(k as int));
            let last = all.take(k + 1).skip(k as int);
            assert(last[0] == s@[from + k]);
            assert(last.len() == 1);
            assert(last.skip(1) =~= Seq::empty());
            assert(byte_len(last) == w) by {
                reveal_with_fuel(byte_len, 2);
            }
        }
        used += w;
        k += 1;
    }
    proof {
        if from + k < s.len() {
            assert(all.skip(k as int)[0] == s@[from + k]);
        }
    }
    (k, used)
}

/// Whether a text takes at least `n` bytes.
fn takes(s: &[char], n: usize) -> (r: bool)
    ensures
        r == (byte_len(s@) >= n),
{
    let (k, used): (usize, usize) = fitting(s, 0, n);
    proof {
        assert(s@.skip(0) =~= s@);
        lemma_byte_len_split(s@, k as int);
        lemma_fit_is_tight(s@, n as int);
    }
    k < s.len() || used >= n
}

/// Behind the characters that fit, there is none, or one that does not fit.
proof fn lemma_fit_is_tight(s: Seq<char>, n: int)
    requires
        n >= 0,
    ensures
        fit(s, n) < s.len() ==> byte_len(s) > n,
        fit(s, n) == s.len() ==> byte_len(s) <= n,
        fit(s, n) <= s.len(),
    decreases s.len(),
{
    if s.len() > 0 && width(s[0]) <= n {
        lemma_fit_is_tight(s.skip(1), n - width(s[0]));
    }
}

/// Reads a line of the list.
pub fn parse_line(line: &str) -> (r: Option<(u32, String)>)
    ensures
        match r {
            Some(p) => player_in(line@) == Some((p.0, p.1@)),
            None => player_in(line@) is None,
        },
{
    let s: Vec<char> = chars_of(line);
    if !takes(&s, 16) {
        return None;
    }
    let (k, used): (usize, usize) = fitting(&s, 0, 15);
    assert(s@.skip(0) =~= s@);
    if used != 15 {
        return None;
    }
    let head: Vec<char> = slice(&s, 0, k);
    assert(head@ =~= s@.take(k as int));
    match parse_u32(&trim_chars(&head)) {
        None => None,
        Some(id) => {
            let (m, got): (usize, usize) = fitting(&s, k, 61);
            let mut field: Vec<char> = slice(&s, k, k + m);
            assert(field@ =~= s@.skip(k as int).take(m as int));
            if k + m < s.len() && got < 61 {
                field.push('\u{FFFD}');
            }
            assert(field@ == first_bytes(s@.skip(k as int), 61));
            let name: Vec<char> = trim_chars(&field);
            if name.len() == 0 {
                None
            } else {
                Some((id, string_of(&name)))
            }
        },
    }
}

/// The loading of a list, line by line. The first line holds the headings.
pub struct FideLoad {
    pub headings_read: bool,
    pub count: u64,
}

/// What a line of the list comes to.
pub struct FideStep {
    /// The player to be stored.
    pub row: Option<(u32, String)>,
    /// The progress to be told.
    pub progress: Option<String>,
}

impl FideLoad {
    pub fn new() -> (l: Self)
        ensures
            !l.headings_read,
            l.count == 0,
    {
        FideLoad { headings_read: false, count: 0 }
    }

    /// Takes the next line; `None` for one that is no text.
    pub fn take(&mut self, line: Option<&str>) -> (s: FideStep)
        requires
            old(self).count < u64::MAX,
        ensures
            final(self).headings_read,
            match s.row {
                Some(p) => line is Some && old(self).headings_read && player_in(line->0@) == Some(
                    (p.0, p.1@),
                ),
                None => line is None || !old(self).headings_read || player_in(line->0@) is None,
            },
            final(self).count == old(self).count + (if s.row is Some {
                1int
            } else {
                0int
            }),
            reporter::opt_text(s.progress) == (if s.row is Some && final(self).count
                % PROGRESS_STEP == 0 {
                Some("Loaded "@ + text::dec(final(self).count as nat) + " FIDE players…"@)
            } else {
                None
            }),
    {
        let row: Option<(u32, String)> = if self.headings_read {
            match line {
                Some(l) => parse_line(l),
                None => None,
            }
        } else {
            None
        };
        self.headings_read = true;
        let mut progress: Option<String> = None;
        if row.is_some() {
            self.count += 1;
            if self.count % PROGRESS_STEP == 0 {
                let mut m: String = "Loaded ".to_owned();
                append_num(&mut m, self.count);
                m.append(" FIDE players…");
                progress = Some(m);
            }
        }
        FideStep { row, progress }
    }

    /// What is told when all lines are taken.
    pub fn done(&self, source: &str) -> (m: String)
        ensures
            m@ == "Loaded "@ + text::dec(self.count as nat) + " FIDE players from "@ + source@,
    {
        let mut m: String = "Loaded ".to_owned();
        append_num(&mut m, self.count);
        m.append(" FIDE players from ");
        m.append(source);
        m
    }
}

/// Whether a file inside of the archive is the list.
pub open spec fn is_list_name(name: Seq<char>) -> bool {
    text::ends_with(text::ascii_lowercase(name), ".txt"@)
}

/// The first file inside of the archive that is a list, if there is one.
pub fn list_entry(names: &[String]) -> (r: Option<usize>)
    ensures
        match r {
            Some(i) => i < names.len() && is_list_name(names@[i as int]@) && forall|k: int|
                0 <= k < i ==> !is_list_name((#[trigger] names@[k])@),
            None => forall|k: int|
                0 <= k < names.len() ==> !is_list_name((#[trigger] names@[k])@),
        },
{
    let suffix: Vec<char> = chars_of(".txt");
    let mut i: usize = 0;
    while i < names.len()
        invariant
            i <= names.len(),
            suffix@ == ".txt"@,
            forall|k: int| 0 <= k < i ==> !is_list_name((#[trigger] names@[k])@),
        decreases names.len() - i,
    {
        let low: Vec<char> = lower_ascii(&chars_of(names[i].as_str()));
        if has_suffix(&low, &suffix) {
            return Some(i);
        }
        i += 1;
    }
    None
}

// ── Laws of the list ─────────────────────────────────────────────────────────

proof fn lemma_ascii_fit(s: Seq<char>, n: nat)
    requires
        n <= s.len(),
        forall|i: int| 0 <= i < n ==> (#[trigger] s[i] as u32) < 128,
    ensures
        fit(s, n as int) == n,
        byte_len(s.take(n as int)) == n,
        byte_len(s) >= n,
        byte_len(s) == n ==> s.len() == n,
    decreases n,
{
    if n > 0 {
        assert((s[0] as u32) < 128);
        assert(width(s[0]) == 1);
        let rest = s.skip(1);
        assert forall|i: int| 0 <= i < n - 1 implies (#[trigger] rest[i] as u32) < 128 by {
            assert(rest[i] == s[i + 1]);
        }
        lemma_ascii_fit(rest, (n - 1) as nat);
        assert(s.take(n as int).skip(1) =~= rest.take(n - 1));
        assert(s.take(n as int)[0] == s[0]);
    } else {
        assert(s.take(0) =~= Seq::empty());
        lemma_no_bytes(s);
        if s.len() > 0 {
            assert(width(s[0]) > 0);
        }
    }
}

proof fn lemma_no_bytes(s: Seq<char>)
    ensures
        byte_len(s) >= s.len(),
    decreases s.len(),
{
    if s.len() > 0 {
        lemma_no_bytes(s.skip(1));
    }
}

/// A line of the list is read by its columns: the number in the first fifteen, the name in
/// the sixty-one behind them, and what follows does not matter.
pub proof fn law_columns_are_read(number: Seq<char>, name: Seq<char>, rest: Seq<char>, id: u32, who: Seq<char>)
    requires
        number.len() == 15,
        name.len() == 61,
        forall|i: int| 0 <= i < 15 ==> (#[trigger] number[i] as u32) < 128,
        forall|i: int| 0 <= i < 61 ==> (#[trigger] name[i] as u32) < 128,
        text::trim(number) == text::dec(id as nat),
        text::trim(name) == who,
    ensures
        who.len() > 0 ==> player_in(number + name + rest) == Some((id, who)),
        who.len() == 0 ==> player_in(number + name + rest) is None,
{
    let line = number + name + rest;
    assert forall|i: int| 0 <= i < 15 implies (#[trigger] line[i] as u32) < 128 by {
        assert(line[i] == number[i]);
    }
    lemma_ascii_fit(line, 15);
    lemma_byte_len_split(line, 15);
    assert(line.take(15) =~= number);
    let tail = line.skip(15);
    assert(tail =~= name + rest);
    assert forall|i: int| 0 <= i < 61 implies (#[trigger] tail[i] as u32) < 128 by {
        assert(tail[i] == name[i]);
    }
    lemma_ascii_fit(tail, 61);
    assert(tail.take(61) =~= name);
    text::law_decimal_reads_back(id as nat, u32::MAX as nat);
}

/// A line without a number in its first column is no player.
pub proof fn law_headings_are_no_players(number: Seq<char>, rest: Seq<char>)
    requires
        number.len() == 15,
        forall|i: int| 0 <= i < 15 ==> (#[trigger] number[i] as u32) < 128,
        text::parse_nat(text::trim(number), u32::MAX as nat) is None,
    ensures
        player_in(number + rest) is None,
{
    let line = number + rest;
    assert forall|i: int| 0 <= i < 15 implies (#[trigger] line[i] as u32) < 128 by {
        assert(line[i] == number[i]);
    }
    lemma_ascii_fit(line, 15);
    assert(line.take(15) =~= number);
}

/// The list in the archive is its text file, whatever the case of its name.
pub proof fn law_lists_are_text_files(stem: Seq<char>)
    ensures
        is_list_name(stem + ".txt"@),
        is_list_name(stem + ".TXT"@),
        !is_list_name(stem + ".xml"@),
{
    reveal_strlit(".txt");
    reveal_strlit(".TXT");
    reveal_strlit(".xml");
    let n = stem.len() as int;
    let a = text::ascii_lowercase(stem + ".txt"@);
    let b = text::ascii_lowercase(stem + ".TXT"@);
    let c = text::ascii_lowercase(stem + ".xml"@);
    assert(a.skip(n) =~= ".txt"@);
    assert(b.skip(n) =~= ".txt"@);
    assert(c.skip(n)[1] == 'x');
    assert(".txt"@[1] == 't');
}

} // verus!
