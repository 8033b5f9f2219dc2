//! PGN texts: the tag section at the head of a game, how tag values are quoted, and how
//! a game is put together again after an edit.
use crate::text;
use crate::text::{chars_of, find, find_char, slice, string_of};
use vstd::prelude::*;
use vstd::string::*;

verus! {

// ── Quoting ──────────────────────────────────────────────────────────────────

/// A character of a tag value as it stands between the quotes.
pub open spec fn quoted_char(c: char) -> Seq<char> {
    if c == '\\' || c == '"' {
        seq!['\\', c]
    } else {
        seq![c]
    }
}

/// A tag value as it stands between the quotes: backslashes and quotes are escaped.
pub open spec fn quoted(v: Seq<char>) -> Seq<char>
    decreases v.len(),
{
    if v.len() == 0 {
        Seq::empty()
    } else {
        quoted(v.drop_last()) + quoted_char(v.last())
    }
}

/// Appends a tag value as it stands between the quotes.
pub fn push_quoted(out: &mut String, v: &str)
    ensures
        final(out)@ == old(out)@ + quoted(v@),
{
    let chars: Vec<char> = chars_of(v);
    let mut i: usize = 0;
    let ghost start = out@;
    assert(chars@.take(0) =~= Seq::empty());
    assert(start + quoted(Seq::empty()) =~= start);
    while i < chars.len()
        invariant
            i <= chars.len(),
            chars@ == v@,
            out@ == start + quoted(chars@.take(i as int)),
        decreases chars.len() - i,
    {
        let c: char = chars[i];
        proof {
            let t = chars@.take(i + 1);
            assert(t.drop_last() =~= chars@.take(i as int));
            assert(t.last() == c);
        }
        let ghost before = out@;
        if c == '\\' || c == '"' {
            out.push('\\');
            out.push(c);
            assert(out@ =~= before + quoted_char(c));
        } else {
            out.push(c);
            assert(out@ =~= before + quoted_char(c));
        }
        i += 1;
        assert(out@ =~= start + quoted(chars@.take(i as int)));
    }
    assert(chars@.take(i as int) =~= v@);
}

/// A tag as a line of a PGN text.
pub open spec fn tag_line(name: Seq<char>, value: Seq<char>) -> Seq<char> {
    "["@ + name + " \""@ + quoted(value) + "\"]\n"@
}

/// Appends the line of a tag.
pub fn push_tag(out: &mut String, name: &str, value: &str)
    ensures
        final(out)@ == old(out)@ + tag_line(name@, value@),
{
    let ghost start = out@;
    out.append("[");
    out.append(name);
    out.append(" \"");
    push_quoted(out, value);
    out.append("\"]\n");
    assert(out@ =~= start + tag_line(name@, value@));
}

/// The value that a quoted text stands for: a backslash makes the next character plain.
pub open spec fn unquoted(s: Seq<char>) -> Seq<char>
    decreases s.len(),
{
    if s.len() == 0 {
        Seq::empty()
    } else if s[0] == '\\' && s.len() > 1 {
        seq![s[1]] + unquoted(s.skip(2))
    } else {
        seq![s[0]] + unquoted(s.skip(1))
    }
}

proof fn lemma_quoted_first(v: Seq<char>)
    requires
        v.len() > 0,
    ensures
        quoted(v) == quoted_char(v[0]) + quoted(v.skip(1)),
    decreases v.len(),
{
    if v.len() == 1 {
        assert(v.drop_last() =~= Seq::empty());
        assert(v.skip(1) =~= Seq::empty());
        assert(quoted(v) =~= quoted_char(v[0]) + quoted(v.skip(1)));
    } else {
        let d = v.drop_last();
        lemma_quoted_first(d);
        assert(d.skip(1) =~= v.skip(1).drop_last());
        assert(v.skip(1).last() == v.last());
        assert(quoted(v) =~= quoted_char(v[0]) + quoted(v.skip(1)));
    }
}

/// A quoted value reads back as it was, whatever is in it.
pub proof fn law_quoted_value_reads_back(v: Seq<char>)
    ensures
        unquoted(quoted(v)) == v,
    decreases v.len(),
{
    if v.len() > 0 {
        lemma_quoted_first(v);
        let q = quoted(v);
        let rest = quoted(v.skip(1));
        law_quoted_value_reads_back(v.skip(1));
        if v[0] == '\\' || v[0] == '"' {
            assert(q[0] == '\\' && q[1] == v[0]);
            assert(q.skip(2) =~= rest);
        } else {
            assert(q[0] == v[0]);
            assert(q.skip(1) =~= rest);
        }
        assert(unquoted(q) =~= v);
    }
}

// ── Repairing quotes ─────────────────────────────────────────────────────────

/// A tag value with its bare quotes escaped. Whatever already follows a backslash is left
/// as it is.
pub open spec fn escaped(v: Seq<char>) -> Seq<char>
    decreases v.len(),
{
    if v.len() == 0 {
        Seq::empty()
    } else if v[0] == '\\' {
        if v.len() == 1 {
            seq!['\\']
        } else {
            seq!['\\', v[1]] + escaped(v.skip(2))
        }
    } else if v[0] == '"' {
        seq!['\\', '"'] + escaped(v.skip(1))
    } else {
        seq![v[0]] + escaped(v.skip(1))
    }
}

/// Escapes the bare quotes of a tag value.
pub fn escape_tag_value(value: &[char]) -> (out: Vec<char>)
    ensures
        out@ == escaped(value@),
{
    let mut out: Vec<char> = Vec::new();
    let mut i: usize = 0;
    assert(value@.skip(0) =~= value@);
    while i < value.len()
        invariant
            i <= value.len(),
            out@ + escaped(value@.skip(i as int)) == escaped(value@),
        decreases value.len() - i,
    {
        let c: char = value[i];
        let ghost rest = value@.skip(i as int);
        let ghost before = out@;
        assert(rest[0] == c);
        if c == '\\' {
            out.push('\\');
            if i + 1 < value.len() {
                assert(rest[1] == value@[i + 1]);
                out.push(value[i + 1]);
                assert(rest.skip(2) =~= value@.skip(i + 2));
                assert(out@ =~= before + seq!['\\', rest[1]]);
                i += 2;
            } else {
                assert(rest.len() == 1);
                assert(value@.skip(i + 1) =~= Seq::empty());
                assert(out@ =~= before + seq!['\\']);
                i += 1;
            }
        } else if c == '"' {
            out.push('\\');
            out.push('"');
            assert(rest.skip(1) =~= value@.skip(i + 1));
            assert(out@ =~= before + seq!['\\', '"']);
            i += 1;
        } else {
            out.push(c);
            assert(rest.skip(1) =~= value@.skip(i + 1));
            assert(out@ =~= before + seq![c]);
            i += 1;
        }
        assert(out@ + escaped(value@.skip(i as int)) =~= before + escaped(rest));
    }
    assert(value@.skip(i as int) =~= Seq::empty());
    assert(out@ + Seq::<char>::empty() =~= out@);
    out
}

/// Escaping the bare quotes again changes nothing.
pub proof fn law_escaping_is_idempotent(v: Seq<char>)
    ensures
        escaped(escaped(v)) == escaped(v),
    decreases v.len(),
{
    if v.len() > 0 {
        let e = escaped(v);
        if v[0] == '\\' {
            if v.len() > 1 {
                law_escaping_is_idempotent(v.skip(2));
                assert(e[0] == '\\' && e[1] == v[1]);
                assert(e.skip(2) =~= escaped(v.skip(2)));
            } else {
                assert(e =~= seq!['\\']);
            }
        } else if v[0] == '"' {
            law_escaping_is_idempotent(v.skip(1));
            assert(e[0] == '\\' && e[1] == '"');
            assert(e.skip(2) =~= escaped(v.skip(1)));
        } else {
            law_escaping_is_idempotent(v.skip(1));
            assert(e[0] == v[0]);
            assert(e.skip(1) =~= escaped(v.skip(1)));
        }
    }
}

/// Where the value of a tag line starts: behind its first quote.
pub open spec fn value_start(line: Seq<char>) -> int {
    text::index_of(line, '"') as int + 1
}

/// Whether a line reads `[Name "value"]` with something between the quotes that needs
/// escaping, or is escaped.
pub open spec fn has_inner_quote(line: Seq<char>) -> bool {
    let n = line.len();
    &&& n >= 2
    &&& line[0] == '['
    &&& line[n - 1] == ']'
    &&& line[n - 2] == '"'
    &&& value_start(line) < n - 2
    &&& line.subrange(value_start(line), n - 2).contains('"')
}

/// A tag line with the bare quotes in its value escaped; any other line as it is.
pub open spec fn repaired_line(line: Seq<char>) -> Seq<char> {
    if has_inner_quote(line) {
        let q = value_start(line);
        line.take(q) + escaped(line.subrange(q, line.len() - 2)) + "\"]"@
    } else {
        line
    }
}

/// Escapes the bare quotes in the value of a tag line:
/// `[Event "Mannheim "Zaragoza" 3Meistertunier"]` becomes
/// `[Event "Mannheim \"Zaragoza\" 3Meistertunier"]`.
pub fn repair_header_line(line: &[char]) -> (out: Vec<char>)
    ensures
        out@ == repaired_line(line@),
{
    let n: usize = line.len();
    if n >= 2 && line[0] == '[' && line[n - 1] == ']' && line[n - 2] == '"' {
        let q: usize = find_char(line, '"');
        proof {
            text::lemma_lead_bound(line@, text::not_char('"'));
            assert(!text::not_char('"')(line@[n - 2]));
        }
        if q + 1 < n - 2 {
            let value: Vec<char> = slice(line, q + 1, n - 2);
            let v: usize = find_char(&value, '"');
            proof {
                text::lemma_lead_bound(value@, text::not_char('"'));
                if v < value.len() {
                    assert(value@[v as int] == '"');
                    assert(value@.contains('"'));
                } else {
                    assert forall|i: int| 0 <= i < value@.len() implies value@[i] != '"' by {
                        assert(text::not_char('"')(value@[i]));
                    }
                }
            }
            if v < value.len() {
                let mut out: Vec<char> = slice(line, 0, q + 1);
                let mut fixed: Vec<char> = escape_tag_value(&value);
                out.append(&mut fixed);
                out.push('"');
                out.push(']');
                proof {
                    reveal_strlit("\"]");
                    assert(line@.subrange(0, q + 1) =~= line@.take(q + 1));
                    assert(out@ =~= repaired_line(line@));
                }
                return out;
            }
        }
    }
    let out: Vec<char> = slice(line, 0, n);
    assert(line@.subrange(0, n as int) =~= line@);
    out
}

/// The two newlines that make a blank line.
pub open spec fn blank() -> Seq<char> {
    seq!['\n', '\n']
}

/// Where the blank line after the tags begins; the whole text if there is none.
pub open spec fn blank_line(s: Seq<char>) -> int {
    if text::contains(s, blank()) {
        choose|i: int|
            #[trigger] text::occurs_at(s, blank(), i) && forall|k: int|
                0 <= k < i ==> !text::occurs_at(s, blank(), k)
    } else {
        s.len() as int
    }
}

/// A line without the carriage returns at its end.
pub open spec fn bare_line(line: Seq<char>) -> Seq<char> {
    text::trim_end_matches(line, '\r')
}

/// Lines with their bare quotes escaped, each ended by a newline alone.
pub open spec fn repaired_lines(s: Seq<char>) -> Seq<char>
    decreases s.len(),
{
    if s.len() == 0 {
        Seq::empty()
    } else {
        let n = text::index_of(s, '\n') as int;
        if n >= s.len() {
            repaired_line(bare_line(s)) + seq!['\n']
        } else {
            repaired_line(bare_line(s.take(n))) + seq!['\n'] + repaired_lines(s.skip(n + 1))
        }
    }
}

/// A line with a quote in it that ends like a tag: where the value would be is well
/// within the line.
pub open spec fn is_closed(line: Seq<char>) -> bool {
    let n = line.len();
    (n > 0 && line[n - 1] == ']' && line.contains('"')) ==> value_start(line) <= n - 2
        && (line[n - 2] as u32) < 128
}

/// A quote between the first one and what closes a tag line.
pub open spec fn shows_inner_quote(line: Seq<char>) -> bool {
    let n = line.len();
    n > 0 && line[n - 1] == ']' && value_start(line) < n - 2 && line.subrange(
        value_start(line),
        n - 2,
    ).contains('"')
}

/// A tag line whose closing quote is not its only one.
pub open spec fn has_value(line: Seq<char>) -> bool {
    let n = line.len();
    (n >= 2 && line[0] == '[' && line[n - 1] == ']' && line[n - 2] == '"') ==> value_start(line)
        <= n - 2
}

/// Whether no line before one has a quote in its value, so that this one is looked into.
pub open spec fn is_looked_into(lines: Seq<Seq<char>>, i: int) -> bool {
    forall|k: int| 0 <= k < i ==> !shows_inner_quote(#[trigger] lines[k])
}

/// Whether the lines of a tag section can be looked into, up to the first with a quote in
/// its value, and then repaired: those are closed, and all tags have values.
pub open spec fn all_closed(s: Seq<char>) -> bool {
    let lines = text::lines(s);
    &&& forall|i: int|
        0 <= i < lines.len() && is_looked_into(lines, i) ==> is_closed(#[trigger] lines[i])
    &&& any_inner_quote(s) ==> forall|i: int|
        0 <= i < lines.len() ==> has_value(#[trigger] lines[i])
}

/// Whether any line has a quote in its value.
pub open spec fn any_inner_quote(s: Seq<char>) -> bool {
    exists|i: int| 0 <= i < text::lines(s).len() && shows_inner_quote(#[trigger] text::lines(s)[i])
}

/// A game with the bare quotes in its tags escaped: a text in which no tag line shows a
/// quote in its value is left as it is.
pub open spec fn repaired(pgn: Seq<char>) -> Seq<char> {
    let b = blank_line(pgn);
    let headers = pgn.take(b);
    if any_inner_quote(headers) {
        repaired_lines(headers) + (if b < pgn.len() {
            pgn.skip(b + 1)
        } else {
            Seq::empty()
        })
    } else {
        pgn
    }
}

proof fn lemma_blank_line(s: Seq<char>, i: int)
    requires
        text::occurs_at(s, blank(), i),
        forall|k: int| 0 <= k < i ==> !text::occurs_at(s, blank(), k),
    ensures
        blank_line(s) == i,
{
    assert(text::contains(s, blank()));
    let c = blank_line(s);
    assert(text::occurs_at(s, blank(), c));
}

fn find_blank_line(s: &[char]) -> (b: usize)
    ensures
        b == blank_line(s@),
        b <= s.len(),
{
    let mut pat: Vec<char> = Vec::new();
    pat.push('\n');
    pat.push('\n');
    assert(pat@ =~= blank());
    match find(s, &pat) {
        Some(i) => {
            proof {
                lemma_blank_line(s@, i as int);
            }
            i
        },
        None => s.len(),
    }
}

fn quote_position(line: &[char]) -> (q: usize)
    ensures
        q == text::index_of(line@, '"'),
        q <= line.len(),
        (q < line.len()) == line@.contains('"'),
{
    let q: usize = find_char(line, '"');
    proof {
        text::lemma_lead_bound(line@, text::not_char('"'));
        if q < line.len() {
            assert(line@[q as int] == '"');
            assert(line@.contains('"'));
        } else {
            assert forall|i: int| 0 <= i < line@.len() implies line@[i] != '"' by {
                assert(text::not_char('"')(line@[i]));
            }
        }
    }
    q
}

/// Whether every tag line of a game can be looked into for quotes.
pub fn header_lines_are_closed(pgn: &str) -> (ok: bool)
    ensures
        ok == all_closed(pgn@.take(blank_line(pgn@))),
{
    let chars: Vec<char> = chars_of(pgn);
    let b: usize = find_blank_line(&chars);
    let headers: Vec<char> = slice(&chars, 0, b);
    assert(headers@ =~= pgn@.take(blank_line(pgn@)));
    let lines: Vec<String> = text::split_lines(&headers);
    let ghost all = text::lines(headers@);
    let mut shown: bool = false;
    let mut i: usize = 0;
    while i < lines.len() && !shown
        invariant
            i <= lines.len(),
            text::texts(lines@) == all,
            all == text::lines(pgn@.take(blank_line(pgn@))),
            forall|k: int| 0 <= k < i ==> is_closed(#[trigger] all[k]),
            shown ==> 0 < i && shows_inner_quote(all[i - 1]),
            !shown ==> is_looked_into(all, i as int),
        decreases lines.len() - i,
    {
        let line: Vec<char> = chars_of(lines[i].as_str());
        assert(line@ == all[i as int]);
        let n: usize = line.len();
        let q: usize = quote_position(&line);
        if n > 0 && line[n - 1] == ']' && q < n {
            if n < 2 || q + 1 > n - 2 || line[n - 2] as u32 >= 128 {
                assert(!is_closed(all[i as int]));
                return false;
            }
            let inner: Vec<char> = slice(&line, q + 1, n - 2);
            let v: usize = quote_position(&inner);
            if v < inner.len() {
                shown = true;
            }
        }
        i += 1;
    }
    if !shown {
        return true;
    }
    assert(any_inner_quote(headers@));
    assert forall|k: int| 0 <= k < all.len() && is_looked_into(all, k) implies is_closed(
        #[trigger] all[k],
    ) by {
        assert(shows_inner_quote(all[i - 1]));
        assert(k < i);
    }
    let mut j: usize = 0;
    while j < lines.len()
        invariant
            j <= lines.len(),
            text::texts(lines@) == all,
            all == text::lines(pgn@.take(blank_line(pgn@))),
            any_inner_quote(pgn@.take(blank_line(pgn@))),
            forall|k: int| 0 <= k < j ==> has_value(#[trigger] all[k]),
        decreases lines.len() - j,
    {
        let line: Vec<char> = chars_of(lines[j].as_str());
        assert(line@ == all[j as int]);
        let n: usize = line.len();
        let q: usize = quote_position(&line);
        if n >= 2 && line[0] == '[' && line[n - 1] == ']' && line[n - 2] == '"' && q + 1 > n - 2 {
            assert(!has_value(all[j as int]));
            return false;
        }
        j += 1;
    }
    true
}

/// Repairs the tag lines of a game that hold bare quotes in their values. Quotes that
/// are escaped already stay as they are.
pub fn repair_pgn_header_quotes(pgn: &str) -> (out: String)
    requires
        all_closed(pgn@.take(blank_line(pgn@))),
    ensures
        out@ == repaired(pgn@),
{
    let chars: Vec<char> = chars_of(pgn);
    let b: usize = find_blank_line(&chars);
    let headers: Vec<char> = slice(&chars, 0, b);
    assert(headers@ =~= pgn@.take(b as int));
    let lines: Vec<String> = text::split_lines(&headers);
    let ghost all = text::lines(headers@);
    let mut needs_repair: bool = false;
    let mut i: usize = 0;
    while i < lines.len() && !needs_repair
        invariant
            i <= lines.len(),
            text::texts(lines@) == all,
            forall|k: int|
                0 <= k < all.len() && is_looked_into(all, k) ==> is_closed(#[trigger] all[k]),
            needs_repair ==> 0 < i && shows_inner_quote(all[i - 1]),
            !needs_repair ==> is_looked_into(all, i as int),
        decreases lines.len() - i,
    {
        let line: Vec<char> = chars_of(lines[i].as_str());
        assert(line@ == all[i as int]);
        assert(is_closed(all[i as int]));
        let n: usize = line.len();
        let q: usize = quote_position(&line);
        if n > 0 && line[n - 1] == ']' && q < n {
            let inner: Vec<char> = slice(&line, q + 1, n - 2);
            let v: usize = quote_position(&inner);
            if v < inner.len() {
                needs_repair = true;
            }
        }
        i += 1;
    }
    if !needs_repair {
        return pgn.to_owned();
    }
    assert(any_inner_quote(headers@));
    let mut out: Vec<char> = repair_lines(&headers);
    if b < chars.len() {
        let mut tail: Vec<char> = slice(&chars, b + 1, chars.len());
        assert(tail@ =~= pgn@.skip(b + 1));
        out.append(&mut tail);
    } else {
        assert(out@ + Seq::<char>::empty() =~= out@);
    }
    string_of(&out)
}

fn repair_lines(s: &[char]) -> (out: Vec<char>)
    ensures
        out@ == repaired_lines(s@),
{
    let mut out: Vec<char> = Vec::new();
    let mut i: usize = 0;
    assert(s@.skip(0) =~= s@);
    while i < s.len()
        invariant
            i <= s.len(),
            out@ + repaired_lines(s@.skip(i as int)) == repaired_lines(s@),
        decreases s.len() - i,
    {
        let ghost rest = s@.skip(i as int);
        let ghost before = out@;
        let mut j: usize = i;
        while j < s.len() && s[j] != '\n'
            invariant
                i <= j <= s.len(),
                forall|k: int| i <= k < j ==> s@[k] != '\n',
            decreases s.len() - j,
        {
            j += 1;
        }
        let whole: Vec<char> = slice(s, i, j);
        let line: Vec<char> = text::trim_end_char(&whole, '\r');
        proof {
            assert(whole@ =~= rest.take(j - i));
            text::lemma_lead_is(rest, text::not_char('\n'), (j - i) as nat);
            assert(text::index_of(rest, '\n') == j - i);
        }
        if j < s.len() {
            let mut fixed: Vec<char> = repair_header_line(&line);
            out.append(&mut fixed);
            out.push('\n');
            proof {
                assert(rest.skip(j - i + 1) =~= s@.skip(j + 1));
                assert(out@ + repaired_lines(s@.skip(j + 1)) =~= before + repaired_lines(rest));
            }
            i = j + 1;
        } else {
            assert(whole@ =~= rest);
            let mut fixed: Vec<char> = repair_header_line(&line);
            out.append(&mut fixed);
            out.push('\n');
            proof {
                assert(s@.skip(j as int) =~= Seq::empty());
                assert(out@ + repaired_lines(s@.skip(j as int)) =~= before + repaired_lines(rest));
            }
            i = j;
        }
    }
    assert(s@.skip(i as int) =~= Seq::empty());
    assert(out@ + Seq::<char>::empty() =~= out@);
    out
}

// ── Repairing is idempotent ──────────────────────────────────────────────────

proof fn lemma_repaired_line(line: Seq<char>)
    ensures
        repaired_line(repaired_line(line)) == repaired_line(line),
        repaired_line(line).len() >= line.len(),
        line.len() > 0 && line.last() != '\r' ==> repaired_line(line).last() != '\r',
        !line.contains('\n') ==> !repaired_line(line).contains('\n'),
{
    if has_inner_quote(line) {
        reveal_strlit("\"]");
        let n = line.len() as int;
        let q = value_start(line);
        let v = line.subrange(q, n - 2);
        let e = escaped(v);
        let r = repaired_line(line);
        lemma_escaped(v);
        law_escaping_is_idempotent(v);
        text::lemma_lead_bound(line, text::not_char('"'));
        assert(r =~= line.take(q) + e + seq!['"', ']']);
        text::lemma_lead_is(r, text::not_char('"'), (q - 1) as nat);
        assert(r.subrange(q, r.len() - 2) =~= e);
        assert(r.take(q) =~= line.take(q));
        if !line.contains('\n') {
            assert forall|i: int| 0 <= i < r.len() implies r[i] != '\n' by {
                if i < q {
                    assert(r[i] == line[i]);
                } else if i < q + e.len() {
                    assert(r[i] == e[i - q]);
                    assert(e.contains(e[i - q]));
                    if r[i] == '\n' {
                        let k = choose|k: int| 0 <= k < v.len() && v[k] == '\n';
                        assert(line[q + k] == '\n');
                    }
                }
            }
        }
        assert(repaired_line(r) =~= r);
    }
}

proof fn lemma_escaped(v: Seq<char>)
    ensures
        escaped(v).len() >= v.len(),
        escaped(v).contains('\n') ==> v.contains('\n'),
        v.contains('"') ==> escaped(v).contains('"'),
    decreases v.len(),
{
    if v.len() > 0 {
        let e = escaped(v);
        let (k, rest) = if v[0] == '\\' {
            if v.len() == 1 {
                (1int, Seq::<char>::empty())
            } else {
                (2int, v.skip(2))
            }
        } else {
            (1int, v.skip(1))
        };
        if v[0] == '\\' && v.len() == 1 {
            assert(e =~= seq!['\\']);
        } else {
            lemma_escaped(rest);
            let head = e.len() - escaped(rest).len();
            assert(e.skip(head) =~= escaped(rest));
            if e.contains('\n') {
                let i = choose|i: int| 0 <= i < e.len() && e[i] == '\n';
                if i >= head {
                    assert(escaped(rest)[i - head] == '\n');
                    let j = choose|j: int| 0 <= j < rest.len() && rest[j] == '\n';
                    assert(v[j + k] == '\n');
                } else {
                    assert(v[i] == '\n');
                }
            }
            if v.contains('"') {
                let i = choose|i: int| 0 <= i < v.len() && v[i] == '"';
                if i >= k {
                    assert(rest[i - k] == '"');
                    let j = choose|j: int|
                        0 <= j < escaped(rest).len() && escaped(rest)[j] == '"';
                    assert(e[j + head] == '"');
                } else {
                    assert(e[0] == '"' || e[1] == '"');
                }
            }
        }
    }
}

/// The first line of repaired lines, and what follows it.
proof fn lemma_first_line(s: Seq<char>)
    requires
        s.len() > 0,
    ensures
        ({
            let n = text::index_of(s, '\n') as int;
            let line = if n >= s.len() {
                bare_line(s)
            } else {
                bare_line(s.take(n))
            };
            let r = repaired_line(line);
            let rest = if n >= s.len() {
                Seq::<char>::empty()
            } else {
                s.skip(n + 1)
            };
            let o = repaired_lines(s);
            &&& o == r + seq!['\n'] + repaired_lines(rest)
            &&& !r.contains('\n')
            &&& repaired_line(r) == r
            &&& bare_line(r) == r
            &&& rest.len() < s.len()
        }),
{
    let n = text::index_of(s, '\n') as int;
    text::lemma_lead_bound(s, text::not_char('\n'));
    let line = if n >= s.len() {
        bare_line(s)
    } else {
        bare_line(s.take(n))
    };
    let whole = if n >= s.len() {
        s
    } else {
        s.take(n)
    };
    text::lemma_cut_end(whole, text::is_char('\r'));
    text::lemma_cut_end(line, text::is_char('\r'));
    assert forall|i: int| 0 <= i < line.len() implies line[i] != '\n' by {
        assert(line[i] == whole[i] && whole[i] == s[i]);
        assert(text::not_char('\n')(s[i]));
    }
    lemma_repaired_line(line);
    let o = repaired_lines(s);
    let r = repaired_line(line);
    assert(bare_line(r) == r) by {
        if r.len() > 0 {
            if line.len() == 0 {
                assert(r =~= line);
            }
            assert(!text::is_char('\r')(r.last()));
        }
    }
    if n >= s.len() {
        assert(o =~= repaired_line(line) + seq!['\n'] + Seq::<char>::empty());
    }
}

proof fn lemma_index_after(r: Seq<char>, rest: Seq<char>)
    requires
        !r.contains('\n'),
    ensures
        text::index_of(r + seq!['\n'] + rest, '\n') == r.len(),
        text::index_of(r, '\n') == r.len(),
{
    let s = r + seq!['\n'] + rest;
    assert forall|i: int| 0 <= i < r.len() implies text::not_char('\n')(#[trigger] r[i]) by {
        assert(r.contains(r[i]));
    }
    assert forall|i: int| 0 <= i < r.len() implies text::not_char('\n')(#[trigger] s[i]) by {
        assert(s[i] == r[i]);
        assert(r.contains(r[i]));
    }
    assert(s[r.len() as int] == '\n');
    text::lemma_lead_is(s, text::not_char('\n'), r.len());
    text::lemma_lead_is(r, text::not_char('\n'), r.len());
}

/// Repaired lines are repaired.
proof fn lemma_lines_stay(s: Seq<char>)
    ensures
        repaired_lines(repaired_lines(s)) == repaired_lines(s),
    decreases s.len(),
{
    if s.len() > 0 {
        lemma_first_line(s);
        let n = text::index_of(s, '\n') as int;
        let line = if n >= s.len() {
            bare_line(s)
        } else {
            bare_line(s.take(n))
        };
        let r = repaired_line(line);
        let rest = if n >= s.len() {
            Seq::<char>::empty()
        } else {
            s.skip(n + 1)
        };
        let o2 = repaired_lines(rest);
        let o = repaired_lines(s);
        lemma_lines_stay(rest);
        lemma_index_after(r, o2);
        assert(o.take(r.len() as int) =~= r);
        assert(o.skip(r.len() as int + 1) =~= o2);
    }
}

/// The lines before a newline in repaired lines are repaired, unless the line before it
/// is empty.
proof fn lemma_prefix_stays(s: Seq<char>, k: int)
    requires
        0 < k < repaired_lines(s).len(),
        repaired_lines(s)[k] == '\n',
        repaired_lines(s)[k - 1] != '\n',
    ensures
        repaired_lines(repaired_lines(s).take(k)) == repaired_lines(s).take(k + 1),
    decreases s.len(),
{
    let o = repaired_lines(s);
    lemma_first_line(s);
    let n = text::index_of(s, '\n') as int;
    let line = if n >= s.len() {
        bare_line(s)
    } else {
        bare_line(s.take(n))
    };
    let r = repaired_line(line);
    let rest = if n >= s.len() {
        Seq::<char>::empty()
    } else {
        s.skip(n + 1)
    };
    let o2 = repaired_lines(rest);
    let m = r.len() as int;
    if k < m {
        assert(o[k] == r[k]);
        assert(r.contains(r[k]));
    } else if k == m {
        assert(o.take(k) =~= r);
        lemma_index_after(r, o2);
        assert(o.take(k + 1) =~= r + seq!['\n']);
    } else {
        let k2 = k - m - 1;
        assert(o[k] == o2[k2]);
        assert(o[m] == '\n');
        assert(k2 > 0);
        assert(o[k - 1] == o2[k2 - 1]);
        lemma_prefix_stays(rest, k2);
        let p = o.take(k);
        assert(p =~= r + seq!['\n'] + o2.take(k2));
        lemma_index_after(r, o2.take(k2));
        assert(p.take(m) =~= r);
        assert(p.skip(m + 1) =~= o2.take(k2));
        assert(repaired_lines(p) =~= r + seq!['\n'] + o2.take(k2 + 1));
        assert(o.take(k + 1) =~= r + seq!['\n'] + o2.take(k2 + 1));
    }
}

proof fn lemma_lines_end(s: Seq<char>)
    requires
        s.len() > 0,
    ensures
        repaired_lines(s).len() > 0,
        repaired_lines(s).last() == '\n',
    decreases s.len(),
{
    lemma_first_line(s);
    let n = text::index_of(s, '\n') as int;
    if n < s.len() && s.skip(n + 1).len() > 0 {
        lemma_lines_end(s.skip(n + 1));
    }
}

/// A repaired game that has a blank line within what was repaired, repaired again.
proof fn lemma_repaired_again(headers: Seq<char>, tail: Seq<char>)
    requires
        ({
            let p = repaired_lines(headers) + tail;
            &&& text::contains(p, blank())
            &&& blank_line(p) < repaired_lines(headers).len()
            &&& blank_line(p) > 0
        }),
    ensures
        ({
            let p = repaired_lines(headers) + tail;
            let c = blank_line(p);
            repaired_lines(p.take(c)) + p.skip(c + 1) == p
        }),
{
    let o = repaired_lines(headers);
    let p = o + tail;
    let c = blank_line(p);
    lemma_first_blank(p);
    let two = p.subrange(c, c + 2);
    assert(two[0] == '\n');
    assert(p[c] == '\n');
    if p[c - 1] == '\n' {
        assert(p.subrange(c - 1, c + 1) =~= blank());
        assert(text::occurs_at(p, blank(), c - 1));
    }
    assert(o[c] == p[c] && o[c - 1] == p[c - 1]);
    lemma_prefix_stays(headers, c);
    assert(p.take(c) =~= o.take(c));
    assert(o.take(c + 1) + p.skip(c + 1) =~= p);
}

/// The blank line after the tags is still there after a repair.
proof fn lemma_blank_line_stays(headers: Seq<char>, tail: Seq<char>)
    requires
        headers.len() > 0,
        tail.len() > 0,
        tail[0] == '\n',
    ensures
        ({
            let p = repaired_lines(headers) + tail;
            text::contains(p, blank()) && blank_line(p) < repaired_lines(headers).len()
        }),
{
    let o = repaired_lines(headers);
    let p = o + tail;
    lemma_lines_end(headers);
    let n = o.len() as int;
    assert(p[n - 1] == '\n' && p[n] == '\n');
    assert(p.subrange(n - 1, n + 1) =~= blank());
    assert(text::occurs_at(p, blank(), n - 1));
    lemma_first_blank(p);
}

/// Repairing a repaired game changes nothing.
pub proof fn law_repair_is_idempotent(pgn: Seq<char>)
    ensures
        repaired(repaired(pgn)) == repaired(pgn),
{
    let b = blank_line(pgn);
    let headers = pgn.take(b);
    if any_inner_quote(headers) {
        let o = repaired_lines(headers);
        let p = repaired(pgn);
        let c = blank_line(p);
        lemma_lines_of_empty();
        if headers.len() == 0 {
            assert(headers =~= Seq::empty());
        }
        if text::contains(pgn, blank()) {
            lemma_first_blank(pgn);
            assert(pgn.subrange(b, b + 2)[1] == '\n');
            let tail = pgn.skip(b + 1);
            assert(tail[0] == '\n');
            lemma_blank_line_stays(headers, tail);
            if any_inner_quote(p.take(c)) {
                lemma_first_blank(p);
                if c == 0 {
                    assert(p.take(c) =~= Seq::empty());
                }
                lemma_repaired_again(headers, tail);
            }
        } else {
            let tail = Seq::<char>::empty();
            assert(p =~= o + tail);
            if text::contains(p, blank()) {
                lemma_first_blank(p);
                if any_inner_quote(p.take(c)) {
                    if c == 0 {
                        assert(p.take(c) =~= Seq::empty());
                    }
                    lemma_repaired_again(headers, tail);
                }
            } else {
                assert(p =~= o);
                assert(p.take(c) =~= p);
                lemma_lines_stay(headers);
                assert(p + Seq::<char>::empty() =~= p);
            }
        }
    }
}

proof fn lemma_first_blank(s: Seq<char>)
    requires
        text::contains(s, blank()),
    ensures
        text::occurs_at(s, blank(), blank_line(s)),
        forall|k: int| 0 <= k < blank_line(s) ==> !text::occurs_at(s, blank(), k),
{
    let i = choose|i: int| #[trigger] text::occurs_at(s, blank(), i);
    lemma_least(s, i);
}

proof fn lemma_least(s: Seq<char>, i: int)
    requires
        text::occurs_at(s, blank(), i),
    ensures
        exists|j: int|
            #[trigger] text::occurs_at(s, blank(), j) && forall|k: int|
                0 <= k < j ==> !text::occurs_at(s, blank(), k),
    decreases i,
{
    if exists|k: int| 0 <= k < i && #[trigger] text::occurs_at(s, blank(), k) {
        let k = choose|k: int| 0 <= k < i && #[trigger] text::occurs_at(s, blank(), k);
        lemma_least(s, k);
    }
}

proof fn lemma_lines_of_empty()
    ensures
        !any_inner_quote(Seq::empty()),
{
    let e = Seq::<char>::empty();
    assert(text::split_on(e, '\n').last().len() == 0);
}

// ── Laws of tag lines ────────────────────────────────────────────────────────

/// A tag stands on a line of its own, in brackets, its value in quotes.
pub proof fn law_tags_are_written(name: Seq<char>, v: Seq<char>)
    requires
        forall|i: int| 0 <= i < v.len() ==> #[trigger] v[i] != '"' && v[i] != '\\',
    ensures
        tag_line(name, v) == seq!['['] + name + seq![' ', '"'] + v + seq!['"', ']', '\n'],
{
    reveal_strlit("[");
    reveal_strlit(" \"");
    reveal_strlit("\"]\n");
    lemma_plain_values(v);
    assert("["@ =~= seq!['[']);
    assert(" \""@ =~= seq![' ', '"']);
    assert("\"]\n"@ =~= seq!['"', ']', '\n']);
}

proof fn lemma_plain_values(v: Seq<char>)
    requires
        forall|i: int| 0 <= i < v.len() ==> #[trigger] v[i] != '"' && v[i] != '\\',
    ensures
        quoted(v) == v,
    decreases v.len(),
{
    if v.len() > 0 {
        let d = v.drop_last();
        assert forall|i: int| 0 <= i < d.len() implies #[trigger] d[i] != '"' && d[i] != '\\' by {
            assert(d[i] == v[i]);
        }
        lemma_plain_values(d);
        assert(v[v.len() - 1] != '"');
        assert(d + seq![v.last()] =~= v);
    } else {
        assert(quoted(v) =~= v);
    }
}

/// Quotes and backslashes are written with a backslash before them, and everything else as
/// it is.
pub proof fn law_quotes_are_escaped(a: Seq<char>, c: char)
    ensures
        c == '"' || c == '\\' ==> quoted(a.push(c)) == quoted(a) + seq!['\\', c],
        c != '"' && c != '\\' ==> quoted(a.push(c)) == quoted(a) + seq![c],
{
    assert(a.push(c).drop_last() =~= a);
}

/// Without backslashes, escaping the bare quotes is quoting.
pub proof fn law_escaping_is_quoting(v: Seq<char>)
    requires
        !v.contains('\\'),
    ensures
        escaped(v) == quoted(v),
    decreases v.len(),
{
    if v.len() > 0 {
        assert(v.contains(v[0]));
        let rest = v.skip(1);
        assert forall|i: int| 0 <= i < rest.len() implies #[trigger] rest[i] != '\\' by {
            assert(v.contains(v[i + 1]));
        }
        law_escaping_is_quoting(rest);
        lemma_quoted_first(v);
    }
}

/// A tag whose value holds bare quotes is repaired to the tag with that value: what was
/// written is kept, and can be read.
pub proof fn law_repaired_tags_keep_their_value(name: Seq<char>, v: Seq<char>)
    requires
        !name.contains('"'),
        !v.contains('\\'),
        v.contains('"'),
    ensures
        repaired_line(seq!['['] + name + seq![' ', '"'] + v + seq!['"', ']']) + seq!['\n']
            == tag_line(name, v),
{
    reveal_strlit("[");
    reveal_strlit(" \"");
    reveal_strlit("\"]\n");
    reveal_strlit("\"]");
    let head = seq!['['] + name + seq![' ', '"'];
    let line = head + v + seq!['"', ']'];
    let k = (name.len() + 2) as int;
    assert forall|i: int| 0 <= i < k implies text::not_char('"')(#[trigger] line[i]) by {
        if 1 <= i <= name.len() {
            assert(name.contains(name[i - 1]));
        }
    }
    assert(line[k] == '"');
    text::lemma_lead_is(line, text::not_char('"'), k as nat);
    assert(value_start(line) == k + 1);
    let n = line.len() as int;
    assert(line.subrange(k + 1, n - 2) =~= v);
    assert(v.len() > 0);
    assert(line[n - 1] == ']' && line[n - 2] == '"' && line[0] == '[');
    assert(has_inner_quote(line));
    assert(line.take(k + 1) =~= head);
    law_escaping_is_quoting(v);
    assert("\"]"@ =~= seq!['"', ']']);
    assert(head + quoted(v) + "\"]"@ + seq!['\n'] =~= "["@ + name + " \""@ + quoted(v) + "\"]\n"@);
}

/// A line that is no tag with a quote in its value stays as it is.
pub proof fn law_sound_lines_stay(line: Seq<char>)
    requires
        line.len() == 0 || line[0] != '[' || !shows_inner_quote(line),
    ensures
        repaired_line(line) == line,
{
}

/// Repairing the tags leaves what stands behind the blank line alone.
pub proof fn law_repair_leaves_the_moves(pgn: Seq<char>)
    ensures
        !any_inner_quote(pgn.take(blank_line(pgn))) ==> repaired(pgn) == pgn,
        any_inner_quote(pgn.take(blank_line(pgn))) && blank_line(pgn) < pgn.len()
            ==> text::ends_with(repaired(pgn), pgn.skip(blank_line(pgn) + 1)),
{
    let b = blank_line(pgn);
    if text::contains(pgn, blank()) {
        lemma_first_blank(pgn);
    }
    if any_inner_quote(pgn.take(b)) && b < pgn.len() {
        text::law_parts_are_found(
            repaired_lines(pgn.take(b)),
            pgn.skip(b + 1),
            Seq::empty(),
        );
    }
}

} // verus!
