//! Move fingerprints: a game's bare sequence of moves, whatever else its text holds,
//! and the hashes of it by which copies of one game are found.
use crate::text;
use crate::text::{chars_of, joined, same, slice, split_lines, split_words, string_of};
use vstd::prelude::*;
use vstd::string::*;

verus! {

// ── Tokens ───────────────────────────────────────────────────────────────────

/// A game result as it stands at the end of a movetext.
pub open spec fn is_result(tok: Seq<char>) -> bool {
    tok == "1-0"@ || tok == "0-1"@ || tok == "1/2-1/2"@ || tok == "*"@
}

pub fn result_token(tok: &str) -> (b: bool)
    ensures
        b == is_result(tok@),
{
    same(tok, "1-0") || same(tok, "0-1") || same(tok, "1/2-1/2") || same(tok, "*")
}

pub open spec fn digits() -> spec_fn(char) -> bool {
    |c: char| text::is_digit(c)
}

pub open spec fn quality_marks() -> spec_fn(char) -> bool {
    |c: char| c == '!' || c == '?'
}

/// `tok` without a move number at its start: digits and the dots right behind them.
pub open spec fn after_move_number(tok: Seq<char>) -> Seq<char> {
    let rest = tok.skip(text::lead(tok, digits()) as int);
    if text::lead(tok, digits()) > 0 && rest.len() > 0 && rest[0] == '.' {
        text::trim_start_matches(rest, '.')
    } else {
        tok
    }
}

/// The move that a movetext token stands for: not a result or a NAG, without its
/// number and its quality marks, castling written with the letter O.
pub open spec fn token_move(tok: Seq<char>) -> Option<Seq<char>> {
    if is_result(tok) || tok.len() > 0 && tok[0] == '$' {
        None
    } else {
        let mv = text::cut_end(after_move_number(tok), quality_marks());
        if mv.len() == 0 {
            None
        } else if mv == "0-0"@ {
            Some("O-O"@)
        } else if mv == "0-0-0"@ {
            Some("O-O-O"@)
        } else {
            Some(mv)
        }
    }
}

fn number_end(s: &[char]) -> (from: usize)
    ensures
        from <= s.len(),
        s@.skip(from as int) == after_move_number(s@),
{
    let mut i: usize = 0;
    while i < s.len() && '0' <= s[i] && s[i] <= '9'
        invariant
            i <= s.len(),
            forall|k: int| 0 <= k < i ==> text::is_digit(#[trigger] s@[k]),
        decreases s.len() - i,
    {
        i += 1;
    }
    proof {
        text::lemma_lead_is(s@, digits(), i as nat);
    }
    if i > 0 && i < s.len() && s[i] == '.' {
        let mut j: usize = i;
        while j < s.len() && s[j] == '.'
            invariant
                i <= j <= s.len(),
                forall|k: int| i <= k < j ==> #[trigger] s@[k] == '.',
            decreases s.len() - j,
        {
            j += 1;
        }
        proof {
            let rest = s@.skip(i as int);
            assert forall|k: int| 0 <= k < j - i implies text::is_char('.')(#[trigger] rest[k]) by {
                assert(rest[k] == s@[k + i]);
            }
            text::lemma_lead_is(rest, text::is_char('.'), (j - i) as nat);
            assert(rest.skip(j - i) =~= s@.skip(j as int));
            assert(rest[0] == s@[i as int]);
        }
        j
    } else {
        proof {
            assert(s@.skip(0) =~= s@);
            let rest = s@.skip(i as int);
            assert(rest.len() > 0 ==> rest[0] == s@[i as int]);
        }
        0
    }
}

/// A token without a move number at its start: "2.Nf3" becomes "Nf3".
pub fn strip_move_number(tok: &str) -> (r: String)
    ensures
        r@ == after_move_number(tok@),
{
    let s: Vec<char> = chars_of(tok);
    let from: usize = number_end(&s);
    assert(s@.subrange(from as int, s@.len() as int) =~= s@.skip(from as int));
    string_of(&slice(&s, from, s.len()))
}

/// Normalises one movetext token to a move, or `None` if it is not one: a move number
/// alone, a NAG, a result, or nothing but quality marks.
pub fn normalise_san_token(tok: &str) -> (r: Option<String>)
    ensures
        match r {
            Some(mv) => token_move(tok@) == Some(mv@),
            None => token_move(tok@) is None,
        },
{
    if result_token(tok) {
        return None;
    }
    let s: Vec<char> = chars_of(tok);
    if s.len() > 0 && s[0] == '$' {
        return None;
    }
    let from: usize = number_end(&s);
    assert(s@.skip(from as int) == after_move_number(tok@));
    let mut to: usize = s.len();
    while to > from && (s[to - 1] == '!' || s[to - 1] == '?')
        invariant
            from <= to <= s.len(),
            forall|k: int| to <= k < s.len() ==> #[trigger] s@[k] == '!' || s@[k] == '?',
        decreases to,
    {
        to -= 1;
    }
    proof {
        let mv = s@.skip(from as int);
        assert forall|k: int| to - from <= k < mv.len() implies quality_marks()(#[trigger] mv[k]) by {
            assert(mv[k] == s@[k + from]);
        }
        text::lemma_cut_end_is(mv, quality_marks(), to - from);
        assert(mv.take(to - from) =~= s@.subrange(from as int, to as int));
    }
    if from == to {
        return None;
    }
    let mv: String = string_of(&slice(&s, from, to));
    if same(mv.as_str(), "0-0") {
        Some("O-O".to_owned())
    } else if same(mv.as_str(), "0-0-0") {
        Some("O-O-O".to_owned())
    } else {
        Some(mv)
    }
}

// ── Movetext ─────────────────────────────────────────────────────────────────

/// A line before the movetext: blank, or a tag.
pub open spec fn is_header_line(line: Seq<char>) -> bool {
    let t = text::trim_start(line);
    t.len() == 0 || t[0] == '['
}

/// The lines from the first that is not a header line on.
pub open spec fn skip_headers(lines: Seq<Seq<char>>) -> Seq<Seq<char>>
    decreases lines.len(),
{
    if lines.len() == 0 || !is_header_line(lines[0]) {
        lines
    } else {
        skip_headers(lines.skip(1))
    }
}

/// Everything from the first line that is not a header on, as one line.
pub open spec fn movetext(pgn: Seq<char>) -> Seq<char> {
    text::join(skip_headers(text::lines(pgn)), " "@)
}

/// What stands outside comments and variations, seen from inside `brace` comments and
/// `paren` variations. Inside a comment a round bracket is plain text.
pub open spec fn outside_notes(s: Seq<char>, brace: nat, paren: nat) -> Seq<char>
    decreases s.len(),
{
    if s.len() == 0 {
        Seq::empty()
    } else {
        let c = s[0];
        let rest = s.skip(1);
        if c == '{' {
            outside_notes(rest, brace + 1, paren)
        } else if c == '}' {
            outside_notes(rest, down(brace), paren)
        } else if c == '(' && brace == 0 {
            outside_notes(rest, brace, paren + 1)
        } else if c == ')' && brace == 0 {
            outside_notes(rest, brace, down(paren))
        } else if brace == 0 && paren == 0 {
            seq![c] + outside_notes(rest, brace, paren)
        } else {
            outside_notes(rest, brace, paren)
        }
    }
}

/// One less, but not less than zero.
pub open spec fn down(n: nat) -> nat {
    if n == 0 {
        0
    } else {
        (n - 1) as nat
    }
}

/// The moves among `toks`, in order.
pub open spec fn token_moves(toks: Seq<Seq<char>>) -> Seq<Seq<char>>
    decreases toks.len(),
{
    if toks.len() == 0 {
        Seq::empty()
    } else {
        let before = token_moves(toks.drop_last());
        match token_move(toks.last()) {
            Some(mv) => before.push(mv),
            None => before,
        }
    }
}

/// The moves that a movetext plays outside comments and variations.
pub open spec fn moves_in(movetext: Seq<char>) -> Seq<Seq<char>> {
    token_moves(text::words(outside_notes(movetext, 0, 0)))
}

/// The bare moves of a game.
pub open spec fn bare_moves(pgn: Seq<char>) -> Seq<Seq<char>> {
    moves_in(movetext(pgn))
}

fn header_line(line: &str) -> (b: bool)
    ensures
        b == is_header_line(line@),
{
    let s: Vec<char> = chars_of(line);
    let mut a: usize = 0;
    while a < s.len() && text::white(s[a])
        invariant
            a <= s.len(),
            forall|k: int| 0 <= k < a ==> text::is_white(#[trigger] s@[k]),
        decreases s.len() - a,
    {
        a += 1;
    }
    proof {
        text::lemma_lead_is(s@, text::whites(), a as nat);
        assert(a < s.len() ==> s@.skip(a as int)[0] == s@[a as int]);
    }
    a == s.len() || s[a] == '['
}

fn movetext_of(pgn: &str) -> (out: String)
    ensures
        out@ == movetext(pgn@),
{
    let all: Vec<String> = split_lines(&chars_of(pgn));
    let mut from: usize = 0;
    let ghost lines = text::lines(pgn@);
    assert(lines.skip(0) =~= lines);
    while from < all.len() && header_line(all[from].as_str())
        invariant
            from <= all.len(),
            text::texts(all@) == lines,
            skip_headers(lines.skip(from as int)) == skip_headers(lines),
        decreases all.len() - from,
    {
        assert(lines.skip(from as int)[0] == lines[from as int]);
        assert(lines[from as int] == all@[from as int]@);
        assert(lines.skip(from as int).skip(1) =~= lines.skip(from + 1));
        from += 1;
    }
    proof {
        if from < all.len() {
            assert(lines.skip(from as int)[0] == lines[from as int]);
            assert(lines[from as int] == all@[from as int]@);
        }
    }
    let mut kept: Vec<String> = Vec::new();
    let mut i: usize = from;
    while i < all.len()
        invariant
            from <= i <= all.len(),
            kept@ == all@.subrange(from as int, i as int),
        decreases all.len() - i,
    {
        kept.push(all[i].clone());
        i += 1;
        assert(all@.subrange(from as int, i as int) =~= all@.subrange(from as int, i - 1).push(
            all@[i - 1],
        ));
    }
    assert(text::texts(kept@) =~= lines.skip(from as int));
    joined(&kept, " ")
}

fn strip_notes(s: &[char]) -> (out: Vec<char>)
    ensures
        out@ == outside_notes(s@, 0, 0),
{
    let mut out: Vec<char> = Vec::new();
    let mut brace: usize = 0;
    let mut paren: usize = 0;
    let mut i: usize = 0;
    assert(s@.skip(0) =~= s@);
    assert(out@ + outside_notes(s@, 0, 0) =~= outside_notes(s@, 0, 0));
    while i < s.len()
        invariant
            i <= s.len(),
            brace <= i,
            paren <= i,
            out@ + outside_notes(s@.skip(i as int), brace as nat, paren as nat) == outside_notes(
                s@,
                0,
                0,
            ),
        decreases s.len() - i,
    {
        let c: char = s[i];
        let ghost had = out@;
        let ghost rest = s@.skip(i + 1);
        proof {
            assert(s@.skip(i as int)[0] == c);
            assert(s@.skip(i as int).skip(1) =~= rest);
        }
        if c == '{' {
            brace += 1;
        } else if c == '}' {
            if brace > 0 {
                brace -= 1;
            }
        } else if c == '(' && brace == 0 {
            paren += 1;
        } else if c == ')' && brace == 0 {
            if paren > 0 {
                paren -= 1;
            }
        } else if brace == 0 && paren == 0 {
            out.push(c);
            assert(had.push(c) + outside_notes(rest, 0, 0) =~= had + (seq![c] + outside_notes(
                rest,
                0,
                0,
            )));
        }
        i += 1;
    }
    assert(s@.skip(i as int) =~= Seq::<char>::empty());
    assert(out@ + Seq::<char>::empty() =~= out@);
    out
}

/// Reduces a game's text to its bare sequence of moves, so that the same game matches
/// across sources that annotate differently: move numbers, comments, NAGs, variations
/// and the result are dropped, castling is written with the letter O, and quality marks
/// are stripped.
pub fn canonical_moves(pgn: &str) -> (out: Vec<String>)
    ensures
        text::texts(out@) == bare_moves(pgn@),
{
    let body: String = movetext_of(pgn);
    let bare: Vec<char> = strip_notes(&chars_of(body.as_str()));
    let toks: Vec<String> = split_words(&bare);
    let mut out: Vec<String> = Vec::new();
    let mut i: usize = 0;
    let ghost words = text::texts(toks@);
    while i < toks.len()
        invariant
            i <= toks.len(),
            words == text::texts(toks@),
            text::texts(out@) == token_moves(words.take(i as int)),
        decreases toks.len() - i,
    {
        let ghost had = out@;
        proof {
            let now = words.take(i + 1);
            assert(now.drop_last() =~= words.take(i as int));
            assert(now.last() == toks@[i as int]@);
        }
        if let Some(mv) = normalise_san_token(toks[i].as_str()) {
            out.push(mv);
            assert(text::texts(out@) =~= text::texts(had).push(mv@));
        }
        i += 1;
    }
    assert(words.take(i as int) =~= words);
    out
}

// ── Hashes ───────────────────────────────────────────────────────────────────

pub const FNV_OFFSET: u64 = 0xcbf2_9ce4_8422_2325;

pub const FNV_PRIME: u64 = 0x0000_0100_0000_01b3;

/// FNV-1a, 64 bits, over `bytes`.
pub open spec fn fnv1a(bytes: Seq<u8>) -> u64
    decreases bytes.len(),
{
    if bytes.len() == 0 {
        FNV_OFFSET
    } else {
        (fnv1a(bytes.drop_last()) ^ (bytes.last() as u64)).wrapping_mul(FNV_PRIME)
    }
}

/// The hash of a sequence of moves: FNV-1a over the moves with a blank between each
/// two, in UTF-8, the 64 bits read as a signed number.
pub open spec fn moves_hash(moves: Seq<Seq<char>>) -> i64 {
    fnv1a(vstd::utf8::encode_utf8(text::join(moves, " "@))) as i64
}

/// FNV-1a over the blank-joined moves. It is stable across builds, as stored hashes
/// must be.
pub fn hash_moves(moves: &[String]) -> (h: i64)
    ensures
        h == moves_hash(text::texts(moves@)),
{
    let whole: String = joined(moves, " ");
    let bytes: &[u8] = whole.as_str().as_bytes();
    let mut h: u64 = FNV_OFFSET;
    let mut i: usize = 0;
    while i < bytes.len()
        invariant
            i <= bytes.len(),
            h == fnv1a(bytes@.take(i as int)),
        decreases bytes.len() - i,
    {
        h = (h ^ (bytes[i] as u64)).wrapping_mul(FNV_PRIME);
        proof {
            let now = bytes@.take(i + 1);
            assert(now.drop_last() =~= bytes@.take(i as int));
            assert(now.last() == bytes@[i as int]);
        }
        i += 1;
    }
    assert(bytes@.take(i as int) =~= bytes@);
    h as i64
}

/// The two fingerprints of a game: the hash of its moves, and, where it has two moves
/// or more, the hash of its moves without the last.
pub open spec fn fingerprints(pgn: Seq<char>) -> (i64, Option<i64>) {
    let moves = bare_moves(pgn);
    (
        moves_hash(moves),
        if moves.len() >= 2 {
            Some(moves_hash(moves.drop_last()))
        } else {
            None
        },
    )
}

/// The two move fingerprints stored per game. The pair lets copies be matched that are
/// the same move for move, or that differ by a single half-move at the end.
pub fn move_fingerprints(pgn: &str) -> (r: (i64, Option<i64>))
    ensures
        r == fingerprints(pgn@),
{
    let mut moves: Vec<String> = canonical_moves(pgn);
    let full: i64 = hash_moves(&moves);
    if moves.len() >= 2 {
        let ghost all = moves@;
        moves.pop();
        assert(text::texts(moves@) =~= text::texts(all).drop_last());
        let short: i64 = hash_moves(&moves);
        (full, Some(short))
    } else {
        (full, None)
    }
}

// ── Laws ─────────────────────────────────────────────────────────────────────

/// A game that plays the moves of another but for the last one has that other's short
/// fingerprint as its full one.
pub proof fn law_short_matches_one_move_less(longer: Seq<char>, shorter: Seq<char>)
    requires
        bare_moves(longer).len() >= 2,
        bare_moves(shorter) == bare_moves(longer).drop_last(),
    ensures
        fingerprints(longer).1 == Some(fingerprints(shorter).0),
{
}

/// Games with the same moves have the same fingerprints, whatever else their texts hold.
pub proof fn law_same_moves_same_fingerprints(a: Seq<char>, b: Seq<char>)
    requires
        bare_moves(a) == bare_moves(b),
    ensures
        fingerprints(a) == fingerprints(b),
{
}

proof fn lemma_in_comment(c: Seq<char>, rest: Seq<char>, brace: nat, paren: nat)
    requires
        brace > 0,
        forall|i: int| 0 <= i < c.len() ==> #[trigger] c[i] != '{' && c[i] != '}',
    ensures
        outside_notes(c + rest, brace, paren) == outside_notes(rest, brace, paren),
    decreases c.len(),
{
    if c.len() == 0 {
        assert(c + rest =~= rest);
    } else {
        let s = c + rest;
        assert(s[0] == c[0]);
        assert(s.skip(1) =~= c.skip(1) + rest);
        assert forall|i: int| 0 <= i < c.skip(1).len() implies #[trigger] c.skip(1)[i] != '{'
            && c.skip(1)[i] != '}' by {
            assert(c.skip(1)[i] == c[i + 1]);
        }
        lemma_in_comment(c.skip(1), rest, brace, paren);
    }
}

proof fn lemma_note_vanishes(a: Seq<char>, c: Seq<char>, b: Seq<char>, brace: nat, paren: nat)
    requires
        forall|i: int| 0 <= i < c.len() ==> #[trigger] c[i] != '{' && c[i] != '}',
    ensures
        outside_notes(a + (seq!['{'] + c + seq!['}']) + b, brace, paren) == outside_notes(
            a + b,
            brace,
            paren,
        ),
    decreases a.len(),
{
    let note = seq!['{'] + c + seq!['}'];
    if a.len() == 0 {
        let s = a + note + b;
        assert(s[0] == '{');
        assert(s.skip(1) =~= c + (seq!['}'] + b));
        lemma_in_comment(c, seq!['}'] + b, brace + 1, paren);
        let t = seq!['}'] + b;
        assert(t[0] == '}');
        assert(t.skip(1) =~= b);
        assert(a + b =~= b);
    } else {
        let s = a + note + b;
        assert(s[0] == a[0]);
        assert(s.skip(1) =~= a.skip(1) + note + b);
        assert((a + b)[0] == a[0]);
        assert((a + b).skip(1) =~= a.skip(1) + b);
        let x = a.skip(1);
        lemma_note_vanishes(x, c, b, brace, paren);
        lemma_note_vanishes(x, c, b, brace + 1, paren);
        lemma_note_vanishes(x, c, b, down(brace), paren);
        lemma_note_vanishes(x, c, b, brace, paren + 1);
        lemma_note_vanishes(x, c, b, brace, down(paren));
    }
}

/// A comment, anywhere in a movetext, changes nothing about the moves in it.
pub proof fn law_comments_do_not_matter(a: Seq<char>, comment: Seq<char>, b: Seq<char>)
    requires
        forall|i: int|
            0 <= i < comment.len() ==> #[trigger] comment[i] != '{' && comment[i] != '}',
    ensures
        moves_in(a + (seq!['{'] + comment + seq!['}']) + b) == moves_in(a + b),
{
    lemma_note_vanishes(a, comment, b, 0, 0);
}

/// How many variations are open after `v`, seen from inside `open` of them, with each
/// bracket outside comments counted.
pub open spec fn stays_inside(v: Seq<char>, open: nat) -> bool
    decreases v.len(),
{
    if v.len() == 0 {
        open == 1
    } else if v[0] == '{' || v[0] == '}' {
        false
    } else if v[0] == '(' {
        stays_inside(v.skip(1), open + 1)
    } else if v[0] == ')' {
        open > 1 && stays_inside(v.skip(1), (open - 1) as nat)
    } else {
        stays_inside(v.skip(1), open)
    }
}

proof fn lemma_in_variation(v: Seq<char>, rest: Seq<char>, open: nat, base: nat)
    requires
        open >= 1,
        stays_inside(v, open),
    ensures
        outside_notes(v + rest, 0, base + open) == outside_notes(rest, 0, base + 1),
    decreases v.len(),
{
    if v.len() == 0 {
        assert(v + rest =~= rest);
    } else {
        let s = v + rest;
        assert(s[0] == v[0]);
        assert(s.skip(1) =~= v.skip(1) + rest);
        if v[0] == '(' {
            lemma_in_variation(v.skip(1), rest, open + 1, base);
        } else if v[0] == ')' {
            lemma_in_variation(v.skip(1), rest, (open - 1) as nat, base);
        } else {
            lemma_in_variation(v.skip(1), rest, open, base);
        }
    }
}

/// Whether a movetext, read up to its end, is outside every comment.
pub open spec fn ends_outside_comments(a: Seq<char>, brace: nat) -> bool
    decreases a.len(),
{
    if a.len() == 0 {
        brace == 0
    } else if a[0] == '{' {
        ends_outside_comments(a.skip(1), brace + 1)
    } else if a[0] == '}' {
        ends_outside_comments(a.skip(1), down(brace))
    } else {
        ends_outside_comments(a.skip(1), brace)
    }
}

proof fn lemma_variation_vanishes(a: Seq<char>, v: Seq<char>, b: Seq<char>, brace: nat, paren: nat)
    requires
        stays_inside(v, 1),
        ends_outside_comments(a, brace),
    ensures
        outside_notes(a + (seq!['('] + v + seq![')']) + b, brace, paren) == outside_notes(
            a + b,
            brace,
            paren,
        ),
    decreases a.len(),
{
    let var = seq!['('] + v + seq![')'];
    let s = a + var + b;
    if a.len() == 0 {
        assert(s[0] == '(');
        assert(s.skip(1) =~= v + (seq![')'] + b));
        lemma_in_variation(v, seq![')'] + b, 1, paren);
        let t = seq![')'] + b;
        assert(t[0] == ')');
        assert(t.skip(1) =~= b);
        assert(a + b =~= b);
    } else {
        assert(s[0] == a[0]);
        assert(s.skip(1) =~= a.skip(1) + var + b);
        assert((a + b)[0] == a[0]);
        assert((a + b).skip(1) =~= a.skip(1) + b);
        let x = a.skip(1);
        if a[0] == '{' {
            lemma_variation_vanishes(x, v, b, brace + 1, paren);
        } else if a[0] == '}' {
            lemma_variation_vanishes(x, v, b, down(brace), paren);
        } else if a[0] == '(' && brace == 0 {
            lemma_variation_vanishes(x, v, b, brace, paren + 1);
        } else if a[0] == ')' && brace == 0 {
            lemma_variation_vanishes(x, v, b, brace, down(paren));
        } else {
            lemma_variation_vanishes(x, v, b, brace, paren);
        }
    }
}

/// A variation, with balanced brackets and anywhere outside a comment, changes nothing
/// about the moves of the main line.
pub proof fn law_variations_do_not_matter(a: Seq<char>, v: Seq<char>, b: Seq<char>)
    requires
        stays_inside(v, 1),
        ends_outside_comments(a, 0),
    ensures
        moves_in(a + (seq!['('] + v + seq![')']) + b) == moves_in(a + b),
{
    lemma_variation_vanishes(a, v, b, 0, 0);
}

// ── Laws of bare moves ───────────────────────────────────────────────────────

/// What stands behind a move number.
proof fn lemma_after_number(number: Seq<char>, dots: Seq<char>, rest: Seq<char>)
    requires
        forall|i: int| 0 <= i < number.len() ==> text::is_digit(#[trigger] number[i]),
        forall|i: int| 0 <= i < dots.len() ==> #[trigger] dots[i] == '.',
        number.len() > 0 && dots.len() > 0,
        rest.len() == 0 || rest[0] != '.',
    ensures
        after_move_number(number + dots + rest) == rest,
{
    let tok = number + dots + rest;
    assert forall|i: int| 0 <= i < number.len() implies digits()(#[trigger] tok[i]) by {
        assert(text::is_digit(number[i]));
    }
    assert(tok[number.len() as int] == dots[0]);
    text::lemma_lead_is(tok, digits(), number.len());
    let after = tok.skip(number.len() as int);
    assert(after =~= dots + rest);
    assert forall|i: int| 0 <= i < dots.len() implies text::is_char('.')(#[trigger] after[i]) by {
        assert(dots[i] == '.');
    }
    text::lemma_lead_is(after, text::is_char('.'), dots.len());
    assert(after.skip(dots.len() as int) =~= rest);
}

proof fn lemma_marks_go(mv: Seq<char>, marks: Seq<char>)
    requires
        mv.len() > 0 ==> mv.last() != '!' && mv.last() != '?',
        forall|i: int| 0 <= i < marks.len() ==> #[trigger] marks[i] == '!' || marks[i] == '?',
    ensures
        text::cut_end(mv + marks, quality_marks()) == mv,
    decreases marks.len(),
{
    if marks.len() == 0 {
        assert(mv + marks =~= mv);
    } else {
        assert(marks.last() == marks[marks.len() - 1]);
        assert((mv + marks).drop_last() =~= mv + marks.drop_last());
        lemma_marks_go(mv, marks.drop_last());
    }
}

/// A token gives the move that stands in it, whichever it is: with or without a move number
/// before it and marks behind it, as it is written but for castling with zeros.
pub proof fn law_a_token_gives_its_move(
    number: Seq<char>,
    dots: Seq<char>,
    mv: Seq<char>,
    marks: Seq<char>,
)
    requires
        forall|i: int| 0 <= i < number.len() ==> text::is_digit(#[trigger] number[i]),
        forall|i: int| 0 <= i < dots.len() ==> #[trigger] dots[i] == '.',
        number.len() > 0 <==> dots.len() > 0,
        forall|i: int| 0 <= i < marks.len() ==> #[trigger] marks[i] == '!' || marks[i] == '?',
        mv.len() > 0 && mv[0] != '.' && mv.last() != '!' && mv.last() != '?',
        number.len() == 0 ==> mv[0] != '$' && mv[0] != '*' && (!text::is_digit(mv[0]) || mv
            == "0-0"@ || mv == "0-0-0"@),
    ensures
        token_move(number + dots + mv + marks) == Some(
            if mv == "0-0"@ {
                "O-O"@
            } else if mv == "0-0-0"@ {
                "O-O-O"@
            } else {
                mv
            },
        ),
{
    reveal_strlit("1-0");
    reveal_strlit("0-1");
    reveal_strlit("1/2-1/2");
    reveal_strlit("*");
    reveal_strlit("0-0");
    reveal_strlit("0-0-0");
    let tok = number + dots + mv + marks;
    let rest = mv + marks;
    lemma_marks_go(mv, marks);
    if number.len() > 0 {
        assert(tok =~= number + dots + rest);
        lemma_after_number(number, dots, rest);
        assert(tok[number.len() as int] == dots[0]);
        assert(tok[0] == number[0]);
        assert(text::is_digit(number[0]));
    } else {
        assert(tok =~= rest);
        assert(tok[0] == mv[0]);
        if text::is_digit(mv[0]) {
            assert(digits()(tok[0]));
            assert(tok[1] == '-' && tok[2] == '0');
            text::lemma_lead_is(tok, digits(), 1);
            assert(after_move_number(tok) == tok);
        } else {
            text::lemma_lead_is(tok, digits(), 0);
        }
    }
}

/// A token without a move gives none: a result, a comment code, or a move number alone.
pub proof fn law_other_tokens_give_none(tok: Seq<char>, number: Seq<char>, dots: Seq<char>)
    requires
        forall|i: int| 0 <= i < number.len() ==> text::is_digit(#[trigger] number[i]),
        forall|i: int| 0 <= i < dots.len() ==> #[trigger] dots[i] == '.',
        number.len() > 0 && dots.len() > 0,
    ensures
        token_move("1-0"@) is None,
        token_move("0-1"@) is None,
        token_move("1/2-1/2"@) is None,
        token_move("*"@) is None,
        tok.len() > 0 && tok[0] == '$' ==> token_move(tok) is None,
        token_move(number + dots) is None,
        token_move(Seq::empty()) is None,
{
    let nothing = Seq::<char>::empty();
    lemma_after_number(number, dots, nothing);
    assert(number + dots + nothing =~= number + dots);
    lemma_marks_go(nothing, nothing);
    assert(nothing + nothing =~= nothing);
    text::lemma_lead_is(nothing, digits(), 0);
    assert(after_move_number(nothing) == nothing);
}

/// A move as it is written without a number or marks: letters, digits and the signs of
/// moves, beginning with a piece, a file or castling.
pub open spec fn is_plain_move(m: Seq<char>) -> bool {
    &&& m.len() > 0
    &&& m[0] == 'K' || m[0] == 'Q' || m[0] == 'R' || m[0] == 'B' || m[0] == 'N' || m[0] == 'O'
        || 'a' <= m[0] <= 'h'
    &&& forall|i: int|
        0 <= i < m.len() ==> 'a' <= #[trigger] m[i] <= 'z' || 'A' <= m[i] <= 'Z' || '0' <= m[i]
            <= '9' || m[i] == '+' || m[i] == '#' || m[i] == '=' || m[i] == '-'
}

/// A plain move is taken as it stands.
pub proof fn law_plain_moves_stay(m: Seq<char>)
    requires
        is_plain_move(m),
    ensures
        token_move(m) == Some(m),
{
    reveal_strlit("0-0");
    reveal_strlit("0-0-0");
    let no = Seq::<char>::empty();
    assert(m.last() == m[m.len() - 1]);
    assert('a' <= m[0] <= 'z' || 'A' <= m[0] <= 'Z');
    law_a_token_gives_its_move(no, no, m, no);
    assert(no + no + m + no =~= m);
}

/// Whether a text has no comment or variation in it.
pub open spec fn is_without_notes(s: Seq<char>) -> bool {
    forall|i: int|
        0 <= i < s.len() ==> #[trigger] s[i] != '{' && s[i] != '}' && s[i] != '(' && s[i] != ')'
}

/// A text without comments and variations stands outside them.
pub proof fn law_all_stands_outside_notes(s: Seq<char>)
    requires
        is_without_notes(s),
    ensures
        outside_notes(s, 0, 0) == s,
    decreases s.len(),
{
    if s.len() > 0 {
        let rest = s.skip(1);
        assert forall|i: int| 0 <= i < rest.len() implies #[trigger] rest[i] != '{' && rest[i]
            != '}' && rest[i] != '(' && rest[i] != ')' by {
            assert(rest[i] == s[i + 1]);
        }
        law_all_stands_outside_notes(rest);
        assert(seq![s[0]] + rest =~= s);
    } else {
        assert(outside_notes(s, 0, 0) =~= s);
    }
}

proof fn lemma_joined_without_notes(toks: Seq<Seq<char>>)
    requires
        forall|i: int| 0 <= i < toks.len() ==> is_without_notes(#[trigger] toks[i]),
    ensures
        is_without_notes(text::join(toks, " "@)),
    decreases toks.len(),
{
    reveal_strlit(" ");
    if toks.len() > 1 {
        let front = toks.drop_last();
        assert forall|i: int| 0 <= i < front.len() implies is_without_notes(#[trigger] front[i]) by {
            assert(front[i] == toks[i]);
        }
        lemma_joined_without_notes(front);
        assert(is_without_notes(toks[toks.len() - 1]));
        assert(text::join(toks, " "@) == text::join(front, " "@) + " "@ + toks.last());
    } else if toks.len() == 1 {
        assert(text::join(toks, " "@) == toks[0]);
    }
}

/// The moves of two lists of tokens, one behind the other, are those of the first and then
/// those of the second.
pub proof fn law_moves_follow_each_other(a: Seq<Seq<char>>, b: Seq<Seq<char>>)
    ensures
        token_moves(a + b) == token_moves(a) + token_moves(b),
    decreases b.len(),
{
    if b.len() == 0 {
        assert(a + b =~= a);
    } else {
        assert((a + b).drop_last() =~= a + b.drop_last());
        law_moves_follow_each_other(a, b.drop_last());
        assert(token_moves(a + b) =~= token_moves(a) + token_moves(b));
    }
}

proof fn lemma_plain_tokens(ms: Seq<Seq<char>>)
    requires
        forall|i: int| 0 <= i < ms.len() ==> is_plain_move(#[trigger] ms[i]),
    ensures
        token_moves(ms) == ms,
    decreases ms.len(),
{
    if ms.len() > 0 {
        let front = ms.drop_last();
        assert forall|i: int| 0 <= i < front.len() implies is_plain_move(#[trigger] front[i]) by {
            assert(front[i] == ms[i]);
        }
        lemma_plain_tokens(front);
        assert(is_plain_move(ms[ms.len() - 1]));
        law_plain_moves_stay(ms.last());
        assert(front.push(ms.last()) =~= ms);
    } else {
        assert(token_moves(ms) =~= ms);
    }
}

proof fn lemma_plain_word(m: Seq<char>)
    requires
        is_plain_move(m),
    ensures
        text::is_word(m),
        is_without_notes(m),
        !m.contains('\n'),
        m.last() != '\r',
        m[0] != '[',
{
    assert forall|i: int| 0 <= i < m.len() implies !text::is_white(#[trigger] m[i]) && m[i] != '{'
        && m[i] != '}' && m[i] != '(' && m[i] != ')' && m[i] != '\n' && m[i] != '\r' && m[i] != '[' by {
    }
    assert(m.last() == m[m.len() - 1]);
}

/// Plain moves that are joined are words without comments and variations.
pub proof fn lemma_plain_moves_joined(ms: Seq<Seq<char>>)
    requires
        forall|i: int| 0 <= i < ms.len() ==> is_plain_move(#[trigger] ms[i]),
    ensures
        forall|i: int| 0 <= i < ms.len() ==> text::is_word(#[trigger] ms[i]),
        is_without_notes(text::join(ms, " "@)),
{
    assert forall|i: int| 0 <= i < ms.len() implies text::is_word(#[trigger] ms[i])
        && is_without_notes(ms[i]) by {
        lemma_plain_word(ms[i]);
    }
    lemma_joined_without_notes(ms);
}

/// The moves of a movetext that is made of plain moves are those moves: none is lost, none
/// is added, none is changed, and they keep their order.
pub proof fn law_moves_read_back(ms: Seq<Seq<char>>)
    requires
        forall|i: int| 0 <= i < ms.len() ==> is_plain_move(#[trigger] ms[i]),
    ensures
        moves_in(text::join(ms, " "@)) == ms,
{
    lemma_plain_moves_joined(ms);
    law_all_stands_outside_notes(text::join(ms, " "@));
    text::law_joined_words_come_apart(ms);
    lemma_plain_tokens(ms);
}

proof fn lemma_headers_go(headers: Seq<Seq<char>>, body: Seq<char>)
    requires
        forall|i: int|
            0 <= i < headers.len() ==> (#[trigger] headers[i]).len() == 0 || headers[i][0] == '[',
        body.len() > 0 && body[0] != '[' && !text::is_white(body[0]),
    ensures
        skip_headers(headers.push(body)) == seq![body],
    decreases headers.len(),
{
    let ls = headers.push(body);
    let first = ls[0];
    if first.len() > 0 {
        text::lemma_lead_is(first, text::whites(), 0);
        assert(first.skip(0) =~= first);
    }
    if headers.len() == 0 {
        assert(ls =~= seq![body]);
    } else {
        assert(first == headers[0]);
        assert(first.len() > 0 ==> !text::is_white('['));
        assert(ls.skip(1) =~= headers.skip(1).push(body));
        assert forall|i: int| 0 <= i < headers.skip(1).len() implies (#[trigger] headers.skip(
            1,
        )[i]).len() == 0 || headers.skip(1)[i][0] == '[' by {
            assert(headers.skip(1)[i] == headers[i + 1]);
        }
        lemma_headers_go(headers.skip(1), body);
        if first.len() == 0 {
            assert(text::trim_start(first).len() == 0) by {
                text::lemma_lead_bound(first, text::whites());
            }
        }
        assert(is_header_line(first));
    }
}

proof fn lemma_joined_keeps(ms: Seq<Seq<char>>)
    requires
        ms.len() > 0,
        forall|i: int| 0 <= i < ms.len() ==> is_plain_move(#[trigger] ms[i]),
    ensures
        ({
            let body = text::join(ms, " "@);
            body.len() > 0 && body[0] == ms[0][0] && body.last() == ms.last().last()
                && !body.contains('\n')
        }),
    decreases ms.len(),
{
    reveal_strlit(" ");
    let body = text::join(ms, " "@);
    assert(is_plain_move(ms[0]));
    assert(is_plain_move(ms[ms.len() - 1]));
    lemma_plain_word(ms[ms.len() - 1]);
    if ms.len() == 1 {
        assert(body == ms[0]);
    } else {
        let front = ms.drop_last();
        assert forall|i: int| 0 <= i < front.len() implies is_plain_move(#[trigger] front[i]) by {
            assert(front[i] == ms[i]);
        }
        lemma_joined_keeps(front);
        let head = text::join(front, " "@);
        assert(body == head + " "@ + ms.last());
        assert forall|i: int| 0 <= i < body.len() implies #[trigger] body[i] != '\n' by {
            if i < head.len() {
                assert(head.contains(head[i]));
            } else if i > head.len() {
                assert(ms.last().contains(ms.last()[i - head.len() - 1]));
            }
        }
    }
}

/// The bare moves of a game are the moves of its movetext, whatever tags stand above it.
pub proof fn law_games_read_back(headers: Seq<Seq<char>>, ms: Seq<Seq<char>>)
    requires
        forall|i: int|
            0 <= i < headers.len() ==> ((#[trigger] headers[i]).len() == 0 || headers[i][0] == '['
                && headers[i].last() != '\r') && !headers[i].contains('\n'),
        ms.len() > 0,
        forall|i: int| 0 <= i < ms.len() ==> is_plain_move(#[trigger] ms[i]),
    ensures
        bare_moves(text::join(headers.push(text::join(ms, " "@)), seq!['\n'])) == ms,
{
    let body = text::join(ms, " "@);
    let ls = headers.push(body);
    lemma_joined_keeps(ms);
    assert(is_plain_move(ms[0]));
    lemma_plain_word(ms[0]);
    assert(is_plain_move(ms[ms.len() - 1]));
    lemma_plain_word(ms[ms.len() - 1]);
    assert(text::is_word(ms[0]));
    assert(!text::is_white(ms[0][0]));
    assert forall|i: int| 0 <= i < ls.len() implies !(#[trigger] ls[i]).contains('\n') && !(
    ls[i].len() > 0 && ls[i].last() == '\r') by {
        if i < headers.len() {
            assert(ls[i] == headers[i]);
        }
    }
    text::law_lines_come_apart(ls);
    lemma_headers_go(headers, body);
    assert(text::join(seq![body], " "@) == body);
    law_moves_read_back(ms);
}

/// A move more makes another sequence; the fingerprint without the last move is that of the
/// moves before it, and is there from two moves on.
pub proof fn law_fingerprints_are_of_the_moves(pgn: Seq<char>, shorter: Seq<char>, last: Seq<char>)
    requires
        bare_moves(pgn) == bare_moves(shorter).push(last),
    ensures
        fingerprints(pgn).1 is Some <==> bare_moves(shorter).len() > 0,
        fingerprints(pgn).1 is Some ==> fingerprints(pgn).1 == Some(fingerprints(shorter).0),
        bare_moves(shorter).len() == 0 ==> fingerprints(shorter).1 is None,
{
    assert(bare_moves(pgn).drop_last() =~= bare_moves(shorter));
}

/// The hash is FNV-1a with 64 bits: it begins with the offset, and each byte is taken in by
/// an exclusive or and a multiplication with the prime.
pub proof fn law_hash_takes_byte_after_byte(bytes: Seq<u8>, b: u8)
    ensures
        fnv1a(Seq::empty()) == 0xcbf2_9ce4_8422_2325u64,
        fnv1a(bytes.push(b)) == (fnv1a(bytes) ^ (b as u64)).wrapping_mul(0x0000_0100_0000_01b3u64),
{
    assert(bytes.push(b).drop_last() =~= bytes);
}

/// The hash of a game is that of its moves with a blank between each two.
pub proof fn law_hash_is_of_the_joined_moves(pgn: Seq<char>, moves: Seq<Seq<char>>)
    requires
        bare_moves(pgn) == moves,
    ensures
        fingerprints(pgn).0 == fnv1a(vstd::utf8::encode_utf8(text::join(moves, " "@))) as i64,
{
}

} // verus!
