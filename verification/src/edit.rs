//! Editing a stored game: replacing its moves, or its tags.
use crate::chess;
use crate::chess::{find_san, parse_san, play, start_position, BoardPosition, Played, PositionView};
use crate::fingerprint;
use crate::fingerprint::strip_move_number;
use crate::pgn;
use crate::pgn::push_tag;
use crate::positions;
use crate::positions::{push_row, set_next, PositionEntry, DEFAULT_POSITION_DEPTH};
use crate::reporter;
use crate::text;
use crate::text::{
    append_num, chars_of, find, has_suffix, joined, parse_signed, replaced, same, slice,
    split_lines, split_words, string_of, trim_chars, trimmed,
};
use vstd::prelude::*;
use vstd::string::*;

verus! {

// ── The main line of a movetext ──────────────────────────────────────────────

/// A movetext with its comments and variations blanked, brackets included. `depth` is
/// the number of variations that are open before it, `comment` says whether a comment
/// is.
pub open spec fn blanked(s: Seq<char>, depth: nat, comment: bool) -> Seq<char>
    decreases s.len(),
{
    if s.len() == 0 {
        Seq::empty()
    } else {
        let rest = s.skip(1);
        if comment {
            seq![' '] + blanked(rest, depth, s[0] != '}')
        } else if s[0] == '{' {
            seq![' '] + blanked(rest, depth, true)
        } else if s[0] == '(' {
            seq![' '] + blanked(rest, depth + 1, false)
        } else if s[0] == ')' {
            seq![' '] + blanked(
                rest,
                if depth > 0 {
                    (depth - 1) as nat
                } else {
                    0
                },
                false,
            )
        } else if depth > 0 {
            seq![' '] + blanked(rest, depth, false)
        } else {
            seq![s[0]] + blanked(rest, depth, false)
        }
    }
}

fn blank_notes(s: &[char]) -> (out: Vec<char>)
    ensures
        out@ == blanked(s@, 0, false),
{
    let mut out: Vec<char> = Vec::new();
    let mut depth: usize = 0;
    let mut comment: bool = false;
    let mut i: usize = 0;
    assert(s@.skip(0) =~= s@);
    while i < s.len()
        invariant
            i <= s.len(),
            depth <= i,
            out@ + blanked(s@.skip(i as int), depth as nat, comment) == blanked(s@, 0, false),
        decreases s.len() - i,
    {
        let c: char = s[i];
        let ghost rest = s@.skip(i as int);
        let ghost before = out@;
        assert(rest.skip(1) =~= s@.skip(i + 1));
        let ghost was = blanked(rest, depth as nat, comment);
        if comment {
            out.push(' ');
            if c == '}' {
                comment = false;
            }
        } else if c == '{' {
            out.push(' ');
            comment = true;
        } else if c == '(' {
            out.push(' ');
            depth += 1;
        } else if c == ')' {
            out.push(' ');
            if depth > 0 {
                depth -= 1;
            }
        } else if depth > 0 {
            out.push(' ');
        } else {
            out.push(c);
        }
        i += 1;
        assert(out@ + blanked(s@.skip(i as int), depth as nat, comment) =~= before + was);
    }
    assert(s@.skip(i as int) =~= Seq::empty());
    assert(out@ + Seq::<char>::empty() =~= out@);
    out
}

/// A digit or a dot.
pub open spec fn is_number_char(c: char) -> bool {
    text::is_digit(c) || c == '.'
}

/// Whether a word of a movetext is a move, once a move number at its start is gone: not a
/// glyph such as `$1`, not a result, and not a number.
pub open spec fn is_move_token(t: Seq<char>) -> bool {
    &&& !(t.len() > 0 && t[0] == '$')
    &&& t != "1-0"@
    &&& t != "0-1"@
    &&& t != "1/2-1/2"@
    &&& t != "*"@
    &&& exists|i: int| 0 <= i < t.len() && !is_number_char(#[trigger] t[i])
}

pub open spec fn move_tokens() -> spec_fn(Seq<char>) -> bool {
    |t: Seq<char>| is_move_token(t)
}

/// The words of a movetext's main line, without the move numbers written against them.
pub open spec fn bare_words(movetext: Seq<char>) -> Seq<Seq<char>> {
    text::words(blanked(movetext, 0, false)).map_values(
        |t: Seq<char>| fingerprint::after_move_number(t),
    )
}

/// The moves of the main line, as they are written.
pub open spec fn mainline(movetext: Seq<char>) -> Seq<Seq<char>> {
    bare_words(movetext).filter(move_tokens())
}

fn is_move_word(t: &str) -> (b: bool)
    ensures
        b == is_move_token(t@),
{
    let chars: Vec<char> = chars_of(t);
    if chars.len() > 0 && chars[0] == '$' {
        return false;
    }
    if same(t, "1-0") || same(t, "0-1") || same(t, "1/2-1/2") || same(t, "*") {
        return false;
    }
    let mut i: usize = 0;
    while i < chars.len()
        invariant
            i <= chars.len(),
            chars@ == t@,
            !(t@.len() > 0 && t@[0] == '$'),
            t@ != "1-0"@ && t@ != "0-1"@ && t@ != "1/2-1/2"@ && t@ != "*"@,
            forall|k: int| 0 <= k < i ==> is_number_char(#[trigger] chars@[k]),
        decreases chars.len() - i,
    {
        let c: char = chars[i];
        if !(('0' <= c && c <= '9') || c == '.') {
            assert(!is_number_char(t@[i as int]));
            return true;
        }
        i += 1;
    }
    false
}

/// The moves of a movetext's main line: comments, variations, move numbers, glyphs and
/// results are left out, the numbers also where they are written against a move.
pub fn mainline_san_tokens(movetext: &str) -> (out: Vec<String>)
    ensures
        text::texts(out@) == mainline(movetext@),
{
    let bare: Vec<char> = blank_notes(&chars_of(movetext));
    let words: Vec<String> = split_words(&bare);
    let ghost all = bare_words(movetext@);
    let mut out: Vec<String> = Vec::new();
    let mut i: usize = 0;
    proof {
        reveal(Seq::filter);
        assert(all.take(0) =~= Seq::empty());
        assert(text::texts(out@) =~= Seq::empty());
    }
    while i < words.len()
        invariant
            i <= words.len(),
            all == text::texts(words@).map_values(
                |t: Seq<char>| fingerprint::after_move_number(t),
            ),
            text::texts(out@) == all.take(i as int).filter(move_tokens()),
        decreases words.len() - i,
    {
        proof {
            reveal(Seq::filter);
            let t = all.take(i + 1);
            assert(t.drop_last() =~= all.take(i as int));
            assert(text::texts(words@)[i as int] == words@[i as int]@);
            assert(t.last() == fingerprint::after_move_number(words@[i as int]@));
        }
        let ghost before = text::texts(out@);
        let word: String = strip_move_number(words[i].as_str());
        if is_move_word(word.as_str()) {
            out.push(word);
            assert(text::texts(out@) =~= before.push(word@));
        }
        i += 1;
    }
    assert(all.take(i as int) =~= all);
    out
}

// ── Walking the main line ────────────────────────────────────────────────────

/// A line of moves that was played from the starting position.
pub struct LineView {
    pub at: PositionView,
    pub sans: Seq<Seq<char>>,
    pub rows: Seq<positions::EntryView>,
}

/// Why a line of moves was refused.
#[derive(Debug)]
pub enum LineError {
    NotSan { number: usize, token: String },
    Illegal { number: usize, token: String },
}

pub enum LineResult {
    Played(LineView),
    /// The move with this number, counted from one, is no SAN.
    NotSan(int),
    /// The move with this number is not legal where it stands.
    Illegal(int),
}

pub open spec fn start_line(start: PositionView) -> LineView {
    LineView {
        at: start,
        sans: Seq::empty(),
        rows: positions::with_row(Seq::empty(), 0, start.hash),
    }
}

/// The rows of a line after the move with a number, counted from one: the last row knows
/// the move, and the position behind it gets a row if it is not too deep.
pub open spec fn rows_after(
    rows: Seq<positions::EntryView>,
    n: int,
    p: chess::PlayedView,
) -> Seq<positions::EntryView> {
    let depth = DEFAULT_POSITION_DEPTH as int;
    let told = positions::with_next(rows, n, depth, p.san);
    if n <= depth {
        positions::with_row(told, n, p.next.hash)
    } else {
        told
    }
}

/// A line after one more move.
pub open spec fn line_step(line: LineView, token: Seq<char>) -> LineResult {
    let n = line.sans.len() + 1;
    if chess::san_of(token) is None {
        LineResult::NotSan(n as int)
    } else {
        match chess::san_in(line.at.fen, token) {
            None => LineResult::Illegal(n as int),
            Some(m) => match chess::played_in(line.at.fen, m) {
                None => LineResult::Illegal(n as int),
                Some(p) => LineResult::Played(
                    LineView {
                        at: p.next,
                        sans: line.sans.push(p.san),
                        rows: rows_after(line.rows, n as int, p),
                    },
                ),
            },
        }
    }
}

/// What playing a list of moves from the starting position comes to.
pub open spec fn line_of(start: PositionView, tokens: Seq<Seq<char>>) -> LineResult
    decreases tokens.len(),
{
    if tokens.len() == 0 {
        LineResult::Played(start_line(start))
    } else {
        match line_of(start, tokens.drop_last()) {
            LineResult::Played(line) => line_step(line, tokens.last()),
            e => e,
        }
    }
}

/// The moves as they are stored, and their rows of the position index.
pub struct PlayedLine {
    pub sans: Vec<String>,
    pub rows: Vec<PositionEntry>,
}

impl PlayedLine {
    /// Takes one more move that was played, and gives the position behind it.
    pub fn take(&mut self, done: Played) -> (at: BoardPosition)
        requires
            old(self).sans.len() < i16::MAX,
        ensures
            at == done.next,
            text::texts(final(self).sans@) == text::texts(old(self).sans@).push(done.san@),
            positions::entries(final(self).rows@) == rows_after(
                positions::entries(old(self).rows@),
                old(self).sans.len() + 1,
                done@,
            ),
    {
        let n: i16 = self.sans.len() as i16 + 1;
        set_next(&mut self.rows, n, DEFAULT_POSITION_DEPTH, done.san.as_str());
        if n <= DEFAULT_POSITION_DEPTH {
            push_row(&mut self.rows, n, done.next.hash);
        }
        let ghost had = text::texts(self.sans@);
        self.sans.push(done.san);
        assert(text::texts(self.sans@) =~= had.push(done.san@));
        done.next
    }
}

/// Whether a result is what playing the moves from the starting position comes to.
pub open spec fn line_agrees(
    r: Result<PlayedLine, LineError>,
    tokens: Seq<Seq<char>>,
) -> bool {
    match line_of(chess::position_of(chess::START_FEN@)->0, tokens) {
        LineResult::Played(line) => r matches Ok(l) && text::texts(l.sans@) == line.sans
            && positions::entries(l.rows@) == line.rows,
        LineResult::NotSan(n) => r matches Err(LineError::NotSan { number, token }) && number == n
            && token@ == tokens[n - 1],
        LineResult::Illegal(n) => r matches Err(LineError::Illegal { number, token }) && number == n
            && token@ == tokens[n - 1],
    }
}

/// An error stands at one of the moves, and the line is as long as the moves so far.
proof fn lemma_line(start: PositionView, tokens: Seq<Seq<char>>, i: int)
    requires
        0 <= i <= tokens.len(),
    ensures
        match line_of(start, tokens.take(i)) {
            LineResult::Played(line) => line.sans.len() == i,
            e => line_of(start, tokens) == e,
        },
    decreases i, tokens.len(),
{
    if tokens.len() > i {
        lemma_line(start, tokens.drop_last(), i);
        assert(tokens.drop_last().take(i) =~= tokens.take(i));
    } else {
        assert(tokens.take(i) =~= tokens);
        if i > 0 {
            lemma_line(start, tokens.drop_last(), i - 1);
            assert(tokens.drop_last().take(i - 1) =~= tokens.drop_last());
        }
    }
}

/// Plays a main line from the starting position. Every move must be legal SAN.
pub fn play_line(tokens: &[String]) -> (r: Result<PlayedLine, LineError>)
    requires
        tokens.len() <= i16::MAX,
    ensures
        line_agrees(r, text::texts(tokens@)),
{
    let mut at: BoardPosition = start_position();
    let ghost start = at@;
    let ghost all = text::texts(tokens@);
    let mut rows: Vec<PositionEntry> = Vec::new();
    assert(positions::entries(rows@) =~= Seq::empty());
    push_row(&mut rows, 0, at.hash);
    let mut line = PlayedLine { sans: Vec::new(), rows };
    let mut i: usize = 0;
    proof {
        assert(all.take(0) =~= Seq::empty());
        assert(text::texts(line.sans@) =~= Seq::empty());
    }
    while i < tokens.len()
        invariant
            i <= tokens.len() <= i16::MAX,
            all == text::texts(tokens@),
            line.sans@.len() == i,
            chess::position_of(chess::START_FEN@) == Some(start),
            line_of(start, all.take(i as int)) == LineResult::Played(
                LineView {
                    at: at@,
                    sans: text::texts(line.sans@),
                    rows: positions::entries(line.rows@),
                },
            ),
        decreases tokens.len() - i,
    {
        let token: &str = tokens[i].as_str();
        proof {
            let t = all.take(i + 1);
            assert(t.drop_last() =~= all.take(i as int));
            assert(t.last() == token@);
            lemma_line(start, all, i + 1);
        }
        let number: usize = i + 1;
        match parse_san(token) {
            None => {
                return Err(LineError::NotSan { number, token: token.to_owned() });
            },
            Some(_) => {},
        }
        let m: String = match find_san(at.fen.as_str(), token) {
            None => {
                return Err(LineError::Illegal { number, token: token.to_owned() });
            },
            Some(m) => m,
        };
        let done: Played = match play(at.fen.as_str(), m.as_str()) {
            None => {
                return Err(LineError::Illegal { number, token: token.to_owned() });
            },
            Some(p) => p,
        };
        at = line.take(done);
        assert(text::texts(line.sans@).len() == line.sans@.len());
        i += 1;
    }
    assert(all.take(i as int) =~= all);
    Ok(line)
}

impl LineError {
    /// What the error says, of the move and its number.
    pub open spec fn says(&self) -> Seq<char> {
        match self {
            LineError::NotSan { number, token } => "move "@ + text::dec(*number as nat) + " (\""@
                + token@ + "\")"@ + " is not valid SAN"@,
            LineError::Illegal { number, token } => "move "@ + text::dec(*number as nat) + " (\""@
                + token@ + "\")"@ + " is illegal in this position"@,
        }
    }

    pub fn message(&self) -> (s: String)
        ensures
            s@ == self.says(),
    {
        let (number, token, what): (usize, &str, &str) = match self {
            LineError::NotSan { number, token } => (*number, token.as_str(), " is not valid SAN"),
            LineError::Illegal { number, token } => (
                *number,
                token.as_str(),
                " is illegal in this position",
            ),
        };
        let mut s: String = "move ".to_owned();
        append_num(&mut s, number as u64);
        s.append(" (\"");
        s.append(token);
        s.append("\")");
        s.append(what);
        s
    }
}

/// Every position of a line that was played says which move was made in it, down to the
/// index depth; the last one says none.
pub proof fn law_rows_follow_the_moves(start: PositionView, tokens: Seq<Seq<char>>)
    ensures
        line_of(start, tokens) matches LineResult::Played(line) ==> {
            let depth = DEFAULT_POSITION_DEPTH as int;
            let n = line.sans.len() as int;
            &&& n == tokens.len()
            &&& line.rows.len() == (if n <= depth {
                n + 1
            } else {
                depth + 1
            })
            &&& forall|k: int|
                0 <= k < line.rows.len() ==> {
                    &&& (#[trigger] line.rows[k]).0 == k
                    &&& line.rows[k].2 == (if k < n {
                        Some(line.sans[k])
                    } else {
                        None
                    })
                }
        },
    decreases tokens.len(),
{
    if tokens.len() > 0 {
        law_rows_follow_the_moves(start, tokens.drop_last());
    }
}

// ── Replacing the moves ──────────────────────────────────────────────────────

/// The leading lines that are tags, each ended by a newline.
pub open spec fn tag_lines(lines: Seq<Seq<char>>) -> Seq<char>
    decreases lines.len(),
{
    if lines.len() == 0 || !(lines[0].len() > 0 && lines[0][0] == '[') {
        Seq::empty()
    } else {
        lines[0] + seq!['\n'] + tag_lines(lines.skip(1))
    }
}

/// The tag section of a game: every leading line that starts with a bracket.
pub fn split_headers(pgn: &str) -> (out: String)
    ensures
        out@ == tag_lines(text::lines(pgn@)),
{
    let lines: Vec<String> = split_lines(&chars_of(pgn));
    let ghost all = text::lines(pgn@);
    let mut out: String = String::new();
    let mut i: usize = 0;
    assert(all.skip(0) =~= all);
    assert(out@ + tag_lines(all) =~= tag_lines(all));
    while i < lines.len()
        invariant
            i <= lines.len(),
            text::texts(lines@) == all,
            all == text::lines(pgn@),
            out@ + tag_lines(all.skip(i as int)) == tag_lines(all),
        decreases lines.len() - i,
    {
        let line: Vec<char> = chars_of(lines[i].as_str());
        let ghost rest = all.skip(i as int);
        assert(rest[0] == line@);
        if !(line.len() > 0 && line[0] == '[') {
            assert(out@ + Seq::<char>::empty() =~= out@);
            return out;
        }
        let ghost before = out@;
        out.append(lines[i].as_str());
        out.push('\n');
        i += 1;
        assert(rest.skip(1) =~= all.skip(i as int));
        assert(out@ + tag_lines(all.skip(i as int)) =~= before + tag_lines(rest));
    }
    assert(all.skip(i as int) =~= Seq::empty());
    assert(out@ + Seq::<char>::empty() =~= out@);
    out
}

/// A movetext without white space round it, and without one result at its end.
pub open spec fn without_result(movetext: Seq<char>) -> Seq<char> {
    let t = text::trim(movetext);
    if text::ends_with(t, "1-0"@) {
        text::trim_end(t.take(t.len() - 3))
    } else if text::ends_with(t, "0-1"@) {
        text::trim_end(t.take(t.len() - 3))
    } else if text::ends_with(t, "1/2-1/2"@) {
        text::trim_end(t.take(t.len() - 7))
    } else if text::ends_with(t, "*"@) {
        text::trim_end(t.take(t.len() - 1))
    } else {
        t
    }
}

fn trim_tail(s: &[char]) -> (out: Vec<char>)
    ensures
        out@ == text::trim_end(s@),
{
    let mut n: usize = s.len();
    while n > 0 && text::white(s[n - 1])
        invariant
            n <= s.len(),
            forall|k: int| n <= k < s.len() ==> text::is_white(#[trigger] s@[k]),
        decreases n,
    {
        n -= 1;
    }
    proof {
        text::lemma_cut_end_is(s@, text::whites(), n as int);
        assert(s@.subrange(0, n as int) =~= s@.take(n as int));
    }
    slice(s, 0, n)
}

fn drop_result(movetext: &str) -> (out: String)
    ensures
        out@ == without_result(movetext@),
{
    let t: Vec<char> = trim_chars(&chars_of(movetext));
    let n: usize = t.len();
    proof {
        reveal_strlit("1-0");
        reveal_strlit("0-1");
        reveal_strlit("1/2-1/2");
        reveal_strlit("*");
    }
    let cut: usize = if has_suffix(&t, &chars_of("1-0")) {
        n - 3
    } else if has_suffix(&t, &chars_of("0-1")) {
        n - 3
    } else if has_suffix(&t, &chars_of("1/2-1/2")) {
        n - 7
    } else if has_suffix(&t, &chars_of("*")) {
        n - 1
    } else {
        return string_of(&t);
    };
    let front: Vec<char> = slice(&t, 0, cut);
    assert(front@ =~= t@.take(cut as int));
    string_of(&trim_tail(&front))
}

/// The body of a game: its movetext, closed by the result.
pub open spec fn body_of(movetext: Seq<char>, result: Seq<char>) -> Seq<char> {
    let moves = without_result(movetext);
    if moves.len() == 0 {
        result
    } else {
        moves + " "@ + result
    }
}

/// A game with new moves: its text, the number of moves, its first moves, and its rows of
/// the position index.
pub struct MovesEdit {
    pub pgn: String,
    pub move_count: i16,
    pub opening_line: String,
    pub rows: Vec<PositionEntry>,
}

/// The moves that start a line, as many as the opening line keeps.
pub open spec fn first_ten(sans: Seq<Seq<char>>) -> Seq<Seq<char>> {
    if sans.len() > 10 {
        sans.take(10)
    } else {
        sans
    }
}

/// The first moves of a line, with a space between.
pub fn opening_of(sans: &[String]) -> (s: String)
    ensures
        s@ == text::join(first_ten(text::texts(sans@)), " "@),
{
    let n: usize = if sans.len() > 10 {
        10
    } else {
        sans.len()
    };
    let mut first: Vec<String> = Vec::new();
    let mut i: usize = 0;
    while i < n
        invariant
            i <= n <= sans.len(),
            text::texts(first@) == text::texts(sans@).take(i as int),
        decreases n - i,
    {
        let ghost had = text::texts(first@);
        first.push(sans[i].clone());
        i += 1;
        assert(text::texts(first@) =~= had.push(sans@[i - 1]@));
        assert(text::texts(first@) =~= text::texts(sans@).take(i as int));
    }
    assert(text::texts(first@) =~= first_ten(text::texts(sans@)));
    joined(&first, " ")
}

/// What closes a movetext: the result of the game, an asterisk where there is none.
pub open spec fn result_or_open(result: Option<&str>) -> Seq<char> {
    match result {
        Some(t) => t@,
        None => "*"@,
    }
}

/// A stored game with a new movetext, of which `line` is the main line. The tags stay,
/// the movetext is kept as it is given, with variations and comments, and is closed by
/// the result of the game.
pub fn with_moves(old_pgn: &str, moves: &str, result: Option<&str>, line: PlayedLine) -> (e:
    MovesEdit)
    requires
        line.sans.len() <= i16::MAX,
    ensures
        e.pgn@ == tag_lines(text::lines(old_pgn@)) + "\n"@ + body_of(
            moves@,
            result_or_open(result),
        ) + "\n"@,
        e.move_count == line.sans@.len(),
        e.opening_line@ == text::join(first_ten(text::texts(line.sans@)), " "@),
        e.rows == line.rows,
{
    let token: &str = match result {
        Some(t) => t,
        None => "*",
    };
    let bare: String = drop_result(moves);
    let mut pgn: String = split_headers(old_pgn);
    pgn.append("\n");
    let ghost head = pgn@;
    if !bare.as_str().is_empty() {
        pgn.append(bare.as_str());
        pgn.append(" ");
    }
    pgn.append(token);
    pgn.append("\n");
    assert(pgn@ =~= head + body_of(moves@, token@) + "\n"@);
    let move_count: i16 = line.sans.len() as i16;
    let opening_line: String = opening_of(&line.sans);
    MovesEdit { pgn, move_count, opening_line, rows: line.rows }
}

/// Replaces the moves of a stored game, as [`with_moves`] does. The main line of the new
/// movetext must be playable.
pub fn set_moves(old_pgn: &str, moves: &str, result: Option<&str>) -> (r: Result<
    MovesEdit,
    LineError,
>)
    requires
        mainline(moves@).len() <= i16::MAX,
    ensures
        match line_of(chess::position_of(chess::START_FEN@)->0, mainline(moves@)) {
            LineResult::Played(line) => {
                &&& r matches Ok(e)
                &&& e.pgn@ == tag_lines(text::lines(old_pgn@)) + "\n"@ + body_of(
                    moves@,
                    result_or_open(result),
                ) + "\n"@
                &&& e.move_count == mainline(moves@).len()
                &&& e.opening_line@ == text::join(first_ten(line.sans), " "@)
                &&& positions::entries(e.rows@) == line.rows
            },
            LineResult::NotSan(n) => r matches Err(LineError::NotSan { number, token }) && number
                == n && token@ == mainline(moves@)[n - 1],
            LineResult::Illegal(n) => r matches Err(LineError::Illegal { number, token }) && number
                == n && token@ == mainline(moves@)[n - 1],
        },
{
    let tokens: Vec<String> = mainline_san_tokens(moves);
    assert(text::texts(tokens@).len() == tokens@.len());
    let line: PlayedLine = match play_line(&tokens) {
        Ok(line) => line,
        Err(e) => {
            return Err(e);
        },
    };
    proof {
        let all = text::texts(tokens@);
        lemma_line(chess::position_of(chess::START_FEN@)->0, all, all.len() as int);
        assert(all.take(all.len() as int) =~= all);
        assert(text::texts(line.sans@).len() == line.sans@.len());
    }
    Ok(with_moves(old_pgn, moves, result, line))
}

// ── Replacing the tags ───────────────────────────────────────────────────────

/// A tag of a game.
#[derive(Debug)]
pub struct Tag {
    pub name: String,
    pub value: String,
}

/// The value of the first tag with a name.
pub open spec fn tag_value(tags: Seq<Tag>, name: Seq<char>) -> Option<Seq<char>>
    decreases tags.len(),
{
    if tags.len() == 0 {
        None
    } else if tags[0].name@ == name {
        Some(tags[0].value@)
    } else {
        tag_value(tags.skip(1), name)
    }
}

/// A value without white space round it, unless nothing is left.
pub open spec fn filled(v: Option<Seq<char>>) -> Option<Seq<char>> {
    match v {
        Some(s) => if text::trim(s).len() > 0 {
            Some(text::trim(s))
        } else {
            None
        },
        None => None,
    }
}

/// A date with dashes for dots, so that dates sort as they follow each other.
pub open spec fn dashed(v: Option<Seq<char>>) -> Option<Seq<char>> {
    match v {
        Some(s) => Some(text::replace_char(s, '.', '-')),
        None => None,
    }
}

/// A rating: a number that fits, with white space round it allowed.
pub open spec fn rating(v: Option<Seq<char>>) -> Option<i16> {
    match v {
        Some(s) => match text::parse_int(text::trim(s), 32768, 32767) {
            Some(n) => Some(n as i16),
            None => None,
        },
        None => None,
    }
}

fn find_tag<'a>(tags: &'a [Tag], name: &str) -> (r: Option<&'a str>)
    ensures
        match r {
            Some(v) => tag_value(tags@, name@) == Some(v@),
            None => tag_value(tags@, name@) is None,
        },
{
    let mut i: usize = 0;
    assert(tags@.skip(0) =~= tags@);
    while i < tags.len()
        invariant
            i <= tags.len(),
            tag_value(tags@, name@) == tag_value(tags@.skip(i as int), name@),
        decreases tags.len() - i,
    {
        assert(tags@.skip(i as int)[0] == tags@[i as int]);
        assert(tags@.skip(i as int).skip(1) =~= tags@.skip(i + 1));
        if same(tags[i].name.as_str(), name) {
            return Some(tags[i].value.as_str());
        }
        i += 1;
    }
    assert(tags@.skip(i as int) =~= Seq::empty());
    None
}

fn filled_tag(tags: &[Tag], name: &str) -> (r: Option<String>)
    ensures
        reporter::opt_text(r) == filled(tag_value(tags@, name@)),
{
    match find_tag(tags, name) {
        Some(v) => {
            let t: String = trimmed(v);
            if t.as_str().is_empty() {
                None
            } else {
                Some(t)
            }
        },
        None => None,
    }
}

fn rating_tag(tags: &[Tag], name: &str) -> (r: Option<i16>)
    ensures
        r == rating(tag_value(tags@, name@)),
{
    match find_tag(tags, name) {
        Some(v) => {
            let t: Vec<char> = trim_chars(&chars_of(v));
            match parse_signed(&t, 32768, 32767) {
                Some(n) => Some(n as i16),
                None => None,
            }
        },
        None => None,
    }
}

/// Where a text first stands in another, and what follows it.
pub open spec fn is_first_at(s: Seq<char>, pat: Seq<char>, i: int) -> bool {
    text::occurs_at(s, pat, i) && forall|k: int| 0 <= k < i ==> !text::occurs_at(s, pat, k)
}

/// What follows the first place where a text stands.
pub open spec fn after_first(s: Seq<char>, pat: Seq<char>) -> Seq<char> {
    let i = choose|i: int| #[trigger] is_first_at(s, pat, i);
    s.skip(i + pat.len())
}

pub open spec fn is_line_end(c: char) -> bool {
    c == '\r' || c == '\n'
}

pub open spec fn line_ends() -> spec_fn(char) -> bool {
    |c: char| is_line_end(c)
}

/// The movetext of a game: what follows the first blank line, without the line ends at
/// its end. Where there is no blank line the game has no moves.
pub open spec fn movetext_of(pgn: Seq<char>) -> Seq<char> {
    if text::contains(pgn, "\n\n"@) {
        text::cut_end(after_first(pgn, "\n\n"@), line_ends())
    } else if text::contains(pgn, "\r\n\r\n"@) {
        text::cut_end(after_first(pgn, "\r\n\r\n"@), line_ends())
    } else {
        "*"@
    }
}

fn tail_after(s: &[char], pat: &[char]) -> (r: Option<Vec<char>>)
    ensures
        match r {
            Some(v) => text::contains(s@, pat@) && v@ == text::cut_end(
                after_first(s@, pat@),
                line_ends(),
            ),
            None => !text::contains(s@, pat@),
        },
{
    match find(s, pat) {
        None => None,
        Some(i) => {
            proof {
                assert(is_first_at(s@, pat@, i as int));
                let c = choose|c: int| #[trigger] is_first_at(s@, pat@, c);
                assert(c == i);
            }
            assert(i + pat.len() <= s.len());
            let from: usize = i + pat.len();
            let tail: Vec<char> = slice(s, from, s.len());
            assert(tail@ =~= s@.skip(from as int));
            let mut n: usize = tail.len();
            while n > 0 && (tail[n - 1] == '\r' || tail[n - 1] == '\n')
                invariant
                    n <= tail.len(),
                    forall|k: int| n <= k < tail.len() ==> is_line_end(#[trigger] tail@[k]),
                decreases n,
            {
                n -= 1;
            }
            proof {
                text::lemma_cut_end_is(tail@, line_ends(), n as int);
                assert(tail@.subrange(0, n as int) =~= tail@.take(n as int));
            }
            Some(slice(&tail, 0, n))
        },
    }
}

/// A tag section.
pub open spec fn tag_section(tags: Seq<Tag>) -> Seq<char>
    decreases tags.len(),
{
    if tags.len() == 0 {
        Seq::empty()
    } else {
        tag_section(tags.drop_last()) + pgn::tag_line(tags.last().name@, tags.last().value@)
    }
}

/// Puts a game together from new tags and the moves that it has.
pub fn rebuild_pgn(old_pgn: &str, tags: &[Tag]) -> (out: String)
    ensures
        out@ == tag_section(tags@) + "\n"@ + movetext_of(old_pgn@) + "\n"@,
{
    let chars: Vec<char> = chars_of(old_pgn);
    let body: Vec<char> = match tail_after(&chars, &chars_of("\n\n")) {
        Some(b) => b,
        None => match tail_after(&chars, &chars_of("\r\n\r\n")) {
            Some(b) => b,
            None => chars_of("*"),
        },
    };
    let mut out: String = String::new();
    let mut i: usize = 0;
    assert(tags@.take(0) =~= Seq::empty());
    assert(out@ =~= tag_section(Seq::empty()));
    while i < tags.len()
        invariant
            i <= tags.len(),
            out@ == tag_section(tags@.take(i as int)),
        decreases tags.len() - i,
    {
        push_tag(&mut out, tags[i].name.as_str(), tags[i].value.as_str());
        proof {
            let t = tags@.take(i + 1);
            assert(t.drop_last() =~= tags@.take(i as int));
            assert(t.last() == tags@[i as int]);
        }
        i += 1;
    }
    assert(tags@.take(i as int) =~= tags@);
    out.append("\n");
    let text_body: String = string_of(&body);
    out.append(text_body.as_str());
    out.append("\n");
    out
}

/// A game with new tags: the columns that follow from them, and its text.
pub struct HeadersEdit {
    pub event: Option<String>,
    pub site: Option<String>,
    pub date: Option<String>,
    pub round: Option<String>,
    pub result: Option<String>,
    pub eco: Option<String>,
    pub white_elo: Option<i16>,
    pub black_elo: Option<i16>,
    pub pgn: String,
}

/// Replaces the tags of a stored game: the text and the columns follow the same tags.
pub fn set_headers(old_pgn: &str, tags: &[Tag]) -> (e: HeadersEdit)
    ensures
        reporter::opt_text(e.event) == filled(tag_value(tags@, "Event"@)),
        reporter::opt_text(e.site) == filled(tag_value(tags@, "Site"@)),
        reporter::opt_text(e.date) == dashed(filled(tag_value(tags@, "Date"@))),
        reporter::opt_text(e.round) == filled(tag_value(tags@, "Round"@)),
        reporter::opt_text(e.result) == filled(tag_value(tags@, "Result"@)),
        reporter::opt_text(e.eco) == filled(tag_value(tags@, "ECO"@)),
        e.white_elo == rating(tag_value(tags@, "WhiteElo"@)),
        e.black_elo == rating(tag_value(tags@, "BlackElo"@)),
        e.pgn@ == tag_section(tags@) + "\n"@ + movetext_of(old_pgn@) + "\n"@,
{
    let date: Option<String> = match filled_tag(tags, "Date") {
        Some(d) => Some(string_of(&replaced(&chars_of(d.as_str()), '.', '-'))),
        None => None,
    };
    HeadersEdit {
        event: filled_tag(tags, "Event"),
        site: filled_tag(tags, "Site"),
        date,
        round: filled_tag(tags, "Round"),
        result: filled_tag(tags, "Result"),
        eco: filled_tag(tags, "ECO"),
        white_elo: rating_tag(tags, "WhiteElo"),
        black_elo: rating_tag(tags, "BlackElo"),
        pgn: rebuild_pgn(old_pgn, tags),
    }
}

// ── Laws of edits ────────────────────────────────────────────────────────────

/// So many blanks.
pub open spec fn blanks(n: nat) -> Seq<char> {
    Seq::new(n, |i: int| ' ')
}

/// Blanking moves nothing: every character stays where it is, or is a blank.
pub proof fn law_blanking_keeps_places(s: Seq<char>, depth: nat, comment: bool)
    ensures
        blanked(s, depth, comment).len() == s.len(),
        forall|i: int|
            0 <= i < s.len() ==> #[trigger] blanked(s, depth, comment)[i] == s[i] || blanked(
                s,
                depth,
                comment,
            )[i] == ' ',
    decreases s.len(),
{
    if s.len() > 0 {
        let rest = s.skip(1);
        let c = if comment {
            s[0] != '}'
        } else {
            s[0] == '{'
        };
        let d: nat = if comment {
            depth
        } else if s[0] == '(' {
            depth + 1
        } else if s[0] == ')' && depth > 0 {
            (depth - 1) as nat
        } else {
            depth
        };
        law_blanking_keeps_places(rest, d, c);
        let b = blanked(rest, d, c);
        let all = blanked(s, depth, comment);
        assert(all == seq![all[0]] + b);
        assert forall|i: int| 0 <= i < s.len() implies #[trigger] all[i] == s[i] || all[i] == ' ' by {
            if i > 0 {
                assert(all[i] == b[i - 1]);
                assert(s[i] == rest[i - 1]);
            }
        }
    }
}

proof fn lemma_plain_start(a: Seq<char>, b: Seq<char>)
    requires
        fingerprint::is_without_notes(a),
    ensures
        blanked(a + b, 0, false) == a + blanked(b, 0, false),
    decreases a.len(),
{
    if a.len() == 0 {
        assert(a + b =~= b);
        assert(a + blanked(b, 0, false) =~= blanked(b, 0, false));
    } else {
        let rest = a.skip(1);
        assert forall|i: int| 0 <= i < rest.len() implies #[trigger] rest[i] != '{' && rest[i]
            != '}' && rest[i] != '(' && rest[i] != ')' by {
            assert(rest[i] == a[i + 1]);
        }
        lemma_plain_start(rest, b);
        assert((a + b).skip(1) =~= rest + b);
        assert((a + b)[0] == a[0]);
        assert(seq![a[0]] + (rest + blanked(b, 0, false)) =~= a + blanked(b, 0, false));
    }
}

proof fn lemma_comment_blanked(c: Seq<char>, b: Seq<char>)
    requires
        !c.contains('}'),
    ensures
        blanked(c + seq!['}'] + b, 0, true) == blanks(c.len() + 1) + blanked(b, 0, false),
    decreases c.len(),
{
    let s = c + seq!['}'] + b;
    if c.len() == 0 {
        assert(s[0] == '}');
        assert(s.skip(1) =~= b);
        assert(blanks(1) =~= seq![' ']);
    } else {
        assert(c.contains(c[0]));
        let rest = c.skip(1);
        assert forall|i: int| 0 <= i < rest.len() implies #[trigger] rest[i] != '}' by {
            assert(c.contains(c[i + 1]));
        }
        lemma_comment_blanked(rest, b);
        assert(s[0] == c[0]);
        assert(s.skip(1) =~= rest + seq!['}'] + b);
        assert(seq![' '] + (blanks(rest.len() + 1) + blanked(b, 0, false)) =~= blanks(c.len() + 1)
            + blanked(b, 0, false));
    }
}

proof fn lemma_variation_blanked(v: Seq<char>, b: Seq<char>)
    requires
        fingerprint::is_without_notes(v),
    ensures
        blanked(v + seq![')'] + b, 1, false) == blanks(v.len() + 1) + blanked(b, 0, false),
    decreases v.len(),
{
    let s = v + seq![')'] + b;
    if v.len() == 0 {
        assert(s[0] == ')');
        assert(s.skip(1) =~= b);
        assert(blanks(1) =~= seq![' ']);
    } else {
        let rest = v.skip(1);
        assert forall|i: int| 0 <= i < rest.len() implies #[trigger] rest[i] != '{' && rest[i]
            != '}' && rest[i] != '(' && rest[i] != ')' by {
            assert(rest[i] == v[i + 1]);
        }
        lemma_variation_blanked(rest, b);
        assert(s[0] == v[0]);
        assert(s.skip(1) =~= rest + seq![')'] + b);
        assert(seq![' '] + (blanks(rest.len() + 1) + blanked(b, 0, false)) =~= blanks(v.len() + 1)
            + blanked(b, 0, false));
    }
}

/// A comment or a variation behind a part of the main line is blanked with its brackets, and
/// the main line goes on behind it.
pub proof fn law_notes_are_blanked(a: Seq<char>, note: Seq<char>, b: Seq<char>)
    requires
        fingerprint::is_without_notes(a),
    ensures
        !note.contains('}') ==> blanked(a + seq!['{'] + note + seq!['}'] + b, 0, false) == a + blanks(
            note.len() + 2,
        ) + blanked(b, 0, false),
        fingerprint::is_without_notes(note) ==> blanked(
            a + seq!['('] + note + seq![')'] + b,
            0,
            false,
        ) == a + blanks(note.len() + 2) + blanked(b, 0, false),
{
    let end = blanked(b, 0, false);
    if !note.contains('}') {
        let rest = seq!['{'] + (note + seq!['}'] + b);
        lemma_plain_start(a, rest);
        assert(a + rest =~= a + seq!['{'] + note + seq!['}'] + b);
        lemma_comment_blanked(note, b);
        assert(rest.skip(1) =~= note + seq!['}'] + b);
        assert(a + (seq![' '] + (blanks(note.len() + 1) + end)) =~= a + blanks(note.len() + 2)
            + end);
    }
    if fingerprint::is_without_notes(note) {
        let rest = seq!['('] + (note + seq![')'] + b);
        lemma_plain_start(a, rest);
        assert(a + rest =~= a + seq!['('] + note + seq![')'] + b);
        lemma_variation_blanked(note, b);
        assert(rest.skip(1) =~= note + seq![')'] + b);
        assert(a + (seq![' '] + (blanks(note.len() + 1) + end)) =~= a + blanks(note.len() + 2)
            + end);
    }
}

/// The main line of a movetext that is made of plain moves is those moves, all of them, in
/// their order.
pub proof fn law_main_lines_read_back(ms: Seq<Seq<char>>)
    requires
        forall|i: int| 0 <= i < ms.len() ==> fingerprint::is_plain_move(#[trigger] ms[i]),
    ensures
        mainline(text::join(ms, " "@)) == ms,
{
    let s = text::join(ms, " "@);
    fingerprint::lemma_plain_moves_joined(ms);
    let none = Seq::<char>::empty();
    lemma_plain_start(s, none);
    assert(s + none =~= s);
    assert(s + blanked(none, 0, false) =~= s);
    text::law_joined_words_come_apart(ms);
    assert forall|i: int| 0 <= i < ms.len() implies fingerprint::after_move_number(#[trigger] ms[i])
        == ms[i] && is_move_token(ms[i]) by {
        law_moves_are_moves(ms[i]);
    }
    assert(bare_words(s) =~= ms);
    lemma_filter_all(ms);
}

proof fn lemma_filter_all(ms: Seq<Seq<char>>)
    requires
        forall|i: int| 0 <= i < ms.len() ==> is_move_token(#[trigger] ms[i]),
    ensures
        ms.filter(move_tokens()) == ms,
    decreases ms.len(),
{
    reveal(Seq::filter);
    if ms.len() > 0 {
        let front = ms.drop_last();
        assert forall|i: int| 0 <= i < front.len() implies is_move_token(#[trigger] front[i]) by {
            assert(front[i] == ms[i]);
        }
        lemma_filter_all(front);
        assert(is_move_token(ms[ms.len() - 1]));
        assert(front.push(ms.last()) =~= ms);
    }
}

/// A plain move is a move, and has no number to lose.
pub proof fn law_moves_are_moves(m: Seq<char>)
    requires
        fingerprint::is_plain_move(m),
    ensures
        is_move_token(m),
        fingerprint::after_move_number(m) == m,
{
    reveal_strlit("1-0");
    reveal_strlit("0-1");
    reveal_strlit("1/2-1/2");
    reveal_strlit("*");
    assert('a' <= m[0] <= 'z' || 'A' <= m[0] <= 'Z');
    assert(!is_number_char(m[0]));
    text::lemma_lead_is(m, fingerprint::digits(), 0);
    assert(m.skip(0) =~= m);
}

/// Results, glyphs and numbers are no moves.
pub proof fn law_other_words_are_no_moves(t: Seq<char>)
    ensures
        !is_move_token("1-0"@),
        !is_move_token("0-1"@),
        !is_move_token("1/2-1/2"@),
        !is_move_token("*"@),
        t.len() > 0 && t[0] == '$' ==> !is_move_token(t),
        (forall|i: int| 0 <= i < t.len() ==> text::is_digit(#[trigger] t[i]) || t[i] == '.')
            ==> !is_move_token(t),
{
}

/// The first move that cannot be played is the one that is reported, whatever comes after
/// it.
pub proof fn law_first_bad_move_is_reported(
    start: PositionView,
    a: Seq<Seq<char>>,
    b: Seq<Seq<char>>,
)
    requires
        !(line_of(start, a) is Played),
    ensures
        line_of(start, a + b) == line_of(start, a),
    decreases b.len(),
{
    if b.len() == 0 {
        assert(a + b =~= a);
    } else {
        assert((a + b).drop_last() =~= a + b.drop_last());
        law_first_bad_move_is_reported(start, a, b.drop_last());
    }
}

/// A move that is reported has the number of the moves before it, and one more.
pub proof fn law_bad_moves_are_numbered(start: PositionView, a: Seq<Seq<char>>, token: Seq<char>)
    requires
        line_of(start, a) is Played,
    ensures
        chess::san_of(token) is None ==> line_of(start, a.push(token)) == LineResult::NotSan(
            a.len() as int + 1,
        ),
        line_of(start, a.push(token)) matches LineResult::Illegal(n) ==> n == a.len() + 1,
{
    assert(a.push(token).drop_last() =~= a);
    law_rows_follow_the_moves(start, a);
}

proof fn lemma_result_goes(m: Seq<char>, r: Seq<char>)
    requires
        m.len() > 0,
        text::trim(m) == m,
        r.len() > 0 && !text::is_white(r.last()),
    ensures
        text::trim(m + " "@ + r) == m + " "@ + r,
        text::trim_end((m + " "@ + r).take(m.len() as int + 1)) == m,
{
    reveal_strlit(" ");
    lemma_trimmed_ends(m);
    let s = m + " "@ + r;
    let none = Seq::<char>::empty();
    assert(s[0] == m[0]);
    assert(s.last() == r.last());
    text::law_trim_leaves_the_middle(none, s, none);
    assert(none + s + none =~= s);
    let t = s.take(m.len() as int + 1);
    assert(t =~= m.push(' '));
    assert forall|i: int| m.len() <= i < t.len() implies text::whites()(#[trigger] t[i]) by {}
    text::lemma_cut_end_is(t, text::whites(), m.len() as int);
    assert(t.take(m.len() as int) =~= m);
}

proof fn lemma_trimmed_ends(m: Seq<char>)
    requires
        m.len() > 0,
        text::trim(m) == m,
    ensures
        !text::is_white(m[0]) && !text::is_white(m.last()),
{
    let t = text::trim_start(m);
    text::lemma_lead_bound(m, text::whites());
    text::lemma_cut_end(t, text::whites());
    let n = text::lead(m, text::whites()) as int;
    assert(m.len() <= t.len());
    assert(n == 0);
    assert(t =~= m);
    assert(!text::whites()(m[0]));
    assert(!text::whites()(m.last()));
}

/// A game's moves come back when its result is taken off, whichever result it is, and a new
/// result takes the place of the old one.
pub proof fn law_results_come_off(m: Seq<char>, result: Seq<char>, other: Seq<char>)
    requires
        m.len() > 0,
        text::trim(m) == m,
        result == "1-0"@ || result == "0-1"@ || result == "1/2-1/2"@ || result == "*"@,
    ensures
        without_result(m + " "@ + result) == m,
        body_of(m + " "@ + result, other) == m + " "@ + other,
{
    reveal_strlit("1-0");
    reveal_strlit("0-1");
    reveal_strlit("1/2-1/2");
    reveal_strlit("*");
    reveal_strlit(" ");
    let s = m + " "@ + result;
    let n = s.len() as int;
    lemma_result_goes(m, result);
    assert(s.skip(n - result.len()) =~= result);
    assert(s.take(n - result.len()) =~= s.take(m.len() as int + 1));
    assert(text::ends_with(s, result));
    if result != "1-0"@ {
        assert(!text::ends_with(s, "1-0"@)) by {
            lemma_last_differ(s, "1-0"@, result);
        }
        if result != "0-1"@ {
            assert(!text::ends_with(s, "0-1"@)) by {
                lemma_last_differ(s, "0-1"@, result);
            }
            if result != "1/2-1/2"@ {
                assert(!text::ends_with(s, "1/2-1/2"@)) by {
                    lemma_last_differ(s, "1/2-1/2"@, result);
                }
            }
        }
    }
    assert(without_result(s) == m);
}

/// A text does not end in two texts that differ near their end.
proof fn lemma_last_differ(s: Seq<char>, a: Seq<char>, b: Seq<char>)
    requires
        text::ends_with(s, b),
        a.len() >= 2 && b.len() >= 1,
        a.last() != b.last() || b.len() >= 2 && a[a.len() - 2] != b[b.len() - 2],
    ensures
        !text::ends_with(s, a),
{
    let n = s.len() as int;
    assert(s.skip(n - b.len())[b.len() - 1] == b.last());
    if text::ends_with(s, a) {
        assert(s.skip(n - a.len())[a.len() - 1] == a.last());
        assert(s.skip(n - a.len())[a.len() - 2] == a[a.len() - 2]);
        if b.len() >= 2 {
            assert(s.skip(n - b.len())[b.len() - 2] == b[b.len() - 2]);
        }
    }
}

/// A game without moves is its result alone.
pub proof fn law_empty_games_have_a_result(result: Seq<char>)
    ensures
        body_of(Seq::empty(), result) == result,
{
    reveal_strlit("1-0");
    reveal_strlit("0-1");
    reveal_strlit("1/2-1/2");
    reveal_strlit("*");
    let none = Seq::<char>::empty();
    text::law_trim_leaves_the_middle(none, none, none);
    assert(none + none + none =~= none);
}

/// The opening of a game is its first ten half-moves, or all of them.
pub proof fn law_openings_are_short(sans: Seq<Seq<char>>, k: int)
    ensures
        sans.len() <= 10 ==> first_ten(sans) == sans,
        sans.len() > 10 ==> first_ten(sans).len() == 10,
        0 <= k < first_ten(sans).len() ==> first_ten(sans)[k] == sans[k],
{
}

/// The value of a tag is that of the first tag with its name.
pub proof fn law_first_tag_counts(tags: Seq<Tag>, name: Seq<char>, k: int)
    requires
        0 <= k < tags.len(),
        tags[k].name@ == name,
        forall|i: int| 0 <= i < k ==> (#[trigger] tags[i]).name@ != name,
    ensures
        tag_value(tags, name) == Some(tags[k].value@),
    decreases tags.len(),
{
    if k > 0 {
        assert(tags[0].name@ != name);
        let rest = tags.skip(1);
        assert forall|i: int| 0 <= i < k - 1 implies (#[trigger] rest[i]).name@ != name by {
            assert(rest[i] == tags[i + 1]);
        }
        law_first_tag_counts(rest, name, k - 1);
    }
}

/// A tag that is not there has no value.
pub proof fn law_missing_tags_have_no_value(tags: Seq<Tag>, name: Seq<char>)
    requires
        forall|i: int| 0 <= i < tags.len() ==> (#[trigger] tags[i]).name@ != name,
    ensures
        tag_value(tags, name) is None,
    decreases tags.len(),
{
    if tags.len() > 0 {
        assert(tags[0].name@ != name);
        let rest = tags.skip(1);
        assert forall|i: int| 0 <= i < rest.len() implies (#[trigger] rest[i]).name@ != name by {
            assert(rest[i] == tags[i + 1]);
        }
        law_missing_tags_have_no_value(rest, name);
    }
}

/// A value counts without the white space round it, and not at all if it is nothing else.
pub proof fn law_blank_values_do_not_count(before: Seq<char>, v: Seq<char>, after: Seq<char>)
    requires
        forall|i: int| 0 <= i < before.len() ==> text::is_white(#[trigger] before[i]),
        forall|i: int| 0 <= i < after.len() ==> text::is_white(#[trigger] after[i]),
        v.len() > 0 ==> !text::is_white(v[0]) && !text::is_white(v.last()),
    ensures
        v.len() > 0 ==> filled(Some(before + v + after)) == Some(v),
        v.len() == 0 ==> filled(Some(before + v + after)) is None,
        filled(None) is None,
{
    text::law_trim_leaves_the_middle(before, v, after);
}

/// Ratings are read as they are written, of either sign.
pub proof fn law_ratings_are_read(n: i16)
    ensures
        rating(Some(text::signed_dec(n as int))) == Some(n),
        rating(None) is None,
{
    text::law_signed_decimal_reads_back(n as int, 32768, 32767);
    let d = text::signed_dec(n as int);
    let k: nat = if n < 0 {
        (-n) as nat
    } else {
        n as nat
    };
    text::lemma_dec_digits(k);
    let none = Seq::<char>::empty();
    assert(text::is_digit(text::dec(k)[0]));
    assert(text::is_digit(text::dec(k)[text::dec(k).len() - 1]));
    assert(d.last() == text::dec(k)[text::dec(k).len() - 1]);
    text::law_trim_leaves_the_middle(none, d, none);
    assert(none + d + none =~= d);
}

/// The dots of a date become dashes, and nothing else changes.
pub proof fn law_dates_get_dashes(date: Seq<char>, i: int)
    requires
        0 <= i < date.len(),
    ensures
        dashed(Some(date)) matches Some(d) && d.len() == date.len() && d[i] == (if date[i] == '.' {
            '-'
        } else {
            date[i]
        }),
        dashed(None) is None,
{
}

/// The moves of a game are what stands behind the first blank line.
pub proof fn law_moves_stand_behind_the_tags(headers: Seq<char>, moves: Seq<char>)
    requires
        !text::contains(headers + seq!['\n'], "\n\n"@),
        moves.len() > 0,
        !is_line_end(moves.last()),
    ensures
        movetext_of(headers + "\n\n"@ + moves) == moves,
        movetext_of(headers + "\n\n"@ + moves + "\n"@) == moves,
{
    lemma_moves_behind(headers, moves, Seq::empty());
    reveal_strlit("\n");
    lemma_moves_behind(headers, moves, "\n"@);
    assert(headers + "\n\n"@ + moves + Seq::<char>::empty() =~= headers + "\n\n"@ + moves);
}

proof fn lemma_moves_behind(headers: Seq<char>, moves: Seq<char>, end: Seq<char>)
    requires
        !text::contains(headers + seq!['\n'], "\n\n"@),
        moves.len() > 0,
        !is_line_end(moves.last()),
        forall|i: int| 0 <= i < end.len() ==> is_line_end(#[trigger] end[i]),
    ensures
        movetext_of(headers + "\n\n"@ + moves + end) == moves,
{
    reveal_strlit("\n\n");
    let pat = "\n\n"@;
    let pgn = headers + pat + moves + end;
    let n = headers.len() as int;
    let h = headers + seq!['\n'];
    assert(pgn.subrange(n, n + 2) =~= pat);
    assert(text::occurs_at(pgn, pat, n));
    assert forall|k: int| 0 <= k < n implies !text::occurs_at(pgn, pat, k) by {
        if text::occurs_at(pgn, pat, k) {
            assert(h.subrange(k, k + 2) =~= pgn.subrange(k, k + 2));
            assert(text::occurs_at(h, pat, k));
        }
    }
    assert(is_first_at(pgn, pat, n));
    let i = choose|i: int| #[trigger] is_first_at(pgn, pat, i);
    assert(i == n) by {
        if i > n {
            assert(!text::occurs_at(pgn, pat, n));
        }
    }
    let rest = pgn.skip(n + 2);
    assert(rest =~= moves + end);
    assert forall|k: int| moves.len() <= k < rest.len() implies line_ends()(#[trigger] rest[k]) by {
        assert(is_line_end(end[k - moves.len()]));
    }
    text::lemma_cut_end_is(rest, line_ends(), moves.len() as int);
    assert(rest.take(moves.len() as int) =~= moves);
}

/// A tag section has a line for each tag, in their order.
pub proof fn law_tag_sections_follow_the_tags(a: Seq<Tag>, b: Seq<Tag>, t: Tag)
    ensures
        tag_section(a + b) == tag_section(a) + tag_section(b),
        tag_section(seq![t]) == pgn::tag_line(t.name@, t.value@),
        tag_section(Seq::empty()) == Seq::<char>::empty(),
    decreases b.len(),
{
    let one = seq![t];
    assert(one.drop_last() =~= Seq::empty());
    assert(tag_section(one.drop_last()) =~= Seq::empty());
    assert(tag_section(one) =~= pgn::tag_line(t.name@, t.value@));
    if b.len() == 0 {
        assert(a + b =~= a);
        assert(tag_section(a) + tag_section(b) =~= tag_section(a));
    } else {
        assert((a + b).drop_last() =~= a + b.drop_last());
        law_tag_sections_follow_the_tags(a, b.drop_last(), t);
        assert(tag_section(a + b) =~= tag_section(a) + tag_section(b));
    }
}

/// The tags of a game are its first lines that begin with a bracket, up to the first that
/// does not.
pub proof fn law_tags_are_the_first_lines(tags: Seq<Seq<char>>, rest: Seq<Seq<char>>)
    requires
        forall|i: int| 0 <= i < tags.len() ==> (#[trigger] tags[i]).len() > 0 && tags[i][0] == '[',
        rest.len() > 0 ==> rest[0].len() == 0 || rest[0][0] != '[',
    ensures
        tag_lines(tags + rest) == tag_lines(tags),
        tags.len() > 0 ==> tag_lines(tags) == tags[0] + seq!['\n'] + tag_lines(tags.skip(1)),
    decreases tags.len(),
{
    if tags.len() == 0 {
        assert(tags + rest =~= rest);
    } else {
        assert((tags + rest)[0] == tags[0]);
        assert((tags + rest).skip(1) =~= tags.skip(1) + rest);
        assert forall|i: int| 0 <= i < tags.skip(1).len() implies (#[trigger] tags.skip(1)[i]).len()
            > 0 && tags.skip(1)[i][0] == '[' by {
            assert(tags.skip(1)[i] == tags[i + 1]);
        }
        law_tags_are_the_first_lines(tags.skip(1), rest);
        assert(tags[0].len() > 0 && tags[0][0] == '[');
    }
}

/// A line begins at its start, and each legal move leads from the position before it to the
/// one behind it, under its canonical spelling.
pub proof fn law_lines_go_from_move_to_move(start: PositionView, line: LineView, token: Seq<char>, m: Seq<char>, p: chess::PlayedView)
    requires
        chess::san_of(token) is Some,
        chess::san_in(line.at.fen, token) == Some(m),
        chess::played_in(line.at.fen, m) == Some(p),
    ensures
        start_line(start).at == start,
        start_line(start).sans.len() == 0,
        line_step(line, token) matches LineResult::Played(l) && l.at == p.next && l.sans
            == line.sans.push(p.san),
{
}

/// The result that closes a game is the one given, or the mark of an open game.
pub proof fn law_open_games_have_an_asterisk(r: &str)
    ensures
        result_or_open(Some(r)) == r@,
        result_or_open(None) == "*"@,
{
}

} // verus!
