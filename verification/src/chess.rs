//! Chess positions and moves, as texts and numbers.
//!
//! The rules of chess themselves are shakmaty's. A position is held by its FEN, which
//! together with the hash says all that this library needs of it; a move is held in UCI
//! notation.
use shakmaty::fen::Fen;
use shakmaty::san::{San, SanPlus};
use shakmaty::uci::UciMove;
use shakmaty::zobrist::{Zobrist64, ZobristHash};
use shakmaty::{CastlingMode, Chess, EnPassantMode};
use vstd::prelude::*;

verus! {

/// The FEN of the position every game of chess starts from.
pub const START_FEN: &'static str = "rnbqkbnr/pppppppp/8/8/8/8/PPPPPPPP/RNBQKBNR w KQkq - 0 1";

/// A legal position.
#[derive(Debug)]
pub struct BoardPosition {
    /// The FEN. An en passant square is given only where the capture is legal.
    pub fen: String,
    /// The Zobrist hash, which leaves the move counters out.
    pub hash: u64,
    /// Whether this is the starting position, whatever the move counters say.
    pub standard: bool,
}

/// What a position is, as values.
pub struct PositionView {
    pub fen: Seq<char>,
    pub hash: u64,
    pub standard: bool,
}

impl View for BoardPosition {
    type V = PositionView;

    open spec fn view(&self) -> PositionView {
        PositionView { fen: self.fen@, hash: self.hash, standard: self.standard }
    }
}

impl Clone for BoardPosition {
    fn clone(&self) -> (r: Self)
        ensures
            r == *self,
    {
        BoardPosition { fen: self.fen.clone(), hash: self.hash, standard: self.standard }
    }
}

pub open spec fn opt_position(p: Option<BoardPosition>) -> Option<PositionView> {
    match p {
        Some(p) => Some(p@),
        None => None,
    }
}

pub fn clone_opt_position(p: &Option<BoardPosition>) -> (r: Option<BoardPosition>)
    ensures
        r == *p,
{
    match p {
        Some(p) => Some(p.clone()),
        None => None,
    }
}

/// A move as SAN writes it. Squares are numbered from a1, which is 0, along the ranks to
/// h8, which is 63; pieces are given by their small letters.
#[derive(Clone, Copy, PartialEq, Eq, Structural, Debug)]
pub enum SanMove {
    Normal {
        role: char,
        file: Option<u32>,
        rank: Option<u32>,
        capture: bool,
        to: u32,
        promotion: Option<char>,
    },
    /// Castling, a drop or a null move.
    Special,
}

/// A legal move. Of castling, `to` is the square of the rook.
#[derive(Debug)]
pub struct LegalMove {
    pub role: char,
    pub from: Option<u32>,
    pub to: u32,
    pub capture: bool,
    pub promotion: Option<char>,
    pub uci: String,
}

pub struct LegalMoveView {
    pub role: char,
    pub from: Option<u32>,
    pub to: u32,
    pub capture: bool,
    pub promotion: Option<char>,
    pub uci: Seq<char>,
}

impl View for LegalMove {
    type V = LegalMoveView;

    open spec fn view(&self) -> LegalMoveView {
        LegalMoveView {
            role: self.role,
            from: self.from,
            to: self.to,
            capture: self.capture,
            promotion: self.promotion,
            uci: self.uci@,
        }
    }
}

/// A move that was made: its SAN, in the one canonical spelling and with the mark of a
/// check or mate, and the position after it.
pub struct Played {
    pub san: String,
    pub next: BoardPosition,
}

pub struct PlayedView {
    pub san: Seq<char>,
    pub next: PositionView,
}

impl View for Played {
    type V = PlayedView;

    open spec fn view(&self) -> PlayedView {
        PlayedView { san: self.san@, next: self.next@ }
    }
}

// ── Trusted: the rules of chess ──────────────────────────────────────────────

/// The position that a FEN describes under the rules of standard chess, if it is one.
pub uninterp spec fn position_of(fen: Seq<char>) -> Option<PositionView>;

/// The move that a SAN text writes, if it is well formed.
pub uninterp spec fn san_of(san: Seq<char>) -> Option<SanMove>;

/// The UCI notation of the one legal move that a SAN text means in a position.
pub uninterp spec fn san_in(fen: Seq<char>, san: Seq<char>) -> Option<Seq<char>>;

/// The legal moves of a position.
pub uninterp spec fn legal_in(fen: Seq<char>) -> Seq<LegalMoveView>;

/// What making a move, in UCI notation, comes to in a position; nothing if it is illegal.
pub uninterp spec fn played_in(fen: Seq<char>, uci: Seq<char>) -> Option<PlayedView>;

/// `Fen::from_str` and `Fen::into_position` for standard chess, named [`position_of`]
/// here; the hash is `ZobristHash::zobrist_hash`, the FEN that of `Fen::from_position`,
/// and the comparison is that of `Chess` with its default.
#[verifier::external_body]
pub(crate) fn read_position(fen: &str) -> (r: Option<BoardPosition>)
    ensures
        opt_position(r) == position_of(fen@),
{
    let pos: Chess = fen.parse::<Fen>().ok()?.into_position(CastlingMode::Standard).ok()?;
    Some(
        BoardPosition {
            fen: Fen::from_position(&pos, EnPassantMode::Legal).to_string(),
            hash: pos.zobrist_hash::<Zobrist64>(EnPassantMode::Legal).0,
            standard: pos == Chess::default(),
        },
    )
}

/// `Chess::default`, the starting position: the one that [`START_FEN`] describes, with
/// the hash that shakmaty documents for it.
#[verifier::external_body]
pub(crate) fn start_position() -> (r: BoardPosition)
    ensures
        r.fen@ == START_FEN@,
        r.hash == 0x463b96181691fc9c,
        r.standard,
        position_of(START_FEN@) == Some(r@),
{
    let pos = Chess::default();
    BoardPosition {
        fen: Fen::from_position(&pos, EnPassantMode::Legal).to_string(),
        hash: pos.zobrist_hash::<Zobrist64>(EnPassantMode::Legal).0,
        standard: pos == Chess::default(),
    }
}

/// `San::from_ascii`, which allows for one check or mate mark at the end, named
/// [`san_of`] here.
#[verifier::external_body]
pub(crate) fn parse_san(san: &str) -> (r: Option<SanMove>)
    ensures
        r == san_of(san@),
{
    match San::from_ascii(san.as_bytes()).ok()? {
        San::Normal { role, file, rank, capture, to, promotion } => Some(
            SanMove::Normal {
                role: role.char(),
                file: file.map(|f| f.to_u32()),
                rank: rank.map(|r| r.to_u32()),
                capture,
                to: to.to_u32(),
                promotion: promotion.map(|p| p.char()),
            },
        ),
        San::Castle(_) | San::Put { .. } | San::Null => Some(SanMove::Special),
    }
}

pub open spec fn is_file(c: char) -> bool {
    'a' <= c <= 'h'
}

pub open spec fn is_rank(c: char) -> bool {
    '1' <= c <= '8'
}

/// The end of a SAN text: a square, with a mark before it if something is taken there.
pub open spec fn is_target(s: Seq<char>) -> bool {
    ||| s.len() == 2 && is_file(s[0]) && is_rank(s[1])
    ||| s.len() == 3 && s[0] == 'x' && is_file(s[1]) && is_rank(s[2])
}

/// A SAN text that says of a piece on which file or rank it was, as "Nge2" does, and the one
/// that does not, as "Ne2".
pub open spec fn says_where_from(long: Seq<char>, short: Seq<char>) -> bool {
    &&& long.len() >= 4
    &&& "NBRQK"@.contains(long[0])
    &&& is_file(long[1]) || is_rank(long[1])
    &&& is_target(long.skip(2))
    &&& short == seq![long[0]] + long.skip(2)
}

/// Whether each of two SAN texts means one legal move in a position.
pub open spec fn both_legal(fen: Seq<char>, a: Seq<char>, b: Seq<char>) -> bool {
    san_in(fen, a) is Some && san_in(fen, b) is Some
}

/// `San::to_move` in a position, and `Move::to_uci`, named [`san_in`] here. Of a text that
/// says where a piece comes from it is claimed that the text without that means the same move
/// if it means one: of the legal moves it lets through those that the longer text does.
#[verifier::external_body]
pub(crate) fn find_san(fen: &str, san: &str) -> (r: Option<String>)
    ensures
        match r {
            Some(m) => san_in(fen@, san@) == Some(m@),
            None => san_in(fen@, san@) is None,
        },
        forall|short: Seq<char>| #[trigger]
            says_where_from(san@, short) && r is Some && san_in(fen@, short) is Some ==> san_in(
                fen@,
                short,
            ) == Some(r->0@),
{
    let pos: Chess = fen.parse::<Fen>().ok()?.into_position(CastlingMode::Standard).ok()?;
    let m = San::from_ascii(san.as_bytes()).ok()?.to_move(&pos).ok()?;
    Some(m.to_uci(CastlingMode::Standard).to_string())
}

pub open spec fn move_views(v: Seq<LegalMove>) -> Seq<LegalMoveView> {
    v.map_values(|m: LegalMove| m@)
}

/// `Position::legal_moves`, named [`legal_in`] here.
#[verifier::external_body]
pub(crate) fn legal_moves(fen: &str) -> (r: Vec<LegalMove>)
    ensures
        move_views(r@) == legal_in(fen@),
{
    let pos = fen.parse::<Fen>().ok().and_then(|f| f.into_position(CastlingMode::Standard).ok());
    let moves = pos.map(|p: Chess| shakmaty::Position::legal_moves(&p)).unwrap_or_default();
    moves.into_iter().map(|m| LegalMove {
        role: m.role().char(),
        from: m.from().map(|s| s.to_u32()),
        to: m.to().to_u32(),
        capture: m.is_capture(),
        promotion: m.promotion().map(|p| p.char()),
        uci: m.to_uci(CastlingMode::Standard).to_string(),
    }).collect()
}

/// `UciMove::to_move` and `SanPlus::from_move_and_play_unchecked`, named [`played_in`]
/// here.
#[verifier::external_body]
pub(crate) fn play(fen: &str, uci: &str) -> (r: Option<Played>)
    ensures
        match r {
            Some(p) => played_in(fen@, uci@) == Some(p@),
            None => played_in(fen@, uci@) is None,
        },
{
    let mut pos: Chess = fen.parse::<Fen>().ok()?.into_position(CastlingMode::Standard).ok()?;
    let m = uci.parse::<UciMove>().ok()?.to_move(&pos).ok()?;
    let san = SanPlus::from_move_and_play_unchecked(&mut pos, m).to_string();
    let next = BoardPosition {
        fen: Fen::from_position(&pos, EnPassantMode::Legal).to_string(),
        hash: pos.zobrist_hash::<Zobrist64>(EnPassantMode::Legal).0,
        standard: pos == Chess::default(),
    };
    Some(Played { san, next })
}

// ── Reading moves ────────────────────────────────────────────────────────────

/// Whether a legal move is what a SAN text says of it: the piece, where it goes, what it
/// becomes, whether it captures, and where it comes from as far as that is said.
pub open spec fn fits(m: LegalMoveView, san: SanMove) -> bool {
    match san {
        SanMove::Normal { role, file, rank, capture, to, promotion } => {
            &&& m.role == role
            &&& m.to == to
            &&& m.promotion == promotion
            &&& m.capture == capture
            &&& m.from is Some
            &&& file is Some ==> m.from->0 % 8 == file->0
            &&& rank is Some ==> m.from->0 / 8 == rank->0
        },
        SanMove::Special => false,
    }
}

/// The one legal move that fits, unless none or several do.
pub open spec fn only_fit(moves: Seq<LegalMoveView>, san: SanMove) -> Option<Seq<char>> {
    if exists|i: int|
        0 <= i < moves.len() && fits(#[trigger] moves[i], san) && forall|j: int|
            0 <= j < moves.len() && fits(#[trigger] moves[j], san) ==> j == i {
        let i = choose|i: int|
            0 <= i < moves.len() && fits(#[trigger] moves[i], san) && forall|j: int|
                0 <= j < moves.len() && fits(#[trigger] moves[j], san) ==> j == i;
        Some(moves[i].uci)
    } else {
        None
    }
}

fn move_fits(m: &LegalMove, san: SanMove) -> (b: bool)
    ensures
        b == fits(m@, san),
{
    match san {
        SanMove::Normal { role, file, rank, capture, to, promotion } => {
            if m.role != role || m.to != to || m.promotion != promotion || m.capture != capture {
                return false;
            }
            match m.from {
                None => false,
                Some(from) => {
                    let file_ok: bool = match file {
                        Some(f) => from % 8 == f,
                        None => true,
                    };
                    let rank_ok: bool = match rank {
                        Some(r) => from / 8 == r,
                        None => true,
                    };
                    file_ok && rank_ok
                },
            }
        },
        SanMove::Special => false,
    }
}

proof fn lemma_two_fits(moves: Seq<LegalMoveView>, san: SanMove, a: int, b: int)
    requires
        0 <= a < b < moves.len(),
        fits(moves[a], san),
        fits(moves[b], san),
    ensures
        only_fit(moves, san) is None,
{
    assert forall|i: int| 0 <= i < moves.len() && fits(#[trigger] moves[i], san) implies !(forall|
        j: int,
    |
        0 <= j < moves.len() && fits(#[trigger] moves[j], san) ==> j == i) by {
        assert(fits(moves[a], san) && fits(moves[b], san));
    }
}

/// The one of the given moves that fits a SAN text; `None` if none does, and if several
/// do, as the text is then ambiguous.
pub fn choose_fit(moves: &[LegalMove], san: SanMove) -> (r: Option<String>)
    ensures
        match r {
            Some(m) => only_fit(move_views(moves@), san) == Some(m@),
            None => only_fit(move_views(moves@), san) is None,
        },
{
    let ghost all = move_views(moves@);
    let mut found: Option<usize> = None;
    let mut i: usize = 0;
    while i < moves.len()
        invariant
            i <= moves.len(),
            all == move_views(moves@),
            match found {
                Some(k) => k < i && fits(all[k as int], san) && forall|j: int|
                    0 <= j < i && fits(#[trigger] all[j], san) ==> j == k,
                None => forall|j: int| 0 <= j < i ==> !fits(#[trigger] all[j], san),
            },
        decreases moves.len() - i,
    {
        assert(all[i as int] == moves@[i as int]@);
        if move_fits(&moves[i], san) {
            if found.is_some() {
                proof {
                    lemma_two_fits(all, san, found->0 as int, i as int);
                }
                return None;
            }
            found = Some(i);
        }
        i += 1;
    }
    match found {
        Some(k) => {
            let ghost chosen = choose|i: int|
                0 <= i < all.len() && fits(#[trigger] all[i], san) && forall|j: int|
                    0 <= j < all.len() && fits(#[trigger] all[j], san) ==> j == i;
            assert(fits(all[k as int], san));
            assert(chosen == k);
            Some(moves[k].uci.clone())
        },
        None => None,
    }
}

/// The move that a SAN text means in a position, in UCI notation: the one legal move it
/// writes, else the one legal move that its hints fit.
pub open spec fn resolved(fen: Seq<char>, san: Seq<char>) -> Option<Seq<char>> {
    match san_in(fen, san) {
        Some(m) => Some(m),
        None => match san_of(san) {
            Some(s) => only_fit(legal_in(fen), s),
            None => None,
        },
    }
}

/// The move that a SAN text means in a position. A text that says more than it needs to,
/// such as "Nge2" where only one knight can go to e2, is understood; one that two legal
/// moves fit is not.
pub fn resolve_san(fen: &str, san: &str) -> (r: Option<String>)
    ensures
        match r {
            Some(m) => resolved(fen@, san@) == Some(m@),
            None => resolved(fen@, san@) is None,
        },
        forall|short: Seq<char>| #[trigger]
            says_where_from(san@, short) && both_legal(fen@, san@, short) ==> resolved(fen@, short)
                == resolved(fen@, san@),
{
    match find_san(fen, san) {
        Some(m) => Some(m),
        None => match parse_san(san) {
            Some(s) => {
                let moves: Vec<LegalMove> = legal_moves(fen);
                choose_fit(&moves, s)
            },
            None => None,
        },
    }
}

/// What making the move that a SAN text means comes to.
pub open spec fn san_played(fen: Seq<char>, san: Seq<char>) -> Option<PlayedView> {
    match resolved(fen, san) {
        Some(m) => played_in(fen, m),
        None => None,
    }
}

/// Makes the move that a SAN text means in a position.
pub fn play_san(fen: &str, san: &str) -> (r: Option<Played>)
    ensures
        match r {
            Some(p) => san_played(fen@, san@) == Some(p@),
            None => san_played(fen@, san@) is None,
        },
        forall|short: Seq<char>| #[trigger]
            says_where_from(san@, short) && both_legal(fen@, san@, short) ==> san_played(
                fen@,
                short,
            ) == san_played(fen@, san@),
{
    match resolve_san(fen, san) {
        Some(m) => play(fen, m.as_str()),
        None => None,
    }
}

/// A text that fits one legal move only is never taken for another.
pub proof fn law_a_resolved_move_fits(moves: Seq<LegalMoveView>, san: SanMove)
    ensures
        only_fit(moves, san) matches Some(m) ==> exists|i: int|
            0 <= i < moves.len() && fits(#[trigger] moves[i], san) && moves[i].uci == m,
        forall|i: int, j: int|
            0 <= i < j < moves.len() && fits(#[trigger] moves[i], san) && fits(
                #[trigger] moves[j],
                san,
            ) ==> only_fit(moves, san) is None,
{
    assert forall|i: int, j: int|
        0 <= i < j < moves.len() && fits(#[trigger] moves[i], san) && fits(
            #[trigger] moves[j],
            san,
        ) implies only_fit(moves, san) is None by {
        lemma_two_fits(moves, san, i, j);
    }
}

/// A move fits what a text says of it only if piece, target, capture and promotion are the
/// same, and the file and the rank it comes from where the text says them.
pub proof fn law_what_fits_a_text(
    m: LegalMoveView,
    role: char,
    file: Option<u32>,
    rank: Option<u32>,
    capture: bool,
    to: u32,
    promotion: Option<char>,
)
    requires
        fits(m, SanMove::Normal { role, file, rank, capture, to, promotion }),
    ensures
        m.role == role,
        m.to == to,
        m.capture == capture,
        m.promotion == promotion,
        m.from is Some,
        file matches Some(f) ==> m.from->0 % 8 == f,
        rank matches Some(r) ==> m.from->0 / 8 == r,
{
}

/// The more a text says, the fewer moves fit it: what fits with a file or a rank fits without.
pub proof fn law_hints_only_narrow(
    m: LegalMoveView,
    role: char,
    file: Option<u32>,
    rank: Option<u32>,
    capture: bool,
    to: u32,
    promotion: Option<char>,
)
    requires
        fits(m, SanMove::Normal { role, file, rank, capture, to, promotion }),
    ensures
        fits(m, SanMove::Normal { role, file: None, rank, capture, to, promotion }),
        fits(m, SanMove::Normal { role, file, rank: None, capture, to, promotion }),
{
}

/// A move that a text writes is that move; only where it writes none do its hints count.
pub proof fn law_written_moves_come_first(fen: Seq<char>, san: Seq<char>, uci: Seq<char>)
    ensures
        san_in(fen, san) == Some(uci) ==> resolved(fen, san) == Some(uci),
        san_in(fen, san) is None && san_of(san) is None ==> resolved(fen, san) is None,
{
}

/// Where one legal move alone fits, it is the one that is meant.
pub proof fn law_single_fits_are_meant(moves: Seq<LegalMoveView>, san: SanMove, k: int)
    requires
        0 <= k < moves.len(),
        fits(moves[k], san),
        forall|j: int| 0 <= j < moves.len() && fits(#[trigger] moves[j], san) ==> j == k,
    ensures
        only_fit(moves, san) == Some(moves[k].uci),
{
    let i = choose|i: int|
        0 <= i < moves.len() && fits(#[trigger] moves[i], san) && forall|j: int|
            0 <= j < moves.len() && fits(#[trigger] moves[j], san) ==> j == i;
    assert(fits(moves[i], san));
    assert(i == k);
}

/// Where none or several fit, none is meant.
pub proof fn law_several_fits_are_not_guessed(moves: Seq<LegalMoveView>, san: SanMove, j: int, k: int)
    requires
        0 <= j < k < moves.len(),
        fits(moves[j], san),
        fits(moves[k], san),
    ensures
        only_fit(moves, san) is None,
{
}

/// What is told of a position, a move and a move that was made is what they hold.
pub proof fn law_positions_hold_what_is_told(p: BoardPosition, m: LegalMove, d: Played)
    ensures
        p@.fen == p.fen@ && p@.hash == p.hash && p@.standard == p.standard,
        m@.role == m.role && m@.from == m.from && m@.to == m.to && m@.capture == m.capture
            && m@.promotion == m.promotion && m@.uci == m.uci@,
        d@.san == d.san@ && d@.next == d.next@,
        opt_position(Some(p)) == Some(p@),
{
}

} // verus!
