//! What an import knows of the database while it runs: the players by name and by FIDE
//! ID, and the games that are there already, by what identifies them.
use crate::ids;
use crate::ids::IdMarks;
use crate::names;
use crate::names::normalize_name;
use crate::text;
use crate::text::append_num;
use std::collections::hash_map::DefaultHasher;
use std::collections::HashMap;
use std::hash::Hasher;
use vstd::hash_map::StringHashMap;
use vstd::prelude::*;
use vstd::std_specs::hash::DefaultHasherAdditionalSpecFns;
use vstd::string::*;

verus! {

broadcast use vstd::std_specs::hash::group_hash_axioms;

// ── Players ──────────────────────────────────────────────────────────────────

/// A player to be added to the database.
#[derive(Debug)]
pub struct NewPlayer {
    pub id: u32,
    pub name: String,
    pub normalized: String,
    pub fide_id: Option<u32>,
}

pub struct NewPlayerView {
    pub id: u32,
    pub name: Seq<char>,
    pub normalized: Seq<char>,
    pub fide_id: Option<u32>,
}

impl View for NewPlayer {
    type V = NewPlayerView;

    open spec fn view(&self) -> NewPlayerView {
        NewPlayerView {
            id: self.id,
            name: self.name@,
            normalized: self.normalized@,
            fide_id: self.fide_id,
        }
    }
}

/// The players that are known.
pub struct PlayersView {
    /// Players by the form in which names are compared.
    pub names: Map<Seq<char>, u32>,
    /// Players by FIDE ID.
    pub by_fide: Map<u32, u32>,
    /// FIDE IDs by player.
    pub fide_of: Map<u32, u32>,
    /// The next player number to be given out.
    pub next: int,
}

/// How a name in a game was resolved.
pub enum Resolution {
    /// To a player that is known.
    Known { id: u32 },
    /// To a player that is known, whose FIDE ID is new and is to be filled in.
    Filled { id: u32, fide_id: u32 },
    /// To a new player.
    Created { player: NewPlayerView },
}

pub open spec fn resolved_id(r: Resolution) -> u32 {
    match r {
        Resolution::Known { id } => id,
        Resolution::Filled { id, fide_id } => id,
        Resolution::Created { player } => player.id,
    }
}

/// Who a name in a game is: whoever is known by that name, else whoever is known by that
/// FIDE ID, else a new player.
pub open spec fn resolve(v: PlayersView, name: Seq<char>, fide_id: Option<u32>) -> Resolution {
    resolve_by(v, name, names::normalized(name), fide_id)
}

/// Who a name is that is compared by a key.
pub open spec fn resolve_by(
    v: PlayersView,
    name: Seq<char>,
    key: Seq<char>,
    fide_id: Option<u32>,
) -> Resolution {
    if v.names.contains_key(key) {
        let id = v.names[key];
        if fide_id is Some && !v.fide_of.contains_key(id) {
            Resolution::Filled { id, fide_id: fide_id->0 }
        } else {
            Resolution::Known { id }
        }
    } else if fide_id is Some && v.by_fide.contains_key(fide_id->0) {
        Resolution::Known { id: v.by_fide[fide_id->0] }
    } else {
        Resolution::Created {
            player: NewPlayerView { id: v.next as u32, name, normalized: key, fide_id },
        }
    }
}

/// What is known of the players afterwards: the name leads to the player, and so does a
/// FIDE ID that is new.
pub open spec fn after_resolve(v: PlayersView, name: Seq<char>, fide_id: Option<u32>) -> PlayersView {
    after_resolve_by(v, name, names::normalized(name), fide_id)
}

/// What is known of the players after a name was resolved that is compared by a key.
pub open spec fn after_resolve_by(
    v: PlayersView,
    name: Seq<char>,
    key: Seq<char>,
    fide_id: Option<u32>,
) -> PlayersView {
    match resolve_by(v, name, key, fide_id) {
        Resolution::Known { id } => PlayersView { names: v.names.insert(key, id), ..v },
        Resolution::Filled { id, fide_id } => PlayersView {
            by_fide: v.by_fide.insert(fide_id, id),
            fide_of: v.fide_of.insert(id, fide_id),
            ..v
        },
        Resolution::Created { player } => PlayersView {
            names: v.names.insert(key, player.id),
            by_fide: if fide_id is Some {
                v.by_fide.insert(fide_id->0, player.id)
            } else {
                v.by_fide
            },
            fide_of: if fide_id is Some {
                v.fide_of.insert(player.id, fide_id->0)
            } else {
                v.fide_of
            },
            next: v.next + 1,
        },
    }
}

/// Every player that is known has a number below the next one.
pub open spec fn numbers_below_next(v: PlayersView) -> bool {
    &&& 0 <= v.next <= u32::MAX
    &&& forall|k: Seq<char>| #[trigger] v.names.contains_key(k) ==> v.names[k] < v.next
    &&& forall|f: u32| #[trigger] v.by_fide.contains_key(f) ==> v.by_fide[f] < v.next
    &&& forall|p: u32| #[trigger] v.fide_of.contains_key(p) ==> p < v.next
}

/// A player's row: its number and its name as names are compared.
pub struct PlayerName {
    pub id: u32,
    pub normalized: String,
}

/// The names of some rows: of two rows with the same name the later counts.
pub open spec fn names_of(rows: Seq<PlayerName>) -> Map<Seq<char>, u32>
    decreases rows.len(),
{
    if rows.len() == 0 {
        Map::empty()
    } else {
        names_of(rows.drop_last()).insert(rows.last().normalized@, rows.last().id)
    }
}

/// The players with the FIDE IDs of some rows, which hold player and FIDE ID.
pub open spec fn fide_index(rows: Seq<(u32, u32)>) -> Map<u32, u32>
    decreases rows.len(),
{
    if rows.len() == 0 {
        Map::empty()
    } else {
        fide_index(rows.drop_last()).insert(rows.last().1, rows.last().0)
    }
}

/// The FIDE IDs of the players in some rows.
pub open spec fn player_index(rows: Seq<(u32, u32)>) -> Map<u32, u32>
    decreases rows.len(),
{
    if rows.len() == 0 {
        Map::empty()
    } else {
        player_index(rows.drop_last()).insert(rows.last().0, rows.last().1)
    }
}

// ── Games ────────────────────────────────────────────────────────────────────

/// What identifies a game, where no GameId does.
pub struct GameKey<'a> {
    pub white_id: u32,
    pub black_id: u32,
    pub date: Option<&'a str>,
    pub result: Option<&'a str>,
    pub opening_line: &'a str,
    pub move_count: i16,
}

pub struct GameKeyView {
    pub white_id: u32,
    pub black_id: u32,
    pub date: Option<Seq<char>>,
    pub result: Option<Seq<char>>,
    pub opening_line: Seq<char>,
    pub move_count: i16,
}

pub open spec fn str_text(s: Option<&str>) -> Option<Seq<char>> {
    match s {
        Some(s) => Some(s@),
        None => None,
    }
}

impl<'a> View for GameKey<'a> {
    type V = GameKeyView;

    open spec fn view(&self) -> GameKeyView {
        GameKeyView {
            white_id: self.white_id,
            black_id: self.black_id,
            date: str_text(self.date),
            result: str_text(self.result),
            opening_line: self.opening_line@,
            move_count: self.move_count,
        }
    }
}

/// A text as it is fed to the hasher: its bytes, and an end mark that no text holds.
pub open spec fn fed_text(s: Seq<char>) -> Seq<Seq<u8>> {
    seq![vstd::utf8::encode_utf8(s), seq![0xffu8]]
}

/// A text that may be absent, as it is fed to the hasher.
pub open spec fn fed_option(s: Option<Seq<char>>) -> Seq<Seq<u8>> {
    match s {
        Some(s) => seq![seq![1u8]] + fed_text(s),
        None => seq![seq![0u8]],
    }
}

pub open spec fn fed_number(n: u32) -> Seq<Seq<u8>> {
    seq![vstd::bytes::spec_u32_to_le_bytes(n)]
}

/// All that is fed to the hasher for a game.
pub open spec fn fed(k: GameKeyView) -> Seq<Seq<u8>> {
    fed_number(k.white_id) + fed_number(k.black_id) + fed_option(k.date) + fed_option(k.result)
        + fed_text(k.opening_line) + fed_number(k.move_count as u32)
}

/// The fingerprint of a game.
pub open spec fn fingerprint_of(k: GameKeyView) -> u64 {
    DefaultHasher::spec_finish(fed(k))
}

fn feed_number(h: &mut DefaultHasher, n: u32)
    ensures
        final(h)@ == old(h)@ + fed_number(n),
{
    let bytes: Vec<u8> = vstd::bytes::u32_to_le_bytes(n);
    let ghost before = h@;
    h.write(&bytes);
    assert(h@ =~= before + fed_number(n));
}

fn feed_byte(h: &mut DefaultHasher, b: u8)
    ensures
        final(h)@ == old(h)@.push(seq![b]),
{
    let mut bytes: Vec<u8> = Vec::new();
    bytes.push(b);
    assert(bytes@ =~= seq![b]);
    h.write(&bytes);
}

fn feed_text(h: &mut DefaultHasher, s: &str)
    ensures
        final(h)@ == old(h)@ + fed_text(s@),
{
    let ghost before = h@;
    h.write(s.as_bytes());
    feed_byte(h, 0xff);
    assert(h@ =~= before + fed_text(s@));
}

fn feed_option(h: &mut DefaultHasher, s: Option<&str>)
    ensures
        final(h)@ == old(h)@ + fed_option(str_text(s)),
{
    let ghost before = h@;
    match s {
        Some(s) => {
            feed_byte(h, 1);
            feed_text(h, s);
        },
        None => {
            feed_byte(h, 0);
        },
    }
    assert(h@ =~= before + fed_option(str_text(s)));
}

/// The fingerprint of a game: equal for games with the same players, date, result,
/// opening line and number of moves.
pub fn game_fingerprint(key: &GameKey) -> (fp: u64)
    ensures
        fp == fingerprint_of(key@),
{
    let mut h: DefaultHasher = DefaultHasher::new();
    feed_number(&mut h, key.white_id);
    feed_number(&mut h, key.black_id);
    feed_option(&mut h, key.date);
    feed_option(&mut h, key.result);
    feed_text(&mut h, key.opening_line);
    feed_number(&mut h, key.move_count as u32);
    assert(h@ =~= fed(key@));
    h.finish()
}

/// The games that are known.
pub struct GamesView {
    /// Games by fingerprint.
    pub prints: Map<u64, u32>,
    /// Games by ChessBase GameId.
    pub chessbase: Map<i64, u32>,
    /// The next game number to be given out.
    pub next: int,
    /// Whether games are taken without looking for duplicates.
    pub skip_dedup: bool,
}

/// The game that a game is a duplicate of. The same GameId settles it; otherwise the
/// fingerprint does, also for games with different GameIds.
pub open spec fn duplicate_of(v: GamesView, chessbase_id: Option<i64>, print: u64) -> Option<u32> {
    if v.skip_dedup {
        None
    } else if chessbase_id is Some && v.chessbase.contains_key(chessbase_id->0) {
        Some(v.chessbase[chessbase_id->0])
    } else if v.prints.contains_key(print) {
        Some(v.prints[print])
    } else {
        None
    }
}

/// What is known of the games once a new one has been given its number.
pub open spec fn after_new_game(v: GamesView, chessbase_id: Option<i64>, print: u64) -> GamesView {
    if v.skip_dedup {
        GamesView { next: v.next + 1, ..v }
    } else {
        GamesView {
            prints: v.prints.insert(print, v.next as u32),
            chessbase: if chessbase_id is Some {
                v.chessbase.insert(chessbase_id->0, v.next as u32)
            } else {
                v.chessbase
            },
            next: v.next + 1,
            ..v
        }
    }
}

/// A game that is in the database already.
pub struct StoredGame {
    pub id: u32,
    pub white_id: u32,
    pub black_id: u32,
    pub date: Option<String>,
    pub result: Option<String>,
    pub opening_line: String,
    pub move_count: i16,
}

pub open spec fn opt_view(s: Option<String>) -> Option<Seq<char>> {
    match s {
        Some(s) => Some(s@),
        None => None,
    }
}

pub open spec fn stored_key(g: StoredGame) -> GameKeyView {
    GameKeyView {
        white_id: g.white_id,
        black_id: g.black_id,
        date: opt_view(g.date),
        result: opt_view(g.result),
        opening_line: g.opening_line@,
        move_count: g.move_count,
    }
}

pub open spec fn prints_of(rows: Seq<StoredGame>) -> Map<u64, u32>
    decreases rows.len(),
{
    if rows.len() == 0 {
        Map::empty()
    } else {
        prints_of(rows.drop_last()).insert(
            fingerprint_of(stored_key(rows.last())),
            rows.last().id,
        )
    }
}

/// The games with the GameIds of some rows, which hold game and GameId.
pub open spec fn chessbase_index(rows: Seq<(u32, i64)>) -> Map<i64, u32>
    decreases rows.len(),
{
    if rows.len() == 0 {
        Map::empty()
    } else {
        chessbase_index(rows.drop_last()).insert(rows.last().1, rows.last().0)
    }
}

// ── The context ──────────────────────────────────────────────────────────────

/// What an import knows of the database; shared by all files of one run.
pub struct ImportContext {
    pub player_cache: StringHashMap<u32>,
    pub fide_id_cache: HashMap<u32, u32>,
    pub player_fide_id: HashMap<u32, u32>,
    pub next_player_id: u32,
    pub next_game_id: u32,
    pub seen_this_run: HashMap<u64, u32>,
    pub seen_chessbase_ids: HashMap<i64, u32>,
    pub skip_dedup: bool,
}

fn date_of<'a>(s: &'a Option<String>) -> (r: Option<&'a str>)
    ensures
        str_text(r) == opt_view(*s),
{
    match s {
        Some(s) => Some(s.as_str()),
        None => None,
    }
}

impl ImportContext {
    pub open spec fn players(&self) -> PlayersView {
        PlayersView {
            names: self.player_cache@,
            by_fide: self.fide_id_cache@,
            fide_of: self.player_fide_id@,
            next: self.next_player_id as int,
        }
    }

    pub open spec fn games(&self) -> GamesView {
        GamesView {
            prints: self.seen_this_run@,
            chessbase: self.seen_chessbase_ids@,
            next: self.next_game_id as int,
            skip_dedup: self.skip_dedup,
        }
    }

    /// Loads what an import needs to know: the players, and unless duplicates are let
    /// through, the games that were imported within the last year. New players and games
    /// get numbers above the highest that the tables hold and above all that were ever
    /// given out.
    pub fn new(
        names: Vec<PlayerName>,
        fide_rows: &[(u32, u32)],
        live_max_player: u32,
        games: &[StoredGame],
        chessbase_rows: &[(u32, i64)],
        live_max_game: u32,
        marks: &IdMarks,
        skip_dedup: bool,
    ) -> (ctx: Self)
        requires
            ids::max_of(live_max_player, marks.players) < u32::MAX,
            ids::max_of(live_max_game, marks.games) < u32::MAX,
        ensures
            ctx.players() == (PlayersView {
                names: names_of(names@),
                by_fide: fide_index(fide_rows@),
                fide_of: player_index(fide_rows@),
                next: ids::max_of(live_max_player, marks.players) + 1,
            }),
            ctx.games() == (GamesView {
                prints: if skip_dedup {
                    Map::empty()
                } else {
                    prints_of(games@)
                },
                chessbase: if skip_dedup {
                    Map::empty()
                } else {
                    chessbase_index(chessbase_rows@)
                },
                next: ids::max_of(live_max_game, marks.games) + 1,
                skip_dedup,
            }),
    {
        let mut player_cache: StringHashMap<u32> = StringHashMap::new();
        let mut i: usize = 0;
        assert(names@.take(0) =~= Seq::empty());
        while i < names.len()
            invariant
                i <= names.len(),
                player_cache@ == names_of(names@.take(i as int)),
            decreases names.len() - i,
        {
            player_cache.insert(names[i].normalized.clone(), names[i].id);
            i += 1;
            proof {
                let t = names@.take(i as int);
                assert(t.drop_last() =~= names@.take(i - 1));
                assert(t.last() == names@[i - 1]);
            }
        }
        assert(names@.take(i as int) =~= names@);
        let mut fide_id_cache: HashMap<u32, u32> = HashMap::new();
        let mut player_fide_id: HashMap<u32, u32> = HashMap::new();
        let mut j: usize = 0;
        assert(fide_rows@.take(0) =~= Seq::empty());
        while j < fide_rows.len()
            invariant
                j <= fide_rows.len(),
                fide_id_cache@ == fide_index(fide_rows@.take(j as int)),
                player_fide_id@ == player_index(fide_rows@.take(j as int)),
            decreases fide_rows.len() - j,
        {
            let (id, fide): (u32, u32) = fide_rows[j];
            fide_id_cache.insert(fide, id);
            player_fide_id.insert(id, fide);
            j += 1;
            proof {
                let t = fide_rows@.take(j as int);
                assert(t.drop_last() =~= fide_rows@.take(j - 1));
                assert(t.last() == fide_rows@[j - 1]);
            }
        }
        assert(fide_rows@.take(j as int) =~= fide_rows@);
        let mut seen_this_run: HashMap<u64, u32> = HashMap::new();
        let mut seen_chessbase_ids: HashMap<i64, u32> = HashMap::new();
        if !skip_dedup {
            let mut k: usize = 0;
            assert(games@.take(0) =~= Seq::empty());
            while k < games.len()
                invariant
                    k <= games.len(),
                    seen_this_run@ == prints_of(games@.take(k as int)),
                decreases games.len() - k,
            {
                let g: &StoredGame = &games[k];
                let fp: u64 = game_fingerprint(
                    &GameKey {
                        white_id: g.white_id,
                        black_id: g.black_id,
                        date: date_of(&g.date),
                        result: date_of(&g.result),
                        opening_line: g.opening_line.as_str(),
                        move_count: g.move_count,
                    },
                );
                seen_this_run.insert(fp, g.id);
                k += 1;
                proof {
                    let t = games@.take(k as int);
                    assert(t.drop_last() =~= games@.take(k - 1));
                    assert(t.last() == games@[k - 1]);
                }
            }
            assert(games@.take(k as int) =~= games@);
            let mut l: usize = 0;
            assert(chessbase_rows@.take(0) =~= Seq::empty());
            while l < chessbase_rows.len()
                invariant
                    l <= chessbase_rows.len(),
                    seen_chessbase_ids@ == chessbase_index(chessbase_rows@.take(l as int)),
                decreases chessbase_rows.len() - l,
            {
                let (id, cbid): (u32, i64) = chessbase_rows[l];
                seen_chessbase_ids.insert(cbid, id);
                l += 1;
                proof {
                    let t = chessbase_rows@.take(l as int);
                    assert(t.drop_last() =~= chessbase_rows@.take(l - 1));
                    assert(t.last() == chessbase_rows@[l - 1]);
                }
            }
            assert(chessbase_rows@.take(l as int) =~= chessbase_rows@);
        }
        proof {
            reveal_strlit("players");
            reveal_strlit("games");
            assert("games"@.len() != "players"@.len());
        }
        let next_player_id: u32 = marks.next_id("players", live_max_player).unwrap();
        let next_game_id: u32 = marks.next_id("games", live_max_game).unwrap();
        ImportContext {
            player_cache,
            fide_id_cache,
            player_fide_id,
            next_player_id,
            next_game_id,
            seen_this_run,
            seen_chessbase_ids,
            skip_dedup,
        }
    }

    /// What is told once everything is loaded.
    pub fn loaded_message(&self) -> (s: String)
        ensures
            s@ == (if self.skip_dedup {
                "Initialised: "@ + text::dec(self.players().names.len())
                    + " players. Duplicate detection disabled."@
            } else {
                "Initialised: "@ + text::dec(self.players().names.len()) + " players, "@
                    + text::dec(self.games().prints.len()) + " game fingerprints loaded."@
            }),
    {
        let mut s: String = "Initialised: ".to_owned();
        append_num(&mut s, self.player_cache.len() as u64);
        if self.skip_dedup {
            s.append(" players. Duplicate detection disabled.");
        } else {
            s.append(" players, ");
            append_num(&mut s, self.seen_this_run.len() as u64);
            s.append(" game fingerprints loaded.");
        }
        s
    }

    /// Says who a name in a game is. A new player goes to `new_players`, a FIDE ID that a
    /// known player lacked to `backfill`.
    pub fn get_or_create_player(
        &mut self,
        new_players: &mut Vec<NewPlayer>,
        backfill: &mut Vec<(u32, u32)>,
        name: &str,
        fide_id: Option<u32>,
    ) -> (id: u32)
        requires
            old(self).next_player_id < u32::MAX,
        ensures
            ({
                let r = resolve(old(self).players(), name@, fide_id);
                &&& id == resolved_id(r)
                &&& final(self).players() == after_resolve(old(self).players(), name@, fide_id)
                &&& final(self).games() == old(self).games()
                &&& player_views(final(new_players)@) == (match r {
                    Resolution::Created { player } => player_views(old(new_players)@).push(player),
                    _ => player_views(old(new_players)@),
                })
                &&& final(backfill)@ == (match r {
                    Resolution::Filled { id, fide_id } => old(backfill)@.push((id, fide_id)),
                    _ => old(backfill)@,
                })
            }),
    {
        let normalized: String = normalize_name(name);
        self.take_player(new_players, backfill, name, normalized, fide_id)
    }

    /// Says who a name in a game is; `normalized` is the form in which it is compared.
    pub fn take_player(
        &mut self,
        new_players: &mut Vec<NewPlayer>,
        backfill: &mut Vec<(u32, u32)>,
        name: &str,
        normalized: String,
        fide_id: Option<u32>,
    ) -> (id: u32)
        requires
            old(self).next_player_id < u32::MAX,
        ensures
            ({
                let r = resolve_by(old(self).players(), name@, normalized@, fide_id);
                &&& id == resolved_id(r)
                &&& final(self).players() == after_resolve_by(
                    old(self).players(),
                    name@,
                    normalized@,
                    fide_id,
                )
                &&& final(self).games() == old(self).games()
                &&& player_views(final(new_players)@) == (match r {
                    Resolution::Created { player } => player_views(old(new_players)@).push(player),
                    _ => player_views(old(new_players)@),
                })
                &&& final(backfill)@ == (match r {
                    Resolution::Filled { id, fide_id } => old(backfill)@.push((id, fide_id)),
                    _ => old(backfill)@,
                })
            }),
    {
        let ghost before = self.players();
        let known: Option<u32> = match self.player_cache.get(normalized.as_str()) {
            Some(id) => Some(*id),
            None => None,
        };
        if let Some(id) = known {
            if let Some(fid) = fide_id {
                if !self.player_fide_id.contains_key(&id) {
                    self.player_fide_id.insert(id, fid);
                    self.fide_id_cache.insert(fid, id);
                    backfill.push((id, fid));
                    return id;
                }
            }
            assert(before.names.insert(normalized@, id) =~= before.names);
            return id;
        }
        if let Some(fid) = fide_id {
            let by_fide: Option<u32> = match self.fide_id_cache.get(&fid) {
                Some(id) => Some(*id),
                None => None,
            };
            if let Some(id) = by_fide {
                self.player_cache.insert(normalized, id);
                return id;
            }
        }
        let id: u32 = self.next_player_id;
        self.next_player_id = self.next_player_id + 1;
        self.player_cache.insert(normalized.clone(), id);
        if let Some(fid) = fide_id {
            self.fide_id_cache.insert(fid, id);
            self.player_fide_id.insert(id, fid);
        }
        let ghost had = player_views(new_players@);
        let player = NewPlayer { id, name: name.to_owned(), normalized, fide_id };
        new_players.push(player);
        assert(player_views(new_players@) =~= had.push(player@));
        id
    }

    /// Gives a game its number, unless it is a duplicate of one that is known.
    pub fn number_game(&mut self, chessbase_id: Option<i64>, key: &GameKey) -> (r: Result<
        u32,
        u32,
    >)
        requires
            old(self).next_game_id < u32::MAX,
        ensures
            final(self).players() == old(self).players(),
            match duplicate_of(old(self).games(), chessbase_id, fingerprint_of(key@)) {
                Some(existing) => r == Err::<u32, u32>(existing) && final(self).games() == old(
                    self,
                ).games(),
                None => r == Ok::<u32, u32>(old(self).next_game_id) && final(self).games()
                    == after_new_game(old(self).games(), chessbase_id, fingerprint_of(key@)),
            },
    {
        if self.skip_dedup {
            let id: u32 = self.next_game_id;
            self.next_game_id = self.next_game_id + 1;
            return Ok(id);
        }
        if let Some(cbid) = chessbase_id {
            if let Some(existing) = self.seen_chessbase_ids.get(&cbid) {
                return Err(*existing);
            }
        }
        let fp: u64 = game_fingerprint(key);
        if let Some(existing) = self.seen_this_run.get(&fp) {
            return Err(*existing);
        }
        let id: u32 = self.next_game_id;
        self.next_game_id = self.next_game_id + 1;
        self.seen_this_run.insert(fp, id);
        if let Some(cbid) = chessbase_id {
            self.seen_chessbase_ids.insert(cbid, id);
        }
        Ok(id)
    }
}

pub open spec fn player_views(v: Seq<NewPlayer>) -> Seq<NewPlayerView> {
    v.map_values(|p: NewPlayer| p@)
}

// ── Laws ─────────────────────────────────────────────────────────────────────

/// Whoever a name was resolved to, it is resolved to them again, with or without a FIDE
/// ID.
pub proof fn law_a_name_stays_the_same_player(
    v: PlayersView,
    name: Seq<char>,
    fide_id: Option<u32>,
    again: Option<u32>,
)
    ensures
        ({
            let id = resolved_id(resolve(v, name, fide_id));
            resolved_id(resolve(after_resolve(v, name, fide_id), name, again)) == id
        }),
{
}

/// Looking a player up does not make another name mean somebody else.
pub proof fn law_other_names_keep_their_player(
    v: PlayersView,
    name: Seq<char>,
    fide_id: Option<u32>,
    other: Seq<char>,
)
    requires
        v.names.contains_key(names::normalized(other)),
    ensures
        ({
            let w = after_resolve(v, name, fide_id);
            w.names.contains_key(names::normalized(other)) && w.names[names::normalized(other)]
                == v.names[names::normalized(other)]
        }),
{
}

/// Two new spellings with one FIDE ID are one player.
pub proof fn law_one_fide_id_is_one_player(
    v: PlayersView,
    first: Seq<char>,
    second: Seq<char>,
    fide_id: u32,
)
    requires
        !v.names.contains_key(names::normalized(first)),
        !v.names.contains_key(names::normalized(second)),
    ensures
        ({
            let w = after_resolve(v, first, Some(fide_id));
            resolved_id(resolve(w, second, Some(fide_id))) == resolved_id(
                resolve(v, first, Some(fide_id)),
            )
        }),
{
}

/// A new player gets a number that nobody has.
pub proof fn law_new_players_get_new_numbers(
    v: PlayersView,
    name: Seq<char>,
    fide_id: Option<u32>,
)
    requires
        numbers_below_next(v),
        v.next < u32::MAX,
    ensures
        numbers_below_next(after_resolve(v, name, fide_id)),
        resolve(v, name, fide_id) matches Resolution::Created { player } ==> {
            &&& forall|k: Seq<char>|
                #[trigger] v.names.contains_key(k) ==> v.names[k] != player.id
            &&& !v.fide_of.contains_key(player.id)
        },
{
}

/// A game that was taken is a duplicate from then on.
pub proof fn law_a_game_is_taken_once(v: GamesView, chessbase_id: Option<i64>, print: u64)
    requires
        !v.skip_dedup,
        duplicate_of(v, chessbase_id, print) is None,
        0 <= v.next <= u32::MAX,
    ensures
        duplicate_of(after_new_game(v, chessbase_id, print), chessbase_id, print) == Some(
            v.next as u32,
        ),
        duplicate_of(after_new_game(v, chessbase_id, print), None, print) == Some(v.next as u32),
{
}

// ── Laws of what is known ────────────────────────────────────────────────────

/// A name that is known is that player, before any FIDE ID; a new name with a known FIDE ID
/// is the player with that ID; and any other name is a new player with the next number, the
/// name and the ID.
pub proof fn law_who_a_name_is(v: PlayersView, name: Seq<char>, fide_id: Option<u32>)
    ensures
        ({
            let key = names::normalized(name);
            let r = resolve(v, name, fide_id);
            &&& v.names.contains_key(key) ==> resolved_id(r) == v.names[key] && !(r is Created)
            &&& v.names.contains_key(key) && fide_id is Some && !v.fide_of.contains_key(
                v.names[key],
            ) ==> r == Resolution::Filled { id: v.names[key], fide_id: fide_id->0 }
            &&& v.names.contains_key(key) && (fide_id is None || v.fide_of.contains_key(
                v.names[key],
            )) ==> r is Known
            &&& !v.names.contains_key(key) && fide_id is Some && v.by_fide.contains_key(fide_id->0)
                ==> r == Resolution::Known { id: v.by_fide[fide_id->0] }
            &&& !v.names.contains_key(key) && (fide_id is None || !v.by_fide.contains_key(
                fide_id->0,
            )) ==> {
                r matches Resolution::Created { player } && player.id == v.next as u32
                    && player.name == name && player.normalized == key && player.fide_id == fide_id
            }
        }),
{
}

/// A player's FIDE ID is never changed once it is known.
pub proof fn law_fide_ids_stay(v: PlayersView, name: Seq<char>, fide_id: Option<u32>, p: u32)
    requires
        numbers_below_next(v),
        v.next < u32::MAX,
        v.fide_of.contains_key(p),
    ensures
        after_resolve(v, name, fide_id).fide_of.contains_key(p),
        after_resolve(v, name, fide_id).fide_of[p] == v.fide_of[p],
{
}

/// Rows that are loaded lead from name to player, from FIDE ID to player and back, and of two
/// rows the later counts.
pub proof fn law_rows_lead_to_their_players(
    rows: Seq<PlayerName>,
    n: PlayerName,
    ids: Seq<(u32, u32)>,
    player: u32,
    fide_id: u32,
)
    ensures
        names_of(rows.push(n)).contains_key(n.normalized@) && names_of(rows.push(n))[n.normalized@]
            == n.id,
        fide_index(ids.push((player, fide_id))).contains_key(fide_id) && fide_index(
            ids.push((player, fide_id)),
        )[fide_id] == player,
        player_index(ids.push((player, fide_id))).contains_key(player) && player_index(
            ids.push((player, fide_id)),
        )[player] == fide_id,
{
    assert(rows.push(n).drop_last() =~= rows);
    assert(ids.push((player, fide_id)).drop_last() =~= ids);
}

/// Stored games lead from GameId and fingerprint to their numbers.
pub proof fn law_stored_games_are_known(
    rows: Seq<StoredGame>,
    g: StoredGame,
    ids: Seq<(u32, i64)>,
    game: u32,
    chessbase_id: i64,
)
    ensures
        prints_of(rows.push(g)).contains_key(fingerprint_of(stored_key(g))) && prints_of(
            rows.push(g),
        )[fingerprint_of(stored_key(g))] == g.id,
        chessbase_index(ids.push((game, chessbase_id))).contains_key(chessbase_id)
            && chessbase_index(ids.push((game, chessbase_id)))[chessbase_id] == game,
{
    assert(rows.push(g).drop_last() =~= rows);
    assert(ids.push((game, chessbase_id)).drop_last() =~= ids);
}

/// A stored game is known by what an imported one is known by.
pub proof fn law_stored_games_have_their_key(g: StoredGame)
    ensures
        stored_key(g).white_id == g.white_id,
        stored_key(g).black_id == g.black_id,
        stored_key(g).date == opt_view(g.date),
        stored_key(g).result == opt_view(g.result),
        stored_key(g).opening_line == g.opening_line@,
        stored_key(g).move_count == g.move_count,
{
}

/// All that a game is known by goes into its fingerprint: where what is hashed is the same,
/// players, day, result, opening and length are.
pub proof fn law_fingerprints_take_in_everything(a: GameKeyView, b: GameKeyView)
    requires
        fed(a) == fed(b),
        a.date is Some && b.date is Some && a.result is Some && b.result is Some,
        a.move_count >= 0 && b.move_count >= 0,
    ensures
        a == b,
{
    vstd::bytes::lemma_auto_spec_u32_to_from_le_bytes();
    let x = fed(a);
    let y = fed(b);
    lemma_fed_parts(a);
    lemma_fed_parts(b);
    assert(x[0] == y[0] && x[1] == y[1] && x[3] == y[3] && x[6] == y[6] && x[8] == y[8] && x[10]
        == y[10]);
    vstd::utf8::encode_utf8_decode_utf8(a.date->0);
    vstd::utf8::encode_utf8_decode_utf8(b.date->0);
    vstd::utf8::encode_utf8_decode_utf8(a.result->0);
    vstd::utf8::encode_utf8_decode_utf8(b.result->0);
    vstd::utf8::encode_utf8_decode_utf8(a.opening_line);
    vstd::utf8::encode_utf8_decode_utf8(b.opening_line);
    assert(vstd::bytes::spec_u32_to_le_bytes(a.white_id).len() == 4);
    assert(vstd::bytes::spec_u32_to_le_bytes(a.black_id).len() == 4);
    assert(vstd::bytes::spec_u32_to_le_bytes(a.move_count as u32).len() == 4);
    assert(vstd::bytes::spec_u32_to_le_bytes(b.white_id).len() == 4);
    assert(vstd::bytes::spec_u32_to_le_bytes(b.black_id).len() == 4);
    assert(vstd::bytes::spec_u32_to_le_bytes(b.move_count as u32).len() == 4);
    assert(vstd::bytes::spec_u32_from_le_bytes(x[0]) == a.white_id);
    assert(vstd::bytes::spec_u32_from_le_bytes(x[1]) == a.black_id);
    assert(vstd::bytes::spec_u32_from_le_bytes(x[10]) == a.move_count as u32);
    assert(vstd::bytes::spec_u32_from_le_bytes(y[0]) == b.white_id);
    assert(vstd::bytes::spec_u32_from_le_bytes(y[1]) == b.black_id);
    assert(vstd::bytes::spec_u32_from_le_bytes(y[10]) == b.move_count as u32);
}

proof fn lemma_fed_parts(k: GameKeyView)
    requires
        k.date is Some && k.result is Some,
    ensures
        fed(k).len() == 11,
        fed(k)[0] == vstd::bytes::spec_u32_to_le_bytes(k.white_id),
        fed(k)[1] == vstd::bytes::spec_u32_to_le_bytes(k.black_id),
        fed(k)[3] == vstd::utf8::encode_utf8(k.date->0),
        fed(k)[6] == vstd::utf8::encode_utf8(k.result->0),
        fed(k)[8] == vstd::utf8::encode_utf8(k.opening_line),
        fed(k)[10] == vstd::bytes::spec_u32_to_le_bytes(k.move_count as u32),
{
}

/// A game with a known GameId is that game, before any fingerprint; then the fingerprint
/// counts; and where duplicates are taken there are none.
pub proof fn law_which_game_is_a_duplicate(v: GamesView, chessbase_id: i64, print: u64)
    ensures
        v.skip_dedup ==> duplicate_of(v, Some(chessbase_id), print) is None,
        !v.skip_dedup && v.chessbase.contains_key(chessbase_id) ==> duplicate_of(
            v,
            Some(chessbase_id),
            print,
        ) == Some(v.chessbase[chessbase_id]),
        !v.skip_dedup && !v.chessbase.contains_key(chessbase_id) && v.prints.contains_key(print)
            ==> duplicate_of(v, Some(chessbase_id), print) == Some(v.prints[print]),
        !v.skip_dedup && !v.chessbase.contains_key(chessbase_id) && !v.prints.contains_key(print)
            ==> duplicate_of(v, Some(chessbase_id), print) is None,
        !v.skip_dedup && v.prints.contains_key(print) ==> duplicate_of(v, None, print) == Some(
            v.prints[print],
        ),
        after_new_game(v, Some(chessbase_id), print).next == v.next + 1,
{
}

/// What is told of a new player is what the entry holds.
pub proof fn law_new_players_hold_what_is_told(p: NewPlayer)
    ensures
        p@.id == p.id,
        p@.name == p.name@,
        p@.normalized == p.normalized@,
        p@.fide_id == p.fide_id,
{
}

} // verus!
