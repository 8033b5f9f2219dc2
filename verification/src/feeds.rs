//! The files that the sources of games offer.
use crate::reporter;
use crate::sorting;
use crate::sorting::{codes_of, comes_before};
use crate::text;
use crate::text::{
    chars_of, decimal, has_prefix, has_suffix, slice, split_lines, string_of, trim_chars,
};
use vstd::prelude::*;
use vstd::string::*;

verus! {

/// A file that a source offers.
#[derive(Debug)]
pub struct FeedItem {
    pub external_id: String,
    /// The day on which it came out, if it is known.
    pub published: Option<String>,
    pub url: String,
    pub filename: String,
    pub db_id: Option<u32>,
    /// The first and the last day of which it can hold games, if they are known.
    pub covers: Option<(String, String)>,
}

pub struct FeedItemView {
    pub external_id: Seq<char>,
    pub published: Option<Seq<char>>,
    pub url: Seq<char>,
    pub filename: Seq<char>,
    pub db_id: Option<u32>,
    pub covers: Option<(Seq<char>, Seq<char>)>,
}

impl View for FeedItem {
    type V = FeedItemView;

    open spec fn view(&self) -> FeedItemView {
        FeedItemView {
            external_id: self.external_id@,
            published: reporter::opt_text(self.published),
            url: self.url@,
            filename: self.filename@,
            db_id: self.db_id,
            covers: match self.covers {
                Some(c) => Some((c.0@, c.1@)),
                None => None,
            },
        }
    }
}

pub open spec fn item_views(v: Seq<FeedItem>) -> Seq<FeedItemView> {
    v.map_values(|i: FeedItem| i@)
}

// ── The numbered series of Ajedrez ───────────────────────────────────────────

/// No more parts than this are looked for.
pub const MAX_PARTS: u32 = 64;

/// A number with at least three digits.
pub open spec fn three_digits(n: nat) -> Seq<char> {
    if n < 10 {
        "00"@ + text::dec(n)
    } else if n < 100 {
        "0"@ + text::dec(n)
    } else {
        text::dec(n)
    }
}

fn push_three_digits(out: &mut String, n: u32)
    ensures
        final(out)@ == old(out)@ + three_digits(n as nat),
{
    if n < 10 {
        out.append("00");
    } else if n < 100 {
        out.append("0");
    }
    let d: String = decimal(n as u64);
    out.append(d.as_str());
    assert(out@ =~= old(out)@ + three_digits(n as nat));
}

pub open spec fn part_id(n: nat) -> Seq<char> {
    "AJ-OTB-PGN-"@ + three_digits(n)
}

pub open spec fn part_url(n: nat) -> Seq<char> {
    "https://usc1.contabostorage.com/716916dc83654e5eb4d2059cde9bd53d:ajedrez/AJ-OTB-PGN-"@
        + three_digits(n) + ".7z"@
}

/// Where a part of the series lies.
pub fn otb_url(n: u32) -> (url: String)
    ensures
        url@ == part_url(n as nat),
{
    let mut url: String =
        "https://usc1.contabostorage.com/716916dc83654e5eb4d2059cde9bd53d:ajedrez/AJ-OTB-PGN-".to_owned();
    push_three_digits(&mut url, n);
    url.append(".7z");
    url
}

/// A part of the series. The days that it covers are not known, so it is always loaded.
pub open spec fn part_of(n: nat) -> FeedItemView {
    FeedItemView {
        external_id: part_id(n),
        published: None,
        url: part_url(n),
        filename: part_id(n) + ".7z"@,
        db_id: None,
        covers: None,
    }
}

/// The first parts of the series.
pub open spec fn first_parts(n: nat) -> Seq<FeedItemView> {
    Seq::new(n, |i: int| part_of(i as nat))
}

/// What the question for a part was answered.
#[derive(Clone, Copy, PartialEq, Eq, Structural, Debug)]
pub enum ProbeAnswer {
    /// It is there.
    Found,
    /// The server answered otherwise.
    Missing,
    /// There is no connection.
    Offline,
    /// Something else went wrong.
    Failed,
}

/// What comes next in the series.
#[derive(Clone, Copy, PartialEq, Eq, Structural, Debug)]
pub enum ProbeNext {
    /// Ask for this part.
    Ask(u32),
    /// All parts are known.
    Complete,
    /// There is no connection: the list is not to be taken as empty.
    NoConnection,
}

/// What is told where there is no connection.
pub const NO_CONNECTION: &'static str = "checking for Ajedrez parts — no network connection";

/// The search for the parts of the series, one after another until the first that is not
/// there.
pub struct Series {
    pub items: Vec<FeedItem>,
}

impl Series {
    /// The parts found so far are the first ones.
    pub open spec fn wf(&self) -> bool {
        self.items@.len() <= MAX_PARTS && item_views(self.items@) == first_parts(
            self.items@.len(),
        )
    }

    pub fn new() -> (s: Self)
        ensures
            s.wf(),
            s.items@.len() == 0,
    {
        let s = Series { items: Vec::new() };
        assert(item_views(s.items@) =~= first_parts(0));
        s
    }

    /// Which part is asked for first.
    pub fn start(&self) -> (n: ProbeNext)
        requires
            self.wf(),
        ensures
            n == (if self.items@.len() < MAX_PARTS {
                ProbeNext::Ask(self.items@.len() as u32)
            } else {
                ProbeNext::Complete
            }),
    {
        if self.items.len() < MAX_PARTS as usize {
            ProbeNext::Ask(self.items.len() as u32)
        } else {
            ProbeNext::Complete
        }
    }

    /// Takes the answer for the part that was asked for.
    pub fn answered(&mut self, answer: ProbeAnswer) -> (n: ProbeNext)
        requires
            old(self).wf(),
            old(self).items@.len() < MAX_PARTS,
        ensures
            final(self).wf(),
            final(self).items@.len() == old(self).items@.len() + (if answer == ProbeAnswer::Found {
                1int
            } else {
                0int
            }),
            n == (match answer {
                ProbeAnswer::Found => if final(self).items@.len() < MAX_PARTS {
                    ProbeNext::Ask(final(self).items@.len() as u32)
                } else {
                    ProbeNext::Complete
                },
                ProbeAnswer::Missing | ProbeAnswer::Failed => ProbeNext::Complete,
                ProbeAnswer::Offline => ProbeNext::NoConnection,
            }),
    {
        match answer {
            ProbeAnswer::Found => {
                let n: u32 = self.items.len() as u32;
                let ghost before = self.items@;
                let mut id: String = "AJ-OTB-PGN-".to_owned();
                push_three_digits(&mut id, n);
                let mut filename: String = id.clone();
                filename.append(".7z");
                let item = FeedItem {
                    external_id: id,
                    published: None,
                    url: otb_url(n),
                    filename,
                    db_id: None,
                    covers: None,
                };
                assert(item@ == part_of(n as nat));
                self.items.push(item);
                assert(item_views(self.items@) =~= item_views(before).push(item@));
                assert(item_views(self.items@) =~= first_parts((n + 1) as nat));
                self.start()
            },
            ProbeAnswer::Missing | ProbeAnswer::Failed => ProbeNext::Complete,
            ProbeAnswer::Offline => ProbeNext::NoConnection,
        }
    }
}

// ── The monthly files of Lichess ─────────────────────────────────────────────

/// The list of the monthly files.
pub const LIST_URL: &'static str = "https://database.lichess.org/broadcast/list.txt";

/// Whether a text is a month, as in `2024-05`.
pub open spec fn is_month_text(s: Seq<char>) -> bool {
    &&& s.len() == 7
    &&& s[4] == '-'
    &&& text::is_digit(s[0]) && text::is_digit(s[1]) && text::is_digit(s[2]) && text::is_digit(s[3])
    &&& text::is_digit(s[5]) && text::is_digit(s[6])
}

fn digit_at(s: &[char], i: usize) -> (b: bool)
    requires
        i < s.len(),
    ensures
        b == text::is_digit(s@[i as int]),
{
    '0' <= s[i] && s[i] <= '9'
}

/// Whether a text is a month.
pub fn is_month(s: &[char]) -> (b: bool)
    ensures
        b == is_month_text(s@),
{
    s.len() == 7 && s[4] == '-' && digit_at(s, 0) && digit_at(s, 1) && digit_at(s, 2) && digit_at(
        s,
        3,
    ) && digit_at(s, 5) && digit_at(s, 6)
}

/// The last part of an address: what stands behind its last `/`.
pub open spec fn last_part(url: Seq<char>) -> Seq<char>
    decreases url.len(),
{
    if url.len() == 0 || url.last() == '/' {
        Seq::empty()
    } else {
        last_part(url.drop_last()).push(url.last())
    }
}

proof fn lemma_last_part(url: Seq<char>, i: int)
    requires
        0 <= i <= url.len(),
        i > 0 ==> url[i - 1] == '/',
        forall|k: int| i <= k < url.len() ==> url[k] != '/',
    ensures
        last_part(url) == url.skip(i),
    decreases url.len(),
{
    if i < url.len() {
        assert(url[url.len() - 1] != '/');
        lemma_last_part(url.drop_last(), i);
        assert(url.drop_last().skip(i).push(url.last()) =~= url.skip(i));
    } else {
        assert(url.skip(i) =~= Seq::empty());
    }
}

fn file_name(url: &[char]) -> (r: Vec<char>)
    ensures
        r@ == last_part(url@),
{
    let mut i: usize = url.len();
    while i > 0 && url[i - 1] != '/'
        invariant
            i <= url.len(),
            forall|k: int| i <= k < url.len() ==> url@[k] != '/',
        decreases i,
    {
        i -= 1;
    }
    proof {
        lemma_last_part(url@, i as int);
    }
    let r: Vec<char> = slice(url, i, url.len());
    assert(r@ =~= url@.skip(i as int));
    r
}

/// The month in the name of a monthly file.
pub open spec fn month_in(filename: Seq<char>) -> Option<Seq<char>> {
    let p = "lichess_db_broadcast_"@;
    let e = ".pgn.zst"@;
    if !text::starts_with(filename, p) {
        None
    } else {
        let rest = filename.skip(p.len() as int);
        if !text::ends_with(rest, e) {
            None
        } else {
            let m = rest.take(rest.len() - e.len());
            if is_month_text(m) {
                Some(m)
            } else {
                None
            }
        }
    }
}

/// A monthly file. It covers its whole month; that no month has more than 31 days is good
/// enough for the last day.
pub open spec fn month_item(url: Seq<char>) -> Option<FeedItemView> {
    let name = last_part(url);
    match month_in(name) {
        None => None,
        Some(m) => Some(
            FeedItemView {
                external_id: m,
                published: Some(m + "-01"@),
                url,
                filename: name,
                db_id: None,
                covers: Some((m + "-01"@, m + "-31"@)),
            },
        ),
    }
}

/// The monthly files in the lines of the list. Other lines are passed over.
pub open spec fn month_items(lines: Seq<Seq<char>>) -> Seq<FeedItemView>
    decreases lines.len(),
{
    if lines.len() == 0 {
        Seq::empty()
    } else {
        let front = month_items(lines.drop_last());
        match month_item(text::trim(lines.last())) {
            Some(i) => front.push(i),
            None => front,
        }
    }
}

fn read_month(name: &[char]) -> (r: Option<String>)
    ensures
        reporter::opt_text(r) == month_in(name@),
{
    let p: Vec<char> = chars_of("lichess_db_broadcast_");
    let e: Vec<char> = chars_of(".pgn.zst");
    if !has_prefix(name, &p) {
        return None;
    }
    let rest: Vec<char> = slice(name, p.len(), name.len());
    assert(rest@ =~= name@.skip(p@.len() as int));
    if !has_suffix(&rest, &e) {
        return None;
    }
    let m: Vec<char> = slice(&rest, 0, rest.len() - e.len());
    assert(m@ =~= rest@.take(rest@.len() - e@.len()));
    if is_month(&m) {
        Some(string_of(&m))
    } else {
        None
    }
}

/// Reads the list of the monthly files.
pub fn parse_list(body: &str) -> (items: Vec<FeedItem>)
    ensures
        item_views(items@) == month_items(text::lines(body@)),
{
    let lines: Vec<String> = split_lines(&chars_of(body));
    let ghost all = text::lines(body@);
    let mut items: Vec<FeedItem> = Vec::new();
    let mut i: usize = 0;
    proof {
        assert(text::texts(lines@) == all);
        assert(lines@.len() == all.len());
        assert(all.take(0) =~= Seq::empty());
        assert(item_views(items@) =~= Seq::empty());
    }
    while i < lines.len()
        invariant
            i <= lines.len(),
            all == text::texts(lines@),
            lines@.len() == all.len(),
            item_views(items@) == month_items(all.take(i as int)),
        decreases lines.len() - i,
    {
        let ghost before = item_views(items@);
        proof {
            let t = all.take(i + 1);
            assert(t.drop_last() =~= all.take(i as int));
            assert(t.last() == lines@[i as int]@);
        }
        let url: Vec<char> = trim_chars(&chars_of(lines[i].as_str()));
        let name: Vec<char> = file_name(&url);
        match read_month(&name) {
            Some(month) => {
                let mut first: String = month.clone();
                first.append("-01");
                let mut last: String = month.clone();
                last.append("-31");
                let item = FeedItem {
                    external_id: month,
                    published: Some(first.clone()),
                    url: string_of(&url),
                    filename: string_of(&name),
                    db_id: None,
                    covers: Some((first, last)),
                };
                assert(month_item(url@) == Some(item@));
                items.push(item);
                assert(item_views(items@) =~= before.push(item@));
            },
            None => {},
        }
        i += 1;
    }
    assert(all.take(i as int) =~= all);
    items
}

/// Whether one month comes before another.
pub open spec fn earlier(a: Seq<char>, b: Seq<char>) -> bool {
    sorting::precedes(sorting::codes(a), sorting::codes(b))
}

/// The newest file: none is later, and of equal ones it is the last.
pub fn newest(items: &[FeedItem]) -> (r: Option<usize>)
    ensures
        match r {
            Some(n) => n < items.len() && (forall|k: int|
                0 <= k < items.len() ==> !earlier(
                    items@[n as int].external_id@,
                    (#[trigger] items@[k]).external_id@,
                )) && (forall|k: int|
                n < k < items.len() ==> earlier(
                    (#[trigger] items@[k]).external_id@,
                    items@[n as int].external_id@,
                )),
            None => items.len() == 0,
        },
{
    if items.len() == 0 {
        return None;
    }
    let mut best: usize = 0;
    let mut i: usize = 1;
    proof {
        let a = sorting::codes(items@[0].external_id@);
        sorting::law_order_is_strict(a, a, a);
    }
    while i < items.len()
        invariant
            best < i <= items.len(),
            forall|k: int|
                0 <= k < i ==> !earlier(
                    items@[best as int].external_id@,
                    (#[trigger] items@[k]).external_id@,
                ),
            forall|k: int|
                best < k < i ==> earlier(
                    (#[trigger] items@[k]).external_id@,
                    items@[best as int].external_id@,
                ),
        decreases items.len() - i,
    {
        let a: Vec<u64> = codes_of(items[i].external_id.as_str());
        let b: Vec<u64> = codes_of(items[best].external_id.as_str());
        let ghost ka = sorting::codes(items@[i as int].external_id@);
        let ghost kb = sorting::codes(items@[best as int].external_id@);
        proof {
            sorting::law_order_is_strict(ka, kb, ka);
            sorting::law_order_is_strict(ka, ka, ka);
        }
        if !comes_before(&a, &b) {
            proof {
                assert forall|k: int| 0 <= k < i + 1 implies !earlier(
                    items@[i as int].external_id@,
                    (#[trigger] items@[k]).external_id@,
                ) by {
                    let kk = sorting::codes(items@[k].external_id@);
                    if k < i && sorting::precedes(ka, kk) {
                        sorting::lemma_between(ka, kb, kk);
                    }
                }
            }
            best = i;
        }
        i += 1;
    }
    Some(best)
}

/// The day that chrono reads in a date as mail and HTTP write it, as in
/// `Tue, 1 Jul 2003 10:52:37 +0200`; `None` where it reads none.
pub uninterp spec fn mail_day(date: Seq<char>) -> Option<Seq<char>>;

/// `chrono::DateTime::parse_from_rfc2822`, and the day of its result as `DateTime::format`
/// writes it with `%Y-%m-%d`: a function of the text alone.
#[verifier::external_body]
fn day_of(date: &str) -> (r: Option<String>)
    ensures
        reporter::opt_text(r) == mail_day(date@),
{
    match chrono::DateTime::parse_from_rfc2822(date) {
        Ok(d) => Some(d.format("%Y-%m-%d").to_string()),
        Err(_) => None,
    }
}

/// The list once the server has been asked when the newest file was last changed. Where it
/// did not say so in a form that can be read, the list stays.
pub open spec fn dated(
    items: Seq<FeedItemView>,
    newest: int,
    day: Option<Seq<char>>,
) -> Seq<FeedItemView> {
    match day {
        Some(_) => items.update(newest, (FeedItemView { published: day, ..items[newest] })),
        None => items,
    }
}

/// Notes when the newest file was changed, as the server's answer says.
pub fn set_changed(items: &mut Vec<FeedItem>, newest: usize, last_modified: Option<&str>)
    requires
        newest < old(items).len(),
    ensures
        item_views(final(items)@) == dated(
            item_views(old(items)@),
            newest as int,
            match last_modified {
                Some(d) => mail_day(d@),
                None => None,
            },
        ),
{
    let day: Option<String> = match last_modified {
        Some(d) => day_of(d),
        None => None,
    };
    set_published(items, newest, day);
}

/// Notes the day on which a file was changed, if it is known.
pub fn set_published(items: &mut Vec<FeedItem>, place: usize, day: Option<String>)
    requires
        place < old(items).len(),
    ensures
        item_views(final(items)@) == dated(
            item_views(old(items)@),
            place as int,
            reporter::opt_text(day),
        ),
{
    let ghost before = items@;
    match day {
        Some(d) => {
            let mut item = items.remove(place);
            item.published = Some(d);
            items.insert(place, item);
            proof {
                assert(items@ =~= before.update(place as int, item));
                assert(item_views(items@) =~= dated(
                    item_views(before),
                    place as int,
                    Some(d@),
                ));
            }
        },
        None => {},
    }
}

/// A monthly file's name can be read back: it says the month again.
pub proof fn law_months_read_back(m: Seq<char>)
    requires
        is_month_text(m),
    ensures
        month_in("lichess_db_broadcast_"@ + m + ".pgn.zst"@) == Some(m),
{
    let p = "lichess_db_broadcast_"@;
    let e = ".pgn.zst"@;
    let name = p + m + e;
    assert(name.take(p.len() as int) =~= p);
    assert(name.subrange(0, p.len() as int) =~= p);
    let rest = name.skip(p.len() as int);
    assert(rest =~= m + e);
    assert(rest.skip(m.len() as int) =~= e);
    assert(rest.subrange(rest.len() - e.len(), rest.len() as int) =~= e);
    assert(rest.take(rest.len() - e.len()) =~= m);
}

/// The parts of the series have names of their own, with at least three digits.
pub proof fn law_parts_have_their_own_names(a: nat, b: nat)
    ensures
        a != b ==> part_id(a) != part_id(b),
        three_digits(a).len() >= 3,
        text::parse_nat(three_digits(a), a) == Some(a),
{
    reveal_strlit("0");
    reveal_strlit("00");
    lemma_three_digits(a);
    lemma_three_digits(b);
    let p = "AJ-OTB-PGN-"@;
    if part_id(a) == part_id(b) {
        assert(part_id(a).skip(p.len() as int) =~= three_digits(a));
        assert(part_id(b).skip(p.len() as int) =~= three_digits(b));
    }
}

proof fn lemma_three_digits(n: nat)
    ensures
        text::all_digits(three_digits(n)),
        text::digits_value(three_digits(n)) == n,
        three_digits(n).len() >= 3,
{
    reveal_strlit("0");
    reveal_strlit("00");
    text::lemma_dec_digits(n);
    let d = text::dec(n);
    let t = three_digits(n);
    assert forall|i: int| 0 <= i < t.len() implies text::is_digit(#[trigger] t[i]) by {
        let z = t.len() - d.len();
        if i >= z {
            assert(text::is_digit(d[i - z]));
        }
    }
    if n < 10 {
        assert(d.len() == 1);
        assert(t =~= seq!['0', '0', d[0]]);
        lemma_leading_zero(seq!['0', d[0]]);
        lemma_leading_zero(seq![d[0]]);
        assert(seq!['0'] + seq![d[0]] =~= seq!['0', d[0]]);
        assert(seq!['0'] + seq!['0', d[0]] =~= t);
        assert(seq![d[0]] =~= d);
    } else if n < 100 {
        text::lemma_dec_digits(n / 10);
        assert(d.len() == 2);
        lemma_leading_zero(d);
        assert("0"@ =~= seq!['0']);
    } else {
        text::lemma_dec_digits(n / 10);
        text::lemma_dec_digits(n / 10 / 10);
    }
}

proof fn lemma_leading_zero(s: Seq<char>)
    ensures
        text::digits_value(seq!['0'] + s) == text::digits_value(s),
    decreases s.len(),
{
    let t = seq!['0'] + s;
    if s.len() == 0 {
        assert(t.drop_last() =~= Seq::empty());
        assert(text::digits_value(t.drop_last()) == 0);
    } else {
        assert(t.drop_last() =~= seq!['0'] + s.drop_last());
        lemma_leading_zero(s.drop_last());
    }
}

/// A part of the series is an archive under its own name, and says nothing of its days.
pub proof fn law_parts_are_archives(n: nat)
    ensures
        part_of(n).external_id == part_id(n),
        part_of(n).filename == part_id(n) + ".7z"@,
        text::ends_with(part_of(n).url, part_id(n) + ".7z"@),
        part_of(n).published is None,
        part_of(n).covers is None,
        part_of(n).db_id is None,
{
    reveal_strlit("https://usc1.contabostorage.com/716916dc83654e5eb4d2059cde9bd53d:ajedrez/AJ-OTB-PGN-");
    reveal_strlit("AJ-OTB-PGN-");
    let u = part_url(n);
    let f = part_id(n) + ".7z"@;
    assert(u.skip(u.len() - f.len()) =~= f);
}

/// A monthly file is known by its month, covers it from the first day to the last, and keeps
/// its address and its name.
pub proof fn law_monthly_files_cover_their_month(base: Seq<char>, m: Seq<char>)
    requires
        is_month_text(m),
    ensures
        ({
            let name = "lichess_db_broadcast_"@ + m + ".pgn.zst"@;
            let url = base + seq!['/'] + name;
            month_item(url) matches Some(i) && i.external_id == m && i.url == url && i.filename
                == name && i.published == Some(m + "-01"@) && i.covers == Some(
                (m + "-01"@, m + "-31"@),
            )
        }),
{
    reveal_strlit("lichess_db_broadcast_");
    reveal_strlit(".pgn.zst");
    let p = "lichess_db_broadcast_"@;
    let e = ".pgn.zst"@;
    let name = p + m + e;
    let url = base + seq!['/'] + name;
    law_months_read_back(m);
    let k = base.len() as int + 1;
    assert forall|i: int| k <= i < url.len() implies url[i] != '/' by {
        let j = i - k;
        assert(url[i] == name[j]);
        if j < p.len() {
            assert(name[j] == p[j]);
        } else if j < p.len() + m.len() {
            assert(name[j] == m[j - p.len()]);
        } else {
            assert(name[j] == e[j - p.len() - m.len()]);
        }
    }
    lemma_last_part(url, k);
    assert(url.skip(k) =~= name);
}

/// Files that are listed come in the order of their lines, and lines that are no monthly file
/// are passed over.
pub proof fn law_lists_are_read_in_order(a: Seq<Seq<char>>, b: Seq<Seq<char>>)
    ensures
        month_items(a + b) == month_items(a) + month_items(b),
    decreases b.len(),
{
    if b.len() == 0 {
        assert(a + b =~= a);
        assert(month_items(a) + month_items(b) =~= month_items(a));
    } else {
        assert((a + b).drop_last() =~= a + b.drop_last());
        law_lists_are_read_in_order(a, b.drop_last());
        assert(month_items(a + b) =~= month_items(a) + month_items(b));
    }
}

/// The day of the last change goes to the newest file, and to nothing else.
pub proof fn law_only_the_newest_is_dated(
    items: Seq<FeedItemView>,
    newest: int,
    day: Seq<char>,
    k: int,
)
    requires
        0 <= newest < items.len(),
        0 <= k < items.len(),
    ensures
        dated(items, newest, Some(day)).len() == items.len(),
        k != newest ==> dated(items, newest, Some(day))[k] == items[k],
        dated(items, newest, Some(day))[newest].published == Some(day),
        dated(items, newest, Some(day))[newest].external_id == items[newest].external_id,
        dated(items, newest, Some(day))[newest].url == items[newest].url,
        dated(items, newest, Some(day))[newest].covers == items[newest].covers,
        dated(items, newest, None) == items,
{
}

/// What is told of a file is what the entry holds.
pub proof fn law_items_hold_what_is_told(i: FeedItem)
    ensures
        i@.external_id == i.external_id@,
        i@.url == i.url@,
        i@.filename == i.filename@,
        i@.db_id == i.db_id,
        i@.published == reporter::opt_text(i.published),
        i.covers matches Some(c) ==> i@.covers == Some((c.0@, c.1@)),
        i.covers is None ==> i@.covers is None,
{
}

/// The first parts of the series are numbered from 0 on.
pub proof fn law_parts_are_numbered(n: nat, k: int)
    requires
        0 <= k < n,
    ensures
        first_parts(n).len() == n,
        first_parts(n)[k].external_id == part_id(k as nat),
{
}

/// Of two months the one with the lower number, in the first place where they differ, is
/// earlier.
pub proof fn law_months_follow_each_other(a: Seq<char>, c: char, d: char, x: Seq<char>, y: Seq<char>)
    requires
        (c as u32) < (d as u32),
    ensures
        earlier(a + seq![c] + x, a + seq![d] + y),
        !earlier(a + seq![d] + y, a + seq![c] + x),
{
    sorting::law_texts_are_ordered_by_their_characters(a, c, d, x, y);
    let p = sorting::codes(a + seq![c] + x);
    let q = sorting::codes(a + seq![d] + y);
    sorting::law_order_is_strict(p, q, p);
}

} // verus!
