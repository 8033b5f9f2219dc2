//! Text handling shared by the rest of the library: characters, whitespace,
//! words and lines, joining, searching and replacing, decimal numbers.
//!
//! Every function here is stated over the sequence of characters that a string
//! shows through its view.
use vstd::prelude::*;
use vstd::string::*;

verus! {

// ── Trusted: std's string functions ──────────────────────────────────────────

/// `String::push` appends one character at the end of the string.
pub assume_specification[ String::push ](s: &mut String, c: char)
    ensures
        final(s)@ == old(s)@.push(c),
;

/// What `str::to_lowercase` returns for a given text.
pub uninterp spec fn lowercase(s: Seq<char>) -> Seq<char>;

/// `str::to_lowercase` gives the Unicode lowercase equivalent of a text, named
/// [`lowercase`] here. Of an ASCII text it is claimed, as std documents, that each
/// ASCII capital becomes its small letter and nothing else changes.
#[verifier::external_body]
pub(crate) fn to_lower(s: &str) -> (out: String)
    ensures
        out@ == lowercase(s@),
        is_ascii_text(s@) ==> out@ == ascii_lowercase(s@),
{
    s.to_lowercase()
}

/// What `char::is_alphanumeric` says of a character.
pub uninterp spec fn alphanumeric(c: char) -> bool;

/// `char::is_alphanumeric` tells letters and numbers, in the sense of Unicode, from
/// other characters, named [`alphanumeric`] here. Of an ASCII character it is claimed
/// that it is one exactly when it is a letter or a digit.
#[verifier::external_body]
pub(crate) fn is_alnum(c: char) -> (b: bool)
    ensures
        b == alphanumeric(c),
        (c as u32) < 128 ==> b == (is_ascii_letter(c) || is_digit(c)),
{
    c.is_alphanumeric()
}

/// How `format!` writes a text with `{:?}`: in quotes, with escapes.
pub uninterp spec fn debug_form(s: Seq<char>) -> Seq<char>;

/// `format!` with `{:?}` and a text, named [`debug_form`] here: a function of the text
/// alone.
#[verifier::external_body]
pub(crate) fn debug_text(s: &str) -> (out: String)
    ensures
        out@ == debug_form(s@),
{
    format!("{:?}", s)
}

/// `std::str::from_utf8` reads bytes as UTF-8, or refuses them if they are not.
#[verifier::external_body]
pub(crate) fn utf8_text(bytes: &[u8]) -> (r: Option<String>)
    ensures
        match r {
            Some(s) => vstd::utf8::valid_utf8(bytes@) && s@ == vstd::utf8::decode_utf8(bytes@),
            None => !vstd::utf8::valid_utf8(bytes@),
        },
{
    match std::str::from_utf8(bytes) {
        Ok(s) => Some(s.to_owned()),
        Err(_) => None,
    }
}

// ── Characters ───────────────────────────────────────────────────────────────

pub open spec fn is_digit(c: char) -> bool {
    '0' <= c <= '9'
}

pub open spec fn is_ascii_letter(c: char) -> bool {
    'a' <= c <= 'z' || 'A' <= c <= 'Z'
}

pub open spec fn is_ascii_text(s: Seq<char>) -> bool {
    forall|i: int| 0 <= i < s.len() ==> (#[trigger] s[i] as u32) < 128
}

pub open spec fn ascii_lower(c: char) -> char {
    if 'A' <= c <= 'Z' {
        ((c as u32 + 32) as u32) as char
    } else {
        c
    }
}

pub open spec fn ascii_lowercase(s: Seq<char>) -> Seq<char> {
    s.map_values(|c: char| ascii_lower(c))
}

/// Unicode's `White_Space` property.
pub open spec fn is_white(c: char) -> bool {
    let n = c as u32;
    ||| 9 <= n <= 13
    ||| n == 0x20
    ||| n == 0x85
    ||| n == 0xA0
    ||| n == 0x1680
    ||| 0x2000 <= n <= 0x200A
    ||| n == 0x2028
    ||| n == 0x2029
    ||| n == 0x202F
    ||| n == 0x205F
    ||| n == 0x3000
}

/// Whether `c` has Unicode's `White_Space` property.
pub fn white(c: char) -> (b: bool)
    ensures
        b == is_white(c),
{
    let n: u32 = c as u32;
    (9 <= n && n <= 13) || n == 0x20 || n == 0x85 || n == 0xA0 || n == 0x1680 || (0x2000 <= n
        && n <= 0x200A) || n == 0x2028 || n == 0x2029 || n == 0x202F || n == 0x205F || n == 0x3000
}

pub open spec fn digit_char(d: nat) -> char {
    (48 + d) as char
}

pub fn digit(d: u64) -> (c: char)
    requires
        d < 10,
    ensures
        c == digit_char(d as nat),
{
    let b: u8 = (48 + d) as u8;
    b as char
}

// ── Strings and character vectors ────────────────────────────────────────────

/// The characters of `s`, in order.
pub fn chars_of(s: &str) -> (out: Vec<char>)
    ensures
        out@ == s@,
{
    let mut out: Vec<char> = Vec::new();
    for c in it: s.chars()
        invariant
            out@ == it.seq().take(it.index() as int),
            it.seq() == s@,
    {
        out.push(c);
    }
    out
}

/// The string made of the characters `v`.
pub fn string_of(v: &[char]) -> (out: String)
    ensures
        out@ == v@,
{
    let mut out: String = String::new();
    let mut i: usize = 0;
    while i < v.len()
        invariant
            i <= v.len(),
            out@ == v@.take(i as int),
        decreases v.len() - i,
    {
        out.push(v[i]);
        i += 1;
        assert(v@.take(i as int) =~= v@.take(i - 1).push(v@[i - 1]));
    }
    assert(v@.take(i as int) =~= v@);
    out
}

/// Whether two texts are the same, character by character.
pub fn same(a: &str, b: &str) -> (r: bool)
    ensures
        r == (a@ == b@),
{
    same_chars(&chars_of(a), &chars_of(b))
}

pub fn same_chars(a: &[char], b: &[char]) -> (r: bool)
    ensures
        r == (a@ == b@),
{
    if a.len() != b.len() {
        return false;
    }
    let mut i: usize = 0;
    while i < a.len()
        invariant
            i <= a.len(),
            a.len() == b.len(),
            forall|j: int| 0 <= j < i ==> a@[j] == b@[j],
        decreases a.len() - i,
    {
        if a[i] != b[i] {
            return false;
        }
        i += 1;
    }
    assert(a@ =~= b@);
    true
}

/// The views of a list of strings.
pub open spec fn texts(v: Seq<String>) -> Seq<Seq<char>> {
    v.map_values(|s: String| s@)
}


// ── Pieces of a text ─────────────────────────────────────────────────────────

/// A copy of a list of strings.
pub fn clone_all(v: &[String]) -> (r: Vec<String>)
    ensures
        r@ == v@,
{
    let mut r: Vec<String> = Vec::new();
    let mut i: usize = 0;
    while i < v.len()
        invariant
            i <= v.len(),
            r@ == v@.take(i as int),
        decreases v.len() - i,
    {
        r.push(v[i].clone());
        i += 1;
        assert(r@ =~= v@.take(i as int));
    }
    assert(r@ =~= v@);
    r
}

/// Whether a text is in a list.
pub fn is_among(v: &[String], s: &str) -> (b: bool)
    ensures
        b == texts(v@).contains(s@),
{
    let ghost all = texts(v@);
    let mut i: usize = 0;
    while i < v.len()
        invariant
            i <= v.len(),
            all == texts(v@),
            forall|k: int| 0 <= k < i ==> #[trigger] all[k] != s@,
        decreases v.len() - i,
    {
        if same(v[i].as_str(), s) {
            assert(all[i as int] == s@);
            return true;
        }
        i += 1;
    }
    false
}

/// The part of `s` from `from` up to `to`.
pub fn slice(s: &[char], from: usize, to: usize) -> (out: Vec<char>)
    requires
        from <= to <= s.len(),
    ensures
        out@ == s@.subrange(from as int, to as int),
{
    let mut out: Vec<char> = Vec::new();
    let mut i: usize = from;
    while i < to
        invariant
            from <= i <= to <= s.len(),
            out@ == s@.subrange(from as int, i as int),
        decreases to - i,
    {
        out.push(s[i]);
        i += 1;
        assert(s@.subrange(from as int, i as int) =~= s@.subrange(from as int, i - 1).push(s@[i - 1]));
    }
    out
}

/// How many characters at the start of `s` satisfy `p`.
pub open spec fn lead(s: Seq<char>, p: spec_fn(char) -> bool) -> nat
    decreases s.len(),
{
    if s.len() == 0 || !p(s[0]) {
        0
    } else {
        1 + lead(s.skip(1), p)
    }
}

/// `s` without the characters at its end that satisfy `p`.
pub open spec fn cut_end(s: Seq<char>, p: spec_fn(char) -> bool) -> Seq<char>
    decreases s.len(),
{
    if s.len() == 0 || !p(s.last()) {
        s
    } else {
        cut_end(s.drop_last(), p)
    }
}

pub open spec fn whites() -> spec_fn(char) -> bool {
    |c: char| is_white(c)
}

pub open spec fn blacks() -> spec_fn(char) -> bool {
    |c: char| !is_white(c)
}

pub open spec fn trim_start(s: Seq<char>) -> Seq<char> {
    s.skip(lead(s, whites()) as int)
}

pub open spec fn trim_end(s: Seq<char>) -> Seq<char> {
    cut_end(s, whites())
}

/// `s` without the whitespace at either end.
pub open spec fn trim(s: Seq<char>) -> Seq<char> {
    trim_end(trim_start(s))
}

pub proof fn lemma_lead_bound(s: Seq<char>, p: spec_fn(char) -> bool)
    ensures
        lead(s, p) <= s.len(),
        forall|i: int| 0 <= i < lead(s, p) ==> p(#[trigger] s[i]),
        lead(s, p) < s.len() ==> !p(s[lead(s, p) as int]),
    decreases s.len(),
{
    if s.len() > 0 && p(s[0]) {
        lemma_lead_bound(s.skip(1), p);
        assert forall|i: int| 0 <= i < lead(s, p) implies p(#[trigger] s[i]) by {
            if i > 0 {
                assert(s.skip(1)[i - 1] == s[i]);
            }
        }
    }
}

/// `lead` is the one length that all of `s` before it satisfies `p` and what stands
/// there does not.
pub proof fn lemma_lead_is(s: Seq<char>, p: spec_fn(char) -> bool, n: nat)
    requires
        n <= s.len(),
        forall|i: int| 0 <= i < n ==> p(#[trigger] s[i]),
        n < s.len() ==> !p(s[n as int]),
    ensures
        lead(s, p) == n,
    decreases s.len(),
{
    if n > 0 {
        assert(p(s[0]));
        assert forall|i: int| 0 <= i < n - 1 implies p(#[trigger] s.skip(1)[i]) by {
            assert(s.skip(1)[i] == s[i + 1]);
        }
        lemma_lead_is(s.skip(1), p, (n - 1) as nat);
    }
}

pub proof fn lemma_cut_end(s: Seq<char>, p: spec_fn(char) -> bool)
    ensures
        cut_end(s, p).len() <= s.len(),
        cut_end(s, p) == s.take(cut_end(s, p).len() as int),
        cut_end(s, p).len() > 0 ==> !p(cut_end(s, p).last()),
        forall|i: int| cut_end(s, p).len() <= i < s.len() ==> p(#[trigger] s[i]),
    decreases s.len(),
{
    if s.len() > 0 && p(s.last()) {
        lemma_cut_end(s.drop_last(), p);
        let n = cut_end(s, p).len() as int;
        assert(s.drop_last().take(n) =~= s.take(n));
        assert forall|i: int| n <= i < s.len() implies p(#[trigger] s[i]) by {
            if i < s.len() - 1 {
                assert(s.drop_last()[i] == s[i]);
            }
        }
    } else {
        assert(s.take(s.len() as int) =~= s);
    }
}

/// `cut_end` is the one prefix that ends in no `p` and leaves only `p` behind.
pub proof fn lemma_cut_end_is(s: Seq<char>, p: spec_fn(char) -> bool, n: int)
    requires
        0 <= n <= s.len(),
        n > 0 ==> !p(s[n - 1]),
        forall|i: int| n <= i < s.len() ==> p(#[trigger] s[i]),
    ensures
        cut_end(s, p) == s.take(n),
    decreases s.len(),
{
    if n < s.len() {
        assert(p(s[s.len() - 1]));
        lemma_cut_end_is(s.drop_last(), p, n);
        assert(s.drop_last().take(n) =~= s.take(n));
    } else {
        assert(s.take(n) =~= s);
    }
}

/// The whitespace-free ends of `s`: `trim(s)` is `s` from the first to before the second.
pub fn trim_range(s: &[char]) -> (r: (usize, usize))
    ensures
        r.0 <= r.1 <= s.len(),
        s@.subrange(r.0 as int, r.1 as int) == trim(s@),
{
    let mut a: usize = 0;
    while a < s.len() && white(s[a])
        invariant
            a <= s.len(),
            forall|i: int| 0 <= i < a ==> is_white(#[trigger] s@[i]),
        decreases s.len() - a,
    {
        a += 1;
    }
    proof {
        lemma_lead_is(s@, whites(), a as nat);
    }
    let mut b: usize = s.len();
    while b > a && white(s[b - 1])
        invariant
            a <= b <= s.len(),
            forall|i: int| b <= i < s.len() ==> is_white(#[trigger] s@[i]),
        decreases b,
    {
        b -= 1;
    }
    proof {
        let t = s@.skip(a as int);
        assert forall|i: int| b - a <= i < t.len() implies whites()(#[trigger] t[i]) by {
            assert(t[i] == s@[i + a]);
        }
        lemma_cut_end_is(t, whites(), b - a);
        assert(t.take(b - a) =~= s@.subrange(a as int, b as int));
    }
    (a, b)
}

/// `s` without the whitespace at either end.
pub fn trimmed(s: &str) -> (out: String)
    ensures
        out@ == trim(s@),
{
    string_of(&trim_chars(&chars_of(s)))
}

pub fn trim_chars(s: &[char]) -> (out: Vec<char>)
    ensures
        out@ == trim(s@),
{
    let r = trim_range(s);
    slice(s, r.0, r.1)
}

/// The test for one character.
pub open spec fn is_char(c: char) -> spec_fn(char) -> bool {
    |x: char| x == c
}

/// `s` without the characters `c` at its end.
pub open spec fn trim_end_matches(s: Seq<char>, c: char) -> Seq<char> {
    cut_end(s, is_char(c))
}

pub fn trim_end_char(s: &[char], c: char) -> (out: Vec<char>)
    ensures
        out@ == trim_end_matches(s@, c),
{
    let mut b: usize = s.len();
    while b > 0 && s[b - 1] == c
        invariant
            b <= s.len(),
            forall|i: int| b <= i < s.len() ==> #[trigger] s@[i] == c,
        decreases b,
    {
        b -= 1;
    }
    proof {
        lemma_cut_end_is(s@, is_char(c), b as int);
        assert(s@.subrange(0, b as int) =~= s@.take(b as int));
    }
    slice(s, 0, b)
}

pub open spec fn trim_start_matches(s: Seq<char>, c: char) -> Seq<char> {
    s.skip(lead(s, is_char(c)) as int)
}

pub fn trim_start_char(s: &[char], c: char) -> (out: Vec<char>)
    ensures
        out@ == trim_start_matches(s@, c),
{
    let mut a: usize = 0;
    while a < s.len() && s[a] == c
        invariant
            a <= s.len(),
            forall|i: int| 0 <= i < a ==> #[trigger] s@[i] == c,
        decreases s.len() - a,
    {
        a += 1;
    }
    proof {
        lemma_lead_is(s@, is_char(c), a as nat);
        assert(s@.subrange(a as int, s@.len() as int) =~= s@.skip(a as int));
    }
    slice(s, a, s.len())
}

// ── Words ────────────────────────────────────────────────────────────────────

/// The maximal runs of non-white characters in `s`, in order.
pub open spec fn words(s: Seq<char>) -> Seq<Seq<char>>
    decreases s.len(),
{
    let t = trim_start(s);
    let n = lead(t, blacks()) as int;
    if n == 0 || n > t.len() || t.len() > s.len() {
        Seq::empty()
    } else {
        seq![t.take(n)] + words(t.skip(n))
    }
}

/// A text that starts with a word: that word comes first.
pub proof fn lemma_words_step(s: Seq<char>)
    ensures
        ({
            let t = trim_start(s);
            let n = lead(t, blacks()) as int;
            &&& t.len() <= s.len()
            &&& 0 <= n <= t.len()
            &&& n == 0 <==> t.len() == 0
            &&& words(s) == if t.len() == 0 {
                Seq::<Seq<char>>::empty()
            } else {
                seq![t.take(n)] + words(t.skip(n))
            }
        }),
{
    lemma_lead_bound(s, whites());
    let t = trim_start(s);
    lemma_lead_bound(t, blacks());
    if t.len() > 0 {
        assert(t[0] == s[lead(s, whites()) as int]);
        assert(!is_white(t[0]));
    }
}

/// The words of `s`: what stands between runs of whitespace.
pub fn split_words(s: &[char]) -> (out: Vec<String>)
    ensures
        texts(out@) == words(s@),
{
    let mut out: Vec<String> = Vec::new();
    let mut i: usize = 0;
    proof {
        assert(s@.skip(0) =~= s@);
        assert(texts(out@) =~= Seq::<Seq<char>>::empty());
    }
    loop
        invariant
            i <= s.len(),
            texts(out@) + words(s@.skip(i as int)) == words(s@),
        decreases s.len() - i,
    {
        let ghost rest = s@.skip(i as int);
        let mut a: usize = i;
        while a < s.len() && white(s[a])
            invariant
                i <= a <= s.len(),
                forall|k: int| i <= k < a ==> is_white(#[trigger] s@[k]),
            decreases s.len() - a,
        {
            a += 1;
        }
        let mut b: usize = a;
        while b < s.len() && !white(s[b])
            invariant
                a <= b <= s.len(),
                forall|k: int| a <= k < b ==> !is_white(#[trigger] s@[k]),
            decreases s.len() - b,
        {
            b += 1;
        }
        proof {
            assert forall|k: int| 0 <= k < a - i implies whites()(#[trigger] rest[k]) by {
                assert(rest[k] == s@[k + i]);
            }
            lemma_lead_is(rest, whites(), (a - i) as nat);
            let t = trim_start(rest);
            assert(t =~= s@.skip(a as int));
            assert forall|k: int| 0 <= k < b - a implies blacks()(#[trigger] t[k]) by {
                assert(t[k] == s@[k + a]);
            }
            lemma_lead_is(t, blacks(), (b - a) as nat);
            lemma_words_step(rest);
        }
        if a == b {
            proof {
                assert(texts(out@) + Seq::<Seq<char>>::empty() =~= texts(out@));
            }
            return out;
        }
        let w: String = string_of(&slice(s, a, b));
        proof {
            let t = s@.skip(a as int);
            assert(t.take(b - a) =~= s@.subrange(a as int, b as int));
            assert(t.skip(b - a) =~= s@.skip(b as int));
            assert(texts(out@.push(w)) =~= texts(out@).push(w@));
            assert(texts(out@).push(w@) + words(s@.skip(b as int)) =~= texts(out@) + (seq![w@] + words(
                s@.skip(b as int),
            )));
        }
        out.push(w);
        i = b;
    }
}

// ── Joining ──────────────────────────────────────────────────────────────────

/// The parts in order, with `sep` between each two.
pub open spec fn join(parts: Seq<Seq<char>>, sep: Seq<char>) -> Seq<char>
    decreases parts.len(),
{
    if parts.len() == 0 {
        Seq::empty()
    } else if parts.len() == 1 {
        parts[0]
    } else {
        join(parts.drop_last(), sep) + sep + parts.last()
    }
}

/// The parts in order, with `sep` between each two.
pub fn joined(parts: &[String], sep: &str) -> (out: String)
    ensures
        out@ == join(texts(parts@), sep@),
{
    let mut out: String = String::new();
    let mut i: usize = 0;
    while i < parts.len()
        invariant
            i <= parts.len(),
            out@ == join(texts(parts@.take(i as int)), sep@),
        decreases parts.len() - i,
    {
        if i > 0 {
            out.append(sep);
        }
        out.append(parts[i].as_str());
        proof {
            let before = texts(parts@.take(i as int));
            let after = texts(parts@.take(i + 1));
            assert(after.drop_last() =~= before);
            assert(after.last() == parts@[i as int]@);
            if i == 0 {
                assert(out@ =~= parts@[0]@);
            }
        }
        i += 1;
    }
    assert(parts@.take(i as int) =~= parts@);
    out
}


// ── Splitting ────────────────────────────────────────────────────────────────

/// The test for every character but one.
pub open spec fn not_char(c: char) -> spec_fn(char) -> bool {
    |x: char| x != c
}

/// Where `c` first stands in `s`; the length of `s` if it does not.
pub open spec fn index_of(s: Seq<char>, c: char) -> nat {
    lead(s, not_char(c))
}

/// Where `c` first stands in `s`; the length of `s` if it does not.
pub fn find_char(s: &[char], c: char) -> (n: usize)
    ensures
        n == index_of(s@, c),
        n <= s.len(),
        n < s.len() ==> s@[n as int] == c,
        forall|k: int| 0 <= k < n ==> s@[k] != c,
{
    let mut n: usize = 0;
    while n < s.len() && s[n] != c
        invariant
            n <= s.len(),
            forall|k: int| 0 <= k < n ==> #[trigger] s@[k] != c,
        decreases s.len() - n,
    {
        n += 1;
    }
    proof {
        lemma_lead_is(s@, not_char(c), n as nat);
    }
    n
}

/// The pieces of `s` between the characters `c`: one more than there are `c`.
pub open spec fn split_on(s: Seq<char>, c: char) -> Seq<Seq<char>>
    decreases s.len(),
{
    let n = index_of(s, c) as int;
    if n >= s.len() {
        seq![s]
    } else {
        seq![s.take(n)] + split_on(s.skip(n + 1), c)
    }
}

/// The pieces of `s` between the characters `c`.
pub fn split_char(s: &[char], c: char) -> (out: Vec<String>)
    ensures
        texts(out@) == split_on(s@, c),
        out.len() >= 1,
{
    let mut out: Vec<String> = Vec::new();
    let mut i: usize = 0;
    proof {
        assert(s@.skip(0) =~= s@);
        assert(texts(out@) + split_on(s@, c) =~= split_on(s@, c));
    }
    loop
        invariant
            i <= s.len(),
            texts(out@) + split_on(s@.skip(i as int), c) == split_on(s@, c),
        decreases s.len() - i,
    {
        let ghost rest = s@.skip(i as int);
        let mut b: usize = i;
        while b < s.len() && s[b] != c
            invariant
                i <= b <= s.len(),
                forall|k: int| i <= k < b ==> #[trigger] s@[k] != c,
            decreases s.len() - b,
        {
            b += 1;
        }
        proof {
            assert forall|k: int| 0 <= k < b - i implies not_char(c)(#[trigger] rest[k]) by {
                assert(rest[k] == s@[k + i]);
            }
            lemma_lead_is(rest, not_char(c), (b - i) as nat);
        }
        let w: String = string_of(&slice(s, i, b));
        let ghost had = texts(out@);
        out.push(w);
        proof {
            assert(texts(out@) =~= had.push(w@));
            assert(rest.take(b - i) =~= s@.subrange(i as int, b as int));
        }
        if b == s.len() {
            proof {
                assert(rest =~= w@);
                assert(had.push(w@) =~= had + seq![w@]);
            }
            return out;
        }
        proof {
            assert(rest.skip(b - i + 1) =~= s@.skip(b + 1));
            assert(had.push(w@) + split_on(s@.skip(b + 1), c) =~= had + (seq![w@] + split_on(
                s@.skip(b + 1),
                c,
            )));
        }
        i = b + 1;
    }
}

/// `s` without one carriage return at its end.
pub open spec fn strip_cr(s: Seq<char>) -> Seq<char> {
    if s.len() > 0 && s.last() == '\r' {
        s.drop_last()
    } else {
        s
    }
}

/// The lines of `s`: what a newline ends, without it and without a carriage return
/// just before it, and what follows the last newline unless that is empty.
pub open spec fn lines(s: Seq<char>) -> Seq<Seq<char>> {
    let pieces = split_on(s, '\n');
    let n = if pieces.last().len() == 0 {
        (pieces.len() - 1) as nat
    } else {
        pieces.len()
    };
    Seq::new(
        n,
        |i: int|
            if i < pieces.len() - 1 {
                strip_cr(pieces[i])
            } else {
                pieces[i]
            },
    )
}

/// The lines of `s`, without their line ends.
pub fn split_lines(s: &[char]) -> (out: Vec<String>)
    ensures
        texts(out@) == lines(s@),
{
    let pieces: Vec<String> = split_char(s, '\n');
    let mut out: Vec<String> = Vec::new();
    let mut i: usize = 0;
    let last: usize = pieces.len() - 1;
    let ghost all = split_on(s@, '\n');
    while i < last
        invariant
            i <= last,
            last == pieces.len() - 1,
            texts(pieces@) == all,
            texts(out@) == Seq::new(i as nat, |k: int| strip_cr(all[k])),
        decreases last - i,
    {
        let mut piece: Vec<char> = chars_of(pieces[i].as_str());
        assert(piece@ == all[i as int]);
        if piece.len() > 0 && piece[piece.len() - 1] == '\r' {
            piece.pop();
        }
        let line: String = string_of(&piece);
        let ghost had = texts(out@);
        out.push(line);
        assert(texts(out@) =~= had.push(line@));
        assert(had.push(line@) =~= Seq::new((i + 1) as nat, |k: int| strip_cr(all[k])));
        i += 1;
    }
    assert(pieces@[last as int]@ == all[last as int]);
    assert(all.last() == all[last as int]);
    if !pieces[last].as_str().is_empty() {
        let ghost had = texts(out@);
        out.push(pieces[last].clone());
        assert(texts(out@) =~= had.push(all[last as int]));
    }
    assert(texts(out@) =~= lines(s@));
    out
}

// ── Searching ────────────────────────────────────────────────────────────────

/// `pat` stands in `s` at position `i`.
pub open spec fn occurs_at(s: Seq<char>, pat: Seq<char>, i: int) -> bool {
    0 <= i && i + pat.len() <= s.len() && s.subrange(i, i + pat.len()) == pat
}

/// `pat` stands somewhere in `s`.
pub open spec fn contains(s: Seq<char>, pat: Seq<char>) -> bool {
    exists|i: int| #[trigger] occurs_at(s, pat, i)
}

pub open spec fn starts_with(s: Seq<char>, pat: Seq<char>) -> bool {
    pat.len() <= s.len() && s.take(pat.len() as int) == pat
}

pub open spec fn ends_with(s: Seq<char>, pat: Seq<char>) -> bool {
    pat.len() <= s.len() && s.skip(s.len() - pat.len()) == pat
}

pub fn is_at(s: &[char], pat: &[char], i: usize) -> (b: bool)
    requires
        i <= s.len(),
    ensures
        b == occurs_at(s@, pat@, i as int),
{
    if pat.len() > s.len() - i {
        return false;
    }
    let mut k: usize = 0;
    while k < pat.len()
        invariant
            k <= pat.len(),
            i + pat.len() <= s.len(),
            forall|j: int| 0 <= j < k ==> s@[i + j] == #[trigger] pat@[j],
        decreases pat.len() - k,
    {
        if s[i + k] != pat[k] {
            assert(s@.subrange(i as int, i + pat.len())[k as int] != pat@[k as int]);
            return false;
        }
        k += 1;
    }
    assert(s@.subrange(i as int, i + pat.len()) =~= pat@);
    true
}

pub fn has_prefix(s: &[char], pat: &[char]) -> (b: bool)
    ensures
        b == starts_with(s@, pat@),
{
    assert(pat@.len() <= s@.len() ==> s@.take(pat@.len() as int) =~= s@.subrange(
        0,
        pat@.len() as int,
    ));
    is_at(s, pat, 0)
}

pub fn has_suffix(s: &[char], pat: &[char]) -> (b: bool)
    ensures
        b == ends_with(s@, pat@),
{
    if pat.len() > s.len() {
        return false;
    }
    assert(s@.skip(s@.len() - pat@.len()) =~= s@.subrange(s@.len() - pat@.len(), s@.len() as int));
    is_at(s, pat, s.len() - pat.len())
}

/// Where `pat` first stands in `s`.
pub fn find(s: &[char], pat: &[char]) -> (r: Option<usize>)
    ensures
        match r {
            Some(i) => occurs_at(s@, pat@, i as int) && forall|k: int|
                0 <= k < i ==> !occurs_at(s@, pat@, k),
            None => !contains(s@, pat@),
        },
{
    let mut i: usize = 0;
    loop
        invariant
            i <= s.len(),
            forall|k: int| 0 <= k < i ==> !occurs_at(s@, pat@, k),
        decreases s.len() - i,
    {
        if is_at(s, pat, i) {
            return Some(i);
        }
        if i == s.len() {
            return None;
        }
        i += 1;
    }
}

/// Whether `pat` stands somewhere in `s`.
pub fn has(s: &[char], pat: &[char]) -> (b: bool)
    ensures
        b == contains(s@, pat@),
{
    find(s, pat).is_some()
}

/// `s` with each `from` turned into `to`.
pub open spec fn replace_char(s: Seq<char>, from: char, to: char) -> Seq<char> {
    s.map_values(
        |c: char|
            if c == from {
                to
            } else {
                c
            },
    )
}

pub fn replaced(s: &[char], from: char, to: char) -> (out: Vec<char>)
    ensures
        out@ == replace_char(s@, from, to),
{
    let mut out: Vec<char> = Vec::new();
    let mut i: usize = 0;
    while i < s.len()
        invariant
            i <= s.len(),
            out.len() == i,
            forall|k: int|
                0 <= k < i ==> out@[k] == (if s@[k] == from {
                    to
                } else {
                    s@[k]
                }),
        decreases s.len() - i,
    {
        if s[i] == from {
            out.push(to);
        } else {
            out.push(s[i]);
        }
        i += 1;
    }
    assert(out@ =~= replace_char(s@, from, to));
    out
}

/// `s` without the characters `c`.
pub open spec fn without_char(s: Seq<char>, c: char) -> Seq<char> {
    s.filter(not_char(c))
}

pub fn dropped(s: &[char], c: char) -> (out: Vec<char>)
    ensures
        out@ == without_char(s@, c),
{
    let mut out: Vec<char> = Vec::new();
    let mut i: usize = 0;
    while i < s.len()
        invariant
            i <= s.len(),
            out@ == without_char(s@.take(i as int), c),
        decreases s.len() - i,
    {
        proof {
            let t = s@.take(i + 1);
            assert(t.drop_last() =~= s@.take(i as int));
            assert(t.last() == s@[i as int]);
            reveal(Seq::filter);
        }
        if s[i] != c {
            out.push(s[i]);
        }
        i += 1;
    }
    assert(s@.take(i as int) =~= s@);
    out
}

// ── Decimal numbers ──────────────────────────────────────────────────────────

/// `n` written in decimal.
pub open spec fn dec(n: nat) -> Seq<char>
    decreases n,
{
    if n < 10 {
        seq![digit_char(n)]
    } else {
        dec(n / 10).push(digit_char(n % 10))
    }
}

/// `n` written in decimal, with a minus sign if it is negative.
pub open spec fn signed_dec(n: int) -> Seq<char> {
    if n < 0 {
        seq!['-'] + dec((-n) as nat)
    } else {
        dec(n as nat)
    }
}

/// `n` written in decimal.
pub fn decimal(n: u64) -> (out: String)
    ensures
        out@ == dec(n as nat),
    decreases n,
{
    if n < 10 {
        let mut out: String = String::new();
        out.push(digit(n));
        assert(out@ =~= dec(n as nat));
        out
    } else {
        let mut out: String = decimal(n / 10);
        out.push(digit(n % 10));
        out
    }
}

/// Appends `n` in decimal.
pub fn append_num(out: &mut String, n: u64)
    ensures
        final(out)@ == old(out)@ + dec(n as nat),
{
    let digits: String = decimal(n);
    out.append(digits.as_str());
}

/// `n` written in decimal, with a minus sign if it is negative.
pub fn signed_decimal(n: i64) -> (out: String)
    ensures
        out@ == signed_dec(n as int),
{
    if n < 0 {
        let mut out: String = String::new();
        out.push('-');
        let m: u64 = (-(n as i128)) as u64;
        let d: String = decimal(m);
        out.append(d.as_str());
        assert(out@ =~= signed_dec(n as int));
        out
    } else {
        decimal(n as u64)
    }
}

pub open spec fn all_digits(s: Seq<char>) -> bool {
    forall|i: int| 0 <= i < s.len() ==> is_digit(#[trigger] s[i])
}

/// The number that the digits `s` write.
pub open spec fn digits_value(s: Seq<char>) -> nat
    decreases s.len(),
{
    if s.len() == 0 {
        0
    } else {
        (digits_value(s.drop_last()) * 10 + (s.last() as nat - '0' as nat)) as nat
    }
}

/// The number that `s` writes in decimal, up to `max`: digits after an optional `+`.
pub open spec fn parse_nat(s: Seq<char>, max: nat) -> Option<nat> {
    let body = if s.len() > 0 && s[0] == '+' {
        s.skip(1)
    } else {
        s
    };
    if body.len() > 0 && all_digits(body) && digits_value(body) <= max {
        Some(digits_value(body))
    } else {
        None
    }
}

/// The number that `s` writes in decimal, from `-min` to `max`: digits after an
/// optional sign.
pub open spec fn parse_int(s: Seq<char>, min: nat, max: nat) -> Option<int> {
    if s.len() > 0 && s[0] == '-' {
        let body = s.skip(1);
        if body.len() > 0 && all_digits(body) && digits_value(body) <= min {
            Some(-(digits_value(body) as int))
        } else {
            None
        }
    } else {
        match parse_nat(s, max) {
            Some(n) => Some(n as int),
            None => None,
        }
    }
}

pub proof fn lemma_digits_value_grows(s: Seq<char>, n: int)
    requires
        0 <= n <= s.len(),
        all_digits(s),
    ensures
        digits_value(s.take(n)) <= digits_value(s),
    decreases s.len(),
{
    if n < s.len() {
        assert forall|i: int| 0 <= i < s.drop_last().len() implies is_digit(
            #[trigger] s.drop_last()[i],
        ) by {
            assert(s.drop_last()[i] == s[i]);
        }
        lemma_digits_value_grows(s.drop_last(), n);
        assert(s.drop_last().take(n) =~= s.take(n));
        assert(is_digit(s[s.len() - 1]));
    } else {
        assert(s.take(n) =~= s);
    }
}

/// The number written by the digits from `from` on, if there are any, they are all
/// digits, and it is at most `max`.
fn parse_digits(s: &[char], from: usize, max: u64) -> (r: Option<u64>)
    requires
        from <= s.len(),
    ensures
        ({
            let body = s@.skip(from as int);
            match r {
                Some(v) => body.len() > 0 && all_digits(body) && digits_value(body) == v && v
                    <= max,
                None => !(body.len() > 0 && all_digits(body) && digits_value(body) <= max),
            }
        }),
{
    if from == s.len() {
        return None;
    }
    let ghost body = s@.skip(from as int);
    let mut v: u64 = 0;
    let mut i: usize = from;
    while i < s.len()
        invariant
            from <= i <= s.len(),
            body == s@.skip(from as int),
            v <= max,
            all_digits(body.take(i - from)),
            digits_value(body.take(i - from)) == v,
        decreases s.len() - i,
    {
        let c: char = s[i];
        if !('0' <= c && c <= '9') {
            assert(body[i - from] == c);
            return None;
        }
        let d: u64 = (c as u32 - '0' as u32) as u64;
        let w: u128 = v as u128 * 10 + d as u128;
        proof {
            let t = body.take(i + 1 - from);
            assert(t.drop_last() =~= body.take(i - from));
            assert(t.last() == c);
            assert(digits_value(t) == w);
            assert forall|k: int| 0 <= k < t.len() implies is_digit(#[trigger] t[k]) by {
                if k < t.len() - 1 {
                    assert(t[k] == body.take(i - from)[k]);
                }
            }
            if w > max && all_digits(body) {
                lemma_digits_value_grows(body, i + 1 - from);
            }
        }
        if w > max as u128 {
            return None;
        }
        v = w as u64;
        i += 1;
    }
    assert(body.take(i - from) =~= body);
    Some(v)
}

/// The number that `s` writes in decimal, if it is at most `max`.
pub fn parse_unsigned(s: &[char], max: u64) -> (r: Option<u64>)
    ensures
        match r {
            Some(v) => parse_nat(s@, max as nat) == Some(v as nat) && v <= max,
            None => parse_nat(s@, max as nat) is None,
        },
{
    let from: usize = if s.len() > 0 && s[0] == '+' {
        1
    } else {
        0
    };
    assert(from == 0 ==> s@.skip(0) =~= s@);
    parse_digits(s, from, max)
}

/// The number that `s` writes in decimal, if it is from `-min` to `max`.
pub fn parse_signed(s: &[char], min: u64, max: u64) -> (r: Option<i128>)
    ensures
        match r {
            Some(v) => parse_int(s@, min as nat, max as nat) == Some(v as int) && -(min as int)
                <= v <= max,
            None => parse_int(s@, min as nat, max as nat) is None,
        },
{
    if s.len() > 0 && s[0] == '-' {
        match parse_digits(s, 1, min) {
            Some(v) => Some(-(v as i128)),
            None => None,
        }
    } else {
        match parse_unsigned(s, max) {
            Some(v) => Some(v as i128),
            None => None,
        }
    }
}

pub fn parse_u32(s: &[char]) -> (r: Option<u32>)
    ensures
        match r {
            Some(v) => parse_nat(s@, u32::MAX as nat) == Some(v as nat),
            None => parse_nat(s@, u32::MAX as nat) is None,
        },
{
    match parse_unsigned(s, u32::MAX as u64) {
        Some(v) => Some(v as u32),
        None => None,
    }
}

pub fn parse_u64(s: &[char]) -> (r: Option<u64>)
    ensures
        match r {
            Some(v) => parse_nat(s@, u64::MAX as nat) == Some(v as nat),
            None => parse_nat(s@, u64::MAX as nat) is None,
        },
{
    parse_unsigned(s, u64::MAX)
}

pub fn parse_i32(s: &[char]) -> (r: Option<i32>)
    ensures
        match r {
            Some(v) => parse_int(s@, 0x8000_0000, 0x7fff_ffff) == Some(v as int),
            None => parse_int(s@, 0x8000_0000, 0x7fff_ffff) is None,
        },
{
    match parse_signed(s, 0x8000_0000, 0x7fff_ffff) {
        Some(v) => Some(v as i32),
        None => None,
    }
}

pub fn parse_i64(s: &[char]) -> (r: Option<i64>)
    ensures
        match r {
            Some(v) => parse_int(s@, 0x8000_0000_0000_0000, 0x7fff_ffff_ffff_ffff) == Some(
                v as int,
            ),
            None => parse_int(s@, 0x8000_0000_0000_0000, 0x7fff_ffff_ffff_ffff) is None,
        },
{
    match parse_signed(s, 0x8000_0000_0000_0000, 0x7fff_ffff_ffff_ffff) {
        Some(v) => Some(v as i64),
        None => None,
    }
}

// ── Laws of numbers ──────────────────────────────────────────────────────────

pub proof fn lemma_dec_digits(n: nat)
    ensures
        all_digits(dec(n)),
        dec(n).len() >= 1,
        digits_value(dec(n)) == n,
    decreases n,
{
    if n < 10 {
        let s = dec(n);
        assert(s.drop_last() =~= Seq::<char>::empty());
        assert(digits_value(s.drop_last()) == 0);
        assert(s.last() == digit_char(n));
    } else {
        lemma_dec_digits(n / 10);
        let s = dec(n);
        assert(s.drop_last() =~= dec(n / 10));
        assert forall|i: int| 0 <= i < s.len() implies is_digit(#[trigger] s[i]) by {
            if i < s.len() - 1 {
                assert(s[i] == dec(n / 10)[i]);
            }
        }
    }
}

/// A number written in decimal reads back as itself, wherever it fits.
pub proof fn law_decimal_reads_back(n: nat, max: nat)
    requires
        n <= max,
    ensures
        parse_nat(dec(n), max) == Some(n),
{
    lemma_dec_digits(n);
    assert(is_digit(dec(n)[0]));
}

/// A decimal number has no whitespace in it, so it is one word and trims to itself.
pub proof fn law_decimal_is_one_word(n: nat)
    ensures
        words(dec(n)) == seq![dec(n)],
        trim(dec(n)) == dec(n),
{
    lemma_dec_digits(n);
    let s = dec(n);
    assert(is_digit(s[0]));
    lemma_lead_is(s, whites(), 0);
    assert(trim_start(s) =~= s);
    assert forall|i: int| 0 <= i < s.len() implies blacks()(#[trigger] s[i]) by {
        assert(is_digit(s[i]));
    }
    lemma_lead_is(s, blacks(), s.len());
    lemma_words_step(s);
    assert(s.skip(s.len() as int) =~= Seq::<char>::empty());
    lemma_words_step(Seq::empty());
    assert(s.take(s.len() as int) =~= s);
    assert(words(s) =~= seq![s]);
    assert(is_digit(s[s.len() - 1]));
    lemma_cut_end_is(s, whites(), s.len() as int);
}


/// Two decimal numbers with a blank between them are two words.
pub proof fn law_two_decimals_are_two_words(a: nat, b: nat)
    ensures
        words(dec(a) + " "@ + dec(b)) == seq![dec(a), dec(b)],
{
    reveal_strlit(" ");
    lemma_dec_digits(a);
    lemma_dec_digits(b);
    let x = dec(a);
    let y = dec(b);
    let s = x + " "@ + y;
    assert(is_digit(x[0]));
    assert(s[0] == x[0]);
    lemma_lead_is(s, whites(), 0);
    assert(trim_start(s) =~= s);
    assert forall|i: int| 0 <= i < x.len() implies blacks()(#[trigger] s[i]) by {
        assert(s[i] == x[i]);
        assert(is_digit(x[i]));
    }
    assert(s[x.len() as int] == ' ');
    lemma_lead_is(s, blacks(), x.len());
    lemma_words_step(s);
    assert(s.take(x.len() as int) =~= x);
    let rest = s.skip(x.len() as int);
    assert(rest[0] == ' ');
    assert(is_digit(y[0]));
    assert(rest[1] == y[0]);
    lemma_lead_is(rest, whites(), 1);
    let t = trim_start(rest);
    assert(t =~= y);
    law_decimal_is_one_word(b);
    assert forall|i: int| 0 <= i < y.len() implies blacks()(#[trigger] y[i]) by {
        assert(is_digit(y[i]));
    }
    lemma_lead_is(y, blacks(), y.len());
    lemma_words_step(rest);
    assert(y.take(y.len() as int) =~= y);
    assert(y.skip(y.len() as int) =~= Seq::<char>::empty());
    lemma_words_step(Seq::empty());
    assert(words(rest) =~= seq![y]);
    assert(words(s) =~= seq![x, y]);
}

// ── Laws of texts ────────────────────────────────────────────────────────────

/// A text with no white space in it, and something else.
pub open spec fn is_word(w: Seq<char>) -> bool {
    w.len() > 0 && forall|i: int| 0 <= i < w.len() ==> !is_white(#[trigger] w[i])
}

/// Parts that are joined: the first comes first.
pub proof fn lemma_join_front(parts: Seq<Seq<char>>, sep: Seq<char>)
    requires
        parts.len() >= 2,
    ensures
        join(parts, sep) == parts[0] + sep + join(parts.skip(1), sep),
    decreases parts.len(),
{
    let rest = parts.skip(1);
    assert(rest.last() == parts.last());
    if parts.len() == 2 {
        assert(join(parts.drop_last(), sep) == parts[0]);
        assert(join(rest, sep) == parts.last());
        assert(join(parts, sep) =~= parts[0] + sep + join(rest, sep));
    } else {
        let front = parts.drop_last();
        lemma_join_front(front, sep);
        assert(front.skip(1) =~= rest.drop_last());
        assert(join(parts, sep) =~= parts[0] + sep + join(rest, sep));
    }
}

pub proof fn lemma_word_first(w: Seq<char>, rest: Seq<char>)
    requires
        is_word(w),
        rest.len() == 0 || is_white(rest[0]),
    ensures
        words(w + rest) == seq![w] + words(rest),
{
    let s = w + rest;
    assert(s[0] == w[0]);
    lemma_lead_is(s, whites(), 0);
    assert(trim_start(s) =~= s);
    assert forall|i: int| 0 <= i < w.len() implies blacks()(#[trigger] s[i]) by {
        assert(s[i] == w[i]);
    }
    if rest.len() > 0 {
        assert(s[w.len() as int] == rest[0]);
    }
    lemma_lead_is(s, blacks(), w.len());
    lemma_words_step(s);
    assert(s.take(w.len() as int) =~= w);
    assert(s.skip(w.len() as int) =~= rest);
}

pub proof fn lemma_white_first(c: char, rest: Seq<char>)
    requires
        is_white(c),
    ensures
        words(seq![c] + rest) == words(rest),
{
    let s = seq![c] + rest;
    assert(s.skip(1) =~= rest);
    assert(lead(s, whites()) == 1 + lead(rest, whites()));
    lemma_lead_bound(rest, whites());
    assert(trim_start(s) =~= trim_start(rest));
    lemma_words_step(s);
    lemma_words_step(rest);
}

/// White space is what separates words: blanks, tabs and the ends of lines, and no letter,
/// digit or other visible character of ASCII.
pub proof fn law_white_space_of_ascii(c: char)
    requires
        (c as u32) < 128,
    ensures
        is_white(c) <==> c == ' ' || c == '\t' || c == '\n' || c == '\r' || c as u32 == 11 || c as u32
            == 12,
{
}

/// Words that are joined with blanks are the words of what comes out: none is lost, none is
/// added, and they keep their order.
pub proof fn law_joined_words_come_apart(ws: Seq<Seq<char>>)
    requires
        forall|i: int| 0 <= i < ws.len() ==> is_word(#[trigger] ws[i]),
    ensures
        words(join(ws, " "@)) == ws,
    decreases ws.len(),
{
    reveal_strlit(" ");
    if ws.len() == 0 {
        lemma_words_step(Seq::empty());
        assert(ws =~= Seq::empty());
    } else if ws.len() == 1 {
        assert(is_word(ws[0]));
        lemma_word_first(ws[0], Seq::empty());
        lemma_words_step(Seq::empty());
        assert(ws[0] + Seq::<char>::empty() =~= ws[0]);
        assert(seq![ws[0]] + Seq::<Seq<char>>::empty() =~= ws);
    } else {
        let rest = ws.skip(1);
        assert forall|i: int| 0 <= i < rest.len() implies is_word(#[trigger] rest[i]) by {
            assert(is_word(ws[i + 1]));
        }
        law_joined_words_come_apart(rest);
        lemma_join_front(ws, " "@);
        assert(is_word(ws[0]));
        let tail = seq![' '] + join(rest, " "@);
        assert(" "@ =~= seq![' ']);
        assert(join(ws, " "@) =~= ws[0] + tail);
        lemma_word_first(ws[0], tail);
        lemma_white_first(' ', join(rest, " "@));
        assert(seq![ws[0]] + rest =~= ws);
    }
}

/// The words of a text have no white space in them, and none is empty.
pub proof fn law_words_are_words(s: Seq<char>, i: int)
    requires
        0 <= i < words(s).len(),
    ensures
        is_word(words(s)[i]),
    decreases s.len(),
{
    lemma_words_step(s);
    let t = trim_start(s);
    let n = lead(t, blacks()) as int;
    lemma_lead_bound(t, blacks());
    if i == 0 {
        let w = t.take(n);
        assert(words(s)[0] == w);
        assert forall|k: int| 0 <= k < w.len() implies !is_white(#[trigger] w[k]) by {
            assert(blacks()(t[k]));
        }
    } else {
        assert(words(s)[i] == words(t.skip(n))[i - 1]);
        law_words_are_words(t.skip(n), i - 1);
    }
}

/// Trimming takes away the white space at both ends, all of it, and nothing else.
pub proof fn law_trim_leaves_the_middle(a: Seq<char>, t: Seq<char>, b: Seq<char>)
    requires
        forall|i: int| 0 <= i < a.len() ==> is_white(#[trigger] a[i]),
        forall|i: int| 0 <= i < b.len() ==> is_white(#[trigger] b[i]),
        t.len() > 0 ==> !is_white(t[0]) && !is_white(t.last()),
    ensures
        trim(a + t + b) == t,
{
    let s = a + t + b;
    if t.len() == 0 {
        assert forall|i: int| 0 <= i < s.len() implies whites()(#[trigger] s[i]) by {
            if i < a.len() {
                assert(s[i] == a[i]);
            } else {
                assert(s[i] == b[i - a.len()]);
            }
        }
        lemma_lead_is(s, whites(), s.len());
        assert(trim_start(s) =~= Seq::empty());
        assert(trim(s) =~= t);
    } else {
        assert forall|i: int| 0 <= i < a.len() implies whites()(#[trigger] s[i]) by {
            assert(s[i] == a[i]);
        }
        assert(s[a.len() as int] == t[0]);
        lemma_lead_is(s, whites(), a.len());
        let m = trim_start(s);
        assert(m =~= t + b);
        assert forall|i: int| t.len() <= i < m.len() implies whites()(#[trigger] m[i]) by {
            assert(m[i] == b[i - t.len()]);
        }
        assert(m[t.len() - 1] == t.last());
        lemma_cut_end_is(m, whites(), t.len() as int);
        assert(m.take(t.len() as int) =~= t);
    }
}

/// The pieces of a text between the characters that separate them make the text again, and
/// none of them has the separator in it.
pub proof fn law_pieces_make_the_text(s: Seq<char>, c: char)
    ensures
        join(split_on(s, c), seq![c]) == s,
        split_on(s, c).len() > 0,
        forall|i: int| 0 <= i < split_on(s, c).len() ==> !(#[trigger] split_on(s, c)[i]).contains(c),
    decreases s.len(),
{
    let n = index_of(s, c) as int;
    lemma_lead_bound(s, not_char(c));
    let p = split_on(s, c);
    if n >= s.len() {
        assert forall|i: int| 0 <= i < p.len() implies !(#[trigger] p[i]).contains(c) by {
            assert forall|k: int| 0 <= k < s.len() implies s[k] != c by {
                assert(not_char(c)(s[k]));
            }
        }
    } else {
        let rest = s.skip(n + 1);
        law_pieces_make_the_text(rest, c);
        let first = s.take(n);
        assert(p =~= seq![first] + split_on(rest, c));
        assert(p.skip(1) =~= split_on(rest, c));
        lemma_join_front(p, seq![c]);
        assert(!not_char(c)(s[n]));
        assert(join(p, seq![c]) =~= s);
        assert forall|i: int| 0 <= i < p.len() implies !(#[trigger] p[i]).contains(c) by {
            if i == 0 {
                assert forall|k: int| 0 <= k < first.len() implies first[k] != c by {
                    assert(not_char(c)(s[k]));
                }
            } else {
                assert(p[i] == split_on(rest, c)[i - 1]);
            }
        }
    }
}

/// Pieces without a character that are joined with it are the pieces between it.
pub proof fn law_joined_pieces_come_apart(parts: Seq<Seq<char>>, c: char)
    requires
        parts.len() > 0,
        forall|i: int| 0 <= i < parts.len() ==> !(#[trigger] parts[i]).contains(c),
    ensures
        split_on(join(parts, seq![c]), c) == parts,
    decreases parts.len(),
{
    let s = join(parts, seq![c]);
    assert(!parts[0].contains(c));
    assert forall|k: int| 0 <= k < parts[0].len() implies not_char(c)(#[trigger] parts[0][k]) by {
        if parts[0][k] == c {
            assert(parts[0].contains(c));
        }
    }
    if parts.len() == 1 {
        assert(s == parts[0]);
        lemma_lead_is(s, not_char(c), s.len());
        assert(split_on(s, c) =~= parts);
    } else {
        lemma_join_front(parts, seq![c]);
        let rest = parts.skip(1);
        assert forall|i: int| 0 <= i < rest.len() implies !(#[trigger] rest[i]).contains(c) by {
            assert(!parts[i + 1].contains(c));
        }
        law_joined_pieces_come_apart(rest, c);
        let n = parts[0].len();
        assert forall|k: int| 0 <= k < n implies not_char(c)(#[trigger] s[k]) by {
            assert(s[k] == parts[0][k]);
        }
        assert(s[n as int] == c);
        lemma_lead_is(s, not_char(c), n);
        assert(s.take(n as int) =~= parts[0]);
        assert(s.skip(n as int + 1) =~= join(rest, seq![c]));
        assert(split_on(s, c) =~= parts);
    }
}

/// Lines, each ended by a newline, are the lines of the text that they make, whatever is in
/// them but the marks that end lines.
pub proof fn law_lines_come_apart(ls: Seq<Seq<char>>)
    requires
        forall|i: int|
            0 <= i < ls.len() ==> !(#[trigger] ls[i]).contains('\n') && !(ls[i].len() > 0 && ls[i].last()
                == '\r'),
    ensures
        ls.len() > 0 ==> lines(join(ls, seq!['\n']) + seq!['\n']) == ls,
        ls.len() > 0 && ls.last().len() > 0 ==> lines(join(ls, seq!['\n'])) == ls,
        lines(Seq::empty()) == Seq::<Seq<char>>::empty(),
{
    let c = '\n';
    if ls.len() > 0 {
        let more = ls.push(Seq::empty());
        assert(more.drop_last() =~= ls);
        assert(join(more, seq![c]) =~= join(ls, seq![c]) + seq![c]);
        assert forall|i: int| 0 <= i < more.len() implies !(#[trigger] more[i]).contains(c) by {
            if i < ls.len() {
                assert(!ls[i].contains(c));
            }
        }
        law_joined_pieces_come_apart(more, c);
        assert(lines(join(ls, seq![c]) + seq![c]) =~= ls);
        law_joined_pieces_come_apart(ls, c);
        if ls.last().len() > 0 {
            assert(lines(join(ls, seq![c])) =~= ls);
        }
    }
    let none = Seq::<char>::empty();
    lemma_lead_is(none, not_char(c), 0);
    assert(split_on(none, c) =~= seq![none]);
    assert(lines(none) =~= Seq::<Seq<char>>::empty());
}

/// A number with its sign reads back as itself, wherever it fits.
pub proof fn law_signed_decimal_reads_back(n: int, min: nat, max: nat)
    requires
        -min <= n <= max,
    ensures
        parse_int(signed_dec(n), min, max) == Some(n),
{
    if n < 0 {
        lemma_dec_digits((-n) as nat);
        let s = signed_dec(n);
        assert(s.skip(1) =~= dec((-n) as nat));
    } else {
        lemma_dec_digits(n as nat);
        assert(is_digit(dec(n as nat)[0]));
    }
}

/// A number is refused exactly where it is too large, and a text where it is none.
pub proof fn law_only_numbers_are_read(s: Seq<char>, max: nat)
    ensures
        parse_nat(s, max) matches Some(n) ==> n <= max,
        s.len() == 0 ==> parse_nat(s, max) is None,
        forall|i: int|
            0 <= i < s.len() && !is_digit(#[trigger] s[i]) && !(i == 0 && s[i] == '+') ==> parse_nat(
                s,
                max,
            ) is None,
{
    assert forall|i: int|
        0 <= i < s.len() && !is_digit(#[trigger] s[i]) && !(i == 0 && s[i] == '+') implies parse_nat(
        s,
        max,
    ) is None by {
        if s[0] == '+' {
            if i > 0 {
                assert(s.skip(1)[i - 1] == s[i]);
            }
        }
    }
}

/// Replacing a character changes it wherever it stands, and nothing else.
pub proof fn law_only_one_character_is_replaced(s: Seq<char>, from: char, to: char, i: int)
    requires
        0 <= i < s.len(),
    ensures
        replace_char(s, from, to).len() == s.len(),
        s[i] == from ==> replace_char(s, from, to)[i] == to,
        s[i] != from ==> replace_char(s, from, to)[i] == s[i],
{
}

/// A text begins, ends with and holds another exactly where it is made of it and something
/// before or behind.
pub proof fn law_parts_are_found(a: Seq<char>, p: Seq<char>, b: Seq<char>)
    ensures
        starts_with(p + b, p),
        ends_with(a + p, p),
        contains(a + p + b, p),
{
    assert((p + b).take(p.len() as int) =~= p);
    assert((a + p).skip(a.len() as int) =~= p);
    let s = a + p + b;
    assert(s.subrange(a.len() as int, (a.len() + p.len()) as int) =~= p);
    assert(occurs_at(s, p, a.len() as int));
}

/// Two numbers have one spelling only if they are one number.
pub proof fn law_decimals_differ(a: nat, b: nat)
    ensures
        dec(a) == dec(b) ==> a == b,
        signed_dec(a as int) == dec(a),
{
    lemma_dec_digits(a);
    lemma_dec_digits(b);
}

/// Capitals of ASCII become their small letters, which stand so far behind them, and nothing
/// else changes.
pub proof fn law_ascii_letters_become_small(s: Seq<char>, i: int)
    requires
        0 <= i < s.len(),
    ensures
        ascii_lowercase(s).len() == s.len(),
        'A' <= s[i] <= 'Z' ==> ascii_lowercase(s)[i] as u32 == s[i] as u32 + 32,
        !('A' <= s[i] <= 'Z') ==> ascii_lowercase(s)[i] == s[i],
        ascii_lowercase(ascii_lowercase(s)) == ascii_lowercase(s),
{
    assert(ascii_lowercase(ascii_lowercase(s)) =~= ascii_lowercase(s));
}

/// A digit is one of the ten.
pub proof fn law_there_are_ten_digits(c: char)
    ensures
        is_digit(c) <==> '0' as u32 <= c as u32 <= '0' as u32 + 9,
        is_ascii_letter(c) ==> !is_digit(c),
{
}

/// A text begins with, ends in or holds another only if it is made so.
pub proof fn law_only_parts_are_found(s: Seq<char>, p: Seq<char>)
    ensures
        starts_with(s, p) ==> s == p + s.skip(p.len() as int),
        ends_with(s, p) ==> s == s.take(s.len() - p.len()) + p,
        contains(s, p) ==> exists|a: Seq<char>, b: Seq<char>| s == #[trigger] (a + p + b),
{
    if starts_with(s, p) {
        assert(s =~= s.take(p.len() as int) + s.skip(p.len() as int));
    }
    if ends_with(s, p) {
        let n = s.len() - p.len();
        assert(s =~= s.take(n) + s.skip(n));
    }
    if contains(s, p) {
        let i = choose|i: int| #[trigger] occurs_at(s, p, i);
        let a = s.take(i);
        let b = s.skip(i + p.len());
        assert(s =~= a + s.subrange(i, i + p.len()) + b);
        assert(s == a + p + b);
    }
}

/// The white space beyond ASCII.
pub proof fn law_white_space_beyond_ascii(c: char)
    requires
        c as u32 >= 128,
    ensures
        is_white(c) <==> c as u32 == 0x85 || c as u32 == 0xA0 || c as u32 == 0x1680 || 0x2000
            <= c as u32 <= 0x200A || c as u32 == 0x2028 || c as u32 == 0x2029 || c as u32 == 0x202F
            || c as u32 == 0x205F || c as u32 == 0x3000,
{
}

} // verus!
