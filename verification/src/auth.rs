//! The access token of a server that other machines can reach.
use crate::importer::lower_ascii;
use crate::paths;
use crate::paths::{join_path, parent_dir};
use crate::reporter;
use crate::text;
use crate::text::{
    chars_of, same, slice, string_of, trim_end_char, trim_start_char, trimmed,
};
use vstd::prelude::*;
use vstd::string::*;
use vstd::utf8::*;

verus! {

/// The header that carries the token.
pub const TOKEN_HEADER: &'static str = "x-lpdo-token";

/// How many random bytes a token is made of.
pub const TOKEN_BYTES: usize = 20;

/// Where the token of a database is kept: beside it.
pub open spec fn token_place(db: Seq<char>) -> Seq<char> {
    paths::join_of(
        match paths::parent_of(db) {
            Some(dir) => dir,
            None => "."@,
        },
        "access-token"@,
    )
}

/// The file that holds the token.
pub fn token_path(db: &str) -> (r: String)
    ensures
        r@ == token_place(db@),
{
    match parent_dir(db) {
        Some(dir) => join_path(dir.as_str(), "access-token"),
        None => join_path(".", "access-token"),
    }
}

/// The token in what the file holds: its text without white space at the ends, unless
/// nothing is left.
pub open spec fn token_in(content: Seq<char>) -> Option<Seq<char>> {
    if text::trim(content).len() == 0 {
        None
    } else {
        Some(text::trim(content))
    }
}

/// Reads the token out of what the file holds. Where there is none, a new one has to be
/// made.
pub fn read_token(content: &str) -> (r: Option<String>)
    ensures
        reporter::opt_text(r) == token_in(content@),
{
    let t: String = trimmed(content);
    if t.as_str().is_empty() {
        None
    } else {
        Some(t)
    }
}

/// What the file holds for a token.
pub fn token_file(token: &str) -> (r: String)
    ensures
        r@ == token@ + "\n"@,
{
    let mut r: String = token.to_owned();
    r.append("\n");
    r
}

/// The digit of a number below 16.
pub open spec fn hex_digit(d: int) -> char {
    if d < 10 {
        (48 + d) as char
    } else {
        (87 + d) as char
    }
}

/// Bytes in hexadecimal, two digits each.
pub open spec fn hex(bytes: Seq<u8>) -> Seq<char>
    decreases bytes.len(),
{
    if bytes.len() == 0 {
        Seq::empty()
    } else {
        hex(bytes.drop_last()).push(hex_digit(bytes.last() as int / 16)).push(
            hex_digit(bytes.last() as int % 16),
        )
    }
}

fn hex_char(d: u8) -> (c: char)
    requires
        d < 16,
    ensures
        c == hex_digit(d as int),
{
    let b: u8 = if d < 10 {
        48 + d
    } else {
        87 + d
    };
    b as char
}

/// Writes bytes in hexadecimal.
pub fn to_hex(bytes: &[u8]) -> (r: String)
    ensures
        r@ == hex(bytes@),
{
    let mut out: Vec<char> = Vec::new();
    let mut i: usize = 0;
    assert(bytes@.take(0) =~= Seq::empty());
    while i < bytes.len()
        invariant
            i <= bytes.len(),
            out@ == hex(bytes@.take(i as int)),
        decreases bytes.len() - i,
    {
        let b: u8 = bytes[i];
        out.push(hex_char(b / 16));
        out.push(hex_char(b % 16));
        i += 1;
        proof {
            let t = bytes@.take(i as int);
            assert(t.drop_last() =~= bytes@.take(i - 1));
            assert(t.last() == b);
        }
    }
    assert(bytes@.take(i as int) =~= bytes@);
    string_of(&out)
}

/// `getrandom::fill`: fills the buffer with bytes from the operating system's source of
/// randomness, or fails. The buffer keeps its length; nothing is said of the bytes.
#[verifier::external_body]
fn fill_random(buf: &mut Vec<u8>) -> (ok: bool)
    ensures
        final(buf)@.len() == old(buf)@.len(),
{
    getrandom::fill(buf.as_mut_slice()).is_ok()
}

/// Whether a text is a token as they are made: 160 bits in hexadecimal.
pub open spec fn is_fresh_token(t: Seq<char>) -> bool {
    exists|bytes: Seq<u8>| bytes.len() == TOKEN_BYTES && t == #[trigger] hex(bytes)
}

/// The token that bytes make, where they were filled in.
pub fn token_of(filled: bool, bytes: &[u8]) -> (r: Option<String>)
    ensures
        reporter::opt_text(r) == (if filled {
            Some(hex(bytes@))
        } else {
            None
        }),
{
    if filled {
        Some(to_hex(bytes))
    } else {
        None
    }
}

/// A new token, from the operating system's source of randomness. `None` where there is no
/// randomness to be had.
pub fn generate() -> (r: Option<String>)
    ensures
        r is Some ==> is_fresh_token(r->0@),
{
    let mut bytes: Vec<u8> = Vec::new();
    while bytes.len() < TOKEN_BYTES
        invariant
            bytes.len() <= TOKEN_BYTES,
        decreases TOKEN_BYTES - bytes.len(),
    {
        bytes.push(0);
    }
    let filled: bool = fill_random(&mut bytes);
    token_of(filled, &bytes)
}

proof fn lemma_hex(bytes: Seq<u8>)
    ensures
        hex(bytes).len() == 2 * bytes.len(),
        forall|i: int|
            0 <= i < hex(bytes).len() ==> ('0' <= #[trigger] hex(bytes)[i] <= '9' || 'a'
                <= hex(bytes)[i] <= 'f'),
    decreases bytes.len(),
{
    if bytes.len() > 0 {
        lemma_hex(bytes.drop_last());
    }
}

/// A new token has 40 characters, all of them hexadecimal digits.
pub proof fn law_tokens_are_long(t: Seq<char>)
    requires
        is_fresh_token(t),
    ensures
        t.len() == 40,
        forall|i: int| 0 <= i < t.len() ==> ('0' <= #[trigger] t[i] <= '9' || 'a' <= t[i] <= 'f'),
{
    let bytes = choose|bytes: Seq<u8>| bytes.len() == TOKEN_BYTES && t == #[trigger] hex(bytes);
    lemma_hex(bytes);
}

/// A token that was written is read again: it is kept, not made anew.
pub proof fn law_token_is_kept(t: Seq<char>)
    requires
        is_fresh_token(t),
    ensures
        token_in(t + "\n"@) == Some(t),
{
    law_tokens_are_long(t);
    reveal_strlit("\n");
    let s = t + "\n"@;
    text::lemma_lead_is(s, text::whites(), 0);
    assert(s.skip(0) =~= s);
    text::lemma_cut_end_is(s, text::whites(), t.len() as int);
    assert(s.take(t.len() as int) =~= t);
}

proof fn lemma_no_difference(d: u8, x: u8, y: u8)
    by (bit_vector)
    ensures
        (d | (x ^ y)) == 0 <==> d == 0 && x == y,
{
}

/// Whether the token that was given is the one expected. The time this takes does not
/// depend on where the two differ.
pub fn matches(expected: &str, provided: &str) -> (r: bool)
    ensures
        r == (expected@ == provided@),
{
    let a: &[u8] = expected.as_bytes();
    let b: &[u8] = provided.as_bytes();
    proof {
        encode_utf8_decode_utf8(expected@);
        encode_utf8_decode_utf8(provided@);
    }
    if a.len() != b.len() {
        return false;
    }
    let mut diff: u8 = 0;
    let mut i: usize = 0;
    while i < a.len()
        invariant
            i <= a.len(),
            a.len() == b.len(),
            diff == 0 <==> forall|k: int| 0 <= k < i ==> a@[k] == #[trigger] b@[k],
        decreases a.len() - i,
    {
        proof {
            lemma_no_difference(diff, a@[i as int], b@[i as int]);
        }
        diff = diff | (a[i] ^ b[i]);
        i += 1;
    }
    proof {
        if diff == 0 {
            assert(a@ =~= b@);
        }
    }
    diff == 0
}

/// Where the last `:` of a text stands; -1 if there is none.
pub open spec fn last_colon(s: Seq<char>) -> int
    decreases s.len(),
{
    if s.len() == 0 {
        -1
    } else if s.last() == ':' {
        s.len() - 1
    } else {
        last_colon(s.drop_last())
    }
}

/// The host of an address to listen on: what stands before the last `:`, without the
/// brackets of an IPv6 address.
pub open spec fn host_of(addr: Seq<char>) -> Seq<char> {
    if last_colon(addr) < 0 {
        addr
    } else {
        text::trim_end_matches(text::trim_start_matches(addr.take(last_colon(addr)), '['), ']')
    }
}

proof fn lemma_last_colon(s: Seq<char>, i: int)
    requires
        -1 <= i < s.len(),
        i >= 0 ==> s[i] == ':',
        forall|k: int| i < k < s.len() ==> s[k] != ':',
    ensures
        last_colon(s) == i,
    decreases s.len(),
{
    if s.len() > 0 && i < s.len() - 1 {
        assert(s[s.len() - 1] != ':');
        lemma_last_colon(s.drop_last(), i);
    }
}

/// The host of an address to listen on.
pub fn bind_host(addr: &str) -> (r: String)
    ensures
        r@ == host_of(addr@),
{
    let chars: Vec<char> = chars_of(addr);
    let mut i: usize = chars.len();
    while i > 0 && chars[i - 1] != ':'
        invariant
            i <= chars.len(),
            forall|k: int| i <= k < chars.len() ==> chars@[k] != ':',
        decreases i,
    {
        i -= 1;
    }
    proof {
        lemma_last_colon(chars@, i - 1);
    }
    if i == 0 {
        return addr.to_owned();
    }
    let host: Vec<char> = slice(&chars, 0, i - 1);
    assert(host@ =~= chars@.take(i - 1));
    string_of(&trim_end_char(&trim_start_char(&host, '['), ']'))
}

/// Whether a server that listens on an address can be reached from this machine only, so
/// that no token is needed. `ip` says of the address's host, where that is an IP address,
/// whether it is a loopback address. Of all other hosts only `localhost` is safe.
pub fn is_loopback_bind(addr: &str, ip: Option<bool>) -> (r: bool)
    ensures
        r == (match ip {
            Some(loopback) => loopback,
            None => text::ascii_lowercase(host_of(addr@)) == "localhost"@,
        }),
{
    match ip {
        Some(loopback) => loopback,
        None => {
            let host: String = bind_host(addr);
            let low: String = string_of(&lower_ascii(&chars_of(host.as_str())));
            same(low.as_str(), "localhost")
        },
    }
}

// ── Laws of addresses and tokens ─────────────────────────────────────────────

/// Bytes are written one behind the other, two digits each, the high one first.
pub proof fn law_bytes_are_written_in_hexadecimal(a: Seq<u8>, b: u8)
    ensures
        hex(a.push(b)) == hex(a).push(hex_digit(b as int / 16)).push(hex_digit(b as int % 16)),
        hex(a).len() == 2 * a.len(),
        forall|d: int|
            0 <= d < 10 ==> #[trigger] hex_digit(d) as u32 == '0' as u32 + d,
        forall|d: int|
            10 <= d < 16 ==> #[trigger] hex_digit(d) as u32 == 'a' as u32 + (d - 10),
{
    assert(a.push(b).drop_last() =~= a);
    lemma_hex(a);
}

proof fn lemma_colon_is(s: Seq<char>, i: int)
    requires
        0 <= i < s.len(),
        s[i] == ':',
        forall|k: int| i < k < s.len() ==> s[k] != ':',
    ensures
        last_colon(s) == i,
    decreases s.len(),
{
    if i < s.len() - 1 {
        assert(s[s.len() - 1] != ':');
        lemma_colon_is(s.drop_last(), i);
    }
}

/// The host of an address is what stands before its port, without brackets round it.
pub proof fn law_hosts_are_found(host: Seq<char>, port: Seq<char>)
    requires
        host.len() > 0,
        !port.contains(':'),
        host[0] != '[' && host.last() != ']',
    ensures
        host_of(host + seq![':'] + port) == host,
        host_of(seq!['['] + host + seq![']', ':'] + port) == host,
{
    lemma_host(Seq::empty(), host, Seq::empty(), port);
    lemma_host(seq!['['], host, seq![']'], port);
    let none = Seq::<char>::empty();
    assert(none + host + none + seq![':'] + port =~= host + seq![':'] + port);
    assert(seq!['['] + host + seq![']'] + seq![':'] + port =~= seq!['['] + host + seq![']', ':']
        + port);
}

proof fn lemma_host(a: Seq<char>, host: Seq<char>, b: Seq<char>, port: Seq<char>)
    requires
        host.len() > 0,
        !port.contains(':'),
        host[0] != '[' && host.last() != ']',
        forall|i: int| 0 <= i < a.len() ==> #[trigger] a[i] == '[',
        forall|i: int| 0 <= i < b.len() ==> #[trigger] b[i] == ']',
    ensures
        host_of(a + host + b + seq![':'] + port) == host,
{
    let inner = a + host + b;
    let s = inner + seq![':'] + port;
    let n = inner.len() as int;
    assert(s[n] == ':');
    assert forall|k: int| n < k < s.len() implies s[k] != ':' by {
        assert(s[k] == port[k - n - 1]);
        assert(port.contains(port[k - n - 1]));
    }
    lemma_colon_is(s, n);
    assert(s.take(n) =~= inner);
    assert forall|i: int| 0 <= i < a.len() implies text::is_char('[')(#[trigger] inner[i]) by {
        assert(inner[i] == a[i]);
    }
    assert(inner[a.len() as int] == host[0]);
    text::lemma_lead_is(inner, text::is_char('['), a.len());
    let t = inner.skip(a.len() as int);
    assert(t =~= host + b);
    assert forall|i: int| host.len() <= i < t.len() implies text::is_char(']')(#[trigger] t[i]) by {
        assert(t[i] == b[i - host.len()]);
    }
    text::lemma_cut_end_is(t, text::is_char(']'), host.len() as int);
    assert(t.take(host.len() as int) =~= host);
}

/// The token of a database lies beside it.
pub proof fn law_tokens_lie_beside_the_database(dir: Seq<char>, name: Seq<char>)
    requires
        dir.len() > 0 && dir.last() != '/',
        !(dir.len() > 1 && dir.last() == '.' && dir[dir.len() - 2] == '/'),
        name.len() > 0 && !name.contains('/') && name != seq!['.'],
    ensures
        token_place(paths::join_of(dir, name)) == paths::join_of(dir, "access-token"@),
{
    paths::law_parents_are_found(dir, name);
}

} // verus!
