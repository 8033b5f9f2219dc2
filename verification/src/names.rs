//! Player names as they are searched and compared.
use crate::text;
use crate::text::{chars_of, joined, replaced, split_words, to_lower};
use vstd::prelude::*;

verus! {

/// A name in small letters with commas as spaces and one space between words.
pub open spec fn spaced(lower: Seq<char>) -> Seq<char> {
    text::join(text::words(text::replace_char(lower, ',', ' ')), seq![' '])
}

/// The form in which names are compared: lowercase, commas as spaces, one space between
/// words.
pub open spec fn normalized(name: Seq<char>) -> Seq<char> {
    spaced(text::lowercase(name))
}

/// The form in which a name that is already in small letters is compared.
pub fn space_out(lower: &str) -> (out: String)
    ensures
        out@ == spaced(lower@),
{
    let chars: Vec<char> = replaced(&chars_of(lower), ',', ' ');
    let parts: Vec<String> = split_words(&chars);
    proof {
        reveal_strlit(" ");
        assert(" "@ =~= seq![' ']);
    }
    joined(&parts, " ")
}

/// The form in which a name is compared: "Carlsen, Magnus" becomes "carlsen magnus".
pub fn normalize_name(name: &str) -> (out: String)
    ensures
        out@ == normalized(name@),
        text::is_ascii_text(name@) ==> out@ == spaced(text::ascii_lowercase(name@)),
{
    let lower: String = to_lower(name);
    space_out(lower.as_str())
}

// ── Laws of names ────────────────────────────────────────────────────────────

/// A name of words is compared by its words with one blank between each two: commas and
/// further blanks do not matter, and what is compared is compared as itself.
pub proof fn law_names_are_compared_by_words(ws: Seq<Seq<char>>)
    requires
        forall|i: int| 0 <= i < ws.len() ==> text::is_word(#[trigger] ws[i]) && !ws[i].contains(','),
    ensures
        spaced(text::join(ws, seq![' '])) == text::join(ws, seq![' ']),
        spaced(text::join(ws, seq![','])) == text::join(ws, seq![' ']),
{
    reveal_strlit(" ");
    assert(" "@ =~= seq![' ']);
    lemma_commas(ws, ' ');
    lemma_commas(ws, ',');
    text::law_joined_words_come_apart(ws);
}

proof fn lemma_commas(ws: Seq<Seq<char>>, sep: char)
    requires
        forall|i: int| 0 <= i < ws.len() ==> text::is_word(#[trigger] ws[i]) && !ws[i].contains(','),
        sep == ' ' || sep == ',',
    ensures
        text::replace_char(text::join(ws, seq![sep]), ',', ' ') == text::join(ws, seq![' ']),
    decreases ws.len(),
{
    let r = |s: Seq<char>| text::replace_char(s, ',', ' ');
    if ws.len() == 0 {
        assert(r(text::join(ws, seq![sep])) =~= text::join(ws, seq![' ']));
    } else {
        assert(!ws[ws.len() - 1].contains(','));
        let l = ws.last();
        assert forall|i: int| 0 <= i < l.len() implies #[trigger] l[i] != ',' by {
            assert(l.contains(l[i]));
        }
        assert(r(l) =~= l);
        if ws.len() > 1 {
            let d = ws.drop_last();
            assert forall|i: int| 0 <= i < d.len() implies text::is_word(#[trigger] d[i])
                && !d[i].contains(',') by {
                assert(d[i] == ws[i]);
            }
            lemma_commas(d, sep);
            assert(r(text::join(ws, seq![sep])) =~= r(text::join(d, seq![sep])) + seq![' '] + r(l));
        } else {
            assert(text::join(ws, seq![sep]) == l);
            assert(text::join(ws, seq![' ']) == l);
        }
    }
}

/// A name with a comma behind the surname is the name without it.
pub proof fn law_commas_do_not_matter(surname: Seq<char>, first: Seq<char>)
    requires
        text::is_word(surname) && text::is_word(first),
        !surname.contains(',') && !first.contains(','),
    ensures
        spaced(surname + seq![',', ' '] + first) == surname + seq![' '] + first,
        spaced(surname + seq![' '] + first) == surname + seq![' '] + first,
{
    let ws = seq![surname, first];
    assert(ws.drop_last() =~= seq![surname]);
    assert(text::join(seq![surname], seq![' ']) == surname);
    assert(text::join(ws, seq![' ']) == surname + seq![' '] + first);
    law_names_are_compared_by_words(ws);
    lemma_commas(seq![surname], ' ');
    lemma_commas(seq![first], ' ');
    assert(text::join(seq![first], seq![' ']) == first);
    let s = surname + seq![',', ' '] + first;
    assert(text::replace_char(s, ',', ' ') =~= surname + (seq![' '] + (seq![' '] + first)));
    text::lemma_word_first(surname, seq![' '] + (seq![' '] + first));
    text::lemma_white_first(' ', seq![' '] + first);
    text::lemma_white_first(' ', first);
    text::law_joined_words_come_apart(seq![first]);
    assert(text::join(seq![first], " "@) == first);
    assert(text::words(text::replace_char(s, ',', ' ')) =~= ws);
}

/// Names in one set of small letters are compared as one name.
pub proof fn law_case_does_not_matter(a: Seq<char>, b: Seq<char>)
    requires
        text::lowercase(a) == text::lowercase(b),
    ensures
        normalized(a) == normalized(b),
        normalized(a) == spaced(text::lowercase(a)),
{
}

} // verus!
