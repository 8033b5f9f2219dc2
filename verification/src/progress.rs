//! Counts as people read them.
use crate::text;
use crate::text::{chars_of, decimal, string_of};
use vstd::prelude::*;

verus! {

/// The digits with a comma before each group of three that others stand before.
pub open spec fn group_digits(s: Seq<char>) -> Seq<char>
    decreases s.len(),
{
    if s.len() <= 3 {
        s
    } else {
        group_digits(s.take(s.len() - 3)) + seq![','] + s.skip(s.len() - 3)
    }
}

/// `n` in decimal with thousands separators.
pub open spec fn grouped(n: int) -> Seq<char> {
    if n < 0 {
        seq!['-'] + group_digits(text::dec((-n) as nat))
    } else {
        group_digits(text::dec(n as nat))
    }
}

fn group(s: &[char]) -> (out: Vec<char>)
    ensures
        out@ == group_digits(s@),
    decreases s.len(),
{
    if s.len() <= 3 {
        let out: Vec<char> = text::slice(s, 0, s.len());
        assert(s@.subrange(0, s@.len() as int) =~= s@);
        out
    } else {
        let cut: usize = s.len() - 3;
        let front: Vec<char> = text::slice(s, 0, cut);
        assert(front@ =~= s@.take(s@.len() - 3));
        let mut out: Vec<char> = group(&front);
        out.push(',');
        out.push(s[cut]);
        out.push(s[cut + 1]);
        out.push(s[cut + 2]);
        assert(out@ =~= group_digits(s@));
        out
    }
}

/// Writes `n` with thousands separators, as `12,040,323`.
pub fn thousands(n: i64) -> (out: String)
    ensures
        out@ == grouped(n as int),
{
    let m: u64 = if n < 0 {
        (-(n as i128)) as u64
    } else {
        n as u64
    };
    let digits: String = decimal(m);
    let body: Vec<char> = group(&chars_of(digits.as_str()));
    if n < 0 {
        let mut out: Vec<char> = Vec::new();
        out.push('-');
        let mut i: usize = 0;
        while i < body.len()
            invariant
                i <= body.len(),
                out@ == seq!['-'] + body@.take(i as int),
            decreases body.len() - i,
        {
            out.push(body[i]);
            i += 1;
            assert(seq!['-'] + body@.take(i as int) =~= (seq!['-'] + body@.take(i - 1)).push(
                body@[i - 1],
            ));
        }
        assert(body@.take(i as int) =~= body@);
        string_of(&out)
    } else {
        string_of(&body)
    }
}

proof fn lemma_ungroup(s: Seq<char>)
    requires
        text::all_digits(s),
    ensures
        text::without_char(group_digits(s), ',') == s,
    decreases s.len(),
{
    reveal(Seq::filter);
    if s.len() <= 3 {
        lemma_no_commas(s);
    } else {
        let a = s.take(s.len() - 3);
        let b = s.skip(s.len() - 3);
        assert forall|i: int| 0 <= i < a.len() implies text::is_digit(#[trigger] a[i]) by {
            assert(a[i] == s[i]);
        }
        assert forall|i: int| 0 <= i < b.len() implies text::is_digit(#[trigger] b[i]) by {
            assert(b[i] == s[i + s.len() - 3]);
        }
        lemma_ungroup(a);
        lemma_no_commas(b);
        let p = text::not_char(',');
        let g = group_digits(a);
        Seq::filter_distributes_over_add(g + seq![','], b, p);
        Seq::filter_distributes_over_add(g, seq![','], p);
        assert(seq![','].filter(p) =~= Seq::<char>::empty()) by {
            reveal_with_fuel(Seq::filter, 2);
            assert(seq![','].drop_last() =~= Seq::<char>::empty());
            assert(seq![','].last() == ',');
        }
        assert(a + Seq::<char>::empty() + b =~= s);
        assert(a + Seq::<char>::empty() =~= a);
    }
}

proof fn lemma_no_commas(s: Seq<char>)
    requires
        text::all_digits(s),
    ensures
        text::without_char(s, ',') == s,
    decreases s.len(),
{
    reveal(Seq::filter);
    if s.len() > 0 {
        let t = s.drop_last();
        assert forall|i: int| 0 <= i < t.len() implies text::is_digit(#[trigger] t[i]) by {
            assert(t[i] == s[i]);
        }
        lemma_no_commas(t);
        assert(text::is_digit(s[s.len() - 1]));
        assert(t.push(s.last()) =~= s);
    }
}

/// The separators only separate: without them the number stands there in decimal, with its
/// sign.
pub proof fn law_separators_only_separate(n: i64)
    ensures
        text::without_char(grouped(n as int), ',') == text::signed_dec(n as int),
{
    let m: nat = if n < 0 {
        (-n) as nat
    } else {
        n as nat
    };
    text::lemma_dec_digits(m);
    lemma_ungroup(text::dec(m));
    if n < 0 {
        let p = text::not_char(',');
        Seq::filter_distributes_over_add(seq!['-'], group_digits(text::dec(m)), p);
        assert(seq!['-'].filter(p) =~= seq!['-']) by {
            reveal_with_fuel(Seq::filter, 2);
            assert(seq!['-'].drop_last() =~= Seq::<char>::empty());
        }
    }
}

/// A comma stands before each group of three digits, and nowhere else.
pub proof fn law_groups_have_three_digits(a: Seq<char>, three: Seq<char>)
    requires
        three.len() == 3,
    ensures
        a.len() > 0 ==> group_digits(a + three) == group_digits(a) + seq![','] + three,
        a.len() <= 3 ==> group_digits(a) == a,
{
    let s = a + three;
    assert(s.take(s.len() - 3) =~= a);
    assert(s.skip(s.len() - 3) =~= three);
}

} // verus!
