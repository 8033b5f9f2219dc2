//! How much memory the database may take.
use crate::text;
use crate::text::{
    append_num, chars_of, has_prefix, parse_u64, split_lines, split_words, trim_chars,
};
use vstd::prelude::*;
use vstd::string::*;

verus! {

/// 80 % of the memory in GiB, at least 1.
pub open spec fn limit_gib(total_kb: nat) -> nat {
    let n = total_kb * 80 / 100 / 1048576;
    if n < 1 {
        1
    } else {
        n
    }
}

/// The limit for a machine with so much memory, in KiB: 80 % of it, or 8 GiB where it is
/// not known.
pub fn memory_limit_str(total_kb: Option<u64>) -> (r: String)
    requires
        total_kb is Some ==> total_kb->0 * 80 <= u64::MAX,
    ensures
        r@ == (if total_kb is Some && total_kb->0 != 0 {
            text::dec(limit_gib(total_kb->0 as nat)) + "GiB"@
        } else {
            "8GiB"@
        }),
{
    let kb: u64 = match total_kb {
        Some(n) => n,
        None => 0,
    };
    if kb == 0 {
        return "8GiB".to_owned();
    }
    let gib: u64 = (kb * 80 / 100) / 1048576;
    let mut r: String = "".to_owned();
    append_num(
        &mut r,
        if gib < 1 {
            1
        } else {
            gib
        },
    );
    r.append("GiB");
    proof {
        reveal_strlit("");
        let d = text::dec(limit_gib(kb as nat));
        assert(""@ + d =~= d);
    }
    r
}

/// What the first of some lines that says so gives for the memory: `None` if no line does,
/// and `Some(None)` if the line cannot be read.
pub open spec fn mem_total(lines: Seq<Seq<char>>) -> Option<Option<nat>>
    decreases lines.len(),
{
    if lines.len() == 0 {
        None
    } else if text::starts_with(lines[0], "MemTotal:"@) {
        let w = text::words(lines[0]);
        if w.len() < 2 {
            Some(None)
        } else {
            Some(text::parse_nat(w[1], u64::MAX as nat))
        }
    } else {
        mem_total(lines.skip(1))
    }
}

/// Reads the memory of the machine in KiB out of what `/proc/meminfo` holds. `None` if it
/// does not say, `Some(None)` if what it says cannot be read.
pub fn read_meminfo(content: &str) -> (r: Option<Option<u64>>)
    ensures
        match r {
            None => mem_total(text::lines(content@)) is None,
            Some(None) => mem_total(text::lines(content@)) == Some(None::<nat>),
            Some(Some(n)) => mem_total(text::lines(content@)) == Some(Some(n as nat)),
        },
{
    let lines: Vec<String> = split_lines(&chars_of(content));
    let label: Vec<char> = chars_of("MemTotal:");
    let ghost all = text::lines(content@);
    let mut i: usize = 0;
    proof {
        assert(text::texts(lines@) == all);
        assert(lines@.len() == all.len());
        assert(all.skip(0) =~= all);
    }
    while i < lines.len()
        invariant
            i <= lines.len(),
            lines@.len() == all.len(),
            all == text::texts(lines@),
            all == text::lines(content@),
            label@ == "MemTotal:"@,
            mem_total(all) == mem_total(all.skip(i as int)),
        decreases lines.len() - i,
    {
        let line: Vec<char> = chars_of(lines[i].as_str());
        proof {
            assert(all.skip(i as int)[0] == line@);
            assert(all.skip(i as int).skip(1) =~= all.skip(i + 1));
        }
        if has_prefix(&line, &label) {
            let w: Vec<String> = split_words(&line);
            assert(text::texts(w@).len() == w@.len());
            if w.len() < 2 {
                return Some(None);
            }
            assert(text::texts(w@)[1] == w@[1]@);
            return Some(parse_u64(&chars_of(w[1].as_str())));
        }
        i += 1;
    }
    None
}

/// Reads the memory of the machine in KiB out of a number of bytes, as `sysctl` prints it.
pub fn read_memsize(output: &str) -> (r: Option<u64>)
    ensures
        match r {
            Some(kb) => text::parse_nat(text::trim(output@), u64::MAX as nat) is Some && kb
                == text::parse_nat(text::trim(output@), u64::MAX as nat)->0 / 1024,
            None => text::parse_nat(text::trim(output@), u64::MAX as nat) is None,
        },
{
    match parse_u64(&trim_chars(&chars_of(output))) {
        Some(n) => Some(n / 1024),
        None => None,
    }
}

/// The limit never exceeds the machine's memory, from 1 GiB on.
pub proof fn law_limit_fits(total_kb: nat)
    requires
        total_kb >= 1048576,
    ensures
        limit_gib(total_kb) * 1048576 <= total_kb,
{
}

/// The memory is what the first line that speaks of it says.
pub proof fn law_first_line_tells_the_memory(lines: Seq<Seq<char>>, k: int, n: u64)
    requires
        0 <= k < lines.len(),
        lines[k] == "MemTotal:"@ + " "@ + text::dec(n as nat) + " "@ + "kB"@,
        forall|i: int| 0 <= i < k ==> !text::starts_with(#[trigger] lines[i], "MemTotal:"@),
    ensures
        mem_total(lines) == Some(Some(n as nat)),
    decreases lines.len(),
{
    if k > 0 {
        assert(!text::starts_with(lines[0], "MemTotal:"@));
        let rest = lines.skip(1);
        assert forall|i: int| 0 <= i < k - 1 implies !text::starts_with(
            #[trigger] rest[i],
            "MemTotal:"@,
        ) by {
            assert(rest[i] == lines[i + 1]);
        }
        law_first_line_tells_the_memory(rest, k - 1, n);
    } else {
        reveal_strlit("MemTotal:");
        reveal_strlit("kB");
        reveal_strlit(" ");
        let d = text::dec(n as nat);
        text::lemma_dec_digits(n as nat);
        assert forall|i: int| 0 <= i < d.len() implies !text::is_white(#[trigger] d[i]) by {
            assert(text::is_digit(d[i]));
        }
        let ws = seq!["MemTotal:"@, d, "kB"@];
        assert(text::is_word(ws[0]) && text::is_word(ws[1]) && text::is_word(ws[2]));
        text::law_joined_words_come_apart(ws);
        assert(ws.drop_last() =~= seq!["MemTotal:"@, d]);
        assert(seq!["MemTotal:"@, d].drop_last() =~= seq!["MemTotal:"@]);
        assert(text::join(seq!["MemTotal:"@], " "@) == "MemTotal:"@);
        assert(text::join(seq!["MemTotal:"@, d], " "@) == "MemTotal:"@ + " "@ + d);
        assert(text::join(ws, " "@) == lines[0]);
        assert(lines[0].take(9) =~= "MemTotal:"@);
        text::law_decimal_reads_back(n as nat, u64::MAX as nat);
    }
}

/// The limit is four fifths of the memory in whole gibibytes, and never less than one.
pub proof fn law_limit_is_four_fifths(total_kb: nat)
    ensures
        limit_gib(total_kb) >= 1,
        total_kb * 80 / 100 / 1048576 >= 1 ==> limit_gib(total_kb) == total_kb * 80 / 100 / 1048576,
{
}

} // verus!
