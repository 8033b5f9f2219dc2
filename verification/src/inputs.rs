//! The files that an import reads, and where in them it is.
use crate::importer;
use crate::importer::is_supported_input;
use crate::sorting;
use crate::sorting::{codes_of, sort_places};
use crate::text;
use vstd::prelude::*;
use vstd::string::*;

verus! {

pub open spec fn supported() -> spec_fn(Seq<char>) -> bool {
    |name: Seq<char>| importer::is_supported(name)
}

/// The keys by which names are ordered: by their characters.
pub open spec fn name_keys(names: Seq<Seq<char>>) -> Seq<Seq<nat>> {
    names.map_values(|n: Seq<char>| sorting::codes(n))
}

/// Whether a list holds the names of another in their order.
pub open spec fn is_sorted_list(out: Seq<Seq<char>>, names: Seq<Seq<char>>) -> bool {
    exists|p: Seq<usize>|
        #[trigger] sorting::is_arrangement(p, names.len() as int) && sorting::in_key_order(
            name_keys(names),
            p,
        ) && out == p.map_values(|i: usize| names[i as int])
}

fn supported_of(names: &[String]) -> (out: Vec<String>)
    ensures
        text::texts(out@) == text::texts(names@).filter(supported()),
{
    let mut out: Vec<String> = Vec::new();
    let ghost all = text::texts(names@);
    let mut i: usize = 0;
    proof {
        reveal(Seq::filter);
        assert(all.take(0) =~= Seq::empty());
        assert(text::texts(out@) =~= Seq::empty());
    }
    while i < names.len()
        invariant
            i <= names.len(),
            all == text::texts(names@),
            text::texts(out@) == all.take(i as int).filter(supported()),
        decreases names.len() - i,
    {
        let ghost before = text::texts(out@);
        proof {
            reveal(Seq::filter);
            let t = all.take(i + 1);
            assert(t.drop_last() =~= all.take(i as int));
            assert(t.last() == names@[i as int]@);
        }
        if is_supported_input(names[i].as_str()) {
            let n: String = names[i].clone();
            out.push(n);
            assert(text::texts(out@) =~= before.push(n@));
        }
        i += 1;
    }
    assert(all.take(i as int) =~= all);
    out
}

/// The files of a directory that an import reads, in the order of their names.
pub fn input_files(names: &[String]) -> (out: Vec<String>)
    ensures
        is_sorted_list(text::texts(out@), text::texts(names@).filter(supported())),
{
    let files: Vec<String> = supported_of(names);
    sort_names(&files)
}

/// Puts names into their order.
pub fn sort_names(files: &[String]) -> (out: Vec<String>)
    ensures
        is_sorted_list(text::texts(out@), text::texts(files@)),
{
    let ghost all = text::texts(files@);
    let mut keys: Vec<Vec<u64>> = Vec::new();
    let mut i: usize = 0;
    while i < files.len()
        invariant
            i <= files.len(),
            keys@.len() == i,
            all == text::texts(files@),
            forall|k: int|
                0 <= k < i ==> sorting::numbers((#[trigger] keys@[k])@) == sorting::codes(all[k]),
        decreases files.len() - i,
    {
        keys.push(codes_of(files[i].as_str()));
        i += 1;
    }
    assert(sorting::key_numbers(keys@) =~= name_keys(all));
    let places: Vec<usize> = sort_places(&keys);
    let ghost want = places@.map_values(|i: usize| all[i as int]);
    let mut out: Vec<String> = Vec::new();
    let mut j: usize = 0;
    while j < places.len()
        invariant
            j <= places.len(),
            all == text::texts(files@),
            sorting::is_arrangement(places@, all.len() as int),
            want == places@.map_values(|i: usize| all[i as int]),
            out@.len() == j,
            forall|k: int| 0 <= k < j ==> (#[trigger] out@[k])@ == want[k],
        decreases places.len() - j,
    {
        out.push(files[places[j]].clone());
        j += 1;
    }
    assert(text::texts(out@) =~= want);
    out
}

/// Every file that an import can read is read.
pub proof fn law_no_file_is_lost(out: Seq<Seq<char>>, names: Seq<Seq<char>>, i: int)
    requires
        is_sorted_list(out, names),
        0 <= i < names.len() <= usize::MAX,
    ensures
        out.contains(names[i]),
        out.len() == names.len(),
{
    let p = choose|p: Seq<usize>|
        #[trigger] sorting::is_arrangement(p, names.len() as int) && sorting::in_key_order(
            name_keys(names),
            p,
        ) && out == p.map_values(|i: usize| names[i as int]);
    assert(p.contains(i as usize));
    let k = choose|k: int| 0 <= k < p.len() && p[k] == i as usize;
    assert(out[k] == names[i]);
}

/// How many lines have ended in some bytes.
pub open spec fn line_ends(bytes: Seq<u8>) -> nat
    decreases bytes.len(),
{
    if bytes.len() == 0 {
        0
    } else {
        line_ends(bytes.drop_last()) + (if bytes.last() == 10 {
            1nat
        } else {
            0nat
        })
    }
}

/// The line in which a reader is, counted from 1.
#[derive(Clone, Copy, Debug)]
pub struct LineCounter {
    pub line: usize,
}

impl LineCounter {
    pub fn new() -> (c: Self)
        ensures
            c.line == 1,
    {
        LineCounter { line: 1 }
    }

    /// Takes what was read.
    pub fn read(&mut self, bytes: &[u8])
        requires
            old(self).line + bytes.len() <= usize::MAX,
        ensures
            final(self).line == old(self).line + line_ends(bytes@),
    {
        let ghost start = self.line;
        let mut i: usize = 0;
        assert(bytes@.take(0) =~= Seq::empty());
        while i < bytes.len()
            invariant
                i <= bytes.len(),
                start + bytes.len() <= usize::MAX,
                self.line == start + line_ends(bytes@.take(i as int)),
                line_ends(bytes@.take(i as int)) <= i,
            decreases bytes.len() - i,
        {
            proof {
                let t = bytes@.take(i + 1);
                assert(t.drop_last() =~= bytes@.take(i as int));
                assert(t.last() == bytes@[i as int]);
            }
            if bytes[i] == 10 {
                self.line += 1;
            }
            i += 1;
        }
        assert(bytes@.take(i as int) =~= bytes@);
    }
}

/// The lines of two pieces are counted one by one.
pub proof fn law_line_ends_add_up(a: Seq<u8>, b: Seq<u8>)
    ensures
        line_ends(a + b) == line_ends(a) + line_ends(b),
        line_ends(seq![10u8]) == 1,
        !b.contains(10u8) ==> line_ends(b) == 0,
    decreases b.len(),
{
    let one = seq![10u8];
    assert(one.drop_last() =~= Seq::empty());
    assert(line_ends(one.drop_last()) == 0);
    if b.len() == 0 {
        assert(a + b =~= a);
    } else {
        assert((a + b).drop_last() =~= a + b.drop_last());
        law_line_ends_add_up(a, b.drop_last());
        if !b.contains(10u8) {
            assert(b[b.len() - 1] != 10);
            assert forall|i: int| 0 <= i < b.len() - 1 implies b.drop_last()[i] != 10 by {
                assert(b[i] != 10);
            }
        }
    }
}

/// Sorted names stand in the order of their characters.
pub proof fn law_names_stand_in_order(out: Seq<Seq<char>>, names: Seq<Seq<char>>, i: int, j: int)
    requires
        is_sorted_list(out, names),
        0 <= i < j < out.len(),
    ensures
        !sorting::precedes(sorting::codes(out[j]), sorting::codes(out[i])),
{
    let p = choose|p: Seq<usize>|
        #[trigger] sorting::is_arrangement(p, names.len() as int) && sorting::in_key_order(
            name_keys(names),
            p,
        ) && out == p.map_values(|i: usize| names[i as int]);
    assert(sorting::goes_first(name_keys(names), p[i] as int, p[j] as int));
}

} // verus!
