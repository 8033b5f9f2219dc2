//! Rows that come from a CSV file and go out to one. The format is that of the csv crate,
//! with a first row of headings.
use crate::reporter;
use crate::text;
use crate::text::{clone_all, trimmed};
use vstd::prelude::*;

verus! {

/// A row of a file: its fields, or what is wrong with it.
#[derive(Debug)]
pub enum CsvRow {
    Fields(Vec<String>),
    Broken(String),
}

/// A row, as values: the fields, or what is wrong with it.
pub type RowView = Result<Seq<Seq<char>>, Seq<char>>;

impl View for CsvRow {
    type V = RowView;

    open spec fn view(&self) -> RowView {
        match self {
            CsvRow::Fields(f) => Ok(text::texts(f@)),
            CsvRow::Broken(e) => Err(e@),
        }
    }
}

pub open spec fn row_views(v: Seq<CsvRow>) -> Seq<RowView> {
    v.map_values(|r: CsvRow| r@)
}

pub open spec fn record_views(v: Seq<Vec<String>>) -> Seq<Seq<Seq<char>>> {
    v.map_values(|r: Vec<String>| text::texts(r@))
}

// ── Trusted: the csv crate ───────────────────────────────────────────────────

/// The rows that the csv crate finds in a file, behind the first, which has the headings.
pub uninterp spec fn csv_rows_in(bytes: Seq<u8>) -> Seq<RowView>;

/// The file that the csv crate writes of some records.
pub uninterp spec fn csv_of(records: Seq<Seq<Seq<char>>>) -> Seq<u8>;

/// `csv::Reader::from_reader` and `Reader::into_records`, with the text of each error, named
/// [`csv_rows_in`] here: a function of the bytes alone.
#[verifier::external_body]
pub(crate) fn csv_rows(bytes: &[u8]) -> (rows: Vec<CsvRow>)
    ensures
        row_views(rows@) == csv_rows_in(bytes@),
{
    csv::Reader::from_reader(bytes)
        .into_records()
        .map(|r| match r {
            Ok(r) => CsvRow::Fields(r.iter().map(String::from).collect()),
            Err(e) => CsvRow::Broken(e.to_string()),
        })
        .collect()
}

/// Whether records make a file: there is one with the headings, the first of which cannot be
/// taken for a mark of the encoding, and all are as long as it is.
pub open spec fn make_a_file(records: Seq<Seq<Seq<char>>>) -> bool {
    &&& records.len() > 0
    &&& records[0].len() > 0
    &&& text::is_ascii_text(records[0][0])
    &&& forall|i: int| 0 <= i < records.len() ==> (#[trigger] records[i]).len() == records[0].len()
}

/// `csv::Writer::write_record` for each record, into memory, named [`csv_of`] here: a
/// function of the records alone. Fields are quoted where they have to be, so that the csv
/// crate reads back the records that were written.
#[verifier::external_body]
pub(crate) fn csv_bytes(records: &[Vec<String>]) -> (out: Vec<u8>)
    requires
        make_a_file(record_views(records@)),
    ensures
        out@ == csv_of(record_views(records@)),
        csv_rows_in(out@) == all_sound(record_views(records@).skip(1)),
{
    let mut w = csv::Writer::from_writer(Vec::new());
    for r in records {
        let _ = w.write_record(r);
    }
    w.into_inner().unwrap_or_default()
}

// ── Rows ─────────────────────────────────────────────────────────────────────

/// Rows of which none is broken.
pub open spec fn all_sound(records: Seq<Seq<Seq<char>>>) -> Seq<RowView> {
    records.map_values(|r: Seq<Seq<char>>| Ok(r))
}

/// The rows before the first that is broken.
pub open spec fn sound(rows: Seq<RowView>) -> Seq<Seq<Seq<char>>>
    decreases rows.len(),
{
    if rows.len() == 0 || rows[0] is Err {
        Seq::empty()
    } else {
        seq![rows[0]->Ok_0] + sound(rows.skip(1))
    }
}

/// What is wrong with the first row that is broken, if one is.
pub open spec fn first_fault(rows: Seq<RowView>) -> Option<Seq<char>>
    decreases rows.len(),
{
    if rows.len() == 0 {
        None
    } else {
        match rows[0] {
            Ok(_) => first_fault(rows.skip(1)),
            Err(e) => Some(e),
        }
    }
}

/// The rows of a file before the first that is broken, and what is wrong with that one.
pub fn read_sound(bytes: &[u8]) -> (r: (Vec<Vec<String>>, Option<String>))
    ensures
        record_views(r.0@) == sound(csv_rows_in(bytes@)),
        reporter::opt_text(r.1) == first_fault(csv_rows_in(bytes@)),
{
    let rows: Vec<CsvRow> = csv_rows(bytes);
    let ghost all = row_views(rows@);
    let mut out: Vec<Vec<String>> = Vec::new();
    let mut i: usize = 0;
    assert(all.skip(0) =~= all);
    assert(record_views(out@) =~= Seq::empty());
    assert(Seq::<Seq<Seq<char>>>::empty() + sound(all) =~= sound(all));
    while i < rows.len()
        invariant
            i <= rows.len(),
            all == row_views(rows@),
            all == csv_rows_in(bytes@),
            record_views(out@) + sound(all.skip(i as int)) == sound(all),
            first_fault(all.skip(i as int)) == first_fault(all),
        decreases rows.len() - i,
    {
        let ghost rest = all.skip(i as int);
        proof {
            assert(rest[0] == rows@[i as int]@);
            assert(rest.skip(1) =~= all.skip(i + 1));
        }
        match &rows[i] {
            CsvRow::Fields(f) => {
                let ghost had = record_views(out@);
                let copy: Vec<String> = clone_all(f);
                out.push(copy);
                proof {
                    assert(record_views(out@) =~= had.push(text::texts(f@)));
                    assert(had + sound(rest) =~= record_views(out@) + sound(all.skip(i + 1)));
                }
            },
            CsvRow::Broken(e) => {
                proof {
                    assert(record_views(out@) + Seq::<Seq<Seq<char>>>::empty() =~= record_views(out@));
                }
                return (out, Some(e.clone()));
            },
        }
        i += 1;
    }
    proof {
        assert(all.skip(i as int) =~= Seq::empty());
        assert(record_views(out@) + Seq::<Seq<Seq<char>>>::empty() =~= record_views(out@));
    }
    (out, None)
}

/// A file whose rows are all sound has them all, and no fault.
pub proof fn law_sound_rows_are_all_read(records: Seq<Seq<Seq<char>>>)
    ensures
        sound(all_sound(records)) == records,
        first_fault(all_sound(records)) is None,
    decreases records.len(),
{
    if records.len() > 0 {
        law_sound_rows_are_all_read(records.skip(1));
        assert(all_sound(records).skip(1) =~= all_sound(records.skip(1)));
        assert(seq![records[0]] + records.skip(1) =~= records);
    } else {
        assert(all_sound(records) =~= Seq::empty());
        assert(records =~= Seq::empty());
    }
}

// ── Fields ───────────────────────────────────────────────────────────────────

/// The field at a place.
pub open spec fn field(f: Seq<Seq<char>>, i: int) -> Option<Seq<char>> {
    if i < f.len() {
        Some(f[i])
    } else {
        None
    }
}

/// The field at a place, without white space at its ends; empty if it is missing.
pub open spec fn trimmed_field(f: Seq<Seq<char>>, i: int) -> Seq<char> {
    if i < f.len() {
        text::trim(f[i])
    } else {
        Seq::empty()
    }
}

/// The field at a place, without white space at its ends; empty if it is missing.
pub fn field_text(f: &[String], i: usize) -> (r: String)
    ensures
        r@ == trimmed_field(text::texts(f@), i as int),
{
    if i < f.len() {
        trimmed(f[i].as_str())
    } else {
        String::new()
    }
}

} // verus!
