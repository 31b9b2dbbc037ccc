//! Field extraction over a delimited record that the tabular reader has
//! already split into cells.
use vstd::prelude::*;
use core::ops::Range;
use crate::extract::select_all;

verus! {

/// Declares `csv::StringRecord`, the tabular reader's record of cells,
/// so that it can cross the verified functions' signatures.
#[verifier::external_type_specification]
#[verifier::external_body]
pub struct ExStringRecord(csv::StringRecord);

/// The cells a record holds, in order.
pub uninterp spec fn cells(rec: csv::StringRecord) -> Seq<Seq<char>>;

/// Relies on `csv::StringRecord::len`: the number of fields in the record.
#[verifier::external_body]
fn record_len(rec: &csv::StringRecord) -> (n: usize)
    ensures
        n == cells(*rec).len(),
{
    rec.len()
}

/// Relies on `csv::StringRecord::get`: the field at the index, or `None`
/// exactly when the index is at or beyond the number of fields.
#[verifier::external_body]
fn record_get(rec: &csv::StringRecord, i: usize) -> (r: Option<String>)
    ensures
        match r {
            Some(s) => i < cells(*rec).len() && s@ == cells(*rec)[i as int],
            None => i >= cells(*rec).len(),
        },
{
    rec.get(i).map(String::from)
}

/// The cells of `record` at the positions selected by `field_pos`, in
/// range order, out-of-bounds positions skipped silently.
pub fn extract_fields(record: &csv::StringRecord, field_pos: &[Range<usize>]) -> (r: Vec<String>)
    ensures
        r.deep_view() == select_all(cells(*record), field_pos@),
{
    let n = record_len(record);
    let mut r: Vec<String> = Vec::new();
    let mut k: usize = 0;
    while k < field_pos.len()
        invariant
            n == cells(*record).len(),
            k <= field_pos@.len(),
            r.deep_view() == select_all(cells(*record), field_pos@.take(k as int)),
        decreases field_pos@.len() - k,
    {
        let lo = if field_pos[k].start <= n { field_pos[k].start } else { n };
        let hi = if field_pos[k].end <= n { field_pos[k].end } else { n };
        let mut i = lo;
        if lo <= hi {
            while i < hi
                invariant
                    n == cells(*record).len(),
                    k < field_pos@.len(),
                    lo <= i <= hi <= n,
                    lo == (if field_pos@[k as int].start <= n {
                        field_pos@[k as int].start as int
                    } else {
                        n as int
                    }),
                    hi == (if field_pos@[k as int].end <= n {
                        field_pos@[k as int].end as int
                    } else {
                        n as int
                    }),
                    r.deep_view() == select_all(cells(*record), field_pos@.take(k as int))
                        + cells(*record).subrange(lo as int, i as int),
                decreases hi - i,
            {
                let ghost prev = r.deep_view();
                match record_get(record, i) {
                    Some(cell) => {
                        let ghost cv = cell@;
                        r.push(cell);
                        proof {
                            assert(r.deep_view() =~= prev.push(cv));
                            assert(cells(*record).subrange(lo as int, i + 1) =~= cells(
                                *record,
                            ).subrange(lo as int, i as int).push(cells(*record)[i as int]));
                            assert(r.deep_view() =~= select_all(
                                cells(*record),
                                field_pos@.take(k as int),
                            ) + cells(*record).subrange(lo as int, i + 1));
                        }
                    },
                    None => {
                        proof {
                            assert(false);
                        }
                    },
                }
                i = i + 1;
            }
        }
        proof {
            crate::extract::lemma_select_all_push(
                cells(*record),
                field_pos@.take(k as int),
                field_pos@[k as int],
            );
            assert(field_pos@.take(k as int).push(field_pos@[k as int]) =~= field_pos@.take(k + 1));
            assert(r.deep_view() =~= select_all(cells(*record), field_pos@.take(k + 1)));
        }
        k = k + 1;
    }
    proof {
        assert(field_pos@.take(field_pos@.len() as int) =~= field_pos@);
    }
    r
}

/// Extraction is pure: on one record and one range list, any two results
/// that `extract_fields`'s contract admits hold the same cells.
pub proof fn lemma_extract_fields_deterministic(
    record_cells: Seq<Seq<char>>,
    field_pos: Seq<Range<usize>>,
    r1: Seq<Seq<char>>,
    r2: Seq<Seq<char>>,
)
    requires
        r1 == select_all(record_cells, field_pos),
        r2 == select_all(record_cells, field_pos),
    ensures
        r1 == r2,
{
}

} // verus!
