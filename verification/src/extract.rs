//! Extraction: pulling the elements selected by a range list out of a
//! sequence of bytes or characters, in range order, skipping out-of-bounds
//! indices silently.
use vstd::prelude::*;
use vstd::utf8::*;
use core::ops::Range;
use crate::text::{str_chars, chars_to_string};

verus! {

/// The addressing unit of one run: delimited fields, raw bytes, or
/// Unicode characters, each with its list of half-open ranges.
#[derive(Debug)]
pub enum Extract {
    Fields(Vec<Range<usize>>),
    Bytes(Vec<Range<usize>>),
    Chars(Vec<Range<usize>>),
}

/// The elements of `s` at the indices of `r`, in order; indices at or
/// beyond the end of `s` contribute nothing.
pub open spec fn select_one<T>(s: Seq<T>, r: Range<usize>) -> Seq<T> {
    let lo = if r.start <= s.len() { r.start as int } else { s.len() as int };
    let hi = if r.end <= s.len() { r.end as int } else { s.len() as int };
    if lo <= hi {
        s.subrange(lo, hi)
    } else {
        Seq::empty()
    }
}

/// The concatenation of the selections of each range, in range order.
pub open spec fn select_all<T>(s: Seq<T>, rs: Seq<Range<usize>>) -> Seq<T>
    decreases rs.len(),
{
    if rs.len() == 0 {
        Seq::empty()
    } else {
        select_one(s, rs.first()) + select_all(s, rs.drop_first())
    }
}

pub proof fn lemma_select_all_push<T>(s: Seq<T>, rs: Seq<Range<usize>>, r: Range<usize>)
    ensures
        select_all(s, rs.push(r)) == select_all(s, rs) + select_one(s, r),
    decreases rs.len(),
{
    if rs.len() == 0 {
        assert(rs.push(r).drop_first() =~= Seq::<Range<usize>>::empty());
        assert(rs.push(r).first() == r);
        assert(select_all(s, rs.push(r)) == select_one(s, r) + select_all(
            s,
            Seq::<Range<usize>>::empty(),
        ));
        assert(select_all(s, rs.push(r)) =~= select_all(s, rs) + select_one(s, r));
    } else {
        assert(rs.push(r).drop_first() =~= rs.drop_first().push(r));
        assert(rs.push(r).first() == rs.first());
        lemma_select_all_push(s, rs.drop_first(), r);
        assert(select_all(s, rs.push(r)) =~= select_all(s, rs) + select_one(s, r));
    }
}

/// The elements of `items` selected by `rs`, in range order, out-of-bounds
/// indices skipped.
pub fn select_vec<T: Copy>(items: &[T], rs: &[Range<usize>]) -> (v: Vec<T>)
    ensures
        v@ == select_all(items@, rs@),
{
    let n = items.len();
    let mut v: Vec<T> = Vec::new();
    let mut k: usize = 0;
    while k < rs.len()
        invariant
            n == items@.len(),
            k <= rs@.len(),
            v@ == select_all(items@, rs@.take(k as int)),
        decreases rs@.len() - k,
    {
        let lo = if rs[k].start <= n { rs[k].start } else { n };
        let hi = if rs[k].end <= n { rs[k].end } else { n };
        let mut i = lo;
        if lo <= hi {
            while i < hi
                invariant
                    n == items@.len(),
                    k < rs@.len(),
                    lo <= i <= hi <= n,
                    lo == (if rs@[k as int].start <= n { rs@[k as int].start as int } else {
                        n as int
                    }),
                    hi == (if rs@[k as int].end <= n { rs@[k as int].end as int } else {
                        n as int
                    }),
                    v@ == select_all(items@, rs@.take(k as int)) + items@.subrange(
                        lo as int,
                        i as int,
                    ),
                decreases hi - i,
            {
                v.push(items[i]);
                proof {
                    assert(items@.subrange(lo as int, i + 1) =~= items@.subrange(
                        lo as int,
                        i as int,
                    ).push(items@[i as int]));
                    assert(v@ =~= select_all(items@, rs@.take(k as int)) + items@.subrange(
                        lo as int,
                        i + 1,
                    ));
                }
                i = i + 1;
            }
        }
        proof {
            lemma_select_all_push(items@, rs@.take(k as int), rs@[k as int]);
            assert(rs@.take(k as int).push(rs@[k as int]) =~= rs@.take(k + 1));
            assert(v@ =~= select_all(items@, rs@.take(k + 1)));
        }
        k = k + 1;
    }
    proof {
        assert(rs@.take(rs@.len() as int) =~= rs@);
    }
    v
}

/// The characters of `line` at the character positions selected by
/// `char_pos`, re-encoded as text.
pub fn extract_chars(line: &str, char_pos: &[Range<usize>]) -> (r: String)
    ensures
        r@ == select_all(line@, char_pos@),
{
    let chars = str_chars(line);
    let sel = select_vec(chars.as_slice(), char_pos);
    chars_to_string(&sel)
}

/// What `String::from_utf8_lossy` makes of a byte sequence.
pub uninterp spec fn lossy_decode(bytes: Seq<u8>) -> Seq<char>;

/// Relies on `String::from_utf8_lossy`: the result is a function of the
/// bytes alone; any invalid UTF-8 sequence comes out as replacement
/// characters, and valid UTF-8 comes out as the characters it encodes.
#[verifier::external_body]
fn utf8_lossy(bytes: &[u8]) -> (r: String)
    ensures
        r@ == lossy_decode(bytes@),
        valid_utf8(bytes@) ==> r@ == decode_utf8(bytes@),
{
    String::from_utf8_lossy(bytes).into_owned()
}

/// The bytes of `line`'s UTF-8 encoding at the byte positions selected by
/// `byte_pos`, decoded lossily: a cut through a multi-byte character shows
/// up as replacement characters.
pub fn extract_bytes(line: &str, byte_pos: &[Range<usize>]) -> (r: String)
    ensures
        r@ == lossy_decode(select_all(encode_utf8(line@), byte_pos@)),
        valid_utf8(select_all(encode_utf8(line@), byte_pos@)) ==> r@ == decode_utf8(
            select_all(encode_utf8(line@), byte_pos@),
        ),
{
    let bytes = line.as_bytes();
    let sel = select_vec(bytes, byte_pos);
    utf8_lossy(sel.as_slice())
}

/// Extraction is pure: on one line and one range list, any two results
/// that `extract_chars`'s contract admits are the same string.
pub proof fn lemma_extract_chars_deterministic(
    line: Seq<char>,
    char_pos: Seq<Range<usize>>,
    r1: Seq<char>,
    r2: Seq<char>,
)
    requires
        r1 == select_all(line, char_pos),
        r2 == select_all(line, char_pos),
    ensures
        r1 == r2,
{
}

/// Extraction is pure: on one line and one range list, any two results
/// that `extract_bytes`'s contract admits are the same string.
pub proof fn lemma_extract_bytes_deterministic(
    line: Seq<char>,
    byte_pos: Seq<Range<usize>>,
    r1: Seq<char>,
    r2: Seq<char>,
)
    requires
        r1 == lossy_decode(select_all(encode_utf8(line), byte_pos)),
        r2 == lossy_decode(select_all(encode_utf8(line), byte_pos)),
    ensures
        r1 == r2,
{
}

/// An empty range list selects nothing, whatever the line holds.
pub proof fn lemma_empty_ranges_select_nothing<T>(s: Seq<T>)
    ensures
        select_all(s, Seq::<Range<usize>>::empty()) == Seq::<T>::empty(),
{
}

} // verus!
