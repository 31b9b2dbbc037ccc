//! The range-list parser: a comma-separated specification of 1-based
//! positions ("15,19-20") becomes an ordered list of 0-based half-open
//! ranges, kept in the order given, never sorted or merged.
use vstd::prelude::*;
use vstd::string::StrSliceExecFns;
use core::ops::Range;
use crate::digits::{all_digits, digits_val, is_digit, check_all_digits, parse_digits};
use crate::errors::{illegal_msg, order_msg, ConfigError, illegal_value_error, range_order_error};

verus! {

/// A token denotes a usable 1-based position: all digits, at least 1,
/// and no more than a `usize` holds.
pub open spec fn index_ok(s: Seq<char>) -> bool {
    s.len() > 0 && all_digits(s) && 1 <= digits_val(s) <= usize::MAX
}

/// `t` splits at `d` into two digit runs joined by a single dash.
pub open spec fn dash_split_at(t: Seq<char>, d: int) -> bool {
    &&& 1 <= d <= t.len() - 2
    &&& t[d] == '-'
    &&& all_digits(t.take(d))
    &&& all_digits(t.skip(d + 1))
}

/// `t` has the two-number form `N1-N2`.
pub open spec fn pair_shape(t: Seq<char>) -> bool {
    exists|d: int| dash_split_at(t, d)
}

/// What one token comes to: a 0-based half-open range, or the message
/// that rejects it.
pub open spec fn token_result(t: Seq<char>) -> Result<(int, int), Seq<char>> {
    if index_ok(t) {
        Ok((digits_val(t) - 1, digits_val(t) as int))
    } else if pair_shape(t) {
        let d = choose|d: int| dash_split_at(t, d);
        let a = t.take(d);
        let b = t.skip(d + 1);
        if !index_ok(a) {
            Err(illegal_msg(a))
        } else if !index_ok(b) {
            Err(illegal_msg(b))
        } else if digits_val(a) >= digits_val(b) {
            Err(order_msg(digits_val(a), digits_val(b)))
        } else {
            Ok((digits_val(a) - 1, digits_val(b) as int))
        }
    } else {
        Err(illegal_msg(t))
    }
}

/// The comma-separated tokens of a specification; an empty specification
/// is one empty token, and every comma bounds a token on each side.
pub open spec fn split_list(s: Seq<char>) -> Seq<Seq<char>>
    decreases s.len(),
{
    if s.len() == 0 {
        seq![Seq::<char>::empty()]
    } else {
        let rest = split_list(s.drop_first());
        if s[0] == ',' {
            seq![Seq::<char>::empty()] + rest
        } else {
            seq![seq![s[0]] + rest.first()] + rest.drop_first()
        }
    }
}

proof fn lemma_split_list_len(s: Seq<char>)
    ensures
        split_list(s).len() >= 1,
    decreases s.len(),
{
    if s.len() > 0 {
        lemma_split_list_len(s.drop_first());
    }
}

/// A specification without a comma is one token: itself.
proof fn lemma_split_no_comma(s: Seq<char>)
    requires
        forall|i: int| 0 <= i < s.len() ==> s[i] != ',',
    ensures
        split_list(s) == seq![s],
    decreases s.len(),
{
    if s.len() == 0 {
        assert(split_list(s) =~~= seq![s]);
    } else {
        lemma_split_no_comma(s.drop_first());
        assert(seq![s[0]] + s.drop_first() =~= s);
        assert(split_list(s) =~~= seq![s]);
    }
}

/// Splitting at the first comma: the head token, then the split of what
/// follows the comma.
proof fn lemma_split_first_comma(s: Seq<char>, k: int)
    requires
        0 <= k < s.len(),
        s[k] == ',',
        forall|i: int| 0 <= i < k ==> s[i] != ',',
    ensures
        split_list(s) == seq![s.take(k)] + split_list(s.skip(k + 1)),
    decreases k,
{
    if k == 0 {
        assert(s.take(0) =~= Seq::<char>::empty());
        assert(s.skip(1) =~= s.drop_first());
        assert(split_list(s) =~~= seq![s.take(0)] + split_list(s.skip(1)));
    } else {
        let rest = s.drop_first();
        assert(rest[k - 1] == ',');
        lemma_split_first_comma(rest, k - 1);
        lemma_split_list_len(rest.skip(k));
        assert(seq![s[0]] + rest.take(k - 1) =~= s.take(k));
        assert(rest.skip(k) =~= s.skip(k + 1));
        assert(split_list(s) =~~= seq![s.take(k)] + split_list(s.skip(k + 1)));
    }
}

/// A token splits at only one dash: each side of a split is all digits,
/// and a dash is no digit.
pub proof fn lemma_dash_split_unique(t: Seq<char>, d1: int, d2: int)
    requires
        dash_split_at(t, d1),
        dash_split_at(t, d2),
    ensures
        d1 == d2,
{
    if d1 < d2 {
        assert(t.take(d2)[d1] == t[d1]);
        assert(is_digit('-'));
        assert('-' as u32 == 45);
    } else if d2 < d1 {
        assert(t.take(d1)[d2] == t[d2]);
        assert(is_digit('-'));
        assert('-' as u32 == 45);
    }
}

/// A specification without a comma is one token; when that token is a
/// well-formed number n, the parse comes to the single range (n-1, n).
pub proof fn lemma_parse_single(s: Seq<char>)
    requires
        forall|i: int| 0 <= i < s.len() ==> s[i] != ',',
        index_ok(s),
    ensures
        split_list(s) == seq![s],
        token_result(s) == Ok::<(int, int), Seq<char>>(
            (digits_val(s) - 1, digits_val(s) as int),
        ),
{
    lemma_split_no_comma(s);
}

/// A well-formed pair token `N1-N2` comes to the range (N1-1, N2) when
/// N1 < N2, and otherwise to the message naming both numbers 1-based.
pub proof fn lemma_parse_pair(s: Seq<char>, d: int)
    requires
        dash_split_at(s, d),
        index_ok(s.take(d)),
        index_ok(s.skip(d + 1)),
    ensures
        digits_val(s.take(d)) < digits_val(s.skip(d + 1)) ==> token_result(s) == Ok::<
            (int, int),
            Seq<char>,
        >((digits_val(s.take(d)) - 1, digits_val(s.skip(d + 1)) as int)),
        digits_val(s.take(d)) >= digits_val(s.skip(d + 1)) ==> token_result(s) == Err::<
            (int, int),
            Seq<char>,
        >(order_msg(digits_val(s.take(d)), digits_val(s.skip(d + 1)))),
{
    assert(!index_ok(s)) by {
        assert(s[d] == '-');
        assert('-' as u32 == 45);
        assert(!is_digit(s[d]));
    }
    let d0 = choose|d0: int| dash_split_at(s, d0);
    lemma_dash_split_unique(s, d0, d);
}

/// A token beginning with `+` is rejected, in either of its forms.
pub proof fn lemma_reject_leading_plus(t: Seq<char>)
    requires
        t.len() > 0,
        t[0] == '+',
    ensures
        token_result(t) is Err,
{
    assert('+' as u32 == 43);
    assert(!is_digit(t[0]));
    assert(!index_ok(t));
    if pair_shape(t) {
        let d = choose|d: int| dash_split_at(t, d);
        assert(t.take(d)[0] == t[0]);
        assert(is_digit(t[0]));
        assert(false);
    }
}

/// A digit token denoting zero is rejected with the message that echoes it.
pub proof fn lemma_reject_zero(t: Seq<char>)
    requires
        all_digits(t),
        digits_val(t) == 0,
    ensures
        token_result(t) == Err::<(int, int), Seq<char>>(illegal_msg(t)),
{
    assert(!index_ok(t));
    if pair_shape(t) {
        let d = choose|d: int| dash_split_at(t, d);
        assert(is_digit(t[d]));
        assert('-' as u32 == 45);
        assert(false);
    }
}

/// A token in neither form is rejected with the message that echoes it.
pub proof fn lemma_reject_shapeless(t: Seq<char>)
    requires
        !index_ok(t),
        !pair_shape(t),
    ensures
        token_result(t) == Err::<(int, int), Seq<char>>(illegal_msg(t)),
{
}

/// Where a token's dashes sit: none, exactly one, or a first and a second.
enum DashScan {
    NoDash,
    One(usize),
    Many(usize, usize),
}

fn scan_dashes(t: &str) -> (r: DashScan)
    ensures
        match r {
            DashScan::NoDash => forall|j: int| 0 <= j < t@.len() ==> t@[j] != '-',
            DashScan::One(fd) => fd < t@.len() && t@[fd as int] == '-' && forall|j: int|
                0 <= j < t@.len() && j != fd ==> t@[j] != '-',
            DashScan::Many(fd, sd) => fd < sd < t@.len() && t@[fd as int] == '-'
                && t@[sd as int] == '-' && forall|j: int| 0 <= j < fd ==> t@[j] != '-',
        },
{
    let n = t.unicode_len();
    let mut found = false;
    let mut fd: usize = 0;
    let mut i: usize = 0;
    while i < n
        invariant
            n == t@.len(),
            i <= n,
            !found ==> forall|j: int| 0 <= j < i ==> t@[j] != '-',
            found ==> fd < i && t@[fd as int] == '-' && (forall|j: int|
                0 <= j < i && j != fd ==> t@[j] != '-'),
        decreases n - i,
    {
        if t.get_char(i) == '-' {
            if found {
                return DashScan::Many(fd, i);
            }
            found = true;
            fd = i;
        }
        i = i + 1;
    }
    if found {
        DashScan::One(fd)
    } else {
        DashScan::NoDash
    }
}

/// Reads one token as a single 1-based position and hands back its
/// 0-based index. Rejected tokens get the message that echoes them.
pub fn parse_index(input: &str) -> (r: Result<usize, ConfigError>)
    ensures
        match r {
            Ok(v) => index_ok(input@) && v + 1 == digits_val(input@),
            Err(e) => !index_ok(input@) && e@ == illegal_msg(input@),
        },
{
    if input.unicode_len() > 0 && input.get_char(0) == '+' {
        assert(!is_digit(input@[0]));
        return Err(illegal_value_error(input));
    }
    match parse_digits(input) {
        Some(v) => Ok(v - 1),
        None => Err(illegal_value_error(input)),
    }
}

/// Reads one token in either form and builds its half-open range.
fn parse_token(tok: &str) -> (r: Result<Range<usize>, ConfigError>)
    ensures
        match r {
            Ok(rg) => token_result(tok@) == Ok::<(int, int), Seq<char>>(
                (rg.start as int, rg.end as int),
            ) && rg.start < rg.end,
            Err(e) => token_result(tok@) is Err && e@ == token_result(tok@)->Err_0,
        },
{
    let e = match parse_index(tok) {
        Ok(v) => {
            return Ok(v..v + 1);
        },
        Err(e) => e,
    };
    let n = tok.unicode_len();
    match scan_dashes(tok) {
        DashScan::NoDash => {
            proof {
                if pair_shape(tok@) {
                    let d = choose|d: int| dash_split_at(tok@, d);
                    assert(tok@[d] == '-');
                }
            }
            Err(e)
        },
        DashScan::Many(fd, sd) => {
            proof {
                if pair_shape(tok@) {
                    let d = choose|d: int| dash_split_at(tok@, d);
                    if d > fd {
                        assert(tok@.take(d)[fd as int] == tok@[fd as int]);
                        assert(is_digit('-'));
                    } else {
                        assert(d == fd);
                        assert(tok@.skip(d + 1)[sd - d - 1] == tok@[sd as int]);
                        assert(is_digit('-'));
                    }
                    assert('-' as u32 == 45);
                    assert(false);
                }
            }
            Err(e)
        },
        DashScan::One(fd) => {
            if fd == 0 || fd + 1 == n {
                proof {
                    if pair_shape(tok@) {
                        let d = choose|d: int| dash_split_at(tok@, d);
                        assert(d == fd);
                    }
                }
                return Err(e);
            }
            let first = tok.substring_char(0, fd);
            let second = tok.substring_char(fd + 1, n);
            proof {
                assert(first@ =~= tok@.take(fd as int));
                assert(second@ =~= tok@.skip(fd + 1));
            }
            if !check_all_digits(first) || !check_all_digits(second) {
                proof {
                    if pair_shape(tok@) {
                        let d = choose|d: int| dash_split_at(tok@, d);
                        assert(d == fd);
                    }
                }
                return Err(e);
            }
            proof {
                assert(dash_split_at(tok@, fd as int));
                let d = choose|d: int| dash_split_at(tok@, d);
                assert(d == fd);
            }
            let n1 = match parse_index(first) {
                Ok(v) => v,
                Err(e1) => {
                    return Err(e1);
                },
            };
            let n2 = match parse_index(second) {
                Ok(v) => v,
                Err(e2) => {
                    return Err(e2);
                },
            };
            if n1 >= n2 {
                // the message shows the numbers 1-based, as the user wrote them
                Err(range_order_error(n1 + 1, n2 + 1))
            } else {
                Ok(n1..n2 + 1)
            }
        },
    }
}

/// Parses a comma-separated range specification into 0-based half-open
/// ranges, one per token, in token order. The first bad token stops the
/// parse with the message that names it.
pub fn parse_pos(range: &str) -> (r: Result<Vec<Range<usize>>, ConfigError>)
    ensures
        match r {
            Ok(v) => {
                let toks = split_list(range@);
                &&& v@.len() == toks.len()
                &&& forall|i: int|
                    0 <= i < toks.len() ==> #[trigger] token_result(toks[i]) == Ok::<
                        (int, int),
                        Seq<char>,
                    >((v@[i].start as int, v@[i].end as int))
                &&& forall|i: int| 0 <= i < v@.len() ==> #[trigger] v@[i].start < v@[i].end
            },
            Err(e) => {
                let toks = split_list(range@);
                exists|i: int|
                    {
                        &&& 0 <= i < toks.len()
                        &&& forall|j: int| 0 <= j < i ==> #[trigger] token_result(toks[j]) is Ok
                        &&& (#[trigger] token_result(toks[i])) is Err
                        &&& e@ == token_result(toks[i])->Err_0
                    }
            },
        },
{
    let ghost toks = split_list(range@);
    let n = range.unicode_len();
    let mut out: Vec<Range<usize>> = Vec::new();
    let mut pos: usize = 0;
    proof {
        assert(range@.skip(0) =~= range@);
        assert(toks.skip(0) =~= toks);
    }
    loop
        invariant
            n == range@.len(),
            pos <= n,
            toks == split_list(range@),
            out@.len() <= toks.len(),
            split_list(range@.skip(pos as int)) == toks.skip(out@.len() as int),
            forall|i: int|
                0 <= i < out@.len() ==> #[trigger] token_result(toks[i]) == Ok::<
                    (int, int),
                    Seq<char>,
                >((out@[i].start as int, out@[i].end as int)),
            forall|i: int| 0 <= i < out@.len() ==> #[trigger] out@[i].start < out@[i].end,
        decreases n - pos + 1,
    {
        let ghost done = out@.len() as int;
        let ghost rem = range@.skip(pos as int);
        proof {
            lemma_split_list_len(rem);
            assert(toks.skip(done).len() >= 1);
            assert(done < toks.len());
        }
        // the current token runs to the next comma or to the end
        let mut j = pos;
        while j < n && range.get_char(j) != ','
            invariant
                n == range@.len(),
                pos <= j <= n,
                forall|m: int| pos <= m < j ==> range@[m] != ',',
            decreases n - j,
        {
            j = j + 1;
        }
        let tok = range.substring_char(pos, j);
        proof {
            assert(tok@ =~= rem.take(j - pos));
            if j < n {
                assert(rem[j - pos] == range@[j as int]);
                assert(forall|m: int| 0 <= m < j - pos ==> rem[m] == range@[pos + m]);
                lemma_split_first_comma(rem, j - pos);
                assert(rem.skip(j - pos + 1) =~= range@.skip(j + 1));
            } else {
                assert(forall|m: int| 0 <= m < rem.len() ==> rem[m] == range@[pos + m]);
                lemma_split_no_comma(rem);
            }
            assert(toks.skip(done).first() == tok@);
            assert(toks[done] == tok@);
        }
        match parse_token(tok) {
            Err(e) => {
                proof {
                    assert(token_result(toks[done]) is Err);
                }
                return Err(e);
            },
            Ok(rg) => {
                out.push(rg);
            },
        }
        if j == n {
            proof {
                assert(split_list(rem) =~~= seq![tok@]);
                assert(toks.skip(done).len() == 1);
                assert(out@.len() == toks.len());
                assert(forall|i: int|
                    0 <= i < toks.len() ==> #[trigger] token_result(toks[i]) is Ok);
            }
            return Ok(out);
        }
        proof {
            assert(toks.skip(done).drop_first() =~= toks.skip(done + 1));
            assert(split_list(rem) == seq![tok@] + split_list(range@.skip(j + 1)));
            assert(split_list(rem).drop_first() =~= split_list(range@.skip(j + 1)));
        }
        pos = j + 1;
    }
}

} // verus!
