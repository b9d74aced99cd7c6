//! Whole-file laws: serializing a parsed file reproduces its bytes, parsing
//! them again yields the same file, and corrupting the header is always
//! caught.

use vstd::prelude::*;
use crate::error::DuckError;
use crate::format::{
    acct_label_seq, all_digits, digits_value, footer_pre_seq, header_seq, hits_in, is_digit,
    is_match_at,
    lemma_digits_canonical, mark_seq, pow10,
};
use crate::bill::{BillModel, parse_bill};
use crate::billfile::{OldFileModel, old_parse};
use crate::file::{
    assembled_bytes, bills_result, concat_raws, file_model_wf, lemma_bills_err_persists,
    lemma_hits_props, lemma_hits_split, lemma_parse_file_ok_wf, marks_of, parse_file,
    window_result,
};

verus! {

/// A parse-accepted buffer is tidy when its first record marker sits
/// immediately after the header.  A buffer that parses but is not tidy
/// carries stray bytes between header and first mark that no bill owns,
/// and serializing drops them.
pub open spec fn tidy(d: Seq<u8>) -> bool {
    marks_of(d)[0] == 23
}

/// In a parse-accepted buffer the last marker is the footer's second one,
/// so the footer window is three bytes long and holds no account label: no
/// byte after that marker can open another marker.
proof fn lemma_footer_window_empty(d: Seq<u8>)
    requires
        parse_file(d) is Ok,
    ensures
        ({
            let marks = marks_of(d);
            marks[marks.len() - 1] == d.len() - 40 && hits_in(
                d,
                acct_label_seq(),
                marks[marks.len() - 2],
                marks[marks.len() - 1] - 9,
            ).len() == 0
        }),
{
    let len = d.len() as int;
    let marks = marks_of(d);
    let ll = marks.len();
    lemma_hits_props(d, mark_seq(), 0, len);
    let p = marks[ll - 1];
    assert(is_match_at(d, mark_seq(), p));
    assert(marks[ll - 2] == len - 43);
    assert(p > len - 43);
    let footer = d.subrange(len - 43, len);
    assert(footer.subrange(0, 36) == footer_pre_seq());
    assert(forall|k: int| 0 <= k < 36 ==> d[len - 43 + k] == footer_pre_seq()[k]) by {
        assert(forall|k: int|
            0 <= k < 36 ==> #[trigger] footer.subrange(0, 36)[k] == d[len - 43 + k]);
    }
    let cf = d.subrange(len - 7, len - 1);
    assert(all_digits(cf));
    assert(forall|q: int| len - 7 <= q < len - 1 ==> is_digit(#[trigger] d[q])) by {
        assert(forall|q: int| len - 7 <= q < len - 1 ==> d[q] == cf[q - (len - 7)]);
    }
    if p != len - 40 {
        assert(d.subrange(p, p + 3)[0] == d[p]);
        assert(d[p] == 0x1b);
        if p < len - 7 {
            let k = p - (len - 43);
            assert(1 <= k < 36 && k != 3);
            assert(d[p] == footer_pre_seq()[k]);
            assert(forall|j: int|
                1 <= j < 36 && j != 3 ==> footer_pre_seq()[j] != 0x1b);
            assert(false);
        } else if p < len - 1 {
            assert(is_digit(d[p]));
            assert(false);
        } else {
            assert(p + 3 <= len);
            assert(false);
        }
    }
    assert(hits_in(d, acct_label_seq(), len - 43, (len - 40) - 9) =~= Seq::<int>::empty());
}

/// A successful window walk yields at most one bill per window; and when
/// it yields exactly one per window, each bill's raw span is its own
/// window's bytes.
proof fn lemma_bills_count(d: Seq<u8>, marks: Seq<int>, m: int)
    requires
        0 <= m,
        bills_result(d, marks, m) is Ok,
    ensures
        bills_result(d, marks, m).unwrap().len() <= m,
        bills_result(d, marks, m).unwrap().len() == m ==> forall|w: int|
            0 <= w < m ==> (#[trigger] bills_result(d, marks, m).unwrap()[w]).raw == d.subrange(
                marks[w],
                marks[w + 1],
            ),
    decreases m,
{
    if m <= 0 {
    } else {
        lemma_bills_count(d, marks, m - 1);
        let pre = bills_result(d, marks, m - 1).unwrap();
        let ws = window_result(d, marks[m - 1], marks[m]).unwrap();
        let cur = bills_result(d, marks, m).unwrap();
        assert(cur == pre + ws);
        assert(ws.len() <= 1);
        if cur.len() == m {
            assert(pre.len() == m - 1 && ws.len() == 1);
            let b = parse_bill(d.subrange(marks[m - 1], marks[m])).unwrap();
            assert(ws == seq![b]);
            assert(b.raw == d.subrange(marks[m - 1], marks[m]));
            assert(forall|w: int| 0 <= w < m - 1 ==> cur[w] == pre[w]);
            assert(cur[m - 1] == b);
        }
    }
}

/// Bills whose raw spans are consecutive windows concatenate to exactly
/// the bytes between the first mark and mark `m`.
proof fn lemma_concat_tiled(d: Seq<u8>, marks: Seq<int>, bs: Seq<BillModel>, m: int)
    requires
        0 <= m < marks.len(),
        bs.len() == m,
        forall|w: int| 0 <= w < m ==> (#[trigger] bs[w]).raw == d.subrange(marks[w], marks[w + 1]),
        forall|k: int| 0 <= k < marks.len() ==> 0 <= #[trigger] marks[k] <= d.len(),
        forall|k1: int, k2: int|
            0 <= k1 < k2 < marks.len() ==> #[trigger] marks[k1] < #[trigger] marks[k2],
    ensures
        concat_raws(bs) == d.subrange(marks[0], marks[m]),
    decreases m,
{
    if m == 0 {
        assert(concat_raws(bs) =~= d.subrange(marks[0], marks[0]));
    } else {
        let pre = bs.drop_last();
        assert(forall|w: int| 0 <= w < m - 1 ==> pre[w] == bs[w]);
        lemma_concat_tiled(d, marks, pre, m - 1);
        assert(concat_raws(bs) == concat_raws(pre) + bs.last().raw);
        assert(bs.last().raw == d.subrange(marks[m - 1], marks[m]));
        assert(concat_raws(bs) =~= d.subrange(marks[0], marks[m]));
    }
}

/// The unconditional shape of serialization: header, raw bill spans and
/// stored footer reproduce a parse-accepted buffer except for any stray
/// bytes between the header and the first record marker, which no bill
/// owns and serialization therefore drops.
pub proof fn lemma_serialized_form(d: Seq<u8>)
    requires
        parse_file(d) is Ok,
    ensures
        ({
            let m = parse_file(d).unwrap();
            m.header + concat_raws(m.bills) + m.footer == d.subrange(0, 23) + d.subrange(
                marks_of(d)[0],
                d.len() as int,
            )
        }),
{
    let m = parse_file(d).unwrap();
    let marks = marks_of(d);
    let ll = marks.len();
    lemma_hits_props(d, mark_seq(), 0, d.len() as int);
    // the footer window holds no label, so it contributes no bill
    lemma_footer_window_empty(d);
    let lo = marks[ll - 2];
    let hi = marks[ll - 1];
    assert(hits_in(d, acct_label_seq(), lo, hi - 9).len() == 0);
    assert(window_result(d, lo, hi) == Ok::<Seq<BillModel>, DuckError>(Seq::empty()));
    let pre = bills_result(d, marks, ll - 2).unwrap();
    assert(m.bills == pre + Seq::<BillModel>::empty());
    assert(m.bills =~= pre);
    // the count cross-check forces exactly one bill per bill window, so the
    // raw spans tile the bytes between the first mark and the footer
    assert(pre.len() == ll - 2);
    lemma_bills_count(d, marks, ll - 2);
    lemma_concat_tiled(d, marks, pre, ll - 2);
    assert(concat_raws(m.bills) == d.subrange(marks[0], marks[ll - 2]));
    assert(m.header + concat_raws(m.bills) + m.footer =~= d.subrange(0, 23) + d.subrange(
        marks[0],
        d.len() as int,
    ));
}

/// Serializing a tidy parse-accepted buffer's model — header, raw bill
/// spans in order, stored footer — reproduces the input bytes exactly.
pub proof fn lemma_serialized_bytes(d: Seq<u8>)
    requires
        parse_file(d) is Ok,
        tidy(d),
    ensures
        ({
            let m = parse_file(d).unwrap();
            m.header + concat_raws(m.bills) + m.footer == d
        }),
{
    lemma_serialized_form(d);
    assert(d.subrange(0, 23) + d.subrange(23, d.len() as int) =~= d);
}

/// The tidy condition is exact: serialization reproduces a parse-accepted
/// buffer byte for byte precisely when the buffer is tidy.
pub proof fn lemma_tidy_exact(d: Seq<u8>)
    requires
        parse_file(d) is Ok,
    ensures
        ({
            let m = parse_file(d).unwrap();
            (m.header + concat_raws(m.bills) + m.footer == d) <==> tidy(d)
        }),
{
    let m = parse_file(d).unwrap();
    lemma_serialized_form(d);
    lemma_hits_props(d, mark_seq(), 0, d.len() as int);
    if tidy(d) {
        lemma_serialized_bytes(d);
    }
    if m.header + concat_raws(m.bills) + m.footer == d {
        // equal lengths force the stray region between header and first
        // mark to be empty
        assert(d.len() == 23 + (d.len() - marks_of(d)[0]));
    }
}

/// Round-trip: parsing the serialization of any tidy parse-accepted file
/// yields the very same model — header, bill sequence, footer and count.
pub proof fn lemma_round_trip(d: Seq<u8>)
    requires
        parse_file(d) is Ok,
        tidy(d),
    ensures
        ({
            let m = parse_file(d).unwrap();
            parse_file(m.header + concat_raws(m.bills) + m.footer) == Ok::<_, DuckError>(m)
        }),
{
    lemma_serialized_bytes(d);
}

/// Full-set idempotence: assembling with the complete original bill
/// sequence, in original order, builds a byte-identical file, and reparsing
/// it yields the same model.
pub proof fn lemma_full_set_idempotence(d: Seq<u8>)
    requires
        parse_file(d) is Ok,
        tidy(d),
    ensures
        ({
            let m = parse_file(d).unwrap();
            assembled_bytes(m.bills) == d && parse_file(assembled_bytes(m.bills)) == Ok::<
                _,
                DuckError,
            >(m)
        }),
{
    let m = parse_file(d).unwrap();
    lemma_serialized_bytes(d);
    lemma_parse_file_ok_wf(d);
    assert(assembled_bytes(m.bills) =~= m.header + concat_raws(m.bills) + m.footer);
}

/// Full-set reassembly in general: assembling with the complete bill
/// sequence of any parse-accepted buffer builds a file that reparses to
/// the very same model, under the same length proviso as the general
/// round-trip.
pub proof fn lemma_full_set_reassembly_general(d: Seq<u8>)
    requires
        parse_file(d) is Ok,
        23 + d.len() - marks_of(d)[0] >= 4000,
    ensures
        ({
            let m = parse_file(d).unwrap();
            parse_file(assembled_bytes(m.bills)) == Ok::<_, DuckError>(m)
        }),
{
    let m = parse_file(d).unwrap();
    lemma_round_trip_general(d);
    lemma_parse_file_ok_wf(d);
    assert(assembled_bytes(m.bills) =~= m.header + concat_raws(m.bills) + m.footer);
}

/// Two equal-length buffers that agree below `bound` match a pattern at the
/// same offsets there.
proof fn lemma_match_agree(d1: Seq<u8>, d2: Seq<u8>, pat: Seq<u8>, p: int, bound: int)
    requires
        d1.len() == d2.len(),
        bound <= d1.len(),
        forall|i: int| 0 <= i < bound ==> d1[i] == d2[i],
        0 <= p,
        p + pat.len() <= bound,
    ensures
        is_match_at(d1, pat, p) == is_match_at(d2, pat, p),
{
    assert(d1.subrange(p, p + pat.len()) =~= d2.subrange(p, p + pat.len()));
}

/// Two equal-length buffers that agree below `bound` have the same pattern
/// hits in any scan range that reads only below `bound`.
proof fn lemma_hits_agree(d1: Seq<u8>, d2: Seq<u8>, pat: Seq<u8>, lo: int, hi: int, bound: int)
    requires
        d1.len() == d2.len(),
        bound <= d1.len(),
        forall|i: int| 0 <= i < bound ==> d1[i] == d2[i],
        hi + pat.len() <= bound + 1,
    ensures
        hits_in(d1, pat, lo, hi) == hits_in(d2, pat, lo, hi),
    decreases hi - lo,
{
    if hi <= lo {
    } else {
        lemma_hits_agree(d1, d2, pat, lo, hi - 1, bound);
        if hi - 1 >= 0 {
            lemma_match_agree(d1, d2, pat, hi - 1, bound);
        }
    }
}

/// Two equal-length buffers that agree below `bound` yield the same bills
/// from windows that lie wholly below `bound`.
proof fn lemma_bills_agree(d1: Seq<u8>, d2: Seq<u8>, marks: Seq<int>, m: int, bound: int)
    requires
        d1.len() == d2.len(),
        bound <= d1.len(),
        forall|i: int| 0 <= i < bound ==> d1[i] == d2[i],
        0 <= m < marks.len(),
        forall|k: int| 0 <= k < marks.len() ==> 0 <= #[trigger] marks[k] <= bound,
        forall|k1: int, k2: int|
            0 <= k1 < k2 < marks.len() ==> #[trigger] marks[k1] < #[trigger] marks[k2],
    ensures
        bills_result(d1, marks, m) == bills_result(d2, marks, m),
    decreases m,
{
    if m <= 0 {
    } else {
        lemma_bills_agree(d1, d2, marks, m - 1, bound);
        let lo = marks[m - 1];
        let hi = marks[m];
        assert(lo < hi);
        lemma_hits_agree(d1, d2, acct_label_seq(), lo, hi - 9, bound);
        assert(d1.subrange(lo, hi) =~= d2.subrange(lo, hi));
        assert(window_result(d1, lo, hi) == window_result(d2, lo, hi));
    }
}

/// A scan range in which the pattern occurs nowhere contributes no hits.
proof fn lemma_hits_none(d: Seq<u8>, pat: Seq<u8>, lo: int, hi: int)
    requires
        forall|p: int| lo <= p < hi ==> !is_match_at(d, pat, p),
    ensures
        hits_in(d, pat, lo, hi) == Seq::<int>::empty(),
    decreases hi - lo,
{
    if hi <= lo {
        assert(hits_in(d, pat, lo, hi) =~= Seq::<int>::empty());
    } else {
        lemma_hits_none(d, pat, lo, hi - 1);
    }
}

/// Footer/count integrity: overwriting only the footer's six count digits
/// with digits asserting any other count makes reparsing fail with
/// `MarkCountMismatch` — the count field alone is never trusted.
pub proof fn lemma_count_tamper(d: Seq<u8>, c2: Seq<u8>)
    requires
        parse_file(d) is Ok,
        c2.len() == 6,
        all_digits(c2),
        digits_value(c2) != parse_file(d).unwrap().count as int,
    ensures
        ({
            let d2 = d.subrange(0, d.len() - 7) + c2 + d.subrange(d.len() - 1, d.len() as int);
            parse_file(d2) == Err::<crate::file::FileModel, DuckError>(
                DuckError::MarkCountMismatch,
            )
        }),
{
    let len = d.len() as int;
    let d2 = d.subrange(0, len - 7) + c2 + d.subrange(len - 1, len);
    let bound = len - 7;
    assert(d2.len() == len);
    assert(forall|i: int| 0 <= i < bound ==> d2[i] == d[i]);
    // the header is untouched
    assert(d2.subrange(0, 23) =~= d.subrange(0, 23));
    // the count digits of both buffers are ASCII digits, so no marker byte
    // can sit at or after the count field in either buffer
    let cf = d.subrange(len - 7, len - 1);
    assert(forall|q: int| len - 7 <= q < len - 1 ==> is_digit(#[trigger] d[q])) by {
        assert(forall|q: int| len - 7 <= q < len - 1 ==> d[q] == cf[q - (len - 7)]);
    }
    assert(forall|q: int| len - 7 <= q < len - 1 ==> is_digit(#[trigger] d2[q])) by {
        assert(forall|q: int| len - 7 <= q < len - 1 ==> d2[q] == c2[q - (len - 7)]);
    }
    assert forall|p: int| len - 9 <= p < len implies !is_match_at(d, mark_seq(), p)
        && !is_match_at(d2, mark_seq(), p) by {
        if p + 3 <= len {
            if is_match_at(d, mark_seq(), p) {
                assert(d.subrange(p, p + 3)[2] == d[p + 2] && d.subrange(p, p + 3)[1] == d[p + 1]
                    && d.subrange(p, p + 3)[0] == d[p]);
                assert(d[p] == 0x1b && d[p + 1] == 0x45 && d[p + 2] == 0x0d);
                assert(false);
            }
            if is_match_at(d2, mark_seq(), p) {
                assert(d2.subrange(p, p + 3)[2] == d2[p + 2] && d2.subrange(p, p + 3)[1] == d2[p
                    + 1] && d2.subrange(p, p + 3)[0] == d2[p]);
                assert(d2[p] == 0x1b && d2[p + 1] == 0x45 && d2[p + 2] == 0x0d);
                assert(false);
            }
        }
    }
    // so the marker scans agree below the count field and find nothing after
    lemma_hits_split(d, mark_seq(), 0, len - 9, len);
    lemma_hits_split(d2, mark_seq(), 0, len - 9, len);
    lemma_hits_agree(d, d2, mark_seq(), 0, len - 9, bound);
    lemma_hits_none(d, mark_seq(), len - 9, len);
    lemma_hits_none(d2, mark_seq(), len - 9, len);
    assert(marks_of(d) =~= hits_in(d, mark_seq(), 0, len - 9));
    assert(marks_of(d2) =~= hits_in(d2, mark_seq(), 0, len - 9));
    assert(marks_of(d2) == marks_of(d));
    let marks = marks_of(d);
    lemma_hits_props(d, mark_seq(), 0, len - 9);
    assert(forall|k: int| 0 <= k < marks.len() ==> 0 <= #[trigger] marks[k] <= bound);
    // no window reads at or above the count field either
    lemma_bills_agree(d, d2, marks, marks.len() - 1, bound);
    // the count field of the tampered buffer is exactly the new digits
    assert(d2.subrange(len - 7, len - 1) =~= c2);
    crate::text::lemma_ascii_decode(c2);
    lemma_digits_canonical(c2);
    reveal_with_fuel(pow10, 8);
    let m = parse_file(d).unwrap();
    assert(m.count as int == bills_result(d, marks, marks.len() - 1).unwrap().len());
}

/// Header corruption: flipping any single byte within the header region of
/// a parse-accepted buffer makes reparsing fail with `BadHeaderFormat`.
pub proof fn lemma_header_corruption(d: Seq<u8>, j: int, b: u8)
    requires
        parse_file(d) is Ok,
        0 <= j < 23,
        b != d[j],
    ensures
        parse_file(d.update(j, b)) == Err::<crate::file::FileModel, DuckError>(
            DuckError::BadHeaderFormat,
        ),
{
    let d2 = d.update(j, b);
    assert(d.subrange(0, 23) == header_seq());
    assert(d2.subrange(0, 23)[j] == b);
    assert(d.subrange(0, 23)[j] == d[j]);
    assert(d2.subrange(0, 23) != header_seq());
}

/// Header corruption holds of the span-index variant too: flipping any
/// single header byte of an accepted buffer makes reconstruction fail with
/// `BadHeaderFormat`.
pub proof fn lemma_old_header_corruption(d: Seq<u8>, j: int, b: u8)
    requires
        old_parse(d) is Ok,
        0 <= j < 23,
        b != d[j],
    ensures
        old_parse(d.update(j, b)) == Err::<OldFileModel, DuckError>(DuckError::BadHeaderFormat),
{
    let d2 = d.update(j, b);
    assert(d.subrange(0, 23) == header_seq());
    assert(d2.subrange(0, 23)[j] == b);
    assert(d.subrange(0, 23)[j] == d[j]);
    assert(d2.subrange(0, 23) != header_seq());
}

/// A buffer that opens with the fixed header holds no record marker within
/// the header region.
proof fn lemma_header_region_no_marks(x: Seq<u8>)
    requires
        x.len() >= 23,
        x.subrange(0, 23) == header_seq(),
    ensures
        forall|q: int| 0 <= q < 23 ==> !is_match_at(x, mark_seq(), q),
{
    assert(forall|j: int| 0 <= j < 23 ==> x[j] == header_seq()[j]) by {
        assert(forall|j: int| 0 <= j < 23 ==> #[trigger] x.subrange(0, 23)[j] == x[j]);
    }
    assert forall|q: int| 0 <= q < 23 implies !is_match_at(x, mark_seq(), q) by {
        if is_match_at(x, mark_seq(), q) {
            assert(x.subrange(q, q + 3)[0] == x[q]);
            assert(x.subrange(q, q + 3)[1] == x[q + 1]);
            assert(x[q] == 0x1b && x[q + 1] == 0x45);
            if q <= 21 {
                assert(header_seq()[q] == 0x1b && header_seq()[q + 1] == 0x45);
                assert(forall|j: int|
                    0 <= j < 22 ==> !((#[trigger] header_seq()[j]) == 0x1b && header_seq()[j + 1]
                        == 0x45));
                assert(false);
            } else {
                assert(header_seq()[22] == 0x0d);
                assert(false);
            }
        }
    }
}

/// Scanning a suffix copied `delta` bytes leftward finds the same hits,
/// each shifted by `delta`.
proof fn lemma_hits_shift(d: Seq<u8>, s: Seq<u8>, pat: Seq<u8>, delta: int, lo: int, hi: int)
    requires
        0 <= delta,
        s.len() + delta == d.len(),
        0 <= lo,
        forall|i: int| lo <= i < s.len() ==> s[i] == d[i + delta],
    ensures
        hits_in(s, pat, lo, hi) == hits_in(d, pat, lo + delta, hi + delta).map_values(
            |p: int| p - delta,
        ),
    decreases hi - lo,
{
    let shifted = hits_in(d, pat, lo + delta, hi + delta).map_values(|p: int| p - delta);
    if hi <= lo {
        assert(hits_in(d, pat, lo + delta, hi + delta) =~= Seq::<int>::empty());
        assert(hits_in(s, pat, lo, hi) =~= shifted);
    } else {
        lemma_hits_shift(d, s, pat, delta, lo, hi - 1);
        let q = hi - 1;
        assert(is_match_at(s, pat, q) == is_match_at(d, pat, q + delta)) by {
            if q + pat.len() <= s.len() {
                assert(s.subrange(q, q + pat.len()) =~= d.subrange(
                    q + delta,
                    q + delta + pat.len(),
                ));
            }
        }
        let prev_s = hits_in(s, pat, lo, q);
        let prev_shifted = hits_in(d, pat, lo + delta, q + delta).map_values(|p: int| p - delta);
        if is_match_at(s, pat, q) {
            assert(hits_in(s, pat, lo, hi) == prev_s.push(q));
            assert(hits_in(d, pat, lo + delta, hi + delta) == hits_in(
                d,
                pat,
                lo + delta,
                q + delta,
            ).push(q + delta));
            assert(shifted =~= prev_shifted.push(q));
            assert(hits_in(s, pat, lo, hi) =~= shifted);
        } else {
            assert(hits_in(s, pat, lo, hi) == prev_s);
            assert(hits_in(d, pat, lo + delta, hi + delta) == hits_in(
                d,
                pat,
                lo + delta,
                q + delta,
            ));
            assert(hits_in(s, pat, lo, hi) =~= shifted);
        }
    }
}

/// Windows copied `delta` bytes leftward yield the same bills.
proof fn lemma_bills_shift(
    d: Seq<u8>,
    s: Seq<u8>,
    gm: Seq<int>,
    sm: Seq<int>,
    delta: int,
    m: int,
)
    requires
        0 <= delta,
        s.len() + delta == d.len(),
        forall|i: int| 23 <= i < s.len() ==> s[i] == d[i + delta],
        sm == gm.map_values(|p: int| p - delta),
        forall|k: int| 0 <= k < gm.len() ==> 23 + delta <= #[trigger] gm[k] && gm[k] + 3 <= d.len(),
        forall|k1: int, k2: int|
            0 <= k1 < k2 < gm.len() ==> #[trigger] gm[k1] < #[trigger] gm[k2],
        0 <= m < gm.len(),
    ensures
        bills_result(s, sm, m) == bills_result(d, gm, m),
    decreases m,
{
    if m <= 0 {
    } else {
        lemma_bills_shift(d, s, gm, sm, delta, m - 1);
        let lo = gm[m - 1];
        let hi = gm[m];
        assert(sm[m - 1] == lo - delta && sm[m] == hi - delta);
        assert(lo < hi);
        assert(s.subrange(lo - delta, hi - delta) =~= d.subrange(lo, hi));
        lemma_hits_shift(d, s, acct_label_seq(), delta, lo - delta, hi - delta - 9);
        assert(hits_in(s, acct_label_seq(), lo - delta, hi - delta - 9).len() == hits_in(
            d,
            acct_label_seq(),
            lo,
            hi - 9,
        ).len());
        assert(window_result(s, sm[m - 1], sm[m]) == window_result(d, lo, hi));
    }
}

/// Round-trip in general: reparsing the serialization of any parse-accepted
/// buffer yields the very same model, provided the serialized bytes still
/// reach the minimum length (serialization only ever drops the stray bytes
/// between header and first mark, so a tidy buffer trivially qualifies).
pub proof fn lemma_round_trip_general(d: Seq<u8>)
    requires
        parse_file(d) is Ok,
        23 + d.len() - marks_of(d)[0] >= 4000,
    ensures
        ({
            let m = parse_file(d).unwrap();
            parse_file(m.header + concat_raws(m.bills) + m.footer) == Ok::<_, DuckError>(m)
        }),
{
    let m = parse_file(d).unwrap();
    let len = d.len() as int;
    let marks = marks_of(d);
    let ll = marks.len();
    let k = marks[0];
    let delta = k - 23;
    lemma_hits_props(d, mark_seq(), 0, len);
    lemma_footer_window_empty(d);
    lemma_serialized_form(d);
    let s = m.header + concat_raws(m.bills) + m.footer;
    assert(s == d.subrange(0, 23) + d.subrange(k, len));
    assert(s.len() == 23 + (len - k));
    assert(forall|i: int| 23 <= i < s.len() ==> s[i] == d[i + delta]);
    assert(s.subrange(0, 23) =~= d.subrange(0, 23));
    // the serialized marks are the original ones, each shifted left by the
    // dropped amount
    lemma_hits_split(s, mark_seq(), 0, 23, s.len() as int);
    lemma_header_region_no_marks(s);
    lemma_hits_none(s, mark_seq(), 0, 23);
    lemma_hits_shift(d, s, mark_seq(), delta, 23, s.len() as int);
    lemma_hits_split(d, mark_seq(), 0, k, len);
    let a = hits_in(d, mark_seq(), 0, k);
    let b = hits_in(d, mark_seq(), k, len);
    assert(marks == a + b);
    if a.len() > 0 {
        lemma_hits_props(d, mark_seq(), 0, k);
        assert(marks[0] == a[0]);
        assert(false);
    }
    assert(a =~= Seq::<int>::empty());
    assert(marks =~= b);
    let sm = marks_of(s);
    assert(sm =~= marks.map_values(|p: int| p - delta));
    assert(sm.len() == ll);
    assert(forall|w: int| 0 <= w < ll ==> #[trigger] sm[w] == marks[w] - delta);
    assert(sm[0] == 23);
    // the windows carry the same bytes, so the same bills
    lemma_bills_shift(d, s, marks, sm, delta, ll - 1);
    // the count field and the footer are inside the copied suffix
    assert(s.len() - 7 >= 23);
    assert(s.subrange(s.len() - 7, s.len() - 1) =~= d.subrange(len - 7, len - 1));
    assert(sm[ll - 2] == marks[ll - 2] - delta);
    assert(s.len() - sm[ll - 2] == len - marks[ll - 2]);
    assert(s.subrange(sm[ll - 2], s.len() as int) =~= d.subrange(marks[ll - 2], len));
    assert(parse_file(s) is Ok);
    assert(parse_file(s).unwrap() =~= m);
}

} // verus!
