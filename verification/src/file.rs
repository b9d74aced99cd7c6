//! `DuckFile`: the whole-file model.  Owns the parse/validate algorithm and
//! the inverse assemble/serialize algorithm.

use vstd::prelude::*;
use vstd::utf8::valid_utf8;
use crate::data::{DuckData, copy_range};
use crate::error::DuckError;
use crate::format::{
    acct_label_bytes, acct_label_seq, all_digits, digits_of, digits_value, footer_post_seq,
    footer_pre_seq, header_seq, hits_in, is_match_at, lemma_digits_canonical, mark_seq,
    match_at, parse_digits, pow10, record_mark_bytes, render_digits,
    static_footer_post_bytes, static_footer_pre_bytes, static_header_bytes,
};
use crate::bill::{BillModel, DuckBill, parse_bill};
use crate::acctid::{ACCT_MARK_LEN, ACCT_STR_BYTES_LEN, DuckAcctId};
use crate::text::utf8_string;

verus! {

/// Length of the fixed header.
pub const NOMINAL_HEADER_LEN: usize = 23;

/// Length of the fixed run of footer bytes before the count digits.
pub const NOMINAL_FOOTER_PRE_LEN: usize = 36;

/// Length of the fixed run of footer bytes after the count digits.
pub const NOMINAL_FOOTER_POST_LEN: usize = 1;

/// Length of the footer count digit field.
pub const NOMINAL_FOOTER_COUNT_LEN: usize = 6;

/// Length of the whole footer.
pub const NOMINAL_FOOTER_LEN: usize = 43;

/// The mathematical content of a parsed file.
#[verifier::ext_equal]
pub ghost struct FileModel {
    /// The fixed header bytes.
    pub header: Seq<u8>,
    /// The bills, in file order.
    pub bills: Seq<BillModel>,
    /// The footer bytes, count digits included.
    pub footer: Seq<u8>,
    /// The count the footer digits assert.
    pub count: u32,
}

/// Every record-marker offset in `d`, in file order; the whole buffer is
/// scanned (no offset within three bytes of the end can hold the marker).
pub open spec fn marks_of(d: Seq<u8>) -> Seq<int> {
    hits_in(d, mark_seq(), 0, d.len() as int)
}

/// The canonical footer bytes asserting `count` bills.
pub open spec fn footer_for(count: int) -> Seq<u8> {
    footer_pre_seq() + digits_of(count, 6) + footer_post_seq()
}

/// What reading the six count digits returns, for every input.
pub open spec fn count_field_result(s: Seq<u8>) -> Result<u32, DuckError> {
    if !valid_utf8(s) {
        Err(DuckError::BadStringData)
    } else if !all_digits(s) {
        Err(DuckError::BadNumberData)
    } else {
        Ok(digits_value(s) as u32)
    }
}

/// What one marker-delimited window contributes: holding the account label
/// anywhere in its scan range makes it a genuine bill record, parsed whole;
/// a window without the label (the footer window) contributes nothing.
pub open spec fn window_result(d: Seq<u8>, lo: int, hi: int) -> Result<Seq<BillModel>, DuckError> {
    if hits_in(d, acct_label_seq(), lo, hi - 9).len() == 0 {
        Ok(Seq::empty())
    } else {
        match parse_bill(d.subrange(lo, hi)) {
            Ok(b) => Ok(seq![b]),
            Err(e) => Err(e),
        }
    }
}

/// The bills the first `m` windows contribute, in order, or the first
/// construction failure.
pub open spec fn bills_result(d: Seq<u8>, marks: Seq<int>, m: int) -> Result<
    Seq<BillModel>,
    DuckError,
>
    decreases m,
{
    if m <= 0 {
        Ok(Seq::empty())
    } else {
        match bills_result(d, marks, m - 1) {
            Err(e) => Err(e),
            Ok(pre) => match window_result(d, marks[m - 1], marks[m]) {
                Err(e) => Err(e),
                Ok(ws) => Ok(pre + ws),
            },
        }
    }
}

/// What parsing a whole buffer returns, for every input: the terminal
/// outcome of the full validation sequence.
pub open spec fn parse_file(d: Seq<u8>) -> Result<FileModel, DuckError> {
    if d.len() < 4000 {
        Err(DuckError::DataTooShort)
    } else if d.subrange(0, 23) != header_seq() {
        Err(DuckError::BadHeaderFormat)
    } else {
        let marks = marks_of(d);
        if marks.len() < 2 {
            Err(DuckError::NotEnoughMarkers)
        } else if marks[0] < 23 {
            Err(DuckError::HeaderTooShort)
        } else {
            match bills_result(d, marks, marks.len() - 1) {
                Err(e) => Err(e),
                Ok(bills) => match count_field_result(d.subrange(d.len() - 7, d.len() - 1)) {
                    Err(e) => Err(e),
                    Ok(count) => if count as int != bills.len() || count as int != marks.len()
                        - 2 {
                        Err(DuckError::MarkCountMismatch)
                    } else if d.len() - marks[marks.len() - 2] != 43 {
                        Err(DuckError::BadFooterFormat)
                    } else {
                        let footer = d.subrange(marks[marks.len() - 2], d.len() as int);
                        if footer.subrange(0, 36) != footer_pre_seq() || footer.subrange(42, 43)
                            != footer_post_seq() {
                            Err(DuckError::BadFooterFormat)
                        } else {
                            Ok(
                                FileModel {
                                    header: d.subrange(0, 23),
                                    bills: bills,
                                    footer: footer,
                                    count: count,
                                },
                            )
                        }
                    },
                },
            }
        }
    }
}

/// Raw bytes of a bill sequence, concatenated in order.
pub open spec fn concat_raws(bs: Seq<BillModel>) -> Seq<u8>
    decreases bs.len(),
{
    if bs.len() == 0 {
        Seq::empty()
    } else {
        concat_raws(bs.drop_last()) + bs.last().raw
    }
}

/// The bytes assembly builds for a bill sequence: fixed header, the raw
/// spans in order, and a fresh canonical footer.
pub open spec fn assembled_bytes(bs: Seq<BillModel>) -> Seq<u8> {
    header_seq() + concat_raws(bs) + footer_for(bs.len() as int)
}

/// The invariant every `DuckFile` value satisfies: fixed header, count in
/// agreement with the bill sequence, canonical footer, and every bill's
/// derived fields in agreement with its raw span.
pub open spec fn file_model_wf(m: FileModel) -> bool {
    &&& m.header == header_seq()
    &&& m.count as int == m.bills.len()
    &&& m.footer == footer_for(m.count as int)
    &&& forall|i: int|
        0 <= i < m.bills.len() ==> parse_bill((#[trigger] m.bills[i]).raw) == Ok::<
            BillModel,
            DuckError,
        >(m.bills[i])
}

/// The model of the file `DuckFile::new` returns.
pub open spec fn empty_file_model() -> FileModel {
    FileModel { header: header_seq(), bills: Seq::empty(), footer: footer_for(0), count: 0 }
}

// ---------------------------------------------------------------------------
// Facts about the scan and window specs
// ---------------------------------------------------------------------------

/// Every hit lies in `[lo, hi)`, matches the pattern, and the hit list is
/// strictly ascending.
pub proof fn lemma_hits_props(d: Seq<u8>, pat: Seq<u8>, lo: int, hi: int)
    ensures
        forall|k: int|
            0 <= k < hits_in(d, pat, lo, hi).len() ==> lo <= #[trigger] hits_in(d, pat, lo, hi)[k]
                < hi && is_match_at(d, pat, hits_in(d, pat, lo, hi)[k]),
        forall|k1: int, k2: int|
            0 <= k1 < k2 < hits_in(d, pat, lo, hi).len() ==> #[trigger] hits_in(d, pat, lo, hi)[k1]
                < #[trigger] hits_in(d, pat, lo, hi)[k2],
    decreases hi - lo,
{
    if hi <= lo {
    } else {
        lemma_hits_props(d, pat, lo, hi - 1);
        let prev = hits_in(d, pat, lo, hi - 1);
        let cur = hits_in(d, pat, lo, hi);
        if is_match_at(d, pat, hi - 1) {
            assert(cur == prev.push(hi - 1));
            assert(forall|k: int| 0 <= k < prev.len() ==> cur[k] == prev[k]);
            assert(cur[cur.len() - 1] == hi - 1);
        } else {
            assert(cur == prev);
        }
    }
}

/// A scan over `[lo, hi)` is the scan over `[lo, mid)` followed by the scan
/// over `[mid, hi)`.
pub proof fn lemma_hits_split(d: Seq<u8>, pat: Seq<u8>, lo: int, mid: int, hi: int)
    requires
        lo <= mid <= hi,
    ensures
        hits_in(d, pat, lo, hi) == hits_in(d, pat, lo, mid) + hits_in(d, pat, mid, hi),
    decreases hi - mid,
{
    if mid == hi {
        assert(hits_in(d, pat, mid, hi) =~= Seq::<int>::empty());
        assert(hits_in(d, pat, lo, hi) =~= hits_in(d, pat, lo, mid) + hits_in(d, pat, mid, hi));
    } else {
        lemma_hits_split(d, pat, lo, mid, hi - 1);
        if is_match_at(d, pat, hi - 1) {
            assert(hits_in(d, pat, lo, hi) =~= hits_in(d, pat, lo, mid) + hits_in(
                d,
                pat,
                mid,
                hi,
            ));
        }
    }
}

/// Once a window fails, the whole bill collection fails the same way.
pub proof fn lemma_bills_err_persists(d: Seq<u8>, marks: Seq<int>, m: int, m2: int)
    requires
        m <= m2,
        bills_result(d, marks, m) is Err,
    ensures
        bills_result(d, marks, m2) == bills_result(d, marks, m),
    decreases m2 - m,
{
    if m < m2 {
        lemma_bills_err_persists(d, marks, m, m2 - 1);
    }
}

/// A parse-accepted model satisfies the `DuckFile` invariant.
pub proof fn lemma_parse_file_ok_wf(d: Seq<u8>)
    requires
        parse_file(d) is Ok,
    ensures
        file_model_wf(parse_file(d).unwrap()),
{
    let m = parse_file(d).unwrap();
    let marks = marks_of(d);
    lemma_bills_ok_wf(d, marks, marks.len() - 1);
    let fstart = marks[marks.len() - 2];
    let footer = d.subrange(fstart, d.len() as int);
    let cf = d.subrange(d.len() - 7, d.len() - 1);
    assert(footer.subrange(36, 42) =~= cf);
    lemma_digits_canonical(cf);
    reveal_with_fuel(pow10, 8);
    assert(m.count as int == digits_value(cf));
    assert(digits_of(m.count as int, 6) == cf);
    assert(m.footer =~= footer.subrange(0, 36) + footer.subrange(36, 42) + footer.subrange(
        42,
        43,
    ));
    assert(m.footer =~= footer_pre_seq() + digits_of(m.count as int, 6) + footer_post_seq());
}

/// Every bill a successful window scan produces agrees with its own raw
/// span.
proof fn lemma_bills_ok_wf(d: Seq<u8>, marks: Seq<int>, m: int)
    requires
        bills_result(d, marks, m) is Ok,
    ensures
        forall|i: int|
            0 <= i < bills_result(d, marks, m).unwrap().len() ==> parse_bill(
                (#[trigger] bills_result(d, marks, m).unwrap()[i]).raw,
            ) == Ok::<BillModel, DuckError>(bills_result(d, marks, m).unwrap()[i]),
    decreases m,
{
    if m <= 0 {
    } else {
        lemma_bills_ok_wf(d, marks, m - 1);
        let pre = bills_result(d, marks, m - 1).unwrap();
        let cur = bills_result(d, marks, m).unwrap();
        let hits = hits_in(d, acct_label_seq(), marks[m - 1], marks[m] - 9);
        if hits.len() == 0 {
            assert(cur =~= pre);
        } else {
            let b = parse_bill(d.subrange(marks[m - 1], marks[m])).unwrap();
            assert(forall|i: int| 0 <= i < pre.len() ==> cur[i] == pre[i]);
            assert(forall|i: int| pre.len() <= i < cur.len() ==> cur[i] == b);
        }
    }
}

// ---------------------------------------------------------------------------
// Parsing helpers
// ---------------------------------------------------------------------------

/// Scans the whole buffer once for the record marker and returns every
/// offset found, in file order.
#[verifier::loop_isolation(false)]
pub(crate) fn find_marks(data: &Vec<u8>) -> (r: Vec<usize>)
    requires
        data@.len() >= 4000,
    ensures
        r@.map_values(|u: usize| u as int) == marks_of(data@),
{
    let len = data.len();
    let mark_pat = record_mark_bytes();
    let scan_end = len - 2;
    let mut marks: Vec<usize> = Vec::new();
    let mut i: usize = 0;
    proof {
        assert(marks@.map_values(|u: usize| u as int) =~= hits_in(data@, mark_seq(), 0, 0));
    }
    while i < scan_end
        invariant
            i <= scan_end,
            marks@.map_values(|u: usize| u as int) == hits_in(data@, mark_seq(), 0, i as int),
        decreases scan_end - i,
    {
        if match_at(data, &mark_pat, i) {
            marks.push(i);
        }
        i += 1;
        proof {
            assert(marks@.map_values(|u: usize| u as int) =~= hits_in(
                data@,
                mark_seq(),
                0,
                i as int,
            ));
        }
    }
    proof {
        // the last two offsets have no room for the three marker bytes
        assert(!is_match_at(data@, mark_seq(), len - 1));
        assert(!is_match_at(data@, mark_seq(), len - 2));
        assert(hits_in(data@, mark_seq(), 0, len as int) == hits_in(data@, mark_seq(), 0, len - 1));
        assert(hits_in(data@, mark_seq(), 0, len - 1) == hits_in(data@, mark_seq(), 0, len - 2));
    }
    marks
}

/// Rescans one marker-delimited window for the account label and builds
/// the window's bill when the label occurs, or reports the construction
/// failure.
#[verifier::loop_isolation(false)]
fn scan_window(data: &DuckData, lo: usize, hi: usize) -> (r: Result<Vec<DuckBill>, DuckError>)
    requires
        lo < hi,
        hi <= data@.len(),
    ensures
        match r {
            Ok(ws) => window_result(data@, lo as int, hi as int) == Ok::<Seq<BillModel>, DuckError>(
                ws@.map_values(|b: DuckBill| b@),
            ) && forall|k: int| 0 <= k < ws@.len() ==> (#[trigger] ws@[k]).wf(),
            Err(e) => window_result(data@, lo as int, hi as int) == Err::<Seq<BillModel>, DuckError>(
                e,
            ),
        },
{
    let ghost window = data@.subrange(lo as int, hi as int);
    let acct_pat = acct_label_bytes();
    let mut found = false;
    if hi - lo > 9 {
        let inner_end = hi - ACCT_STR_BYTES_LEN;
        let mut j: usize = lo;
        while j < inner_end
            invariant
                lo <= j <= inner_end,
                found == (hits_in(data@, acct_label_seq(), lo as int, j as int).len() > 0),
            decreases inner_end - j,
        {
            let ghost hits_before = hits_in(data@, acct_label_seq(), lo as int, j as int);
            if match_at(data.as_vec(), &acct_pat, j) {
                found = true;
            }
            j += 1;
            proof {
                let hits_now = hits_in(data@, acct_label_seq(), lo as int, j as int);
                if is_match_at(data@, acct_label_seq(), j - 1) {
                    assert(hits_now =~= hits_before.push(j - 1));
                } else {
                    assert(hits_now =~= hits_before);
                }
            }
        }
    }
    proof {
        if hi - lo <= 9 {
            assert(hits_in(data@, acct_label_seq(), lo as int, hi - 9) =~= Seq::<int>::empty());
        }
    }
    let mut ws: Vec<DuckBill> = Vec::new();
    proof {
        assert(ws@.map_values(|b: DuckBill| b@) =~= Seq::<BillModel>::empty());
    }
    if found {
        let span = data.range(lo, hi);
        match DuckBill::new(span) {
            Ok(b) => {
                let ghost bm = b@;
                ws.push(b);
                proof {
                    assert(ws@.map_values(|b2: DuckBill| b2@) =~= seq![bm]);
                    assert(window_result(data@, lo as int, hi as int) == Ok::<
                        Seq<BillModel>,
                        DuckError,
                    >(seq![bm]));
                }
                Ok(ws)
            },
            Err(e) => Err(e),
        }
    } else {
        Ok(ws)
    }
}

/// Walks consecutive mark pairs and gathers every bill the windows hold, in
/// file order, or reports the first construction failure.
#[verifier::loop_isolation(false)]
fn collect_bills(data: &DuckData, marks: &Vec<usize>) -> (r: Result<Vec<DuckBill>, DuckError>)
    requires
        data@.len() >= 4000,
        marks@.map_values(|u: usize| u as int) == marks_of(data@),
        marks@.len() >= 2,
        marks@[0] >= 23,
    ensures
        match r {
            Ok(bs) => bills_result(data@, marks_of(data@), marks@.len() - 1) == Ok::<
                Seq<BillModel>,
                DuckError,
            >(bs@.map_values(|b: DuckBill| b@)) && forall|k: int|
                0 <= k < bs@.len() ==> (#[trigger] bs@[k]).wf(),
            Err(e) => bills_result(data@, marks_of(data@), marks@.len() - 1) == Err::<
                Seq<BillModel>,
                DuckError,
            >(e),
        },
{
    let ghost gmarks = marks_of(data@);
    proof {
        lemma_hits_props(data@, mark_seq(), 0, data@.len() as int);
    }
    let nmarks = marks.len();
    let mut bills: Vec<DuckBill> = Vec::new();
    proof {
        assert(bills@.map_values(|b: DuckBill| b@) =~= Seq::<BillModel>::empty());
    }
    let mut m: usize = 0;
    while m < nmarks - 1
        invariant
            m <= nmarks - 1,
            bills_result(data@, gmarks, m as int) == Ok::<Seq<BillModel>, DuckError>(
                bills@.map_values(|b: DuckBill| b@),
            ),
            forall|k: int| 0 <= k < bills@.len() ==> (#[trigger] bills@[k]).wf(),
        decreases nmarks - 1 - m,
    {
        let lo = marks[m];
        let hi = marks[m + 1];
        proof {
            assert(gmarks[m as int] == lo as int && gmarks[m + 1] == hi as int);
            assert(lo < hi);
        }
        let ghost pre = bills@.map_values(|b: DuckBill| b@);
        match scan_window(data, lo, hi) {
            Ok(mut ws) => {
                let ghost wmodels = ws@.map_values(|b: DuckBill| b@);
                bills.append(&mut ws);
                m += 1;
                proof {
                    assert(bills@.map_values(|b: DuckBill| b@) =~= pre + wmodels);
                    assert(bills_result(data@, gmarks, m as int) == Ok::<
                        Seq<BillModel>,
                        DuckError,
                    >(pre + wmodels));
                }
            },
            Err(e) => {
                proof {
                    assert(bills_result(data@, gmarks, m + 1) == Err::<Seq<BillModel>, DuckError>(
                        e,
                    ));
                    lemma_bills_err_persists(data@, gmarks, m + 1, gmarks.len() - 1);
                }
                return Err(e);
            },
        }
    }
    Ok(bills)
}

// ---------------------------------------------------------------------------
// The file value
// ---------------------------------------------------------------------------

/// A parsed or assembled bill file: fixed header, ordered bill sequence,
/// and footer carrying the bill count.
#[derive(Debug)]
pub struct DuckFile {
    header: DuckData,
    bills: Vec<DuckBill>,
    footer: DuckData,
    bill_count: u32,
}

impl View for DuckFile {
    type V = FileModel;

    closed spec fn view(&self) -> FileModel {
        FileModel {
            header: self.header@,
            bills: self.bills@.map_values(|b: DuckBill| b@),
            footer: self.footer@,
            count: self.bill_count,
        }
    }
}

impl DuckFile {
    /// The construction-time invariant, visible to callers.
    pub open spec fn wf(&self) -> bool {
        file_model_wf(self@)
    }

    /// An empty file: fixed header, no bills, footer asserting zero.
    pub fn new() -> (r: DuckFile)
        ensures
            r@ == empty_file_model(),
            r.wf(),
    {
        let footer = match DuckFile::get_arbitrary_footer(0) {
            Ok(f) => f,
            Err(_) => {
                proof {
                    assert(false);
                }
                DuckData::new(Vec::new())
            },
        };
        let r = DuckFile {
            header: DuckData::new(static_header_bytes()),
            bills: Vec::new(),
            footer: footer,
            bill_count: 0,
        };
        proof {
            assert(r@.bills =~= empty_file_model().bills);
            assert(r@ =~= empty_file_model());
        }
        r
    }

    /// The fixed header as a buffer.
    pub fn get_static_header() -> (r: DuckData)
        ensures
            r@ == header_seq(),
    {
        DuckData::new(static_header_bytes())
    }

    /// The fixed pre-count footer run as a buffer.
    pub fn get_static_footer_pre() -> (r: DuckData)
        ensures
            r@ == footer_pre_seq(),
    {
        DuckData::new(static_footer_pre_bytes())
    }

    /// The fixed post-count footer byte as a buffer.
    pub fn get_static_footer_post() -> (r: DuckData)
        ensures
            r@ == footer_post_seq(),
    {
        DuckData::new(static_footer_post_bytes())
    }

    /// A fresh footer asserting `count` bills; fails when the count cannot
    /// be written in six digits.
    pub fn get_arbitrary_footer(count: u32) -> (r: Result<DuckData, DuckError>)
        ensures
            match r {
                Ok(f) => count <= 999999 && f@ == footer_for(count as int),
                Err(e) => count > 999999 && e == DuckError::BillCountOutOfBounds,
            },
    {
        if count > 999999 {
            Err(DuckError::BillCountOutOfBounds)
        } else {
            proof {
                reveal_with_fuel(pow10, 8);
            }
            let mut new_data = DuckFile::get_static_footer_pre();
            new_data.push(DuckData::new(render_digits(count, NOMINAL_FOOTER_COUNT_LEN)));
            new_data.push(DuckFile::get_static_footer_post());
            proof {
                assert(new_data@ =~= footer_for(count as int));
            }
            Ok(new_data)
        }
    }

    /// Number of bills held.
    pub fn get_bill_count(&self) -> (r: usize)
        ensures
            r == self@.bills.len(),
    {
        self.bills.len()
    }

    /// First index whose bill carries `acct`, in file order.
    pub fn get_index_of_account(&self, acct: &DuckAcctId) -> (r: Option<usize>)
        ensures
            match r {
                Some(i) => i < self@.bills.len() && self@.bills[i as int].acct == acct@
                    && forall|j: int| 0 <= j < i ==> (#[trigger] self@.bills[j]).acct != acct@,
                None => forall|j: int|
                    0 <= j < self@.bills.len() ==> (#[trigger] self@.bills[j]).acct != acct@,
            },
    {
        let n = self.bills.len();
        let mut i: usize = 0;
        while i < n
            invariant
                n == self@.bills.len(),
                i <= n,
                forall|j: int| 0 <= j < i ==> (#[trigger] self@.bills[j]).acct != acct@,
            decreases n - i,
        {
            if self.bills[i].get_account_id() == acct {
                return Some(i);
            }
            i += 1;
        }
        None
    }

    /// The header bytes.
    pub fn get_header(&self) -> (r: &DuckData)
        ensures
            r@ == self@.header,
    {
        &self.header
    }

    /// The footer bytes.
    pub fn get_footer(&self) -> (r: &DuckData)
        ensures
            r@ == self@.footer,
    {
        &self.footer
    }

    /// The bill at index `i`.
    pub fn get_bill(&self, i: usize) -> (r: &DuckBill)
        requires
            i < self@.bills.len(),
        ensures
            r@ == self@.bills[i as int],
    {
        &self.bills[i]
    }

    /// Runs the full parse/validate sequence on a raw buffer and returns
    /// the structured file, or the first failure.
    pub fn parse(data: DuckData) -> (r: Result<DuckFile, DuckError>)
        ensures
            match r {
                Ok(f) => parse_file(data@) == Ok::<FileModel, DuckError>(f@) && f.wf(),
                Err(e) => parse_file(data@) == Err::<FileModel, DuckError>(e),
            },
    {
        let len = data.len();
        if len < 4000 {
            return Err(DuckError::DataTooShort);
        }
        let header_pat = static_header_bytes();
        if !match_at(data.as_vec(), &header_pat, 0) {
            proof {
                assert(data@.subrange(0, 23) != header_seq());
            }
            return Err(DuckError::BadHeaderFormat);
        }
        let marks = find_marks(data.as_vec());
        let ghost gmarks = marks_of(data@);
        proof {
            lemma_hits_props(data@, mark_seq(), 0, len as int);
        }
        let nmarks = marks.len();
        if nmarks < 2 {
            return Err(DuckError::NotEnoughMarkers);
        }
        if marks[0] < 23 {
            return Err(DuckError::HeaderTooShort);
        }
        let bills = match collect_bills(&data, &marks) {
            Ok(bs) => bs,
            Err(e) => {
                return Err(e);
            },
        };
        // Read the self-reported count out of the footer digits.
        let count: u32 = match parse_digits(data.as_vec(), len - 7, NOMINAL_FOOTER_COUNT_LEN) {
            Some(c) => {
                proof {
                    let cf = data@.subrange(len - 7, len - 1);
                    assert(forall|k: int| 0 <= k < cf.len() ==> (#[trigger] cf[k]) < 0x80);
                    crate::text::lemma_ascii_decode(cf);
                }
                c
            },
            None => {
                let cf = copy_range(data.as_vec(), len - 7, len - 1);
                if utf8_string(&cf).is_some() {
                    return Err(DuckError::BadNumberData);
                } else {
                    return Err(DuckError::BadStringData);
                }
            },
        };
        // The count must agree with the structure actually observed.
        let nbills = bills.len();
        if count as usize != nbills || count as usize != nmarks - 2 {
            return Err(DuckError::MarkCountMismatch);
        }
        // The footer runs from the second-to-last mark to the end and must
        // have exactly the nominal shape.
        let fstart = marks[nmarks - 2];
        proof {
            assert(gmarks[nmarks - 2] == fstart as int);
            assert(fstart < len);
        }
        if len - fstart != NOMINAL_FOOTER_LEN {
            return Err(DuckError::BadFooterFormat);
        }
        let ghost footer_sq = data@.subrange(fstart as int, len as int);
        let pre_pat = static_footer_pre_bytes();
        let post_pat = static_footer_post_bytes();
        let pre_ok = match_at(data.as_vec(), &pre_pat, fstart);
        let post_ok = match_at(data.as_vec(), &post_pat, len - 1);
        proof {
            assert(footer_sq.subrange(0, 36) =~= data@.subrange(fstart as int, fstart + 36));
            assert(footer_sq.subrange(42, 43) =~= data@.subrange(len - 1, len as int));
        }
        if !pre_ok || !post_ok {
            return Err(DuckError::BadFooterFormat);
        }
        let header = data.range(0, NOMINAL_HEADER_LEN);
        let footer = data.range(fstart, len);
        let r = DuckFile { header: header, bills: bills, footer: footer, bill_count: count };
        proof {
            let pm = parse_file(data@);
            assert(pm is Ok);
            assert(pm.unwrap() =~= r@);
            lemma_parse_file_ok_wf(data@);
        }
        Ok(r)
    }

    /// Concatenates the fixed header, the selected bills' raw bytes in the
    /// given order, and a fresh footer, then reparses the result: the value
    /// returned is only ever a file that has itself re-validated.
    pub fn assemble(bills: Vec<DuckBill>) -> (r: Result<DuckFile, DuckError>)
        ensures
            match r {
                Ok(f) => bills@.len() <= 999999 && parse_file(
                    assembled_bytes(bills@.map_values(|b: DuckBill| b@)),
                ) == Ok::<FileModel, DuckError>(f@) && f.wf(),
                Err(e) => if bills@.len() > 999999 {
                    e == DuckError::BillCountOutOfBounds
                } else {
                    parse_file(assembled_bytes(bills@.map_values(|b: DuckBill| b@))) == Err::<
                        FileModel,
                        DuckError,
                    >(e)
                },
            },
    {
        if bills.len() > 999999 {
            return Err(DuckError::BillCountOutOfBounds);
        }
        let ghost models = bills@.map_values(|b: DuckBill| b@);
        let count = bills.len() as u32;
        let mut data = DuckData::new(static_header_bytes());
        let n = bills.len();
        let mut k: usize = 0;
        proof {
            assert(concat_raws(models.take(0)) =~= Seq::<u8>::empty());
            assert(data@ =~= header_seq() + concat_raws(models.take(0)));
        }
        while k < n
            invariant
                n == bills@.len(),
                k <= n,
                models == bills@.map_values(|b: DuckBill| b@),
                data@ == header_seq() + concat_raws(models.take(k as int)),
            decreases n - k,
        {
            data.push(bills[k].get_raw().clone());
            k += 1;
            proof {
                assert(models.take(k as int).drop_last() =~= models.take(k - 1));
                assert(models.take(k as int).last() == models[k - 1]);
                assert(data@ =~= header_seq() + concat_raws(models.take(k as int)));
            }
        }
        let footer = match DuckFile::get_arbitrary_footer(count) {
            Ok(f) => f,
            Err(e) => {
                proof {
                    assert(false);
                }
                return Err(e);
            },
        };
        data.push(footer);
        proof {
            assert(models.take(n as int) =~= models);
            assert(data@ =~= assembled_bytes(models));
        }
        DuckFile::parse(data)
    }

    /// Clones the bills of `[from, to)`, in file order.
    pub fn select_span(&self, from: usize, to: usize) -> (r: Vec<DuckBill>)
        requires
            from <= to <= self@.bills.len(),
        ensures
            r@.map_values(|b: DuckBill| b@) == self@.bills.subrange(from as int, to as int),
    {
        let mut r: Vec<DuckBill> = Vec::new();
        let mut k: usize = from;
        proof {
            assert(r@.map_values(|b: DuckBill| b@) =~= self@.bills.subrange(
                from as int,
                from as int,
            ));
        }
        while k < to
            invariant
                from <= k <= to <= self@.bills.len(),
                r@.map_values(|b: DuckBill| b@) == self@.bills.subrange(from as int, k as int),
            decreases to - k,
        {
            let ghost prev = r@;
            r.push(self.bills[k].clone());
            k += 1;
            proof {
                let target = self@.bills.subrange(from as int, k as int);
                let mapped = r@.map_values(|b: DuckBill| b@);
                let prev_mapped = prev.map_values(|b: DuckBill| b@);
                assert(prev_mapped == self@.bills.subrange(from as int, k - 1));
                assert(mapped.len() == target.len());
                assert forall|i: int| 0 <= i < mapped.len() implies mapped[i] == target[i] by {
                    assert(mapped[i] == r@[i]@);
                    assert(target[i] == self@.bills[from + i]);
                    if i < prev.len() {
                        assert(r@[i] == prev[i]);
                        assert(prev_mapped[i] == prev[i]@);
                        assert(prev_mapped[i] == self@.bills.subrange(from as int, k - 1)[i]);
                    } else {
                        assert(r@[i]@ == self@.bills[k - 1]);
                    }
                }
                assert(mapped =~= target);
            }
        }
        r
    }

    /// "To end": the bills from `start` through the last, inclusive.
    pub fn select_to_end(&self, start: usize) -> (r: Vec<DuckBill>)
        requires
            start < self@.bills.len(),
        ensures
            r@.map_values(|b: DuckBill| b@) == self@.bills.subrange(
                start as int,
                self@.bills.len() as int,
            ),
    {
        let n = self.bills.len();
        self.select_span(start, n)
    }

    /// "From start": the bills from the first through `end`, inclusive.
    pub fn select_from_start(&self, end: usize) -> (r: Vec<DuckBill>)
        requires
            end < self@.bills.len(),
        ensures
            r@.map_values(|b: DuckBill| b@) == self@.bills.subrange(0, end + 1),
    {
        let n = self.bills.len();
        self.select_span(0, end + 1)
    }

    /// "Range": the bills between two indices, both inclusive, with the
    /// bounds swapped automatically when given in reverse file order.
    pub fn select_range(&self, a: usize, b: usize) -> (r: Vec<DuckBill>)
        requires
            a < self@.bills.len(),
            b < self@.bills.len(),
        ensures
            r@.map_values(|b2: DuckBill| b2@) == self@.bills.subrange(
                if a <= b { a as int } else { b as int },
                (if a <= b { b as int } else { a as int }) + 1,
            ),
    {
        let n = self.bills.len();
        if a <= b {
            self.select_span(a, b + 1)
        } else {
            self.select_span(b, a + 1)
        }
    }

    /// "Single": just the bill at `i`.
    pub fn select_single(&self, i: usize) -> (r: Vec<DuckBill>)
        requires
            i < self@.bills.len(),
        ensures
            r@.map_values(|b: DuckBill| b@) == self@.bills.subrange(i as int, i + 1),
    {
        let n = self.bills.len();
        self.select_span(i, i + 1)
    }

    /// Serializes the file back to bytes: header, raw bill spans in order,
    /// footer.
    pub fn into_data(self) -> (r: DuckData)
        ensures
            r@ == self@.header + concat_raws(self@.bills) + self@.footer,
    {
        let ghost whole = self@;
        let ghost models = self@.bills;
        let DuckFile { header, bills, footer, bill_count: _ } = self;
        let mut out = header;
        let n = bills.len();
        let mut k: usize = 0;
        proof {
            assert(concat_raws(models.take(0)) =~= Seq::<u8>::empty());
            assert(out@ + concat_raws(models.take(0)) =~= out@);
        }
        while k < n
            invariant
                n == bills@.len(),
                k <= n,
                models == bills@.map_values(|b: DuckBill| b@),
                out@ == whole.header + concat_raws(models.take(k as int)),
            decreases n - k,
        {
            out.push(bills[k].get_raw().clone());
            k += 1;
            proof {
                assert(models.take(k as int).drop_last() =~= models.take(k - 1));
                assert(models.take(k as int).last() == models[k - 1]);
                assert(out@ =~= whole.header + concat_raws(models.take(k as int)));
            }
        }
        out.push(footer);
        proof {
            assert(models.take(n as int) =~= models);
        }
        out
    }
}

impl Default for DuckFile {
    fn default() -> (r: DuckFile)
        ensures
            r@ == empty_file_model(),
            r.wf(),
    {
        DuckFile::new()
    }
}

} // verus!
