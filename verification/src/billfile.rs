//! `BillFile`: the span-index variant of the file model.  It keeps the raw
//! buffer whole, indexes each bill's byte span by account id, and chops
//! contiguous regions out of the buffer by account-id lookup.

use vstd::prelude::*;
use crate::data::{copy_range, eq_bytes};
use crate::error::DuckError;
use crate::file::{find_marks, lemma_hits_props, marks_of};
use crate::format::{
    all_digits, digits_value, header_seq, is_match_at, mark_seq, match_at, parse_digits,
    static_header_bytes,
};
use crate::text::utf8_string;
use vstd::utf8::valid_utf8;

verus! {

/// The eight-byte label `"Acct No:"` this variant scans for.
pub open spec fn short_acct_label_seq() -> Seq<u8> {
    seq![0x41u8, 0x63u8, 0x63u8, 0x74u8, 0x20u8, 0x4eu8, 0x6fu8, 0x3au8]
}

/// Exec copy of [`short_acct_label_seq`].
pub fn short_acct_label_bytes() -> (r: Vec<u8>)
    ensures
        r@ == short_acct_label_seq(),
{
    let r: Vec<u8> = vec![0x41u8, 0x63u8, 0x63u8, 0x74u8, 0x20u8, 0x4eu8, 0x6fu8, 0x3au8];
    proof {
        assert(r@ =~= short_acct_label_seq());
    }
    r
}

/// The label occurs at `i` with room for the twelve id bytes that follow it
/// (and the one byte between label and id).
pub open spec fn key_hit_at(d: Seq<u8>, i: int) -> bool {
    is_match_at(d, short_acct_label_seq(), i) && i + 21 <= d.len()
}

/// All offsets in `[lo, hi)` where an id can be read, in ascending order.
pub open spec fn key_hits(d: Seq<u8>, lo: int, hi: int) -> Seq<int>
    decreases hi - lo,
{
    if hi <= lo {
        Seq::empty()
    } else if key_hit_at(d, hi - 1) {
        key_hits(d, lo, hi - 1).push(hi - 1)
    } else {
        key_hits(d, lo, hi - 1)
    }
}

/// The twelve id bytes that follow a label occurrence at `i`.
pub open spec fn entry_key(d: Seq<u8>, i: int) -> Seq<u8> {
    d.subrange(i + 9, i + 21)
}

/// Folds one window's id occurrences into the span index, in scan order;
/// the earliest occurrence of an id is authoritative, so an id already
/// present is left untouched.
pub open spec fn insert_hits(
    base: Map<Seq<u8>, (int, int)>,
    d: Seq<u8>,
    hits: Seq<int>,
    lo: int,
    hi: int,
) -> Map<Seq<u8>, (int, int)>
    decreases hits.len(),
{
    if hits.len() == 0 {
        base
    } else {
        let m = insert_hits(base, d, hits.drop_last(), lo, hi);
        if m.contains_key(entry_key(d, hits.last())) {
            m
        } else {
            m.insert(entry_key(d, hits.last()), (lo, hi))
        }
    }
}

/// The span index the first `m` windows build, in window order.
pub open spec fn index_upto(d: Seq<u8>, marks: Seq<int>, m: int) -> Map<Seq<u8>, (int, int)>
    decreases m,
{
    if m <= 0 {
        Map::empty()
    } else {
        insert_hits(
            index_upto(d, marks, m - 1),
            d,
            key_hits(d, marks[m - 1], marks[m] - 8),
            marks[m - 1],
            marks[m],
        )
    }
}

/// The whole buffer's span index.
pub open spec fn old_index_of(d: Seq<u8>) -> Map<Seq<u8>, (int, int)> {
    index_upto(d, marks_of(d), marks_of(d).len() - 1)
}

/// What reading the count digits returns in this variant, for every input.
pub open spec fn old_count_result(s: Seq<u8>) -> Result<u32, DuckError> {
    if !valid_utf8(s) {
        Err(DuckError::LengthMarkerMissing)
    } else if !all_digits(s) {
        Err(DuckError::LengthMarkerFormatBad)
    } else {
        Ok(digits_value(s) as u32)
    }
}

/// The mathematical content of an indexed file.
#[verifier::ext_equal]
pub ghost struct OldFileModel {
    /// The raw buffer, kept whole.
    pub file: Seq<u8>,
    /// Every record-marker offset, in file order.
    pub marks: Seq<int>,
    /// Account id bytes to the `[start, end)` span of that account's bill;
    /// the earliest occurrence of an id is authoritative.
    pub index: Map<Seq<u8>, (int, int)>,
    /// The count the footer digits assert.
    pub count: u32,
}

/// What constructing an indexed file returns, for every input.
pub open spec fn old_parse(d: Seq<u8>) -> Result<OldFileModel, DuckError> {
    if d.len() < 4000 {
        Err(DuckError::DataTooShort)
    } else if d.subrange(0, 23) != header_seq() {
        Err(DuckError::BadHeaderFormat)
    } else {
        let marks = marks_of(d);
        if marks.len() < 2 {
            Err(DuckError::NotEnoughMarkers)
        } else {
            match old_count_result(d.subrange(d.len() - 7, d.len() - 1)) {
                Err(e) => Err(e),
                Ok(c) => if c as int != marks.len() - 2 {
                    Err(DuckError::MarkCountMismatch)
                } else {
                    Ok(OldFileModel { file: d, marks: marks, index: old_index_of(d), count: c })
                },
            }
        }
    }
}

/// An association list read as a map; the entry keys are kept unique, so
/// the fold order does not matter.
pub open spec fn assoc_view(entries: Seq<(Seq<u8>, (int, int))>) -> Map<Seq<u8>, (int, int)>
    decreases entries.len(),
{
    if entries.len() == 0 {
        Map::empty()
    } else {
        assoc_view(entries.drop_last()).insert(entries.last().0, entries.last().1)
    }
}

/// The entry list of an exec index, read at the spec level.
pub open spec fn entries_view(entries: Seq<(Vec<u8>, (usize, usize))>) -> Seq<
    (Seq<u8>, (int, int)),
> {
    entries.map_values(|e: (Vec<u8>, (usize, usize))| (e.0@, (e.1.0 as int, e.1.1 as int)))
}

/// Lexicographic order on spans, as Rust orders pairs.
pub open spec fn span_le(a: (int, int), b: (int, int)) -> bool {
    a.0 < b.0 || (a.0 == b.0 && a.1 <= b.1)
}

/// The indexed bill file.
#[derive(Debug)]
pub struct BillFile {
    bill_file: Vec<u8>,
    bill_marks: Vec<usize>,
    bill_index: Vec<(Vec<u8>, (usize, usize))>,
    bill_count: u32,
}

impl View for BillFile {
    type V = OldFileModel;

    closed spec fn view(&self) -> OldFileModel {
        OldFileModel {
            file: self.bill_file@,
            marks: self.bill_marks@.map_values(|u: usize| u as int),
            index: assoc_view(entries_view(self.bill_index@)),
            count: self.bill_count,
        }
    }
}

impl BillFile {
    /// The construction-time invariant: enough structure for every chop to
    /// stay in bounds.
    pub closed spec fn wf(&self) -> bool {
        let m = self@;
        &&& m.marks.len() >= 2
        &&& forall|k: int|
            0 <= k < m.marks.len() ==> 0 <= #[trigger] m.marks[k] && m.marks[k] + 3 <= m.file.len()
        &&& forall|k1: int, k2: int|
            0 <= k1 < k2 < m.marks.len() ==> #[trigger] m.marks[k1] < #[trigger] m.marks[k2]
        &&& forall|j: int|
            0 <= j < self.bill_index@.len() ==> {
                let e = #[trigger] self.bill_index@[j];
                m.marks[0] <= e.1.0 && e.1.0 < e.1.1 && e.1.1 <= m.file.len() && e.1.0
                    <= m.marks[m.marks.len() - 2]
            }
    }

    /// Scans a raw buffer, indexes every bill span by account id, and
    /// cross-checks the footer count against the marks found.
    pub fn new(file_data: Vec<u8>) -> (r: Result<BillFile, DuckError>)
        ensures
            match r {
                Ok(bf) => old_parse(file_data@) == Ok::<OldFileModel, DuckError>(bf@) && bf.wf(),
                Err(e) => old_parse(file_data@) == Err::<OldFileModel, DuckError>(e),
            },
    {
        let d = file_data;
        let len = d.len();
        if len < 4000 {
            return Err(DuckError::DataTooShort);
        }
        let header_pat = static_header_bytes();
        if !match_at(&d, &header_pat, 0) {
            proof {
                assert(d@.subrange(0, 23) != header_seq());
            }
            return Err(DuckError::BadHeaderFormat);
        }
        let marks = find_marks(&d);
        let ghost gmarks = marks_of(d@);
        proof {
            lemma_hits_props(d@, mark_seq(), 0, len as int);
        }
        let nmarks = marks.len();
        if nmarks < 2 {
            return Err(DuckError::NotEnoughMarkers);
        }
        let index = build_index(&d, &marks);
        let count: u32 = match parse_digits(&d, len - 7, 6) {
            Some(c) => {
                proof {
                    let cf = d@.subrange(len - 7, len - 1);
                    assert(forall|k: int| 0 <= k < cf.len() ==> (#[trigger] cf[k]) < 0x80);
                    crate::text::lemma_ascii_decode(cf);
                }
                c
            },
            None => {
                let cf = copy_range(&d, len - 7, len - 1);
                if utf8_string(&cf).is_some() {
                    return Err(DuckError::LengthMarkerFormatBad);
                } else {
                    return Err(DuckError::LengthMarkerMissing);
                }
            },
        };
        if count as usize != nmarks - 2 {
            return Err(DuckError::MarkCountMismatch);
        }
        let r = BillFile { bill_file: d, bill_marks: marks, bill_index: index, bill_count: count };
        proof {
            let pm = old_parse(r.bill_file@);
            assert(pm is Ok);
            assert(pm.unwrap() =~= r@);
        }
        Ok(r)
    }

    /// The count the footer asserted at construction.
    pub fn get_bill_count(&self) -> (r: u32)
        ensures
            r == self@.count,
    {
        self.bill_count
    }

    /// The bytes before the first record marker.
    pub fn get_header(&self) -> (r: Vec<u8>)
        requires
            self.wf(),
        ensures
            r@ == self@.file.subrange(0, self@.marks[0]),
    {
        proof {
            assert(self@.marks[0] == self.bill_marks@[0] as int);
        }
        let m0 = self.bill_marks[0];
        copy_range(&self.bill_file, 0, m0)
    }

    /// The bytes from the last record marker to the end.
    pub fn get_footer(&self) -> (r: Vec<u8>)
        requires
            self.wf(),
        ensures
            r@ == self@.file.subrange(self@.marks[self@.marks.len() - 1], self@.file.len() as int),
    {
        proof {
            assert(self@.marks[self@.marks.len() - 1] == self.bill_marks@[self.bill_marks@.len()
                - 1] as int);
        }
        let ml = self.bill_marks[self.bill_marks.len() - 1];
        let n = self.bill_file.len();
        copy_range(&self.bill_file, ml, n)
    }

    /// The indexed span for one account, as the bytes of that bill alone.
    pub fn chop_single_bill(&self, acct_id: &Vec<u8>) -> (r: Option<Vec<u8>>)
        requires
            self.wf(),
        ensures
            match r {
                Some(v) => self@.index.contains_key(acct_id@) && v@ == self@.file.subrange(
                    self@.index[acct_id@].0,
                    self@.index[acct_id@].1,
                ),
                None => !self@.index.contains_key(acct_id@),
            },
    {
        match index_get(&self.bill_index, acct_id) {
            None => None,
            Some((start, end)) => Some(copy_range(&self.bill_file, start, end)),
        }
    }

    /// The bytes from one account's bill through the last bill, ending at
    /// the footer start.
    pub fn chop_to_end(&self, acct_id: &Vec<u8>) -> (r: Option<Vec<u8>>)
        requires
            self.wf(),
        ensures
            match r {
                Some(v) => self@.index.contains_key(acct_id@) && v@ == self@.file.subrange(
                    self@.index[acct_id@].0,
                    self@.marks[self@.marks.len() - 2],
                ),
                None => !self@.index.contains_key(acct_id@),
            },
    {
        match index_get(&self.bill_index, acct_id) {
            None => None,
            Some((start, _end)) => {
                proof {
                    assert(self@.marks[self@.marks.len() - 2] == self.bill_marks@[
                        self.bill_marks@.len() - 2] as int);
                }
                let fstart = self.bill_marks[self.bill_marks.len() - 2];
                Some(copy_range(&self.bill_file, start, fstart))
            },
        }
    }

    /// The bytes from the first bill's start through the end of one
    /// account's bill.
    pub fn chop_from_start(&self, acct_id: &Vec<u8>) -> (r: Option<Vec<u8>>)
        requires
            self.wf(),
        ensures
            match r {
                Some(v) => self@.index.contains_key(acct_id@) && v@ == self@.file.subrange(
                    self@.marks[0],
                    self@.index[acct_id@].1,
                ),
                None => !self@.index.contains_key(acct_id@),
            },
    {
        match index_get(&self.bill_index, acct_id) {
            None => None,
            Some((_start, end)) => {
                proof {
                    assert(self@.marks[0] == self.bill_marks@[0] as int);
                }
                let m0 = self.bill_marks[0];
                Some(copy_range(&self.bill_file, m0, end))
            },
        }
    }

    /// The bytes of the inclusive range between two accounts' bills, in
    /// file order; bounds given in reverse order are swapped automatically.
    pub fn chop_range(&self, first_acct_id: &Vec<u8>, last_acct_id: &Vec<u8>) -> (r: Option<
        Vec<u8>,
    >)
        requires
            self.wf(),
        ensures
            match r {
                Some(v) => self@.index.contains_key(first_acct_id@) && self@.index.contains_key(
                    last_acct_id@,
                ) && ({
                    let a = self@.index[first_acct_id@];
                    let b = self@.index[last_acct_id@];
                    v@ == if span_le(a, b) {
                        self@.file.subrange(a.0, b.1)
                    } else {
                        self@.file.subrange(b.0, a.1)
                    }
                }),
                None => !self@.index.contains_key(first_acct_id@) || !self@.index.contains_key(
                    last_acct_id@,
                ),
            },
    {
        let first = index_get(&self.bill_index, first_acct_id);
        let last = index_get(&self.bill_index, last_acct_id);
        match (first, last) {
            (Some((fs, fe)), Some((ls, le))) => {
                if fs < ls || (fs == ls && fe <= le) {
                    Some(copy_range(&self.bill_file, fs, le))
                } else {
                    Some(copy_range(&self.bill_file, ls, fe))
                }
            },
            (_, _) => None,
        }
    }

    /// Whether an account is in the index.
    pub fn bill_exists(&self, acct_id: &Vec<u8>) -> (r: bool)
        ensures
            r == self@.index.contains_key(acct_id@),
    {
        index_get(&self.bill_index, acct_id).is_some()
    }
}

/// Walks consecutive mark pairs and indexes every account id found, each
/// mapped to its window's span; the earliest occurrence of an id wins.
#[verifier::loop_isolation(false)]
fn build_index(d: &Vec<u8>, marks: &Vec<usize>) -> (r: Vec<(Vec<u8>, (usize, usize))>)
    requires
        d@.len() >= 4000,
        marks@.map_values(|u: usize| u as int) == marks_of(d@),
        marks@.len() >= 2,
    ensures
        assoc_view(entries_view(r@)) == old_index_of(d@),
        forall|j: int|
            0 <= j < r@.len() ==> {
                let e = #[trigger] r@[j];
                marks@[0] as int <= e.1.0 && e.1.0 < e.1.1 && e.1.1 <= d@.len() && e.1.0
                    <= marks@[marks@.len() - 2] as int
            },
{
    let ghost gmarks = marks_of(d@);
    proof {
        lemma_hits_props(d@, mark_seq(), 0, d@.len() as int);
    }
    let dlen = d.len();
    let label = short_acct_label_bytes();
    let nmarks = marks.len();
    let mut index: Vec<(Vec<u8>, (usize, usize))> = Vec::new();
    proof {
        assert(entries_view(index@) =~= Seq::<(Seq<u8>, (int, int))>::empty());
        assert(assoc_view(entries_view(index@)) =~= index_upto(d@, gmarks, 0));
    }
    let mut m: usize = 0;
    while m < nmarks - 1
        invariant
            m <= nmarks - 1,
            assoc_view(entries_view(index@)) == index_upto(d@, gmarks, m as int),
            forall|j: int|
                0 <= j < index@.len() ==> {
                    let e = #[trigger] index@[j];
                    gmarks[0] <= e.1.0 && e.1.0 < e.1.1 && e.1.1 <= d@.len() && e.1.0
                        <= gmarks[gmarks.len() - 2]
                },
        decreases nmarks - 1 - m,
    {
        let lo = marks[m];
        let hi = marks[m + 1];
        proof {
            assert(gmarks[m as int] == lo as int && gmarks[m + 1] == hi as int);
            assert(lo < hi);
            assert(hi + 3 <= dlen);
            assert(gmarks[0] <= lo as int);
            assert(lo as int <= gmarks[gmarks.len() - 2]);
        }
        let ghost base = assoc_view(entries_view(index@));
        if hi - lo > 8 {
            let inner_end = hi - 8;
            let mut j: usize = lo;
            proof {
                assert(key_hits(d@, lo as int, lo as int) =~= Seq::<int>::empty());
            }
            while j < inner_end
                invariant
                    lo <= j <= inner_end,
                    assoc_view(entries_view(index@)) == insert_hits(
                        base,
                        d@,
                        key_hits(d@, lo as int, j as int),
                        lo as int,
                        hi as int,
                    ),
                    forall|jj: int|
                        0 <= jj < index@.len() ==> {
                            let e = #[trigger] index@[jj];
                            gmarks[0] <= e.1.0 && e.1.0 < e.1.1 && e.1.1 <= d@.len() && e.1.0
                                <= gmarks[gmarks.len() - 2]
                        },
                decreases inner_end - j,
            {
                let ghost hits_before = key_hits(d@, lo as int, j as int);
                let ghost prev_entries = index@;
                if match_at(d, &label, j) {
                    if dlen - j >= 21 {
                        let key = copy_range(d, j + 9, j + 21);
                        if index_get(&index, &key).is_none() {
                            index.push((key, (lo, hi)));
                            proof {
                                let ev = entries_view(index@);
                                let prev_ev = entries_view(prev_entries);
                                assert(ev.drop_last() =~= prev_ev);
                                assert(ev.last().0 =~= entry_key(d@, j as int));
                                assert(ev.last() == (ev.last().0, ev.last().1));
                                assert(ev.last() == (entry_key(d@, j as int), (
                                    lo as int,
                                    hi as int,
                                )));
                                assert(assoc_view(ev) == assoc_view(prev_ev).insert(
                                    entry_key(d@, j as int),
                                    (lo as int, hi as int),
                                ));
                            }
                        }
                    }
                }
                j += 1;
                proof {
                    let hits_now = key_hits(d@, lo as int, j as int);
                    if key_hit_at(d@, j - 1) {
                        assert(hits_now =~= hits_before.push(j - 1));
                        assert(hits_now.drop_last() =~= hits_before);
                        assert(insert_hits(base, d@, hits_now, lo as int, hi as int) == {
                            let prev = insert_hits(base, d@, hits_before, lo as int, hi as int);
                            if prev.contains_key(entry_key(d@, j - 1)) {
                                prev
                            } else {
                                prev.insert(entry_key(d@, j - 1), (lo as int, hi as int))
                            }
                        });
                    } else {
                        assert(hits_now =~= hits_before);
                    }
                }
            }
        }
        m += 1;
        proof {
            let hits_all = key_hits(d@, lo as int, hi - 8);
            if hi - lo <= 8 {
                assert(hits_all =~= Seq::<int>::empty());
                assert(insert_hits(base, d@, hits_all, lo as int, hi as int) == base);
            }
            assert(index_upto(d@, gmarks, m as int) == insert_hits(
                index_upto(d@, gmarks, m - 1),
                d@,
                hits_all,
                lo as int,
                hi as int,
            ));
        }
    }
    index
}

/// Looks an account id up in the entry list.
fn index_get(entries: &Vec<(Vec<u8>, (usize, usize))>, key: &Vec<u8>) -> (r: Option<
    (usize, usize),
>)
    ensures
        match r {
            Some(v) => assoc_view(entries_view(entries@)).contains_key(key@) && assoc_view(
                entries_view(entries@),
            )[key@] == (v.0 as int, v.1 as int) && exists|j: int|
                0 <= j < entries@.len() && (#[trigger] entries@[j]).1 == v,
            None => !assoc_view(entries_view(entries@)).contains_key(key@),
        },
{
    let n = entries.len();
    let mut i: usize = n;
    proof {
        assert(entries@.take(n as int) =~= entries@);
    }
    while i > 0
        invariant
            i <= n,
            n == entries@.len(),
            assoc_view(entries_view(entries@)).contains_key(key@) == assoc_view(
                entries_view(entries@.take(i as int)),
            ).contains_key(key@),
            assoc_view(entries_view(entries@)).contains_key(key@) ==> assoc_view(
                entries_view(entries@),
            )[key@] == assoc_view(entries_view(entries@.take(i as int)))[key@],
        decreases i,
    {
        i -= 1;
        let hit = eq_bytes(&entries[i].0, key);
        proof {
            let full = entries_view(entries@);
            let cur = entries_view(entries@.take(i + 1));
            let shorter = entries_view(entries@.take(i as int));
            assert(cur.drop_last() =~= shorter);
            assert(cur.last() == (entries@[i as int].0@, (
                entries@[i as int].1.0 as int,
                entries@[i as int].1.1 as int,
            )));
        }
        if hit {
            let v = (entries[i].1.0, entries[i].1.1);
            return Some(v);
        }
    }
    proof {
        assert(entries_view(entries@.take(0)) =~= Seq::<(Seq<u8>, (int, int))>::empty());
    }
    None
}

} // verus!
