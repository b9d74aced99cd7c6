//! `DuckBill`: one bill's raw byte span plus the account id and bill number
//! parsed out of it.

use vstd::prelude::*;
use vstd::utf8::valid_utf8;
use crate::data::{DuckData, copy_range, eq_bytes};
use crate::error::DuckError;
use crate::format::{
    acct_label_bytes, acct_label_seq, all_digits, bill_label_bytes, bill_label_seq, digits_value,
    is_match_at, last_hit, match_at, parse_digits, lemma_pow10_pos,
};
use crate::acctid::{DuckAcctId, valid_acct_bytes};
use crate::text::utf8_string;

verus! {

/// Length of the bill-number label including its control-code suffix.
pub const BILLNUM_STR_BYTES_LEN: usize = 24;

/// Length of the bill-number digit field.
pub const BILLNUM_LEN: usize = 7;

/// The mathematical content of one bill record.
#[verifier::ext_equal]
pub ghost struct BillModel {
    /// The record's bytes, verbatim from the source file.
    pub raw: Seq<u8>,
    /// The twelve account-id bytes found after the account label.
    pub acct: Seq<u8>,
    /// The bill number parsed from the seven digits after the number label.
    pub num: u32,
}

/// The greatest offset where the account label occurs within the scan range
/// of `raw`, if any.
pub open spec fn bill_acct_pos(raw: Seq<u8>) -> Option<int> {
    last_hit(raw, acct_label_seq(), raw.len() - 24)
}

/// The bill-number label occurs at `i` with room for its seven digits.
pub open spec fn num_hit_at(d: Seq<u8>, i: int) -> bool {
    is_match_at(d, bill_label_seq(), i) && i + 31 <= d.len()
}

/// The greatest offset below `hi` where the bill-number label occurs with
/// room for its digits, if any.
pub open spec fn last_num_hit(d: Seq<u8>, hi: int) -> Option<int>
    decreases hi,
{
    if hi <= 0 {
        None
    } else if num_hit_at(d, hi - 1) {
        Some(hi - 1)
    } else {
        last_num_hit(d, hi - 1)
    }
}

/// The greatest offset where the bill-number label occurs within the scan
/// range of `raw`, if any.
pub open spec fn bill_num_pos(raw: Seq<u8>) -> Option<int> {
    last_num_hit(raw, raw.len() - 24)
}

/// What constructing a bill from a raw span returns, for every input.
pub open spec fn parse_bill(raw: Seq<u8>) -> Result<BillModel, DuckError> {
    match (bill_acct_pos(raw), bill_num_pos(raw)) {
        (Some(a), Some(b)) => {
            let acct = raw.subrange(a + 9, a + 21);
            let numb = raw.subrange(b + 24, b + 31);
            if !valid_acct_bytes(acct) {
                Err(DuckError::BadAccountIdFormat)
            } else if !valid_utf8(numb) {
                Err(DuckError::BadNumberData)
            } else if !all_digits(numb) {
                Err(DuckError::BadBillNumberFormat)
            } else {
                Ok(BillModel { raw: raw, acct: acct, num: digits_value(numb) as u32 })
            }
        },
        _ => Err(DuckError::BadIdentifierData),
    }
}

/// One bill record.  The raw span is authoritative: the account id and bill
/// number are read-only views derived from it at construction.
#[derive(Debug)]
pub struct DuckBill {
    raw_data: DuckData,
    account_id: DuckAcctId,
    bill_number: u32,
}

impl View for DuckBill {
    type V = BillModel;

    closed spec fn view(&self) -> BillModel {
        BillModel { raw: self.raw_data@, acct: self.account_id@, num: self.bill_number }
    }
}

impl DuckBill {
    /// The construction-time invariant: the derived fields are exactly what
    /// parsing the raw span yields.
    pub open spec fn wf(&self) -> bool {
        parse_bill(self@.raw) == Ok::<BillModel, DuckError>(self@)
    }

    /// Scans a raw span for the two labels and builds the record, or says
    /// exactly why it cannot.
    pub fn new(raw: DuckData) -> (r: Result<DuckBill, DuckError>)
        ensures
            match r {
                Ok(b) => parse_bill(raw@) == Ok::<BillModel, DuckError>(b@) && b.wf(),
                Err(e) => parse_bill(raw@) == Err::<BillModel, DuckError>(e),
            },
    {
        let len = raw.len();
        if len < BILLNUM_STR_BYTES_LEN {
            return Err(DuckError::BadIdentifierData);
        }
        let acct_pat = acct_label_bytes();
        let bill_pat = bill_label_bytes();
        let bound = len - BILLNUM_STR_BYTES_LEN;
        let mut acct_pos: Option<usize> = None;
        let mut num_pos: Option<usize> = None;
        let mut i: usize = 0;
        while i < bound
            invariant
                len == raw@.len(),
                24 <= len,
                bound == len - 24,
                i <= bound,
                acct_pat@ == acct_label_seq(),
                bill_pat@ == bill_label_seq(),
                match acct_pos {
                    Some(p) => last_hit(raw@, acct_label_seq(), i as int) == Some(p as int),
                    None => last_hit(raw@, acct_label_seq(), i as int) is None,
                },
                match num_pos {
                    Some(p) => last_num_hit(raw@, i as int) == Some(p as int),
                    None => last_num_hit(raw@, i as int) is None,
                },
            decreases bound - i,
        {
            if match_at(raw.as_vec(), &acct_pat, i) {
                acct_pos = Some(i);
            }
            if match_at(raw.as_vec(), &bill_pat, i) {
                if len - i >= 31 {
                    num_pos = Some(i);
                }
            }
            i += 1;
        }
        match (acct_pos, num_pos) {
            (Some(a), Some(b)) => {
                proof {
                    assert(bill_acct_pos(raw@) == Some(a as int));
                    assert(bill_num_pos(raw@) == Some(b as int));
                    lemma_last_hit_in_range(raw@, acct_label_seq(), bound as int);
                    lemma_last_num_hit_in_range(raw@, bound as int);
                }
                let acct_candidate = raw.range(a + 9, a + 21);
                match DuckAcctId::try_from_data(acct_candidate) {
                    Err(_) => Err(DuckError::BadAccountIdFormat),
                    Ok(id) => {
                        let num_start = b + BILLNUM_STR_BYTES_LEN;
                        match parse_digits(raw.as_vec(), num_start, BILLNUM_LEN) {
                            Some(v) => {
                                proof {
                                    lemma_pow10_pos(7);
                                    let numb = raw@.subrange(b + 24, b + 31);
                                    assert(forall|k: int| 0 <= k < numb.len()
                                        ==> (#[trigger] numb[k]) < 0x80);
                                    crate::text::lemma_ascii_decode(numb);
                                }
                                Ok(DuckBill { raw_data: raw, account_id: id, bill_number: v })
                            },
                            None => {
                                let numb = copy_range(raw.as_vec(), num_start, num_start + BILLNUM_LEN);
                                if utf8_string(&numb).is_some() {
                                    Err(DuckError::BadBillNumberFormat)
                                } else {
                                    Err(DuckError::BadNumberData)
                                }
                            },
                        }
                    },
                }
            },
            (_, _) => Err(DuckError::BadIdentifierData),
        }
    }

    /// The parsed account id.
    pub fn get_account_id(&self) -> (r: &DuckAcctId)
        ensures
            r@ == self@.acct,
    {
        &self.account_id
    }

    /// The parsed bill number.
    pub fn get_bill_number(&self) -> (r: u32)
        ensures
            r == self@.num,
    {
        self.bill_number
    }

    /// The record's raw bytes.
    pub fn get_raw(&self) -> (r: &DuckData)
        ensures
            r@ == self@.raw,
    {
        &self.raw_data
    }

    /// Gives up the record and hands its raw bytes back.
    pub fn into_data(self) -> (r: DuckData)
        ensures
            r@ == self@.raw,
    {
        self.raw_data
    }
}

impl Clone for DuckBill {
    fn clone(&self) -> (r: Self)
        ensures
            r@ == self@,
    {
        DuckBill {
            raw_data: self.raw_data.clone(),
            account_id: self.account_id.clone(),
            bill_number: self.bill_number,
        }
    }
}

impl PartialEq for DuckBill {
    fn eq(&self, other: &DuckBill) -> (r: bool) {
        let same = eq_bytes(self.raw_data.as_vec(), other.raw_data.as_vec())
            && self.account_id == other.account_id
            && self.bill_number == other.bill_number;
        proof {
            if same {
                assert(self@ =~= other@);
            }
        }
        same
    }
}

impl vstd::std_specs::cmp::PartialEqSpecImpl for DuckBill {
    open spec fn obeys_eq_spec() -> bool {
        true
    }

    open spec fn eq_spec(&self, other: &DuckBill) -> bool {
        self@ == other@
    }
}

impl Eq for DuckBill {
}

/// A hit reported by `last_hit` lies within `[0, hi)`.
proof fn lemma_last_hit_in_range(d: Seq<u8>, pat: Seq<u8>, hi: int)
    ensures
        match last_hit(d, pat, hi) {
            Some(p) => 0 <= p < hi && is_match_at(d, pat, p),
            None => true,
        },
    decreases hi,
{
    if hi > 0 && !is_match_at(d, pat, hi - 1) {
        lemma_last_hit_in_range(d, pat, hi - 1);
    }
}

/// A hit reported by `last_num_hit` lies within `[0, hi)` and has room for
/// the digit field.
proof fn lemma_last_num_hit_in_range(d: Seq<u8>, hi: int)
    ensures
        match last_num_hit(d, hi) {
            Some(p) => 0 <= p < hi && num_hit_at(d, p),
            None => true,
        },
    decreases hi,
{
    if hi > 0 && !num_hit_at(d, hi - 1) {
        lemma_last_num_hit_in_range(d, hi - 1);
    }
}

} // verus!
