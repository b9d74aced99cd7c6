//! `DuckAcctId`: a validated, fixed-length account identifier.

use vstd::prelude::*;
use crate::data::{DuckData, eq_bytes};
use crate::error::DuckError;
use crate::format::is_digit;
use crate::text::{lossy_chars, lossy_string};

verus! {

/// Length of the label `"Acct No: "` that precedes an account id.
pub const ACCT_STR_BYTES_LEN: usize = 9;

/// Length of an account id byte sequence.
pub const ACCT_NUMBER_LEN: usize = 12;

/// Length of label plus account id.
pub const ACCT_MARK_LEN: usize = 21;

/// The shape `DD-DDDDDDD-D`: twelve bytes, ASCII digits everywhere but the
/// two literal dashes at offsets 2 and 10.
pub open spec fn valid_acct_bytes(s: Seq<u8>) -> bool {
    &&& s.len() == 12
    &&& is_digit(s[0])
    &&& is_digit(s[1])
    &&& s[2] == 45u8
    &&& is_digit(s[3])
    &&& is_digit(s[4])
    &&& is_digit(s[5])
    &&& is_digit(s[6])
    &&& is_digit(s[7])
    &&& is_digit(s[8])
    &&& is_digit(s[9])
    &&& s[10] == 45u8
    &&& is_digit(s[11])
}

/// A validated account identifier.  Every value in existence holds bytes of
/// the shape checked by [`valid_acct_bytes`]; validation happens only at
/// construction.
#[derive(Debug)]
pub struct DuckAcctId {
    my_data: Vec<u8>,
}

impl View for DuckAcctId {
    type V = Seq<u8>;

    closed spec fn view(&self) -> Seq<u8> {
        self.my_data@
    }
}

impl DuckAcctId {
    /// The construction-time invariant, visible to callers.
    pub open spec fn wf(&self) -> bool {
        valid_acct_bytes(self@)
    }

    /// Syntactic validation of a candidate id.
    pub fn validate(id: &DuckData) -> (r: bool)
        ensures
            r == valid_acct_bytes(id@),
    {
        if id.len() != ACCT_NUMBER_LEN {
            return false;
        }
        let ok = DuckData::is_ascii_number(id.get(0)) && DuckData::is_ascii_number(id.get(1))
            && DuckData::is_ascii_number(id.get(3)) && DuckData::is_ascii_number(id.get(4))
            && DuckData::is_ascii_number(id.get(5)) && DuckData::is_ascii_number(id.get(6))
            && DuckData::is_ascii_number(id.get(7)) && DuckData::is_ascii_number(id.get(8))
            && DuckData::is_ascii_number(id.get(9)) && DuckData::is_ascii_number(id.get(11))
            && id.get(2) == 45 && id.get(10) == 45;
        ok
    }

    /// Builds an id out of a byte buffer, rejecting every malformed shape.
    pub fn try_from_data(value: DuckData) -> (r: Result<DuckAcctId, DuckError>)
        ensures
            match r {
                Ok(id) => id.wf() && id@ == value@,
                Err(e) => !valid_acct_bytes(value@) && if value@.len() != 12 {
                    e == DuckError::AccountIDTooShort
                } else {
                    e == DuckError::BadAccountIdFormat
                },
            },
    {
        if value.len() != ACCT_NUMBER_LEN {
            return Err(DuckError::AccountIDTooShort);
        }
        if DuckAcctId::validate(&value) {
            Ok(DuckAcctId { my_data: value.into_vec() })
        } else {
            Err(DuckError::BadAccountIdFormat)
        }
    }

    /// Builds an id out of raw bytes, rejecting every malformed shape.
    pub fn try_from_bytes(value: Vec<u8>) -> (r: Result<DuckAcctId, DuckError>)
        ensures
            match r {
                Ok(id) => id.wf() && id@ == value@,
                Err(e) => !valid_acct_bytes(value@) && if value@.len() != 12 {
                    e == DuckError::AccountIDTooShort
                } else {
                    e == DuckError::BadAccountIdFormat
                },
            },
    {
        DuckAcctId::try_from_data(DuckData::new(value))
    }

    /// The id's bytes as a buffer.
    pub fn to_data(&self) -> (r: DuckData)
        ensures
            r@ == self@,
    {
        DuckData::new(self.my_data.clone())
    }

    /// Lossy text rendering: UTF-8 text when the bytes decode, else each
    /// byte as a decimal number joined by commas.
    pub fn to_string(&self) -> (r: String)
        ensures
            r@ == lossy_chars(self@, 44),
    {
        lossy_string(&self.my_data, 44)
    }
}

impl Clone for DuckAcctId {
    fn clone(&self) -> (r: Self)
        ensures
            r@ == self@,
    {
        DuckAcctId { my_data: self.my_data.clone() }
    }
}

impl PartialEq for DuckAcctId {
    fn eq(&self, other: &DuckAcctId) -> (r: bool) {
        eq_bytes(&self.my_data, &other.my_data)
    }
}

impl vstd::std_specs::cmp::PartialEqSpecImpl for DuckAcctId {
    open spec fn obeys_eq_spec() -> bool {
        true
    }

    open spec fn eq_spec(&self, other: &DuckAcctId) -> bool {
        self@ == other@
    }
}

impl Eq for DuckAcctId {
}

} // verus!
