use vstd::prelude::*;

verus! {

/// Every failure the bill-file model can report.  Parsing and assembly are
/// all-or-nothing: any of these ends the operation with no partial value.
#[derive(Clone, Copy, Debug, PartialEq, Eq, Structural)]
pub enum DuckError {
    BadData,
    NotEnoughMarkers,
    DataTooShort,
    LengthMarkerMissing,
    LengthMarkerFormatBad,
    MarkCountMismatch,
    BadStringData,
    BadNumberData,
    NoAccountIDFound,
    BadAccountIdFormat,
    AccountIDTooShort,
    BadHeaderFormat,
    HeaderTooShort,
    BadFooterFormat,
    BillCountOutOfBounds,
    BadIdentifierData,
    BadBillNumberFormat,
    NegativeNumber,
    OpCancelled,
    IoError,
    FileTooSmall,
    FileTooBig,
}

} // verus!
