use duckbill::acctid::DuckAcctId;
use duckbill::data::DuckData;
use duckbill::error::DuckError;
use duckbill::text::lossy_string;

#[test]
fn duckacctid_to_string_valid_utf8() {
    assert_eq!(
        lossy_string(&vec![1, 2, 3, 4, 5, 6, 7, 254, 255, 0, 1, 23], b','),
        "1,2,3,4,5,6,7,254,255,0,1,23".to_string()
    );
}

#[test]
fn duckacctid_to_string_invalid_utf8() {
    assert_eq!(
        lossy_string(&vec![65, 66, 67, 68, 69, 70], b','),
        "ABCDEF".to_string()
    );
}

#[test]
fn valid_acct_id_ok() {
    let data = DuckData::new(b"01-0123456-0".to_vec());
    assert!(DuckAcctId::validate(&data));
}

#[test]
fn invalid_acct_id_fail() {
    let too_short = DuckData::new(b"moo".to_vec());
    assert!(!DuckAcctId::validate(&too_short));

    let bad_digit = DuckData::new(b"01-01Z3456-0".to_vec());
    assert!(!DuckAcctId::validate(&bad_digit));
}

#[test]
fn try_from_works() {
    let good_data = DuckData::new(b"01-0123456-0".to_vec());
    let good_id_res = DuckAcctId::try_from_data(good_data);

    assert!(good_id_res.is_ok());

    let bad_data = DuckData::new(b"failure".to_vec());
    let bad_id_res = DuckAcctId::try_from_data(bad_data);

    assert!(bad_id_res.is_err());
}

#[test]
fn acct_id_round_trips_to_text() {
    let id = DuckAcctId::try_from_bytes(b"52-1111111-1".to_vec()).unwrap();
    assert_eq!(id.to_string(), "52-1111111-1".to_string());
}

#[test]
fn acct_id_error_kinds() {
    assert_eq!(
        DuckAcctId::try_from_bytes(b"0123456".to_vec()).unwrap_err(),
        DuckError::AccountIDTooShort
    );
    assert_eq!(
        DuckAcctId::try_from_bytes(b"01x0123456-0".to_vec()).unwrap_err(),
        DuckError::BadAccountIdFormat
    );
}

#[test]
fn acct_id_equality_is_by_bytes() {
    let a = DuckAcctId::try_from_bytes(b"01-0123456-0".to_vec()).unwrap();
    let b = DuckAcctId::try_from_bytes(b"01-0123456-0".to_vec()).unwrap();
    let c = DuckAcctId::try_from_bytes(b"01-0123456-9".to_vec()).unwrap();
    assert_eq!(a, b);
    assert_ne!(a, c);
    assert_eq!(a.clone(), b);
}
