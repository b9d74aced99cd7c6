use duckbill::bill::DuckBill;
use duckbill::data::DuckData;
use duckbill::error::DuckError;
use duckbill::file::DuckFile;

fn mk_span(acct: &[u8], num_field: &[u8]) -> Vec<u8> {
    let mut v = vec![0x1b, 0x45, 0x0d];
    v.extend_from_slice(b"Acct No: ");
    v.extend_from_slice(acct);
    v.extend_from_slice(b"\r\n");
    v.extend_from_slice(b"BILL #:    \x1b&a0405v0825H");
    v.extend_from_slice(num_field);
    v.extend_from_slice(&[b'x'; 80]);
    v
}

fn four_bill_file() -> DuckFile {
    let mut bytes: Vec<u8> = vec![
        0x1b, 0x26, 0x6c, 0x36, 0x44, 0x0d, 0x1b, 0x28, 0x73, 0x31, 0x50, 0x1b, 0x28, 0x73,
        0x35, 0x54, 0x1b, 0x28, 0x73, 0x31, 0x30, 0x56, 0x0d,
    ];
    let accts: [&[u8]; 4] = [
        b"52-1111111-1",
        b"52-2222222-1",
        b"52-3333333-1",
        b"52-4444444-1",
    ];
    let nums = [6671u32, 9648, 5956, 7488];
    for i in 0..4 {
        let mut span = mk_span(accts[i], format!("{:07}", nums[i]).as_bytes());
        span.extend_from_slice(&[b'x'; 880]);
        bytes.extend_from_slice(&span);
    }
    bytes.extend_from_slice(&[0x1b, 0x45, 0x0d, 0x1b, 0x45, 0x0d, 0x0a]);
    bytes.extend_from_slice(b"**** TOTAL BILLS PRINTED -   ");
    bytes.extend_from_slice(b"000004");
    bytes.push(0x0d);
    DuckFile::parse(DuckData::new(bytes)).unwrap()
}

#[test]
fn clone_works() {
    let test_data = four_bill_file();
    assert_eq!(*test_data.get_bill(0), test_data.get_bill(0).clone());
}

#[test]
fn bill_fields_are_parsed() {
    let span = mk_span(b"01-0123456-0", b"0006671");
    let bill = DuckBill::new(DuckData::new(span.clone())).unwrap();
    assert_eq!(bill.get_bill_number(), 6671);
    assert_eq!(bill.get_account_id().to_string(), "01-0123456-0".to_string());
    let raw: Vec<u8> = bill.get_raw().clone().into_vec();
    assert_eq!(raw, span);
}

#[test]
fn bill_without_labels_is_rejected() {
    let junk = vec![b'z'; 120];
    assert_eq!(
        DuckBill::new(DuckData::new(junk)).unwrap_err(),
        DuckError::BadIdentifierData
    );
}

#[test]
fn bill_with_bad_account_id_is_rejected() {
    let span = mk_span(b"01-01Z3456-0", b"0006671");
    assert_eq!(
        DuckBill::new(DuckData::new(span)).unwrap_err(),
        DuckError::BadAccountIdFormat
    );
}

#[test]
fn bill_with_bad_number_is_rejected() {
    let span = mk_span(b"01-0123456-0", b"00066x1");
    assert_eq!(
        DuckBill::new(DuckData::new(span)).unwrap_err(),
        DuckError::BadBillNumberFormat
    );
    let span2 = mk_span(b"01-0123456-0", &[b'0', b'0', b'0', 0xff, b'6', b'7', b'1']);
    assert_eq!(
        DuckBill::new(DuckData::new(span2)).unwrap_err(),
        DuckError::BadNumberData
    );
}

#[test]
fn last_label_occurrence_wins() {
    // two account labels in one span: the later candidate is authoritative
    let mut v = vec![0x1b, 0x45, 0x0d];
    v.extend_from_slice(b"Acct No: ");
    v.extend_from_slice(b"11-1111111-1");
    v.extend_from_slice(b"\r\n");
    v.extend_from_slice(b"Acct No: ");
    v.extend_from_slice(b"22-2222222-2");
    v.extend_from_slice(b"\r\n");
    v.extend_from_slice(b"BILL #:    \x1b&a0405v0825H");
    v.extend_from_slice(b"0000042");
    v.extend_from_slice(&[b'x'; 60]);
    let bill = DuckBill::new(DuckData::new(v)).unwrap();
    assert_eq!(bill.get_account_id().to_string(), "22-2222222-2".to_string());
    assert_eq!(bill.get_bill_number(), 42);
}
