use duckbill::billfile::BillFile;
use duckbill::error::DuckError;

fn real_header() -> Vec<u8> {
    vec![
        0x1b, 0x26, 0x6c, 0x36, 0x44, 0x0d, 0x1b, 0x28, 0x73, 0x31, 0x50, 0x1b, 0x28, 0x73,
        0x35, 0x54, 0x1b, 0x28, 0x73, 0x31, 0x30, 0x56, 0x0d,
    ]
}

fn mk_bytes_with(accts: &[&[u8]]) -> Vec<u8> {
    let mut bytes = real_header();
    for acct in accts {
        bytes.extend_from_slice(&[0x1b, 0x45, 0x0d]);
        bytes.extend_from_slice(b"Acct No: ");
        bytes.extend_from_slice(acct);
        bytes.extend_from_slice(&[b'x'; 985]);
    }
    bytes.extend_from_slice(&[0x1b, 0x45, 0x0d, 0x1b, 0x45, 0x0d, 0x0a]);
    bytes.extend_from_slice(b"**** TOTAL BILLS PRINTED -   ");
    bytes.extend_from_slice(format!("{:06}", accts.len()).as_bytes());
    bytes.push(0x0d);
    bytes
}

fn mk_bytes() -> Vec<u8> {
    mk_bytes_with(&[
        b"52-1111111-1",
        b"52-2222222-1",
        b"52-3333333-1",
        b"52-4444444-1",
    ])
}

#[test]
fn billfile_parses_and_counts() {
    let bf = BillFile::new(mk_bytes()).unwrap();
    assert_eq!(bf.get_bill_count(), 4);
    assert_eq!(bf.get_header(), real_header());
    assert!(bf.bill_exists(&b"52-2222222-1".to_vec()));
    assert!(!bf.bill_exists(&b"52-9999999-1".to_vec()));
}

#[test]
fn billfile_rejects_short_data() {
    assert_eq!(
        BillFile::new(vec![0u8; 3999]).unwrap_err(),
        DuckError::DataTooShort
    );
}

#[test]
fn billfile_rejects_bad_header() {
    // a buffer that never starts with the fixed header is refused outright
    assert_eq!(
        BillFile::new(vec![b'y'; 4100]).unwrap_err(),
        DuckError::BadHeaderFormat
    );
    // and flipping any single header byte of a valid file is caught
    let good = mk_bytes();
    for i in 0..23 {
        let mut bad = good.clone();
        bad[i] ^= 0x01;
        assert_eq!(
            BillFile::new(bad).unwrap_err(),
            DuckError::BadHeaderFormat
        );
    }
}

#[test]
fn billfile_rejects_missing_marks() {
    let mut bytes = real_header();
    bytes.extend_from_slice(&[b'y'; 4100]);
    assert_eq!(
        BillFile::new(bytes).unwrap_err(),
        DuckError::NotEnoughMarkers
    );
}

#[test]
fn billfile_rejects_count_mismatch() {
    let mut bytes = mk_bytes();
    let n = bytes.len();
    bytes[n - 7..n - 1].copy_from_slice(b"000009");
    assert_eq!(
        BillFile::new(bytes).unwrap_err(),
        DuckError::MarkCountMismatch
    );
}

#[test]
fn billfile_count_field_error_kinds() {
    let mut bytes = mk_bytes();
    let n = bytes.len();
    bytes[n - 4] = b'q';
    assert_eq!(
        BillFile::new(bytes).unwrap_err(),
        DuckError::LengthMarkerFormatBad
    );
    let mut bytes2 = mk_bytes();
    let n2 = bytes2.len();
    bytes2[n2 - 4] = 0xff;
    assert_eq!(
        BillFile::new(bytes2).unwrap_err(),
        DuckError::LengthMarkerMissing
    );
}

#[test]
fn billfile_chops_single() {
    let bytes = mk_bytes();
    let bf = BillFile::new(bytes.clone()).unwrap();
    let chopped = bf.chop_single_bill(&b"52-2222222-1".to_vec()).unwrap();
    // the second bill's span: [23 + 1009, 23 + 2 * 1009)
    assert_eq!(chopped, bytes[1032..2041].to_vec());
    assert!(bf.chop_single_bill(&b"52-9999999-1".to_vec()).is_none());
}

#[test]
fn billfile_chops_to_end() {
    let bytes = mk_bytes();
    let bf = BillFile::new(bytes.clone()).unwrap();
    let chopped = bf.chop_to_end(&b"52-3333333-1".to_vec()).unwrap();
    // from the third bill's start through the last bill, up to the footer
    assert_eq!(chopped, bytes[2041..4059].to_vec());
}

#[test]
fn billfile_chops_from_start() {
    let bytes = mk_bytes();
    let bf = BillFile::new(bytes.clone()).unwrap();
    let chopped = bf.chop_from_start(&b"52-2222222-1".to_vec()).unwrap();
    // from the first bill's start through the second bill's end
    assert_eq!(chopped, bytes[23..2041].to_vec());
}

#[test]
fn billfile_chops_range_with_swap() {
    let bytes = mk_bytes();
    let bf = BillFile::new(bytes.clone()).unwrap();
    let forward = bf
        .chop_range(&b"52-2222222-1".to_vec(), &b"52-4444444-1".to_vec())
        .unwrap();
    assert_eq!(forward, bytes[1032..4059].to_vec());
    // a reversed range is swapped automatically and yields the same bytes
    let reversed = bf
        .chop_range(&b"52-4444444-1".to_vec(), &b"52-2222222-1".to_vec())
        .unwrap();
    assert_eq!(reversed, forward);
    // a degenerate range is the single bill
    let single = bf
        .chop_range(&b"52-2222222-1".to_vec(), &b"52-2222222-1".to_vec())
        .unwrap();
    assert_eq!(single, bytes[1032..2041].to_vec());
    // an unknown id still yields nothing
    assert!(bf
        .chop_range(&b"52-2222222-1".to_vec(), &b"52-9999999-1".to_vec())
        .is_none());
}

#[test]
fn billfile_duplicate_id_keeps_earliest() {
    // the same account appears in the first and third windows; the index
    // must keep the first window's span
    let bytes = mk_bytes_with(&[
        b"52-7777777-7",
        b"52-2222222-1",
        b"52-7777777-7",
        b"52-4444444-1",
    ]);
    let bf = BillFile::new(bytes.clone()).unwrap();
    let chopped = bf.chop_single_bill(&b"52-7777777-7".to_vec()).unwrap();
    assert_eq!(chopped, bytes[23..1032].to_vec());
}
