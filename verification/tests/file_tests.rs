use duckbill::acctid::DuckAcctId;
use duckbill::data::DuckData;
use duckbill::error::DuckError;
use duckbill::file::DuckFile;

fn static_header() -> Vec<u8> {
    vec![
        0x1b, 0x26, 0x6c, 0x36, 0x44, 0x0d, 0x1b, 0x28, 0x73, 0x31, 0x50, 0x1b, 0x28, 0x73,
        0x35, 0x54, 0x1b, 0x28, 0x73, 0x31, 0x30, 0x56, 0x0d,
    ]
}

fn static_footer_pre() -> Vec<u8> {
    let mut v = vec![0x1b, 0x45, 0x0d, 0x1b, 0x45, 0x0d, 0x0a];
    v.extend_from_slice(b"**** TOTAL BILLS PRINTED -   ");
    v
}

fn mk_bill(acct: &[u8], num: u32) -> Vec<u8> {
    let mut v = vec![0x1b, 0x45, 0x0d];
    v.extend_from_slice(b"Acct No: ");
    v.extend_from_slice(acct);
    v.extend_from_slice(b"\r\n");
    v.extend_from_slice(b"BILL #:    \x1b&a0405v0825H");
    v.extend_from_slice(format!("{:07}", num).as_bytes());
    v.extend_from_slice(&[b'x'; 1400]);
    v
}

fn mk_file(bills: &[(&[u8], u32)]) -> Vec<u8> {
    let mut v = static_header();
    for (acct, num) in bills {
        v.extend_from_slice(&mk_bill(acct, *num));
    }
    v.extend_from_slice(&static_footer_pre());
    v.extend_from_slice(format!("{:06}", bills.len()).as_bytes());
    v.push(0x0d);
    v
}

fn four_bill_bytes() -> Vec<u8> {
    mk_file(&[
        (b"52-1111111-1", 6671),
        (b"52-2222222-1", 9648),
        (b"52-3333333-1", 5956),
        (b"52-4444444-1", 7488),
    ])
}

fn get_test_data() -> DuckFile {
    let test_data = DuckFile::parse(DuckData::new(four_bill_bytes()));
    assert!(test_data.is_ok());
    test_data.unwrap()
}

#[test]
fn count_is_correct() {
    let quack = get_test_data();

    assert_eq!(quack.get_bill_count(), 4);
}

#[test]
fn all_acct_ids_found() {
    let quack = get_test_data();

    let look_for: Vec<&[u8]> = vec![
        b"52-1111111-1",
        b"52-2222222-1",
        b"52-3333333-1",
        b"52-4444444-1",
    ];
    for s in look_for {
        let id = DuckAcctId::try_from_bytes(s.to_vec()).unwrap();
        assert!(quack.get_index_of_account(&id).is_some());
    }
}

#[test]
fn all_bill_numbers_found() {
    let quack = get_test_data();

    let look_for = vec![6671, 9648, 5956, 7488];
    for n in look_for {
        let mut found = false;
        for i in 0..quack.get_bill_count() {
            if quack.get_bill(i).get_bill_number() == n {
                found = true;
            }
        }
        assert!(found);
    }
}

#[test]
fn header_is_sane() {
    let _quack = get_test_data();
    // an insane header would already fail test data acquisition
}

#[test]
fn footer_is_sane() {
    let _quack = get_test_data();
    // an insane footer would already fail test data acquisition
}

#[test]
fn bill_count_shenanigans() {
    let quack = get_test_data();

    let footer = DuckFile::get_arbitrary_footer(69_420);
    assert!(footer.is_ok());
    // splice the mismatched footer in place of the real one
    let mut data2 = quack.get_header().clone();
    for i in 0..quack.get_bill_count() {
        data2.push(quack.get_bill(i).get_raw().clone());
    }
    data2.push(footer.unwrap());
    // data2 now carries a mismatched bill count
    let broken = DuckFile::parse(data2);
    assert!(broken.is_err());
    assert_eq!(broken.unwrap_err(), DuckError::MarkCountMismatch);
}

#[test]
fn static_header_len() {
    assert_eq!(
        DuckFile::get_static_header().len(),
        duckbill::file::NOMINAL_HEADER_LEN
    );
}

#[test]
fn static_footer_lens() {
    assert_eq!(
        DuckFile::get_static_footer_pre().len(),
        duckbill::file::NOMINAL_FOOTER_PRE_LEN
    );
    assert_eq!(
        DuckFile::get_static_footer_post().len(),
        duckbill::file::NOMINAL_FOOTER_POST_LEN
    );
}

#[test]
fn minimum_length_boundary() {
    let short = vec![0u8; 3999];
    assert_eq!(
        DuckFile::parse(DuckData::new(short)).unwrap_err(),
        DuckError::DataTooShort
    );
    let junk = vec![0u8; 4000];
    assert_eq!(
        DuckFile::parse(DuckData::new(junk)).unwrap_err(),
        DuckError::BadHeaderFormat
    );
}

#[test]
fn header_corruption_detected_everywhere() {
    let good = four_bill_bytes();
    for i in 0..23 {
        let mut bad = good.clone();
        bad[i] ^= 0x01;
        assert_eq!(
            DuckFile::parse(DuckData::new(bad)).unwrap_err(),
            DuckError::BadHeaderFormat
        );
    }
}

#[test]
fn footer_count_field_overwrite_rejected() {
    let mut bytes = four_bill_bytes();
    let n = bytes.len();
    bytes[n - 7..n - 1].copy_from_slice(b"069420");
    assert_eq!(
        DuckFile::parse(DuckData::new(bytes)).unwrap_err(),
        DuckError::MarkCountMismatch
    );
}

#[test]
fn serialize_round_trips() {
    let bytes = four_bill_bytes();
    let quack = DuckFile::parse(DuckData::new(bytes.clone())).unwrap();
    let out: Vec<u8> = quack.into_data().into_vec();
    assert_eq!(out, bytes);

    let again = DuckFile::parse(DuckData::new(out)).unwrap();
    assert_eq!(again.get_bill_count(), 4);
}

#[test]
fn full_set_assembly_is_byte_identical() {
    let bytes = four_bill_bytes();
    let quack = DuckFile::parse(DuckData::new(bytes.clone())).unwrap();
    let all = quack.select_span(0, quack.get_bill_count());
    let rebuilt = DuckFile::assemble(all).unwrap();
    assert_eq!(rebuilt.get_bill_count(), 4);
    let out: Vec<u8> = rebuilt.into_data().into_vec();
    assert_eq!(out, bytes);
}

#[test]
fn selection_correctness() {
    let quack = get_test_data();
    let idx_of = |s: &[u8]| {
        let id = DuckAcctId::try_from_bytes(s.to_vec()).unwrap();
        quack.get_index_of_account(&id).unwrap()
    };
    let a = idx_of(b"52-1111111-1");
    let b = idx_of(b"52-2222222-1");
    let c = idx_of(b"52-3333333-1");
    let d = idx_of(b"52-4444444-1");
    assert_eq!((a, b, c, d), (0, 1, 2, 3));

    let nums = |sel: Vec<duckbill::bill::DuckBill>| -> Vec<u32> {
        sel.iter().map(|x| x.get_bill_number()).collect()
    };

    assert_eq!(nums(quack.select_to_end(b)), vec![9648, 5956, 7488]);
    assert_eq!(nums(quack.select_from_start(c)), vec![6671, 9648, 5956]);
    assert_eq!(nums(quack.select_range(b, d)), vec![9648, 5956, 7488]);
    assert_eq!(nums(quack.select_range(d, b)), vec![9648, 5956, 7488]);
    assert_eq!(nums(quack.select_single(c)), vec![5956]);
}

#[test]
fn assembled_subset_revalidates() {
    let quack = get_test_data();
    let tail = quack.select_to_end(1);
    let rebuilt = DuckFile::assemble(tail).unwrap();
    assert_eq!(rebuilt.get_bill_count(), 3);
    let reparsed = DuckFile::parse(rebuilt.into_data()).unwrap();
    assert_eq!(reparsed.get_bill_count(), 3);
}

#[test]
fn round_trip_drops_stray_bytes() {
    // bytes between the header and the first record marker belong to no
    // bill; serialization drops them and the result reparses to the same
    // bills
    let mut bytes = static_header();
    bytes.extend_from_slice(b"stray");
    bytes.extend_from_slice(&mk_bill(b"52-1111111-1", 6671));
    bytes.extend_from_slice(&mk_bill(b"52-2222222-1", 9648));
    bytes.extend_from_slice(&mk_bill(b"52-3333333-1", 5956));
    bytes.extend_from_slice(&static_footer_pre());
    bytes.extend_from_slice(b"000003");
    bytes.push(0x0d);

    let quack = DuckFile::parse(DuckData::new(bytes.clone())).unwrap();
    let out: Vec<u8> = quack.into_data().into_vec();
    assert_eq!(out.len(), bytes.len() - 5);
    let again = DuckFile::parse(DuckData::new(out)).unwrap();
    assert_eq!(again.get_bill_count(), 3);
    assert_eq!(again.get_bill(1).get_bill_number(), 9648);
}

#[test]
fn double_labeled_window_is_one_bill() {
    // a window holding the account label twice is still one bill record;
    // the later candidate is authoritative
    let mut bytes = static_header();
    let mut window = vec![0x1b, 0x45, 0x0d];
    window.extend_from_slice(b"Acct No: ");
    window.extend_from_slice(b"11-1111111-1");
    window.extend_from_slice(b"\r\n");
    window.extend_from_slice(b"Acct No: ");
    window.extend_from_slice(b"22-2222222-2");
    window.extend_from_slice(b"\r\n");
    window.extend_from_slice(b"BILL #:    \x1b&a0405v0825H");
    window.extend_from_slice(b"0000042");
    window.extend_from_slice(&[b'x'; 1400]);
    bytes.extend_from_slice(&window);
    bytes.extend_from_slice(&mk_bill(b"33-3333333-3", 43));
    bytes.extend_from_slice(&mk_bill(b"44-4444444-4", 44));
    bytes.extend_from_slice(&static_footer_pre());
    bytes.extend_from_slice(b"000003");
    bytes.push(0x0d);

    let quack = DuckFile::parse(DuckData::new(bytes)).unwrap();
    assert_eq!(quack.get_bill_count(), 3);
    assert_eq!(
        quack.get_bill(0).get_account_id().to_string(),
        "22-2222222-2".to_string()
    );
    assert_eq!(quack.get_bill(0).get_bill_number(), 42);
}

#[test]
fn footer_shape_must_match() {
    // damage a fixed footer byte (inside the 36-byte pre run)
    let mut bytes = four_bill_bytes();
    let n = bytes.len();
    bytes[n - 20] = b'?';
    assert_eq!(
        DuckFile::parse(DuckData::new(bytes)).unwrap_err(),
        DuckError::BadFooterFormat
    );
}

#[test]
fn count_field_error_kinds() {
    // a non-digit in the count field is a number error
    let mut bytes = four_bill_bytes();
    let n = bytes.len();
    bytes[n - 4] = b'q';
    assert_eq!(
        DuckFile::parse(DuckData::new(bytes)).unwrap_err(),
        DuckError::BadNumberData
    );
    // a byte that is not UTF-8 at all is a string error
    let mut bytes2 = four_bill_bytes();
    let n2 = bytes2.len();
    bytes2[n2 - 4] = 0xff;
    assert_eq!(
        DuckFile::parse(DuckData::new(bytes2)).unwrap_err(),
        DuckError::BadStringData
    );
}

#[test]
fn arbitrary_footer_bounds() {
    assert!(DuckFile::get_arbitrary_footer(999_999).is_ok());
    assert_eq!(
        DuckFile::get_arbitrary_footer(1_000_000).unwrap_err(),
        DuckError::BillCountOutOfBounds
    );
    let f = DuckFile::get_arbitrary_footer(7).unwrap();
    let v: Vec<u8> = f.into_vec();
    assert_eq!(&v[36..42], b"000007");
    assert_eq!(v.len(), 43);
}

#[test]
fn not_enough_markers_reported() {
    // right length, right header, but no record marker anywhere
    let mut bytes = static_header();
    bytes.extend_from_slice(&[b'y'; 4100]);
    assert_eq!(
        DuckFile::parse(DuckData::new(bytes)).unwrap_err(),
        DuckError::NotEnoughMarkers
    );
}

#[test]
fn empty_file_value_is_consistent() {
    let f = DuckFile::new();
    assert_eq!(f.get_bill_count(), 0);
    assert_eq!(f.get_header().len(), 23);
    assert_eq!(f.get_footer().len(), 43);
}
