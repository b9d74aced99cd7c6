use duckbill::applogic::{AppLogic, AppState};
use duckbill::data::DuckData;
use duckbill::error::DuckError;
use duckbill::menu::MMenu;
use duckbill::ui::{AppUIState, InputStatus};

fn four_bill_bytes() -> Vec<u8> {
    let mut bytes: Vec<u8> = vec![
        0x1b, 0x26, 0x6c, 0x36, 0x44, 0x0d, 0x1b, 0x28, 0x73, 0x31, 0x50, 0x1b, 0x28, 0x73,
        0x35, 0x54, 0x1b, 0x28, 0x73, 0x31, 0x30, 0x56, 0x0d,
    ];
    let accts: [&[u8]; 4] = [
        b"52-1111111-1",
        b"52-2222222-1",
        b"52-3333333-1",
        b"52-4444444-1",
    ];
    let nums = [6671u32, 9648, 5956, 7488];
    for i in 0..4 {
        bytes.extend_from_slice(&[0x1b, 0x45, 0x0d]);
        bytes.extend_from_slice(b"Acct No: ");
        bytes.extend_from_slice(accts[i]);
        bytes.extend_from_slice(b"\r\n");
        bytes.extend_from_slice(b"BILL #:    \x1b&a0405v0825H");
        bytes.extend_from_slice(format!("{:07}", nums[i]).as_bytes());
        bytes.extend_from_slice(&[b'x'; 960]);
    }
    bytes.extend_from_slice(&[0x1b, 0x45, 0x0d, 0x1b, 0x45, 0x0d, 0x0a]);
    bytes.extend_from_slice(b"**** TOTAL BILLS PRINTED -   ");
    bytes.extend_from_slice(b"000004");
    bytes.push(0x0d);
    bytes
}

#[test]
fn m_menu_dummytest() {
    assert_eq!(true, true);
}

#[test]
fn menu_keys_are_lowercased() {
    let mut menu = MMenu::new();
    menu.add_entry("Q", "Quit", true);
    // lookups lowercase too, so either spelling matches
    assert!(menu.valid_choice("q"));
    assert!(menu.valid_choice("Q"));
    assert!(!menu.valid_choice("x"));
}

#[test]
fn menu_enable_disable() {
    let mut menu = MMenu::new();
    menu.add_entry("1", "Select bill file", true);
    menu.add_entry("2", "Chop to end", false);
    assert!(menu.valid_choice("1"));
    assert!(!menu.valid_choice("2"));
    assert!(menu.set_choice_avail("2", true).is_ok());
    assert!(menu.valid_choice("2"));
    assert!(menu.set_choice_avail("9", true).is_err());
}

#[test]
fn menu_update_replaces_entry() {
    let mut menu = MMenu::new();
    menu.add_entry("1", "Select bill file", true);
    menu.add_entry("1", "Select bill file (current: a.dat)", true);
    let lines = menu.enabled_lines();
    assert_eq!(lines.len(), 1);
    assert_eq!(lines[0], "1 Select bill file (current: a.dat)".to_string());
}

#[test]
fn menu_lines_show_enabled_only() {
    let mut menu = MMenu::new();
    menu.add_entry("1", "one", true);
    menu.add_entry("2", "two", false);
    menu.add_entry("3", "three", true);
    let lines = menu.enabled_lines();
    assert_eq!(lines, vec!["1 one".to_string(), "3 three".to_string()]);
}

#[test]
fn applogic_load_and_state() {
    let mut app = AppLogic::new();
    assert_eq!(*app.get_state(), AppState::NoFile);
    assert_eq!(app.get_current_filename(), "".to_string());

    let bad = app.load_file_data("nope.dat".to_string(), DuckData::new(vec![0u8; 10]));
    assert!(bad.is_err());
    assert_eq!(*app.get_state(), AppState::NoFile);

    let ok = app.load_file_data("bills.dat".to_string(), DuckData::new(four_bill_bytes()));
    assert!(ok.is_ok());
    assert_eq!(*app.get_state(), AppState::FileReady);
    assert_eq!(app.get_current_filename(), "bills.dat".to_string());
    assert_eq!(app.original_bills.get_bill_count(), 4);

    assert!(app.change_state(AppState::ChopRange).is_ok());
    assert_eq!(*app.get_state(), AppState::ChopRange);
}

#[test]
fn applogic_output_data_round_trips() {
    let mut app = AppLogic::new();
    // before any load there is no output path
    let sel = app.original_bills.select_span(0, 0);
    assert_eq!(app.create_output_data(sel).unwrap_err(), DuckError::IoError);

    let bytes = four_bill_bytes();
    app.load_file_data("bills.dat".to_string(), DuckData::new(bytes.clone()))
        .unwrap();
    let all = app
        .original_bills
        .select_span(0, app.original_bills.get_bill_count());
    let out = app.create_output_data(all).unwrap();
    assert_eq!(out.into_vec(), bytes);
}

#[test]
fn ui_acct_id_classification() {
    let mut ui = AppUIState::new();
    ui.app_logic_state
        .load_file_data("bills.dat".to_string(), DuckData::new(four_bill_bytes()))
        .unwrap();

    assert_eq!(ui.acct_id_is_valid(""), Err(InputStatus::Empty));
    assert_eq!(ui.acct_id_is_valid("   "), Err(InputStatus::Empty));
    assert_eq!(ui.acct_id_is_valid("52-11"), Err(InputStatus::Incomplete));
    assert_eq!(ui.acct_id_is_valid("52-11Z1111-1"), Err(InputStatus::Invalid));
    assert_eq!(
        ui.acct_id_is_valid("99-9999999-9"),
        Err(InputStatus::ValidNotFound)
    );
    assert_eq!(
        ui.acct_id_is_valid("52-2222222-1"),
        Ok(InputStatus::ValidFound)
    );
    // surrounding whitespace is trimmed before classification
    assert_eq!(
        ui.acct_id_is_valid("  52-2222222-1  "),
        Ok(InputStatus::ValidFound)
    );
}

#[test]
fn ui_button_arming() {
    let mut ui = AppUIState::new();
    ui.bill_input_a_status = InputStatus::ValidFound;
    ui.bill_input_b_status = InputStatus::Empty;
    ui.update_duck_it_button();
    assert!(ui.chop_message.is_some());

    ui.bill_input_a_status = InputStatus::Incomplete;
    ui.update_duck_it_button();
    assert!(ui.chop_message.is_none());

    ui.bill_input_a_status = InputStatus::Empty;
    ui.bill_input_b_status = InputStatus::ValidFound;
    ui.update_duck_it_button();
    assert!(ui.chop_message.is_some());
}

#[test]
fn ui_input_handlers() {
    let mut ui = AppUIState::new();
    // input changes are ignored until a file is picked
    ui.input_a_changed("52-2222222-1".to_string());
    assert_eq!(ui.bill_input_a, "".to_string());
    assert_eq!(ui.bill_input_a_status, InputStatus::Empty);

    ui.app_logic_state
        .load_file_data("bills.dat".to_string(), DuckData::new(four_bill_bytes()))
        .unwrap();
    ui.picked_file = Some("bills.dat".to_string());

    ui.input_a_changed("52-2222222-1".to_string());
    assert_eq!(ui.bill_input_a, "52-2222222-1".to_string());
    assert_eq!(ui.bill_input_a_status, InputStatus::ValidFound);
    // one id found, the other empty: the action is armed
    assert!(ui.chop_message.is_some());

    ui.input_b_changed("99-9999999-9".to_string());
    assert_eq!(ui.bill_input_b_status, InputStatus::ValidNotFound);
    assert!(ui.chop_message.is_none());

    ui.input_b_changed("52-4444444-1".to_string());
    assert_eq!(ui.bill_input_b_status, InputStatus::ValidFound);
    assert!(ui.chop_message.is_some());
}

#[test]
fn ui_icons() {
    assert_eq!(AppUIState::get_icon(&InputStatus::Empty), ' ');
    assert_eq!(AppUIState::get_icon(&InputStatus::Incomplete), '\u{2328}');
    assert_eq!(AppUIState::get_icon(&InputStatus::Invalid), '\u{274c}');
    assert_eq!(AppUIState::get_icon(&InputStatus::ValidNotFound), '\u{2b55}');
    assert_eq!(AppUIState::get_icon(&InputStatus::ValidFound), '\u{2705}');
}

#[test]
fn duckdata_to_string_valid_utf8() {
    assert_eq!(
        DuckData::new(vec![1, 2, 3, 4, 5, 6, 7, 254, 255, 0, 1, 23]).to_string(),
        "1 2 3 4 5 6 7 254 255 0 1 23".to_string()
    );
}

#[test]
fn duckdata_to_string_invalid_utf8() {
    assert_eq!(
        DuckData::new(vec![65, 66, 67, 68, 69, 70]).to_string(),
        "ABCDEF".to_string()
    );
}

#[test]
fn duckdata_basics() {
    let mut d = DuckData::new(vec![1, 2, 3]);
    assert_eq!(d.len(), 3);
    assert!(!d.is_empty());
    assert!(DuckData::new(Vec::new()).is_empty());
    d.push(DuckData::new(vec![4, 5]));
    assert_eq!(d.len(), 5);
    assert_eq!(d.get(3), 4);
    assert!(DuckData::is_ascii_number(b'7'));
    assert!(!DuckData::is_ascii_number(b'x'));
    assert_eq!(d.range(1, 4).into_vec(), vec![2, 3, 4]);
}
