//! Input-side state of the interactive front end: message and status kinds,
//! account-id input classification, and the action-button rule.

use vstd::prelude::*;
use vstd::string::StrSliceExecFns;
use vstd::utf8::encode_utf8;
use crate::acctid::{DuckAcctId, valid_acct_bytes};
use crate::applogic::AppLogic;
use crate::text::trim_of;

verus! {

/// Messages the front end routes through its event loop.
#[derive(Debug, Clone)]
pub enum AppStateMsg {
    PickFile,
    LoadFile,
    ChopToEnd,
    ChopFromStart,
    ChopRange,
    ChopOne,
    InputAChanged(String),
    InputBChanged(String),
    Chop,
    ErrorMessage(String),
}

/// What an account-id input field currently holds.
#[derive(Debug, Clone, Copy, PartialEq, Eq, Structural)]
pub enum InputStatus {
    Empty,
    Incomplete,
    Invalid,
    ValidNotFound,
    ValidFound,
}

/// The icon shown beside an input field in the given status.
pub open spec fn icon_of(i: InputStatus) -> char {
    match i {
        InputStatus::Empty => ' ',
        InputStatus::Incomplete => '\u{2328}',
        InputStatus::Invalid => '\u{274c}',
        InputStatus::ValidNotFound => '\u{2b55}',
        InputStatus::ValidFound => '\u{2705}',
    }
}

/// Whether the action button is armed for a pair of input statuses: both
/// ids found, or exactly one found with the other left empty.
pub open spec fn duck_it_message(a: InputStatus, b: InputStatus) -> Option<AppStateMsg> {
    if a == InputStatus::ValidFound && b == InputStatus::ValidFound {
        Some(AppStateMsg::Chop)
    } else if a == InputStatus::ValidFound && b == InputStatus::Empty {
        Some(AppStateMsg::Chop)
    } else if a == InputStatus::Empty && b == InputStatus::ValidFound {
        Some(AppStateMsg::Chop)
    } else {
        None
    }
}

/// How one account-id input classifies against the loaded bills: `tb` is
/// the input's trimmed UTF-8 bytes.
pub open spec fn acct_input_status(tb: Seq<u8>, bills: Seq<crate::bill::BillModel>) -> InputStatus {
    if tb.len() == 0 {
        InputStatus::Empty
    } else if tb.len() < 12 {
        InputStatus::Incomplete
    } else if !valid_acct_bytes(tb) {
        InputStatus::Invalid
    } else if exists|j: int| 0 <= j < bills.len() && (#[trigger] bills[j]).acct == tb {
        InputStatus::ValidFound
    } else {
        InputStatus::ValidNotFound
    }
}

/// The front end's own state: the picked file, the two account-id inputs
/// with their statuses, the armed action, and the application logic.
pub struct AppUIState {
    pub picked_file: Option<String>,
    pub chop_message: Option<AppStateMsg>,
    pub bill_input_a: String,
    pub bill_input_b: String,
    pub app_logic_state: AppLogic,
    pub bill_input_a_status: InputStatus,
    pub bill_input_b_status: InputStatus,
}

impl AppUIState {
    /// A fresh front-end state: nothing picked, both inputs empty.
    pub fn new() -> (r: AppUIState)
        ensures
            r.picked_file is None,
            r.chop_message is None,
            r.bill_input_a@ == Seq::<char>::empty(),
            r.bill_input_b@ == Seq::<char>::empty(),
            r.bill_input_a_status == InputStatus::Empty,
            r.bill_input_b_status == InputStatus::Empty,
            r.app_logic_state.state_spec() == crate::applogic::AppState::NoFile,
            r.app_logic_state.bills_spec()@ == crate::file::empty_file_model(),
    {
        AppUIState {
            picked_file: None,
            chop_message: None,
            bill_input_a: String::new(),
            bill_input_b: String::new(),
            bill_input_a_status: InputStatus::Empty,
            bill_input_b_status: InputStatus::Empty,
            app_logic_state: AppLogic::new(),
        }
    }

    /// Classifies an account-id input against the loaded file: empty,
    /// incomplete, malformed, well-formed but unknown, or found.
    pub fn acct_id_is_valid(&self, acctid: &str) -> (r: Result<InputStatus, InputStatus>)
        ensures
            ({
                let st = acct_input_status(
                    encode_utf8(trim_of(acctid@)),
                    self.app_logic_state.bills_spec()@.bills,
                );
                r == if st == InputStatus::ValidFound {
                    Ok::<InputStatus, InputStatus>(st)
                } else {
                    Err::<InputStatus, InputStatus>(st)
                }
            }),
    {
        let trimmed = crate::text::trim_str(acctid);
        let id_bytes = trimmed.as_str().as_bytes_vec();
        if id_bytes.len() == 0 {
            return Err(InputStatus::Empty);
        }
        if id_bytes.len() < 12 {
            return Err(InputStatus::Incomplete);
        }
        match DuckAcctId::try_from_bytes(id_bytes) {
            Ok(id) => {
                match self.app_logic_state.bills_ref().get_index_of_account(&id) {
                    None => Err(InputStatus::ValidNotFound),
                    Some(_) => Ok(InputStatus::ValidFound),
                }
            },
            Err(_) => Err(InputStatus::Invalid),
        }
    }

    /// The icon for an input status.
    pub fn get_icon(i: &InputStatus) -> (r: char)
        ensures
            r == icon_of(*i),
    {
        match i {
            InputStatus::Empty => ' ',
            InputStatus::Incomplete => '\u{2328}',
            InputStatus::Invalid => '\u{274c}',
            InputStatus::ValidNotFound => '\u{2b55}',
            InputStatus::ValidFound => '\u{2705}',
        }
    }

    /// Arms or disarms the action button from the two input statuses.
    pub fn update_duck_it_button(&mut self)
        ensures
            final(self).chop_message == duck_it_message(
                old(self).bill_input_a_status,
                old(self).bill_input_b_status,
            ),
            final(self).picked_file == old(self).picked_file,
            final(self).bill_input_a == old(self).bill_input_a,
            final(self).bill_input_b == old(self).bill_input_b,
            final(self).app_logic_state == old(self).app_logic_state,
            final(self).bill_input_a_status == old(self).bill_input_a_status,
            final(self).bill_input_b_status == old(self).bill_input_b_status,
    {
        let a_found = matches!(self.bill_input_a_status, InputStatus::ValidFound);
        let a_empty = matches!(self.bill_input_a_status, InputStatus::Empty);
        let b_found = matches!(self.bill_input_b_status, InputStatus::ValidFound);
        let b_empty = matches!(self.bill_input_b_status, InputStatus::Empty);
        self.chop_message = if (a_found && b_found) || (a_found && b_empty) || (a_empty
            && b_found) {
            Some(AppStateMsg::Chop)
        } else {
            None
        };
    }

    /// Reserved hook of the front end; changes nothing.
    pub fn disable_bill_actions(&mut self)
        ensures
            *final(self) == *old(self),
    {
    }

    /// The first input field changed: store the text, disarm the action,
    /// reclassify, and rearm from the new statuses.  Ignored until a file
    /// is picked.
    pub fn input_a_changed(&mut self, s: String)
        ensures
            old(self).picked_file is None ==> *final(self) == *old(self),
            old(self).picked_file is Some ==> ({
                let st = acct_input_status(
                    encode_utf8(trim_of(s@)),
                    old(self).app_logic_state.bills_spec()@.bills,
                );
                &&& final(self).bill_input_a == s
                &&& final(self).bill_input_a_status == st
                &&& final(self).chop_message == duck_it_message(
                    st,
                    old(self).bill_input_b_status,
                )
                &&& final(self).picked_file == old(self).picked_file
                &&& final(self).bill_input_b == old(self).bill_input_b
                &&& final(self).bill_input_b_status == old(self).bill_input_b_status
                &&& final(self).app_logic_state == old(self).app_logic_state
            }),
    {
        if self.picked_file.is_some() {
            self.bill_input_a = s;
            self.chop_message = None;
            let text = self.bill_input_a.clone();
            self.bill_input_a_status = match self.acct_id_is_valid(text.as_str()) {
                Ok(m) => m,
                Err(m) => m,
            };
            self.update_duck_it_button();
        }
    }

    /// The second input field changed; the mirror image of the first.
    pub fn input_b_changed(&mut self, s: String)
        ensures
            old(self).picked_file is None ==> *final(self) == *old(self),
            old(self).picked_file is Some ==> ({
                let st = acct_input_status(
                    encode_utf8(trim_of(s@)),
                    old(self).app_logic_state.bills_spec()@.bills,
                );
                &&& final(self).bill_input_b == s
                &&& final(self).bill_input_b_status == st
                &&& final(self).chop_message == duck_it_message(
                    old(self).bill_input_a_status,
                    st,
                )
                &&& final(self).picked_file == old(self).picked_file
                &&& final(self).bill_input_a == old(self).bill_input_a
                &&& final(self).bill_input_a_status == old(self).bill_input_a_status
                &&& final(self).app_logic_state == old(self).app_logic_state
            }),
    {
        if self.picked_file.is_some() {
            self.bill_input_b = s;
            self.chop_message = None;
            let text = self.bill_input_b.clone();
            self.bill_input_b_status = match self.acct_id_is_valid(text.as_str()) {
                Ok(m) => m,
                Err(m) => m,
            };
            self.update_duck_it_button();
        }
    }
}

} // verus!
