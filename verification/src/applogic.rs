//! `AppLogic`: the application's state machine around one loaded bill file.
//! File reading and writing stay outside; this holds the decisions.

use vstd::prelude::*;
use crate::data::DuckData;
use crate::error::DuckError;
use crate::bill::{BillModel, DuckBill};
use crate::file::{
    DuckFile, assembled_bytes, concat_raws, empty_file_model, parse_file, FileModel,
};

verus! {

/// Which interaction the application is in.
#[derive(Clone, Copy, PartialEq, Eq, Structural, Debug)]
pub enum AppState {
    NoFile,
    FileReady,
    ChopToEnd,
    ChopFromStart,
    ChopRange,
    ExtractOne,
}

/// The application state: current mode, the chosen input and output paths,
/// and the parsed bill file.
pub struct AppLogic {
    state: AppState,
    file_path: Option<String>,
    output_file_path: Option<String>,
    /// The currently loaded file; an empty one before any load succeeds.
    pub original_bills: DuckFile,
}

impl AppLogic {
    /// The current mode, at the spec level.
    pub closed spec fn state_spec(&self) -> AppState {
        self.state
    }

    /// The loaded bill file, at the spec level.
    pub closed spec fn bills_spec(&self) -> DuckFile {
        self.original_bills
    }

    /// The chosen input path, at the spec level.
    pub closed spec fn file_path_spec(&self) -> Option<Seq<char>> {
        match self.file_path {
            Some(s) => Some(s@),
            None => None,
        }
    }

    /// The derived output path, at the spec level.
    pub closed spec fn output_file_path_spec(&self) -> Option<Seq<char>> {
        match self.output_file_path {
            Some(s) => Some(s@),
            None => None,
        }
    }

    /// A fresh application: no file, no paths, an empty bill file.
    pub fn new() -> (r: AppLogic)
        ensures
            r.state_spec() == AppState::NoFile,
            r.file_path_spec() is None,
            r.output_file_path_spec() is None,
            r.bills_spec()@ == empty_file_model(),
            r.bills_spec().wf(),
    {
        AppLogic {
            state: AppState::NoFile,
            file_path: None,
            output_file_path: None,
            original_bills: DuckFile::new(),
        }
    }

    /// Moves to another mode; everything else is kept.
    pub fn change_state(&mut self, to_state: AppState) -> (r: Result<(), ()>)
        ensures
            r is Ok,
            final(self).state_spec() == to_state,
            final(self).file_path_spec() == old(self).file_path_spec(),
            final(self).output_file_path_spec() == old(self).output_file_path_spec(),
            final(self).bills_spec() == old(self).bills_spec(),
    {
        self.state = to_state;
        Ok(())
    }

    /// The loaded bill file.
    pub fn bills_ref(&self) -> (r: &DuckFile)
        ensures
            *r == self.bills_spec(),
    {
        &self.original_bills
    }

    /// The current mode.
    pub fn get_state(&self) -> (r: &AppState)
        ensures
            *r == self.state_spec(),
    {
        &self.state
    }

    /// Takes a file's path and raw bytes: on a successful parse, stores the
    /// file, derives the output path by appending the output suffix, and
    /// moves to `FileReady`; otherwise reports failure and changes nothing.
    pub fn load_file_data(&mut self, file_path: String, data: DuckData) -> (r: Result<(), ()>)
        ensures
            match parse_file(data@) {
                Ok(m) => {
                    &&& r is Ok
                    &&& final(self).state_spec() == AppState::FileReady
                    &&& final(self).bills_spec()@ == m
                    &&& final(self).bills_spec().wf()
                    &&& final(self).file_path_spec() == Some(file_path@)
                    &&& final(self).output_file_path_spec() == Some(file_path@ + ".DUCKED"@)
                },
                Err(_) => r is Err && *final(self) == *old(self),
            },
    {
        match DuckFile::parse(data) {
            Ok(ob) => {
                let outfile = file_path.clone().concat(".DUCKED");
                self.output_file_path = Some(outfile);
                self.file_path = Some(file_path);
                self.original_bills = ob;
                self.state = AppState::FileReady;
                Ok(())
            },
            Err(_) => Err(()),
        }
    }

    /// The chosen input path, or empty text when none is chosen.
    pub fn get_current_filename(&self) -> (r: String)
        ensures
            r@ == match self.file_path_spec() {
                Some(s) => s,
                None => Seq::<char>::empty(),
            },
    {
        match &self.file_path {
            Some(s) => s.clone(),
            None => String::new(),
        }
    }

    /// Assembles the chosen bills into a fresh, re-validated file and
    /// serializes it; the caller writes the bytes out.  Fails when no
    /// output path was ever derived, or as assembly fails.
    pub fn create_output_data(&self, bill_sel: Vec<DuckBill>) -> (r: Result<DuckData, DuckError>)
        ensures
            ({
                let models = bill_sel@.map_values(|b: DuckBill| b@);
                match r {
                    Ok(d) => self.output_file_path_spec() is Some && models.len() <= 999999
                        && parse_file(assembled_bytes(models)) is Ok && d@ == {
                        let m = parse_file(assembled_bytes(models)).unwrap();
                        m.header + concat_raws(m.bills) + m.footer
                    },
                    Err(e) => if self.output_file_path_spec() is None {
                        e == DuckError::IoError
                    } else if models.len() > 999999 {
                        e == DuckError::BillCountOutOfBounds
                    } else {
                        parse_file(assembled_bytes(models)) == Err::<FileModel, DuckError>(e)
                    },
                }
            }),
    {
        if self.output_file_path.is_none() {
            return Err(DuckError::IoError);
        }
        let processed = DuckFile::assemble(bill_sel)?;
        Ok(processed.into_data())
    }
}

} // verus!
