//! The library's failures.
use vstd::prelude::*;
use crate::tags::TagID;

verus! {

/// A fault of the program itself: a condition that an earlier stage guarantees.
#[derive(Clone, Copy, Debug, PartialEq, Eq, Structural)]
pub enum Fault {
    /// The anchor map lacks a tag that validation should have put there.
    MissingTag(TagID),
}

/// Why a document could not be taken in.
#[derive(Debug)]
pub enum Error {
    /// A defect of the program, never a condition of the input.
    InternalLogic(Fault),
    /// No sheet of the workbook matches the requested name, ignoring case.
    SheetUndetectable { file_path: String, sh_name_for_search: String, sh_names: Vec<String> },
    /// The sheet has no used range.
    EmptySheetRange { file_path: String, sh_name: String },
    /// The last required tag was never found.
    SheetNotContainAllNecessaryData { file_path: String },
    /// Two tags of one alignment group stand apart. The indexes are 1-based row
    /// numbers for a row group and column letters for a column group.
    SheetMisalignment {
        is_row_algmnt_check: bool,
        fst_tag: TagID,
        fst_tag_index_on_sheet: String,
        snd_tag: TagID,
        snd_tag_index_on_sheet: String,
        file_path: String,
    },
    /// A value does not fit the type it has to be converted to.
    NumericConversion { value: usize },
    /// An offset taken from an anchor leaves the range of addresses.
    NumericOverflow { value: usize, offset: i8 },
}

} // verus!
