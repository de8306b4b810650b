//! The label-export target: which spreadsheet file a label run writes.
//!
//! Rendering the spreadsheet itself is outside the engine; the engine's
//! part is the export's identity — the file it is bound for.

use vstd::prelude::*;

verus! {

/// A pending label export, bound for the named spreadsheet file.
pub struct LabelFile {
    label_file: String,
}

impl LabelFile {
    /// The file this export writes.
    pub closed spec fn spec_file(&self) -> Seq<char> {
        self.label_file@
    }
}

/// A label export bound for `file`.
pub fn create_label_file(file: &String) -> (r: LabelFile)
    ensures
        r.spec_file() == file@,
{
    LabelFile { label_file: file.clone() }
}

} // verus!
