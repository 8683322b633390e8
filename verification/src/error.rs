//! What can go wrong while browsing.

use vstd::prelude::*;
use vstd::string::*;

verus! {

/// The failures that the engine reports. None of them ends the session.
#[derive(Clone, Copy, Debug, PartialEq, Eq, Structural)]
pub enum BrowseError {
    /// A directory could not be read.
    ReadError,
    /// A file could not be copied.
    CopyError,
    /// An entry could not be deleted or sent to the trash.
    DeleteError,
    /// The action needs a selected entry and there is none.
    NoSelection,
    /// A paste was asked for with nothing marked.
    NoClipboardEntry,
}

/// The status text that reports a failure.
pub open spec fn error_text(error: BrowseError) -> Seq<char> {
    match error {
        BrowseError::ReadError => "Unable to read directory"@,
        BrowseError::CopyError => "Unable to copy"@,
        BrowseError::DeleteError => "Unable to delete"@,
        BrowseError::NoSelection => "Nothing selected"@,
        BrowseError::NoClipboardEntry => "Clipboard is empty"@,
    }
}

impl BrowseError {
    /// The status text that reports this failure.
    pub fn message(&self) -> (text: String)
        ensures
            text@ == error_text(*self),
    {
        match self {
            BrowseError::ReadError => String::from_str("Unable to read directory"),
            BrowseError::CopyError => String::from_str("Unable to copy"),
            BrowseError::DeleteError => String::from_str("Unable to delete"),
            BrowseError::NoSelection => String::from_str("Nothing selected"),
            BrowseError::NoClipboardEntry => String::from_str("Clipboard is empty"),
        }
    }
}

} // verus!
