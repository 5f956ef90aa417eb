//! The two failures that end an invocation.

use vstd::prelude::*;
use vstd::string::StringExecFns;

verus! {

/// Why a search or a replacement was given up. Every other problem with a
/// single file or line is passed over in silence.
#[derive(Debug)]
pub enum SearchError {
    /// The query is no valid pattern; `detail` is the pattern engine's report.
    InvalidPattern { detail: String },
    /// The new content of `path` could not be written.
    WriteFailed { path: String, detail: String },
}

impl SearchError {
    /// The text shown to the user.
    pub open spec fn message_text(self) -> Seq<char> {
        match self {
            SearchError::InvalidPattern { detail } => "Invalid regex: "@ + detail@,
            SearchError::WriteFailed { path, detail } => "Failed to write file "@ + path@ + ": "@
                + detail@,
        }
    }

    pub fn message(&self) -> (text: String)
        ensures
            text@ == self.message_text(),
    {
        match self {
            SearchError::InvalidPattern { detail } => {
                let mut text = String::from_str("Invalid regex: ");
                text.append(detail.as_str());
                text
            },
            SearchError::WriteFailed { path, detail } => {
                let mut text = String::from_str("Failed to write file ");
                text.append(path.as_str());
                text.append(": ");
                text.append(detail.as_str());
                text
            },
        }
    }
}

} // verus!
