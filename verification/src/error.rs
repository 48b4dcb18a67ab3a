//! Why a scan gives no result.

use vstd::prelude::*;

verus! {

/// Why a scan gives no result.
#[derive(Debug, Clone, Copy, PartialEq, Eq, Structural)]
pub enum ScanError {
    /// Two technologies of the registry have the same name.
    MalformedRegistry,
    /// A pattern of the registry is no regular expression.
    MalformedPattern,
    /// The project's folder holds no license file.
    LicenseNotFound,
}

impl ScanError {
    /// The error in words.
    pub open spec fn message_text(self) -> Seq<char> {
        match self {
            ScanError::MalformedRegistry => "Two technologies share a name"@,
            ScanError::MalformedPattern => "A registry pattern is malformed"@,
            ScanError::LicenseNotFound => "No license file found"@,
        }
    }

    /// The error in words.
    pub fn message(&self) -> (text: String)
        ensures
            text@ == self.message_text(),
    {
        match self {
            ScanError::MalformedRegistry => "Two technologies share a name".to_owned(),
            ScanError::MalformedPattern => "A registry pattern is malformed".to_owned(),
            ScanError::LicenseNotFound => "No license file found".to_owned(),
        }
    }
}

} // verus!
