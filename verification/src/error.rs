//! The error kinds the converter reports. Every kind is fatal for the file
//! being converted: there is no recovery or partial output.

use vstd::prelude::*;
use vstd::string::*;

verus! {

/// One tagged error per failure class, from missing command inputs through
/// malformed source lines to a failed structural check of assembled JSON.
#[derive(Clone, Copy, Debug, PartialEq, Eq, Structural)]
pub enum ConvertError {
    MissingArguments,
    FileNotFound,
    IoFailure,
    MalformedHeader,
    MalformedEntry,
    MalformedInlineObject,
    StructuralValidationFailure,
}

impl ConvertError {
    /// The diagnostic line reported for this error kind.
    pub open spec fn message_spec(self) -> Seq<char> {
        match self {
            ConvertError::MissingArguments => "No files provided"@,
            ConvertError::FileNotFound => "File doesn't exist"@,
            ConvertError::IoFailure => "Unable to read or write file"@,
            ConvertError::MalformedHeader => "Invalid TOML block"@,
            ConvertError::MalformedEntry => "Line is not a valid TOML entry"@,
            ConvertError::MalformedInlineObject => "Invalid inline TOML object"@,
            ConvertError::StructuralValidationFailure => "Invalid json structure"@,
        }
    }

    /// A short diagnostic message for this error kind.
    pub fn message(&self) -> (r: String)
        ensures
            r@ == self.message_spec(),
    {
        match self {
            ConvertError::MissingArguments => String::from_str("No files provided"),
            ConvertError::FileNotFound => String::from_str("File doesn't exist"),
            ConvertError::IoFailure => String::from_str("Unable to read or write file"),
            ConvertError::MalformedHeader => String::from_str("Invalid TOML block"),
            ConvertError::MalformedEntry => String::from_str("Line is not a valid TOML entry"),
            ConvertError::MalformedInlineObject => String::from_str("Invalid inline TOML object"),
            ConvertError::StructuralValidationFailure => String::from_str(
                "Invalid json structure",
            ),
        }
    }
}

} // verus!
