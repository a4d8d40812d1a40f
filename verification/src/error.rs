//! What can go wrong inside the library.

use vstd::prelude::*;
use vstd::string::StringExecFns;

verus! {

/// The error of the CSV writer. Nothing is known of its contents here; it is
/// carried to the caller as it came.
#[verifier::external_type_specification]
#[verifier::external_body]
pub struct ExCsvError(csv::Error);

/// The ways in which an export fails in this library. Each of them ends the
/// run: nothing is retried and nothing is recovered.
#[derive(Debug)]
pub enum ExportError {
    /// The service declared users but sent a page without any.
    EmptyPage,
    /// A row could not be written as CSV.
    Csv(csv::Error),
}

impl ExportError {
    /// What [`ExportError::message`] says of each kind of error.
    pub open spec fn message_text(self) -> Seq<char> {
        match self {
            ExportError::EmptyPage => "No users were returned from the api"@,
            ExportError::Csv(_) => "Error with CSV info"@,
        }
    }

    /// A line for the console and the log that says which stage failed.
    pub fn message(&self) -> (text: String)
        ensures
            text@ == self.message_text(),
    {
        match self {
            ExportError::EmptyPage => String::from_str("No users were returned from the api"),
            ExportError::Csv(_) => String::from_str("Error with CSV info"),
        }
    }
}

} // verus!
