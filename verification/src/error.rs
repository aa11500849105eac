//! The closed error taxonomy: one variant per failure cause, each carrying
//! enough context to render a precise user-facing message.

use vstd::prelude::*;
use vstd::string::StringExecFns;
use crate::text::{dec_chars, u64_to_string};

verus! {

#[derive(Debug)]
pub enum Error {
    HomePathNotFound,
    UnknownCommand { command: String },
    NoCommand,
    UnknownError,
    TooManyArguments { max: u8, got: u8 },
    WrongNumberOfArguments { expected: u8, got: u8 },
    EmptyDescription,
    IdMustBeNumber { id: String },
    FailedToPersistChanges,
    FailedToAccessPersistedData,
    UnknownStatus { status: String },
    TaskNotFound { id: String },
}

impl Error {
    /// The user-facing message for this error.
    pub open spec fn message_spec(&self) -> Seq<char> {
        match self {
            Error::HomePathNotFound => "Could not discover user's home directory"@,
            Error::UnknownCommand { command } => "Invalid command "@ + command@,
            Error::NoCommand => "No command provided"@,
            Error::UnknownError => "Unexpected error"@,
            Error::TooManyArguments { max, got } =>
                "Wrong number of arguments: Expected up to "@ + dec_chars(*max as nat)
                    + ", got "@ + dec_chars(*got as nat),
            Error::WrongNumberOfArguments { expected, got } =>
                "Wrong number of arguments: Expected "@ + dec_chars(*expected as nat)
                    + ", got "@ + dec_chars(*got as nat),
            Error::EmptyDescription => "Task description cannot be empty"@,
            Error::IdMustBeNumber { id } => "Expected numeric id, got "@ + id@,
            Error::FailedToPersistChanges => "Could not persist changes"@,
            Error::FailedToAccessPersistedData => "Could not access persisted data"@,
            Error::UnknownStatus { status } => "Unknown status: "@ + status@,
            Error::TaskNotFound { id } => "Task not found. Id: "@ + id@,
        }
    }

    /// Renders the user-facing message.
    pub fn message(&self) -> (m: String)
        ensures
            m@ == self.message_spec(),
    {
        match self {
            Error::HomePathNotFound => "Could not discover user's home directory".to_owned(),
            Error::UnknownCommand { command } => {
                let mut m = "Invalid command ".to_owned();
                m.append(command.as_str());
                m
            },
            Error::NoCommand => "No command provided".to_owned(),
            Error::UnknownError => "Unexpected error".to_owned(),
            Error::TooManyArguments { max, got } => {
                let mut m = "Wrong number of arguments: Expected up to ".to_owned();
                let max_text = u64_to_string(*max as u64);
                m.append(max_text.as_str());
                m.append(", got ");
                let got_text = u64_to_string(*got as u64);
                m.append(got_text.as_str());
                proof {
                    assert(m@ =~= self.message_spec());
                }
                m
            },
            Error::WrongNumberOfArguments { expected, got } => {
                let mut m = "Wrong number of arguments: Expected ".to_owned();
                let expected_text = u64_to_string(*expected as u64);
                m.append(expected_text.as_str());
                m.append(", got ");
                let got_text = u64_to_string(*got as u64);
                m.append(got_text.as_str());
                proof {
                    assert(m@ =~= self.message_spec());
                }
                m
            },
            Error::EmptyDescription => "Task description cannot be empty".to_owned(),
            Error::IdMustBeNumber { id } => {
                let mut m = "Expected numeric id, got ".to_owned();
                m.append(id.as_str());
                m
            },
            Error::FailedToPersistChanges => "Could not persist changes".to_owned(),
            Error::FailedToAccessPersistedData => "Could not access persisted data".to_owned(),
            Error::UnknownStatus { status } => {
                let mut m = "Unknown status: ".to_owned();
                m.append(status.as_str());
                m
            },
            Error::TaskNotFound { id } => {
                let mut m = "Task not found. Id: ".to_owned();
                m.append(id.as_str());
                m
            },
        }
    }
}

} // verus!
