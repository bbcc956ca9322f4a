//! Error taxonomy of the shell application.

use vstd::prelude::*;

verus! {

/// An error surfaced by the shell or one of its managers.
#[derive(Debug)]
pub enum AppError {
    Plugin { message: String },
    Io { message: String },
    Serialization { message: String },
    Config { message: String },
    Unknown { message: String },
}

impl AppError {
    /// A human-readable description, with the category as its prefix.
    pub fn describe(self) -> (m: String)
        ensures
            match self {
                AppError::Plugin { message } => m@ == "Plugin error: "@ + message@,
                AppError::Io { message } => m@ == "IO error: "@ + message@,
                AppError::Serialization { message } => m@ == "Serialization error: "@ + message@,
                AppError::Config { message } => m@ == "Configuration error: "@ + message@,
                AppError::Unknown { message } => m@ == "Unknown error: "@ + message@,
            },
    {
        match self {
            AppError::Plugin { message } => String::from_str("Plugin error: ").concat(
                message.as_str(),
            ),
            AppError::Io { message } => String::from_str("IO error: ").concat(message.as_str()),
            AppError::Serialization { message } => String::from_str(
                "Serialization error: ",
            ).concat(message.as_str()),
            AppError::Config { message } => String::from_str("Configuration error: ").concat(
                message.as_str(),
            ),
            AppError::Unknown { message } => String::from_str("Unknown error: ").concat(
                message.as_str(),
            ),
        }
    }
}

} // verus!
