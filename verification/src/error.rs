//! The errors that setting a logger up can end in.

use vstd::prelude::*;
use vstd::string::*;
use crate::format::FormatError;

verus! {

#[derive(Debug)]
pub enum Error {
    /// The process already has a logger.
    SetLoggerError(String),
    /// An operating system error.
    IOError(String),
    /// A structured value could not be read.
    SerdeJson(String),
    /// A template did not compile.
    FormatGeneration(FormatError),
    /// A builder rejected its configuration: what was being built, and why.
    ConfigError(String, String),
}

impl Error {
    /// The text that the error prints as.
    pub open spec fn spec_message(&self) -> Seq<char> {
        match self {
            Error::SetLoggerError(reason) => reason@,
            Error::IOError(reason) => reason@,
            Error::SerdeJson(reason) => reason@,
            Error::FormatGeneration(error) => "Failed to generate a Format: "@
                + error.spec_message(),
            Error::ConfigError(what, why) => "Failed to load "@ + what@ + " config Error "@ + why@,
        }
    }

    /// The text that the error prints as.
    pub fn message(&self) -> (out: String)
        ensures
            out@ == self.spec_message(),
    {
        match self {
            Error::SetLoggerError(reason) => reason.clone(),
            Error::IOError(reason) => reason.clone(),
            Error::SerdeJson(reason) => reason.clone(),
            Error::FormatGeneration(error) => {
                let mut out = String::from_str("Failed to generate a Format: ");
                out.append(error.message().as_str());
                out
            },
            Error::ConfigError(what, why) => {
                let mut out = String::from_str("Failed to load ");
                out.append(what.as_str());
                out.append(" config Error ");
                out.append(why.as_str());
                out
            },
        }
    }
}

impl From<FormatError> for Error {
    fn from(e: FormatError) -> (out: Self) {
        Error::FormatGeneration(e)
    }
}

impl vstd::std_specs::convert::FromSpecImpl<FormatError> for Error {
    open spec fn obeys_from_spec() -> bool {
        true
    }

    open spec fn from_spec(e: FormatError) -> Self {
        Error::FormatGeneration(e)
    }
}

} // verus!
