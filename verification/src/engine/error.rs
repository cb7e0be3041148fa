//! A check that could not be set up at all — as opposed to one that found
//! violations, which is a `Report`.

use crate::config::ConfigError;
use crate::text::owned;
use vstd::prelude::*;

verus! {

#[derive(Debug)]
pub enum Error {
    Config(ConfigError),
    Invalid(String),
}

impl Error {
    /// How the error reads: a config error as `path: message`, anything
    /// else as its message.
    pub fn describe(&self) -> (res: String)
        ensures
            res@ == match self {
                Error::Config(e) => e.path@ + ": "@ + e.message@,
                Error::Invalid(message) => message@,
            },
    {
        match self {
            Error::Config(e) => e.describe(),
            Error::Invalid(message) => owned(message.as_str()),
        }
    }
}

impl From<ConfigError> for Error {
    fn from(e: ConfigError) -> (res: Error)
        ensures
            res == Error::Config(e),
    {
        Error::Config(e)
    }
}

impl vstd::std_specs::convert::FromSpecImpl<ConfigError> for Error {
    open spec fn obeys_from_spec() -> bool {
        true
    }

    open spec fn from_spec(v: ConfigError) -> Error {
        Error::Config(v)
    }
}

} // verus!
