//! A config file that could not be read or parsed.

use crate::text::concat;
use vstd::prelude::*;

verus! {

#[derive(Debug, Clone)]
pub struct ConfigError {
    /// The config file, as displayed.
    pub path: String,
    pub message: String,
}

impl ConfigError {
    /// How the error reads: `path: message`.
    pub fn describe(&self) -> (res: String)
        ensures
            res@ == self.path@ + ": "@ + self.message@,
    {
        let head = concat(self.path.as_str(), ": ");
        concat(head.as_str(), self.message.as_str())
    }
}

} // verus!
