//! Path patterns: parsing the `"{root}/{folder1}/{kind}/{files}"` strings into
//! positional segment lists.

pub mod pattern;

pub use pattern::{parse, ParseError, Pattern};

use vstd::prelude::*;

verus! {

/// The segment name that binds the file itself. Always last.
pub const FILES: &'static str = "files";

/// The segment name that binds a declared root. Always first.
pub const ROOT: &'static str = "root";

/// The segment name whose value is a kind folder, when a pattern has one.
pub const KIND: &'static str = "kind";

} // verus!
