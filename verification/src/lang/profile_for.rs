//! Which languages can be read, as opposed to merely recognised.

use super::python::{python_reading, Python};
use super::rust::{rust_reading, Rust};
use super::{LanguageProfile, Module, ModuleView};
use crate::config::Language;
use vstd::prelude::*;

verus! {

/// The content-layer profiles that have shipped.
#[derive(Debug, Clone, Copy, PartialEq, Eq, Structural)]
pub enum Reader {
    Python,
    Rust,
}

impl Reader {
    /// What this profile makes of a source text.
    pub open spec fn reading(self, source: Seq<char>) -> ModuleView {
        match self {
            Reader::Python => python_reading(source),
            Reader::Rust => rust_reading(source),
        }
    }

    /// Read a module's public surface from its source.
    pub fn read(self, source: &str) -> (res: Module)
        ensures
            res@ == self.reading(source@),
    {
        match self {
            Reader::Python => Python.read(source),
            Reader::Rust => Rust.read(source),
        }
    }

    /// The language this profile reads.
    pub fn language(self) -> (res: Language)
        ensures
            res == match self {
                Reader::Python => Language::Python,
                Reader::Rust => Language::Rust,
            },
    {
        match self {
            Reader::Python => Language::Python,
            Reader::Rust => Language::Rust,
        }
    }
}

/// The content-layer profile of a language, where one has shipped.
pub open spec fn reader_for(language: Language) -> Option<Reader> {
    match language {
        Language::Python => Some(Reader::Python),
        Language::Rust => Some(Reader::Rust),
        _ => None,
    }
}

/// The content-layer profile for a language, if one has shipped yet.
///
/// `None` means the content layer simply does not run — folder depth and name
/// casing still do, so a language can be organised before it can be parsed.
pub fn profile_for(language: Language) -> (res: Option<Reader>)
    ensures
        res == reader_for(language),
{
    match language {
        Language::Python => Some(Reader::Python),
        Language::Rust => Some(Reader::Rust),
        _ => None,
    }
}

} // verus!
