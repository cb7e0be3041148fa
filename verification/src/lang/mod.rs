//! The multi-language seam.
//!
//! A language profile answers one question: what does this module export,
//! and by which construct? Everything else in the engine is
//! language-agnostic, which is what makes adding a language additive rather
//! than invasive.

pub mod code_lines;
pub mod language_profile;
pub mod module;
pub mod profile_for;
pub mod public_name;
pub mod python;
pub mod rust;
pub mod syntax;

pub use code_lines::code_lines;
pub use language_profile::LanguageProfile;
pub use module::{Module, ModuleView};
pub use profile_for::{profile_for, Reader};
pub use public_name::{PublicName, PublicNameView};
pub use python::Python;
pub use rust::Rust;
