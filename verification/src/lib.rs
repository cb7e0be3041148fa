//! An opinionated, multi-language validator for folder conventions, file
//! naming conventions, and file content conventions: one substantial export
//! per file, a filename that names it, a line budget on the files carrying the
//! logic, and a cap on folder nesting.

pub mod config;
pub mod diagnostics;
pub mod engine;
pub mod grammar;
pub mod lang;
pub mod rules;
pub mod text;
pub mod walk;

pub use engine::{Compiled, Engine, Error, Report};
