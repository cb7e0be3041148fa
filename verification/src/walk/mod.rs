//! The paths a check walks over, and how they are spelled.

pub mod display;
pub mod file_name;
pub mod tree;

pub use display::display;
pub use tree::Tree;
