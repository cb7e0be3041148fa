//! The rule vocabulary, and the checks that report against it.

pub mod check_content;
pub mod exceptions;
pub mod filename_matches_export;
pub mod folder_depth;
pub mod max_file_lines;
pub mod name_casing;
pub mod prescribes_a_filename;
pub mod root_language_match;
pub mod rule;
pub mod single_primary_export;
pub mod to_snake_case;
pub mod unparsable;
pub mod unreadable;
pub mod waivers;

pub use check_content::check_content;
pub use exceptions::Exceptions;
pub use rule::Rule;
pub use to_snake_case::to_snake_case;
pub use waivers::Waivers;
