//! Validation and collection of protein secondary-structure dataset records.
//!
//! A dataset file holds one record per line. A record is a run of
//! whitespace-separated fields; the fifth field is an amino-acid sequence and
//! the sixth the secondary structure assigned to it. This crate decides which
//! records are well formed, which paths name dataset files, and which lines of
//! a file's text are kept.

pub mod alphabet;
pub mod collect;
pub mod fields;
pub mod lines;
pub mod path;
pub mod text;
pub mod validate;

pub use crate::collect::collect_files;
pub use crate::lines::read_lines;
pub use crate::path::get_extension;
pub use crate::validate::check_if_correct;
