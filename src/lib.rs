//! Parsing of unified diff text into files, hunks and numbered lines.
use vstd::prelude::*;

pub mod header;
pub mod laws;
pub mod model;
pub mod parser;
pub mod source;
pub mod text;

pub use model::{DiffFile, DiffHunk, DiffLine, FileStatus, LineType};
pub use parser::parse_unified_diff;
pub use source::{RepoInfo, StartupArgs};

verus! {

} // verus!
