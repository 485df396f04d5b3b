//! Filename naming conventions: canonical renaming and pattern checking over
//! directory trees.
//!
//! The crate decides; it does not touch the disk. A caller walks the tree,
//! hands over what it finds, and carries out the renames that the fix engine
//! plans.

pub mod check;
pub mod codec;
pub mod convention;
pub mod error;
pub mod fix;
pub mod resolver;
pub mod text;
pub mod walk;

pub use check::{
    check_names, check_path, check_walk, CheckGroup, CheckOptions, CheckReport, GroupWalk,
};
pub use codec::{file_name, normalize, normalize_bytes, FilenameComponents};
pub use convention::CaseConvention;
pub use error::{ConfigFault, NamingError};
pub use fix::{
    fix_names, translate_line, translate_lines, FixOptions, FixReport, FixTally, RenameOutcome,
};
pub use resolver::{IgnoreOrigin, IgnoreSource, Verdict};
pub use walk::{walk, EntryKind, WalkEntry, WalkEvent, WalkOptions, WalkReport, WalkStep, Walker};
