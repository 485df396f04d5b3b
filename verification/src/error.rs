//! The error kinds of the crate.

use crate::codec::{file_name, final_segment};
use vstd::prelude::*;
use vstd::string::StringExecFns;

verus! {

/// Why a check group could not be evaluated at all.
#[derive(Clone, Copy, Debug, PartialEq, Eq, Structural)]
pub enum ConfigFault {
    /// The group's pattern is not a valid regular expression.
    InvalidPattern,
    /// The group's path could not be read.
    UnreadablePath,
}

/// Everything that can go wrong while fixing or checking names.
#[derive(Clone, Debug, PartialEq, Eq)]
pub enum NamingError {
    /// The name of the file whose path is `raw`, as bytes, is not valid
    /// Unicode text.
    Encoding { raw: Vec<u8> },
    /// A filesystem operation on `path` failed.
    Io { path: String },
    /// The walk root `root` is not inside a version-controlled tree.
    NoRepository { root: String },
    /// The check group `group` is unusable as configured.
    Config { group: String, fault: ConfigFault },
    /// The file at `path` does not match the `pattern` of check group `group`.
    PatternMismatch { group: String, path: String, pattern: String },
}

/// The mathematical content of a [`NamingError`].
pub enum NamingErrorView {
    Encoding { raw: Seq<u8> },
    Io { path: Seq<char> },
    NoRepository { root: Seq<char> },
    Config { group: Seq<char>, fault: ConfigFault },
    PatternMismatch { group: Seq<char>, path: Seq<char>, pattern: Seq<char> },
}

impl View for NamingError {
    type V = NamingErrorView;

    open spec fn view(&self) -> NamingErrorView {
        match *self {
            NamingError::Encoding { raw } => NamingErrorView::Encoding { raw: raw@ },
            NamingError::Io { path } => NamingErrorView::Io { path: path@ },
            NamingError::NoRepository { root } => NamingErrorView::NoRepository { root: root@ },
            NamingError::Config { group, fault } => NamingErrorView::Config {
                group: group@,
                fault,
            },
            NamingError::PatternMismatch { group, path, pattern } => {
                NamingErrorView::PatternMismatch { group: group@, path: path@, pattern: pattern@ }
            },
        }
    }
}

/// The content of an error that may be absent.
pub open spec fn optional_error_view(e: Option<NamingError>) -> Option<NamingErrorView> {
    match e {
        Some(e) => Some(e@),
        None => None,
    }
}

/// The contents of several errors.
pub open spec fn errors_view(errors: Seq<NamingError>) -> Seq<NamingErrorView> {
    errors.map_values(|e: NamingError| e@)
}

impl NamingErrorView {
    /// The human-readable text of the error.
    pub open spec fn message(self) -> Seq<char> {
        match self {
            NamingErrorView::Encoding { raw } => "file name is not valid Unicode"@,
            NamingErrorView::Io { path } => "I/O error at "@ + path,
            NamingErrorView::NoRepository { root } => "not inside a version-controlled tree: "@
                + root,
            NamingErrorView::Config { group, fault } => match fault {
                ConfigFault::InvalidPattern => "Could not parse pattern of "@ + group,
                ConfigFault::UnreadablePath => "Could not read path of "@ + group,
            },
            NamingErrorView::PatternMismatch { group, path, pattern } => "File "@
                + final_segment(path) + " does not match pattern "@ + pattern,
        }
    }
}

impl NamingError {
    /// The human-readable text of the error.
    pub fn message(&self) -> (text: String)
        ensures
            text@ == self@.message(),
    {
        match self {
            NamingError::Encoding { raw: _ } => "file name is not valid Unicode".to_owned(),
            NamingError::Io { path } => {
                "I/O error at ".to_owned().concat(path.as_str())
            },
            NamingError::NoRepository { root } => {
                "not inside a version-controlled tree: ".to_owned().concat(root.as_str())
            },
            NamingError::Config { group, fault } => match fault {
                ConfigFault::InvalidPattern => {
                    "Could not parse pattern of ".to_owned().concat(group.as_str())
                },
                ConfigFault::UnreadablePath => {
                    "Could not read path of ".to_owned().concat(group.as_str())
                },
            },
            NamingError::PatternMismatch { group: _, path, pattern } => {
                "File ".to_owned().concat(file_name(path.as_str()).as_str()).concat(
                    " does not match pattern ",
                ).concat(pattern.as_str())
            },
        }
    }
}

} // verus!
