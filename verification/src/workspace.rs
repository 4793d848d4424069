//! Workspace-wide settings that other modules consult.

use vstd::prelude::*;

verus! {

/// How a title is turned into a filename stem.
#[derive(Debug, Clone, Copy, PartialEq, Eq, Structural)]
pub enum FilenameStyle {
    /// Keep the title, dropping only characters no filesystem accepts.
    Preserve,
    /// Lower case, words joined by `-`.
    KebabCase,
    /// Lower case, words joined by `_`.
    SnakeCase,
    /// Upper case, words joined by `_`.
    ScreamingSnakeCase,
}

} // verus!
