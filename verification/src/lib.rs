//! Resolution engine for layered, partially self-referential build
//! properties in the style of an Arduino platform/board description.
//!
//! The engine merges a platform property layer with a board property layer
//! (board wins), expands `{name}` placeholders to a fixed point while pulling
//! versioned tool paths from a package index, and derives structured recipe
//! patterns (command, flags, include directories) from the finished property
//! set.  All of it is pure computation over strings; reading property files,
//! running external tools and scanning directories belong to the callers.

use vstd::prelude::*;

pub mod board;
pub mod chars;
pub mod collab;
pub mod index;
pub mod info;
pub mod props;
pub mod recipe;
pub mod resolver;
pub mod store;
pub mod strops;
pub mod tokenizer;

verus! {

/// The error kinds that the engine reports.  Configuration errors are not
/// transient, so none of these is ever retried by the engine itself.
#[derive(Debug, Clone)]
pub enum EngineError {
    /// A fully qualified board name had fewer than 3 colon-separated segments.
    InvalidBoardIdentifier,
    /// A property file could not be read at all; raised at the
    /// configuration-loading boundary, which alone touches the disk.
    MissingPropertyFile,
    /// A property text contained no line that parses as a `key=value` assignment.
    MalformedPropertyLine,
    /// The resolution fixed point was reached with entries still pending;
    /// carries the offending property keys.
    UnresolvedPlaceholder(Vec<String>),
    /// A `runtime.tools.<name>.path` reference matched no tool dependency in
    /// the package index; carries the tool reference.
    ToolPathNotFound(String),
    /// A recipe string that is present tokenized to zero tokens; carries the
    /// recipe key.
    EmptyRecipe(String),
}

} // verus!
