//! Error types for document parsing, index access and chain resolution.

use vstd::prelude::*;

verus! {

/// Returned when a file could be parsed by neither supported document
/// encoding.  The two underlying decoder errors are discarded: callers
/// cannot tell a malformed property list from malformed YAML.
#[derive(Debug)]
pub struct UnreadableFileError;

/// The failures chain resolution and index handling can report.
///
/// Every variant that concerns a particular recipe carries the identifier
/// or short name involved, so a caller can name it to the user.
#[derive(Debug, PartialEq, Eq)]
pub enum RecipeError {
    /// Neither document encoding produced a structurally valid recipe.
    UnreadableDocument(String),
    /// The requested name, or an ancestor identifier, is absent from the
    /// index or recipe store.
    RecipeNotFound(String),
    /// Following the parent chain revisited an identifier, or the chain
    /// exceeded the defensive length cap.
    CyclicParentChain(String),
    /// The merged effective recipe failed validation; the payload names
    /// the missing or empty field.
    InvalidRecipe(String),
    /// The serialized index could not be read back.
    IndexIoError(String),
}

} // verus!
