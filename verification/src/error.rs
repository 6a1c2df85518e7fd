//! Error types for the document model.
use vstd::prelude::*;

verus! {

/// Errors raised when constructing or mutating the [`crate::document::Sprite`] model.
#[derive(Debug, PartialEq, Eq)]
pub enum DocumentError {
    /// The supplied canvas dimensions are invalid (zero on either axis).
    InvalidDimensions { width: u32, height: u32 },
    /// A duplicate identifier was supplied where uniqueness is required.
    DuplicateId { kind: &'static str, id: u32 },
    /// A reference to a non-existent identifier.
    UnknownId { kind: &'static str, id: u32 },
}

} // verus!
