//! The errors of the masking engine.
use vstd::prelude::*;

verus! {

/// Why a request was refused.
#[derive(Debug, Clone, PartialEq, Eq)]
pub enum MaskError {
    /// No masking policy is configured.
    NoPolicy,
    /// A function call to inspect is empty.
    EmptyFunctionCall,
    /// The text is not a function call; it carries the text.
    InvalidFunctionCall(String),
    /// A column position outside the table.
    InvalidColumn,
    /// A masked role issued a statement it may not run.
    InsufficientPrivilege,
    /// A statement shape that masking does not handle yet.
    NotImplemented,
}

} // verus!
