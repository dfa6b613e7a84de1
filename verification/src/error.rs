//! Errors surfaced by the list store.

use vstd::prelude::*;

verus! {

/// Errors returned by this crate.
#[derive(Clone, Copy, Debug, PartialEq, Eq, Structural)]
pub enum MtdError {
    /// Indicates that no `Todo` with the given `id` exists.
    NoTodoWithGivenId(u64),
    /// Indicates that no `Task` with the given `id` exists.
    NoTaskWithGivenId(u64),
}

} // verus!
