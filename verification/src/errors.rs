//! The recoverable per-tick failures: a tick operation that hits one reports
//! it and skips its work instead of aborting.

use vstd::prelude::*;

verus! {

/// Why a per-tick operation skipped its work.
#[derive(Clone, Copy, Debug, PartialEq, Eq, Structural)]
pub enum TickError {
    /// No primary window is open.
    NoActiveWindow,
    /// No camera exists to project through.
    NoCameraFound,
    /// The cursor is absent or outside the window.
    CursorOutsideWindow,
    /// A handle names an entity that no longer exists.
    StaleHandle,
}

} // verus!
