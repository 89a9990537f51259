//! The reasons for which a call is refused.

use vstd::prelude::*;

verus! {

/// Why a call was refused before any work was done.
#[derive(Clone, Copy, Debug, PartialEq, Eq, Structural)]
pub enum RenderError {
    /// A grid without columns or without rows, a rectangle or a scale that the
    /// caller's test turns down, or an animation without frames.
    InvalidParameter,
    /// A grid whose rows are not all of one length.
    ShapeMismatch,
}

} // verus!
