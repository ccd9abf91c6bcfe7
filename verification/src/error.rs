//! The error taxonomy of the library.

use vstd::prelude::*;

verus! {

/// Everything that an operation of this library can report.
///
/// `LengthMismatch` and `UnsupportedElementType` are host-side precondition
/// failures, raised before any device command would be issued; the remaining
/// variants surface failures of the device itself and are terminal for the
/// call that saw them.
#[derive(Clone, Copy, Debug, PartialEq, Eq, Structural)]
pub enum WgError {
    /// A host slice's length differs from the array's element count.
    LengthMismatch,
    /// The element type maps to no scalar of the kernel language.
    UnsupportedElementType,
    /// Device memory or submission capacity was exhausted.
    ResourceExhausted,
    /// The device itself was lost while the operation was in flight.
    DeviceLost,
    /// The device rejected a command as invalid.
    ValidationFailure,
}

} // verus!
