//! Exit-status codes shared by every dispatch target.

use vstd::prelude::*;

verus! {

/// Status of a command that completed successfully.
pub const SUCCESS: i32 = 0;

/// Status of a command that failed (including flow-control syntax errors).
pub const FAILURE: i32 = 1;

/// Status returned when a command cannot be dispatched, for example when a
/// user-defined function is called with the wrong number of arguments.
pub const NO_SUCH_COMMAND: i32 = 127;

} // verus!
