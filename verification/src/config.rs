//! Build-time limits shared with the loader and the syscall dispatcher.

use vstd::prelude::*;

verus! {

/// Number of task slots in the pool.
pub const MAX_APP_NUM: usize = 16;

/// Size of the syscall-id space: ids `0..MAX_SYSCALL_NUM` are counted.
pub const MAX_SYSCALL_NUM: usize = 500;

} // verus!
