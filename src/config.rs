use vstd::prelude::*;

verus! {

/// Size of one page in bytes.
pub const PAGE_SIZE: usize = 4096;

/// Number of syscall numbers that a task's counter table can hold.
pub const MAX_SYSCALL_NUM: usize = 500;

} // verus!
