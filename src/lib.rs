//! Process-local virtual-memory mapping for a small kernel: page-number
//! arithmetic, a page table over an explicit physical memory, a cross-page
//! transfer buffer into user memory, and the process syscalls built on them.

pub mod config;
pub mod address;
pub mod page_table;
pub mod frame_allocator;
pub mod memory_set;
pub mod process;
pub mod buffer;
pub mod task;
pub mod encode;
