//! The address-space and process-lifecycle core of a small multi-tasking
//! kernel, with every operation stated over a mathematical model and proved.

pub mod addr;
pub mod flags;
pub mod frames;
pub mod page_table;
pub mod areas;
pub mod mem_state;
pub mod memory_set;
pub mod elf;
pub mod user_mem;
pub mod stack;
pub mod task;
pub mod process;
pub mod lifecycle;
pub mod clone_task;
pub mod exec;
pub mod syscall;
pub mod vfs;
pub mod file_io;
