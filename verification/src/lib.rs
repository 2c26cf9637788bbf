//! Verified core logic of the Aether kernel and its init program:
//! ELF parsing and load planning, memory-region paging and the hand-over of
//! usable memory, the early allocators, command-line parsing, the init
//! process's layout, and the early framebuffer console's text handling.
use vstd::prelude::*;

pub mod args;
pub mod boot;
pub mod boot_memory;
pub mod bump_allocator;
pub mod bytes;
pub mod console_text;
pub mod elf;
pub mod elf_loading;
pub mod elf_parsing;
pub mod framebuffer;
pub mod global_allocator;
pub mod init_loading;
pub mod init_process;
pub mod kernel_elf_parsing;
pub mod logger;
pub mod memory_layout;
pub mod memory_regions;
pub mod physical_memory_allocator;
pub mod syscalls;
pub mod task_id;
pub mod ticker;
pub mod virtual_address_allocator;
