//! Boot-to-kernel handoff path of a small x86_64 operating system.
//!
//! The library validates a kernel ELF image, plans where its LOAD segments go
//! in physical memory, builds the 4-level page tables of the kernel's address
//! space and encodes the data that the loader hands over to the kernel.

pub mod sizes;
pub mod codec;
pub mod config;
pub mod boot_information;
pub mod mem;
pub mod kernel_file;
pub mod loader;
pub mod logging;
pub mod mapper;
pub mod memory_map;
pub mod paging;
