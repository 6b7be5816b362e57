//! Early-boot virtual memory for a higher-half x86_64 kernel, modelled and
//! verified over in-memory page tables: a watermark physical-frame allocator,
//! page-table entries and their flag bits, a four-level mapper with huge-page
//! translation, the temporary-page machinery for editing a not-yet-active
//! hierarchy, and the kernel remap orchestration.
pub mod layout;
pub mod frame;
pub mod page;
pub mod entry;
pub mod area_frame_allocator;
pub mod table;
pub mod mapper;
pub mod temporary_page;
pub mod paging;
pub mod vga_buffer;
pub mod cpu;
