//! The decision-making core of a small x86_64 kernel.

pub mod allocator;
pub mod boot;
pub mod disk_image;
pub mod font;
pub mod framebuffer;
pub mod gdt;
pub mod interrupts;
pub mod memory;
pub mod paging;
pub mod queue;
pub mod task;
