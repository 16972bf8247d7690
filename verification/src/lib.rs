//! Verified core of a small Linux system monitor: reading the kernel's
//! text reports, and laying out what the monitor shows.
pub mod colors;
pub mod error;
pub mod memory;
pub mod monitor;
pub mod system_info;
pub mod text;
