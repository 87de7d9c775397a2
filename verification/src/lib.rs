//! Verified core of a UEFI kernel loader: page arithmetic, reading ELF64
//! headers and program headers out of a kernel image, computing the address
//! range that the loadable segments occupy, copying those segments into the
//! memory set aside for them, and the little the kernel itself computes.
pub mod bytes;
pub mod elf;
pub mod elf64;
pub mod frame_buffer;
pub mod loader;
pub mod page;
pub mod uart;
