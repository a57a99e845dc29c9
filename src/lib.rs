//! The core of a minimal kernel: ELF64 parsing, a tar-like archive reader,
//! an image loader with base-relative relocations, a bump allocator for the
//! loaded program, and the dispatcher of its three system calls.
pub mod bytes;
pub mod elf;
pub mod text;
pub mod ustar;
pub mod mem;
pub mod reloc;
pub mod loader;
pub mod syscall;
pub mod idt;
