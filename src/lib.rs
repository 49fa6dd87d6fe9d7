//! A user-space ELF dynamic linker core: object model, relocation engine,
//! static TLS layout and the link driver, verified over a model of the
//! process address space.

pub mod abi;
pub mod dso;
pub mod elf;
pub mod gnu_hash;
pub mod linker;
pub mod linux_parity;
pub mod load;
pub mod memory;
pub mod platform;
pub mod reloc;
pub mod symbols;
pub mod tcb;
pub mod tls;
pub mod tunables;
pub mod versioning;
