//! NexaOS kernel logic: allocators, device bookkeeping, parsers and
//! state machines, each with a contract checked by Verus.

pub mod acpi;
pub mod allocator;
pub mod arch;
pub mod auth;
pub mod boot;
pub mod boot_stages;
pub mod bootinfo;
pub mod drivers;
pub mod elf;
pub mod fs;
pub mod posix;
pub mod text;
