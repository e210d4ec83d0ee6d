//! Architecture support for x86_64.

pub mod gdt;
