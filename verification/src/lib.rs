//! Reading ELF64 object files and merging their sections and symbols.
//!
//! `elf` holds the data model of an ELF file and its parser; `link` holds the
//! rules by which the sections and symbols of two object files are combined.

pub mod elf;
pub mod link;
