//! A minimal static linker for x86-64: it reads 64-bit little-endian
//! relocatable objects and welds them into one statically linked executable.
//!
//! [`elf`] models the file format, [`elf_parser`] decodes one object into its
//! logical form, and [`weld_core`] merges objects into an executable image,
//! which writes itself out as the bytes of a file.
//!
//! The library reads and writes buffers only; files and the command line
//! belong to its callers. What each function gives is stated in its contract
//! and proved, but for two things that are taken on trust and marked as
//! such: that `String::push` appends, and what the disassembler says of an
//! instruction ([`elf::listing`]).

pub mod elf;
pub mod elf_parser;
pub mod weld_core;
