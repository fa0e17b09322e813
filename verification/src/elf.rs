//! The ELF-64 format: integers on the wire, fixed-size records, string
//! tables, and the logical view that the linker works on.

pub mod file;
pub mod high_level_repr;
pub mod listing;
pub mod logical;
pub mod string_table;
pub mod wire;
