//! A relocation by name.
//!
//! [`X64Relocation`] is the light form of a relocation: it names the symbol
//! that it refers to and carries nothing else of it. It is enough to say
//! what a relocation asks for; the linker itself works on
//! [`crate::elf::logical::Relocation`], which carries the whole symbol.

use crate::elf::file::{info_type, RelocationWithAddend};
use vstd::prelude::*;

verus! {

/// The relocation types that the light form tells apart.
#[allow(non_camel_case_types)]
#[derive(Clone, Copy, Debug, PartialEq, Eq, Structural)]
pub enum X64ReloType {
    R_AMD64_NONE,
    R_AMD64_PLT32,
    R_UNKNOWN,
}

impl Default for X64ReloType {
    fn default() -> (relo_type: X64ReloType)
        ensures
            relo_type == X64ReloType::R_AMD64_NONE,
    {
        X64ReloType::R_AMD64_NONE
    }
}

/// A relocation with the name of the symbol that it refers to.
#[derive(Debug)]
pub struct X64Relocation {
    /// Where in its section the relocation is applied.
    pub offset: u64,
    pub info: u64,
    pub addend: i64,
    pub symbol_name: String,
}

/// What an [`X64Relocation`] holds.
pub struct X64RelocationView {
    pub offset: u64,
    pub info: u64,
    pub addend: i64,
    pub symbol_name: Seq<char>,
}

impl X64RelocationView {
    /// The relocation type: the PC-relative 32-bit form where the lower 32
    /// bits of `info` are 4, unknown else.
    pub open spec fn relo_type(self) -> X64ReloType {
        if info_type(self.info) == 4 {
            X64ReloType::R_AMD64_PLT32
        } else {
            X64ReloType::R_UNKNOWN
        }
    }
}

impl View for X64Relocation {
    type V = X64RelocationView;

    open spec fn view(&self) -> X64RelocationView {
        X64RelocationView {
            offset: self.offset,
            info: self.info,
            addend: self.addend,
            symbol_name: self.symbol_name@,
        }
    }
}

impl Clone for X64Relocation {
    fn clone(&self) -> (copy: X64Relocation)
        ensures
            copy@ == self@,
    {
        X64Relocation {
            offset: self.offset,
            info: self.info,
            addend: self.addend,
            symbol_name: self.symbol_name.clone(),
        }
    }
}

impl Default for X64Relocation {
    fn default() -> (relocation: X64Relocation)
        ensures
            relocation@ == (X64RelocationView {
                offset: 0,
                info: 0,
                addend: 0,
                symbol_name: Seq::empty(),
            }),
    {
        X64Relocation { offset: 0, info: 0, addend: 0, symbol_name: String::new() }
    }
}

impl X64Relocation {
    /// The entry `r`, which refers to the symbol called `symbol_name`.
    pub fn from(r: &RelocationWithAddend, symbol_name: &str) -> (relocation: X64Relocation)
        ensures
            relocation@ == (X64RelocationView {
                offset: r.offset,
                info: r.info,
                addend: r.addend,
                symbol_name: symbol_name@,
            }),
    {
        X64Relocation {
            offset: r.offset,
            info: r.info,
            addend: r.addend,
            symbol_name: symbol_name.to_owned(),
        }
    }

    /// The relocation type, which is specific to the processor.
    pub fn relo_type(&self) -> (relo_type: X64ReloType)
        ensures
            relo_type == self@.relo_type(),
    {
        let info: u64 = self.info;
        assert(info & 0xffffffff == info % 0x1_0000_0000) by (bit_vector);
        match info & 0xffffffff {
            4 => X64ReloType::R_AMD64_PLT32,
            _ => X64ReloType::R_UNKNOWN,
        }
    }
}

} // verus!
