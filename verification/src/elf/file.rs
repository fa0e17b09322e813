//! The records of an ELF-64 file as they lie on disk.
//!
//! Every record has a fixed size and a fixed field order, and every integer
//! in it is little-endian. For each record this module gives its byte image
//! (`wire`), its reading from a buffer (`at`, `read`) and its writing
//! (`write`). The definitions cover what is needed to link simple programs
//! for x86-64 Linux; they do not model every corner of the format.

use crate::elf::wire::{
    i64_le, le_i64, le_u16, le_u32, le_u64, lemma_adjacent, lemma_i64_read_at, lemma_lengths,
    lemma_u16_in_piece, lemma_u16_read_at, lemma_u16_spell_back, lemma_u32_in_piece,
    lemma_u32_read_at, lemma_u32_spell_back, lemma_u64_in_piece, lemma_u64_read_at,
    lemma_u64_spell_back, read_i64, read_u16, read_u32, read_u64, u16_le, u32_le, u64_le,
    write_i64, write_u16, write_u32, write_u64,
};
use vstd::prelude::*;

verus! {

pub type Address = u64;

pub type FileOffset = u64;

pub type Half = u16;

pub type Word = u32;

pub type XWord = u64;

pub type SignedXWord = i64;

/// Bytes that a file header takes.
pub const FILE_HEADER_SIZE: usize = 64;

/// Bytes that one entry of the section-header table takes.
pub const SECTION_HEADER_SIZE: usize = 64;

/// Bytes that one entry of the program-header table takes.
pub const PROGRAM_HEADER_SIZE: usize = 56;

/// Bytes that one entry of a symbol table takes.
pub const SYMBOL_SIZE: usize = 24;

/// Bytes that one relocation with addend takes.
pub const RELOCATION_SIZE: usize = 24;

/// The four bytes that every ELF file starts with.
pub open spec fn elf_magic() -> [u8; 4] {
    [0x7fu8, 0x45u8, 0x4cu8, 0x46u8]
}

//  File header
// =============

/// The sixteen bytes that identify a file as ELF and say how to read the rest.
#[derive(Clone, Copy, Debug)]
pub struct Identification {
    pub magic: [u8; 4],
    pub format_class: u8,
    pub endianness: u8,
    pub format_version: u8,
    pub os_abi: u8,
    pub pad: [u8; 8],
}

impl Identification {
    /// The block of all zero bytes.
    pub open spec fn zero() -> Identification {
        Identification {
            magic: [0u8, 0u8, 0u8, 0u8],
            format_class: 0,
            endianness: 0,
            format_version: 0,
            os_abi: 0,
            pad: [0u8, 0u8, 0u8, 0u8, 0u8, 0u8, 0u8, 0u8],
        }
    }

    /// The byte image of the block.
    #[verifier::opaque]
    pub open spec fn wire(self) -> Seq<u8> {
        self.magic@ + seq![self.format_class, self.endianness, self.format_version, self.os_abi]
            + self.pad@
    }

    /// The block that the sixteen bytes at `at` hold.
    #[verifier::opaque]
    pub open spec fn at(bytes: Seq<u8>, at: int) -> Identification {
        Identification {
            magic: [bytes[at], bytes[at + 1], bytes[at + 2], bytes[at + 3]],
            format_class: bytes[at + 4],
            endianness: bytes[at + 5],
            format_version: bytes[at + 6],
            os_abi: bytes[at + 7],
            pad: [
                bytes[at + 8],
                bytes[at + 9],
                bytes[at + 10],
                bytes[at + 11],
                bytes[at + 12],
                bytes[at + 13],
                bytes[at + 14],
                bytes[at + 15],
            ],
        }
    }

    /// A block that was written is read as it was, whatever follows it.
    pub proof fn lemma_read_of_wire(self, rest: Seq<u8>)
        ensures
            self.wire().len() == 16,
            Identification::at(self.wire() + rest, 0) == self,
    {
        reveal(Identification::wire);
        reveal(Identification::at);
        let read = Identification::at(self.wire() + rest, 0);
        assert(read.magic =~= self.magic);
        assert(read.pad =~= self.pad);
    }

    /// Reads the block at `at`.
    pub fn read(bytes: &[u8], at: usize) -> (id: Identification)
        requires
            at + 16 <= bytes.len(),
        ensures
            id == Identification::at(bytes@, at as int),
    {
        proof {
            reveal(Identification::at);
        }
        Identification {
            magic: [bytes[at], bytes[at + 1], bytes[at + 2], bytes[at + 3]],
            format_class: bytes[at + 4],
            endianness: bytes[at + 5],
            format_version: bytes[at + 6],
            os_abi: bytes[at + 7],
            pad: [
                bytes[at + 8],
                bytes[at + 9],
                bytes[at + 10],
                bytes[at + 11],
                bytes[at + 12],
                bytes[at + 13],
                bytes[at + 14],
                bytes[at + 15],
            ],
        }
    }

    /// Appends the byte image of the block.
    pub fn write(&self, out: &mut Vec<u8>)
        ensures
            final(out)@ == old(out)@ + self.wire(),
    {
        proof {
            reveal(Identification::wire);
        }
        let mut k: usize = 0;
        while k < 4
            invariant
                k <= 4,
                out@ == old(out)@ + self.magic@.subrange(0, k as int),
            decreases 4 - k,
        {
            out.push(self.magic[k]);
            k += 1;
        }
        out.push(self.format_class);
        out.push(self.endianness);
        out.push(self.format_version);
        out.push(self.os_abi);
        let ghost before = out@;
        let mut k: usize = 0;
        while k < 8
            invariant
                k <= 8,
                out@ == before + self.pad@.subrange(0, k as int),
            decreases 8 - k,
        {
            out.push(self.pad[k]);
            k += 1;
        }
        assert(out@ == old(out)@ + self.wire());
    }
}

impl Default for Identification {
    /// The block of all zero bytes.
    fn default() -> (id: Identification)
        ensures
            id == Identification::zero(),
    {
        Identification {
            magic: [0, 0, 0, 0],
            format_class: 0,
            endianness: 0,
            format_version: 0,
            os_abi: 0,
            pad: [0, 0, 0, 0, 0, 0, 0, 0],
        }
    }
}

/// The record at the start of every ELF file.
#[derive(Clone, Copy, Debug)]
pub struct FileHeader {
    pub identification: Identification,
    pub object_file_type: Half,
    pub machine_type: Half,
    pub object_file_version: Word,
    pub entrypoint: Address,
    pub program_header_offset: FileOffset,
    pub section_header_offset: FileOffset,
    pub processor_specific_flags: Word,
    pub file_header_size: Half,
    pub program_headers_total_size: Half,
    pub program_header_entry_count: Half,
    pub section_headers_total_size: Half,
    pub section_header_entry_count: Half,
    pub sh_section_name_stringtab_entry_index: Half,
}

impl FileHeader {
    /// The header whose every field is zero.
    pub open spec fn zero() -> FileHeader {
        FileHeader {
            identification: Identification::zero(),
            object_file_type: 0,
            machine_type: 0,
            object_file_version: 0,
            entrypoint: 0,
            program_header_offset: 0,
            section_header_offset: 0,
            processor_specific_flags: 0,
            file_header_size: 0,
            program_headers_total_size: 0,
            program_header_entry_count: 0,
            section_headers_total_size: 0,
            section_header_entry_count: 0,
            sh_section_name_stringtab_entry_index: 0,
        }
    }

    /// The byte image of the header.
    #[verifier::opaque]
    pub open spec fn wire(self) -> Seq<u8> {
        self.identification.wire() + u16_le(self.object_file_type) + u16_le(self.machine_type)
            + u32_le(self.object_file_version) + u64_le(self.entrypoint) + u64_le(
            self.program_header_offset,
        ) + u64_le(self.section_header_offset) + u32_le(self.processor_specific_flags) + u16_le(
            self.file_header_size,
        ) + u16_le(self.program_headers_total_size) + u16_le(self.program_header_entry_count)
            + u16_le(self.section_headers_total_size) + u16_le(self.section_header_entry_count)
            + u16_le(self.sh_section_name_stringtab_entry_index)
    }

    /// The header that the bytes from `at` on hold.
    #[verifier::opaque]
    pub open spec fn at(bytes: Seq<u8>, at: int) -> FileHeader {
        FileHeader {
            identification: Identification::at(bytes, at),
            object_file_type: le_u16(bytes, at + 16),
            machine_type: le_u16(bytes, at + 18),
            object_file_version: le_u32(bytes, at + 20),
            entrypoint: le_u64(bytes, at + 24),
            program_header_offset: le_u64(bytes, at + 32),
            section_header_offset: le_u64(bytes, at + 40),
            processor_specific_flags: le_u32(bytes, at + 48),
            file_header_size: le_u16(bytes, at + 52),
            program_headers_total_size: le_u16(bytes, at + 54),
            program_header_entry_count: le_u16(bytes, at + 56),
            section_headers_total_size: le_u16(bytes, at + 58),
            section_header_entry_count: le_u16(bytes, at + 60),
            sh_section_name_stringtab_entry_index: le_u16(bytes, at + 62),
        }
    }

    /// The image of a header takes [`FILE_HEADER_SIZE`] bytes.
    pub proof fn lemma_wire_len(self)
        ensures
            self.wire().len() == FILE_HEADER_SIZE,
    {
        reveal(FileHeader::wire);
        lemma_lengths();
        reveal(Identification::wire);
    }

    /// A header that was written is read as it was, whatever follows it.
    pub proof fn lemma_read_of_wire(self, rest: Seq<u8>)
        ensures
            FileHeader::at(self.wire() + rest, 0) == self,
    {
        reveal(FileHeader::wire);
        reveal(FileHeader::at);
        reveal(Identification::wire);
        reveal(Identification::at);
        let h0 = self.identification.wire();
        let h1 = h0 + u16_le(self.object_file_type);
        let h2 = h1 + u16_le(self.machine_type);
        let h3 = h2 + u32_le(self.object_file_version);
        let h4 = h3 + u64_le(self.entrypoint);
        let h5 = h4 + u64_le(self.program_header_offset);
        let h6 = h5 + u64_le(self.section_header_offset);
        let h7 = h6 + u32_le(self.processor_specific_flags);
        let h8 = h7 + u16_le(self.file_header_size);
        let h9 = h8 + u16_le(self.program_headers_total_size);
        let h10 = h9 + u16_le(self.program_header_entry_count);
        let h11 = h10 + u16_le(self.section_headers_total_size);
        let h12 = h11 + u16_le(self.section_header_entry_count);
        let h13 = h12 + u16_le(self.sh_section_name_stringtab_entry_index);
        // From the last field to the first: each step reads one field where
        // the fields before it end, and counts it to what follows from then on.
        let all = self.wire() + rest;
        lemma_lengths();
        let t13 = rest;
        lemma_u16_read_at(all, h12, self.sh_section_name_stringtab_entry_index, t13);
        let t12 = u16_le(self.sh_section_name_stringtab_entry_index) + t13;
        lemma_u16_read_at(all, h11, self.section_header_entry_count, t12);
        let t11 = u16_le(self.section_header_entry_count) + t12;
        lemma_u16_read_at(all, h10, self.section_headers_total_size, t11);
        let t10 = u16_le(self.section_headers_total_size) + t11;
        lemma_u16_read_at(all, h9, self.program_header_entry_count, t10);
        let t9 = u16_le(self.program_header_entry_count) + t10;
        lemma_u16_read_at(all, h8, self.program_headers_total_size, t9);
        let t8 = u16_le(self.program_headers_total_size) + t9;
        lemma_u16_read_at(all, h7, self.file_header_size, t8);
        let t7 = u16_le(self.file_header_size) + t8;
        lemma_u32_read_at(all, h6, self.processor_specific_flags, t7);
        let t6 = u32_le(self.processor_specific_flags) + t7;
        lemma_u64_read_at(all, h5, self.section_header_offset, t6);
        let t5 = u64_le(self.section_header_offset) + t6;
        lemma_u64_read_at(all, h4, self.program_header_offset, t5);
        let t4 = u64_le(self.program_header_offset) + t5;
        lemma_u64_read_at(all, h3, self.entrypoint, t4);
        let t3 = u64_le(self.entrypoint) + t4;
        lemma_u32_read_at(all, h2, self.object_file_version, t3);
        let t2 = u32_le(self.object_file_version) + t3;
        lemma_u16_read_at(all, h1, self.machine_type, t2);
        let t1 = u16_le(self.machine_type) + t2;
        lemma_u16_read_at(all, h0, self.object_file_type, t1);
        let t0 = u16_le(self.object_file_type) + t1;
        self.identification.lemma_read_of_wire(t0);
    }

    /// A header is read from its own 64 bytes and from nothing else.
    pub proof fn lemma_at_window(bytes: Seq<u8>, at: int)
        requires
            0 <= at,
            at + FILE_HEADER_SIZE <= bytes.len(),
        ensures
            FileHeader::at(bytes, at) == FileHeader::at(bytes.subrange(at, at + 64), 0),
    {
        reveal(FileHeader::at);
        reveal(Identification::at);
        let piece = bytes.subrange(at, at + 64);
        assert(Identification::at(bytes, at).magic =~= Identification::at(piece, 0).magic);
        assert(Identification::at(bytes, at).pad =~= Identification::at(piece, 0).pad);
        lemma_u16_in_piece(bytes, at, at + 64, 16);
        lemma_u16_in_piece(bytes, at, at + 64, 18);
        lemma_u32_in_piece(bytes, at, at + 64, 20);
        lemma_u64_in_piece(bytes, at, at + 64, 24);
        lemma_u64_in_piece(bytes, at, at + 64, 32);
        lemma_u64_in_piece(bytes, at, at + 64, 40);
        lemma_u32_in_piece(bytes, at, at + 64, 48);
        lemma_u16_in_piece(bytes, at, at + 64, 52);
        lemma_u16_in_piece(bytes, at, at + 64, 54);
        lemma_u16_in_piece(bytes, at, at + 64, 56);
        lemma_u16_in_piece(bytes, at, at + 64, 58);
        lemma_u16_in_piece(bytes, at, at + 64, 60);
        lemma_u16_in_piece(bytes, at, at + 64, 62);
    }

    /// Where the image of a header lies in a buffer, the header is read.
    pub proof fn lemma_read_where_written(self, bytes: Seq<u8>, at: int)
        requires
            0 <= at,
            at + FILE_HEADER_SIZE <= bytes.len(),
            bytes.subrange(at, at + 64) == self.wire(),
        ensures
            FileHeader::at(bytes, at) == self,
    {
        FileHeader::lemma_at_window(bytes, at);
        self.lemma_read_of_wire(Seq::empty());
        assert(self.wire() + Seq::<u8>::empty() == self.wire());
    }

    /// Reads the header at `at`.
    pub fn read(bytes: &[u8], at: usize) -> (header: FileHeader)
        requires
            at + FILE_HEADER_SIZE <= bytes.len(),
        ensures
            header == FileHeader::at(bytes@, at as int),
    {
        proof {
            reveal(FileHeader::at);
        }
        FileHeader {
            identification: Identification::read(bytes, at),
            object_file_type: read_u16(bytes, at + 16),
            machine_type: read_u16(bytes, at + 18),
            object_file_version: read_u32(bytes, at + 20),
            entrypoint: read_u64(bytes, at + 24),
            program_header_offset: read_u64(bytes, at + 32),
            section_header_offset: read_u64(bytes, at + 40),
            processor_specific_flags: read_u32(bytes, at + 48),
            file_header_size: read_u16(bytes, at + 52),
            program_headers_total_size: read_u16(bytes, at + 54),
            program_header_entry_count: read_u16(bytes, at + 56),
            section_headers_total_size: read_u16(bytes, at + 58),
            section_header_entry_count: read_u16(bytes, at + 60),
            sh_section_name_stringtab_entry_index: read_u16(bytes, at + 62),
        }
    }

    /// Appends the byte image of the header.
    pub fn write(&self, out: &mut Vec<u8>)
        ensures
            final(out)@ == old(out)@ + self.wire(),
    {
        proof {
            reveal(FileHeader::wire);
        }
        self.identification.write(out);
        write_u16(out, self.object_file_type);
        write_u16(out, self.machine_type);
        write_u32(out, self.object_file_version);
        write_u64(out, self.entrypoint);
        write_u64(out, self.program_header_offset);
        write_u64(out, self.section_header_offset);
        write_u32(out, self.processor_specific_flags);
        write_u16(out, self.file_header_size);
        write_u16(out, self.program_headers_total_size);
        write_u16(out, self.program_header_entry_count);
        write_u16(out, self.section_headers_total_size);
        write_u16(out, self.section_header_entry_count);
        write_u16(out, self.sh_section_name_stringtab_entry_index);
        assert(out@ == old(out)@ + self.wire());
    }
}

impl Default for FileHeader {
    /// The header whose every field is zero.
    fn default() -> (header: FileHeader)
        ensures
            header == FileHeader::zero(),
    {
        FileHeader {
            identification: Identification::default(),
            object_file_type: 0,
            machine_type: 0,
            object_file_version: 0,
            entrypoint: 0,
            program_header_offset: 0,
            section_header_offset: 0,
            processor_specific_flags: 0,
            file_header_size: 0,
            program_headers_total_size: 0,
            program_header_entry_count: 0,
            section_headers_total_size: 0,
            section_header_entry_count: 0,
            sh_section_name_stringtab_entry_index: 0,
        }
    }
}

//  Linkable, section-based view
// ==============================

/// What a section holds. A code that has no name here is kept as it is, in
/// [`SectionType::Unknown`], so that no section is lost or renumbered.
#[derive(Clone, Copy, Debug, PartialEq, Eq, Structural)]
pub enum SectionType {
    Null,
    ProgramData,
    SymbolTable,
    StringTable,
    RelocationWithAddend,
    SymbolHashTable,
    DynamicLinkingInfo,
    Notes,
    ProgramSpaceWithNoData,
    RelocationWithoutAddend,
    Reserved,
    DynamicLinkerSymbolTable,
    ArrayOfConstructors,
    ArrayOfDestructors,
    ArrayOfPreConstructors,
    SectionGroup,
    ExtendedSectionIndices,
    NumberOfDefinedTypes,
    Unknown(u32),
}

impl SectionType {
    /// The number that stands for the type in a file.
    pub open spec fn code(self) -> u32 {
        match self {
            SectionType::Null => 0x0,
            SectionType::ProgramData => 0x1,
            SectionType::SymbolTable => 0x2,
            SectionType::StringTable => 0x3,
            SectionType::RelocationWithAddend => 0x4,
            SectionType::SymbolHashTable => 0x5,
            SectionType::DynamicLinkingInfo => 0x6,
            SectionType::Notes => 0x7,
            SectionType::ProgramSpaceWithNoData => 0x8,
            SectionType::RelocationWithoutAddend => 0x9,
            SectionType::Reserved => 0x0A,
            SectionType::DynamicLinkerSymbolTable => 0x0B,
            SectionType::ArrayOfConstructors => 0x0E,
            SectionType::ArrayOfDestructors => 0x0F,
            SectionType::ArrayOfPreConstructors => 0x10,
            SectionType::SectionGroup => 0x11,
            SectionType::ExtendedSectionIndices => 0x12,
            SectionType::NumberOfDefinedTypes => 0x13,
            SectionType::Unknown(raw) => raw,
        }
    }

    /// The type that a number stands for.
    pub open spec fn of_code(raw: u32) -> SectionType {
        if raw == 0x0 {
            SectionType::Null
        } else if raw == 0x1 {
            SectionType::ProgramData
        } else if raw == 0x2 {
            SectionType::SymbolTable
        } else if raw == 0x3 {
            SectionType::StringTable
        } else if raw == 0x4 {
            SectionType::RelocationWithAddend
        } else if raw == 0x5 {
            SectionType::SymbolHashTable
        } else if raw == 0x6 {
            SectionType::DynamicLinkingInfo
        } else if raw == 0x7 {
            SectionType::Notes
        } else if raw == 0x8 {
            SectionType::ProgramSpaceWithNoData
        } else if raw == 0x9 {
            SectionType::RelocationWithoutAddend
        } else if raw == 0x0A {
            SectionType::Reserved
        } else if raw == 0x0B {
            SectionType::DynamicLinkerSymbolTable
        } else if raw == 0x0E {
            SectionType::ArrayOfConstructors
        } else if raw == 0x0F {
            SectionType::ArrayOfDestructors
        } else if raw == 0x10 {
            SectionType::ArrayOfPreConstructors
        } else if raw == 0x11 {
            SectionType::SectionGroup
        } else if raw == 0x12 {
            SectionType::ExtendedSectionIndices
        } else if raw == 0x13 {
            SectionType::NumberOfDefinedTypes
        } else {
            SectionType::Unknown(raw)
        }
    }

    /// Whether the value is the one that its own number is read as: a code
    /// that has a name is not held in [`SectionType::Unknown`].
    pub open spec fn canonical(self) -> bool {
        SectionType::of_code(self.code()) == self
    }

    /// Every number survives the way through a `SectionType` unchanged, and
    /// what a number is read as is canonical.
    pub proof fn lemma_code_kept(raw: u32)
        ensures
            SectionType::of_code(raw).code() == raw,
            SectionType::of_code(raw).canonical(),
    {
    }

    /// The number that stands for the type in a file.
    pub fn raw(self) -> (raw: u32)
        ensures
            raw == self.code(),
    {
        match self {
            SectionType::Null => 0x0,
            SectionType::ProgramData => 0x1,
            SectionType::SymbolTable => 0x2,
            SectionType::StringTable => 0x3,
            SectionType::RelocationWithAddend => 0x4,
            SectionType::SymbolHashTable => 0x5,
            SectionType::DynamicLinkingInfo => 0x6,
            SectionType::Notes => 0x7,
            SectionType::ProgramSpaceWithNoData => 0x8,
            SectionType::RelocationWithoutAddend => 0x9,
            SectionType::Reserved => 0x0A,
            SectionType::DynamicLinkerSymbolTable => 0x0B,
            SectionType::ArrayOfConstructors => 0x0E,
            SectionType::ArrayOfDestructors => 0x0F,
            SectionType::ArrayOfPreConstructors => 0x10,
            SectionType::SectionGroup => 0x11,
            SectionType::ExtendedSectionIndices => 0x12,
            SectionType::NumberOfDefinedTypes => 0x13,
            SectionType::Unknown(raw) => raw,
        }
    }

    /// The type that a number stands for.
    pub fn from_raw(raw: u32) -> (section_type: SectionType)
        ensures
            section_type == SectionType::of_code(raw),
    {
        match raw {
            0x0 => SectionType::Null,
            0x1 => SectionType::ProgramData,
            0x2 => SectionType::SymbolTable,
            0x3 => SectionType::StringTable,
            0x4 => SectionType::RelocationWithAddend,
            0x5 => SectionType::SymbolHashTable,
            0x6 => SectionType::DynamicLinkingInfo,
            0x7 => SectionType::Notes,
            0x8 => SectionType::ProgramSpaceWithNoData,
            0x9 => SectionType::RelocationWithoutAddend,
            0x0A => SectionType::Reserved,
            0x0B => SectionType::DynamicLinkerSymbolTable,
            0x0E => SectionType::ArrayOfConstructors,
            0x0F => SectionType::ArrayOfDestructors,
            0x10 => SectionType::ArrayOfPreConstructors,
            0x11 => SectionType::SectionGroup,
            0x12 => SectionType::ExtendedSectionIndices,
            0x13 => SectionType::NumberOfDefinedTypes,
            _ => SectionType::Unknown(raw),
        }
    }
}

impl Default for SectionType {
    fn default() -> (section_type: SectionType)
        ensures
            section_type == SectionType::Null,
    {
        SectionType::Null
    }
}

/// The attribute bits of a section. Two flags are joined with `|`, which
/// gives the number that holds the bits of both.
#[derive(Clone, Copy, Debug)]
pub enum SectionFlags {
    Null,
    Write,
    Alloc,
    Executable,
}

impl SectionFlags {
    /// The bit that stands for the flag.
    pub open spec fn bits(self) -> u64 {
        match self {
            SectionFlags::Null => 0x0,
            SectionFlags::Write => 0x1,
            SectionFlags::Alloc => 0x2,
            SectionFlags::Executable => 0x4,
        }
    }

    /// The bit that stands for the flag.
    pub fn raw(self) -> (raw: u64)
        ensures
            raw == self.bits(),
    {
        match self {
            SectionFlags::Null => 0x0,
            SectionFlags::Write => 0x1,
            SectionFlags::Alloc => 0x2,
            SectionFlags::Executable => 0x4,
        }
    }
}

impl core::ops::BitOr for SectionFlags {
    type Output = u64;

    fn bitor(self, rhs: SectionFlags) -> (both: u64) {
        self.raw() | rhs.raw()
    }
}

impl vstd::std_specs::ops::BitOrSpecImpl for SectionFlags {
    open spec fn obeys_bitor_spec() -> bool {
        true
    }

    open spec fn bitor_req(self, rhs: SectionFlags) -> bool {
        true
    }

    open spec fn bitor_spec(self, rhs: SectionFlags) -> u64 {
        self.bits() | rhs.bits()
    }
}

/// One entry of the section-header table.
#[derive(Clone, Copy, Debug, PartialEq, Eq, Structural)]
pub struct SectionHeader {
    /// Offset of the section's name in the section-name string table.
    pub name: Word,
    pub section_type: SectionType,
    pub flags: u64,
    pub virtual_address: Address,
    pub offset: FileOffset,
    pub size: XWord,
    /// What this names depends on `section_type`.
    pub link_to_other_section: Word,
    pub misc_info: Word,
    /// A power of two.
    pub address_allignment_boundary: XWord,
    /// Size of one entry, for sections that hold a table.
    pub entry_size: XWord,
}

impl SectionHeader {
    /// The byte image of the header.
    #[verifier::opaque]
    pub open spec fn wire(self) -> Seq<u8> {
        u32_le(self.name) + u32_le(self.section_type.code()) + u64_le(self.flags) + u64_le(
            self.virtual_address,
        ) + u64_le(self.offset) + u64_le(self.size) + u32_le(self.link_to_other_section) + u32_le(
            self.misc_info,
        ) + u64_le(self.address_allignment_boundary) + u64_le(self.entry_size)
    }

    /// The header that the bytes from `at` on hold.
    #[verifier::opaque]
    pub open spec fn at(bytes: Seq<u8>, at: int) -> SectionHeader {
        SectionHeader {
            name: le_u32(bytes, at),
            section_type: SectionType::of_code(le_u32(bytes, at + 4)),
            flags: le_u64(bytes, at + 8),
            virtual_address: le_u64(bytes, at + 16),
            offset: le_u64(bytes, at + 24),
            size: le_u64(bytes, at + 32),
            link_to_other_section: le_u32(bytes, at + 40),
            misc_info: le_u32(bytes, at + 44),
            address_allignment_boundary: le_u64(bytes, at + 48),
            entry_size: le_u64(bytes, at + 56),
        }
    }

    /// The header whose every field is zero: the one that entry 0 of every
    /// section-header table holds.
    pub open spec fn null() -> SectionHeader {
        SectionHeader {
            name: 0,
            section_type: SectionType::Null,
            flags: 0,
            virtual_address: 0,
            offset: 0,
            size: 0,
            link_to_other_section: 0,
            misc_info: 0,
            address_allignment_boundary: 0,
            entry_size: 0,
        }
    }

    /// The image of a header takes [`SECTION_HEADER_SIZE`] bytes.
    pub proof fn lemma_wire_len(self)
        ensures
            self.wire().len() == SECTION_HEADER_SIZE,
    {
        reveal(SectionHeader::wire);
        lemma_lengths();
    }

    /// A header that was read is written as the bytes it was read from.
    pub proof fn lemma_wire_of_read(bytes: Seq<u8>, at: int)
        requires
            0 <= at,
            at + SECTION_HEADER_SIZE <= bytes.len(),
        ensures
            SectionHeader::at(bytes, at).wire() == bytes.subrange(at, at + SECTION_HEADER_SIZE),
    {
        reveal(SectionHeader::wire);
        reveal(SectionHeader::at);
        lemma_u32_spell_back(bytes, at);
        lemma_u32_spell_back(bytes, at + 4);
        lemma_u64_spell_back(bytes, at + 8);
        lemma_u64_spell_back(bytes, at + 16);
        lemma_u64_spell_back(bytes, at + 24);
        lemma_u64_spell_back(bytes, at + 32);
        lemma_u32_spell_back(bytes, at + 40);
        lemma_u32_spell_back(bytes, at + 44);
        lemma_u64_spell_back(bytes, at + 48);
        lemma_u64_spell_back(bytes, at + 56);
        SectionType::lemma_code_kept(le_u32(bytes, at + 4));
        lemma_adjacent(bytes, at, at + 4, at + 8);
        lemma_adjacent(bytes, at, at + 8, at + 16);
        lemma_adjacent(bytes, at, at + 16, at + 24);
        lemma_adjacent(bytes, at, at + 24, at + 32);
        lemma_adjacent(bytes, at, at + 32, at + 40);
        lemma_adjacent(bytes, at, at + 40, at + 44);
        lemma_adjacent(bytes, at, at + 44, at + 48);
        lemma_adjacent(bytes, at, at + 48, at + 56);
        lemma_adjacent(bytes, at, at + 56, at + 64);
    }

    /// A header that was written is read as it was, whatever follows it,
    /// where its type is canonical.
    pub proof fn lemma_read_of_wire(self, rest: Seq<u8>)
        requires
            self.section_type.canonical(),
        ensures
            SectionHeader::at(self.wire() + rest, 0) == self,
    {
        reveal(SectionHeader::wire);
        reveal(SectionHeader::at);
        let h0 = Seq::<u8>::empty();
        let h1 = h0 + u32_le(self.name);
        let h2 = h1 + u32_le(self.section_type.code());
        let h3 = h2 + u64_le(self.flags);
        let h4 = h3 + u64_le(self.virtual_address);
        let h5 = h4 + u64_le(self.offset);
        let h6 = h5 + u64_le(self.size);
        let h7 = h6 + u32_le(self.link_to_other_section);
        let h8 = h7 + u32_le(self.misc_info);
        let h9 = h8 + u64_le(self.address_allignment_boundary);
        let h10 = h9 + u64_le(self.entry_size);
        // From the last field to the first: each step reads one field where
        // the fields before it end, and counts it to what follows from then on.
        let all = self.wire() + rest;
        lemma_lengths();
        assert(h1 == u32_le(self.name));
        let t10 = rest;
        lemma_u64_read_at(all, h9, self.entry_size, t10);
        let t9 = u64_le(self.entry_size) + t10;
        lemma_u64_read_at(all, h8, self.address_allignment_boundary, t9);
        let t8 = u64_le(self.address_allignment_boundary) + t9;
        lemma_u32_read_at(all, h7, self.misc_info, t8);
        let t7 = u32_le(self.misc_info) + t8;
        lemma_u32_read_at(all, h6, self.link_to_other_section, t7);
        let t6 = u32_le(self.link_to_other_section) + t7;
        lemma_u64_read_at(all, h5, self.size, t6);
        let t5 = u64_le(self.size) + t6;
        lemma_u64_read_at(all, h4, self.offset, t5);
        let t4 = u64_le(self.offset) + t5;
        lemma_u64_read_at(all, h3, self.virtual_address, t4);
        let t3 = u64_le(self.virtual_address) + t4;
        lemma_u64_read_at(all, h2, self.flags, t3);
        let t2 = u64_le(self.flags) + t3;
        lemma_u32_read_at(all, h1, self.section_type.code(), t2);
        let t1 = u32_le(self.section_type.code()) + t2;
        lemma_u32_read_at(all, h0, self.name, t1);
    }

    /// A header is read from its own 64 bytes and from nothing else.
    pub proof fn lemma_at_window(bytes: Seq<u8>, at: int)
        requires
            0 <= at,
            at + SECTION_HEADER_SIZE <= bytes.len(),
        ensures
            SectionHeader::at(bytes, at) == SectionHeader::at(bytes.subrange(at, at + 64), 0),
    {
        reveal(SectionHeader::at);
        lemma_u32_in_piece(bytes, at, at + 64, 0);
        lemma_u32_in_piece(bytes, at, at + 64, 4);
        lemma_u64_in_piece(bytes, at, at + 64, 8);
        lemma_u64_in_piece(bytes, at, at + 64, 16);
        lemma_u64_in_piece(bytes, at, at + 64, 24);
        lemma_u64_in_piece(bytes, at, at + 64, 32);
        lemma_u32_in_piece(bytes, at, at + 64, 40);
        lemma_u32_in_piece(bytes, at, at + 64, 44);
        lemma_u64_in_piece(bytes, at, at + 64, 48);
        lemma_u64_in_piece(bytes, at, at + 64, 56);
    }

    /// Where the image of a header lies in a buffer, the header is read,
    /// where its type is canonical.
    pub proof fn lemma_read_where_written(self, bytes: Seq<u8>, at: int)
        requires
            self.section_type.canonical(),
            0 <= at,
            at + SECTION_HEADER_SIZE <= bytes.len(),
            bytes.subrange(at, at + 64) == self.wire(),
        ensures
            SectionHeader::at(bytes, at) == self,
    {
        SectionHeader::lemma_at_window(bytes, at);
        self.lemma_read_of_wire(Seq::empty());
        assert(self.wire() + Seq::<u8>::empty() == self.wire());
    }

    /// Reads the header at `at`.
    pub fn read(bytes: &[u8], at: usize) -> (header: SectionHeader)
        requires
            at + SECTION_HEADER_SIZE <= bytes.len(),
        ensures
            header == SectionHeader::at(bytes@, at as int),
    {
        proof {
            reveal(SectionHeader::at);
        }
        SectionHeader {
            name: read_u32(bytes, at),
            section_type: SectionType::from_raw(read_u32(bytes, at + 4)),
            flags: read_u64(bytes, at + 8),
            virtual_address: read_u64(bytes, at + 16),
            offset: read_u64(bytes, at + 24),
            size: read_u64(bytes, at + 32),
            link_to_other_section: read_u32(bytes, at + 40),
            misc_info: read_u32(bytes, at + 44),
            address_allignment_boundary: read_u64(bytes, at + 48),
            entry_size: read_u64(bytes, at + 56),
        }
    }

    /// Appends the byte image of the header.
    pub fn write(&self, out: &mut Vec<u8>)
        ensures
            final(out)@ == old(out)@ + self.wire(),
    {
        proof {
            reveal(SectionHeader::wire);
        }
        write_u32(out, self.name);
        write_u32(out, self.section_type.raw());
        write_u64(out, self.flags);
        write_u64(out, self.virtual_address);
        write_u64(out, self.offset);
        write_u64(out, self.size);
        write_u32(out, self.link_to_other_section);
        write_u32(out, self.misc_info);
        write_u64(out, self.address_allignment_boundary);
        write_u64(out, self.entry_size);
        assert(out@ == old(out)@ + self.wire());
    }
}

impl Default for SectionHeader {
    fn default() -> (header: SectionHeader)
        ensures
            header == SectionHeader::null(),
    {
        SectionHeader {
            name: 0,
            section_type: SectionType::Null,
            flags: 0,
            virtual_address: 0,
            offset: 0,
            size: 0,
            link_to_other_section: 0,
            misc_info: 0,
            address_allignment_boundary: 0,
            entry_size: 0,
        }
    }
}

//  Relocations
// =============

/// One entry of a relocation table whose entries carry their addend.
#[derive(Clone, Copy, Debug, PartialEq, Eq, Structural)]
pub struct RelocationWithAddend {
    /// Where in its section the relocation is applied.
    pub offset: Address,
    /// The symbol's index in the upper half, the relocation type in the lower.
    pub info: XWord,
    pub addend: SignedXWord,
}

/// The index of the symbol that an `info` field names: its upper 32 bits.
pub open spec fn info_symbol(info: u64) -> nat {
    (info / 0x1_0000_0000) as nat
}

/// The relocation type that an `info` field names: its lower 32 bits.
pub open spec fn info_type(info: u64) -> u64 {
    info % 0x1_0000_0000
}

impl RelocationWithAddend {
    /// The byte image of the entry.
    #[verifier::opaque]
    pub open spec fn wire(self) -> Seq<u8> {
        u64_le(self.offset) + u64_le(self.info) + i64_le(self.addend)
    }

    /// The entry that the bytes from `at` on hold.
    #[verifier::opaque]
    pub open spec fn at(bytes: Seq<u8>, at: int) -> RelocationWithAddend {
        RelocationWithAddend {
            offset: le_u64(bytes, at),
            info: le_u64(bytes, at + 8),
            addend: le_i64(bytes, at + 16),
        }
    }

    /// The image of an entry takes [`RELOCATION_SIZE`] bytes.
    pub proof fn lemma_wire_len(self)
        ensures
            self.wire().len() == RELOCATION_SIZE,
    {
        reveal(RelocationWithAddend::wire);
        lemma_lengths();
    }

    /// An entry that was read is written as the bytes it was read from.
    pub proof fn lemma_wire_of_read(bytes: Seq<u8>, at: int)
        requires
            0 <= at,
            at + RELOCATION_SIZE <= bytes.len(),
        ensures
            RelocationWithAddend::at(bytes, at).wire() == bytes.subrange(
                at,
                at + RELOCATION_SIZE,
            ),
    {
        reveal(RelocationWithAddend::wire);
        reveal(RelocationWithAddend::at);
        lemma_u64_spell_back(bytes, at);
        lemma_u64_spell_back(bytes, at + 8);
        lemma_u64_spell_back(bytes, at + 16);
        lemma_adjacent(bytes, at, at + 8, at + 16);
        lemma_adjacent(bytes, at, at + 16, at + 24);
    }

    /// An entry that was written is read as it was, whatever follows it.
    pub proof fn lemma_read_of_wire(self, rest: Seq<u8>)
        ensures
            RelocationWithAddend::at(self.wire() + rest, 0) == self,
    {
        reveal(RelocationWithAddend::wire);
        reveal(RelocationWithAddend::at);
        let h0 = Seq::<u8>::empty();
        let h1 = h0 + u64_le(self.offset);
        let h2 = h1 + u64_le(self.info);
        let h3 = h2 + i64_le(self.addend);
        // From the last field to the first: each step reads one field where
        // the fields before it end, and counts it to what follows from then on.
        let all = self.wire() + rest;
        lemma_lengths();
        assert(h1 == u64_le(self.offset));
        let t3 = rest;
        lemma_i64_read_at(all, h2, self.addend, t3);
        let t2 = i64_le(self.addend) + t3;
        lemma_u64_read_at(all, h1, self.info, t2);
        let t1 = u64_le(self.info) + t2;
        lemma_u64_read_at(all, h0, self.offset, t1);
    }

    /// Reads the entry at `at`.
    pub fn read(bytes: &[u8], at: usize) -> (entry: RelocationWithAddend)
        requires
            at + RELOCATION_SIZE <= bytes.len(),
        ensures
            entry == RelocationWithAddend::at(bytes@, at as int),
    {
        proof {
            reveal(RelocationWithAddend::at);
        }
        RelocationWithAddend {
            offset: read_u64(bytes, at),
            info: read_u64(bytes, at + 8),
            addend: read_i64(bytes, at + 16),
        }
    }

    /// Appends the byte image of the entry.
    pub fn write(&self, out: &mut Vec<u8>)
        ensures
            final(out)@ == old(out)@ + self.wire(),
    {
        proof {
            reveal(RelocationWithAddend::wire);
        }
        write_u64(out, self.offset);
        write_u64(out, self.info);
        write_i64(out, self.addend);
        assert(out@ == old(out)@ + self.wire());
    }

    /// The index, in the symbol table, of the symbol that the entry refers to.
    pub fn symbol(&self) -> (index: usize)
        ensures
            index == info_symbol(self.info),
    {
        let info: u64 = self.info;
        assert(info >> 32 == info / 0x1_0000_0000) by (bit_vector);
        (info >> 32) as usize
    }

    /// The relocation type, which is specific to the processor.
    pub fn relo_type(&self) -> (code: XWord)
        ensures
            code == info_type(self.info),
    {
        let info: u64 = self.info;
        assert(info & 0xffffffff == info % 0x1_0000_0000) by (bit_vector);
        info & 0xffffffff
    }
}

impl Default for RelocationWithAddend {
    fn default() -> (entry: RelocationWithAddend)
        ensures
            entry == (RelocationWithAddend { offset: 0, info: 0, addend: 0 }),
    {
        RelocationWithAddend { offset: 0, info: 0, addend: 0 }
    }
}

//  Symbols
// =========

/// One entry of a symbol table.
#[derive(Clone, Copy, Debug, PartialEq, Eq, Structural)]
pub struct Symbol {
    /// Offset of the symbol's name in the symbol string table.
    pub name: Word,
    pub info: u8,
    pub other: u8,
    /// Index of the section that the symbol is defined in; 0 where it is
    /// undefined.
    pub relative_to_section: Half,
    /// An address or an absolute value.
    pub value: Address,
    pub size: XWord,
}

impl Symbol {
    /// The entry whose every field is zero: an undefined symbol without a
    /// name.
    pub open spec fn zero() -> Symbol {
        Symbol { name: 0, info: 0, other: 0, relative_to_section: 0, value: 0, size: 0 }
    }

    /// The byte image of the entry.
    #[verifier::opaque]
    pub open spec fn wire(self) -> Seq<u8> {
        u32_le(self.name) + seq![self.info, self.other] + u16_le(self.relative_to_section)
            + u64_le(self.value) + u64_le(self.size)
    }

    /// The entry that the bytes from `at` on hold.
    #[verifier::opaque]
    pub open spec fn at(bytes: Seq<u8>, at: int) -> Symbol {
        Symbol {
            name: le_u32(bytes, at),
            info: bytes[at + 4],
            other: bytes[at + 5],
            relative_to_section: le_u16(bytes, at + 6),
            value: le_u64(bytes, at + 8),
            size: le_u64(bytes, at + 16),
        }
    }

    /// The image of an entry takes [`SYMBOL_SIZE`] bytes.
    pub proof fn lemma_wire_len(self)
        ensures
            self.wire().len() == SYMBOL_SIZE,
    {
        reveal(Symbol::wire);
        lemma_lengths();
    }

    /// An entry that was read is written as the bytes it was read from.
    pub proof fn lemma_wire_of_read(bytes: Seq<u8>, at: int)
        requires
            0 <= at,
            at + SYMBOL_SIZE <= bytes.len(),
        ensures
            Symbol::at(bytes, at).wire() == bytes.subrange(at, at + SYMBOL_SIZE),
    {
        reveal(Symbol::wire);
        reveal(Symbol::at);
        lemma_u32_spell_back(bytes, at);
        lemma_u16_spell_back(bytes, at + 6);
        lemma_u64_spell_back(bytes, at + 8);
        lemma_u64_spell_back(bytes, at + 16);
        assert(seq![bytes[at + 4], bytes[at + 5]] == bytes.subrange(at + 4, at + 6));
        lemma_adjacent(bytes, at, at + 4, at + 6);
        lemma_adjacent(bytes, at, at + 6, at + 8);
        lemma_adjacent(bytes, at, at + 8, at + 16);
        lemma_adjacent(bytes, at, at + 16, at + 24);
    }

    /// An entry that was written is read as it was, whatever follows it.
    pub proof fn lemma_read_of_wire(self, rest: Seq<u8>)
        ensures
            Symbol::at(self.wire() + rest, 0) == self,
    {
        reveal(Symbol::wire);
        reveal(Symbol::at);
        let h0 = Seq::<u8>::empty() + u32_le(self.name);
        let h1 = h0 + seq![self.info, self.other];
        let h2 = h1 + u16_le(self.relative_to_section);
        let h3 = h2 + u64_le(self.value);
        // From the last field to the first: each step reads one field where
        // the fields before it end, and counts it to what follows from then on.
        let all = self.wire() + rest;
        lemma_lengths();
        assert(self.wire() == h3 + u64_le(self.size)) by {
            assert(Seq::<u8>::empty() + u32_le(self.name) == u32_le(self.name));
        }
        lemma_u64_read_at(all, h3, self.size, rest);
        let t4 = u64_le(self.size) + rest;
        lemma_u64_read_at(all, h2, self.value, t4);
        let t3 = u64_le(self.value) + t4;
        lemma_u16_read_at(all, h1, self.relative_to_section, t3);
        let t2 = u16_le(self.relative_to_section) + t3;
        assert(all[4] == self.info && all[5] == self.other);
        assert(all == Seq::<u8>::empty() + u32_le(self.name) + (seq![self.info, self.other] + t2));
        lemma_u32_read_at(all, Seq::empty(), self.name, seq![self.info, self.other] + t2);
    }

    /// Reads the entry at `at`.
    pub fn read(bytes: &[u8], at: usize) -> (entry: Symbol)
        requires
            at + SYMBOL_SIZE <= bytes.len(),
        ensures
            entry == Symbol::at(bytes@, at as int),
    {
        proof {
            reveal(Symbol::at);
        }
        Symbol {
            name: read_u32(bytes, at),
            info: bytes[at + 4],
            other: bytes[at + 5],
            relative_to_section: read_u16(bytes, at + 6),
            value: read_u64(bytes, at + 8),
            size: read_u64(bytes, at + 16),
        }
    }

    /// Appends the byte image of the entry.
    pub fn write(&self, out: &mut Vec<u8>)
        ensures
            final(out)@ == old(out)@ + self.wire(),
    {
        proof {
            reveal(Symbol::wire);
        }
        write_u32(out, self.name);
        out.push(self.info);
        out.push(self.other);
        write_u16(out, self.relative_to_section);
        write_u64(out, self.value);
        write_u64(out, self.size);
        assert(out@ == old(out)@ + self.wire());
    }
}

impl Default for Symbol {
    fn default() -> (entry: Symbol)
        ensures
            entry == Symbol::zero(),
    {
        Symbol { name: 0, info: 0, other: 0, relative_to_section: 0, value: 0, size: 0 }
    }
}

//  Executable, segment-based view
// ================================

/// What a segment is for. A code that has no name here is kept as it is, in
/// [`SegmentType::Unknown`].
#[derive(Clone, Copy, Debug, PartialEq, Eq, Structural)]
pub enum SegmentType {
    Null,
    Loadable,
    DynamicLinkInfo,
    InterpreterInfo,
    AuxiliaryInfo,
    Reserved,
    ProgramHeaderTableSegment,
    ThreadLocalStorageTemplate,
    GnuEHFrame,
    GnuStack,
    GnuRelRO,
    GnuProperty,
    Unknown(u32),
}

impl SegmentType {
    /// The number that stands for the type in a file.
    pub open spec fn code(self) -> u32 {
        match self {
            SegmentType::Null => 0x0,
            SegmentType::Loadable => 0x1,
            SegmentType::DynamicLinkInfo => 0x2,
            SegmentType::InterpreterInfo => 0x3,
            SegmentType::AuxiliaryInfo => 0x4,
            SegmentType::Reserved => 0x5,
            SegmentType::ProgramHeaderTableSegment => 0x6,
            SegmentType::ThreadLocalStorageTemplate => 0x7,
            SegmentType::GnuEHFrame => 0x6474_E550,
            SegmentType::GnuStack => 0x6474_E551,
            SegmentType::GnuRelRO => 0x6474_E552,
            SegmentType::GnuProperty => 0x6474_E553,
            SegmentType::Unknown(raw) => raw,
        }
    }

    /// The type that a number stands for.
    pub open spec fn of_code(raw: u32) -> SegmentType {
        if raw == 0x0 {
            SegmentType::Null
        } else if raw == 0x1 {
            SegmentType::Loadable
        } else if raw == 0x2 {
            SegmentType::DynamicLinkInfo
        } else if raw == 0x3 {
            SegmentType::InterpreterInfo
        } else if raw == 0x4 {
            SegmentType::AuxiliaryInfo
        } else if raw == 0x5 {
            SegmentType::Reserved
        } else if raw == 0x6 {
            SegmentType::ProgramHeaderTableSegment
        } else if raw == 0x7 {
            SegmentType::ThreadLocalStorageTemplate
        } else if raw == 0x6474_E550 {
            SegmentType::GnuEHFrame
        } else if raw == 0x6474_E551 {
            SegmentType::GnuStack
        } else if raw == 0x6474_E552 {
            SegmentType::GnuRelRO
        } else if raw == 0x6474_E553 {
            SegmentType::GnuProperty
        } else {
            SegmentType::Unknown(raw)
        }
    }

    /// Whether the value is the one that its own number is read as.
    pub open spec fn canonical(self) -> bool {
        SegmentType::of_code(self.code()) == self
    }

    /// Every number survives the way through a `SegmentType` unchanged, and
    /// what a number is read as is canonical.
    pub proof fn lemma_code_kept(raw: u32)
        ensures
            SegmentType::of_code(raw).code() == raw,
            SegmentType::of_code(raw).canonical(),
    {
    }

    /// The number that stands for the type in a file.
    pub fn raw(self) -> (raw: u32)
        ensures
            raw == self.code(),
    {
        match self {
            SegmentType::Null => 0x0,
            SegmentType::Loadable => 0x1,
            SegmentType::DynamicLinkInfo => 0x2,
            SegmentType::InterpreterInfo => 0x3,
            SegmentType::AuxiliaryInfo => 0x4,
            SegmentType::Reserved => 0x5,
            SegmentType::ProgramHeaderTableSegment => 0x6,
            SegmentType::ThreadLocalStorageTemplate => 0x7,
            SegmentType::GnuEHFrame => 0x6474_E550,
            SegmentType::GnuStack => 0x6474_E551,
            SegmentType::GnuRelRO => 0x6474_E552,
            SegmentType::GnuProperty => 0x6474_E553,
            SegmentType::Unknown(raw) => raw,
        }
    }

    /// The type that a number stands for.
    pub fn from_raw(raw: u32) -> (segment_type: SegmentType)
        ensures
            segment_type == SegmentType::of_code(raw),
    {
        match raw {
            0x0 => SegmentType::Null,
            0x1 => SegmentType::Loadable,
            0x2 => SegmentType::DynamicLinkInfo,
            0x3 => SegmentType::InterpreterInfo,
            0x4 => SegmentType::AuxiliaryInfo,
            0x5 => SegmentType::Reserved,
            0x6 => SegmentType::ProgramHeaderTableSegment,
            0x7 => SegmentType::ThreadLocalStorageTemplate,
            0x6474_E550 => SegmentType::GnuEHFrame,
            0x6474_E551 => SegmentType::GnuStack,
            0x6474_E552 => SegmentType::GnuRelRO,
            0x6474_E553 => SegmentType::GnuProperty,
            _ => SegmentType::Unknown(raw),
        }
    }
}

impl Default for SegmentType {
    fn default() -> (segment_type: SegmentType)
        ensures
            segment_type == SegmentType::Null,
    {
        SegmentType::Null
    }
}

/// The access bits of a segment. Two flags are joined with `|`, which gives
/// the number that holds the bits of both.
#[derive(Clone, Copy, Debug)]
pub enum SegmentFlags {
    Null,
    Execute,
    Write,
    Read,
}

impl SegmentFlags {
    /// The bit that stands for the flag.
    pub open spec fn bits(self) -> u32 {
        match self {
            SegmentFlags::Null => 0x0,
            SegmentFlags::Execute => 0x1,
            SegmentFlags::Write => 0x2,
            SegmentFlags::Read => 0x4,
        }
    }

    /// The bit that stands for the flag.
    pub fn raw(self) -> (raw: u32)
        ensures
            raw == self.bits(),
    {
        match self {
            SegmentFlags::Null => 0x0,
            SegmentFlags::Execute => 0x1,
            SegmentFlags::Write => 0x2,
            SegmentFlags::Read => 0x4,
        }
    }
}

impl core::ops::BitOr for SegmentFlags {
    type Output = u32;

    fn bitor(self, rhs: SegmentFlags) -> (both: u32) {
        self.raw() | rhs.raw()
    }
}

impl vstd::std_specs::ops::BitOrSpecImpl for SegmentFlags {
    open spec fn obeys_bitor_spec() -> bool {
        true
    }

    open spec fn bitor_req(self, rhs: SegmentFlags) -> bool {
        true
    }

    open spec fn bitor_spec(self, rhs: SegmentFlags) -> u32 {
        self.bits() | rhs.bits()
    }
}

/// One entry of the program-header table: a segment that the loader maps.
#[derive(Clone, Copy, Debug, PartialEq, Eq, Structural)]
pub struct ProgramHeader {
    pub segment_type: SegmentType,
    pub flags: Word,
    pub offset: FileOffset,
    pub virtual_address: Address,
    pub physical_address: Address,
    pub size_in_file: XWord,
    pub size_in_memory: XWord,
    pub required_alignment: Address,
}

impl ProgramHeader {
    /// The byte image of the header.
    #[verifier::opaque]
    pub open spec fn wire(self) -> Seq<u8> {
        u32_le(self.segment_type.code()) + u32_le(self.flags) + u64_le(self.offset) + u64_le(
            self.virtual_address,
        ) + u64_le(self.physical_address) + u64_le(self.size_in_file) + u64_le(
            self.size_in_memory,
        ) + u64_le(self.required_alignment)
    }

    /// The header that the bytes from `at` on hold.
    #[verifier::opaque]
    pub open spec fn at(bytes: Seq<u8>, at: int) -> ProgramHeader {
        ProgramHeader {
            segment_type: SegmentType::of_code(le_u32(bytes, at)),
            flags: le_u32(bytes, at + 4),
            offset: le_u64(bytes, at + 8),
            virtual_address: le_u64(bytes, at + 16),
            physical_address: le_u64(bytes, at + 24),
            size_in_file: le_u64(bytes, at + 32),
            size_in_memory: le_u64(bytes, at + 40),
            required_alignment: le_u64(bytes, at + 48),
        }
    }

    /// The image of a header takes [`PROGRAM_HEADER_SIZE`] bytes.
    pub proof fn lemma_wire_len(self)
        ensures
            self.wire().len() == PROGRAM_HEADER_SIZE,
    {
        reveal(ProgramHeader::wire);
        lemma_lengths();
    }

    /// A header that was written is read as it was, whatever follows it,
    /// where its type is canonical.
    pub proof fn lemma_read_of_wire(self, rest: Seq<u8>)
        requires
            self.segment_type.canonical(),
        ensures
            ProgramHeader::at(self.wire() + rest, 0) == self,
    {
        reveal(ProgramHeader::wire);
        reveal(ProgramHeader::at);
        let h0 = Seq::<u8>::empty();
        let h1 = h0 + u32_le(self.segment_type.code());
        let h2 = h1 + u32_le(self.flags);
        let h3 = h2 + u64_le(self.offset);
        let h4 = h3 + u64_le(self.virtual_address);
        let h5 = h4 + u64_le(self.physical_address);
        let h6 = h5 + u64_le(self.size_in_file);
        let h7 = h6 + u64_le(self.size_in_memory);
        let h8 = h7 + u64_le(self.required_alignment);
        // From the last field to the first: each step reads one field where
        // the fields before it end, and counts it to what follows from then on.
        let all = self.wire() + rest;
        lemma_lengths();
        assert(h1 == u32_le(self.segment_type.code()));
        let t8 = rest;
        lemma_u64_read_at(all, h7, self.required_alignment, t8);
        let t7 = u64_le(self.required_alignment) + t8;
        lemma_u64_read_at(all, h6, self.size_in_memory, t7);
        let t6 = u64_le(self.size_in_memory) + t7;
        lemma_u64_read_at(all, h5, self.size_in_file, t6);
        let t5 = u64_le(self.size_in_file) + t6;
        lemma_u64_read_at(all, h4, self.physical_address, t5);
        let t4 = u64_le(self.physical_address) + t5;
        lemma_u64_read_at(all, h3, self.virtual_address, t4);
        let t3 = u64_le(self.virtual_address) + t4;
        lemma_u64_read_at(all, h2, self.offset, t3);
        let t2 = u64_le(self.offset) + t3;
        lemma_u32_read_at(all, h1, self.flags, t2);
        let t1 = u32_le(self.flags) + t2;
        lemma_u32_read_at(all, h0, self.segment_type.code(), t1);
    }

    /// A header is read from its own 56 bytes and from nothing else.
    pub proof fn lemma_at_window(bytes: Seq<u8>, at: int)
        requires
            0 <= at,
            at + PROGRAM_HEADER_SIZE <= bytes.len(),
        ensures
            ProgramHeader::at(bytes, at) == ProgramHeader::at(bytes.subrange(at, at + 56), 0),
    {
        reveal(ProgramHeader::at);
        lemma_u32_in_piece(bytes, at, at + 56, 0);
        lemma_u32_in_piece(bytes, at, at + 56, 4);
        lemma_u64_in_piece(bytes, at, at + 56, 8);
        lemma_u64_in_piece(bytes, at, at + 56, 16);
        lemma_u64_in_piece(bytes, at, at + 56, 24);
        lemma_u64_in_piece(bytes, at, at + 56, 32);
        lemma_u64_in_piece(bytes, at, at + 56, 40);
        lemma_u64_in_piece(bytes, at, at + 56, 48);
    }

    /// Where the image of a header lies in a buffer, the header is read,
    /// where its type is canonical.
    pub proof fn lemma_read_where_written(self, bytes: Seq<u8>, at: int)
        requires
            self.segment_type.canonical(),
            0 <= at,
            at + PROGRAM_HEADER_SIZE <= bytes.len(),
            bytes.subrange(at, at + 56) == self.wire(),
        ensures
            ProgramHeader::at(bytes, at) == self,
    {
        ProgramHeader::lemma_at_window(bytes, at);
        self.lemma_read_of_wire(Seq::empty());
        assert(self.wire() + Seq::<u8>::empty() == self.wire());
    }

    /// Reads the header at `at`.
    pub fn read(bytes: &[u8], at: usize) -> (header: ProgramHeader)
        requires
            at + PROGRAM_HEADER_SIZE <= bytes.len(),
        ensures
            header == ProgramHeader::at(bytes@, at as int),
    {
        proof {
            reveal(ProgramHeader::at);
        }
        ProgramHeader {
            segment_type: SegmentType::from_raw(read_u32(bytes, at)),
            flags: read_u32(bytes, at + 4),
            offset: read_u64(bytes, at + 8),
            virtual_address: read_u64(bytes, at + 16),
            physical_address: read_u64(bytes, at + 24),
            size_in_file: read_u64(bytes, at + 32),
            size_in_memory: read_u64(bytes, at + 40),
            required_alignment: read_u64(bytes, at + 48),
        }
    }

    /// Appends the byte image of the header.
    pub fn write(&self, out: &mut Vec<u8>)
        ensures
            final(out)@ == old(out)@ + self.wire(),
    {
        proof {
            reveal(ProgramHeader::wire);
        }
        write_u32(out, self.segment_type.raw());
        write_u32(out, self.flags);
        write_u64(out, self.offset);
        write_u64(out, self.virtual_address);
        write_u64(out, self.physical_address);
        write_u64(out, self.size_in_file);
        write_u64(out, self.size_in_memory);
        write_u64(out, self.required_alignment);
        assert(out@ == old(out)@ + self.wire());
    }
}

impl Default for ProgramHeader {
    fn default() -> (header: ProgramHeader)
        ensures
            header == (ProgramHeader {
                segment_type: SegmentType::Null,
                flags: 0,
                offset: 0,
                virtual_address: 0,
                physical_address: 0,
                size_in_file: 0,
                size_in_memory: 0,
                required_alignment: 0,
            }),
    {
        ProgramHeader {
            segment_type: SegmentType::Null,
            flags: 0,
            offset: 0,
            virtual_address: 0,
            physical_address: 0,
            size_in_file: 0,
            size_in_memory: 0,
            required_alignment: 0,
        }
    }
}

} // verus!
