//! The shape of the executable: where its parts lie and what its headers say.
//!
//! The linker knows how many segments and sections it writes, which lets it
//! lay out the file and build every header in one go. There are two
//! segments, one for the file header with the program-header table and one
//! for the text, and three sections: the null section, `.text` and
//! `.shstrtab`.

use crate::elf::file::{
    elf_magic, FileHeader, Identification, ProgramHeader, SectionFlags, SectionHeader,
    SectionType, SegmentFlags, SegmentType, FILE_HEADER_SIZE, PROGRAM_HEADER_SIZE,
    SECTION_HEADER_SIZE,
};
use crate::elf::logical::{Executable, ExecutableView};
use crate::elf::string_table::{lemma_append_keeps, storable, string_at};
use vstd::prelude::*;
use vstd::utf8::{encode_utf8, is_ascii_chars, is_ascii_chars_encode_utf8};

verus! {

/// The size of a page of memory. The text starts on a page boundary of the
/// file, so that the loader can map it as it lies.
pub const PAGE_SIZE: usize = 4096;

/// The address at which the file header and the program headers are loaded.
pub const HEADERS_ADDRESS: u64 = 0x400000;

/// The address at which the text is loaded.
pub const TEXT_ADDRESS: u64 = 0x401000;

/// The address that the `.text` section header gives.
pub const TEXT_SECTION_ADDRESS: u64 = 0x400100;

/// How many program headers the linker writes.
pub const NUM_PROGRAM_HEADERS: u16 = 2;

/// How many section headers the linker writes.
pub const NUM_SECTION_HEADERS: u16 = 3;

//  Padding
// =========

/// The number of zero bytes between the program-header table and the text,
/// for a table of `num_program_headers` entries.
pub open spec fn pre_text_pad(num_program_headers: int) -> int {
    let unpadded_text_offset = 64 + 56 * num_program_headers;
    if unpadded_text_offset < 4096 {
        4096 - unpadded_text_offset
    } else {
        unpadded_text_offset % 4096
    }
}

/// The number of zero bytes to put between the program-header table and the
/// text. Where the headers end within the first page, the text starts at the
/// second page.
pub fn get_pre_text_pad(num_program_headers: usize) -> (pad: usize)
    requires
        64 + 56 * num_program_headers <= usize::MAX,
    ensures
        pad == pre_text_pad(num_program_headers as int),
        num_program_headers <= 72 ==> (64 + 56 * num_program_headers + pad) % 4096 == 0,
{
    let unpadded_text_offset: usize = FILE_HEADER_SIZE + num_program_headers
        * PROGRAM_HEADER_SIZE;
    if unpadded_text_offset < PAGE_SIZE {
        PAGE_SIZE - unpadded_text_offset
    } else {
        unpadded_text_offset % PAGE_SIZE
    }
}

//  File header
// =============

/// The file header of an executable with the given numbers of program and
/// section headers, whose entry point lies `entrypoint_offset` bytes into the
/// text. The file holds `pad` zero bytes before the text, `text_len` bytes of
/// text and `names_len` bytes of section names; the section-header table
/// comes last, after the section-name string table, which is the last
/// section.
pub open spec fn header_for(
    program_header_entry_count: u16,
    section_header_entry_count: u16,
    entrypoint_offset: u64,
    pad: nat,
    text_len: nat,
    names_len: nat,
) -> FileHeader {
    FileHeader {
        identification: Identification {
            magic: elf_magic(),
            format_class: 2,
            endianness: 1,
            format_version: 1,
            os_abi: 0,
            pad: [0u8, 0u8, 0u8, 0u8, 0u8, 0u8, 0u8, 0u8],
        },
        object_file_type: 2,
        machine_type: 0x3e,
        object_file_version: 1,
        entrypoint: (entrypoint_offset + TEXT_ADDRESS) as u64,
        program_header_offset: 64,
        section_header_offset: (64 + 56 * program_header_entry_count + pad + text_len
            + names_len) as u64,
        processor_specific_flags: 0x102,
        file_header_size: 64,
        program_headers_total_size: 56,
        program_header_entry_count,
        section_headers_total_size: 64,
        section_header_entry_count,
        sh_section_name_stringtab_entry_index: (section_header_entry_count - 1) as u16,
    }
}

/// Builds the file header. The text, the padding before it and the
/// section-name string table of `e` must be what they will be in the file.
pub fn build_header(
    e: &Executable,
    program_header_entry_count: u16,
    section_header_entry_count: u16,
    entrypoint_offset_from_text_start: u64,
) -> (hdr: FileHeader)
    requires
        section_header_entry_count >= 1,
        entrypoint_offset_from_text_start + TEXT_ADDRESS <= u64::MAX,
        64 + 56 * program_header_entry_count + e@.pre_text_pad + e@.text_section.len()
            + e@.shstrtab.len() <= u64::MAX,
    ensures
        hdr == header_for(
            program_header_entry_count,
            section_header_entry_count,
            entrypoint_offset_from_text_start,
            e@.pre_text_pad,
            e@.text_section.len(),
            e@.shstrtab.len(),
        ),
{
    FileHeader {
        identification: Identification {
            magic: [0x7f, 0x45, 0x4c, 0x46],
            format_class: 2,  // 64-bit
            endianness: 1,  // little-endian
            format_version: 1,  // the current version of the format
            os_abi: 0,  // System V
            pad: [0, 0, 0, 0, 0, 0, 0, 0],
        },
        object_file_type: 0x02,  // an executable
        machine_type: 0x3e,  // AMD x86-64
        object_file_version: 1,  // the current version of the format
        entrypoint: entrypoint_offset_from_text_start + TEXT_ADDRESS,
        program_header_offset: FILE_HEADER_SIZE as u64,
        section_header_offset: FILE_HEADER_SIZE as u64 + (program_header_entry_count as u64) * (
        PROGRAM_HEADER_SIZE as u64) + e.pre_text_pad as u64 + e.text_section.len() as u64
            + e.shstrtab.len() as u64,
        processor_specific_flags: 0x00000102,
        file_header_size: FILE_HEADER_SIZE as u16,
        program_headers_total_size: PROGRAM_HEADER_SIZE as u16,
        program_header_entry_count,
        section_headers_total_size: SECTION_HEADER_SIZE as u16,
        section_header_entry_count,
        sh_section_name_stringtab_entry_index: section_header_entry_count - 1,  // always last
    }
}

//  Program headers
// =================

/// The two segments of an executable whose program-header table has
/// `program_header_entry_count` entries and whose text of `text_len` bytes
/// comes after `pad` zero bytes. The first segment holds the file header and
/// the program-header table and is read-only; the second holds the text and
/// can be read and executed.
pub open spec fn program_headers_for(program_header_entry_count: u16, pad: nat, text_len: nat) -> Seq<
    ProgramHeader,
> {
    seq![
        ProgramHeader {
            segment_type: SegmentType::Loadable,
            flags: SegmentFlags::Read.bits(),
            offset: 0,
            virtual_address: HEADERS_ADDRESS,
            physical_address: 0,
            size_in_file: 176,
            size_in_memory: 176,
            required_alignment: 0x1000,
        },
        ProgramHeader {
            segment_type: SegmentType::Loadable,
            flags: SegmentFlags::Read.bits() | SegmentFlags::Execute.bits(),
            offset: (64 + 56 * program_header_entry_count + pad) as u64,
            virtual_address: TEXT_ADDRESS,
            physical_address: TEXT_ADDRESS,
            size_in_file: text_len as u64,
            size_in_memory: text_len as u64,
            required_alignment: 0x1000,
        },
    ]
}

/// Builds the program-header table. The text and the padding before it must
/// be what they will be in the file, and the file header must count two
/// program headers.
pub fn build_pht(e: &Executable) -> (headers: Vec<ProgramHeader>)
    requires
        e@.file_header.program_header_entry_count == 2,
        176 + e@.pre_text_pad <= u64::MAX,
    ensures
        headers@ == program_headers_for(
            e@.file_header.program_header_entry_count,
            e@.pre_text_pad,
            e@.text_section.len(),
        ),
{
    // The ELF header and program headers comprise a segment
    let size: u64 = (FILE_HEADER_SIZE + PROGRAM_HEADER_SIZE * 2) as u64;
    let phdr0 = ProgramHeader {
        segment_type: SegmentType::Loadable,
        flags: SegmentFlags::Read.raw(),
        offset: 0,
        virtual_address: HEADERS_ADDRESS,
        physical_address: 0,
        size_in_file: size,
        size_in_memory: size,
        required_alignment: 0x1000,
    };
    let text_size: u64 = e.text_section.len() as u64;
    let phdr = ProgramHeader {
        segment_type: SegmentType::Loadable,
        flags: SegmentFlags::Read | SegmentFlags::Execute,
        offset: FILE_HEADER_SIZE as u64 + (PROGRAM_HEADER_SIZE as u64) * (
        e.file_header.program_header_entry_count as u64) + e.pre_text_pad as u64,
        virtual_address: TEXT_ADDRESS,
        physical_address: TEXT_ADDRESS,
        size_in_file: text_size,
        size_in_memory: text_size,
        required_alignment: 0x1000,
    };
    let mut headers: Vec<ProgramHeader> = Vec::new();
    headers.push(phdr0);
    headers.push(phdr);
    assert(headers@ =~= program_headers_for(
        e@.file_header.program_header_entry_count,
        e@.pre_text_pad,
        e@.text_section.len(),
    ));
    headers
}

//  Section headers
// =================

/// The bytes that a name takes in a string table: its characters and the
/// zero byte that ends it.
pub open spec fn entry_of(name: Seq<char>) -> Seq<u8> {
    encode_utf8(name) + seq![0u8]
}

/// A string table after the names of the two sections were put into it:
/// `.text` first, then `.shstrtab`.
pub open spec fn with_section_names(table: Seq<u8>) -> Seq<u8> {
    table + entry_of(".text"@) + entry_of(".shstrtab"@)
}

/// The flags that the three sections carry: allocated and executable.
pub open spec fn section_flags() -> u64 {
    SectionFlags::Alloc.bits() | SectionFlags::Executable.bits()
}

/// What the two names and the flags come to, spelled out.
pub proof fn lemma_section_names()
    ensures
        entry_of(".text"@) == seq![0x2eu8, 0x74u8, 0x65u8, 0x78u8, 0x74u8, 0u8],
        entry_of(".shstrtab"@) == seq![
            0x2eu8,
            0x73u8,
            0x68u8,
            0x73u8,
            0x74u8,
            0x72u8,
            0x74u8,
            0x61u8,
            0x62u8,
            0u8,
        ],
        storable(".text"@),
        storable(".shstrtab"@),
        section_flags() == 6,
        SegmentFlags::Read.bits() | SegmentFlags::Execute.bits() == 5,
{
    reveal_strlit(".text");
    reveal_strlit(".shstrtab");
    assert(is_ascii_chars(".text"@));
    assert(is_ascii_chars(".shstrtab"@));
    is_ascii_chars_encode_utf8(".text"@);
    is_ascii_chars_encode_utf8(".shstrtab"@);
    assert(entry_of(".text"@) =~= seq![0x2eu8, 0x74u8, 0x65u8, 0x78u8, 0x74u8, 0u8]);
    assert(entry_of(".shstrtab"@) =~= seq![
        0x2eu8,
        0x73u8,
        0x68u8,
        0x73u8,
        0x74u8,
        0x72u8,
        0x74u8,
        0x61u8,
        0x62u8,
        0u8,
    ]);
    assert(2u64 | 4u64 == 6u64) by (bit_vector);
    assert(4u32 | 1u32 == 5u32) by (bit_vector);
}

/// The three section headers of an executable: the null section, `.text`
/// and `.shstrtab`. The program-header table has
/// `program_header_entry_count` entries, the text of `text_len` bytes comes
/// after `pad` zero bytes, and the section-name string table held
/// `names_len` bytes before the two names were put at its end. Each name
/// offset is where the name starts in the table, and the size of `.shstrtab`
/// is the size of the table with both names in it.
pub open spec fn section_headers_for(
    program_header_entry_count: u16,
    pad: nat,
    text_len: nat,
    names_len: nat,
) -> Seq<SectionHeader> {
    let text_offset = 64 + 56 * program_header_entry_count + pad;
    seq![
        SectionHeader {
            name: 0,
            section_type: SectionType::Null,
            flags: section_flags(),
            virtual_address: 0,
            offset: 0,
            size: 0,
            link_to_other_section: 0,
            misc_info: 0,
            address_allignment_boundary: 0,
            entry_size: 0,
        },
        SectionHeader {
            name: names_len as u32,
            section_type: SectionType::ProgramData,
            flags: section_flags(),
            virtual_address: TEXT_SECTION_ADDRESS,
            offset: text_offset as u64,
            size: text_len as u64,
            link_to_other_section: 0,
            misc_info: 0,
            address_allignment_boundary: 1,
            entry_size: 0,
        },
        SectionHeader {
            name: (names_len + 6) as u32,
            section_type: SectionType::StringTable,
            flags: section_flags(),
            virtual_address: 0,
            offset: (text_offset + text_len) as u64,
            size: (names_len + 16) as u64,
            link_to_other_section: 0,
            misc_info: 0,
            address_allignment_boundary: 1,
            entry_size: 0,
        },
    ]
}

/// Builds the section-header table, and puts the names of the sections into
/// the section-name string table of `e`. The text and the padding before it
/// must be what they will be in the file, and the file header must count
/// three section headers.
pub fn build_sht(e: &mut Executable) -> (headers: Vec<SectionHeader>)
    requires
        old(e)@.file_header.section_header_entry_count == 3,
        old(e)@.shstrtab.len() + 16 <= u32::MAX,
        64 + 56 * old(e)@.file_header.program_header_entry_count + old(e)@.pre_text_pad + old(
            e,
        )@.text_section.len() <= u64::MAX,
    ensures
        headers@ == section_headers_for(
            old(e)@.file_header.program_header_entry_count,
            old(e)@.pre_text_pad,
            old(e)@.text_section.len(),
            old(e)@.shstrtab.len(),
        ),
        final(e)@ == (ExecutableView {
            shstrtab: with_section_names(old(e)@.shstrtab),
            ..old(e)@
        }),
        string_at(final(e)@.shstrtab, headers@[1].name as int) == Some(".text"@),
        string_at(final(e)@.shstrtab, headers@[2].name as int) == Some(".shstrtab"@),
{
    proof {
        lemma_section_names();
    }
    let count: u16 = e.file_header.program_header_entry_count;
    let pad: usize = e.pre_text_pad;
    assert(count == old(e)@.file_header.program_header_entry_count);
    assert(pad == old(e)@.pre_text_pad);
    let text_offset: u64 = FILE_HEADER_SIZE as u64 + (count as u64) * (PROGRAM_HEADER_SIZE as u64)
        + pad as u64;
    let text_size: u64 = e.text_section.len() as u64;
    let text_name: usize = e.shstrtab.insert(".text");
    let ghost with_text = e.shstrtab@;
    let sh_text = SectionHeader {
        name: text_name as u32,
        section_type: SectionType::ProgramData,
        flags: SectionFlags::Alloc | SectionFlags::Executable,
        virtual_address: TEXT_SECTION_ADDRESS,
        offset: text_offset,
        size: text_size,
        link_to_other_section: 0,
        misc_info: 0,
        address_allignment_boundary: 1,
        entry_size: 0,
    };
    let names_name: usize = e.shstrtab.insert(".shstrtab");
    proof {
        lemma_append_keeps(with_text, entry_of(".shstrtab"@), text_name as int);
        assert(e.shstrtab@ == with_text + entry_of(".shstrtab"@));
        assert(e.shstrtab@ == with_section_names(old(e)@.shstrtab));
    }
    let sh_shstrtab = SectionHeader {
        name: names_name as u32,
        section_type: SectionType::StringTable,
        flags: SectionFlags::Alloc | SectionFlags::Executable,
        virtual_address: 0,
        offset: sh_text.offset + sh_text.size,
        size: e.shstrtab.len() as u64,
        link_to_other_section: 0,
        misc_info: 0,
        address_allignment_boundary: 1,
        entry_size: 0,
    };
    let sh0 = SectionHeader {
        name: 0,
        section_type: SectionType::Null,
        flags: SectionFlags::Alloc | SectionFlags::Executable,
        virtual_address: 0,
        offset: 0,
        size: 0,
        link_to_other_section: 0,
        misc_info: 0,
        address_allignment_boundary: 0,
        entry_size: 0,
    };
    let mut headers: Vec<SectionHeader> = Vec::new();
    headers.push(sh0);
    headers.push(sh_text);
    headers.push(sh_shstrtab);
    assert(headers@ =~= section_headers_for(
        old(e)@.file_header.program_header_entry_count,
        old(e)@.pre_text_pad,
        old(e)@.text_section.len(),
        old(e)@.shstrtab.len(),
    ));
    headers
}

} // verus!
