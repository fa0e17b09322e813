use weld::elf::file::{
    FileHeader, Identification, ProgramHeader, RelocationWithAddend, SectionFlags, SectionHeader,
    SectionType, SegmentFlags, SegmentType, Symbol, FILE_HEADER_SIZE, PROGRAM_HEADER_SIZE,
    RELOCATION_SIZE, SECTION_HEADER_SIZE, SYMBOL_SIZE,
};
use weld::elf::logical::{Relocation, RelocationType, SymbolInfo};
use weld::elf::wire::{
    i32_bytes, read_i64, read_u16, read_u32, read_u64, write_bytes, write_i64, write_u16,
    write_u32, write_u64,
};

#[test]
fn record_sizes() {
    assert_eq!(FILE_HEADER_SIZE, 64);
    assert_eq!(SECTION_HEADER_SIZE, 64);
    assert_eq!(PROGRAM_HEADER_SIZE, 56);
    assert_eq!(SYMBOL_SIZE, 24);
    assert_eq!(RELOCATION_SIZE, 24);
}

#[test]
fn integers_are_read_least_significant_byte_first() {
    let bytes = [0xff, 0x01, 0x02, 0x03, 0x04, 0x05, 0x06, 0x07, 0x88];
    assert_eq!(read_u16(&bytes, 1), 0x0201);
    assert_eq!(read_u32(&bytes, 1), 0x0403_0201);
    assert_eq!(read_u64(&bytes, 1), 0x8807_0605_0403_0201);
    assert_eq!(read_i64(&bytes, 1), 0x8807_0605_0403_0201u64 as i64);
    assert_eq!(read_i64(&bytes, 0), 0x0706_0504_0302_01ff);
    assert_eq!(read_i64(&[0xfc, 0xff, 0xff, 0xff, 0xff, 0xff, 0xff, 0xff], 0), -4);
    assert_eq!(read_i64(&[0, 0, 0, 0, 0, 0, 0, 0x80], 0), i64::MIN);
    assert_eq!(read_u64(&[0xff; 8], 0), u64::MAX);
}

#[test]
fn integers_are_written_least_significant_byte_first() {
    let mut out = vec![0xaa];
    write_u16(&mut out, 0x0201);
    write_u32(&mut out, 0x0605_0403);
    write_u64(&mut out, 0x0e0d_0c0b_0a09_0807);
    write_i64(&mut out, -4);
    write_i64(&mut out, i64::MIN);
    write_i64(&mut out, 5);
    write_bytes(&mut out, &[0xbb, 0xcc]);
    let mut expected = vec![0xaa, 1, 2, 3, 4, 5, 6, 7, 8, 9, 10, 11, 12, 13, 14];
    expected.extend_from_slice(&(-4i64).to_le_bytes());
    expected.extend_from_slice(&i64::MIN.to_le_bytes());
    expected.extend_from_slice(&5i64.to_le_bytes());
    expected.extend_from_slice(&[0xbb, 0xcc]);
    assert_eq!(out, expected);
}

#[test]
fn signed_displacements_in_twos_complement() {
    assert_eq!(i32_bytes(1), [1, 0, 0, 0]);
    assert_eq!(i32_bytes(-1), [0xff; 4]);
    assert_eq!(i32_bytes(-13), (-13i32).to_le_bytes());
    assert_eq!(i32_bytes(i32::MIN), [0, 0, 0, 0x80]);
    assert_eq!(i32_bytes(i32::MAX), [0xff, 0xff, 0xff, 0x7f]);
    assert_eq!(i32_bytes(0x1234_5678), [0x78, 0x56, 0x34, 0x12]);
}

#[test]
fn section_type_codes() {
    let named = [
        (SectionType::Null, 0x0),
        (SectionType::ProgramData, 0x1),
        (SectionType::SymbolTable, 0x2),
        (SectionType::StringTable, 0x3),
        (SectionType::RelocationWithAddend, 0x4),
        (SectionType::SymbolHashTable, 0x5),
        (SectionType::DynamicLinkingInfo, 0x6),
        (SectionType::Notes, 0x7),
        (SectionType::ProgramSpaceWithNoData, 0x8),
        (SectionType::RelocationWithoutAddend, 0x9),
        (SectionType::Reserved, 0x0a),
        (SectionType::DynamicLinkerSymbolTable, 0x0b),
        (SectionType::ArrayOfConstructors, 0x0e),
        (SectionType::ArrayOfDestructors, 0x0f),
        (SectionType::ArrayOfPreConstructors, 0x10),
        (SectionType::SectionGroup, 0x11),
        (SectionType::ExtendedSectionIndices, 0x12),
        (SectionType::NumberOfDefinedTypes, 0x13),
    ];
    for (section_type, code) in named {
        assert_eq!(section_type.raw(), code);
        assert_eq!(SectionType::from_raw(code), section_type);
    }
    assert_eq!(SectionType::default(), SectionType::Null);
}

#[test]
fn unknown_section_type_keeps_its_code() {
    for code in [0x0c, 0x0d, 0x14, 0x6fff_fff6, 0x7000_0001, u32::MAX] {
        assert_eq!(SectionType::from_raw(code), SectionType::Unknown(code));
        assert_eq!(SectionType::from_raw(code).raw(), code);
    }
}

#[test]
fn segment_type_codes() {
    let named = [
        (SegmentType::Null, 0x0),
        (SegmentType::Loadable, 0x1),
        (SegmentType::DynamicLinkInfo, 0x2),
        (SegmentType::InterpreterInfo, 0x3),
        (SegmentType::AuxiliaryInfo, 0x4),
        (SegmentType::Reserved, 0x5),
        (SegmentType::ProgramHeaderTableSegment, 0x6),
        (SegmentType::ThreadLocalStorageTemplate, 0x7),
        (SegmentType::GnuEHFrame, 1685382480),
        (SegmentType::GnuStack, 1685382481),
        (SegmentType::GnuRelRO, 1685382482),
        (SegmentType::GnuProperty, 1685382483),
    ];
    for (segment_type, code) in named {
        assert_eq!(segment_type.raw(), code);
        assert_eq!(SegmentType::from_raw(code), segment_type);
    }
    assert_eq!(SegmentType::from_raw(8), SegmentType::Unknown(8));
    assert_eq!(SegmentType::Unknown(0x6474_e554).raw(), 0x6474_e554);
    assert_eq!(SegmentType::default(), SegmentType::Null);
}

#[test]
fn relocation_type_codes() {
    let named = [
        (RelocationType::Null, 0),
        (RelocationType::Abs64, 1),
        (RelocationType::Abs32, 2),
        (RelocationType::Plt32, 4),
        (RelocationType::Copy, 5),
        (RelocationType::GlobalData, 6),
        (RelocationType::JumpSlot, 7),
        (RelocationType::RelativeToReloc, 8),
        (RelocationType::ThreadPtrOffset, 10),
    ];
    for (relocation_type, code) in named {
        assert_eq!(relocation_type.raw(), code);
        assert_eq!(RelocationType::from_raw(code), relocation_type);
    }
    assert_eq!(RelocationType::from_raw(3), RelocationType::Unknown(3));
    assert_eq!(RelocationType::from_raw(9), RelocationType::Unknown(9));
    assert_eq!(RelocationType::from_raw(0xffff_ffff).raw(), 0xffff_ffff);
    assert_eq!(RelocationType::default(), RelocationType::Null);
}

#[test]
fn flags_are_joined_bit_by_bit() {
    assert_eq!(SectionFlags::Alloc | SectionFlags::Executable, 6);
    assert_eq!(SectionFlags::Write | SectionFlags::Alloc, 3);
    assert_eq!(SectionFlags::Null | SectionFlags::Write, 1);
    assert_eq!(SectionFlags::Executable | SectionFlags::Executable, 4);
    assert_eq!(SectionFlags::Executable.raw(), 4);
    assert_eq!(SegmentFlags::Read | SegmentFlags::Execute, 5);
    assert_eq!(SegmentFlags::Read | SegmentFlags::Write, 6);
    assert_eq!(SegmentFlags::Null | SegmentFlags::Null, 0);
    assert_eq!(SegmentFlags::Read.raw(), 4);
    assert_eq!(SegmentFlags::Write.raw(), 2);
    assert_eq!(SegmentFlags::Execute.raw(), 1);
}

#[test]
fn relocation_info_halves() {
    let r = RelocationWithAddend { offset: 1, info: (7 << 32) | 4, addend: -4 };
    assert_eq!(r.symbol(), 7);
    assert_eq!(r.relo_type(), 4);
    let r = RelocationWithAddend { offset: 0, info: u64::MAX, addend: 0 };
    assert_eq!(r.symbol(), 0xffff_ffff);
    assert_eq!(r.relo_type(), 0xffff_ffff);
    let r = RelocationWithAddend::default();
    assert_eq!((r.offset, r.info, r.addend), (0, 0, 0));
}

#[test]
fn logical_relocation_carries_its_symbol() {
    let symbol = Symbol { name: 9, info: 0x12, other: 0, relative_to_section: 0, value: 3, size: 8 };
    let info = SymbolInfo::from(&symbol, "multiply");
    assert_eq!(info.name, "multiply");
    assert_eq!(info.symbol, symbol);
    assert!(!info.is_defined());
    let r = Relocation::from(
        &RelocationWithAddend { offset: 1, info: (1 << 32) | 2, addend: -4 },
        &info,
    );
    assert_eq!((r.offset, r.info, r.addend), (1, (1 << 32) | 2, -4));
    assert_eq!(r.symbol.name, "multiply");
    assert_eq!(r.symbol.symbol, symbol);
    assert_eq!(r.raw_relo_type(), 2);
    assert_eq!(r.relo_type(), RelocationType::Abs32);
    let copy = r.clone();
    assert_eq!(copy.symbol.name, "multiply");
    assert_eq!(copy.offset, 1);
}

#[test]
fn symbol_is_defined_by_its_section_index() {
    let mut symbol = Symbol::default();
    assert!(!SymbolInfo::from(&symbol, "x").is_defined());
    symbol.relative_to_section = 1;
    assert!(SymbolInfo::from(&symbol, "x").is_defined());
    symbol.relative_to_section = 0xfff1;
    assert!(SymbolInfo::from(&symbol, "x").is_defined());
}

#[test]
fn symbol_on_the_wire() {
    let symbol = Symbol {
        name: 0x0403_0201,
        info: 0x12,
        other: 0x34,
        relative_to_section: 0x0605,
        value: 0x0e0d_0c0b_0a09_0807,
        size: 0x1615_1413_1211_100f,
    };
    let mut out = Vec::new();
    symbol.write(&mut out);
    assert_eq!(
        out,
        vec![
            1, 2, 3, 4, 0x12, 0x34, 5, 6, 7, 8, 9, 10, 11, 12, 13, 14, 15, 16, 17, 18, 19, 20,
            21, 22
        ]
    );
    assert_eq!(Symbol::read(&out, 0), symbol);
    let mut shifted = vec![0xee; 3];
    shifted.extend_from_slice(&out);
    assert_eq!(Symbol::read(&shifted, 3), symbol);
}

#[test]
fn relocation_on_the_wire() {
    let r = RelocationWithAddend { offset: 1, info: (2 << 32) | 4, addend: -4 };
    let mut out = Vec::new();
    r.write(&mut out);
    assert_eq!(
        out,
        vec![
            1, 0, 0, 0, 0, 0, 0, 0, 4, 0, 0, 0, 2, 0, 0, 0, 0xfc, 0xff, 0xff, 0xff, 0xff, 0xff,
            0xff, 0xff
        ]
    );
    assert_eq!(RelocationWithAddend::read(&out, 0), r);
}

#[test]
fn section_header_on_the_wire() {
    let header = SectionHeader {
        name: 0x1b,
        section_type: SectionType::RelocationWithAddend,
        flags: 0x40,
        virtual_address: 0,
        offset: 0x1c8,
        size: 0x18,
        link_to_other_section: 10,
        misc_info: 1,
        address_allignment_boundary: 8,
        entry_size: 0x18,
    };
    let mut out = Vec::new();
    header.write(&mut out);
    assert_eq!(out.len(), 64);
    assert_eq!(&out[0..4], &[0x1b, 0, 0, 0]);
    assert_eq!(&out[4..8], &[4, 0, 0, 0]);
    assert_eq!(&out[8..16], &0x40u64.to_le_bytes());
    assert_eq!(&out[16..24], &[0; 8]);
    assert_eq!(&out[24..32], &0x1c8u64.to_le_bytes());
    assert_eq!(&out[32..40], &0x18u64.to_le_bytes());
    assert_eq!(&out[40..44], &[10, 0, 0, 0]);
    assert_eq!(&out[44..48], &[1, 0, 0, 0]);
    assert_eq!(&out[48..56], &8u64.to_le_bytes());
    assert_eq!(&out[56..64], &0x18u64.to_le_bytes());
    assert_eq!(SectionHeader::read(&out, 0), header);
    assert_eq!(SectionHeader::default().section_type, SectionType::Null);
}

#[test]
fn section_header_with_unknown_type_is_written_as_read() {
    let mut bytes = vec![0u8; 64];
    bytes[4..8].copy_from_slice(&0x6fff_fff6u32.to_le_bytes());
    bytes[24] = 7;
    let header = SectionHeader::read(&bytes, 0);
    assert_eq!(header.section_type, SectionType::Unknown(0x6fff_fff6));
    let mut out = Vec::new();
    header.write(&mut out);
    assert_eq!(out, bytes);
}

#[test]
fn program_header_on_the_wire() {
    let header = ProgramHeader {
        segment_type: SegmentType::Loadable,
        flags: 5,
        offset: 0x1000,
        virtual_address: 0x401000,
        physical_address: 0x401000,
        size_in_file: 14,
        size_in_memory: 14,
        required_alignment: 0x1000,
    };
    let mut out = Vec::new();
    header.write(&mut out);
    assert_eq!(out.len(), 56);
    assert_eq!(&out[0..4], &[1, 0, 0, 0]);
    assert_eq!(&out[4..8], &[5, 0, 0, 0]);
    assert_eq!(&out[8..16], &0x1000u64.to_le_bytes());
    assert_eq!(&out[16..24], &0x401000u64.to_le_bytes());
    assert_eq!(&out[24..32], &0x401000u64.to_le_bytes());
    assert_eq!(&out[32..40], &14u64.to_le_bytes());
    assert_eq!(&out[40..48], &14u64.to_le_bytes());
    assert_eq!(&out[48..56], &0x1000u64.to_le_bytes());
    assert_eq!(ProgramHeader::read(&out, 0), header);
    assert_eq!(ProgramHeader::default().segment_type, SegmentType::Null);
}

#[test]
fn file_header_on_the_wire() {
    let header = FileHeader {
        identification: Identification {
            magic: [0x7f, 0x45, 0x4c, 0x46],
            format_class: 2,
            endianness: 1,
            format_version: 1,
            os_abi: 0,
            pad: [0; 8],
        },
        object_file_type: 2,
        machine_type: 0x3e,
        object_file_version: 1,
        entrypoint: 0x401000,
        program_header_offset: 64,
        section_header_offset: 0x1234,
        processor_specific_flags: 0x102,
        file_header_size: 64,
        program_headers_total_size: 56,
        program_header_entry_count: 2,
        section_headers_total_size: 64,
        section_header_entry_count: 3,
        sh_section_name_stringtab_entry_index: 2,
    };
    let mut out = Vec::new();
    header.write(&mut out);
    assert_eq!(out.len(), 64);
    assert_eq!(&out[0..16], &[0x7f, b'E', b'L', b'F', 2, 1, 1, 0, 0, 0, 0, 0, 0, 0, 0, 0]);
    assert_eq!(&out[16..18], &[2, 0]);
    assert_eq!(&out[18..20], &[0x3e, 0]);
    assert_eq!(&out[20..24], &[1, 0, 0, 0]);
    assert_eq!(&out[24..32], &0x401000u64.to_le_bytes());
    assert_eq!(&out[32..40], &64u64.to_le_bytes());
    assert_eq!(&out[40..48], &0x1234u64.to_le_bytes());
    assert_eq!(&out[48..52], &[2, 1, 0, 0]);
    assert_eq!(&out[52..54], &[64, 0]);
    assert_eq!(&out[54..56], &[56, 0]);
    assert_eq!(&out[56..58], &[2, 0]);
    assert_eq!(&out[58..60], &[64, 0]);
    assert_eq!(&out[60..62], &[3, 0]);
    assert_eq!(&out[62..64], &[2, 0]);
    let back = FileHeader::read(&out, 0);
    assert_eq!(back.identification.magic, header.identification.magic);
    assert_eq!(back.identification.pad, [0; 8]);
    assert_eq!(back.entrypoint, 0x401000);
    assert_eq!(back.section_header_offset, 0x1234);
    assert_eq!(back.sh_section_name_stringtab_entry_index, 2);
    let mut again = Vec::new();
    back.write(&mut again);
    assert_eq!(again, out);
}

#[test]
fn identification_keeps_its_padding() {
    let bytes: Vec<u8> = (1..=16).collect();
    let id = Identification::read(&bytes, 0);
    assert_eq!(id.magic, [1, 2, 3, 4]);
    assert_eq!((id.format_class, id.endianness, id.format_version, id.os_abi), (5, 6, 7, 8));
    assert_eq!(id.pad, [9, 10, 11, 12, 13, 14, 15, 16]);
    let mut out = Vec::new();
    id.write(&mut out);
    assert_eq!(out, bytes);
    let zero = FileHeader::default();
    assert_eq!(zero.identification.magic, [0; 4]);
    assert_eq!(zero.section_header_entry_count, 0);
}
