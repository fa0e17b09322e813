use weld::elf::file::{FileHeader, SectionType};
use weld::elf::logical::Relocatable;
use weld::elf_parser::{
    parse, parse_header, parse_relocations, parse_section_headers,
    parse_section_name_string_table, parse_string_table, parse_symbol_string_table,
    parse_symbol_table, ParseError,
};
use weld::weld_core::{link, link_report, WeldError};

const NULL: u32 = 0;
const PROGBITS: u32 = 1;
const SYMTAB: u32 = 2;
const STRTAB: u32 = 3;
const RELA: u32 = 4;

struct Part {
    name: &'static str,
    kind: u32,
    data: Vec<u8>,
}

fn part(name: &'static str, kind: u32, data: Vec<u8>) -> Part {
    Part { name, kind, data }
}

fn symbol(name: u32, section: u16, value: u64) -> Vec<u8> {
    let mut out = Vec::new();
    out.extend_from_slice(&name.to_le_bytes());
    out.push(0x12);
    out.push(0);
    out.extend_from_slice(&section.to_le_bytes());
    out.extend_from_slice(&value.to_le_bytes());
    out.extend_from_slice(&0u64.to_le_bytes());
    out
}

fn rela(offset: u64, symbol: u64, kind: u64, addend: i64) -> Vec<u8> {
    let mut out = Vec::new();
    out.extend_from_slice(&offset.to_le_bytes());
    out.extend_from_slice(&((symbol << 32) | kind).to_le_bytes());
    out.extend_from_slice(&addend.to_le_bytes());
    out
}

/// An object file of the given parts, which follow the null section. The
/// section-name string table is made from the names and comes last. Gives
/// the file and the offset of each part's payload.
fn elf(parts: &[Part]) -> (Vec<u8>, Vec<usize>) {
    let mut names = vec![0u8];
    let mut name_offsets = Vec::new();
    for p in parts {
        name_offsets.push(names.len() as u32);
        names.extend_from_slice(p.name.as_bytes());
        names.push(0);
    }
    let names_name = names.len() as u32;
    names.extend_from_slice(b".shstrtab\0");

    let mut file = vec![0u8; 64];
    let mut offsets = Vec::new();
    for p in parts {
        offsets.push(file.len());
        file.extend_from_slice(&p.data);
    }
    let names_offset = file.len();
    file.extend_from_slice(&names);
    let table = file.len();

    let mut header = |name: u32, kind: u32, offset: usize, size: usize, address: u64| {
        let mut h = Vec::new();
        h.extend_from_slice(&name.to_le_bytes());
        h.extend_from_slice(&kind.to_le_bytes());
        h.extend_from_slice(&0u64.to_le_bytes());
        h.extend_from_slice(&address.to_le_bytes());
        h.extend_from_slice(&(offset as u64).to_le_bytes());
        h.extend_from_slice(&(size as u64).to_le_bytes());
        h.extend_from_slice(&[0u8; 24]);
        file.extend_from_slice(&h);
    };
    header(0, NULL, 0, 0, 0);
    for (i, p) in parts.iter().enumerate() {
        header(name_offsets[i], p.kind, offsets[i], p.data.len(), 0x1000 * (i as u64 + 1));
    }
    header(names_name, STRTAB, names_offset, names.len(), 0);

    let count = parts.len() as u16 + 2;
    file[..4].copy_from_slice(&[0x7f, 0x45, 0x4c, 0x46]);
    file[4] = 2;
    file[5] = 1;
    file[6] = 1;
    file[16] = 1;
    file[18] = 0x3e;
    file[20] = 1;
    file[40..48].copy_from_slice(&(table as u64).to_le_bytes());
    file[52] = 64;
    file[58] = 64;
    file[60..62].copy_from_slice(&count.to_le_bytes());
    file[62..64].copy_from_slice(&(count - 1).to_le_bytes());
    (file, offsets)
}

const CALL_RET: [u8; 6] = [0xe8, 0x00, 0x00, 0x00, 0x00, 0xc3];
const MULTIPLY: [u8; 8] = [0x48, 0x89, 0xf8, 0x48, 0x0f, 0xaf, 0xc6, 0xc3];
const MOV_RET: [u8; 6] = [0xb8, 0x2a, 0x00, 0x00, 0x00, 0xc3];

/// `_start` calls `multiply`, which another object defines.
fn caller_parts(kind: u64) -> Vec<Part> {
    let mut symbols = symbol(0, 0, 0);
    symbols.extend(symbol(1, 1, 0));
    symbols.extend(symbol(8, 0, 0));
    vec![
        part(".text", PROGBITS, CALL_RET.to_vec()),
        part(".symtab", SYMTAB, symbols),
        part(".strtab", STRTAB, b"\0_start\0multiply\0".to_vec()),
        part(".rela.text", RELA, rela(1, 2, kind, -4)),
    ]
}

fn callee_parts() -> Vec<Part> {
    let mut symbols = symbol(0, 0, 0);
    symbols.extend(symbol(1, 1, 0));
    vec![
        part(".text", PROGBITS, MULTIPLY.to_vec()),
        part(".symtab", SYMTAB, symbols),
        part(".strtab", STRTAB, b"\0multiply\0".to_vec()),
    ]
}

fn single_parts() -> Vec<Part> {
    let mut symbols = symbol(0, 0, 0);
    symbols.extend(symbol(1, 1, 0));
    vec![
        part(".text", PROGBITS, MOV_RET.to_vec()),
        part(".symtab", SYMTAB, symbols),
        part(".strtab", STRTAB, b"\0_start\0".to_vec()),
    ]
}

fn parsed(path: &str, parts: &[Part]) -> Relocatable {
    parse(path, &elf(parts).0).unwrap()
}

#[test]
fn parse_gives_the_logical_object() {
    let (file, offsets) = elf(&caller_parts(4));
    let object = parse("a.o", &file).unwrap();
    assert_eq!(object.path, "a.o");

    let names: Vec<&str> = object.sections.iter().map(|s| s.name.as_str()).collect();
    assert_eq!(names, vec!["", ".text", ".symtab", ".strtab", ".rela.text", ".shstrtab"]);
    assert_eq!(object.sections[0].bytes, Vec::<u8>::new());
    assert_eq!(object.sections[0].offset, 0);
    assert_eq!(object.sections[1].bytes, CALL_RET.to_vec());
    assert_eq!(object.sections[1].offset, offsets[0] as u64);
    assert_eq!(object.sections[1].virtual_address, 0x1000);
    assert_eq!(object.sections[3].bytes, b"\0_start\0multiply\0".to_vec());
    assert_eq!(object.sections[4].virtual_address, 0x4000);
    assert_eq!(object.find_section(".text"), Some(1));
    assert_eq!(object.find_section(".shstrtab"), Some(5));
    assert_eq!(object.find_section(".bss"), None);

    assert_eq!(object.symbols.len(), 3);
    assert_eq!(object.symbols[0].name, "");
    assert!(!object.symbols[0].is_defined());
    assert_eq!(object.symbols[1].name, "_start");
    assert!(object.symbols[1].is_defined());
    assert_eq!(object.symbols[1].symbol.relative_to_section, 1);
    assert_eq!(object.symbols[1].symbol.info, 0x12);
    assert_eq!(object.symbols[2].name, "multiply");
    assert_eq!(object.symbols[2].symbol.name, 8);
    assert!(!object.symbols[2].is_defined());

    assert_eq!(object.relocations.len(), 1);
    let r = &object.relocations[0];
    assert_eq!(r.offset, 1);
    assert_eq!(r.info, (2 << 32) | 4);
    assert_eq!(r.addend, -4);
    assert_eq!(r.symbol.name, "multiply");
    assert_eq!(r.symbol.symbol, object.symbols[2].symbol);
}

#[test]
fn section_payloads_lie_at_their_offsets() {
    for parts in [caller_parts(4), callee_parts(), single_parts()] {
        let (file, _) = elf(&parts);
        let object = parse("x.o", &file).unwrap();
        let mut rebuilt = file.clone();
        for section in &object.sections {
            let from = section.offset as usize;
            let to = from + section.bytes.len();
            assert!(to <= file.len());
            assert_eq!(&file[from..to], &section.bytes[..]);
            rebuilt[from..to].copy_from_slice(&section.bytes);
        }
        assert_eq!(rebuilt, file);
    }
}

#[test]
fn object_without_relocation_table_has_no_relocations() {
    let object = parsed("b.o", &callee_parts());
    assert_eq!(object.relocations.len(), 0);
    assert_eq!(object.symbols.len(), 2);
    assert_eq!(object.symbols[1].name, "multiply");
}

#[test]
fn parse_and_link_one_object() {
    let exec = link(&[parsed("one.o", &single_parts())]).unwrap();
    assert_eq!(exec.file_header.entrypoint, 0x401000);
    let image = exec.encode();
    assert_eq!(image.len(), 4096 + 6 + 17 + 3 * 64);
    assert_eq!(&image[4096..4102], &MOV_RET[..]);
    assert_eq!(&image[..4], &[0x7f, b'E', b'L', b'F']);
    assert_eq!(&image[24..32], &0x401000u64.to_le_bytes());
    assert!(image[176..4096].iter().all(|b| *b == 0));
    assert_eq!(&image[4102..4119], &b"\0.text\0.shstrtab\0"[..]);
}

#[test]
fn parse_and_link_two_objects() {
    let inputs = [parsed("a.o", &caller_parts(4)), parsed("b.o", &callee_parts())];
    let exec = link(&inputs).unwrap();
    assert_eq!(exec.text_section.len(), 14);
    assert_eq!(&exec.text_section[1..5], &[1, 0, 0, 0]);
    assert_eq!(exec.file_header.entrypoint, 0x401000);
}

#[test]
fn written_executable_reads_back_as_its_headers() {
    let inputs = [parsed("a.o", &caller_parts(4)), parsed("b.o", &callee_parts())];
    let exec = link(&inputs).unwrap();
    let image = exec.encode();
    let header = parse_header(&image).unwrap();
    assert_eq!(header.entrypoint, exec.file_header.entrypoint);
    assert_eq!(header.section_header_offset, 4096 + 14 + 17);
    assert_eq!(header.program_header_offset, 64);
    assert_eq!(image.len() as u64, header.section_header_offset + 3 * 64);
    let sections = parse_section_headers(&image, &header).unwrap();
    assert_eq!(sections, exec.section_headers);
    let names = parse_section_name_string_table(&image, &sections, &header).unwrap();
    assert_eq!(names.get(sections[1].name as usize), Some(".text".to_string()));
    assert_eq!(names.get(sections[2].name as usize), Some(".shstrtab".to_string()));
    let text = &sections[1];
    let from = text.offset as usize;
    assert_eq!(&image[from..from + text.size as usize], &exec.text_section[..]);
    let first = weld::elf::file::ProgramHeader::read(&image, 64);
    let second = weld::elf::file::ProgramHeader::read(&image, 120);
    assert_eq!(vec![first, second], exec.program_headers);
}

#[test]
fn parsed_undefined_symbol() {
    let errors = link(&[parsed("a.o", &caller_parts(4))]).unwrap_err();
    assert_eq!(errors, vec![WeldError::UndefinedSymbol("multiply".to_string())]);
}

#[test]
fn parsed_unhandled_relocation() {
    let inputs = [parsed("a.o", &caller_parts(2)), parsed("b.o", &callee_parts())];
    let outcome = link_report(&inputs);
    assert_eq!(
        outcome.errors,
        vec![WeldError::UnhandledRelocation { relo_type: 2, path: "a.o".to_string() }]
    );
    assert_eq!(&outcome.executable.unwrap().text_section[..6], &CALL_RET[..]);
}

#[test]
fn parsed_object_without_text() {
    let mut parts = single_parts();
    parts[0].name = ".data";
    let errors = link(&[parsed("data.o", &parts)]).unwrap_err();
    assert_eq!(errors, vec![WeldError::MissingText("data.o".to_string())]);
}

#[test]
fn short_buffer_is_truncated() {
    assert_eq!(parse("x", &[]).unwrap_err(), ParseError::Truncated { expected: 64, actual: 0 });
    let (file, _) = elf(&single_parts());
    assert_eq!(
        parse("x", &file[..63]).unwrap_err(),
        ParseError::Truncated { expected: 64, actual: 63 }
    );
    assert_eq!(
        parse_header(&file[..10]).unwrap_err(),
        ParseError::Truncated { expected: 64, actual: 10 }
    );
}

#[test]
fn bad_magic() {
    let (mut file, _) = elf(&single_parts());
    file[3] = b'G';
    assert_eq!(parse("x", &file).unwrap_err(), ParseError::BadMagic);
    assert_eq!(parse("x", &[0u8; 64]).unwrap_err(), ParseError::BadMagic);
}

#[test]
fn unsupported_class() {
    let (mut file, _) = elf(&single_parts());
    file[4] = 1;
    assert_eq!(parse("x", &file).unwrap_err(), ParseError::UnsupportedClass);
}

#[test]
fn unsupported_endianness() {
    let (mut file, _) = elf(&single_parts());
    file[5] = 2;
    assert_eq!(parse("x", &file).unwrap_err(), ParseError::UnsupportedEndianness);
}

#[test]
fn magic_is_checked_before_class_and_class_before_endianness() {
    let (mut file, _) = elf(&single_parts());
    file[5] = 2;
    file[4] = 1;
    assert_eq!(parse("x", &file).unwrap_err(), ParseError::UnsupportedClass);
    file[0] = 0;
    assert_eq!(parse("x", &file).unwrap_err(), ParseError::BadMagic);
}

#[test]
fn section_header_table_past_the_end() {
    let (file, _) = elf(&single_parts());
    let cut = &file[..file.len() - 1];
    assert_eq!(
        parse("x", cut).unwrap_err(),
        ParseError::Truncated { expected: file.len() as u64, actual: file.len() as u64 - 1 }
    );
    let mut far = file.clone();
    far[40..48].copy_from_slice(&u64::MAX.to_le_bytes());
    assert_eq!(
        parse("x", &far).unwrap_err(),
        ParseError::Truncated { expected: u64::MAX, actual: file.len() as u64 }
    );
}

#[test]
fn header_without_sections_has_no_string_table() {
    let (mut file, _) = elf(&single_parts());
    file[60] = 0;
    file[61] = 0;
    file[40..48].copy_from_slice(&u64::MAX.to_le_bytes());
    let header = parse_header(&file).unwrap();
    assert_eq!(parse_section_headers(&file, &header).unwrap(), vec![]);
    assert_eq!(parse("x", &file).unwrap_err(), ParseError::MissingStringTable);
}

#[test]
fn section_name_index_out_of_range() {
    let (mut file, _) = elf(&single_parts());
    file[62] = 5;
    assert_eq!(parse("x", &file).unwrap_err(), ParseError::MissingStringTable);
}

#[test]
fn missing_symbol_string_table() {
    let mut parts = single_parts();
    parts[2].kind = PROGBITS;
    assert_eq!(parse("x", &elf(&parts).0).unwrap_err(), ParseError::MissingStringTable);
}

#[test]
fn missing_symbol_table() {
    let mut parts = single_parts();
    parts[1].kind = PROGBITS;
    assert_eq!(parse("x", &elf(&parts).0).unwrap_err(), ParseError::MissingSymbolTable);
}

#[test]
fn missing_string_table_is_found_before_missing_symbol_table() {
    let mut parts = single_parts();
    parts[1].kind = PROGBITS;
    parts[2].kind = PROGBITS;
    assert_eq!(parse("x", &elf(&parts).0).unwrap_err(), ParseError::MissingStringTable);
}

#[test]
fn symbol_name_outside_its_table() {
    let mut parts = single_parts();
    parts[1].data = symbol(100, 1, 0);
    assert_eq!(
        parse("x", &elf(&parts).0).unwrap_err(),
        ParseError::BadStringOffset { offset: 100 }
    );
}

#[test]
fn symbol_name_without_terminator() {
    let mut parts = single_parts();
    parts[2].data = b"\0_start".to_vec();
    assert_eq!(
        parse("x", &elf(&parts).0).unwrap_err(),
        ParseError::BadStringOffset { offset: 1 }
    );
}

#[test]
fn section_name_outside_its_table() {
    let (mut file, _) = elf(&single_parts());
    let table = u64::from_le_bytes(file[40..48].try_into().unwrap()) as usize;
    file[table + 64..table + 68].copy_from_slice(&1000u32.to_le_bytes());
    assert_eq!(parse("x", &file).unwrap_err(), ParseError::BadStringOffset { offset: 1000 });
}

#[test]
fn relocation_names_a_symbol_that_is_not_there() {
    let mut parts = caller_parts(4);
    parts[3].data = rela(1, 3, 4, -4);
    assert_eq!(parse("x", &elf(&parts).0).unwrap_err(), ParseError::BadSymbolIndex { index: 3 });
    parts[3].data = rela(1, 0xffff_ffff, 4, -4);
    assert_eq!(
        parse("x", &elf(&parts).0).unwrap_err(),
        ParseError::BadSymbolIndex { index: 0xffff_ffff }
    );
}

#[test]
fn section_payload_past_the_end() {
    let (mut file, _) = elf(&single_parts());
    let table = u64::from_le_bytes(file[40..48].try_into().unwrap()) as usize;
    let len = file.len() as u64;
    // The size of `.text`, the section at index 1.
    file[table + 64 + 32..table + 64 + 40].copy_from_slice(&len.to_le_bytes());
    assert_eq!(
        parse("x", &file).unwrap_err(),
        ParseError::Truncated { expected: 64 + len, actual: len }
    );
    file[table + 64 + 32..table + 64 + 40].copy_from_slice(&u64::MAX.to_le_bytes());
    assert_eq!(
        parse("x", &file).unwrap_err(),
        ParseError::Truncated { expected: u64::MAX, actual: len }
    );
}

#[test]
fn empty_section_may_point_anywhere() {
    let (mut file, _) = elf(&single_parts());
    let table = u64::from_le_bytes(file[40..48].try_into().unwrap()) as usize;
    // The offset of the null section.
    file[table + 24..table + 32].copy_from_slice(&u64::MAX.to_le_bytes());
    let object = parse("x", &file).unwrap();
    assert_eq!(object.sections[0].offset, u64::MAX);
    assert_eq!(object.sections[0].bytes.len(), 0);
}

#[test]
fn symbol_table_past_the_end() {
    let (file, offsets) = elf(&single_parts());
    let header = parse_header(&file).unwrap();
    let mut sections = parse_section_headers(&file, &header).unwrap();
    assert_eq!(sections[2].section_type, SectionType::SymbolTable);
    assert_eq!(sections[2].offset, offsets[1] as u64);
    sections[2].size = file.len() as u64;
    let needed = offsets[1] as u64 + (file.len() as u64 / 24) * 24;
    assert_eq!(
        parse_symbol_table(&file, &sections, &header).unwrap_err(),
        ParseError::Truncated { expected: needed, actual: file.len() as u64 }
    );
}

#[test]
fn leftover_bytes_of_a_table_are_no_entry() {
    let mut parts = caller_parts(4);
    parts[1].data.extend_from_slice(&[0xff; 23]);
    parts[3].data.extend_from_slice(&[0xff; 5]);
    let object = parsed("a.o", &parts);
    assert_eq!(object.symbols.len(), 3);
    assert_eq!(object.relocations.len(), 1);
}

#[test]
fn first_relocation_table_is_the_one_read() {
    let mut parts = caller_parts(4);
    parts.push(part(".rela.data", RELA, rela(9, 1, 1, 0)));
    let object = parsed("a.o", &parts);
    assert_eq!(object.relocations.len(), 1);
    assert_eq!(object.relocations[0].offset, 1);
}

#[test]
fn passes_one_by_one() {
    let (file, offsets) = elf(&caller_parts(4));
    let header: FileHeader = parse_header(&file).unwrap();
    assert_eq!(header.section_header_entry_count, 6);
    assert_eq!(header.sh_section_name_stringtab_entry_index, 5);
    assert_eq!(header.machine_type, 0x3e);
    let sections = parse_section_headers(&file, &header).unwrap();
    assert_eq!(sections.len(), 6);
    assert_eq!(sections[0].section_type, SectionType::Null);
    assert_eq!(sections[1].section_type, SectionType::ProgramData);
    assert_eq!(sections[1].size, 6);
    assert_eq!(sections[4].section_type, SectionType::RelocationWithAddend);
    assert_eq!(sections[4].offset, offsets[3] as u64);
    let names = parse_section_name_string_table(&file, &sections, &header).unwrap();
    assert_eq!(names.get(1), Some(".text".to_string()));
    let strings = parse_symbol_string_table(&file, &sections, &header).unwrap();
    assert_eq!(strings.get_bytes(), &b"\0_start\0multiply\0"[..]);
    let same = parse_string_table(&file, &sections[3]).unwrap();
    assert_eq!(same.get_bytes(), strings.get_bytes());
    let symbols = parse_symbol_table(&file, &sections, &header).unwrap();
    assert_eq!(symbols.len(), 3);
    let relocations = parse_relocations(&file, &sections, &symbols).unwrap();
    assert_eq!(relocations.len(), 1);
    assert_eq!(relocations[0].symbol.name, "multiply");
}

#[test]
fn string_table_with_the_same_header_as_the_name_table_is_passed_over() {
    // Two string-table headers that say the same in every field are taken
    // for the section-name table both.
    let (mut file, _) = elf(&single_parts());
    let table = u64::from_le_bytes(file[40..48].try_into().unwrap()) as usize;
    let names_header = file[table + 4 * 64..table + 5 * 64].to_vec();
    file[table + 3 * 64..table + 4 * 64].copy_from_slice(&names_header);
    assert_eq!(parse("x", &file).unwrap_err(), ParseError::MissingStringTable);
}

#[test]
fn unknown_section_type_is_kept() {
    let mut parts = single_parts();
    parts.push(part(".note.gnu", 0x6fff_fff5, vec![1, 2, 3, 4]));
    let (file, _) = elf(&parts);
    let header = parse_header(&file).unwrap();
    let sections = parse_section_headers(&file, &header).unwrap();
    assert_eq!(sections[4].section_type, SectionType::Unknown(0x6fff_fff5));
    assert_eq!(sections[4].section_type.raw(), 0x6fff_fff5);
    let object = parse("x", &file).unwrap();
    assert_eq!(object.sections[4].name, ".note.gnu");
    assert_eq!(object.sections[4].bytes, vec![1, 2, 3, 4]);
    assert!(link(&[object]).is_ok());
}
