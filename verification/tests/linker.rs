use weld::elf::file::{RelocationWithAddend, SectionType, SegmentType, Symbol};
use weld::elf::logical::{Relocatable, Relocation, Section, SymbolInfo};
use weld::weld_core::{
    build_header, build_pht, build_sht, get_pre_text_pad, link, link_report, WeldError,
};

fn symbol(name: &str, section: u16, value: u64) -> SymbolInfo {
    SymbolInfo {
        name: name.to_string(),
        symbol: Symbol { name: 0, info: 0x12, other: 0, relative_to_section: section, value, size: 0 },
    }
}

fn section(name: &str, bytes: &[u8]) -> Section {
    Section { name: name.to_string(), bytes: bytes.to_vec(), offset: 64, virtual_address: 0 }
}

fn relocation(offset: u64, symbol_index: u64, relo_type: u64, addend: i64, to: &SymbolInfo) -> Relocation {
    Relocation::from(
        &RelocationWithAddend { offset, info: (symbol_index << 32) | relo_type, addend },
        to,
    )
}

fn object(path: &str, text: &[u8], symbols: Vec<SymbolInfo>, relocations: Vec<Relocation>) -> Relocatable {
    Relocatable {
        path: path.to_string(),
        sections: vec![section("", &[]), section(".text", text), section(".data", &[1, 2, 3])],
        relocations,
        symbols,
    }
}

const MOV_RET: [u8; 6] = [0xb8, 0x2a, 0x00, 0x00, 0x00, 0xc3];
const CALL_RET: [u8; 6] = [0xe8, 0x00, 0x00, 0x00, 0x00, 0xc3];
const MULTIPLY: [u8; 8] = [0x48, 0x89, 0xf8, 0x48, 0x0f, 0xaf, 0xc6, 0xc3];

fn caller(relo_type: u64) -> Relocatable {
    let multiply = symbol("multiply", 0, 0);
    let start = symbol("_start", 1, 0);
    let relocations = vec![relocation(1, 1, relo_type, -4, &multiply)];
    object("a.o", &CALL_RET, vec![start, multiply], relocations)
}

fn callee() -> Relocatable {
    object("b.o", &MULTIPLY, vec![symbol("multiply", 1, 0)], vec![])
}

#[test]
fn single_input_without_relocations() {
    let input = object("one.o", &MOV_RET, vec![symbol("_start", 1, 0)], vec![]);
    let exec = link(&[input]).unwrap();
    assert_eq!(exec.text_section, MOV_RET.to_vec());
    assert_eq!(exec.file_header.entrypoint, 0x401000);
    let image = exec.encode();
    let names = exec.shstrtab.len();
    assert_eq!(names, 17);
    assert_eq!(image.len(), 4096 + 6 + names + 3 * 64);
    assert_eq!(&image[4096..4102], &MOV_RET[..]);
}

#[test]
fn two_inputs_with_one_plt32_call() {
    let outcome = link_report(&[caller(4), callee()]);
    assert_eq!(outcome.errors, vec![]);
    let exec = outcome.executable.unwrap();
    assert_eq!(exec.text_section.len(), 14);
    assert_eq!(&exec.text_section[1..5], &[0x01, 0x00, 0x00, 0x00]);
    assert_eq!(exec.text_section[0], 0xe8);
    assert_eq!(exec.text_section[5], 0xc3);
    assert_eq!(&exec.text_section[6..], &MULTIPLY[..]);
    assert_eq!(exec.file_header.entrypoint, 0x401000);
}

#[test]
fn backward_call_is_a_negative_displacement() {
    // The callee comes first, so the call goes back: S = 0, P = 9, A = -4.
    let exec = link(&[callee(), caller(4)]).unwrap();
    assert_eq!(exec.text_section.len(), 14);
    assert_eq!(&exec.text_section[..8], &MULTIPLY[..]);
    assert_eq!(&exec.text_section[9..13], &(-13i32).to_le_bytes()[..]);
    assert_eq!(exec.file_header.entrypoint, 0x401000 + 8);
}

#[test]
fn undefined_symbol() {
    let errors = link(&[caller(4)]).unwrap_err();
    assert!(errors.contains(&WeldError::UndefinedSymbol("multiply".to_string())));
    assert_eq!(errors, vec![WeldError::UndefinedSymbol("multiply".to_string())]);
    assert!(link_report(&[caller(4)]).executable.is_none());
}

#[test]
fn every_undefined_symbol_is_reported() {
    let one = symbol("one", 0, 0);
    let two = symbol("two", 0, 0);
    let relocations = vec![relocation(0, 1, 4, -4, &one), relocation(4, 2, 4, -4, &two)];
    let input = object(
        "a.o",
        &[0; 8],
        vec![symbol("_start", 1, 0), one, two],
        relocations,
    );
    assert_eq!(
        link(&[input]).unwrap_err(),
        vec![
            WeldError::UndefinedSymbol("one".to_string()),
            WeldError::UndefinedSymbol("two".to_string()),
        ]
    );
}

#[test]
fn missing_text() {
    let input = Relocatable {
        path: "none.o".to_string(),
        sections: vec![section("", &[]), section(".data", &[1, 2, 3])],
        relocations: vec![],
        symbols: vec![symbol("_start", 1, 0)],
    };
    assert_eq!(link(&[input]).unwrap_err(), vec![WeldError::MissingText("none.o".to_string())]);
}

#[test]
fn missing_text_names_the_first_such_input() {
    let good = object("good.o", &MOV_RET, vec![symbol("_start", 1, 0)], vec![]);
    let bad = Relocatable { path: "bad.o".to_string(), ..Relocatable::default() };
    let worse = Relocatable { path: "worse.o".to_string(), ..Relocatable::default() };
    assert_eq!(
        link(&[good, bad, worse]).unwrap_err(),
        vec![WeldError::MissingText("bad.o".to_string())]
    );
}

#[test]
fn missing_entry_point() {
    let input = object("b.o", &MULTIPLY, vec![symbol("multiply", 1, 0)], vec![]);
    assert_eq!(link(&[input]).unwrap_err(), vec![WeldError::MissingEntryPoint]);
}

#[test]
fn undefined_start_is_no_entry_point() {
    let input = object("b.o", &MULTIPLY, vec![symbol("_start", 0, 0)], vec![]);
    assert_eq!(link(&[input]).unwrap_err(), vec![WeldError::MissingEntryPoint]);
}

#[test]
fn no_inputs_have_no_entry_point() {
    assert_eq!(link(&[]).unwrap_err(), vec![WeldError::MissingEntryPoint]);
}

#[test]
fn missing_entry_point_comes_after_the_other_findings() {
    let multiply = symbol("multiply", 0, 0);
    let relocations = vec![relocation(1, 0, 4, -4, &multiply)];
    let input = object("a.o", &CALL_RET, vec![multiply], relocations);
    assert_eq!(
        link(&[input]).unwrap_err(),
        vec![WeldError::UndefinedSymbol("multiply".to_string()), WeldError::MissingEntryPoint]
    );
}

#[test]
fn unhandled_relocation_type() {
    let outcome = link_report(&[caller(2), callee()]);
    assert_eq!(
        outcome.errors,
        vec![WeldError::UnhandledRelocation { relo_type: 2, path: "a.o".to_string() }]
    );
    let exec = outcome.executable.unwrap();
    assert_eq!(&exec.text_section[..6], &CALL_RET[..]);
    assert_eq!(&exec.text_section[6..], &MULTIPLY[..]);
    assert!(link(&[caller(2), callee()]).is_ok());
}

#[test]
fn unhandled_relocation_is_reported_beside_an_error() {
    let multiply = symbol("multiply", 0, 0);
    let relocations =
        vec![relocation(1, 1, 1, 0, &multiply), relocation(1, 1, 4, -4, &multiply)];
    let input = object("a.o", &CALL_RET, vec![symbol("_start", 1, 0), multiply], relocations);
    assert_eq!(
        link(&[input]).unwrap_err(),
        vec![
            WeldError::UnhandledRelocation { relo_type: 1, path: "a.o".to_string() },
            WeldError::UndefinedSymbol("multiply".to_string()),
        ]
    );
}

#[test]
fn relocation_type_is_the_lower_half_of_info() {
    let multiply = symbol("multiply", 1, 0);
    let r = relocation(1, 0xffff_ffff, 4, -4, &multiply);
    assert_eq!(r.info, 0xffff_ffff_0000_0004);
    let input = object("a.o", &CALL_RET, vec![symbol("_start", 1, 0), multiply], vec![r]);
    let exec = link(&[input]).unwrap();
    assert_eq!(&exec.text_section[1..5], &(-5i32).to_le_bytes()[..]);
}

#[test]
fn patch_outside_the_text() {
    let multiply = symbol("multiply", 1, 0);
    let relocations = vec![relocation(3, 1, 4, -4, &multiply)];
    let input = object("a.o", &CALL_RET, vec![symbol("_start", 1, 0), multiply], relocations);
    assert_eq!(
        link(&[input]).unwrap_err(),
        vec![WeldError::PatchOutOfBounds { path: "a.o".to_string(), offset: 3 }]
    );
}

#[test]
fn patch_at_the_very_end_of_the_text() {
    let multiply = symbol("multiply", 1, 0);
    let relocations = vec![relocation(2, 1, 4, 0, &multiply)];
    let input = object("a.o", &CALL_RET, vec![symbol("_start", 1, 0), multiply], relocations);
    let exec = link(&[input]).unwrap();
    assert_eq!(&exec.text_section[..2], &CALL_RET[..2]);
    assert_eq!(&exec.text_section[2..], &(-2i32).to_le_bytes()[..]);
}

#[test]
fn patch_offset_that_wraps_is_out_of_bounds() {
    let multiply = symbol("multiply", 1, 0);
    let relocations = vec![relocation(u64::MAX, 1, 4, 0, &multiply)];
    let first = object("first.o", &MOV_RET, vec![], vec![]);
    let input = object("a.o", &CALL_RET, vec![symbol("_start", 1, 0), multiply], relocations);
    assert_eq!(
        link(&[first, input]).unwrap_err(),
        vec![WeldError::PatchOutOfBounds { path: "a.o".to_string(), offset: u64::MAX }]
    );
}

#[test]
fn displacement_that_does_not_fit() {
    let far = symbol("far", 1, 0x8000_0001);
    let relocations = vec![relocation(1, 1, 4, 0, &far)];
    let input = object("a.o", &CALL_RET, vec![symbol("_start", 1, 0), far], relocations);
    assert_eq!(
        link(&[input]).unwrap_err(),
        vec![WeldError::RelocationOverflow { symbol: "far".to_string(), at: 1 }]
    );
}

#[test]
fn largest_and_smallest_displacement() {
    let far = symbol("far", 1, 0x8000_0000);
    let relocations =
        vec![relocation(1, 1, 4, 0, &far), relocation(5, 1, 4, -0x8000_0000 - 0x8000_0000 + 5, &far)];
    let input = object("a.o", &[0x90; 9], vec![symbol("_start", 1, 0), far], relocations);
    let exec = link(&[input]).unwrap();
    assert_eq!(&exec.text_section[1..5], &i32::MAX.to_le_bytes()[..]);
    assert_eq!(&exec.text_section[5..9], &i32::MIN.to_le_bytes()[..]);
}

#[test]
fn displacement_of_a_symbol_beyond_any_address() {
    let far = symbol("far", 1, u64::MAX);
    let relocations = vec![relocation(1, 1, 4, i64::MAX, &far)];
    let input = object("a.o", &CALL_RET, vec![symbol("_start", 1, 0), far], relocations);
    assert_eq!(
        link(&[input]).unwrap_err(),
        vec![WeldError::RelocationOverflow { symbol: "far".to_string(), at: 1 }]
    );
}

#[test]
fn entry_point_that_does_not_fit() {
    let input = object("a.o", &MOV_RET, vec![symbol("_start", 1, u64::MAX - 0x400fff)], vec![]);
    assert_eq!(link(&[input]).unwrap_err(), vec![WeldError::AddressOverflow]);
    let input = object("a.o", &MOV_RET, vec![symbol("_start", 1, u64::MAX - 0x401000)], vec![]);
    assert_eq!(link(&[input]).unwrap().file_header.entrypoint, u64::MAX);
}

#[test]
fn later_definition_wins() {
    let first = object("first.o", &MOV_RET, vec![symbol("_start", 1, 0)], vec![]);
    let second = object("second.o", &MOV_RET, vec![symbol("_start", 1, 2)], vec![]);
    let exec = link(&[first, second]).unwrap();
    assert_eq!(exec.file_header.entrypoint, 0x401000 + 6 + 2);
}

#[test]
fn later_definition_in_one_object_wins() {
    let input =
        object("one.o", &MOV_RET, vec![symbol("_start", 1, 1), symbol("_start", 2, 5)], vec![]);
    assert_eq!(link(&[input]).unwrap().file_header.entrypoint, 0x401000 + 5);
}

#[test]
fn relocation_sees_symbols_of_later_inputs_and_the_last_definition() {
    let other = object("c.o", &[0xc3], vec![symbol("multiply", 1, 0)], vec![]);
    let exec = link(&[caller(4), callee(), other]).unwrap();
    // S = 14, P = 1, A = -4.
    assert_eq!(&exec.text_section[1..5], &9i32.to_le_bytes()[..]);
}

#[test]
fn first_text_section_of_an_object_is_the_one_merged() {
    let mut input = object("one.o", &MOV_RET, vec![symbol("_start", 1, 0)], vec![]);
    input.sections.push(section(".text", &[0xcc]));
    assert_eq!(link(&[input]).unwrap().text_section, MOV_RET.to_vec());
}

#[test]
fn merged_text_is_the_concatenation_outside_the_patch_sites() {
    let inputs = [caller(4), callee()];
    let exec = link(&inputs).unwrap();
    let mut plain = CALL_RET.to_vec();
    plain.extend_from_slice(&MULTIPLY);
    assert_eq!(exec.text_section.len(), plain.len());
    for k in 0..plain.len() {
        if !(1..5).contains(&k) {
            assert_eq!(exec.text_section[k], plain[k]);
        }
    }
}

#[test]
fn empty_text_links() {
    let input = object("empty.o", &[], vec![symbol("_start", 1, 0)], vec![]);
    let exec = link(&[input]).unwrap();
    assert_eq!(exec.text_section.len(), 0);
    assert_eq!(exec.encode().len(), 4096 + 17 + 192);
}

#[test]
fn header_fields_of_a_linked_executable() {
    let exec = link(&[caller(4), callee()]).unwrap();
    let h = &exec.file_header;
    assert_eq!(h.identification.magic, [0x7f, 0x45, 0x4c, 0x46]);
    assert_eq!(h.identification.format_class, 2);
    assert_eq!(h.identification.endianness, 1);
    assert_eq!(h.identification.format_version, 1);
    assert_eq!(h.identification.os_abi, 0);
    assert_eq!(h.identification.pad, [0; 8]);
    assert_eq!(h.object_file_type, 2);
    assert_eq!(h.machine_type, 0x3e);
    assert_eq!(h.object_file_version, 1);
    assert_eq!(h.entrypoint, 0x401000);
    assert_eq!(h.program_header_offset, 64);
    assert_eq!(h.section_header_offset, 4096 + 14 + 17);
    assert_eq!(h.processor_specific_flags, 0x102);
    assert_eq!(h.file_header_size, 64);
    assert_eq!(h.program_headers_total_size, 56);
    assert_eq!(h.program_header_entry_count, 2);
    assert_eq!(h.section_headers_total_size, 64);
    assert_eq!(h.section_header_entry_count, 3);
    assert_eq!(h.sh_section_name_stringtab_entry_index, 2);
}

#[test]
fn program_headers_of_a_linked_executable() {
    let exec = link(&[caller(4), callee()]).unwrap();
    assert_eq!(exec.pre_text_pad, 3920);
    assert_eq!(exec.program_headers.len(), 2);
    let first = &exec.program_headers[0];
    assert_eq!(first.segment_type, SegmentType::Loadable);
    assert_eq!(first.flags, 4);
    assert_eq!(first.offset, 0);
    assert_eq!(first.virtual_address, 0x400000);
    assert_eq!(first.physical_address, 0);
    assert_eq!(first.size_in_file, 176);
    assert_eq!(first.size_in_memory, 176);
    assert_eq!(first.required_alignment, 0x1000);
    let second = &exec.program_headers[1];
    assert_eq!(second.segment_type, SegmentType::Loadable);
    assert_eq!(second.flags, 5);
    assert_eq!(second.offset, 4096);
    assert_eq!(second.offset % 4096, 0);
    assert_eq!(second.virtual_address, 0x401000);
    assert_eq!(second.physical_address, 0x401000);
    assert_eq!(second.size_in_file, 14);
    assert_eq!(second.size_in_memory, 14);
    assert_eq!(second.required_alignment, 0x1000);
}

#[test]
fn section_headers_of_a_linked_executable() {
    let exec = link(&[caller(4), callee()]).unwrap();
    assert_eq!(exec.section_headers.len(), 3);
    let null = &exec.section_headers[0];
    assert_eq!(null.section_type, SectionType::Null);
    assert_eq!(null.name, 0);
    assert_eq!(null.flags, 6);
    assert_eq!(null.offset, 0);
    assert_eq!(null.size, 0);
    let text = &exec.section_headers[1];
    assert_eq!(text.section_type, SectionType::ProgramData);
    assert_eq!(exec.shstrtab.get(text.name as usize), Some(".text".to_string()));
    assert_eq!(text.name, 1);
    assert_eq!(text.flags, 6);
    assert_eq!(text.virtual_address, 0x400100);
    assert_eq!(text.offset, 4096);
    assert_eq!(text.size, 14);
    assert_eq!(text.address_allignment_boundary, 1);
    assert_eq!(text.entry_size, 0);
    let names = &exec.section_headers[2];
    assert_eq!(names.section_type, SectionType::StringTable);
    assert_eq!(exec.shstrtab.get(names.name as usize), Some(".shstrtab".to_string()));
    assert_eq!(names.name, 7);
    assert_eq!(names.flags, 6);
    assert_eq!(names.virtual_address, 0);
    assert_eq!(names.offset, 4096 + 14);
    assert_eq!(names.size, 17);
    assert_eq!(names.address_allignment_boundary, 1);
    assert_eq!(exec.shstrtab.get_bytes(), &b"\0.text\0.shstrtab\0"[..]);
}

#[test]
fn pre_text_pad_fills_the_first_page() {
    assert_eq!(get_pre_text_pad(0), 4032);
    assert_eq!(get_pre_text_pad(1), 3976);
    assert_eq!(get_pre_text_pad(2), 3920);
    assert_eq!(get_pre_text_pad(72), 0);
}

#[test]
fn pre_text_pad_beyond_the_first_page() {
    // 64 + 73 * 56 = 4152, and 4152 % 4096 = 56.
    assert_eq!(get_pre_text_pad(73), 56);
    assert_eq!(get_pre_text_pad(146), (64 + 146 * 56) % 4096);
}

#[test]
fn builders_work_on_an_executable_by_hand() {
    let mut exec = weld::elf::logical::Executable::default();
    exec.text_section = vec![0xc3; 10];
    exec.pre_text_pad = get_pre_text_pad(2);
    exec.file_header.program_header_entry_count = 2;
    exec.file_header.section_header_entry_count = 3;
    let sections = build_sht(&mut exec);
    assert_eq!(sections.len(), 3);
    assert_eq!(sections[1].size, 10);
    assert_eq!(exec.shstrtab.len(), 17);
    let segments = build_pht(&exec);
    assert_eq!(segments.len(), 2);
    assert_eq!(segments[1].size_in_file, 10);
    let header = build_header(&exec, 2, 3, 4);
    assert_eq!(header.entrypoint, 0x401004);
    assert_eq!(header.section_header_offset, 4096 + 10 + 17);
    assert_eq!(header.sh_section_name_stringtab_entry_index, 2);
    let header = build_header(&exec, 1, 1, 0);
    assert_eq!(header.program_header_entry_count, 1);
    assert_eq!(header.sh_section_name_stringtab_entry_index, 0);
    assert_eq!(header.section_header_offset, 64 + 56 + 3920 + 10 + 17);
}
