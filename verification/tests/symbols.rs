use weld::elf::file::{RelocationWithAddend, Symbol};
use weld::elf::high_level_repr::{X64ReloType, X64Relocation};
use weld::elf::logical::{Relocatable, Relocation, Section, SymbolInfo};
use weld::weld_core::error::WeldError;
use weld::weld_core::merge::{collect_symbols, merge_text};
use weld::weld_core::relocate::apply_relocations;
use weld::weld_core::symbols::SymbolTable;

fn defined(name: &str, value: u64) -> SymbolInfo {
    SymbolInfo::from(
        &Symbol { name: 0, info: 0x12, other: 0, relative_to_section: 1, value, size: 0 },
        name,
    )
}

fn undefined(name: &str) -> SymbolInfo {
    SymbolInfo::from(&Symbol::default(), name)
}

fn object(path: &str, text: &[u8], symbols: Vec<SymbolInfo>) -> Relocatable {
    Relocatable {
        path: path.to_string(),
        sections: vec![Section {
            name: ".text".to_string(),
            bytes: text.to_vec(),
            offset: 64,
            virtual_address: 0,
        }],
        relocations: vec![],
        symbols,
    }
}

#[test]
fn empty_table_defines_nothing() {
    let table = SymbolTable::new();
    assert_eq!(table.get(&"_start".to_string()), None);
    assert_eq!(table.get(&String::new()), None);
}

#[test]
fn table_gives_the_last_definition() {
    let mut table = SymbolTable::new();
    table.insert("a".to_string(), 1);
    table.insert("b".to_string(), 2);
    assert_eq!(table.get(&"a".to_string()), Some(1));
    assert_eq!(table.get(&"b".to_string()), Some(2));
    assert_eq!(table.get(&"c".to_string()), None);
    table.insert("a".to_string(), 3);
    assert_eq!(table.get(&"a".to_string()), Some(3));
    assert_eq!(table.get(&"b".to_string()), Some(2));
}

#[test]
fn symbols_are_recorded_at_their_place_in_the_merged_text() {
    let inputs = [
        object("a.o", &[0xe8, 0, 0, 0, 0, 0xc3], vec![defined("_start", 0), undefined("multiply")]),
        object("b.o", &[0x48, 0x89, 0xf8, 0x48, 0x0f, 0xaf, 0xc6, 0xc3], vec![defined("multiply", 0)]),
        object("c.o", &[0x90, 0x90, 0xc3], vec![defined("tail", 2), undefined("_start")]),
    ];
    let (text, starts) = merge_text(&inputs).unwrap();
    assert_eq!(text.len(), 17);
    assert_eq!(starts, vec![0, 6, 14]);
    let table = collect_symbols(&inputs, &starts);
    assert_eq!(table.get(&"_start".to_string()), Some(0));
    assert_eq!(table.get(&"multiply".to_string()), Some(6));
    assert_eq!(table.get(&"tail".to_string()), Some(16));
    assert_eq!(table.get(&"other".to_string()), None);
    for name in ["_start", "multiply", "tail"] {
        assert!(table.get(&name.to_string()).unwrap() < text.len() as u128);
    }
}

#[test]
fn symbol_beyond_its_text_is_recorded_where_it_points() {
    let inputs = [object("a.o", &[0xc3], vec![defined("end", 1), defined("far", u64::MAX)])];
    let (text, starts) = merge_text(&inputs).unwrap();
    let table = collect_symbols(&inputs, &starts);
    assert_eq!(text.len(), 1);
    assert_eq!(table.get(&"end".to_string()), Some(1));
    assert_eq!(table.get(&"far".to_string()), Some(u64::MAX as u128));
    let inputs = [
        object("pad.o", &[0x90; 5], vec![]),
        object("a.o", &[0xc3], vec![defined("far", u64::MAX)]),
    ];
    let (_, starts) = merge_text(&inputs).unwrap();
    let table = collect_symbols(&inputs, &starts);
    assert_eq!(table.get(&"far".to_string()), Some(u64::MAX as u128 + 5));
}

#[test]
fn merge_stops_at_the_first_object_without_text() {
    let mut second = object("second.o", &[1], vec![]);
    second.sections[0].name = "text".to_string();
    let inputs = [object("first.o", &[0], vec![]), second, Relocatable::default()];
    assert_eq!(merge_text(&inputs).unwrap_err(), WeldError::MissingText("second.o".to_string()));
    assert_eq!(merge_text(&[]).unwrap(), (vec![], vec![]));
}

#[test]
fn relocations_are_applied_pass_by_pass() {
    let target = defined("target", 4);
    let mut caller = object("a.o", &[0xe8, 0, 0, 0, 0, 0xc3], vec![defined("_start", 0)]);
    caller.relocations.push(Relocation::from(
        &RelocationWithAddend { offset: 1, info: 4, addend: -4 },
        &target,
    ));
    let inputs = [caller, object("b.o", &[0x90; 5], vec![target])];
    let (mut text, starts) = merge_text(&inputs).unwrap();
    let table = collect_symbols(&inputs, &starts);
    let mut errors = Vec::new();
    apply_relocations(&inputs, &starts, &table, &mut text, &mut errors);
    assert_eq!(errors, vec![]);
    // S = 6 + 4, P = 1, A = -4.
    assert_eq!(text, vec![0xe8, 5, 0, 0, 0, 0xc3, 0x90, 0x90, 0x90, 0x90, 0x90]);
}

#[test]
fn light_relocation_knows_one_type() {
    let entry = RelocationWithAddend { offset: 1, info: (2 << 32) | 4, addend: -4 };
    let r = X64Relocation::from(&entry, "multiply");
    assert_eq!((r.offset, r.info, r.addend), (1, (2 << 32) | 4, -4));
    assert_eq!(r.symbol_name, "multiply");
    assert_eq!(r.relo_type(), X64ReloType::R_AMD64_PLT32);
    for code in [0u64, 1, 2, 5, 0xffff_ffff] {
        let entry = RelocationWithAddend { offset: 0, info: (4 << 32) | code, addend: 0 };
        assert_eq!(X64Relocation::from(&entry, "x").relo_type(), X64ReloType::R_UNKNOWN);
    }
    assert_eq!(X64ReloType::default(), X64ReloType::R_AMD64_NONE);
    let copy = r.clone();
    assert_eq!(copy.symbol_name, "multiply");
    assert_eq!(X64Relocation::default().symbol_name, "");
}
