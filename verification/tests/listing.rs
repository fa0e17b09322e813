use weld::elf::listing::{add_line, listing, Line};
use weld::elf::logical::Section;

fn line(address: u64, length: usize, text: &str) -> Line {
    Line { address, length, text: text.to_string() }
}

#[test]
fn listing_of_mov_and_ret() {
    let lines = listing(&[0xb8, 0x2a, 0x00, 0x00, 0x00, 0xc3], 0).unwrap();
    assert_eq!(lines, vec![line(0, 5, "mov $0x2A,%eax"), line(5, 1, "ret")]);
}

#[test]
fn listing_at_an_address() {
    let code = [0x48, 0x89, 0xf8, 0x48, 0x0f, 0xaf, 0xc6, 0xc3];
    let lines = listing(&code, 0x401006).unwrap();
    assert_eq!(
        lines,
        vec![
            line(0x401006, 3, "mov %rdi,%rax"),
            line(0x401009, 4, "imul %rsi,%rax"),
            line(0x40100d, 1, "ret"),
        ]
    );
}

#[test]
fn call_reads_with_the_address_it_goes_to() {
    let lines = listing(&[0xe8, 0x01, 0x00, 0x00, 0x00, 0xc3], 0x1000).unwrap();
    assert_eq!(lines, vec![line(0x1000, 5, "call 0x0000000000001006"), line(0x1005, 1, "ret")]);
}

#[test]
fn listing_of_no_bytes_has_no_lines() {
    assert_eq!(listing(&[], 0x1234).unwrap(), vec![]);
}

#[test]
fn lines_of_a_listing_follow_one_another() {
    let code: Vec<u8> = (0..=255u8).chain([0x0f, 0x0b, 0xe8, 0x00]).collect();
    let ip = u64::MAX - 100;
    let lines = listing(&code, ip).unwrap();
    let mut at = 0usize;
    for l in &lines {
        assert_eq!(l.address, ip.wrapping_add(at as u64));
        assert!(1 <= l.length && l.length <= code.len() - at);
        let alone = listing(&code[at..], l.address).unwrap();
        assert_eq!(&alone[0], l);
        at += l.length;
    }
    assert_eq!(at, code.len());
}

#[test]
fn bytes_that_are_no_instruction_are_listed_as_bad() {
    // A `mov` that is cut short.
    let lines = listing(&[0xc3, 0xb8, 0x2a], 0).unwrap();
    assert_eq!(lines, vec![line(0, 1, "ret"), line(1, 2, "(bad)")]);
    let lines = listing(&[0x06, 0xc3, 0xb8, 0x2a], 0).unwrap();
    assert_eq!(lines, vec![line(0, 2, "(bad)"), line(2, 2, "(bad)")]);
}

#[test]
fn only_the_text_section_is_listed() {
    let mut section = Section {
        name: ".text".to_string(),
        bytes: vec![0xb8, 0x2a, 0x00, 0x00, 0x00, 0xc3],
        offset: 64,
        virtual_address: 0,
    };
    assert_eq!(
        section.listing().unwrap(),
        vec![line(64, 5, "mov $0x2A,%eax"), line(69, 1, "ret")]
    );
    section.name = ".data".to_string();
    assert_eq!(section.listing().unwrap(), vec![]);
    section.name = String::new();
    assert_eq!(section.listing().unwrap(), vec![]);
}

#[test]
fn add_line_counts_on() {
    let mut lines = vec![line(7, 5, "nop")];
    let next = add_line(&mut lines, u64::MAX, 3, 2, "ret".to_string());
    assert_eq!(next, 5);
    assert_eq!(lines, vec![line(7, 5, "nop"), line(2, 2, "ret")]);
}
