use weld::elf::string_table::StrTab;

#[test]
fn default() {
    let mut st = StrTab::default();

    assert_eq!(st.len(), 1);

    let foo = st.insert("foo");
    let bar = st.insert("bar");

    assert_eq!(st.len(), 9);

    assert_eq!(st.get(foo), Some("foo".to_string()));
    assert_eq!(st.get(bar), Some("bar".to_string()));
}

#[test]
fn from_buf() {
    let buf: Vec<u8> = vec![0, 65, 66, 67, 0];
    let st = StrTab::new(&buf);
    assert_eq!(st.get(0), Some("".to_string()));
    assert_eq!(st.get(1), Some("ABC".to_string()));
}

#[test]
fn default_table_is_one_zero_byte() {
    let st = StrTab::default();
    assert_eq!(st.get_bytes(), &[0u8][..]);
    assert_eq!(st.get(0), Some(String::new()));
}

#[test]
fn insert_returns_the_offset_of_the_string() {
    let mut st = StrTab::default();
    assert_eq!(st.insert("foo"), 1);
    assert_eq!(st.insert("bar"), 5);
    assert_eq!(st.get_bytes(), &[0u8, b'f', b'o', b'o', 0, b'b', b'a', b'r', 0][..]);
}

#[test]
fn get_in_the_middle_of_a_string_gives_its_tail() {
    let st = StrTab::new(&[0, b'c', b'a', b'r', b'p', b'e', b't', 0]);
    assert_eq!(st.get(1), Some("carpet".to_string()));
    assert_eq!(st.get(4), Some("pet".to_string()));
    assert_eq!(st.get(7), Some(String::new()));
}

#[test]
fn get_without_terminator_is_none() {
    let st = StrTab::new(&[0, 65, 66]);
    assert_eq!(st.get(0), Some(String::new()));
    assert_eq!(st.get(1), None);
    assert_eq!(st.get(2), None);
    assert_eq!(st.get(3), None);
    assert_eq!(st.get(100), None);
}

#[test]
fn get_of_an_empty_table_is_none() {
    let st = StrTab::new(&[]);
    assert_eq!(st.len(), 0);
    assert_eq!(st.get(0), None);
}

#[test]
fn found_string_ends_on_a_zero_byte_inside_the_table() {
    let st = StrTab::new(&[0, b'a', b'b', 0, b'c', 0]);
    for i in 0..st.len() {
        if let Some(s) = st.get(i) {
            assert!(i + s.len() + 1 <= st.len());
            assert_eq!(st.get_bytes()[i + s.len()], 0);
        }
    }
}

#[test]
fn insert_does_not_intern() {
    let mut st = StrTab::default();
    let first = st.insert("pet");
    let second = st.insert("pet");
    assert_eq!(first, 1);
    assert_eq!(second, 5);
    assert_eq!(st.len(), 9);
}

#[test]
fn insert_keeps_earlier_strings() {
    let mut st = StrTab::default();
    let text = st.insert(".text");
    let names = st.insert(".shstrtab");
    assert_eq!(st.get(text), Some(".text".to_string()));
    assert_eq!(st.get(names), Some(".shstrtab".to_string()));
    assert_eq!(st.len(), 17);
}

#[test]
fn bytes_above_ascii_are_read_one_character_each() {
    let st = StrTab::new(&[0xe9, 0]);
    assert_eq!(st.get(0), Some("\u{e9}".to_string()));
}

#[test]
fn inserted_non_ascii_string_is_stored_as_utf8() {
    let mut st = StrTab::default();
    let at = st.insert("\u{e9}");
    assert_eq!(st.get_bytes(), &[0u8, 0xc3, 0xa9, 0][..]);
    assert_eq!(st.get(at), Some("\u{c3}\u{a9}".to_string()));
}

#[test]
fn inserted_string_with_a_zero_is_cut_there() {
    let mut st = StrTab::default();
    let at = st.insert("a\0b");
    assert_eq!(st.get(at), Some("a".to_string()));
    assert_eq!(st.get(at + 2), Some("b".to_string()));
}
