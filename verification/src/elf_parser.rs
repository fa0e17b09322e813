//! The parser: from the bytes of one relocatable object to its logical form.
//!
//! The parser reads from the buffer only. It works in six passes: the file
//! header, the section-header table, the two string tables, the symbol
//! table, the relocation table and the section payloads. Every read is
//! checked against the buffer's length, and the first thing that is wrong
//! ends the parse with a [`ParseError`].
//!
//! What the parser gives is stated by [`parsed`], a function of the path and
//! the bytes alone.

use crate::elf::file::{
    info_symbol, FileHeader, RelocationWithAddend, SectionHeader, SectionType, Symbol,
    FILE_HEADER_SIZE, RELOCATION_SIZE, SECTION_HEADER_SIZE, SYMBOL_SIZE,
};
use crate::elf::logical::{
    views_of, ExecutableView, Relocatable, RelocatableView, Relocation, RelocationView, Section,
    SectionView, SymbolInfo, SymbolInfoView,
};
use crate::elf::string_table::{string_at, StrTab};
use vstd::prelude::*;
use vstd::slice::{slice_subrange, slice_to_vec};

verus! {

/// Why a buffer could not be parsed.
#[derive(Clone, Copy, Debug, PartialEq, Eq, Structural)]
pub enum ParseError {
    /// The buffer does not start with `7F 45 4C 46`.
    BadMagic,
    /// The object is not of the 64-bit class.
    UnsupportedClass,
    /// The object is not little-endian.
    UnsupportedEndianness,
    /// A read ran past the end of the buffer: it needed the buffer to hold
    /// `expected` bytes (`u64::MAX` stands for anything larger), and it holds
    /// `actual`.
    Truncated { expected: u64, actual: u64 },
    /// No section is a symbol table.
    MissingSymbolTable,
    /// The section-name string table or the symbol string table is not there.
    MissingStringTable,
    /// No string starts at `offset` in its string table: the table ends
    /// before a zero byte is met.
    BadStringOffset { offset: u32 },
    /// A relocation names the symbol at `index`, and the symbol table is
    /// shorter than that.
    BadSymbolIndex { index: u32 },
}

//  Bounds
// ========

/// Whether `count` bytes from `offset` on lie inside a buffer of `len` bytes.
/// A read of no bytes lies inside any buffer.
pub open spec fn in_bounds(offset: int, count: int, len: int) -> bool {
    count == 0 || offset + count <= len
}

/// The error for a read of `count` bytes from `offset` on that does not lie
/// inside a buffer of `len` bytes.
pub open spec fn truncated(offset: int, count: int, len: int) -> ParseError {
    ParseError::Truncated {
        expected: if offset + count > u64::MAX {
            u64::MAX
        } else {
            (offset + count) as u64
        },
        actual: len as u64,
    }
}

/// The `size` bytes from `offset` on.
pub open spec fn payload(bytes: Seq<u8>, offset: int, size: int) -> Seq<u8> {
    if size == 0 {
        Seq::empty()
    } else {
        bytes.subrange(offset, offset + size)
    }
}

/// Checks that `count` bytes from `offset` on lie inside a buffer of `len`
/// bytes.
fn check_bounds(len: usize, offset: u64, count: u64) -> (checked: Result<(), ParseError>)
    ensures
        match checked {
            Ok(_) => in_bounds(offset as int, count as int, len as int),
            Err(e) => !in_bounds(offset as int, count as int, len as int) && e == truncated(
                offset as int,
                count as int,
                len as int,
            ),
        },
{
    if count == 0 {
        return Ok(());
    }
    match offset.checked_add(count) {
        Some(end) => {
            if end <= len as u64 {
                Ok(())
            } else {
                Err(ParseError::Truncated { expected: end, actual: len as u64 })
            }
        },
        None => Err(ParseError::Truncated { expected: u64::MAX, actual: len as u64 }),
    }
}

/// Copies the `size` bytes from `offset` on.
fn copy_payload(bytes: &[u8], offset: u64, size: u64) -> (copy: Vec<u8>)
    requires
        in_bounds(offset as int, size as int, bytes.len() as int),
    ensures
        copy@ == payload(bytes@, offset as int, size as int),
{
    if size == 0 {
        Vec::new()
    } else {
        slice_to_vec(slice_subrange(bytes, offset as usize, (offset + size) as usize))
    }
}

//  Results in a row
// ==================

/// The items of a row of results, if every one of them is `Ok`; else the
/// error of the first that is not.
pub open spec fn gather<T>(items: Seq<Result<T, ParseError>>) -> Result<Seq<T>, ParseError>
    decreases items.len(),
{
    if items.len() == 0 {
        Ok(Seq::empty())
    } else {
        match gather(items.drop_last()) {
            Err(e) => Err(e),
            Ok(front) => match items.last() {
                Err(e) => Err(e),
                Ok(item) => Ok(front.push(item)),
            },
        }
    }
}

/// Where a row is gathered, each of its items is `Ok` and is found at its
/// own place in what was gathered.
pub proof fn lemma_gathered<T>(items: Seq<Result<T, ParseError>>)
    requires
        gather(items) is Ok,
    ensures
        gather(items)->Ok_0.len() == items.len(),
        forall|i: int| 0 <= i < items.len() ==> items[i] == Ok::<T, ParseError>(gather(items)->Ok_0[i]),
    decreases items.len(),
{
    if items.len() > 0 {
        let front = items.drop_last();
        lemma_gathered(front);
        assert forall|i: int| 0 <= i < items.len() implies items[i] == Ok::<T, ParseError>(
            gather(items)->Ok_0[i],
        ) by {
            if i < front.len() {
                assert(items[i] == front[i]);
            }
        }
    }
}

/// An error after `at` items that were gathered is the error of the row.
proof fn lemma_gather_stops<T>(items: Seq<Result<T, ParseError>>, at: int)
    requires
        0 <= at < items.len(),
        gather(items.take(at)) is Ok,
        items[at] is Err,
    ensures
        gather(items) == Err::<Seq<T>, ParseError>(items[at]->Err_0),
    decreases items.len(),
{
    if at == items.len() - 1 {
        assert(items.drop_last() == items.take(at));
    } else {
        assert(items.drop_last().take(at) == items.take(at));
        lemma_gather_stops(items.drop_last(), at);
    }
}

/// One more `Ok` item after `at` items that were gathered is gathered too.
proof fn lemma_gather_goes_on<T>(items: Seq<Result<T, ParseError>>, at: int)
    requires
        0 <= at < items.len(),
        gather(items.take(at)) is Ok,
        items[at] is Ok,
    ensures
        gather(items.take(at + 1)) == Ok::<Seq<T>, ParseError>(
            gather(items.take(at))->Ok_0.push(items[at]->Ok_0),
        ),
{
    assert(items.take(at + 1).drop_last() == items.take(at));
}

//  Pass 1: the file header
// =========================

/// The file header of a buffer, once it is known to be one that this linker
/// reads: long enough, with the ELF magic, of the 64-bit class and
/// little-endian.
pub open spec fn header_of(bytes: Seq<u8>) -> Result<FileHeader, ParseError> {
    let header = FileHeader::at(bytes, 0);
    let id = header.identification;
    if bytes.len() < FILE_HEADER_SIZE {
        Err(ParseError::Truncated { expected: 64, actual: bytes.len() as u64 })
    } else if !(id.magic[0] == 0x7f && id.magic[1] == 0x45 && id.magic[2] == 0x4c && id.magic[3]
        == 0x46) {
        Err(ParseError::BadMagic)
    } else if id.format_class != 2 {
        Err(ParseError::UnsupportedClass)
    } else if id.endianness != 1 {
        Err(ParseError::UnsupportedEndianness)
    } else {
        Ok(header)
    }
}

/// Reads and checks the file header.
pub fn parse_header(bytes: &[u8]) -> (parsed: Result<FileHeader, ParseError>)
    ensures
        parsed == header_of(bytes@),
{
    if bytes.len() < FILE_HEADER_SIZE {
        return Err(ParseError::Truncated { expected: 64, actual: bytes.len() as u64 });
    }
    let header = FileHeader::read(bytes, 0);
    let magic = &header.identification.magic;
    if !(magic[0] == 0x7f && magic[1] == 0x45 && magic[2] == 0x4c && magic[3] == 0x46) {
        return Err(ParseError::BadMagic);
    }
    if header.identification.format_class != 2 {
        return Err(ParseError::UnsupportedClass);
    }
    if header.identification.endianness != 1 {
        return Err(ParseError::UnsupportedEndianness);
    }
    Ok(header)
}

//  Pass 2: the section-header table
// ==================================

/// The section headers: as many as the file header counts, one after the
/// other from the offset that it gives.
pub open spec fn section_headers_of(bytes: Seq<u8>, header: FileHeader) -> Result<
    Seq<SectionHeader>,
    ParseError,
> {
    let count = header.section_header_entry_count as int;
    let start = header.section_header_offset as int;
    if !in_bounds(start, 64 * count, bytes.len() as int) {
        Err(truncated(start, 64 * count, bytes.len() as int))
    } else {
        Ok(Seq::new(count as nat, |i: int| SectionHeader::at(bytes, start + 64 * i)))
    }
}

/// Reads the section-header table.
pub fn parse_section_headers(bytes: &[u8], file_header: &FileHeader) -> (parsed: Result<
    Vec<SectionHeader>,
    ParseError,
>)
    ensures
        match parsed {
            Ok(headers) => section_headers_of(bytes@, *file_header) == Ok::<_, ParseError>(
                headers@,
            ),
            Err(e) => section_headers_of(bytes@, *file_header) == Err::<Seq<SectionHeader>, _>(e),
        },
{
    let count: usize = file_header.section_header_entry_count as usize;
    let mut section_headers: Vec<SectionHeader> = Vec::new();
    match check_bounds(bytes.len(), file_header.section_header_offset, 64 * (count as u64)) {
        Err(e) => {
            return Err(e);
        },
        Ok(_) => {},
    }
    if count == 0 {
        assert(section_headers@ =~= section_headers_of(bytes@, *file_header)->Ok_0);
        return Ok(section_headers);
    }
    let start: usize = file_header.section_header_offset as usize;
    let mut i: usize = 0;
    while i < count
        invariant
            i <= count,
            count == file_header.section_header_entry_count,
            start == file_header.section_header_offset,
            start + 64 * count <= bytes.len(),
            section_headers@ == Seq::new(
                i as nat,
                |k: int| SectionHeader::at(bytes@, start + 64 * k),
            ),
        decreases count - i,
    {
        let base: usize = start + i * SECTION_HEADER_SIZE;
        section_headers.push(SectionHeader::read(bytes, base));
        i += 1;
    }
    Ok(section_headers)
}

//  Pass 3: the string tables
// ===========================

/// The index of the first header from `from` on that is `wanted`.
pub open spec fn first_where(
    headers: Seq<SectionHeader>,
    wanted: spec_fn(SectionHeader) -> bool,
    from: int,
) -> Option<int>
    decreases headers.len() - from,
{
    if from < 0 || from >= headers.len() {
        None
    } else if wanted(headers[from]) {
        Some(from)
    } else {
        first_where(headers, wanted, from + 1)
    }
}

/// [`first_where`] gives the least index from `from` on whose header is
/// wanted, and nothing only where no header from `from` on is.
pub proof fn lemma_first_where(
    headers: Seq<SectionHeader>,
    wanted: spec_fn(SectionHeader) -> bool,
    from: int,
)
    requires
        0 <= from <= headers.len(),
    ensures
        match first_where(headers, wanted, from) {
            Some(i) => {
                &&& from <= i < headers.len()
                &&& wanted(headers[i])
                &&& forall|j: int| from <= j < i ==> !wanted(headers[j])
            },
            None => forall|j: int| from <= j < headers.len() ==> !wanted(headers[j]),
        },
    decreases headers.len() - from,
{
    if from < headers.len() && !wanted(headers[from]) {
        lemma_first_where(headers, wanted, from + 1);
    }
}

/// The headers of the type `wanted`.
pub open spec fn of_type(wanted: SectionType) -> spec_fn(SectionHeader) -> bool {
    |h: SectionHeader| h.section_type == wanted
}

/// The headers of string tables other than `names`, the header of the
/// section-name string table.
pub open spec fn other_strings(names: SectionHeader) -> spec_fn(SectionHeader) -> bool {
    |h: SectionHeader| h.section_type == SectionType::StringTable && h != names
}

/// The index of the first header of the type `wanted`.
pub open spec fn first_of_type(headers: Seq<SectionHeader>, wanted: SectionType) -> Option<int> {
    first_where(headers, of_type(wanted), 0)
}

/// The index of the symbol string table: the first header of a string table
/// that is not the header `names`, that of the section-name string table.
pub open spec fn first_other_strings(headers: Seq<SectionHeader>, names: SectionHeader) -> Option<
    int,
> {
    first_where(headers, other_strings(names), 0)
}

/// Finds the first header of the type `wanted`.
fn find_type(headers: &[SectionHeader], wanted: SectionType) -> (found: Option<usize>)
    ensures
        match found {
            Some(i) => first_of_type(headers@, wanted) == Some(i as int),
            None => first_of_type(headers@, wanted) is None,
        },
{
    let mut i: usize = 0;
    while i < headers.len()
        invariant
            i <= headers@.len(),
            first_where(headers@, of_type(wanted), 0) == first_where(
                headers@,
                of_type(wanted),
                i as int,
            ),
        decreases headers@.len() - i,
    {
        if headers[i].section_type == wanted {
            return Some(i);
        }
        i += 1;
    }
    None
}

/// The bytes of the string table that `header` describes.
pub open spec fn string_table_of(bytes: Seq<u8>, header: SectionHeader) -> Result<
    Seq<u8>,
    ParseError,
> {
    if !in_bounds(header.offset as int, header.size as int, bytes.len() as int) {
        Err(truncated(header.offset as int, header.size as int, bytes.len() as int))
    } else {
        Ok(payload(bytes, header.offset as int, header.size as int))
    }
}

/// The bytes of the section-name string table: the section at the index that
/// the file header gives.
pub open spec fn section_names_of(
    bytes: Seq<u8>,
    headers: Seq<SectionHeader>,
    header: FileHeader,
) -> Result<Seq<u8>, ParseError> {
    let index = header.sh_section_name_stringtab_entry_index as int;
    if index >= headers.len() {
        Err(ParseError::MissingStringTable)
    } else {
        string_table_of(bytes, headers[index])
    }
}

/// The bytes of the symbol string table: the first string table that is not
/// the section-name string table.
pub open spec fn symbol_strings_of(
    bytes: Seq<u8>,
    headers: Seq<SectionHeader>,
    header: FileHeader,
) -> Result<Seq<u8>, ParseError> {
    let index = header.sh_section_name_stringtab_entry_index as int;
    if index >= headers.len() {
        Err(ParseError::MissingStringTable)
    } else {
        match first_other_strings(headers, headers[index]) {
            None => Err(ParseError::MissingStringTable),
            Some(k) => string_table_of(bytes, headers[k]),
        }
    }
}

/// Copies the string table that `header` describes.
pub fn parse_string_table(bytes: &[u8], header: &SectionHeader) -> (parsed: Result<
    StrTab,
    ParseError,
>)
    ensures
        match parsed {
            Ok(table) => string_table_of(bytes@, *header) == Ok::<_, ParseError>(table@),
            Err(e) => string_table_of(bytes@, *header) == Err::<Seq<u8>, _>(e),
        },
{
    match check_bounds(bytes.len(), header.offset, header.size) {
        Err(e) => Err(e),
        Ok(_) => {
            if header.size == 0 {
                let empty: Vec<u8> = Vec::new();
                Ok(StrTab::new(empty.as_slice()))
            } else {
                Ok(
                    StrTab::new(
                        slice_subrange(
                            bytes,
                            header.offset as usize,
                            (header.offset + header.size) as usize,
                        ),
                    ),
                )
            }
        },
    }
}

/// Copies the section-name string table.
pub fn parse_section_name_string_table(
    bytes: &[u8],
    section_headers: &[SectionHeader],
    file_header: &FileHeader,
) -> (parsed: Result<StrTab, ParseError>)
    ensures
        match parsed {
            Ok(table) => section_names_of(bytes@, section_headers@, *file_header) == Ok::<
                _,
                ParseError,
            >(table@),
            Err(e) => section_names_of(bytes@, section_headers@, *file_header) == Err::<
                Seq<u8>,
                _,
            >(e),
        },
{
    let index: usize = file_header.sh_section_name_stringtab_entry_index as usize;
    if index >= section_headers.len() {
        return Err(ParseError::MissingStringTable);
    }
    parse_string_table(bytes, &section_headers[index])
}

/// Copies the symbol string table.
pub fn parse_symbol_string_table(
    bytes: &[u8],
    section_headers: &[SectionHeader],
    file_header: &FileHeader,
) -> (parsed: Result<StrTab, ParseError>)
    ensures
        match parsed {
            Ok(table) => symbol_strings_of(bytes@, section_headers@, *file_header) == Ok::<
                _,
                ParseError,
            >(table@),
            Err(e) => symbol_strings_of(bytes@, section_headers@, *file_header) == Err::<
                Seq<u8>,
                _,
            >(e),
        },
{
    let index: usize = file_header.sh_section_name_stringtab_entry_index as usize;
    if index >= section_headers.len() {
        return Err(ParseError::MissingStringTable);
    }
    let names = section_headers[index];
    let mut i: usize = 0;
    while i < section_headers.len()
        invariant
            i <= section_headers@.len(),
            index == file_header.sh_section_name_stringtab_entry_index,
            index < section_headers@.len(),
            names == section_headers@[index as int],
            first_where(section_headers@, other_strings(names), 0) == first_where(
                section_headers@,
                other_strings(names),
                i as int,
            ),
        decreases section_headers@.len() - i,
    {
        let candidate = section_headers[i];
        if candidate.section_type == SectionType::StringTable && candidate != names {
            return parse_string_table(bytes, &section_headers[i]);
        }
        i += 1;
    }
    Err(ParseError::MissingStringTable)
}

//  Pass 4: the symbol table
// ==========================

/// The symbol at `at`, under the name that the symbol string table gives it.
pub open spec fn symbol_entry(bytes: Seq<u8>, strings: Seq<u8>, at: int) -> Result<
    SymbolInfoView,
    ParseError,
> {
    let symbol = Symbol::at(bytes, at);
    match string_at(strings, symbol.name as int) {
        Some(name) => Ok(SymbolInfoView { name, symbol }),
        None => Err(ParseError::BadStringOffset { offset: symbol.name }),
    }
}

/// How many entries of 24 bytes the table that `table` describes holds. What
/// is left over at the end of the table is not an entry.
pub open spec fn entries(table: SectionHeader) -> nat {
    (table.size / 24) as nat
}

/// The symbols of the table that starts at `start` and holds `count`
/// entries, each read by itself.
pub open spec fn symbol_rows(bytes: Seq<u8>, strings: Seq<u8>, start: int, count: nat) -> Seq<
    Result<SymbolInfoView, ParseError>,
> {
    Seq::new(count, |i: int| symbol_entry(bytes, strings, start + 24 * i))
}

/// The symbols of the table that `table` describes, read with the names in
/// `strings`.
pub open spec fn symbol_table_of(bytes: Seq<u8>, table: SectionHeader, strings: Seq<u8>) -> Result<
    Seq<SymbolInfoView>,
    ParseError,
> {
    let start = table.offset as int;
    if !in_bounds(start, 24 * (entries(table) as int), bytes.len() as int) {
        Err(truncated(start, 24 * (entries(table) as int), bytes.len() as int))
    } else {
        gather(symbol_rows(bytes, strings, start, entries(table)))
    }
}

/// The symbols, in the order of the symbol table: the first section that is
/// a symbol table, read with the names of the symbol string table.
pub open spec fn symbols_of(bytes: Seq<u8>, headers: Seq<SectionHeader>, header: FileHeader) -> Result<
    Seq<SymbolInfoView>,
    ParseError,
> {
    match symbol_strings_of(bytes, headers, header) {
        Err(e) => Err(e),
        Ok(strings) => match first_of_type(headers, SectionType::SymbolTable) {
            None => Err(ParseError::MissingSymbolTable),
            Some(k) => symbol_table_of(bytes, headers[k], strings),
        },
    }
}

/// Reads the symbol at `at` and looks up its name.
fn read_symbol(bytes: &[u8], at: usize, symbol_names: &StrTab) -> (entry: Result<
    SymbolInfo,
    ParseError,
>)
    requires
        at + SYMBOL_SIZE <= bytes.len(),
    ensures
        match entry {
            Ok(info) => symbol_entry(bytes@, symbol_names@, at as int) == Ok::<_, ParseError>(
                info@,
            ),
            Err(e) => symbol_entry(bytes@, symbol_names@, at as int) == Err::<SymbolInfoView, _>(
                e,
            ),
        },
{
    let symbol = Symbol::read(bytes, at);
    match symbol_names.get(symbol.name as usize) {
        None => Err(ParseError::BadStringOffset { offset: symbol.name }),
        Some(name) => Ok(SymbolInfo { name, symbol }),
    }
}

/// Reads the symbol table.
pub fn parse_symbol_table(
    bytes: &[u8],
    section_headers: &[SectionHeader],
    file_header: &FileHeader,
) -> (parsed: Result<Vec<SymbolInfo>, ParseError>)
    ensures
        match parsed {
            Ok(symbols) => symbols_of(bytes@, section_headers@, *file_header) == Ok::<
                _,
                ParseError,
            >(views_of(symbols@)),
            Err(e) => symbols_of(bytes@, section_headers@, *file_header) == Err::<
                Seq<SymbolInfoView>,
                _,
            >(e),
        },
{
    let symbol_names = match parse_symbol_string_table(bytes, section_headers, file_header) {
        Err(e) => {
            return Err(e);
        },
        Ok(table) => table,
    };
    let header = match find_type(section_headers, SectionType::SymbolTable) {
        None => {
            return Err(ParseError::MissingSymbolTable);
        },
        Some(k) => {
            proof {
                lemma_first_where(section_headers@, of_type(SectionType::SymbolTable), 0);
            }
            section_headers[k]
        },
    };
    let num_symbols: u64 = header.size / 24;
    match check_bounds(bytes.len(), header.offset, 24 * num_symbols) {
        Err(e) => {
            return Err(e);
        },
        Ok(_) => {},
    }
    let ghost items = symbol_rows(bytes@, symbol_names@, header.offset as int, entries(header));
    let ghost goal = symbols_of(bytes@, section_headers@, *file_header);
    assert(goal == gather(items));
    let mut symbols: Vec<SymbolInfo> = Vec::new();
    assert(views_of(symbols@) =~= Seq::empty());
    assert(items.take(0) =~= Seq::empty());
    if num_symbols == 0 {
        assert(items =~= Seq::empty());
        return Ok(symbols);
    }
    let count: usize = num_symbols as usize;
    let start: usize = header.offset as usize;
    let mut i: usize = 0;
    while i < count
        invariant
            i <= count,
            start + 24 * count <= bytes.len(),
            items == symbol_rows(bytes@, symbol_names@, start as int, count as nat),
            gather(items.take(i as int)) == Ok::<_, ParseError>(views_of(symbols@)),
            goal == gather(items),
            goal == symbols_of(bytes@, section_headers@, *file_header),
        decreases count - i,
    {
        match read_symbol(bytes, start + i * SYMBOL_SIZE, &symbol_names) {
            Err(e) => {
                proof {
                    lemma_gather_stops(items, i as int);
                }
                return Err(e);
            },
            Ok(info) => {
                proof {
                    lemma_gather_goes_on(items, i as int);
                }
                let ghost before = symbols@;
                symbols.push(info);
                assert(views_of(symbols@) =~= views_of(before).push(items[i as int]->Ok_0));
            },
        }
        i += 1;
    }
    assert(items.take(i as int) == items);
    Ok(symbols)
}

//  Pass 5: the relocation table
// ==============================

/// The relocation at `at`, with a copy of the symbol that it names.
pub open spec fn relocation_entry(bytes: Seq<u8>, symbols: Seq<SymbolInfoView>, at: int) -> Result<
    RelocationView,
    ParseError,
> {
    let entry = RelocationWithAddend::at(bytes, at);
    let index = info_symbol(entry.info);
    if index < symbols.len() {
        Ok(
            RelocationView {
                offset: entry.offset,
                info: entry.info,
                addend: entry.addend,
                symbol: symbols[index as int],
            },
        )
    } else {
        Err(ParseError::BadSymbolIndex { index: index as u32 })
    }
}

/// The relocations of the table that starts at `start` and holds `count`
/// entries, each read by itself.
pub open spec fn relocation_rows(
    bytes: Seq<u8>,
    symbols: Seq<SymbolInfoView>,
    start: int,
    count: nat,
) -> Seq<Result<RelocationView, ParseError>> {
    Seq::new(count, |i: int| relocation_entry(bytes, symbols, start + 24 * i))
}

/// The relocations of the table that `table` describes.
pub open spec fn relocation_table_of(
    bytes: Seq<u8>,
    table: SectionHeader,
    symbols: Seq<SymbolInfoView>,
) -> Result<Seq<RelocationView>, ParseError> {
    let start = table.offset as int;
    if !in_bounds(start, 24 * (entries(table) as int), bytes.len() as int) {
        Err(truncated(start, 24 * (entries(table) as int), bytes.len() as int))
    } else {
        gather(relocation_rows(bytes, symbols, start, entries(table)))
    }
}

/// The relocations: those of the first section that is a relocation table
/// with addends, in its order; none where no section is one.
pub open spec fn relocations_of(
    bytes: Seq<u8>,
    headers: Seq<SectionHeader>,
    symbols: Seq<SymbolInfoView>,
) -> Result<Seq<RelocationView>, ParseError> {
    match first_of_type(headers, SectionType::RelocationWithAddend) {
        None => Ok(Seq::empty()),
        Some(k) => relocation_table_of(bytes, headers[k], symbols),
    }
}

/// Reads the relocation at `at` and copies the symbol that it names.
fn read_relocation(bytes: &[u8], at: usize, symbol_table: &[SymbolInfo]) -> (entry: Result<
    Relocation,
    ParseError,
>)
    requires
        at + RELOCATION_SIZE <= bytes.len(),
    ensures
        match entry {
            Ok(relocation) => relocation_entry(bytes@, views_of(symbol_table@), at as int) == Ok::<
                _,
                ParseError,
            >(relocation@),
            Err(e) => relocation_entry(bytes@, views_of(symbol_table@), at as int) == Err::<
                RelocationView,
                _,
            >(e),
        },
{
    let r = RelocationWithAddend::read(bytes, at);
    let index: usize = r.symbol();
    if index >= symbol_table.len() {
        return Err(ParseError::BadSymbolIndex { index: index as u32 });
    }
    Ok(Relocation::from(&r, &symbol_table[index]))
}

/// Reads the relocation table.
pub fn parse_relocations(
    bytes: &[u8],
    section_headers: &[SectionHeader],
    symbol_table: &[SymbolInfo],
) -> (parsed: Result<Vec<Relocation>, ParseError>)
    ensures
        match parsed {
            Ok(relocations) => relocations_of(bytes@, section_headers@, views_of(symbol_table@))
                == Ok::<_, ParseError>(views_of(relocations@)),
            Err(e) => relocations_of(bytes@, section_headers@, views_of(symbol_table@)) == Err::<
                Seq<RelocationView>,
                _,
            >(e),
        },
{
    let mut relocations: Vec<Relocation> = Vec::new();
    assert(views_of(relocations@) =~= Seq::empty());
    let header = match find_type(section_headers, SectionType::RelocationWithAddend) {
        None => {
            return Ok(relocations);
        },
        Some(k) => {
            proof {
                lemma_first_where(section_headers@, of_type(SectionType::RelocationWithAddend), 0);
            }
            section_headers[k]
        },
    };
    let num_relocs: u64 = header.size / 24;
    match check_bounds(bytes.len(), header.offset, 24 * num_relocs) {
        Err(e) => {
            return Err(e);
        },
        Ok(_) => {},
    }
    let ghost items = relocation_rows(
        bytes@,
        views_of(symbol_table@),
        header.offset as int,
        entries(header),
    );
    let ghost goal = relocations_of(bytes@, section_headers@, views_of(symbol_table@));
    assert(goal == gather(items));
    assert(items.take(0) =~= Seq::empty());
    if num_relocs == 0 {
        assert(items =~= Seq::empty());
        return Ok(relocations);
    }
    let count: usize = num_relocs as usize;
    let start: usize = header.offset as usize;
    let mut i: usize = 0;
    while i < count
        invariant
            i <= count,
            start + 24 * count <= bytes.len(),
            items == relocation_rows(bytes@, views_of(symbol_table@), start as int, count as nat),
            gather(items.take(i as int)) == Ok::<_, ParseError>(views_of(relocations@)),
            goal == gather(items),
            goal == relocations_of(bytes@, section_headers@, views_of(symbol_table@)),
        decreases count - i,
    {
        match read_relocation(bytes, start + i * RELOCATION_SIZE, symbol_table) {
            Err(e) => {
                proof {
                    lemma_gather_stops(items, i as int);
                }
                return Err(e);
            },
            Ok(relocation) => {
                proof {
                    lemma_gather_goes_on(items, i as int);
                }
                let ghost before = relocations@;
                relocations.push(relocation);
                assert(views_of(relocations@) =~= views_of(before).push(items[i as int]->Ok_0));
            },
        }
        i += 1;
    }
    assert(items.take(i as int) == items);
    Ok(relocations)
}

//  Pass 6: the section payloads
// ==============================

/// The section that `header` describes: its name from the section-name
/// string table, and as payload the bytes that the header points at.
pub open spec fn section_entry(bytes: Seq<u8>, names: Seq<u8>, header: SectionHeader) -> Result<
    SectionView,
    ParseError,
> {
    match string_at(names, header.name as int) {
        None => Err(ParseError::BadStringOffset { offset: header.name }),
        Some(name) => if !in_bounds(
            header.offset as int,
            header.size as int,
            bytes.len() as int,
        ) {
            Err(truncated(header.offset as int, header.size as int, bytes.len() as int))
        } else {
            Ok(
                SectionView {
                    name,
                    bytes: payload(bytes, header.offset as int, header.size as int),
                    offset: header.offset,
                    virtual_address: header.virtual_address,
                },
            )
        },
    }
}

/// The sections that `headers` describe, each read by itself.
pub open spec fn section_rows(bytes: Seq<u8>, headers: Seq<SectionHeader>, names: Seq<u8>) -> Seq<
    Result<SectionView, ParseError>,
> {
    Seq::new(headers.len(), |i: int| section_entry(bytes, names, headers[i]))
}

/// The sections, one for each header and in the order of the headers.
pub open spec fn sections_of(bytes: Seq<u8>, headers: Seq<SectionHeader>, names: Seq<u8>) -> Result<
    Seq<SectionView>,
    ParseError,
> {
    gather(section_rows(bytes, headers, names))
}

/// Reads the name and the payload of the section that `header` describes.
fn read_section(bytes: &[u8], header: &SectionHeader, section_names: &StrTab) -> (entry: Result<
    Section,
    ParseError,
>)
    ensures
        match entry {
            Ok(section) => section_entry(bytes@, section_names@, *header) == Ok::<_, ParseError>(
                section@,
            ),
            Err(e) => section_entry(bytes@, section_names@, *header) == Err::<SectionView, _>(e),
        },
{
    let name = match section_names.get(header.name as usize) {
        None => {
            return Err(ParseError::BadStringOffset { offset: header.name });
        },
        Some(name) => name,
    };
    match check_bounds(bytes.len(), header.offset, header.size) {
        Err(e) => {
            return Err(e);
        },
        Ok(_) => {},
    }
    Ok(
        Section {
            name,
            bytes: copy_payload(bytes, header.offset, header.size),
            offset: header.offset,
            virtual_address: header.virtual_address,
        },
    )
}

/// Reads the name and the payload of every section.
pub fn parse_sections(bytes: &[u8], section_headers: &[SectionHeader], section_names: &StrTab) -> (parsed:
    Result<Vec<Section>, ParseError>)
    ensures
        match parsed {
            Ok(sections) => sections_of(bytes@, section_headers@, section_names@) == Ok::<
                _,
                ParseError,
            >(views_of(sections@)),
            Err(e) => sections_of(bytes@, section_headers@, section_names@) == Err::<
                Seq<SectionView>,
                _,
            >(e),
        },
{
    let ghost items = section_rows(bytes@, section_headers@, section_names@);
    let mut sections: Vec<Section> = Vec::new();
    assert(views_of(sections@) =~= Seq::empty());
    assert(items.take(0) =~= Seq::empty());
    let mut i: usize = 0;
    while i < section_headers.len()
        invariant
            i <= section_headers@.len(),
            items == section_rows(bytes@, section_headers@, section_names@),
            gather(items.take(i as int)) == Ok::<_, ParseError>(views_of(sections@)),
        decreases section_headers@.len() - i,
    {
        match read_section(bytes, &section_headers[i], section_names) {
            Err(e) => {
                proof {
                    lemma_gather_stops(items, i as int);
                }
                return Err(e);
            },
            Ok(section) => {
                proof {
                    lemma_gather_goes_on(items, i as int);
                }
                let ghost before = sections@;
                sections.push(section);
                assert(views_of(sections@) =~= views_of(before).push(items[i as int]->Ok_0));
            },
        }
        i += 1;
    }
    assert(items.take(i as int) == items);
    Ok(sections)
}

//  The whole parse
// =================

/// The object that a buffer holds, or the first thing that is wrong with the
/// buffer. `path` is a label: nothing is read from it.
pub open spec fn parsed(path: Seq<char>, bytes: Seq<u8>) -> Result<RelocatableView, ParseError> {
    match header_of(bytes) {
        Err(e) => Err(e),
        Ok(header) => match section_headers_of(bytes, header) {
            Err(e) => Err(e),
            Ok(headers) => match section_names_of(bytes, headers, header) {
                Err(e) => Err(e),
                Ok(names) => match symbols_of(bytes, headers, header) {
                    Err(e) => Err(e),
                    Ok(symbols) => match relocations_of(bytes, headers, symbols) {
                        Err(e) => Err(e),
                        Ok(relocations) => match sections_of(bytes, headers, names) {
                            Err(e) => Err(e),
                            Ok(sections) => Ok(
                                RelocatableView { path, sections, relocations, symbols },
                            ),
                        },
                    },
                },
            },
        },
    }
}

/// Parses the object in `bytes`. `path` says where the bytes came from; it
/// becomes the object's path and is not opened.
pub fn parse(path: &str, bytes: &[u8]) -> (object: Result<Relocatable, ParseError>)
    ensures
        match object {
            Ok(relocatable) => parsed(path@, bytes@) == Ok::<_, ParseError>(relocatable@),
            Err(e) => parsed(path@, bytes@) == Err::<RelocatableView, _>(e),
        },
{
    let header = match parse_header(bytes) {
        Err(e) => {
            return Err(e);
        },
        Ok(header) => header,
    };
    let section_headers = match parse_section_headers(bytes, &header) {
        Err(e) => {
            return Err(e);
        },
        Ok(headers) => headers,
    };
    let section_names = match parse_section_name_string_table(
        bytes,
        section_headers.as_slice(),
        &header,
    ) {
        Err(e) => {
            return Err(e);
        },
        Ok(table) => table,
    };
    let symbols = match parse_symbol_table(bytes, section_headers.as_slice(), &header) {
        Err(e) => {
            return Err(e);
        },
        Ok(symbols) => symbols,
    };
    let relocations = match parse_relocations(
        bytes,
        section_headers.as_slice(),
        symbols.as_slice(),
    ) {
        Err(e) => {
            return Err(e);
        },
        Ok(relocations) => relocations,
    };
    let sections = match parse_sections(bytes, section_headers.as_slice(), &section_names) {
        Err(e) => {
            return Err(e);
        },
        Ok(sections) => sections,
    };
    Ok(Relocatable { path: path.to_owned(), sections, relocations, symbols })
}

/// Where the sections are read, there is one for each header; each has its
/// header's offset, and its payload lies in the buffer at that offset.
pub proof fn lemma_sections_as_headers(bytes: Seq<u8>, headers: Seq<SectionHeader>, names: Seq<u8>)
    requires
        sections_of(bytes, headers, names) is Ok,
    ensures
        sections_of(bytes, headers, names)->Ok_0.len() == headers.len(),
        forall|i: int|
            #![trigger sections_of(bytes, headers, names)->Ok_0[i]]
            0 <= i < headers.len() ==> {
                let section = sections_of(bytes, headers, names)->Ok_0[i];
                &&& section.offset == headers[i].offset
                &&& section.virtual_address == headers[i].virtual_address
                &&& section.bytes.len() == headers[i].size
                &&& string_at(names, headers[i].name as int) == Some(section.name)
                &&& section.bytes.len() > 0 ==> section.offset + section.bytes.len() <= bytes.len()
                    && bytes.subrange(
                    section.offset as int,
                    section.offset + section.bytes.len(),
                ) == section.bytes
            },
{
    let items = section_rows(bytes, headers, names);
    lemma_gathered(items);
    assert forall|i: int| 0 <= i < headers.len() implies {
        let section = #[trigger] sections_of(bytes, headers, names)->Ok_0[i];
        &&& section.offset == headers[i].offset
        &&& section.virtual_address == headers[i].virtual_address
        &&& section.bytes.len() == headers[i].size
        &&& string_at(names, headers[i].name as int) == Some(section.name)
        &&& section.bytes.len() > 0 ==> section.offset + section.bytes.len() <= bytes.len()
            && bytes.subrange(section.offset as int, section.offset + section.bytes.len())
            == section.bytes
    } by {
        assert(items[i] == section_entry(bytes, names, headers[i]));
        assert(items[i] is Ok);
    }
}

/// The payload of every section of a parsed object lies in the buffer at the
/// section's own offset: writing the payloads back there gives the bytes
/// that were read.
pub proof fn lemma_payloads_lie_in_buffer(path: Seq<char>, bytes: Seq<u8>)
    requires
        parsed(path, bytes) is Ok,
    ensures
        forall|i: int|
            #![trigger parsed(path, bytes)->Ok_0.sections[i]]
            0 <= i < parsed(path, bytes)->Ok_0.sections.len() ==> {
                let section = parsed(path, bytes)->Ok_0.sections[i];
                section.bytes.len() > 0 ==> section.offset + section.bytes.len() <= bytes.len()
                    && bytes.subrange(
                    section.offset as int,
                    section.offset + section.bytes.len(),
                ) == section.bytes
            },
{
    let header = header_of(bytes)->Ok_0;
    let headers = section_headers_of(bytes, header)->Ok_0;
    let names = section_names_of(bytes, headers, header)->Ok_0;
    lemma_sections_as_headers(bytes, headers, names);
    assert(parsed(path, bytes)->Ok_0.sections == sections_of(bytes, headers, names)->Ok_0);
}

/// A parsed object carries the path it was given, has one section for each
/// section header that the file header counts, and is consistent: each of
/// its relocations carries the symbol that its `info` names.
pub proof fn lemma_parsed_shape(path: Seq<char>, bytes: Seq<u8>)
    requires
        parsed(path, bytes) is Ok,
    ensures
        parsed(path, bytes)->Ok_0.path == path,
        parsed(path, bytes)->Ok_0.sections.len() == FileHeader::at(
            bytes,
            0,
        ).section_header_entry_count,
        parsed(path, bytes)->Ok_0.consistent(),
{
    let header = header_of(bytes)->Ok_0;
    let headers = section_headers_of(bytes, header)->Ok_0;
    let names = section_names_of(bytes, headers, header)->Ok_0;
    let symbols = symbols_of(bytes, headers, header)->Ok_0;
    let object = parsed(path, bytes)->Ok_0;
    lemma_sections_as_headers(bytes, headers, names);
    assert(object.sections == sections_of(bytes, headers, names)->Ok_0);
    assert(object.relocations == relocations_of(bytes, headers, symbols)->Ok_0);
    match first_of_type(headers, SectionType::RelocationWithAddend) {
        None => {},
        Some(t) => {
            let rows = relocation_rows(
                bytes,
                symbols,
                headers[t].offset as int,
                entries(headers[t]),
            );
            lemma_gathered(rows);
            assert forall|k: int| 0 <= k < object.relocations.len() implies {
                let index = info_symbol((#[trigger] object.relocations[k]).info);
                index < object.symbols.len() && object.relocations[k].symbol
                    == object.symbols[index as int]
            } by {
                assert(rows[k] == relocation_entry(
                    bytes,
                    symbols,
                    headers[t].offset as int + 24 * k,
                ));
                assert(rows[k] is Ok);
            }
        },
    }
}

//  Reading what was written
// ==========================

/// The file header of a consistent executable passes the checks of the
/// parser, and is read from the file as it is held.
pub proof fn lemma_written_header_is_read(e: ExecutableView)
    requires
        e.consistent(),
    ensures
        header_of(e.image()) == Ok::<_, ParseError>(e.file_header),
{
    e.lemma_file_header_reads_back();
}

/// The section headers of a consistent executable are read from the file as
/// they are held.
pub proof fn lemma_written_section_headers_are_read(e: ExecutableView)
    requires
        e.consistent(),
    ensures
        section_headers_of(e.image(), e.file_header) == Ok::<_, ParseError>(e.section_headers),
{
    let image = e.image();
    e.lemma_image_layout();
    assert forall|i: int| 0 <= i < e.section_headers.len() implies SectionHeader::at(
        image,
        e.section_table_offset() + 64 * i,
    ) == #[trigger] e.section_headers[i] by {
        e.lemma_section_header_reads_back(i);
    }
    assert(section_headers_of(image, e.file_header)->Ok_0 =~= e.section_headers);
}

/// The section names of a consistent executable are read from the file as
/// they are held.
pub proof fn lemma_written_section_names_are_read(e: ExecutableView)
    requires
        e.consistent(),
    ensures
        section_names_of(e.image(), e.section_headers, e.file_header) == Ok::<_, ParseError>(
            e.shstrtab,
        ),
{
    e.lemma_image_layout();
    if e.shstrtab.len() == 0 {
        assert(e.shstrtab =~= Seq::<u8>::empty());
    }
}

} // verus!
