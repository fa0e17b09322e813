//! The logical view of ELF files.
//!
//! The fixed-size records of [`crate::elf::file`] are what a file holds; they
//! are awkward to work on. The types here carry names as strings and
//! payloads as byte vectors, and they are what the parser gives and the linker
//! takes: in the simplest terms, linking turns a sequence of [`Relocatable`]s
//! into one [`Executable`].
//!
//! Each type has a view, a value of pure mathematics that the contracts are
//! stated over.

use crate::elf::file::{
    elf_magic, info_symbol, info_type, FileHeader, ProgramHeader, RelocationWithAddend, SectionHeader,
    SectionType, Symbol, FILE_HEADER_SIZE, PROGRAM_HEADER_SIZE, SECTION_HEADER_SIZE,
};
use crate::elf::string_table::StrTab;
use crate::elf::wire::{lemma_piece_of_piece, write_bytes};
use vstd::prelude::*;

verus! {

/// The views of the items of a sequence, in the same order.
pub open spec fn views_of<T: View>(items: Seq<T>) -> Seq<T::V> {
    Seq::new(items.len(), |i: int| items[i]@)
}

//  Sections
// ==========

/// A section of an object file: its name and its payload, with the place it
/// had in the file it came from.
#[derive(Debug)]
pub struct Section {
    pub name: String,
    pub bytes: Vec<u8>,
    pub offset: u64,
    pub virtual_address: u64,
}

/// What a [`Section`] holds.
pub struct SectionView {
    pub name: Seq<char>,
    pub bytes: Seq<u8>,
    pub offset: u64,
    pub virtual_address: u64,
}

impl View for Section {
    type V = SectionView;

    open spec fn view(&self) -> SectionView {
        SectionView {
            name: self.name@,
            bytes: self.bytes@,
            offset: self.offset,
            virtual_address: self.virtual_address,
        }
    }
}

impl Default for Section {
    /// The section without a name and without bytes.
    fn default() -> (section: Section)
        ensures
            section@ == (SectionView {
                name: Seq::empty(),
                bytes: Seq::empty(),
                offset: 0,
                virtual_address: 0,
            }),
    {
        Section { name: String::new(), bytes: Vec::new(), offset: 0, virtual_address: 0 }
    }
}

//  Symbols
// =========

/// A symbol-table entry together with the name that its name offset stands
/// for.
#[derive(Debug)]
pub struct SymbolInfo {
    pub name: String,
    pub symbol: Symbol,
}

/// What a [`SymbolInfo`] holds.
pub struct SymbolInfoView {
    pub name: Seq<char>,
    pub symbol: Symbol,
}

impl SymbolInfoView {
    /// A symbol is defined where it names the section it lies in.
    pub open spec fn is_defined(self) -> bool {
        self.symbol.relative_to_section != 0
    }
}

impl View for SymbolInfo {
    type V = SymbolInfoView;

    open spec fn view(&self) -> SymbolInfoView {
        SymbolInfoView { name: self.name@, symbol: self.symbol }
    }
}

impl Clone for SymbolInfo {
    fn clone(&self) -> (copy: SymbolInfo)
        ensures
            copy@ == self@,
    {
        SymbolInfo { name: self.name.clone(), symbol: self.symbol }
    }
}

impl Default for SymbolInfo {
    /// The undefined symbol without a name.
    fn default() -> (info: SymbolInfo)
        ensures
            info@ == (SymbolInfoView { name: Seq::empty(), symbol: Symbol::zero() }),
    {
        SymbolInfo { name: String::new(), symbol: Symbol::default() }
    }
}

impl SymbolInfo {
    /// The entry `s` under the name `name`.
    pub fn from(s: &Symbol, name: &str) -> (info: SymbolInfo)
        ensures
            info@ == (SymbolInfoView { name: name@, symbol: *s }),
    {
        SymbolInfo { name: name.to_owned(), symbol: *s }
    }

    /// Whether the symbol is defined in the object that holds it: whether its
    /// section index is not 0.
    pub fn is_defined(&self) -> (defined: bool)
        ensures
            defined == self@.is_defined(),
    {
        self.symbol.relative_to_section != 0
    }
}

//  Relocations
// =============

/// The relocation types of x86-64. A code that has no name here is kept as it
/// is, in [`RelocationType::Unknown`].
#[derive(Clone, Copy, Debug, PartialEq, Eq, Structural)]
pub enum RelocationType {
    Null,
    Abs64,
    Abs32,
    Plt32,
    Copy,
    GlobalData,
    JumpSlot,
    RelativeToReloc,
    /// Used with thread-local storage.
    ThreadPtrOffset,
    Unknown(u64),
}

impl RelocationType {
    /// The number that stands for the type in a file.
    pub open spec fn code(self) -> u64 {
        match self {
            RelocationType::Null => 0,
            RelocationType::Abs64 => 1,
            RelocationType::Abs32 => 2,
            RelocationType::Plt32 => 4,
            RelocationType::Copy => 5,
            RelocationType::GlobalData => 6,
            RelocationType::JumpSlot => 7,
            RelocationType::RelativeToReloc => 8,
            RelocationType::ThreadPtrOffset => 10,
            RelocationType::Unknown(raw) => raw,
        }
    }

    /// The type that a number stands for.
    pub open spec fn of_code(raw: u64) -> RelocationType {
        if raw == 0 {
            RelocationType::Null
        } else if raw == 1 {
            RelocationType::Abs64
        } else if raw == 2 {
            RelocationType::Abs32
        } else if raw == 4 {
            RelocationType::Plt32
        } else if raw == 5 {
            RelocationType::Copy
        } else if raw == 6 {
            RelocationType::GlobalData
        } else if raw == 7 {
            RelocationType::JumpSlot
        } else if raw == 8 {
            RelocationType::RelativeToReloc
        } else if raw == 10 {
            RelocationType::ThreadPtrOffset
        } else {
            RelocationType::Unknown(raw)
        }
    }

    /// Every number survives the way through a `RelocationType` unchanged.
    pub proof fn lemma_code_kept(raw: u64)
        ensures
            RelocationType::of_code(raw).code() == raw,
    {
    }

    /// The number that stands for the type in a file.
    pub fn raw(self) -> (raw: u64)
        ensures
            raw == self.code(),
    {
        match self {
            RelocationType::Null => 0,
            RelocationType::Abs64 => 1,
            RelocationType::Abs32 => 2,
            RelocationType::Plt32 => 4,
            RelocationType::Copy => 5,
            RelocationType::GlobalData => 6,
            RelocationType::JumpSlot => 7,
            RelocationType::RelativeToReloc => 8,
            RelocationType::ThreadPtrOffset => 10,
            RelocationType::Unknown(raw) => raw,
        }
    }

    /// The type that a number stands for.
    pub fn from_raw(raw: u64) -> (relocation_type: RelocationType)
        ensures
            relocation_type == RelocationType::of_code(raw),
    {
        match raw {
            0 => RelocationType::Null,
            1 => RelocationType::Abs64,
            2 => RelocationType::Abs32,
            4 => RelocationType::Plt32,
            5 => RelocationType::Copy,
            6 => RelocationType::GlobalData,
            7 => RelocationType::JumpSlot,
            8 => RelocationType::RelativeToReloc,
            10 => RelocationType::ThreadPtrOffset,
            _ => RelocationType::Unknown(raw),
        }
    }
}

impl Default for RelocationType {
    fn default() -> (relocation_type: RelocationType)
        ensures
            relocation_type == RelocationType::Null,
    {
        RelocationType::Null
    }
}

/// A relocation with the symbol that it refers to. The symbol is a copy, not
/// a reference into the symbol table, so that a relocation stands by itself.
#[derive(Debug)]
pub struct Relocation {
    /// Where in its section the relocation is applied.
    pub offset: u64,
    pub info: u64,
    pub addend: i64,
    pub symbol: SymbolInfo,
}

/// What a [`Relocation`] holds.
pub struct RelocationView {
    pub offset: u64,
    pub info: u64,
    pub addend: i64,
    pub symbol: SymbolInfoView,
}

impl RelocationView {
    /// The code of the relocation type: the lower 32 bits of `info`.
    pub open spec fn raw_relo_type(self) -> u64 {
        info_type(self.info)
    }

    /// The relocation type.
    pub open spec fn relo_type(self) -> RelocationType {
        RelocationType::of_code(self.raw_relo_type())
    }
}

impl View for Relocation {
    type V = RelocationView;

    open spec fn view(&self) -> RelocationView {
        RelocationView {
            offset: self.offset,
            info: self.info,
            addend: self.addend,
            symbol: self.symbol@,
        }
    }
}

impl Clone for Relocation {
    fn clone(&self) -> (copy: Relocation)
        ensures
            copy@ == self@,
    {
        Relocation {
            offset: self.offset,
            info: self.info,
            addend: self.addend,
            symbol: self.symbol.clone(),
        }
    }
}

impl Default for Relocation {
    fn default() -> (relocation: Relocation)
        ensures
            relocation@ == (RelocationView {
                offset: 0,
                info: 0,
                addend: 0,
                symbol: SymbolInfoView { name: Seq::empty(), symbol: Symbol::zero() },
            }),
    {
        Relocation { offset: 0, info: 0, addend: 0, symbol: SymbolInfo::default() }
    }
}

impl Relocation {
    /// The entry `r`, with a copy of the symbol that it refers to.
    pub fn from(r: &RelocationWithAddend, symbol: &SymbolInfo) -> (relocation: Relocation)
        ensures
            relocation@ == (RelocationView {
                offset: r.offset,
                info: r.info,
                addend: r.addend,
                symbol: symbol@,
            }),
    {
        Relocation { offset: r.offset, info: r.info, addend: r.addend, symbol: symbol.clone() }
    }

    /// The relocation type, which is specific to the processor.
    pub fn relo_type(&self) -> (relocation_type: RelocationType)
        ensures
            relocation_type == self@.relo_type(),
    {
        RelocationType::from_raw(self.raw_relo_type())
    }

    /// The code of the relocation type: the lower 32 bits of `info`.
    pub fn raw_relo_type(&self) -> (code: u64)
        ensures
            code == self@.raw_relo_type(),
    {
        let info: u64 = self.info;
        assert(info & 0xffffffff == info % 0x1_0000_0000) by (bit_vector);
        info & 0xffffffff
    }
}

//  Relocatables
// ==============

/// An object file in logical form.
#[derive(Debug)]
pub struct Relocatable {
    /// Where the object came from. The linker uses it to tell its inputs
    /// apart in messages.
    pub path: String,
    pub sections: Vec<Section>,
    pub relocations: Vec<Relocation>,
    /// The symbols in the order of the symbol table, so that the index in a
    /// relocation's `info` finds its symbol here.
    pub symbols: Vec<SymbolInfo>,
}

/// What a [`Relocatable`] holds.
pub struct RelocatableView {
    pub path: Seq<char>,
    pub sections: Seq<SectionView>,
    pub relocations: Seq<RelocationView>,
    pub symbols: Seq<SymbolInfoView>,
}

/// The index of the first section from `from` on that is called `name`.
pub open spec fn first_named(sections: Seq<SectionView>, name: Seq<char>, from: int) -> Option<
    int,
>
    decreases sections.len() - from,
{
    if from < 0 || from >= sections.len() {
        None
    } else if sections[from].name == name {
        Some(from)
    } else {
        first_named(sections, name, from + 1)
    }
}

/// [`first_named`] gives the least index from `from` on whose section has the
/// name, and nothing only where no section from `from` on has it.
pub proof fn lemma_first_named(sections: Seq<SectionView>, name: Seq<char>, from: int)
    requires
        0 <= from <= sections.len(),
    ensures
        match first_named(sections, name, from) {
            Some(i) => {
                &&& from <= i < sections.len()
                &&& sections[i].name == name
                &&& forall|j: int| from <= j < i ==> sections[j].name != name
            },
            None => forall|j: int| from <= j < sections.len() ==> sections[j].name != name,
        },
    decreases sections.len() - from,
{
    if from < sections.len() && sections[from].name != name {
        lemma_first_named(sections, name, from + 1);
    }
}

impl RelocatableView {
    /// The index of the first section called `name`.
    pub open spec fn find_section(self, name: Seq<char>) -> Option<int> {
        first_named(self.sections, name, 0)
    }

    /// Whether every relocation carries the symbol that its `info` names:
    /// the index in the upper half of `info` lies inside the symbols of the
    /// object, and the symbol there is the one that the relocation holds.
    pub open spec fn consistent(self) -> bool {
        forall|k: int|
            0 <= k < self.relocations.len() ==> {
                let index = info_symbol((#[trigger] self.relocations[k]).info);
                index < self.symbols.len() && self.relocations[k].symbol
                    == self.symbols[index as int]
            }
    }
}

impl View for Relocatable {
    type V = RelocatableView;

    open spec fn view(&self) -> RelocatableView {
        RelocatableView {
            path: self.path@,
            sections: views_of(self.sections@),
            relocations: views_of(self.relocations@),
            symbols: views_of(self.symbols@),
        }
    }
}

impl Default for Relocatable {
    /// The object without a path that holds nothing.
    fn default() -> (object: Relocatable)
        ensures
            object@ == (RelocatableView {
                path: Seq::empty(),
                sections: Seq::empty(),
                relocations: Seq::empty(),
                symbols: Seq::empty(),
            }),
    {
        let object = Relocatable {
            path: String::new(),
            sections: Vec::new(),
            relocations: Vec::new(),
            symbols: Vec::new(),
        };
        assert(object@.sections =~= Seq::empty());
        assert(object@.relocations =~= Seq::empty());
        assert(object@.symbols =~= Seq::empty());
        object
    }
}

impl Relocatable {
    /// The index of the first section called `name`, if there is one.
    pub fn find_section(&self, name: &str) -> (found: Option<usize>)
        ensures
            match found {
                Some(i) => self@.find_section(name@) == Some(i as int),
                None => self@.find_section(name@) is None,
            },
    {
        let wanted = name.to_owned();
        let mut i: usize = 0;
        while i < self.sections.len()
            invariant
                i <= self.sections@.len(),
                wanted@ == name@,
                first_named(self@.sections, name@, 0) == first_named(
                    self@.sections,
                    name@,
                    i as int,
                ),
            decreases self.sections@.len() - i,
        {
            if self.sections[i].name == wanted {
                return Some(i);
            }
            i += 1;
        }
        None
    }
}

//  Executables
// =============

/// A linked program. The fields stand in the order in which they lie in the
/// file:
///
/// ```text
///   [ 64 bytes            ] file header
///   [ 56 bytes each       ] program headers
///   [ pre_text_pad bytes  ] zero bytes
///   [ text_section        ] the program's code
///   [ shstrtab            ] the section-name string table
///   [ 64 bytes each       ] section headers
/// ```
#[derive(Debug)]
pub struct Executable {
    pub file_header: FileHeader,
    pub program_headers: Vec<ProgramHeader>,
    pub pre_text_pad: usize,
    pub text_section: Vec<u8>,
    pub shstrtab: StrTab,
    pub section_headers: Vec<SectionHeader>,
}

/// What an [`Executable`] holds.
pub struct ExecutableView {
    pub file_header: FileHeader,
    pub program_headers: Seq<ProgramHeader>,
    pub pre_text_pad: nat,
    pub text_section: Seq<u8>,
    pub shstrtab: Seq<u8>,
    pub section_headers: Seq<SectionHeader>,
}

/// `n` zero bytes.
pub open spec fn zeros(n: nat) -> Seq<u8> {
    Seq::new(n, |i: int| 0u8)
}

/// The byte image of a program-header table: the images of its entries, one
/// after the other.
pub open spec fn program_table(headers: Seq<ProgramHeader>) -> Seq<u8>
    decreases headers.len(),
{
    if headers.len() == 0 {
        Seq::empty()
    } else {
        program_table(headers.drop_last()) + headers.last().wire()
    }
}

/// The byte image of a section-header table: the images of its entries, one
/// after the other.
pub open spec fn section_table(headers: Seq<SectionHeader>) -> Seq<u8>
    decreases headers.len(),
{
    if headers.len() == 0 {
        Seq::empty()
    } else {
        section_table(headers.drop_last()) + headers.last().wire()
    }
}

/// A program-header table takes 56 bytes for each entry.
pub proof fn lemma_program_table_len(headers: Seq<ProgramHeader>)
    ensures
        program_table(headers).len() == 56 * headers.len(),
    decreases headers.len(),
{
    if headers.len() > 0 {
        lemma_program_table_len(headers.drop_last());
        headers.last().lemma_wire_len();
    }
}

/// A section-header table takes 64 bytes for each entry.
pub proof fn lemma_section_table_len(headers: Seq<SectionHeader>)
    ensures
        section_table(headers).len() == 64 * headers.len(),
    decreases headers.len(),
{
    if headers.len() > 0 {
        lemma_section_table_len(headers.drop_last());
        headers.last().lemma_wire_len();
    }
}

/// Entry `i` of a program-header table lies 56 bytes after entry `i - 1`.
pub proof fn lemma_program_table_entry(headers: Seq<ProgramHeader>, i: int)
    requires
        0 <= i < headers.len(),
    ensures
        56 * i + 56 <= program_table(headers).len(),
        program_table(headers).subrange(56 * i, 56 * i + 56) == headers[i].wire(),
    decreases headers.len(),
{
    let front = headers.drop_last();
    lemma_program_table_len(front);
    headers.last().lemma_wire_len();
    if i < headers.len() - 1 {
        lemma_program_table_entry(front, i);
        assert(program_table(headers).subrange(56 * i, 56 * i + 56) =~= program_table(
            front,
        ).subrange(56 * i, 56 * i + 56));
    } else {
        assert(program_table(headers).subrange(56 * i, 56 * i + 56) =~= headers[i].wire());
    }
}

/// Entry `i` of a section-header table lies 64 bytes after entry `i - 1`.
pub proof fn lemma_section_table_entry(headers: Seq<SectionHeader>, i: int)
    requires
        0 <= i < headers.len(),
    ensures
        64 * i + 64 <= section_table(headers).len(),
        section_table(headers).subrange(64 * i, 64 * i + 64) == headers[i].wire(),
    decreases headers.len(),
{
    let front = headers.drop_last();
    lemma_section_table_len(front);
    headers.last().lemma_wire_len();
    if i < headers.len() - 1 {
        lemma_section_table_entry(front, i);
        assert(section_table(headers).subrange(64 * i, 64 * i + 64) =~= section_table(
            front,
        ).subrange(64 * i, 64 * i + 64));
    } else {
        assert(section_table(headers).subrange(64 * i, 64 * i + 64) =~= headers[i].wire());
    }
}

impl ExecutableView {
    /// Where the padding before the text starts in the file: where the
    /// program-header table ends.
    pub open spec fn pad_offset(self) -> int {
        64 + 56 * (self.program_headers.len() as int)
    }

    /// Where the text starts in the file.
    pub open spec fn text_offset(self) -> int {
        self.pad_offset() + self.pre_text_pad
    }

    /// Where the section-name string table starts in the file.
    pub open spec fn shstrtab_offset(self) -> int {
        self.text_offset() + self.text_section.len()
    }

    /// Where the section-header table starts in the file.
    pub open spec fn section_table_offset(self) -> int {
        self.shstrtab_offset() + self.shstrtab.len()
    }

    /// The file that the executable is written as.
    pub open spec fn image(self) -> Seq<u8> {
        self.file_header.wire() + program_table(self.program_headers) + zeros(self.pre_text_pad)
            + self.text_section + self.shstrtab + section_table(self.section_headers)
    }

    /// The parts of the image lie where the offsets say, and nothing lies
    /// between or after them.
    pub proof fn lemma_image_layout(self)
        ensures
            self.image().len() == self.section_table_offset() + 64 * self.section_headers.len(),
            self.image().subrange(0, 64) == self.file_header.wire(),
            self.image().subrange(64, self.pad_offset()) == program_table(self.program_headers),
            self.image().subrange(self.pad_offset(), self.text_offset()) == zeros(
                self.pre_text_pad,
            ),
            self.image().subrange(self.text_offset(), self.shstrtab_offset())
                == self.text_section,
            self.image().subrange(self.shstrtab_offset(), self.section_table_offset())
                == self.shstrtab,
            self.image().subrange(self.section_table_offset(), self.image().len() as int)
                == section_table(self.section_headers),
    {
        self.file_header.lemma_wire_len();
        lemma_program_table_len(self.program_headers);
        lemma_section_table_len(self.section_headers);
        let a = self.file_header.wire();
        let b = program_table(self.program_headers);
        let c = zeros(self.pre_text_pad);
        let d = self.text_section;
        let e = self.shstrtab;
        let f = section_table(self.section_headers);
        let all = a + b + c + d + e + f;
        let p1: int = 64 + (b.len() as int);
        let p2: int = p1 + c.len();
        let p3: int = p2 + d.len();
        let p4: int = p3 + e.len();
        assert(all.subrange(0, 64) =~= a);
        assert(all.subrange(64, p1) =~= b);
        assert(all.subrange(p1, p2) =~= c);
        assert(all.subrange(p2, p3) =~= d);
        assert(all.subrange(p3, p4) =~= e);
        assert(all.subrange(p4, all.len() as int) =~= f);
    }
}

impl ExecutableView {
    /// Whether the headers agree with one another and with what the
    /// executable holds, so that a reader of the file finds every part where
    /// the headers say: the file header identifies a 64-bit little-endian
    /// ELF file and gives the sizes and numbers of the two header tables and
    /// the place of the section-header table; the section that it names as
    /// the section-name string table is one, and spans the names; and every
    /// header has a type that is written as it is held.
    pub open spec fn consistent(self) -> bool {
        let header = self.file_header;
        let names = self.section_headers[header.sh_section_name_stringtab_entry_index as int];
        &&& header.identification.magic == elf_magic()
        &&& header.identification.format_class == 2
        &&& header.identification.endianness == 1
        &&& header.identification.format_version == 1
        &&& header.file_header_size == FILE_HEADER_SIZE
        &&& header.program_headers_total_size == PROGRAM_HEADER_SIZE
        &&& header.section_headers_total_size == SECTION_HEADER_SIZE
        &&& header.program_header_offset == 64
        &&& header.program_header_entry_count == self.program_headers.len()
        &&& header.section_header_entry_count == self.section_headers.len()
        &&& header.section_header_offset == self.section_table_offset()
        &&& header.sh_section_name_stringtab_entry_index < self.section_headers.len()
        &&& names.section_type == SectionType::StringTable
        &&& names.offset == self.shstrtab_offset()
        &&& names.size == self.shstrtab.len()
        &&& forall|i: int|
            0 <= i < self.program_headers.len() ==> (
            #[trigger] self.program_headers[i]).segment_type.canonical()
        &&& forall|i: int|
            0 <= i < self.section_headers.len() ==> (
            #[trigger] self.section_headers[i]).section_type.canonical()
    }

    /// The file header of the image is read back as it is held.
    pub proof fn lemma_file_header_reads_back(self)
        ensures
            64 <= self.image().len(),
            FileHeader::at(self.image(), 0) == self.file_header,
    {
        self.lemma_image_layout();
        self.file_header.lemma_read_where_written(self.image(), 0);
    }

    /// Program header `i` of the image is read back as it is held, 56 bytes
    /// after program header `i - 1`. Its type must be canonical; else it is
    /// read back with the type that its code stands for.
    pub proof fn lemma_program_header_reads_back(self, i: int)
        requires
            0 <= i < self.program_headers.len(),
            self.program_headers[i].segment_type.canonical(),
        ensures
            ProgramHeader::at(self.image(), 64 + 56 * i) == self.program_headers[i],
    {
        let image = self.image();
        self.lemma_image_layout();
        lemma_program_table_len(self.program_headers);
        lemma_program_table_entry(self.program_headers, i);
        lemma_piece_of_piece(image, 64, self.pad_offset(), 56 * i, 56 * i + 56);
        self.program_headers[i].lemma_read_where_written(image, 64 + 56 * i);
    }

    /// Section header `i` of the image is read back as it is held, 64 bytes
    /// after section header `i - 1`. Its type must be canonical; else it is
    /// read back with the type that its code stands for.
    pub proof fn lemma_section_header_reads_back(self, i: int)
        requires
            0 <= i < self.section_headers.len(),
            self.section_headers[i].section_type.canonical(),
        ensures
            SectionHeader::at(self.image(), self.section_table_offset() + 64 * i)
                == self.section_headers[i],
    {
        let image = self.image();
        let start = self.section_table_offset();
        self.lemma_image_layout();
        lemma_section_table_len(self.section_headers);
        lemma_section_table_entry(self.section_headers, i);
        lemma_piece_of_piece(image, start, image.len() as int, 64 * i, 64 * i + 64);
        self.section_headers[i].lemma_read_where_written(image, start + 64 * i);
    }
}

impl View for Executable {
    type V = ExecutableView;

    open spec fn view(&self) -> ExecutableView {
        ExecutableView {
            file_header: self.file_header,
            program_headers: self.program_headers@,
            pre_text_pad: self.pre_text_pad as nat,
            text_section: self.text_section@,
            shstrtab: self.shstrtab@,
            section_headers: self.section_headers@,
        }
    }
}

impl Default for Executable {
    /// The executable that holds nothing yet: a zero header, no text, and a
    /// string table with the empty string only.
    fn default() -> (executable: Executable)
        ensures
            executable@ == (ExecutableView {
                file_header: FileHeader::zero(),
                program_headers: Seq::empty(),
                pre_text_pad: 0,
                text_section: Seq::empty(),
                shstrtab: seq![0u8],
                section_headers: Seq::empty(),
            }),
    {
        Executable {
            file_header: FileHeader::default(),
            program_headers: Vec::new(),
            pre_text_pad: 0,
            text_section: Vec::new(),
            shstrtab: StrTab::default(),
            section_headers: Vec::new(),
        }
    }
}

/// Appends `count` zero bytes.
fn write_zeros(out: &mut Vec<u8>, count: usize)
    ensures
        final(out)@ == old(out)@ + zeros(count as nat),
{
    let mut k: usize = 0;
    while k < count
        invariant
            k <= count,
            out@ == old(out)@ + zeros(k as nat),
        decreases count - k,
    {
        out.push(0);
        k += 1;
    }
}

/// Appends the byte image of a program-header table.
fn write_program_table(out: &mut Vec<u8>, headers: &[ProgramHeader])
    ensures
        final(out)@ == old(out)@ + program_table(headers@),
{
    let mut i: usize = 0;
    while i < headers.len()
        invariant
            i <= headers@.len(),
            out@ == old(out)@ + program_table(headers@.take(i as int)),
        decreases headers@.len() - i,
    {
        let ghost before = out@;
        headers[i].write(out);
        proof {
            let part = headers@.take(i + 1);
            assert(part.drop_last() == headers@.take(i as int));
            assert(part.last() == headers@[i as int]);
            assert(program_table(part) == program_table(part.drop_last()) + part.last().wire());
            assert(out@ == old(out)@ + program_table(part)) by {
                assert(before + part.last().wire() == old(out)@ + (program_table(
                    part.drop_last(),
                ) + part.last().wire()));
            }
        }
        i += 1;
    }
    assert(headers@.take(i as int) == headers@);
}

/// Appends the byte image of a section-header table.
fn write_section_table(out: &mut Vec<u8>, headers: &[SectionHeader])
    ensures
        final(out)@ == old(out)@ + section_table(headers@),
{
    let mut i: usize = 0;
    while i < headers.len()
        invariant
            i <= headers@.len(),
            out@ == old(out)@ + section_table(headers@.take(i as int)),
        decreases headers@.len() - i,
    {
        let ghost before = out@;
        headers[i].write(out);
        proof {
            let part = headers@.take(i + 1);
            assert(part.drop_last() == headers@.take(i as int));
            assert(part.last() == headers@[i as int]);
            assert(section_table(part) == section_table(part.drop_last()) + part.last().wire());
            assert(out@ == old(out)@ + section_table(part)) by {
                assert(before + part.last().wire() == old(out)@ + (section_table(
                    part.drop_last(),
                ) + part.last().wire()));
            }
        }
        i += 1;
    }
    assert(headers@.take(i as int) == headers@);
}

impl Executable {
    /// The file that the executable is written as.
    pub fn encode(&self) -> (bytes: Vec<u8>)
        ensures
            bytes@ == self@.image(),
    {
        let mut bytes: Vec<u8> = Vec::new();
        self.file_header.write(&mut bytes);
        assert(bytes@ == self.file_header.wire());
        write_program_table(&mut bytes, self.program_headers.as_slice());
        write_zeros(&mut bytes, self.pre_text_pad);
        write_bytes(&mut bytes, self.text_section.as_slice());
        write_bytes(&mut bytes, self.shstrtab.get_bytes());
        write_section_table(&mut bytes, self.section_headers.as_slice());
        bytes
    }
}

} // verus!
