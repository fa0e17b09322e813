//! The linker: from relocatable objects to one executable.
//!
//! A link works in five passes over its inputs, in the order in which they
//! are given:
//!
//! 1. the `.text` sections are put one after the other ([`merge`]);
//! 2. the symbols that the objects define are recorded at the offsets they
//!    have in the merged text ([`merge`]);
//! 3. the relocations are applied to the merged text ([`relocate`]);
//! 4. the entry point is looked up: the symbol `_start`;
//! 5. the headers and the section-name string table are built around the
//!    text ([`layout`]).
//!
//! The executable in the making goes through four states, in this order and
//! never back: empty; text ready, after the first pass; resolved, after the
//! fourth; finalized, after the fifth. A pass takes what the passes before
//! it have made and adds its own.
//!
//! Where two objects define one name, the later definition holds. A missing
//! `.text` and a missing `_start` end the link at once. The findings about
//! relocations are gathered, so that one link reports all of them; an
//! unhandled relocation type does not keep the executable from being made,
//! every other finding does.
//!
//! What a link gives is stated by [`linked`], a function of the inputs alone.

pub mod error;
pub mod layout;
pub mod merge;
pub mod relocate;
pub mod symbols;

pub use crate::weld_core::error::{WeldError, WeldErrorView};
pub use crate::weld_core::layout::{build_header, build_pht, build_sht, get_pre_text_pad};

use crate::elf::logical::{views_of, Executable, ExecutableView, Relocatable, RelocatableView};
use crate::elf::string_table::{
    lemma_append_keeps, lemma_empty_string_at_zero, lemma_insert_then_get, string_at,
};
use crate::weld_core::layout::{
    entry_of, header_for, lemma_section_names, pre_text_pad, program_headers_for,
    section_headers_for, with_section_names, NUM_PROGRAM_HEADERS, NUM_SECTION_HEADERS,
    TEXT_ADDRESS,
};
use crate::weld_core::merge::{
    collect_symbols, defines, first_without_text, lemma_defined_symbol_is_recorded,
    lemma_undefined_symbol_is_not_recorded, merge_text, merged_text, section_start, symbol_map,
};
use crate::weld_core::relocate::{
    about_relocation, apply_relocations, in_patch_site, lemma_refusal_is_reported,
    lemma_relocated_findings, lemma_relocated_text, relocated, verdict_of, Verdict, PLT32,
};
use vstd::prelude::*;

verus! {

/// What a link comes to: the executable, if one could be made, and the
/// findings. Where there is an executable, every finding is a warning.
#[derive(Debug)]
pub struct LinkOutcome {
    pub executable: Option<Executable>,
    pub errors: Vec<WeldError>,
}

/// What a [`LinkOutcome`] holds.
pub struct LinkOutcomeView {
    pub executable: Option<ExecutableView>,
    pub errors: Seq<WeldErrorView>,
}

impl View for LinkOutcome {
    type V = LinkOutcomeView;

    open spec fn view(&self) -> LinkOutcomeView {
        LinkOutcomeView {
            executable: match self.executable {
                Some(e) => Some(e@),
                None => None,
            },
            errors: views_of(self.errors@),
        }
    }
}

/// Whether every finding leaves the link standing.
pub open spec fn only_warnings(errors: Seq<WeldErrorView>) -> bool {
    forall|i: int| 0 <= i < errors.len() ==> (#[trigger] errors[i]).is_warning()
}

/// Whether the addresses and file offsets of the executable fit in 64 bits:
/// the entry point, which lies `entry_offset` bytes into the text, and the
/// end of the section-name string table, which follows the first page and a
/// text of `text_len` bytes.
pub open spec fn fits(text_len: int, entry_offset: int) -> bool {
    0 <= entry_offset && entry_offset + TEXT_ADDRESS <= u64::MAX && 4096 + text_len + 17
        <= u64::MAX
}

/// The executable around the text `text`, which is entered `entry_offset`
/// bytes into the text. It has two program headers and three section
/// headers, and its section-name string table holds the empty string and
/// the names of `.text` and `.shstrtab`.
pub open spec fn executable_of(text: Seq<u8>, entry_offset: u64) -> ExecutableView {
    let pad = pre_text_pad(2) as nat;
    let names = with_section_names(seq![0u8]);
    ExecutableView {
        file_header: header_for(2, 3, entry_offset, pad, text.len(), names.len()),
        program_headers: program_headers_for(2, pad, text.len()),
        pre_text_pad: pad,
        text_section: text,
        shstrtab: names,
        section_headers: section_headers_for(2, pad, text.len(), 1),
    }
}

/// What linking `inputs` comes to.
pub open spec fn linked(inputs: Seq<RelocatableView>) -> LinkOutcomeView {
    let done = relocated(inputs);
    let map = symbol_map(inputs);
    match first_without_text(inputs, 0) {
        Some(i) => LinkOutcomeView {
            executable: None,
            errors: seq![WeldErrorView::MissingText(inputs[i].path)],
        },
        None => if !map.contains_key("_start"@) {
            LinkOutcomeView {
                executable: None,
                errors: done.errors.push(WeldErrorView::MissingEntryPoint),
            }
        } else if !only_warnings(done.errors) {
            LinkOutcomeView { executable: None, errors: done.errors }
        } else if !fits(done.text.len() as int, map["_start"@]) {
            LinkOutcomeView {
                executable: None,
                errors: done.errors.push(WeldErrorView::AddressOverflow),
            }
        } else {
            LinkOutcomeView {
                executable: Some(executable_of(done.text, map["_start"@] as u64)),
                errors: done.errors,
            }
        },
    }
}

/// Whether every finding leaves the link standing.
fn all_warnings(errors: &Vec<WeldError>) -> (all: bool)
    ensures
        all == only_warnings(views_of(errors@)),
{
    let mut i: usize = 0;
    while i < errors.len()
        invariant
            i <= errors@.len(),
            forall|k: int| 0 <= k < i ==> (#[trigger] views_of(errors@)[k]).is_warning(),
        decreases errors@.len() - i,
    {
        if !errors[i].is_warning() {
            assert(!views_of(errors@)[i as int].is_warning());
            return false;
        }
        i += 1;
    }
    true
}

/// Builds the executable around the merged and relocated text.
fn assemble(text: Vec<u8>, entry_point: u64) -> (exec: Executable)
    requires
        fits(text@.len() as int, entry_point as int),
    ensures
        exec@ == executable_of(text@, entry_point),
{
    proof {
        lemma_section_names();
    }
    let mut exec = Executable::default();
    exec.text_section = text;
    exec.pre_text_pad = get_pre_text_pad(NUM_PROGRAM_HEADERS as usize);
    exec.file_header.program_header_entry_count = NUM_PROGRAM_HEADERS;
    exec.file_header.section_header_entry_count = NUM_SECTION_HEADERS;
    let section_headers = build_sht(&mut exec);
    exec.section_headers = section_headers;
    exec.program_headers = build_pht(&exec);
    exec.file_header = build_header(&exec, NUM_PROGRAM_HEADERS, NUM_SECTION_HEADERS, entry_point);
    exec
}

/// Links `inputs`, in their order, and reports everything that was found on
/// the way, warnings too.
pub fn link_report(inputs: &[Relocatable]) -> (outcome: LinkOutcome)
    ensures
        outcome@ == linked(views_of(inputs@)),
{
    let (mut text, starts) = match merge_text(inputs) {
        Err(e) => {
            let mut errors: Vec<WeldError> = Vec::new();
            errors.push(e);
            assert(views_of(errors@) =~= seq![e@]);
            return LinkOutcome { executable: None, errors };
        },
        Ok(merged) => merged,
    };
    let symbols = collect_symbols(inputs, starts.as_slice());
    let mut errors: Vec<WeldError> = Vec::new();
    apply_relocations(inputs, starts.as_slice(), &symbols, &mut text, &mut errors);
    let entry_point: u128 = match symbols.get(&"_start".to_owned()) {
        None => {
            let ghost before = views_of(errors@);
            errors.push(WeldError::MissingEntryPoint);
            assert(views_of(errors@) =~= before.push(WeldErrorView::MissingEntryPoint));
            return LinkOutcome { executable: None, errors };
        },
        Some(offset) => offset,
    };
    if !all_warnings(&errors) {
        return LinkOutcome { executable: None, errors };
    }
    if entry_point > (u64::MAX - TEXT_ADDRESS) as u128 || text.len() as u128 + 4113 > u64::MAX
        as u128 {
        let ghost before = views_of(errors@);
        errors.push(WeldError::AddressOverflow);
        assert(views_of(errors@) =~= before.push(WeldErrorView::AddressOverflow));
        return LinkOutcome { executable: None, errors };
    }
    let exec = assemble(text, entry_point as u64);
    LinkOutcome { executable: Some(exec), errors }
}

/// Links `inputs`, in their order, into one executable. Where no executable
/// can be made, the findings say why. Warnings are not given here: see
/// [`link_report`].
pub fn link(inputs: &[Relocatable]) -> (result: Result<Executable, Vec<WeldError>>)
    ensures
        match result {
            Ok(exec) => linked(views_of(inputs@)).executable == Some(exec@),
            Err(errors) => linked(views_of(inputs@)).executable is None && linked(
                views_of(inputs@),
            ).errors == views_of(errors@),
        },
{
    let outcome = link_report(inputs);
    match outcome.executable {
        Some(exec) => Ok(exec),
        None => Err(outcome.errors),
    }
}

//  What holds of every link
// ==========================

/// An executable is made only where there are no findings but warnings.
pub proof fn lemma_executable_means_warnings_only(inputs: Seq<RelocatableView>)
    requires
        linked(inputs).executable is Some,
    ensures
        only_warnings(linked(inputs).errors),
{
}

/// Where no executable is made, a finding says why: there is one that is
/// not a warning.
pub proof fn lemma_no_executable_has_a_reason(inputs: Seq<RelocatableView>)
    requires
        linked(inputs).executable is None,
    ensures
        !only_warnings(linked(inputs).errors),
{
    let done = relocated(inputs);
    let errors = linked(inputs).errors;
    if first_without_text(inputs, 0) is Some {
        assert(!errors[0].is_warning());
    } else if !symbol_map(inputs).contains_key("_start"@) || only_warnings(done.errors) {
        assert(!errors[errors.len() - 1].is_warning());
    }
}

/// The text of a linked executable is the merged text of the objects, but
/// for the patch sites: it is as long as the texts of the objects together,
/// and every byte that no relocation of the applied form points at is the
/// byte that its object had there.
pub proof fn lemma_linked_text(inputs: Seq<RelocatableView>)
    requires
        linked(inputs).executable is Some,
    ensures
        linked(inputs).executable->0.text_section.len() == merged_text(inputs).len(),
        forall|k: int|
            0 <= k < merged_text(inputs).len() && !in_patch_site(inputs, k) ==> linked(
                inputs,
            ).executable->0.text_section[k] == merged_text(inputs)[k],
{
    lemma_relocated_text(inputs);
}

/// Where every object has a `.text`, the link reports every relocation that
/// is refused, whatever else it finds: every relocation of a type that is
/// not applied, every reference to a symbol that no object defines, every
/// patch site outside the text, and every displacement that does not fit.
pub proof fn lemma_every_refusal_is_reported(inputs: Seq<RelocatableView>, i: int, j: int)
    requires
        first_without_text(inputs, 0) is None,
        0 <= i < inputs.len(),
        0 <= j < inputs[i].relocations.len(),
        verdict_of(inputs, i, j) is Refuse,
    ensures
        linked(inputs).errors.contains(verdict_of(inputs, i, j)->Refuse_0),
{
    let e = verdict_of(inputs, i, j)->Refuse_0;
    let found = relocated(inputs).errors;
    lemma_refusal_is_reported(inputs, i, j);
    let n = choose|n: int| 0 <= n < found.len() && found[n] == e;
    assert(linked(inputs).errors[n] == e);
}

/// Where an executable is made, every reference resolves: each relocation of
/// the applied form refers to a symbol that some object defines, points at
/// four bytes inside the text, and asks for a displacement that fits in 32
/// bits. Every other relocation is reported as unhandled.
pub proof fn lemma_linked_references_resolve(inputs: Seq<RelocatableView>, i: int, j: int)
    requires
        linked(inputs).executable is Some,
        0 <= i < inputs.len(),
        0 <= j < inputs[i].relocations.len(),
    ensures
        ({
            let r = inputs[i].relocations[j];
            let at = section_start(inputs, i) + r.offset;
            let displacement = symbol_map(inputs)[r.symbol.name] - at + r.addend;
            if r.raw_relo_type() == PLT32 {
                &&& symbol_map(inputs).contains_key(r.symbol.name)
                &&& at + 4 <= merged_text(inputs).len()
                &&& i32::MIN <= displacement <= i32::MAX
                &&& verdict_of(inputs, i, j) == (Verdict::Patch {
                    at,
                    value: displacement as i32,
                })
            } else {
                linked(inputs).errors.contains(
                    WeldErrorView::UnhandledRelocation {
                        relo_type: r.raw_relo_type(),
                        path: inputs[i].path,
                    },
                )
            }
        }),
{
    if verdict_of(inputs, i, j) is Refuse {
        let e = verdict_of(inputs, i, j)->Refuse_0;
        lemma_refusal_is_reported(inputs, i, j);
        let n = choose|n: int|
            0 <= n < relocated(inputs).errors.len() && relocated(inputs).errors[n] == e;
        assert(relocated(inputs).errors[n].is_warning());
    }
}

/// Where every object has a `.text`, a missing entry point is reported if
/// and only if no object defines `_start`; and it is then the last finding.
/// An executable is made only where `_start` is defined.
pub proof fn lemma_entry_point(inputs: Seq<RelocatableView>)
    requires
        first_without_text(inputs, 0) is None,
    ensures
        linked(inputs).errors.contains(WeldErrorView::MissingEntryPoint) <==> (forall|
            i: int,
            j: int,
        |
            !#[trigger] defines(inputs, i, j, "_start"@)),
        linked(inputs).errors.contains(WeldErrorView::MissingEntryPoint) ==> linked(
            inputs,
        ).errors.last() == WeldErrorView::MissingEntryPoint && linked(inputs).executable is None,
        linked(inputs).executable is Some ==> symbol_map(inputs).contains_key("_start"@),
{
    let done = relocated(inputs);
    let errors = linked(inputs).errors;
    lemma_relocated_findings(inputs);
    if forall|i: int, j: int| !#[trigger] defines(inputs, i, j, "_start"@) {
        lemma_undefined_symbol_is_not_recorded(inputs, "_start"@);
        assert(errors[errors.len() - 1] == WeldErrorView::MissingEntryPoint);
    } else {
        let (i, j) = choose|i: int, j: int| #[trigger] defines(inputs, i, j, "_start"@);
        lemma_defined_symbol_is_recorded(inputs, i, j);
        if errors.contains(WeldErrorView::MissingEntryPoint) {
            let n = choose|n: int|
                0 <= n < errors.len() && errors[n] == WeldErrorView::MissingEntryPoint;
            if n < done.errors.len() {
                assert(about_relocation(done.errors[n]));
            }
        }
    }
    if errors.contains(WeldErrorView::MissingEntryPoint) {
        let n = choose|n: int|
            0 <= n < errors.len() && errors[n] == WeldErrorView::MissingEntryPoint;
        if n < done.errors.len() {
            assert(about_relocation(done.errors[n]));
        }
    }
}

/// The file header of a linked executable: the program headers follow the
/// file header, there are two of them and three section headers, the last
/// section is the section-name string table, the section-header table
/// follows the first page, the text and the section names, and the program
/// is entered at `_start`.
pub proof fn lemma_linked_header(inputs: Seq<RelocatableView>)
    requires
        linked(inputs).executable is Some,
    ensures
        ({
            let e = linked(inputs).executable->0;
            &&& e.file_header.program_header_offset == 64
            &&& e.file_header.program_header_entry_count == 2
            &&& e.file_header.section_header_entry_count == 3
            &&& e.file_header.sh_section_name_stringtab_entry_index == 2
            &&& e.file_header.section_header_offset == 4096 + e.text_section.len()
                + e.shstrtab.len()
            &&& e.file_header.entrypoint == 0x401000 + symbol_map(inputs)["_start"@]
            &&& e.file_header.section_header_offset == e.section_table_offset()
            &&& e.program_headers.len() == 2
            &&& e.section_headers.len() == 3
            &&& e.shstrtab.len() == 17
        }),
{
    lemma_section_names();
}

/// The text of a linked executable starts at a page boundary of the file: at
/// offset 4096, which is what both the segment and the section of the text
/// say.
pub proof fn lemma_linked_text_offset(inputs: Seq<RelocatableView>)
    requires
        linked(inputs).executable is Some,
    ensures
        ({
            let e = linked(inputs).executable->0;
            &&& e.text_offset() == 4096
            &&& e.text_offset() % 4096 == 0
            &&& e.program_headers[1].offset == e.text_offset()
            &&& e.section_headers[1].offset == e.text_offset()
            &&& e.section_headers[1].size == e.text_section.len()
            &&& e.section_headers[2].offset == e.shstrtab_offset()
            &&& e.section_headers[2].size == e.shstrtab.len()
        }),
{
    lemma_section_names();
}

/// The file of a linked executable: it holds the text from offset 4096 on,
/// then the seventeen bytes of section names, then the three section
/// headers, and nothing after them.
pub proof fn lemma_linked_image(inputs: Seq<RelocatableView>)
    requires
        linked(inputs).executable is Some,
    ensures
        ({
            let e = linked(inputs).executable->0;
            &&& e.image().len() == 4096 + e.text_section.len() + 17 + 3 * 64
            &&& e.image().subrange(4096, e.shstrtab_offset()) == e.text_section
            &&& e.image().subrange(0, 64) == e.file_header.wire()
        }),
{
    lemma_linked_header(inputs);
    lemma_linked_text_offset(inputs);
    linked(inputs).executable->0.lemma_image_layout();
}

/// A linked executable is consistent: its headers agree with one another
/// and with what it holds.
pub proof fn lemma_linked_is_consistent(inputs: Seq<RelocatableView>)
    requires
        linked(inputs).executable is Some,
    ensures
        linked(inputs).executable->0.consistent(),
{
    lemma_section_names();
    lemma_linked_header(inputs);
    lemma_linked_text_offset(inputs);
}

/// The section-name string table of a linked executable names its sections:
/// the first has the empty name, the second is `.text` and the third is
/// `.shstrtab`.
pub proof fn lemma_linked_section_names(inputs: Seq<RelocatableView>)
    requires
        linked(inputs).executable is Some,
    ensures
        ({
            let e = linked(inputs).executable->0;
            &&& string_at(e.shstrtab, e.section_headers[0].name as int) == Some(
                Seq::<char>::empty(),
            )
            &&& string_at(e.shstrtab, e.section_headers[1].name as int) == Some(".text"@)
            &&& string_at(e.shstrtab, e.section_headers[2].name as int) == Some(".shstrtab"@)
        }),
{
    let names = with_section_names(seq![0u8]);
    let first = seq![0u8] + entry_of(".text"@);
    lemma_section_names();
    assert(string_at(names, 1) == Some(".text"@)) by {
        lemma_insert_then_get(seq![0u8], ".text"@);
        assert(first == seq![0u8] + vstd::utf8::encode_utf8(".text"@) + seq![0u8]);
        lemma_append_keeps(first, entry_of(".shstrtab"@), 1);
    }
    assert(string_at(names, 7) == Some(".shstrtab"@)) by {
        lemma_insert_then_get(first, ".shstrtab"@);
        assert(names == first + vstd::utf8::encode_utf8(".shstrtab"@) + seq![0u8]);
    }
    assert(names[0] == 0);
    lemma_empty_string_at_zero(names);
}

} // verus!
