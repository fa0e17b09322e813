//! The first two passes of a link: the texts of the objects are put one
//! after the other, and the symbols that the objects define are recorded at
//! the places they then have.

use crate::elf::logical::{views_of, Relocatable, RelocatableView, SymbolInfo, SymbolInfoView};
use crate::elf::wire::write_bytes;
use crate::weld_core::error::{WeldError, WeldErrorView};
use crate::weld_core::symbols::SymbolTable;
use vstd::prelude::*;

verus! {

//  Pass 1: the merged text
// =========================

/// The payload of the object's `.text` section: of the first section of that
/// name. Nothing where the object has no such section.
pub open spec fn text_of(object: RelocatableView) -> Option<Seq<u8>> {
    match object.find_section(".text"@) {
        Some(i) => Some(object.sections[i].bytes),
        None => None,
    }
}

/// The index of the first object from `from` on that has no `.text` section.
pub open spec fn first_without_text(inputs: Seq<RelocatableView>, from: int) -> Option<int>
    decreases inputs.len() - from,
{
    if from < 0 || from >= inputs.len() {
        None
    } else if text_of(inputs[from]) is None {
        Some(from)
    } else {
        first_without_text(inputs, from + 1)
    }
}

/// [`first_without_text`] gives the least index from `from` on whose object
/// has no `.text`, and nothing only where every object from `from` on has
/// one.
pub proof fn lemma_first_without_text(inputs: Seq<RelocatableView>, from: int)
    requires
        0 <= from <= inputs.len(),
    ensures
        match first_without_text(inputs, from) {
            Some(i) => {
                &&& from <= i < inputs.len()
                &&& text_of(inputs[i]) is None
                &&& forall|j: int| from <= j < i ==> text_of(inputs[j]) is Some
            },
            None => forall|j: int| from <= j < inputs.len() ==> text_of(inputs[j]) is Some,
        },
    decreases inputs.len() - from,
{
    if from < inputs.len() && text_of(inputs[from]) is Some {
        lemma_first_without_text(inputs, from + 1);
    }
}

/// The texts of the first `count` objects, one after the other in the order
/// of the objects. An object without `.text` adds nothing.
pub open spec fn text_upto(inputs: Seq<RelocatableView>, count: nat) -> Seq<u8>
    decreases count,
{
    if count == 0 {
        Seq::empty()
    } else {
        text_upto(inputs, (count - 1) as nat) + match text_of(inputs[count - 1]) {
            Some(text) => text,
            None => Seq::empty(),
        }
    }
}

/// The texts of all objects, one after the other.
pub open spec fn merged_text(inputs: Seq<RelocatableView>) -> Seq<u8> {
    text_upto(inputs, inputs.len())
}

/// Where the text of object `i` starts in the merged text: the length of the
/// texts of the objects before it.
pub open spec fn section_start(inputs: Seq<RelocatableView>, i: int) -> int {
    text_upto(inputs, i as nat).len() as int
}

/// The text of each object lies in the merged text, whole, from its section
/// start on.
pub proof fn lemma_text_upto(inputs: Seq<RelocatableView>, count: nat, i: int)
    requires
        0 <= i < count <= inputs.len(),
        text_of(inputs[i]) is Some,
    ensures
        section_start(inputs, i) + text_of(inputs[i])->0.len() <= text_upto(inputs, count).len(),
        text_upto(inputs, count).subrange(
            section_start(inputs, i),
            section_start(inputs, i) + text_of(inputs[i])->0.len(),
        ) == text_of(inputs[i])->0,
    decreases count,
{
    if i < count - 1 {
        lemma_text_upto(inputs, (count - 1) as nat, i);
    }
    let front = text_upto(inputs, (count - 1) as nat);
    let start = section_start(inputs, i);
    let text = text_of(inputs[i])->0;
    assert(text_upto(inputs, count).subrange(start, start + text.len()) =~= text) by {
        if i < count - 1 {
            assert(front.subrange(start, start + text.len()) == text);
        }
    }
}

/// Puts the texts of the objects one after the other. Gives the merged text
/// and, for each object, where its text starts in it; or, for the first
/// object without a `.text` section, the error that says so.
pub fn merge_text(inputs: &[Relocatable]) -> (merged: Result<(Vec<u8>, Vec<usize>), WeldError>)
    ensures
        match merged {
            Ok((text, starts)) => {
                &&& first_without_text(views_of(inputs@), 0) is None
                &&& text@ == merged_text(views_of(inputs@))
                &&& starts@.len() == inputs@.len()
                &&& forall|i: int|
                    0 <= i < starts@.len() ==> #[trigger] starts@[i] == section_start(
                        views_of(inputs@),
                        i,
                    )
            },
            Err(e) => {
                &&& first_without_text(views_of(inputs@), 0) matches Some(i)
                &&& e@ == WeldErrorView::MissingText(views_of(inputs@)[i].path)
            },
        },
{
    let ghost objects = views_of(inputs@);
    let mut text: Vec<u8> = Vec::new();
    let mut starts: Vec<usize> = Vec::new();
    let mut i: usize = 0;
    while i < inputs.len()
        invariant
            i <= inputs@.len(),
            objects == views_of(inputs@),
            first_without_text(objects, 0) == first_without_text(objects, i as int),
            text@ == text_upto(objects, i as nat),
            starts@.len() == i,
            forall|k: int| 0 <= k < i ==> #[trigger] starts@[k] == section_start(objects, k),
        decreases inputs@.len() - i,
    {
        let f = &inputs[i];
        assert(f@ == objects[i as int]);
        match f.find_section(".text") {
            None => {
                return Err(WeldError::MissingText(f.path.clone()));
            },
            Some(text_section_offset) => {
                let section_start_in_exec: usize = text.len();
                starts.push(section_start_in_exec);
                proof {
                    crate::elf::logical::lemma_first_named(f@.sections, ".text"@, 0);
                    assert(f@.sections[text_section_offset as int]
                        == f.sections@[text_section_offset as int]@);
                }
                write_bytes(&mut text, f.sections[text_section_offset].bytes.as_slice());
            },
        }
        i += 1;
    }
    Ok((text, starts))
}

//  Pass 2: the defined symbols
// =============================

/// The map after the defined symbols among `symbols` were recorded in `map`,
/// in their order: each under its name, at `start` plus its value. A symbol
/// that is recorded replaces what its name stood for before.
pub open spec fn record(map: Map<Seq<char>, int>, symbols: Seq<SymbolInfoView>, start: int) -> Map<
    Seq<char>,
    int,
>
    decreases symbols.len(),
{
    if symbols.len() == 0 {
        map
    } else {
        let before = record(map, symbols.drop_last(), start);
        if symbols.last().is_defined() {
            before.insert(symbols.last().name, start + symbols.last().symbol.value)
        } else {
            before
        }
    }
}

/// The map after the symbols of the first `count` objects were recorded,
/// object by object. The value of a symbol counts from where the text of its
/// own object starts in the merged text.
pub open spec fn symbols_upto(inputs: Seq<RelocatableView>, count: nat) -> Map<Seq<char>, int>
    decreases count,
{
    if count == 0 {
        Map::empty()
    } else {
        record(
            symbols_upto(inputs, (count - 1) as nat),
            inputs[count - 1].symbols,
            section_start(inputs, count - 1),
        )
    }
}

/// From the name of each defined symbol to its offset in the merged text.
/// Where a name is defined more than once, the last definition holds: that
/// of the last object that defines it, and in it the last symbol of that
/// name.
pub open spec fn symbol_map(inputs: Seq<RelocatableView>) -> Map<Seq<char>, int> {
    symbols_upto(inputs, inputs.len())
}

/// Records the defined symbols of one object, whose text starts at `start`.
fn record_symbols(table: &mut SymbolTable, symbols: &[SymbolInfo], start: usize)
    ensures
        final(table)@ == record(old(table)@, views_of(symbols@), start as int),
{
    let ghost all = views_of(symbols@);
    let mut j: usize = 0;
    assert(all.take(0) =~= Seq::empty());
    while j < symbols.len()
        invariant
            j <= symbols@.len(),
            all == views_of(symbols@),
            table@ == record(old(table)@, all.take(j as int), start as int),
        decreases symbols@.len() - j,
    {
        let s = &symbols[j];
        proof {
            assert(all.take(j + 1).drop_last() == all.take(j as int));
            assert(all.take(j + 1).last() == s@);
        }
        if s.is_defined() {
            // The value counts from the start of the object's text, whatever
            // section the symbol names.
            table.insert(s.name.clone(), start as u128 + s.symbol.value as u128);
        }
        j += 1;
    }
    assert(all.take(j as int) == all);
}

/// Records the defined symbols of all objects. `starts` says where the text
/// of each object starts in the merged text.
pub fn collect_symbols(inputs: &[Relocatable], starts: &[usize]) -> (table: SymbolTable)
    requires
        starts@.len() == inputs@.len(),
        forall|i: int|
            0 <= i < starts@.len() ==> #[trigger] starts@[i] == section_start(
                views_of(inputs@),
                i,
            ),
    ensures
        table@ == symbol_map(views_of(inputs@)),
{
    let ghost objects = views_of(inputs@);
    let mut table = SymbolTable::new();
    let mut i: usize = 0;
    while i < inputs.len()
        invariant
            i <= inputs@.len(),
            objects == views_of(inputs@),
            starts@.len() == inputs@.len(),
            forall|k: int|
                0 <= k < starts@.len() ==> #[trigger] starts@[k] == section_start(objects, k),
            table@ == symbols_upto(objects, i as nat),
        decreases inputs@.len() - i,
    {
        let f = &inputs[i];
        assert(f@ == objects[i as int]);
        assert(starts@[i as int] == section_start(objects, i as int));
        record_symbols(&mut table, f.symbols.as_slice(), starts[i]);
        i += 1;
    }
    table
}

//  What the symbol map holds
// ===========================

/// Whether symbol `j` of object `i` is a definition of `name`.
pub open spec fn defines(inputs: Seq<RelocatableView>, i: int, j: int, name: Seq<char>) -> bool {
    &&& 0 <= i < inputs.len()
    &&& 0 <= j < inputs[i].symbols.len()
    &&& inputs[i].symbols[j].is_defined()
    &&& inputs[i].symbols[j].name == name
}

/// Whether a definition of `name` comes after symbol `j` of object `i`: in a
/// later object, or later in the same one.
pub open spec fn redefined_after(inputs: Seq<RelocatableView>, i: int, j: int, name: Seq<char>) -> bool {
    exists|i2: int, j2: int| #[trigger]
        defines(inputs, i2, j2, name) && (i2 > i || (i2 == i && j2 > j))
}

/// The index of the last symbol among `symbols` that defines `name`.
pub open spec fn last_definition(symbols: Seq<SymbolInfoView>, name: Seq<char>) -> Option<int>
    decreases symbols.len(),
{
    if symbols.len() == 0 {
        None
    } else if symbols.last().is_defined() && symbols.last().name == name {
        Some(symbols.len() - 1)
    } else {
        last_definition(symbols.drop_last(), name)
    }
}

/// [`last_definition`] gives the greatest index of a definition of `name`,
/// and nothing only where no symbol defines it.
proof fn lemma_last_definition(symbols: Seq<SymbolInfoView>, name: Seq<char>)
    ensures
        match last_definition(symbols, name) {
            Some(j) => {
                &&& 0 <= j < symbols.len()
                &&& symbols[j].is_defined()
                &&& symbols[j].name == name
                &&& forall|k: int|
                    j < k < symbols.len() ==> !(symbols[k].is_defined() && symbols[k].name == name)
            },
            None => forall|k: int|
                0 <= k < symbols.len() ==> !(symbols[k].is_defined() && symbols[k].name == name),
        },
    decreases symbols.len(),
{
    if symbols.len() > 0 && !(symbols.last().is_defined() && symbols.last().name == name) {
        let front = symbols.drop_last();
        lemma_last_definition(front, name);
        assert forall|k: int| 0 <= k < front.len() implies front[k] == symbols[k] by {}
    }
}

/// After the symbols of one object were recorded, a name stands for its last
/// definition among them, or, where they do not define it, for what it stood
/// for before.
proof fn lemma_record(
    map: Map<Seq<char>, int>,
    symbols: Seq<SymbolInfoView>,
    start: int,
    name: Seq<char>,
)
    ensures
        match last_definition(symbols, name) {
            Some(j) => record(map, symbols, start).contains_key(name) && record(
                map,
                symbols,
                start,
            )[name] == start + symbols[j].symbol.value,
            None => record(map, symbols, start).contains_key(name) == map.contains_key(name)
                && (map.contains_key(name) ==> record(map, symbols, start)[name] == map[name]),
        },
    decreases symbols.len(),
{
    if symbols.len() > 0 {
        let front = symbols.drop_last();
        lemma_record(map, front, start, name);
        lemma_last_definition(front, name);
        if !(symbols.last().is_defined() && symbols.last().name == name) {
            if last_definition(front, name) is Some {
                assert(front[last_definition(front, name)->0] == symbols[last_definition(
                    front,
                    name,
                )->0]);
            }
        }
    }
}

/// What `name` stands for after the symbols of the first `count` objects
/// were recorded: its last definition in the last object that defines it.
pub open spec fn resolution(inputs: Seq<RelocatableView>, count: nat, name: Seq<char>) -> Option<
    (int, int),
>
    decreases count,
{
    if count == 0 {
        None
    } else {
        match last_definition(inputs[count - 1].symbols, name) {
            Some(j) => Some((count - 1, j)),
            None => resolution(inputs, (count - 1) as nat, name),
        }
    }
}

/// [`resolution`] gives the last definition of `name` among the first
/// `count` objects, and nothing only where none of them defines it.
proof fn lemma_resolution(inputs: Seq<RelocatableView>, count: nat, name: Seq<char>)
    requires
        count <= inputs.len(),
    ensures
        match resolution(inputs, count, name) {
            Some((i, j)) => {
                &&& i < count
                &&& defines(inputs, i, j, name)
                &&& forall|i2: int, j2: int|
                    i2 < count && (i2 > i || (i2 == i && j2 > j)) ==> !#[trigger] defines(
                        inputs,
                        i2,
                        j2,
                        name,
                    )
            },
            None => forall|i2: int, j2: int|
                i2 < count ==> !#[trigger] defines(inputs, i2, j2, name),
        },
    decreases count,
{
    if count > 0 {
        lemma_last_definition(inputs[count - 1].symbols, name);
        lemma_resolution(inputs, (count - 1) as nat, name);
    }
}

/// The map after the first `count` objects holds, for each name, the offset
/// of its resolution, and no name without one.
proof fn lemma_symbols_upto(inputs: Seq<RelocatableView>, count: nat, name: Seq<char>)
    requires
        count <= inputs.len(),
    ensures
        match resolution(inputs, count, name) {
            Some((i, j)) => symbols_upto(inputs, count).contains_key(name) && symbols_upto(
                inputs,
                count,
            )[name] == section_start(inputs, i) + inputs[i].symbols[j].symbol.value,
            None => !symbols_upto(inputs, count).contains_key(name),
        },
    decreases count,
{
    if count > 0 {
        lemma_symbols_upto(inputs, (count - 1) as nat, name);
        lemma_record(
            symbols_upto(inputs, (count - 1) as nat),
            inputs[count - 1].symbols,
            section_start(inputs, count - 1),
            name,
        );
    }
}

/// Every defined symbol is recorded: its name is in the symbol map. Where
/// no definition of the name comes after it, the name stands for this
/// symbol: for its value, counted from where the text of its object starts.
pub proof fn lemma_defined_symbol_is_recorded(inputs: Seq<RelocatableView>, i: int, j: int)
    requires
        0 <= i < inputs.len(),
        0 <= j < inputs[i].symbols.len(),
        inputs[i].symbols[j].is_defined(),
    ensures
        symbol_map(inputs).contains_key(inputs[i].symbols[j].name),
        !redefined_after(inputs, i, j, inputs[i].symbols[j].name) ==> symbol_map(
            inputs,
        )[inputs[i].symbols[j].name] == section_start(inputs, i)
            + inputs[i].symbols[j].symbol.value,
{
    let name = inputs[i].symbols[j].name;
    lemma_resolution(inputs, inputs.len(), name);
    lemma_symbols_upto(inputs, inputs.len(), name);
    assert(defines(inputs, i, j, name));
    if !redefined_after(inputs, i, j, name) {
        let (i2, j2) = resolution(inputs, inputs.len(), name)->0;
        assert(defines(inputs, i2, j2, name));
        if i2 > i || (i2 == i && j2 > j) {
            assert(redefined_after(inputs, i, j, name));
        }
    }
}

/// Every name in the symbol map is there for a definition: it stands for
/// the value of a defined symbol of that name, counted from where the text
/// of the symbol's object starts, and no definition of the name comes after
/// that symbol.
pub proof fn lemma_recorded_symbol_is_defined(inputs: Seq<RelocatableView>, name: Seq<char>) -> (at:
    (int, int))
    requires
        symbol_map(inputs).contains_key(name),
    ensures
        defines(inputs, at.0, at.1, name),
        !redefined_after(inputs, at.0, at.1, name),
        symbol_map(inputs)[name] == section_start(inputs, at.0)
            + inputs[at.0].symbols[at.1].symbol.value,
{
    lemma_resolution(inputs, inputs.len(), name);
    lemma_symbols_upto(inputs, inputs.len(), name);
    let at = resolution(inputs, inputs.len(), name)->0;
    assert forall|i2: int, j2: int| #[trigger]
        defines(inputs, i2, j2, name) implies !(i2 > at.0 || (i2 == at.0 && j2 > at.1)) by {}
    at
}

/// A name is in the symbol map only where some object defines it.
pub proof fn lemma_undefined_symbol_is_not_recorded(inputs: Seq<RelocatableView>, name: Seq<char>)
    requires
        forall|i: int, j: int| !#[trigger] defines(inputs, i, j, name),
    ensures
        !symbol_map(inputs).contains_key(name),
{
    if symbol_map(inputs).contains_key(name) {
        let at = lemma_recorded_symbol_is_defined(inputs, name);
    }
}

/// Where every object has a `.text` and every defined symbol lies inside the
/// text of its own object, every name in the symbol map stands for an offset
/// inside the merged text.
pub proof fn lemma_symbols_lie_in_text(inputs: Seq<RelocatableView>, name: Seq<char>)
    requires
        first_without_text(inputs, 0) is None,
        forall|i: int, j: int|
            0 <= i < inputs.len() && 0 <= j < inputs[i].symbols.len() && (
            #[trigger] inputs[i].symbols[j]).is_defined() ==> inputs[i].symbols[j].symbol.value
                < text_of(inputs[i])->0.len(),
        symbol_map(inputs).contains_key(name),
    ensures
        0 <= symbol_map(inputs)[name] < merged_text(inputs).len(),
{
    let at = lemma_recorded_symbol_is_defined(inputs, name);
    lemma_first_without_text(inputs, 0);
    lemma_text_upto(inputs, inputs.len(), at.0);
    assert(inputs[at.0].symbols[at.1].is_defined());
}

} // verus!
