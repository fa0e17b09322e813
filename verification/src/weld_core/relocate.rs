//! The third pass of a link: the relocations of the objects are applied to
//! the merged text.
//!
//! Only the PC-relative 32-bit form is applied. For a relocation at the place
//! `P` of the merged text that refers to a symbol at `S`, with the addend
//! `A`, the four bytes at `P` become `S - P + A`, little-endian and in two's
//! complement. A relocation that cannot be applied adds a finding and leaves
//! the text as it is.

use crate::elf::logical::{views_of, Relocatable, RelocatableView, Relocation, RelocationView};
use crate::elf::wire::{i32_bytes, i32_le};
use crate::weld_core::error::{WeldError, WeldErrorView};
use crate::weld_core::merge::{merged_text, section_start, symbol_map};
use crate::weld_core::symbols::SymbolTable;
use vstd::prelude::*;

verus! {

/// The code of the relocation type that is applied: PC-relative, 32 bits.
pub const PLT32: u64 = 4;

/// What is to be done about one relocation.
pub enum Verdict {
    /// The four bytes at `at` are to spell `value`.
    Patch { at: int, value: i32 },
    /// Nothing is to be written, and this finding is to be added.
    Refuse(WeldErrorView),
}

/// What is to be done about the relocation `r` of the object at `path`,
/// whose text starts at `start` in a merged text of `text_len` bytes, where
/// `map` says what the symbols stand for.
pub open spec fn judge(
    map: Map<Seq<char>, int>,
    text_len: int,
    path: Seq<char>,
    start: int,
    r: RelocationView,
) -> Verdict {
    let at = start + r.offset;
    let value = map[r.symbol.name] - at + r.addend;
    if r.raw_relo_type() != PLT32 {
        Verdict::Refuse(
            WeldErrorView::UnhandledRelocation { relo_type: r.raw_relo_type(), path },
        )
    } else if !map.contains_key(r.symbol.name) {
        Verdict::Refuse(WeldErrorView::UndefinedSymbol(r.symbol.name))
    } else if at + 4 > text_len {
        Verdict::Refuse(WeldErrorView::PatchOutOfBounds { path, offset: r.offset })
    } else if value < i32::MIN || value > i32::MAX {
        Verdict::Refuse(
            WeldErrorView::RelocationOverflow { symbol: r.symbol.name, at: at as usize },
        )
    } else {
        Verdict::Patch { at, value: value as i32 }
    }
}

/// The text in which the four bytes at `at` spell `value`.
pub open spec fn patched(text: Seq<u8>, at: int, value: i32) -> Seq<u8> {
    let image = i32_le(value);
    text.update(at, image[0]).update(at + 1, image[1]).update(at + 2, image[2]).update(
        at + 3,
        image[3],
    )
}

/// How far the third pass has come: the text as it is by now, and the
/// findings so far.
pub struct Progress {
    pub text: Seq<u8>,
    pub errors: Seq<WeldErrorView>,
}

/// The progress after one more relocation.
pub open spec fn applied(
    progress: Progress,
    map: Map<Seq<char>, int>,
    path: Seq<char>,
    start: int,
    r: RelocationView,
) -> Progress {
    match judge(map, progress.text.len() as int, path, start, r) {
        Verdict::Patch { at, value } => Progress {
            text: patched(progress.text, at, value),
            errors: progress.errors,
        },
        Verdict::Refuse(e) => Progress { text: progress.text, errors: progress.errors.push(e) },
    }
}

/// The progress after the relocations of one object, in their order.
pub open spec fn applied_all(
    progress: Progress,
    map: Map<Seq<char>, int>,
    path: Seq<char>,
    start: int,
    relocations: Seq<RelocationView>,
) -> Progress
    decreases relocations.len(),
{
    if relocations.len() == 0 {
        progress
    } else {
        applied(
            applied_all(progress, map, path, start, relocations.drop_last()),
            map,
            path,
            start,
            relocations.last(),
        )
    }
}

/// The progress after the relocations of the first `count` objects. It
/// starts from the merged text, and every relocation sees the symbols of all
/// objects.
pub open spec fn relocated_upto(inputs: Seq<RelocatableView>, count: nat) -> Progress
    decreases count,
{
    if count == 0 {
        Progress { text: merged_text(inputs), errors: Seq::empty() }
    } else {
        applied_all(
            relocated_upto(inputs, (count - 1) as nat),
            symbol_map(inputs),
            inputs[count - 1].path,
            section_start(inputs, count - 1),
            inputs[count - 1].relocations,
        )
    }
}

/// The text and the findings after the relocations of all objects.
pub open spec fn relocated(inputs: Seq<RelocatableView>) -> Progress {
    relocated_upto(inputs, inputs.len())
}

/// Adds a finding.
fn report(errors: &mut Vec<WeldError>, e: WeldError)
    ensures
        views_of(final(errors)@) == views_of(old(errors)@).push(e@),
{
    errors.push(e);
    assert(views_of(errors@) =~= views_of(old(errors)@).push(e@));
}

/// Writes `value` over the four bytes at `at`.
fn patch(text: &mut Vec<u8>, at: usize, value: i32)
    requires
        at + 4 <= old(text).len(),
    ensures
        final(text)@ == patched(old(text)@, at as int, value),
{
    let image = i32_bytes(value);
    text.set(at, image[0]);
    text.set(at + 1, image[1]);
    text.set(at + 2, image[2]);
    text.set(at + 3, image[3]);
}

/// Applies the relocation `r` of the object at `path`, whose text starts at
/// `start`.
fn apply_relocation(
    text: &mut Vec<u8>,
    errors: &mut Vec<WeldError>,
    symbols: &SymbolTable,
    path: &String,
    start: usize,
    r: &Relocation,
)
    ensures
        (Progress { text: final(text)@, errors: views_of(final(errors)@) }) == applied(
            Progress { text: old(text)@, errors: views_of(old(errors)@) },
            symbols@,
            path@,
            start as int,
            r@,
        ),
{
    let code: u64 = r.raw_relo_type();
    if code != PLT32 {
        report(errors, WeldError::UnhandledRelocation { relo_type: code, path: path.clone() });
        return ;
    }
    let symbol_addr: u128 = match symbols.get(&r.symbol.name) {
        None => {
            report(errors, WeldError::UndefinedSymbol(r.symbol.name.clone()));
            return ;
        },
        Some(offset) => offset,
    };
    let site: u128 = start as u128 + r.offset as u128;
    if site + 4 > text.len() as u128 {
        report(errors, WeldError::PatchOutOfBounds { path: path.clone(), offset: r.offset });
        return ;
    }
    let at: usize = site as usize;
    // A symbol this far out is further from any place of the text than 32
    // bits can say.
    if symbol_addr > 0x4_0000_0000_0000_0000 {
        report(errors, WeldError::RelocationOverflow { symbol: r.symbol.name.clone(), at });
        return ;
    }
    let new_addr: i128 = symbol_addr as i128 - site as i128 + r.addend as i128;
    if new_addr < -0x8000_0000 || new_addr > 0x7fff_ffff {
        report(errors, WeldError::RelocationOverflow { symbol: r.symbol.name.clone(), at });
        return ;
    }
    patch(text, at, new_addr as i32);
}

/// Applies the relocations of one object, whose text starts at `start`.
fn apply_relocations_of(
    text: &mut Vec<u8>,
    errors: &mut Vec<WeldError>,
    symbols: &SymbolTable,
    f: &Relocatable,
    start: usize,
)
    ensures
        (Progress { text: final(text)@, errors: views_of(final(errors)@) }) == applied_all(
            Progress { text: old(text)@, errors: views_of(old(errors)@) },
            symbols@,
            f@.path,
            start as int,
            f@.relocations,
        ),
{
    let ghost all = f@.relocations;
    let ghost begin = Progress { text: text@, errors: views_of(errors@) };
    assert(all.take(0) =~= Seq::empty());
    let mut j: usize = 0;
    while j < f.relocations.len()
        invariant
            j <= f.relocations@.len(),
            all == f@.relocations,
            (Progress { text: text@, errors: views_of(errors@) }) == applied_all(
                begin,
                symbols@,
                f@.path,
                start as int,
                all.take(j as int),
            ),
        decreases f.relocations@.len() - j,
    {
        proof {
            assert(all.take(j + 1).drop_last() == all.take(j as int));
            assert(all.take(j + 1).last() == f.relocations@[j as int]@);
        }
        apply_relocation(text, errors, symbols, &f.path, start, &f.relocations[j]);
        j += 1;
    }
    assert(all.take(j as int) == all);
}

/// Applies the relocations of all objects to `text`, which must be the
/// merged text, and adds the findings to `errors`. `starts` says where the
/// text of each object starts, and `symbols` what the symbols stand for.
pub fn apply_relocations(
    inputs: &[Relocatable],
    starts: &[usize],
    symbols: &SymbolTable,
    text: &mut Vec<u8>,
    errors: &mut Vec<WeldError>,
)
    requires
        starts@.len() == inputs@.len(),
        forall|i: int|
            0 <= i < starts@.len() ==> #[trigger] starts@[i] == section_start(
                views_of(inputs@),
                i,
            ),
        symbols@ == symbol_map(views_of(inputs@)),
        old(text)@ == merged_text(views_of(inputs@)),
        old(errors)@.len() == 0,
    ensures
        (Progress { text: final(text)@, errors: views_of(final(errors)@) }) == relocated(
            views_of(inputs@),
        ),
{
    let ghost objects = views_of(inputs@);
    assert(views_of(errors@) =~= Seq::empty());
    let mut i: usize = 0;
    while i < inputs.len()
        invariant
            i <= inputs@.len(),
            objects == views_of(inputs@),
            starts@.len() == inputs@.len(),
            forall|k: int|
                0 <= k < starts@.len() ==> #[trigger] starts@[k] == section_start(objects, k),
            symbols@ == symbol_map(objects),
            (Progress { text: text@, errors: views_of(errors@) }) == relocated_upto(
                objects,
                i as nat,
            ),
        decreases inputs@.len() - i,
    {
        let f = &inputs[i];
        assert(f@ == objects[i as int]);
        assert(starts@[i as int] == section_start(objects, i as int));
        apply_relocations_of(text, errors, symbols, f, starts[i]);
        i += 1;
    }
}

//  What the pass leaves alone
// ============================

/// Whether byte `k` of the merged text is one of the four bytes that `r`
/// would be written to, where `r` is of the form that is applied and belongs
/// to an object whose text starts at `start`.
pub open spec fn covers(r: RelocationView, start: int, k: int) -> bool {
    r.raw_relo_type() == PLT32 && start + r.offset <= k < start + r.offset + 4
}

/// Whether byte `k` of the merged text lies in a patch site: in the four
/// bytes that some relocation of the applied form, of some object, points at.
pub open spec fn in_patch_site(inputs: Seq<RelocatableView>, k: int) -> bool {
    exists|i: int, j: int|
        0 <= i < inputs.len() && 0 <= j < inputs[i].relocations.len() && #[trigger] covers(
            inputs[i].relocations[j],
            section_start(inputs, i),
            k,
        )
}

/// A finding of the third pass is about a relocation.
pub open spec fn about_relocation(e: WeldErrorView) -> bool {
    e is UnhandledRelocation || e is UndefinedSymbol || e is PatchOutOfBounds
        || e is RelocationOverflow
}

/// One relocation keeps the length of the text and every byte outside its
/// own patch site, and it adds no finding but one about a relocation.
proof fn lemma_applied(
    progress: Progress,
    map: Map<Seq<char>, int>,
    path: Seq<char>,
    start: int,
    r: RelocationView,
)
    requires
        0 <= start,
    ensures
        applied(progress, map, path, start, r).text.len() == progress.text.len(),
        forall|k: int|
            0 <= k < progress.text.len() && !covers(r, start, k) ==> applied(
                progress,
                map,
                path,
                start,
                r,
            ).text[k] == progress.text[k],
        (forall|n: int| 0 <= n < progress.errors.len() ==> about_relocation(progress.errors[n]))
            ==> (forall|n: int|
            0 <= n < applied(progress, map, path, start, r).errors.len() ==> about_relocation(
                applied(progress, map, path, start, r).errors[n],
            )),
{
}

/// The relocations of one object keep the length of the text and every byte
/// outside their patch sites, and they add no finding but ones about
/// relocations.
proof fn lemma_applied_all(
    progress: Progress,
    map: Map<Seq<char>, int>,
    path: Seq<char>,
    start: int,
    relocations: Seq<RelocationView>,
)
    requires
        0 <= start,
    ensures
        applied_all(progress, map, path, start, relocations).text.len() == progress.text.len(),
        forall|k: int|
            0 <= k < progress.text.len() && (forall|j: int|
                0 <= j < relocations.len() ==> !covers(#[trigger] relocations[j], start, k))
                ==> applied_all(progress, map, path, start, relocations).text[k]
                == progress.text[k],
        (forall|n: int| 0 <= n < progress.errors.len() ==> about_relocation(progress.errors[n]))
            ==> (forall|n: int|
            0 <= n < applied_all(progress, map, path, start, relocations).errors.len()
                ==> about_relocation(
                applied_all(progress, map, path, start, relocations).errors[n],
            )),
    decreases relocations.len(),
{
    if relocations.len() > 0 {
        let front = relocations.drop_last();
        let before = applied_all(progress, map, path, start, front);
        lemma_applied_all(progress, map, path, start, front);
        lemma_applied(before, map, path, start, relocations.last());
        assert forall|k: int|
            0 <= k < progress.text.len() && (forall|j: int|
                0 <= j < relocations.len() ==> !covers(
                    #[trigger] relocations[j],
                    start,
                    k,
                )) implies applied_all(progress, map, path, start, relocations).text[k]
            == progress.text[k] by {
            assert forall|j: int| 0 <= j < front.len() implies !covers(
                #[trigger] front[j],
                start,
                k,
            ) by {
                assert(front[j] == relocations[j]);
            }
            assert(!covers(relocations[relocations.len() - 1], start, k));
        }
    }
}

/// The relocations of the first `count` objects keep the length of the
/// merged text and every byte outside the patch sites, and they give no
/// finding but ones about relocations.
proof fn lemma_relocated_upto(inputs: Seq<RelocatableView>, count: nat)
    requires
        count <= inputs.len(),
    ensures
        relocated_upto(inputs, count).text.len() == merged_text(inputs).len(),
        forall|k: int|
            0 <= k < merged_text(inputs).len() && !in_patch_site(inputs, k) ==> relocated_upto(
                inputs,
                count,
            ).text[k] == merged_text(inputs)[k],
        forall|n: int|
            0 <= n < relocated_upto(inputs, count).errors.len() ==> about_relocation(
                relocated_upto(inputs, count).errors[n],
            ),
    decreases count,
{
    if count > 0 {
        let i = count - 1;
        let before = relocated_upto(inputs, i as nat);
        let start = section_start(inputs, i);
        lemma_relocated_upto(inputs, i as nat);
        lemma_applied_all(before, symbol_map(inputs), inputs[i].path, start, inputs[i].relocations);
        assert forall|k: int|
            0 <= k < merged_text(inputs).len() && !in_patch_site(inputs, k) implies relocated_upto(
            inputs,
            count,
        ).text[k] == merged_text(inputs)[k] by {
            assert forall|j: int| 0 <= j < inputs[i].relocations.len() implies !covers(
                #[trigger] inputs[i].relocations[j],
                start,
                k,
            ) by {
                if covers(inputs[i].relocations[j], section_start(inputs, i), k) {
                    assert(in_patch_site(inputs, k));
                }
            }
        }
    }
}

/// Relocating keeps the merged text as it is outside the patch sites: the
/// text is as long as the texts of the objects together, and every byte that
/// no relocation of the applied form points at is the byte that its object
/// had there.
pub proof fn lemma_relocated_text(inputs: Seq<RelocatableView>)
    ensures
        relocated(inputs).text.len() == merged_text(inputs).len(),
        forall|k: int|
            0 <= k < merged_text(inputs).len() && !in_patch_site(inputs, k) ==> relocated(
                inputs,
            ).text[k] == merged_text(inputs)[k],
{
    lemma_relocated_upto(inputs, inputs.len());
}

/// Every finding of the third pass is about a relocation.
pub proof fn lemma_relocated_findings(inputs: Seq<RelocatableView>)
    ensures
        forall|n: int|
            0 <= n < relocated(inputs).errors.len() ==> about_relocation(
                #[trigger] relocated(inputs).errors[n],
            ),
{
    lemma_relocated_upto(inputs, inputs.len());
}

//  What the pass reports
// =======================

/// What is to be done about relocation `j` of object `i`.
pub open spec fn verdict_of(inputs: Seq<RelocatableView>, i: int, j: int) -> Verdict {
    judge(
        symbol_map(inputs),
        merged_text(inputs).len() as int,
        inputs[i].path,
        section_start(inputs, i),
        inputs[i].relocations[j],
    )
}

/// The relocations of one object keep the findings that were there, and add
/// the finding of each of them that is refused.
proof fn lemma_applied_all_reports(
    progress: Progress,
    map: Map<Seq<char>, int>,
    path: Seq<char>,
    start: int,
    relocations: Seq<RelocationView>,
)
    requires
        0 <= start,
    ensures
        progress.errors.len() <= applied_all(progress, map, path, start, relocations).errors.len(),
        forall|n: int|
            0 <= n < progress.errors.len() ==> applied_all(
                progress,
                map,
                path,
                start,
                relocations,
            ).errors[n] == progress.errors[n],
        forall|j: int|
            0 <= j < relocations.len() && judge(
                map,
                progress.text.len() as int,
                path,
                start,
                #[trigger] relocations[j],
            ) is Refuse ==> applied_all(progress, map, path, start, relocations).errors.contains(
                judge(map, progress.text.len() as int, path, start, relocations[j])->Refuse_0,
            ),
        forall|n: int|
            #![trigger applied_all(progress, map, path, start, relocations).errors[n]]
            progress.errors.len() <= n < applied_all(
                progress,
                map,
                path,
                start,
                relocations,
            ).errors.len() ==> exists|j: int|
                0 <= j < relocations.len() && judge(
                    map,
                    progress.text.len() as int,
                    path,
                    start,
                    #[trigger] relocations[j],
                ) == Verdict::Refuse(
                    applied_all(progress, map, path, start, relocations).errors[n],
                ),
    decreases relocations.len(),
{
    if relocations.len() > 0 {
        let front = relocations.drop_last();
        let last = relocations.last();
        let before = applied_all(progress, map, path, start, front);
        let after = applied_all(progress, map, path, start, relocations);
        let len = progress.text.len() as int;
        lemma_applied_all_reports(progress, map, path, start, front);
        lemma_applied_all(progress, map, path, start, front);
        assert(before.text.len() == progress.text.len());
        assert forall|j: int|
            0 <= j < relocations.len() && judge(
                map,
                len,
                path,
                start,
                #[trigger] relocations[j],
            ) is Refuse implies after.errors.contains(
            judge(map, len, path, start, relocations[j])->Refuse_0,
        ) by {
            let e = judge(map, len, path, start, relocations[j])->Refuse_0;
            if j < front.len() {
                assert(front[j] == relocations[j]);
                let n = choose|n: int| 0 <= n < before.errors.len() && before.errors[n] == e;
                assert(after.errors[n] == e);
            } else {
                assert(after.errors[after.errors.len() - 1] == e);
            }
        }
        assert forall|n: int|
            #![trigger after.errors[n]]
            progress.errors.len() <= n < after.errors.len() implies exists|j: int|
            0 <= j < relocations.len() && judge(map, len, path, start, #[trigger] relocations[j])
                == Verdict::Refuse(after.errors[n]) by {
            if n < before.errors.len() {
                let j = choose|j: int|
                    0 <= j < front.len() && judge(map, len, path, start, #[trigger] front[j])
                        == Verdict::Refuse(before.errors[n]);
                assert(front[j] == relocations[j]);
            } else {
                assert(judge(map, len, path, start, relocations[relocations.len() - 1])
                    == Verdict::Refuse(after.errors[n]));
            }
        }
    }
}

/// The relocations of the first `count` objects give the finding of each of
/// them that is refused, and no other finding.
proof fn lemma_relocated_upto_reports(inputs: Seq<RelocatableView>, count: nat)
    requires
        count <= inputs.len(),
    ensures
        forall|i: int, j: int|
            0 <= i < count && 0 <= j < inputs[i].relocations.len() && (#[trigger] verdict_of(
                inputs,
                i,
                j,
            )) is Refuse ==> relocated_upto(inputs, count).errors.contains(
                verdict_of(inputs, i, j)->Refuse_0,
            ),
        forall|n: int|
            #![trigger relocated_upto(inputs, count).errors[n]]
            0 <= n < relocated_upto(inputs, count).errors.len() ==> exists|i: int, j: int|
                0 <= i < count && 0 <= j < inputs[i].relocations.len() && #[trigger] verdict_of(
                    inputs,
                    i,
                    j,
                ) == Verdict::Refuse(relocated_upto(inputs, count).errors[n]),
    decreases count,
{
    if count > 0 {
        let last = count - 1;
        let before = relocated_upto(inputs, last as nat);
        let after = relocated_upto(inputs, count);
        let map = symbol_map(inputs);
        let start = section_start(inputs, last);
        lemma_relocated_upto_reports(inputs, last as nat);
        lemma_relocated_upto(inputs, last as nat);
        lemma_applied_all_reports(before, map, inputs[last].path, start, inputs[last].relocations);
        assert forall|i: int, j: int|
            0 <= i < count && 0 <= j < inputs[i].relocations.len() && (#[trigger] verdict_of(
                inputs,
                i,
                j,
            )) is Refuse implies after.errors.contains(verdict_of(inputs, i, j)->Refuse_0) by {
            let e = verdict_of(inputs, i, j)->Refuse_0;
            if i < last {
                let n = choose|n: int| 0 <= n < before.errors.len() && before.errors[n] == e;
                assert(after.errors[n] == e);
            } else {
                assert(judge(
                    map,
                    before.text.len() as int,
                    inputs[last].path,
                    start,
                    inputs[last].relocations[j],
                ) is Refuse);
            }
        }
        assert forall|n: int|
            #![trigger after.errors[n]]
            0 <= n < after.errors.len() implies exists|i: int, j: int|
            0 <= i < count && 0 <= j < inputs[i].relocations.len() && #[trigger] verdict_of(
                inputs,
                i,
                j,
            ) == Verdict::Refuse(after.errors[n]) by {
            if n < before.errors.len() {
                let (i, j) = choose|i: int, j: int|
                    0 <= i < last && 0 <= j < inputs[i].relocations.len() && #[trigger] verdict_of(
                        inputs,
                        i,
                        j,
                    ) == Verdict::Refuse(before.errors[n]);
                assert(verdict_of(inputs, i, j) == Verdict::Refuse(after.errors[n]));
            } else {
                let j = choose|j: int|
                    0 <= j < inputs[last].relocations.len() && judge(
                        map,
                        before.text.len() as int,
                        inputs[last].path,
                        start,
                        #[trigger] inputs[last].relocations[j],
                    ) == Verdict::Refuse(after.errors[n]);
                assert(verdict_of(inputs, last, j) == Verdict::Refuse(after.errors[n]));
            }
        }
    }
}

/// Every relocation that is refused is reported: its finding is among the
/// findings of the pass, whatever else was found.
pub proof fn lemma_refusal_is_reported(inputs: Seq<RelocatableView>, i: int, j: int)
    requires
        0 <= i < inputs.len(),
        0 <= j < inputs[i].relocations.len(),
        verdict_of(inputs, i, j) is Refuse,
    ensures
        relocated(inputs).errors.contains(verdict_of(inputs, i, j)->Refuse_0),
{
    lemma_relocated_upto_reports(inputs, inputs.len());
}

/// Every finding of the pass is that of a relocation that is refused.
pub proof fn lemma_report_is_a_refusal(inputs: Seq<RelocatableView>, n: int) -> (at: (int, int))
    requires
        0 <= n < relocated(inputs).errors.len(),
    ensures
        0 <= at.0 < inputs.len(),
        0 <= at.1 < inputs[at.0].relocations.len(),
        verdict_of(inputs, at.0, at.1) == Verdict::Refuse(relocated(inputs).errors[n]),
{
    lemma_relocated_upto_reports(inputs, inputs.len());
    let e = relocated_upto(inputs, inputs.len()).errors[n];
    let (i, j) = choose|i: int, j: int|
        0 <= i < inputs.len() && 0 <= j < inputs[i].relocations.len() && #[trigger] verdict_of(
            inputs,
            i,
            j,
        ) == Verdict::Refuse(e);
    (i, j)
}

} // verus!
