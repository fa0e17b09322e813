//! Listings of program code: the instructions of a run of bytes, each with
//! the address where it starts and the way it reads in AT&T syntax.
//!
//! The instructions are told apart and spelled out by the `iced-x86`
//! disassembler. What it says of an instruction is taken on trust, under the
//! names [`first_length`] and [`first_text`]; that the lines of a listing
//! follow one another without a gap, from the first byte to the last, is
//! proved here.

use crate::elf::logical::{views_of, Section};
use iced_x86::{Decoder, DecoderOptions, Formatter, GasFormatter};
use vstd::prelude::*;

verus! {

/// The mode in which code is read: as code for a 64-bit processor.
pub const BITNESS: u32 = 64;

/// The number of bytes that the first instruction of `code` takes, where
/// `code` is read as x86 code for a processor of `bitness` bits that lies at
/// the address `ip`.
pub uninterp spec fn first_length(bitness: u32, code: Seq<u8>, ip: u64) -> nat;

/// The way the first instruction of `code` reads in AT&T syntax, where
/// `code` is read as x86 code for a processor of `bitness` bits that lies at
/// the address `ip`.
pub uninterp spec fn first_text(bitness: u32, code: Seq<u8>, ip: u64) -> Seq<char>;

/// Decodes the first instruction of `code` with `Decoder::try_with_ip` and
/// `Decoder::decode`, without decoder options, and spells it with
/// `Formatter::format` of a `GasFormatter::new()`. Gives the instruction's
/// length, which is `Instruction::len`, and its text; or nothing where the
/// decoder refuses the bitness or the slice.
///
/// Taken on trust: the length and the text depend on the bitness, the bytes
/// and the address alone; and the decoder, which reads at least one byte
/// where there is one and never past the end of the slice, gives a length
/// between 1 and the length of the slice. (Bytes that are no instruction
/// come out as an invalid one, which has a length too.)
#[verifier::external_body]
fn decode_first(bitness: u32, code: &[u8], ip: u64) -> (decoded: Option<(usize, String)>)
    requires
        code@.len() > 0,
    ensures
        decoded matches Some((length, text)) ==> {
            &&& length == first_length(bitness, code@, ip)
            &&& text@ == first_text(bitness, code@, ip)
            &&& 1 <= length <= code@.len()
        },
{
    let mut decoder = Decoder::try_with_ip(bitness, code, ip, DecoderOptions::NONE).ok()?;
    let instruction = decoder.decode();
    let mut text = String::new();
    GasFormatter::new().format(&instruction, &mut text);
    Some((instruction.len(), text))
}

/// One line of a listing: an instruction.
#[derive(Debug, PartialEq, Eq)]
pub struct Line {
    /// The address of the instruction's first byte.
    pub address: u64,
    /// The number of bytes that the instruction takes.
    pub length: usize,
    /// The instruction in AT&T syntax.
    pub text: String,
}

/// What a [`Line`] holds.
pub struct LineView {
    pub address: u64,
    pub length: nat,
    pub text: Seq<char>,
}

impl View for Line {
    type V = LineView;

    open spec fn view(&self) -> LineView {
        LineView { address: self.address, length: self.length as nat, text: self.text@ }
    }
}

/// The address `at` bytes after `ip`. Addresses wrap around at 64 bits.
pub open spec fn address_of(ip: u64, at: nat) -> u64 {
    ((ip + at) % 0x1_0000_0000_0000_0000) as u64
}

/// The number of bytes that the first `count` lines span.
pub open spec fn span_of(lines: Seq<LineView>, count: nat) -> nat
    decreases count,
{
    if count == 0 {
        0
    } else {
        span_of(lines, (count - 1) as nat) + lines[count - 1].length
    }
}

/// Whether line `i` is the instruction that the lines before it leave as the
/// first: it starts where they end, at the address that goes with that
/// place, and has the length and the text of the first instruction of the
/// bytes from there on.
pub open spec fn is_line(lines: Seq<LineView>, code: Seq<u8>, ip: u64, i: int) -> bool {
    let at = span_of(lines, i as nat);
    let rest = code.subrange(at as int, code.len() as int);
    let address = address_of(ip, at);
    &&& at < code.len()
    &&& lines[i].address == address
    &&& lines[i].length == first_length(BITNESS, rest, address)
    &&& lines[i].text == first_text(BITNESS, rest, address)
    &&& 1 <= lines[i].length <= rest.len()
}

/// Whether `lines` is the listing of `code` at the address `ip`: every line
/// is the instruction that the lines before it leave as the first, and the
/// lines together span the code.
pub open spec fn is_listing(lines: Seq<LineView>, code: Seq<u8>, ip: u64) -> bool {
    &&& forall|i: int| 0 <= i < lines.len() ==> is_line(lines, code, ip, i)
    &&& span_of(lines, lines.len()) == code.len()
}

/// The first lines span the same whatever lines follow them.
proof fn lemma_span_of_front(lines: Seq<LineView>, line: LineView, count: nat)
    requires
        count <= lines.len(),
    ensures
        span_of(lines.push(line), count) == span_of(lines, count),
    decreases count,
{
    if count > 0 {
        lemma_span_of_front(lines, line, (count - 1) as nat);
        assert(lines.push(line)[count - 1] == lines[count - 1]);
    }
}

/// A listing has one line for each instruction and no other: two listings
/// of the same code at the same address are the same.
pub proof fn lemma_one_listing(a: Seq<LineView>, b: Seq<LineView>, code: Seq<u8>, ip: u64)
    requires
        is_listing(a, code, ip),
        is_listing(b, code, ip),
    ensures
        a == b,
{
    lemma_same_lines(a, b, code, ip, if a.len() <= b.len() {
        a.len()
    } else {
        b.len()
    });
    if a.len() < b.len() {
        assert(is_line(b, code, ip, a.len() as int));
    } else if b.len() < a.len() {
        assert(is_line(a, code, ip, b.len() as int));
    }
    assert(a =~= b);
}

/// Two listings of the same code at the same address agree line by line.
proof fn lemma_same_lines(
    a: Seq<LineView>,
    b: Seq<LineView>,
    code: Seq<u8>,
    ip: u64,
    count: nat,
)
    requires
        is_listing(a, code, ip),
        is_listing(b, code, ip),
        count <= a.len(),
        count <= b.len(),
    ensures
        span_of(a, count) == span_of(b, count),
        forall|i: int| 0 <= i < count ==> a[i] == b[i],
    decreases count,
{
    if count > 0 {
        lemma_same_lines(a, b, code, ip, (count - 1) as nat);
        assert(is_line(a, code, ip, count - 1));
        assert(is_line(b, code, ip, count - 1));
    }
}

/// Adds the line of an instruction of `length` bytes that reads `text` and
/// starts `at` bytes after `ip`, and gives the place where the next
/// instruction starts.
pub fn add_line(lines: &mut Vec<Line>, ip: u64, at: usize, length: usize, text: String) -> (next:
    usize)
    requires
        at + length <= usize::MAX,
    ensures
        next == at + length,
        final(lines)@.len() == old(lines)@.len() + 1,
        views_of(final(lines)@) == views_of(old(lines)@).push(
            LineView { address: address_of(ip, at as nat), length: length as nat, text: text@ },
        ),
{
    let address: u64 = ((ip as u128 + at as u128) % 0x1_0000_0000_0000_0000) as u64;
    lines.push(Line { address, length, text });
    assert(views_of(lines@) =~= views_of(old(lines)@).push(
        LineView { address: address_of(ip, at as nat), length: length as nat, text: text@ },
    ));
    at + length
}

/// Lists the instructions of `code`, which lies at the address `ip`. Gives
/// nothing where the disassembler refuses to read from some place on; code
/// of no bytes has the listing of no lines.
pub fn listing(code: &[u8], ip: u64) -> (lines: Option<Vec<Line>>)
    ensures
        lines matches Some(l) ==> is_listing(views_of(l@), code@, ip),
        code@.len() == 0 ==> (lines matches Some(l) && l@.len() == 0),
{
    let mut lines: Vec<Line> = Vec::new();
    let mut at: usize = 0;
    while at < code.len()
        invariant
            lines@.len() <= at <= code@.len(),
            at == span_of(views_of(lines@), lines@.len()),
            forall|i: int| 0 <= i < lines@.len() ==> is_line(views_of(lines@), code@, ip, i),
        decreases code@.len() - at,
    {
        let rest = vstd::slice::slice_subrange(code, at, code.len());
        let address: u64 = ((ip as u128 + at as u128) % 0x1_0000_0000_0000_0000) as u64;
        let (length, text) = match decode_first(BITNESS, rest, address) {
            None => {
                return None;
            },
            Some(decoded) => decoded,
        };
        let ghost before = views_of(lines@);
        let ghost line = LineView {
            address: address_of(ip, at as nat),
            length: length as nat,
            text: text@,
        };
        at = add_line(&mut lines, ip, at, length, text);
        proof {
            let after = views_of(lines@);
            assert(after == before.push(line));
            lemma_span_of_front(before, line, before.len());
            assert forall|i: int| 0 <= i < after.len() implies is_line(after, code@, ip, i) by {
                if i < before.len() {
                    lemma_span_of_front(before, line, i as nat);
                    assert(is_line(before, code@, ip, i));
                    assert(after[i] == before[i]);
                }
            }
        }
    }
    Some(lines)
}

impl Section {
    /// Lists the instructions of the section, which lie at the section's
    /// offset, if the section is called `.text`. Any other section has the
    /// listing of no lines.
    pub fn listing(&self) -> (lines: Option<Vec<Line>>)
        ensures
            self@.name != ".text"@ ==> (lines matches Some(l) && l@.len() == 0),
            self@.name == ".text"@ ==> (lines matches Some(l) ==> is_listing(
                views_of(l@),
                self@.bytes,
                self@.offset,
            )),
    {
        if self.name != ".text".to_owned() {
            return Some(Vec::new());
        }
        listing(self.bytes.as_slice(), self.offset)
    }
}

} // verus!
