//! Little-endian integers as they lie in an ELF-64 file.
//!
//! Each width has a reading (`le_*`), which gives the number that the bytes at
//! an offset spell, and a spelling (`*_le`), which gives the bytes of a number.
//! The two are inverse to each other, in both directions.
//!
//! The definitions of the readings and spellings are opaque: a proof that
//! needs one reveals it. Most proofs need only the facts about them that
//! this module proves.

use vstd::prelude::*;

verus! {

//  Readings
// ==========

/// The number spelled by the two bytes at `at`, least significant byte first.
#[verifier::opaque]
pub open spec fn le_u16(bytes: Seq<u8>, at: int) -> u16 {
    (bytes[at] + 256 * bytes[at + 1]) as u16
}

/// The number spelled by the four bytes at `at`, least significant byte first.
#[verifier::opaque]
pub open spec fn le_u32(bytes: Seq<u8>, at: int) -> u32 {
    (le_u16(bytes, at) + 0x1_0000 * le_u16(bytes, at + 2)) as u32
}

/// The number spelled by the eight bytes at `at`, least significant byte first.
#[verifier::opaque]
pub open spec fn le_u64(bytes: Seq<u8>, at: int) -> u64 {
    (le_u32(bytes, at) + 0x1_0000_0000 * le_u32(bytes, at + 4)) as u64
}

/// The signed number of which `u` is the 64-bit two's complement pattern.
pub open spec fn signed(u: u64) -> i64 {
    if u < 0x8000_0000_0000_0000 {
        u as i64
    } else {
        (u - 0x1_0000_0000_0000_0000) as i64
    }
}

/// The 64-bit two's complement pattern of `v`.
pub open spec fn pattern(v: i64) -> u64 {
    if v >= 0 {
        v as u64
    } else {
        (v + 0x1_0000_0000_0000_0000) as u64
    }
}

/// The signed number of which `u` is the 32-bit two's complement pattern.
pub open spec fn signed32(u: u32) -> i32 {
    if u < 0x8000_0000 {
        u as i32
    } else {
        (u - 0x1_0000_0000) as i32
    }
}

/// The 32-bit two's complement pattern of `v`.
pub open spec fn pattern32(v: i32) -> u32 {
    if v >= 0 {
        v as u32
    } else {
        (v + 0x1_0000_0000) as u32
    }
}

/// The signed number spelled by the four bytes at `at`, in two's complement.
pub open spec fn le_i32(bytes: Seq<u8>, at: int) -> i32 {
    signed32(le_u32(bytes, at))
}

/// The signed number spelled by the eight bytes at `at`, in two's complement.
pub open spec fn le_i64(bytes: Seq<u8>, at: int) -> i64 {
    signed(le_u64(bytes, at))
}

//  Spellings
// ===========

/// The two bytes that spell `v`.
#[verifier::opaque]
pub open spec fn u16_le(v: u16) -> Seq<u8> {
    seq![(v % 256) as u8, (v / 256) as u8]
}

/// The four bytes that spell `v`.
#[verifier::opaque]
pub open spec fn u32_le(v: u32) -> Seq<u8> {
    u16_le((v % 0x1_0000) as u16) + u16_le((v / 0x1_0000) as u16)
}

/// The eight bytes that spell `v`.
#[verifier::opaque]
pub open spec fn u64_le(v: u64) -> Seq<u8> {
    u32_le((v % 0x1_0000_0000) as u32) + u32_le((v / 0x1_0000_0000) as u32)
}

/// The four bytes that spell `v` in two's complement.
pub open spec fn i32_le(v: i32) -> Seq<u8> {
    u32_le(pattern32(v))
}

/// The eight bytes that spell `v` in two's complement.
pub open spec fn i64_le(v: i64) -> Seq<u8> {
    u64_le(pattern(v))
}

//  Pieces of buffers
// ===================

/// Two pieces of a buffer that touch make up the piece that spans both.
pub proof fn lemma_adjacent(bytes: Seq<u8>, from: int, mid: int, to: int)
    requires
        0 <= from <= mid <= to <= bytes.len(),
    ensures
        bytes.subrange(from, mid) + bytes.subrange(mid, to) == bytes.subrange(from, to),
{
}

/// A piece of a piece of a buffer is a piece of the buffer.
pub proof fn lemma_piece_of_piece(bytes: Seq<u8>, from: int, to: int, a: int, b: int)
    requires
        0 <= from <= to <= bytes.len(),
        0 <= a <= b <= to - from,
    ensures
        bytes.subrange(from, to).subrange(a, b) == bytes.subrange(from + a, from + b),
{
}

//  What a reading depends on
// ===========================

/// A two-byte reading takes nothing from a buffer but the bytes it spans:
/// two buffers that hold the same two bytes give the same number.
pub proof fn lemma_u16_same(a: Seq<u8>, i: int, b: Seq<u8>, j: int)
    requires
        0 <= i,
        i + 2 <= a.len(),
        0 <= j,
        j + 2 <= b.len(),
        a.subrange(i, i + 2) == b.subrange(j, j + 2),
    ensures
        le_u16(a, i) == le_u16(b, j),
{
    reveal(le_u16);
    assert(a[i] == a.subrange(i, i + 2)[0] && a[i + 1] == a.subrange(i, i + 2)[1]);
    assert(b[j] == b.subrange(j, j + 2)[0] && b[j + 1] == b.subrange(j, j + 2)[1]);
}

/// A four-byte reading takes nothing from a buffer but the bytes it spans.
pub proof fn lemma_u32_same(a: Seq<u8>, i: int, b: Seq<u8>, j: int)
    requires
        0 <= i,
        i + 4 <= a.len(),
        0 <= j,
        j + 4 <= b.len(),
        a.subrange(i, i + 4) == b.subrange(j, j + 4),
    ensures
        le_u32(a, i) == le_u32(b, j),
{
    reveal(le_u32);
    lemma_piece_of_piece(a, i, i + 4, 0, 2);
    lemma_piece_of_piece(b, j, j + 4, 0, 2);
    lemma_u16_same(a, i, b, j);
    lemma_piece_of_piece(a, i, i + 4, 2, 4);
    lemma_piece_of_piece(b, j, j + 4, 2, 4);
    lemma_u16_same(a, i + 2, b, j + 2);
}

/// An eight-byte reading takes nothing from a buffer but the bytes it spans.
pub proof fn lemma_u64_same(a: Seq<u8>, i: int, b: Seq<u8>, j: int)
    requires
        0 <= i,
        i + 8 <= a.len(),
        0 <= j,
        j + 8 <= b.len(),
        a.subrange(i, i + 8) == b.subrange(j, j + 8),
    ensures
        le_u64(a, i) == le_u64(b, j),
        le_i64(a, i) == le_i64(b, j),
{
    reveal(le_u64);
    lemma_piece_of_piece(a, i, i + 8, 0, 4);
    lemma_piece_of_piece(b, j, j + 8, 0, 4);
    lemma_u32_same(a, i, b, j);
    lemma_piece_of_piece(a, i, i + 8, 4, 8);
    lemma_piece_of_piece(b, j, j + 8, 4, 8);
    lemma_u32_same(a, i + 4, b, j + 4);
}

/// A two-byte reading in a piece of a buffer is the reading in the buffer.
pub proof fn lemma_u16_in_piece(bytes: Seq<u8>, from: int, to: int, at: int)
    requires
        0 <= from,
        0 <= at,
        from + at + 2 <= to <= bytes.len(),
    ensures
        le_u16(bytes.subrange(from, to), at) == le_u16(bytes, from + at),
{
    lemma_piece_of_piece(bytes, from, to, at, at + 2);
    lemma_u16_same(bytes.subrange(from, to), at, bytes, from + at);
}

/// A four-byte reading in a piece of a buffer is the reading in the buffer.
pub proof fn lemma_u32_in_piece(bytes: Seq<u8>, from: int, to: int, at: int)
    requires
        0 <= from,
        0 <= at,
        from + at + 4 <= to <= bytes.len(),
    ensures
        le_u32(bytes.subrange(from, to), at) == le_u32(bytes, from + at),
{
    lemma_piece_of_piece(bytes, from, to, at, at + 4);
    lemma_u32_same(bytes.subrange(from, to), at, bytes, from + at);
}

/// An eight-byte reading in a piece of a buffer is the reading in the
/// buffer.
pub proof fn lemma_u64_in_piece(bytes: Seq<u8>, from: int, to: int, at: int)
    requires
        0 <= from,
        0 <= at,
        from + at + 8 <= to <= bytes.len(),
    ensures
        le_u64(bytes.subrange(from, to), at) == le_u64(bytes, from + at),
        le_i64(bytes.subrange(from, to), at) == le_i64(bytes, from + at),
{
    lemma_piece_of_piece(bytes, from, to, at, at + 8);
    lemma_u64_same(bytes.subrange(from, to), at, bytes, from + at);
}

//  Reading what was spelled
// ==========================

/// The spelling of a number is as long as the number is wide.
pub proof fn lemma_lengths()
    ensures
        forall|v: u16| #[trigger] u16_le(v).len() == 2,
        forall|v: u32| #[trigger] u32_le(v).len() == 4,
        forall|v: u64| #[trigger] u64_le(v).len() == 8,
        forall|v: i64| #[trigger] i64_le(v).len() == 8,
        forall|v: i32| #[trigger] i32_le(v).len() == 4,
{
    reveal(u16_le);
    reveal(u32_le);
    reveal(u64_le);
}

/// A number written with two digits in some base has those digits as its
/// remainder and quotient.
pub proof fn lemma_two_digits(lo: int, hi: int, base: int)
    requires
        0 <= lo < base,
        0 <= hi,
    ensures
        (lo + base * hi) % base == lo,
        (lo + base * hi) / base == hi,
{
    assert(lo + base * hi == hi * base + lo) by (nonlinear_arith);
    vstd::arithmetic::div_mod::lemma_fundamental_div_mod_converse(lo + base * hi, base, hi, lo);
}

/// A number that was spelled between other bytes is read where it was put.
pub proof fn lemma_u16_read_at(all: Seq<u8>, front: Seq<u8>, v: u16, back: Seq<u8>)
    requires
        all == front + u16_le(v) + back,
    ensures
        le_u16(all, front.len() as int) == v,
        all == front + (u16_le(v) + back),
{
    reveal(le_u16);
    reveal(u16_le);
    assert(front + u16_le(v) + back == front + (u16_le(v) + back));
    assert(all[front.len() as int] == u16_le(v)[0]);
    assert(all[front.len() as int + 1] == u16_le(v)[1]);
}

/// A number that was spelled between other bytes is read where it was put.
pub proof fn lemma_u32_read_at(all: Seq<u8>, front: Seq<u8>, v: u32, back: Seq<u8>)
    requires
        all == front + u32_le(v) + back,
    ensures
        le_u32(all, front.len() as int) == v,
        all == front + (u32_le(v) + back),
{
    reveal(le_u32);
    reveal(u32_le);
    lemma_lengths();
    let lo: u16 = (v % 0x1_0000) as u16;
    let hi: u16 = (v / 0x1_0000) as u16;
    assert(front + u32_le(v) + back == front + (u32_le(v) + back));
    assert(all == front + u16_le(lo) + (u16_le(hi) + back));
    lemma_u16_read_at(all, front, lo, u16_le(hi) + back);
    assert(all == (front + u16_le(lo)) + u16_le(hi) + back);
    lemma_u16_read_at(all, front + u16_le(lo), hi, back);
}

/// A number that was spelled between other bytes is read where it was put.
pub proof fn lemma_u64_read_at(all: Seq<u8>, front: Seq<u8>, v: u64, back: Seq<u8>)
    requires
        all == front + u64_le(v) + back,
    ensures
        le_u64(all, front.len() as int) == v,
        all == front + (u64_le(v) + back),
{
    reveal(le_u64);
    reveal(u64_le);
    lemma_lengths();
    let lo: u32 = (v % 0x1_0000_0000) as u32;
    let hi: u32 = (v / 0x1_0000_0000) as u32;
    assert(front + u64_le(v) + back == front + (u64_le(v) + back));
    assert(all == front + u32_le(lo) + (u32_le(hi) + back));
    lemma_u32_read_at(all, front, lo, u32_le(hi) + back);
    assert(all == (front + u32_le(lo)) + u32_le(hi) + back);
    lemma_u32_read_at(all, front + u32_le(lo), hi, back);
}

/// A number that was spelled between other bytes is read where it was put.
pub proof fn lemma_i64_read_at(all: Seq<u8>, front: Seq<u8>, v: i64, back: Seq<u8>)
    requires
        all == front + i64_le(v) + back,
    ensures
        le_i64(all, front.len() as int) == v,
        all == front + (i64_le(v) + back),
{
    lemma_u64_read_at(all, front, pattern(v), back);
}

/// Reading what was spelled gives the number back.
pub proof fn lemma_read_back()
    ensures
        forall|v: u16| le_u16(#[trigger] u16_le(v), 0) == v,
        forall|v: u32| le_u32(#[trigger] u32_le(v), 0) == v,
        forall|v: u64| le_u64(#[trigger] u64_le(v), 0) == v,
        forall|v: i32| le_i32(#[trigger] i32_le(v), 0) == v,
        forall|v: i64| le_i64(#[trigger] i64_le(v), 0) == v,
{
    assert forall|v: u16| le_u16(#[trigger] u16_le(v), 0) == v by {
        lemma_u16_read_at(u16_le(v), Seq::empty(), v, Seq::empty());
    }
    assert forall|v: u32| le_u32(#[trigger] u32_le(v), 0) == v by {
        lemma_u32_read_at(u32_le(v), Seq::empty(), v, Seq::empty());
    }
    assert forall|v: u64| le_u64(#[trigger] u64_le(v), 0) == v by {
        lemma_u64_read_at(u64_le(v), Seq::empty(), v, Seq::empty());
    }
    assert forall|v: i32| le_i32(#[trigger] i32_le(v), 0) == v by {
        lemma_u32_read_at(i32_le(v), Seq::empty(), pattern32(v), Seq::empty());
    }
    assert forall|v: i64| le_i64(#[trigger] i64_le(v), 0) == v by {
        lemma_u64_read_at(i64_le(v), Seq::empty(), pattern(v), Seq::empty());
    }
}

//  Spelling what was read
// ========================

/// Spelling what was read gives the bytes back.
pub proof fn lemma_u16_spell_back(bytes: Seq<u8>, at: int)
    requires
        0 <= at,
        at + 2 <= bytes.len(),
    ensures
        u16_le(le_u16(bytes, at)) == bytes.subrange(at, at + 2),
{
    reveal(le_u16);
    reveal(u16_le);
}

/// Spelling what was read gives the bytes back.
pub proof fn lemma_u32_spell_back(bytes: Seq<u8>, at: int)
    requires
        0 <= at,
        at + 4 <= bytes.len(),
    ensures
        u32_le(le_u32(bytes, at)) == bytes.subrange(at, at + 4),
{
    reveal(le_u32);
    reveal(u32_le);
    lemma_u16_spell_back(bytes, at);
    lemma_u16_spell_back(bytes, at + 2);
    lemma_two_digits(le_u16(bytes, at) as int, le_u16(bytes, at + 2) as int, 0x1_0000);
    lemma_adjacent(bytes, at, at + 2, at + 4);
}

/// Spelling what was read gives the bytes back.
pub proof fn lemma_u64_spell_back(bytes: Seq<u8>, at: int)
    requires
        0 <= at,
        at + 8 <= bytes.len(),
    ensures
        u64_le(le_u64(bytes, at)) == bytes.subrange(at, at + 8),
        i64_le(le_i64(bytes, at)) == bytes.subrange(at, at + 8),
{
    reveal(le_u64);
    reveal(u64_le);
    lemma_u32_spell_back(bytes, at);
    lemma_u32_spell_back(bytes, at + 4);
    lemma_two_digits(le_u32(bytes, at) as int, le_u32(bytes, at + 4) as int, 0x1_0000_0000);
    lemma_adjacent(bytes, at, at + 4, at + 8);
}

//  Reading and writing
// =====================

/// Reads the two-byte number at `at`.
pub fn read_u16(bytes: &[u8], at: usize) -> (v: u16)
    requires
        at + 2 <= bytes.len(),
    ensures
        v == le_u16(bytes@, at as int),
{
    proof {
        reveal(le_u16);
    }
    let lo: u16 = bytes[at] as u16;
    let hi: u16 = bytes[at + 1] as u16;
    lo + 256 * hi
}

/// Reads the four-byte number at `at`.
pub fn read_u32(bytes: &[u8], at: usize) -> (v: u32)
    requires
        at + 4 <= bytes.len(),
    ensures
        v == le_u32(bytes@, at as int),
{
    proof {
        reveal(le_u32);
    }
    let lo: u32 = read_u16(bytes, at) as u32;
    let hi: u32 = read_u16(bytes, at + 2) as u32;
    lo + 0x1_0000 * hi
}

/// Reads the eight-byte number at `at`.
pub fn read_u64(bytes: &[u8], at: usize) -> (v: u64)
    requires
        at + 8 <= bytes.len(),
    ensures
        v == le_u64(bytes@, at as int),
{
    proof {
        reveal(le_u64);
    }
    let lo: u64 = read_u32(bytes, at) as u64;
    let hi: u64 = read_u32(bytes, at + 4) as u64;
    lo + 0x1_0000_0000 * hi
}

/// Reads the eight-byte signed number at `at`.
pub fn read_i64(bytes: &[u8], at: usize) -> (v: i64)
    requires
        at + 8 <= bytes.len(),
    ensures
        v == le_i64(bytes@, at as int),
{
    let u: u64 = read_u64(bytes, at);
    if u < 0x8000_0000_0000_0000 {
        u as i64
    } else {
        let low: i64 = (u - 0x8000_0000_0000_0000) as i64;
        low + i64::MIN
    }
}

/// Appends the two bytes of `v`.
pub fn write_u16(out: &mut Vec<u8>, v: u16)
    ensures
        final(out)@ == old(out)@ + u16_le(v),
{
    proof {
        reveal(u16_le);
    }
    out.push((v % 256) as u8);
    out.push((v / 256) as u8);
}

/// Appends the four bytes of `v`.
pub fn write_u32(out: &mut Vec<u8>, v: u32)
    ensures
        final(out)@ == old(out)@ + u32_le(v),
{
    proof {
        reveal(u32_le);
    }
    write_u16(out, (v % 0x1_0000) as u16);
    write_u16(out, (v / 0x1_0000) as u16);
}

/// Appends the eight bytes of `v`.
pub fn write_u64(out: &mut Vec<u8>, v: u64)
    ensures
        final(out)@ == old(out)@ + u64_le(v),
{
    proof {
        reveal(u64_le);
    }
    write_u32(out, (v % 0x1_0000_0000) as u32);
    write_u32(out, (v / 0x1_0000_0000) as u32);
}

/// Appends the eight bytes of `v` in two's complement.
pub fn write_i64(out: &mut Vec<u8>, v: i64)
    ensures
        final(out)@ == old(out)@ + i64_le(v),
{
    if v >= 0 {
        write_u64(out, v as u64);
    } else {
        let low: u64 = (v - i64::MIN) as u64;
        write_u64(out, low + 0x8000_0000_0000_0000);
    }
}

/// The four bytes of `v` in two's complement.
pub fn i32_bytes(v: i32) -> (image: [u8; 4])
    ensures
        image@ == i32_le(v),
{
    proof {
        reveal(u16_le);
        reveal(u32_le);
    }
    let p: u32 = if v >= 0 {
        v as u32
    } else {
        (v as i64 + 0x1_0000_0000) as u32
    };
    let lo: u32 = p % 0x1_0000;
    let hi: u32 = p / 0x1_0000;
    let image: [u8; 4] = [(lo % 256) as u8, (lo / 256) as u8, (hi % 256) as u8, (hi / 256) as u8];
    assert(image@ =~= i32_le(v));
    image
}

/// Appends a copy of `bytes`.
pub fn write_bytes(out: &mut Vec<u8>, bytes: &[u8])
    ensures
        final(out)@ == old(out)@ + bytes@,
{
    let mut k: usize = 0;
    while k < bytes.len()
        invariant
            k <= bytes@.len(),
            out@ == old(out)@ + bytes@.take(k as int),
        decreases bytes@.len() - k,
    {
        out.push(bytes[k]);
        k += 1;
    }
    assert(bytes@.take(k as int) == bytes@);
}

} // verus!
