//! ELF string tables: a run of bytes in which each string ends with a zero
//! byte and is named by the offset of its first byte.
//!
//! [`StrTab`] does no interning: `carpet` and `pet` take their own bytes each,
//! and inserting a string twice stores it twice.

use vstd::prelude::*;
use vstd::slice::slice_to_vec;
use vstd::utf8::{encode_utf8, is_ascii_chars, is_ascii_chars_encode_utf8};

verus! {

/// The characters that a run of bytes stands for: one per byte, the byte's
/// value being the character's number.
pub open spec fn chars_of(bytes: Seq<u8>) -> Seq<char> {
    Seq::new(bytes.len(), |k: int| bytes[k] as char)
}

/// The offset of the first zero byte at or after `from`, or `bytes.len()`
/// where no zero byte follows.
pub open spec fn terminator(bytes: Seq<u8>, from: int) -> int
    decreases bytes.len() - from,
{
    if from < 0 || from >= bytes.len() {
        bytes.len() as int
    } else if bytes[from] == 0 {
        from
    } else {
        terminator(bytes, from + 1)
    }
}

/// The string that starts at offset `i`: the bytes up to the next zero byte,
/// or nothing where no zero byte follows.
pub open spec fn string_at(bytes: Seq<u8>, i: int) -> Option<Seq<char>> {
    let end = terminator(bytes, i);
    if 0 <= i && end < bytes.len() {
        Some(chars_of(bytes.subrange(i, end)))
    } else {
        None
    }
}

/// Whether every character of `s` fits in one byte of a table and is not the
/// terminator: its number lies between 1 and 127.
pub open spec fn storable(s: Seq<char>) -> bool {
    forall|k: int| 0 <= k < s.len() ==> '\u{1}' <= #[trigger] s[k] <= '\u{7f}'
}

/// [`terminator`] is the least offset from `from` on that holds a zero byte.
pub proof fn lemma_terminator(bytes: Seq<u8>, from: int)
    requires
        0 <= from <= bytes.len(),
    ensures
        from <= terminator(bytes, from) <= bytes.len(),
        terminator(bytes, from) < bytes.len() ==> bytes[terminator(bytes, from)] == 0,
        forall|k: int| from <= k < terminator(bytes, from) ==> bytes[k] != 0,
    decreases bytes.len() - from,
{
    if from < bytes.len() && bytes[from] != 0 {
        lemma_terminator(bytes, from + 1);
    }
}

/// A zero byte at `end` with none between `from` and `end` is the terminator.
pub proof fn lemma_terminator_is(bytes: Seq<u8>, from: int, end: int)
    requires
        0 <= from <= end <= bytes.len(),
        forall|k: int| from <= k < end ==> bytes[k] != 0,
        end < bytes.len() ==> bytes[end] == 0,
    ensures
        terminator(bytes, from) == end,
    decreases end - from,
{
    if from < end {
        lemma_terminator_is(bytes, from + 1, end);
    }
}

/// A string that is found in a table ends inside it, on a zero byte, and
/// holds no zero byte itself.
pub proof fn lemma_string_ends_inside(bytes: Seq<u8>, i: int)
    requires
        string_at(bytes, i) is Some,
    ensures
        i + string_at(bytes, i)->0.len() + 1 <= bytes.len(),
        bytes[i + string_at(bytes, i)->0.len()] == 0,
        forall|k: int|
            0 <= k < string_at(bytes, i)->0.len() ==> bytes[i + k] != 0 && string_at(
                bytes,
                i,
            )->0[k] == bytes[i + k] as char,
{
    if i <= bytes.len() {
        lemma_terminator(bytes, i);
    }
}

/// In a table that starts with a zero byte, offset 0 names the empty string.
pub proof fn lemma_empty_string_at_zero(bytes: Seq<u8>)
    requires
        bytes.len() > 0,
        bytes[0] == 0,
    ensures
        string_at(bytes, 0) == Some(Seq::<char>::empty()),
{
    assert(chars_of(bytes.subrange(0, 0)) =~= Seq::<char>::empty());
}

/// Appending to a table changes no string that it already held.
pub proof fn lemma_append_keeps(bytes: Seq<u8>, tail: Seq<u8>, i: int)
    requires
        string_at(bytes, i) is Some,
    ensures
        string_at(bytes + tail, i) == string_at(bytes, i),
{
    lemma_terminator(bytes, i);
    let end = terminator(bytes, i);
    lemma_terminator_is(bytes + tail, i, end);
    assert((bytes + tail).subrange(i, end) == bytes.subrange(i, end));
}

/// A storable string that is appended with its terminator is found again at
/// the offset where it was put.
pub proof fn lemma_insert_then_get(bytes: Seq<u8>, s: Seq<char>)
    requires
        storable(s),
    ensures
        string_at(bytes + encode_utf8(s) + seq![0u8], bytes.len() as int) == Some(s),
{
    assert(is_ascii_chars(s));
    is_ascii_chars_encode_utf8(s);
    let body = encode_utf8(s);
    let all = bytes + body + seq![0u8];
    let start = bytes.len() as int;
    let end = start + body.len();
    assert forall|k: int| start <= k < end implies all[k] != 0 by {
        assert(all[k] == body[k - start]);
        assert(body[k - start] == s[k - start] as u8);
    }
    lemma_terminator_is(all, start, end);
    assert(chars_of(all.subrange(start, end)) =~= s) by {
        assert forall|k: int| 0 <= k < s.len() implies chars_of(all.subrange(start, end))[k]
            == s[k] by {
            assert(all.subrange(start, end)[k] == body[k]);
            assert(body[k] == s[k] as u8);
        }
    }
}

/// `String::push`: the character goes to the end of the string, and the rest
/// of it stays.
#[verifier::external_body]
fn push_char(s: &mut String, c: char)
    ensures
        final(s)@ == old(s)@.push(c),
{
    s.push(c);
}

/// A string table, owning its bytes.
#[derive(Debug)]
pub struct StrTab {
    bytes: Vec<u8>,
}

impl View for StrTab {
    type V = Seq<u8>;

    closed spec fn view(&self) -> Seq<u8> {
        self.bytes@
    }
}

impl StrTab {
    /// Whether the table starts with a zero byte, so that offset 0 names the
    /// empty string.
    pub open spec fn wf(&self) -> bool {
        self@.len() > 0 && self@[0] == 0
    }

    /// A table over a copy of `bytes`.
    pub fn new(bytes: &[u8]) -> (table: Self)
        ensures
            table@ == bytes@,
    {
        StrTab { bytes: slice_to_vec(bytes) }
    }

    /// The string that starts at offset `i`, or `None` where the table ends
    /// before a zero byte is met.
    pub fn get(&self, i: usize) -> (found: Option<String>)
        ensures
            match found {
                Some(s) => string_at(self@, i as int) == Some(s@),
                None => string_at(self@, i as int) is None,
            },
            found matches Some(s) ==> i + s@.len() + 1 <= self@.len() && self@[i + s@.len()] == 0,
    {
        if i > self.bytes.len() {
            return None;
        }
        let mut buffer = String::new();
        let mut j: usize = i;
        assert(buffer@ == chars_of(self.bytes@.subrange(i as int, j as int)));
        while j < self.bytes.len()
            invariant
                i <= j <= self.bytes@.len(),
                buffer@ == chars_of(self.bytes@.subrange(i as int, j as int)),
                forall|k: int| i <= k < j ==> self.bytes@[k] != 0,
            decreases self.bytes@.len() - j,
        {
            let c: u8 = self.bytes[j];
            if c == 0 {
                proof {
                    lemma_terminator_is(self.bytes@, i as int, j as int);
                }
                return Some(buffer);
            }
            push_char(&mut buffer, c as char);
            assert(buffer@ == chars_of(self.bytes@.subrange(i as int, j + 1)));
            j += 1;
        }
        proof {
            lemma_terminator_is(self.bytes@, i as int, self.bytes@.len() as int);
        }
        None
    }

    /// Appends `s`, as the bytes of its UTF-8 encoding, and a zero byte, and
    /// returns the offset at which `s` starts. A string of characters
    /// between 1 and 127 is found again at that offset; any other string is
    /// stored all the same, and is read back as its bytes spell.
    pub fn insert(&mut self, s: &str) -> (pos: usize)
        ensures
            pos == old(self)@.len(),
            final(self)@ == old(self)@ + encode_utf8(s@) + seq![0u8],
            storable(s@) ==> string_at(final(self)@, pos as int) == Some(s@),
            old(self).wf() ==> final(self).wf(),
    {
        let pos: usize = self.bytes.len();
        let body = s.as_bytes();
        let mut k: usize = 0;
        while k < body.len()
            invariant
                k <= body@.len(),
                self.bytes@ == old(self).bytes@ + body@.subrange(0, k as int),
            decreases body@.len() - k,
        {
            self.bytes.push(body[k]);
            assert(body@.subrange(0, k + 1) == body@.subrange(0, k as int).push(body@[k as int]));
            k += 1;
        }
        assert(body@.subrange(0, k as int) == body@);
        self.bytes.push(0);
        assert(self@ == old(self)@ + encode_utf8(s@) + seq![0u8]);
        proof {
            if storable(s@) {
                lemma_insert_then_get(old(self)@, s@);
            }
        }
        pos
    }

    /// The number of bytes in the table.
    pub fn len(&self) -> (n: usize)
        ensures
            n == self@.len(),
    {
        self.bytes.len()
    }

    /// The bytes of the table, as they are written to a file.
    pub fn get_bytes(&self) -> (bytes: &[u8])
        ensures
            bytes@ == self@,
    {
        self.bytes.as_slice()
    }
}

impl Default for StrTab {
    /// The table that holds the empty string only: one zero byte.
    fn default() -> (table: Self)
        ensures
            table@ == seq![0u8],
            table.wf(),
    {
        let mut bytes: Vec<u8> = Vec::new();
        bytes.push(0);
        StrTab { bytes }
    }
}

} // verus!
