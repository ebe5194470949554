//! Splitting a byte buffer into newline-inclusive lines, and decoding
//! lines to characters.

use vstd::prelude::*;
use vstd::slice::{slice_subrange, slice_to_vec};

verus! {

/// How many times a value occurs in a sequence.
pub open spec fn count_occ<T>(s: Seq<T>, x: T) -> nat
    decreases s.len(),
{
    if s.len() == 0 {
        0
    } else {
        count_occ(s.drop_last(), x) + (if s.last() == x {
            1nat
        } else {
            0nat
        })
    }
}

/// The characters that lossy UTF-8 decoding yields for a byte sequence:
/// valid sequences decode to their scalar values, invalid sequences to
/// replacement characters.
pub uninterp spec fn lossy_decode(bytes: Seq<u8>) -> Seq<char>;

/// Relies on `String::from_utf8_lossy`: valid UTF-8 passes through
/// unchanged (so ASCII bytes map to their own characters), invalid
/// sequences become replacement characters. A newline byte is a complete
/// sequence of its own, so it decodes to `'\n'` wherever it stands and
/// nothing else does.
#[verifier::external_body]
pub(crate) fn decode_lossy(bytes: &[u8]) -> (r: Vec<char>)
    ensures
        r@ == lossy_decode(bytes@),
        bytes@.len() == 0 ==> r@.len() == 0,
        (forall|i: int| 0 <= i < bytes@.len() ==> bytes@[i] < 0x80) ==> r@ == bytes@.map_values(
            |b: u8| b as char,
        ),
        count_occ(r@, '\n') <= count_occ(bytes@, 10u8),
        bytes@.len() > 0 && bytes@.last() == 10u8 ==> r@.len() > 0 && r@.last() == '\n',
{
    String::from_utf8_lossy(bytes).chars().collect()
}

/// Relies on `memchr::memchr`: the index of the first occurrence of a byte
/// in a slice, here searched from `from` on and reported relative to
/// `from`.
#[verifier::external_body]
pub(crate) fn find_byte_from(hay: &[u8], from: usize, needle: u8) -> (r: Option<usize>)
    requires
        from <= hay@.len(),
    ensures
        match r {
            Some(i) => from + i < hay@.len() && hay@[from + i] == needle && (forall|j: int|
                from <= j < from + i ==> hay@[j] != needle),
            None => forall|j: int| from <= j < hay@.len() ==> hay@[j] != needle,
        },
{
    memchr::memchr(needle, &hay[from..])
}

/// The index of the first newline byte at or after `i`, or the length if
/// there is none.
pub open spec fn spec_find_nl(buf: Seq<u8>, i: int) -> int
    decreases buf.len() - i,
{
    if i < 0 || i >= buf.len() {
        buf.len() as int
    } else if buf[i] == 10u8 {
        i
    } else {
        spec_find_nl(buf, i + 1)
    }
}

/// Where the line starting at `prev` ends: one past its newline, or the
/// end of the buffer.
pub open spec fn spec_line_end(buf: Seq<u8>, prev: int) -> int {
    if spec_find_nl(buf, prev) < buf.len() {
        spec_find_nl(buf, prev) + 1
    } else {
        buf.len() as int
    }
}

proof fn lemma_find_nl_none(buf: Seq<u8>, from: int)
    requires
        0 <= from <= buf.len(),
        forall|j: int| from <= j < buf.len() ==> buf[j] != 10u8,
    ensures
        spec_find_nl(buf, from) == buf.len(),
    decreases buf.len() - from,
{
    if from < buf.len() {
        lemma_find_nl_none(buf, from + 1);
    }
}

proof fn lemma_find_nl_some(buf: Seq<u8>, from: int, i: int)
    requires
        0 <= from <= i < buf.len(),
        buf[i] == 10u8,
        forall|j: int| from <= j < i ==> buf[j] != 10u8,
    ensures
        spec_find_nl(buf, from) == i,
    decreases i - from,
{
    if from < i {
        lemma_find_nl_some(buf, from + 1, i);
    }
}

/// The line starting at `prev` is non-empty, ends at or before the end of
/// the buffer, holds no newline byte before its last position, and its
/// last byte is a newline unless it is the final line.
pub proof fn lemma_line_shape(buf: Seq<u8>, prev: int)
    requires
        0 <= prev < buf.len(),
    ensures
        prev < spec_line_end(buf, prev) <= buf.len(),
        forall|j: int| prev <= j < spec_line_end(buf, prev) - 1 ==> buf[j] != 10u8,
        spec_line_end(buf, prev) < buf.len() ==> buf[spec_line_end(buf, prev) - 1] == 10u8,
    decreases buf.len() - prev,
{
    if buf[prev] == 10u8 {
        assert(spec_find_nl(buf, prev) == prev);
    } else {
        assert(spec_find_nl(buf, prev) == spec_find_nl(buf, prev + 1));
        if prev + 1 < buf.len() {
            lemma_line_shape(buf, prev + 1);
            assert(spec_line_end(buf, prev) == spec_line_end(buf, prev + 1));
        } else {
            assert(spec_find_nl(buf, prev + 1) == buf.len());
        }
    }
}

/// One line of a buffer: its bytes, newline included, and its one-based
/// line number.
pub struct Line(pub Vec<u8>, pub u64);

/// An iterator over the newline-inclusive lines of a byte buffer.
pub struct LinesInclusive<'a> {
    pub buf: &'a [u8],
    pub prev: usize,
    pub lnum: u64,
}

impl<'a> LinesInclusive<'a> {
    /// The iterator is somewhere inside the buffer and its line number
    /// counts the lines already emitted.
    pub open spec fn wf(self) -> bool {
        &&& self.prev <= self.buf@.len()
        &&& 1 <= self.lnum
        &&& self.lnum <= self.prev + 1
    }

    pub fn new(buf: &'a [u8]) -> (r: Self)
        ensures
            r.buf@ == buf@,
            r.prev == 0,
            r.lnum == 1,
            r.wf(),
    {
        LinesInclusive { buf, prev: 0, lnum: 1 }
    }

    /// The next line, if any: the bytes from the current position through
    /// the next newline (or the end of the buffer), with its line number.
    pub fn next(&mut self) -> (r: Option<Line>)
        requires
            old(self).wf(),
        ensures
            final(self).buf@ == old(self).buf@,
            final(self).wf(),
            match r {
                None => {
                    &&& old(self).prev == old(self).buf@.len()
                    &&& final(self).prev == old(self).prev
                    &&& final(self).lnum == old(self).lnum
                },
                Some(line) => {
                    &&& old(self).prev < old(self).buf@.len()
                    &&& final(self).prev == spec_line_end(old(self).buf@, old(self).prev as int)
                    &&& line.0@ == old(self).buf@.subrange(
                        old(self).prev as int,
                        final(self).prev as int,
                    )
                    &&& line.1 == old(self).lnum
                    &&& (final(self).prev < old(self).buf@.len() ==> final(self).lnum == old(
                        self,
                    ).lnum + 1)
                },
            },
    {
        let len = self.buf.len();
        if self.prev >= len {
            return None;
        }
        let end: usize = match find_byte_from(self.buf, self.prev, 10) {
            Some(i) => {
                proof {
                    lemma_find_nl_some(
                        self.buf@,
                        self.prev as int,
                        self.prev as int + i as int,
                    );
                }
                self.prev + i + 1
            },
            None => {
                proof {
                    lemma_find_nl_none(self.buf@, self.prev as int);
                }
                len
            },
        };
        assert(end == spec_line_end(self.buf@, self.prev as int));
        let bytes = slice_to_vec(slice_subrange(self.buf, self.prev, end));
        let n = self.lnum;
        let line = Line(bytes, n);
        self.prev = end;
        if end < len {
            self.lnum = n + 1;
        }
        Some(line)
    }
}

} // verus!
