//! Byte offsets as character indices.

use vstd::prelude::*;
use vstd::utf8::{decode_utf8, encode_utf8, is_char_boundary, valid_utf8};

verus! {

broadcast use vstd::utf8::group_utf8_lib;

/// The bytes of a text.
pub open spec fn bytes_of(text: Seq<char>) -> Seq<u8> {
    encode_utf8(text)
}

/// Whether a byte offset lies between two characters of the text.
pub open spec fn boundary(text: Seq<char>, offset: int) -> bool {
    is_char_boundary(bytes_of(text), offset)
}

/// How many characters stand before a byte offset between two characters.
pub open spec fn chars_before(text: Seq<char>, offset: int) -> nat {
    decode_utf8(bytes_of(text).subrange(0, offset)).len()
}

pub proof fn lemma_boundary_in_range(text: Seq<char>, offset: int)
    requires
        boundary(text, offset),
    ensures
        0 <= offset <= bytes_of(text).len(),
{
    vstd::utf8::encode_utf8_valid_utf8(text);
    lemma_boundary_range(bytes_of(text), offset);
}

proof fn lemma_boundary_range(bytes: Seq<u8>, offset: int)
    requires
        valid_utf8(bytes),
        is_char_boundary(bytes, offset),
    ensures
        0 <= offset <= bytes.len(),
{
}

/// A boundary of a text is a boundary of its rest from an earlier boundary on.
proof fn lemma_boundary_in_rest(bytes: Seq<u8>, from: int, offset: int)
    requires
        valid_utf8(bytes),
        is_char_boundary(bytes, from),
        is_char_boundary(bytes, offset),
        0 <= from <= offset <= bytes.len(),
    ensures
        valid_utf8(bytes.subrange(from, bytes.len() as int)),
        is_char_boundary(bytes.subrange(from, bytes.len() as int), offset - from),
{
    vstd::utf8::valid_utf8_split(bytes, from);
    let rest = bytes.subrange(from, bytes.len() as int);
    if offset == bytes.len() {
        vstd::utf8::is_char_boundary_start_end_of_seq(rest);
    } else {
        vstd::utf8::is_char_boundary_iff_not_is_continuation_byte(bytes, offset);
        vstd::utf8::is_char_boundary_iff_not_is_continuation_byte(rest, offset - from);
    }
}

/// The characters before an offset are those before an earlier one and those
/// in between.
proof fn lemma_chars_between(text: Seq<char>, from: int, offset: int)
    requires
        boundary(text, from),
        boundary(text, offset),
        0 <= from <= offset <= bytes_of(text).len(),
    ensures
        chars_before(text, offset) == chars_before(text, from) + decode_utf8(
            bytes_of(text).subrange(from, offset),
        ).len(),
{
    let bytes = bytes_of(text);
    vstd::utf8::encode_utf8_valid_utf8(text);
    vstd::utf8::valid_utf8_split(bytes, offset);
    let head = bytes.subrange(0, offset);
    assert(is_char_boundary(head, from)) by {
        if from == offset {
            vstd::utf8::is_char_boundary_start_end_of_seq(head);
        } else {
            vstd::utf8::is_char_boundary_iff_not_is_continuation_byte(bytes, from);
            vstd::utf8::is_char_boundary_iff_not_is_continuation_byte(head, from);
        }
    }
    vstd::utf8::decode_utf8_split(head, from);
    assert(head.subrange(0, from) =~= bytes.subrange(0, from));
    assert(head.subrange(from, head.len() as int) =~= bytes.subrange(from, offset));
}

proof fn lemma_chars_at_start(text: Seq<char>)
    ensures
        chars_before(text, 0) == 0,
{
    assert(bytes_of(text).subrange(0, 0) =~= Seq::<u8>::empty());
}

/// The offset of the end of the text counts all its characters.
pub proof fn lemma_chars_at_end(text: Seq<char>)
    ensures
        chars_before(text, bytes_of(text).len() as int) == text.len(),
        boundary(text, bytes_of(text).len() as int),
{
    vstd::utf8::encode_utf8_valid_utf8(text);
    vstd::utf8::is_char_boundary_start_end_of_seq(bytes_of(text));
    vstd::utf8::encode_utf8_decode_utf8(text);
    assert(bytes_of(text).subrange(0, bytes_of(text).len() as int) =~= bytes_of(text));
}

/// A later offset counts at least as many characters.
pub proof fn lemma_chars_monotonic(text: Seq<char>, from: int, offset: int)
    requires
        boundary(text, from),
        boundary(text, offset),
        0 <= from <= offset <= bytes_of(text).len(),
    ensures
        chars_before(text, from) <= chars_before(text, offset) <= text.len(),
{
    lemma_chars_between(text, from, offset);
    lemma_chars_at_end(text);
    lemma_chars_between(text, offset, bytes_of(text).len() as int);
}

/// Converts byte offsets to character indices in one forward pass.
///
/// Offsets mostly arrive in increasing order, so counting characters from the
/// previous offset keeps the whole conversion linear in the text.
pub struct ByteToChar<'a> {
    pub text: &'a str,
    pub byte: usize,
    pub character: usize,
}

impl<'a> ByteToChar<'a> {
    pub open spec fn wf(&self) -> bool {
        &&& boundary(self.text@, self.byte as int)
        &&& self.byte <= bytes_of(self.text@).len()
        &&& self.character == chars_before(self.text@, self.byte as int)
    }

    pub fn new(text: &'a str) -> (out: ByteToChar<'a>)
        ensures
            out.wf(),
            out.text == text,
            out.byte == 0,
    {
        proof {
            vstd::utf8::encode_utf8_valid_utf8(text@);
            vstd::utf8::is_char_boundary_start_end_of_seq(bytes_of(text@));
            lemma_chars_at_start(text@);
        }
        ByteToChar { text, byte: 0, character: 0 }
    }

    /// The character index of a byte offset between two characters.
    pub fn convert(&mut self, offset: usize) -> (out: usize)
        requires
            old(self).wf(),
            boundary(old(self).text@, offset as int),
        ensures
            final(self).wf(),
            final(self).text == old(self).text,
            final(self).byte == offset,
            out == chars_before(old(self).text@, offset as int),
    {
        if offset < self.byte {
            self.byte = 0;
            self.character = 0;
            proof {
                vstd::utf8::encode_utf8_valid_utf8(self.text@);
                vstd::utf8::is_char_boundary_start_end_of_seq(bytes_of(self.text@));
                lemma_chars_at_start(self.text@);
            }
        }
        let from: usize = self.byte;
        proof {
            lemma_boundary_in_range(self.text@, offset as int);
            vstd::utf8::encode_utf8_valid_utf8(self.text@);
            lemma_boundary_in_rest(bytes_of(self.text@), from as int, offset as int);
            lemma_chars_between(self.text@, from as int, offset as int);
            lemma_chars_monotonic(self.text@, offset as int, offset as int);
        }
        let (_, rest) = self.text.split_at(from);
        let (between, _) = rest.split_at(offset - from);
        let count: usize = between.unicode_len();
        let whole: usize = self.text.unicode_len();
        proof {
            let bytes = bytes_of(self.text@);
            assert(bytes.subrange(from as int, bytes.len() as int).subrange(0, offset - from) =~= bytes.subrange(
                from as int,
                offset as int,
            ));
            vstd::utf8::encode_utf8_decode_utf8(between@);
            assert(between@.len() == decode_utf8(bytes.subrange(from as int, offset as int)).len());
        }
        self.character = self.character + count;
        self.byte = offset;
        self.character
    }
}

/// The smallest character boundary that is not before the offset.
pub open spec fn boundary_after(text: Seq<char>, offset: int) -> int
    decreases bytes_of(text).len() - offset,
{
    if offset >= bytes_of(text).len() {
        bytes_of(text).len() as int
    } else if boundary(text, offset) {
        offset
    } else {
        boundary_after(text, offset + 1)
    }
}

pub proof fn lemma_boundary_after(text: Seq<char>, offset: int)
    requires
        0 <= offset,
    ensures
        boundary(text, boundary_after(text, offset)),
        boundary_after(text, offset) <= bytes_of(text).len(),
        offset <= bytes_of(text).len() ==> offset <= boundary_after(text, offset),
    decreases bytes_of(text).len() - offset,
{
    lemma_chars_at_end(text);
    if offset < bytes_of(text).len() && !boundary(text, offset) {
        lemma_boundary_after(text, offset + 1);
    }
}

/// The smallest character boundary that is not before the offset.
pub fn ceil_char_boundary(text: &str, offset: usize) -> (out: usize)
    ensures
        out == boundary_after(text@, offset as int),
{
    let length: usize = text.as_bytes().len();
    if offset >= length {
        return length;
    }
    let mut at: usize = offset;
    while at < length && !text.is_char_boundary(at)
        invariant
            at <= length,
            length == bytes_of(text@).len(),
            boundary_after(text@, offset as int) == boundary_after(text@, at as int),
        decreases length - at,
    {
        at += 1;
    }
    at
}

} // verus!
