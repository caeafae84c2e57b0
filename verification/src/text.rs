//! Byte offsets into source text.

use vstd::prelude::*;

verus! {

/// The UTF-8 bytes of a text.
pub open spec fn bytes_of(text: Seq<char>) -> Seq<u8> {
    vstd::utf8::encode_utf8(text)
}

/// `offset` is a byte offset into `text` that splits no character.
pub open spec fn on_boundary(text: Seq<char>, offset: int) -> bool {
    &&& 0 <= offset <= bytes_of(text).len()
    &&& vstd::utf8::is_char_boundary(bytes_of(text), offset)
}

/// The length of `text` in bytes.
pub fn byte_len(text: &str) -> (len: usize)
    ensures
        len == bytes_of(text@).len(),
{
    text.as_bytes().len()
}

/// A boundary before another one is a boundary of the text up to the latter.
pub proof fn lemma_boundary_in_prefix(bytes: Seq<u8>, start: int, end: int)
    requires
        vstd::utf8::valid_utf8(bytes),
        0 <= start <= end <= bytes.len(),
        vstd::utf8::is_char_boundary(bytes, start),
        vstd::utf8::is_char_boundary(bytes, end),
    ensures
        vstd::utf8::valid_utf8(bytes.subrange(0, end)),
        vstd::utf8::is_char_boundary(bytes.subrange(0, end), start),
{
    let prefix = bytes.subrange(0, end);
    vstd::utf8::valid_utf8_split(bytes, end);
    if start == end {
        vstd::utf8::is_char_boundary_start_end_of_seq(prefix);
        assert(prefix.len() == end);
    } else {
        assert(prefix[start] == bytes[start]);
        vstd::utf8::is_char_boundary_iff_not_is_continuation_byte(bytes, start);
        vstd::utf8::is_char_boundary_iff_not_is_continuation_byte(prefix, start);
    }
}

/// Where valid text ends within valid text, no character is split.
pub proof fn lemma_valid_prefix(bytes: Seq<u8>, end: int)
    requires
        vstd::utf8::valid_utf8(bytes),
        0 <= end <= bytes.len(),
        vstd::utf8::valid_utf8(bytes.subrange(0, end)),
    ensures
        vstd::utf8::is_char_boundary(bytes, end),
    decreases bytes.len(),
{
    if end == 0 {
        vstd::utf8::is_char_boundary_start_end_of_seq(bytes);
    } else {
        let prefix = bytes.subrange(0, end);
        assert(prefix[0] == bytes[0]);
        let first = vstd::utf8::length_of_first_scalar(bytes);
        assert(vstd::utf8::length_of_first_scalar(prefix) == first);
        let rest = vstd::utf8::pop_first_scalar(bytes);
        assert(vstd::utf8::pop_first_scalar(prefix) =~= rest.subrange(0, end - first));
        lemma_valid_prefix(rest, end - first);
    }
}

/// The part of `text` between two byte offsets.
pub fn slice(text: &str, start: usize, end: usize) -> (part: &str)
    requires
        start <= end,
        on_boundary(text@, start as int),
        on_boundary(text@, end as int),
    ensures
        bytes_of(part@) == bytes_of(text@).subrange(start as int, end as int),
        part@ == crate::text::part(text@, start as int, end as int),
{
    proof {
        vstd::utf8::encode_utf8_valid_utf8(text@);
        lemma_boundary_in_prefix(bytes_of(text@), start as int, end as int);
    }
    let head = text.split_at(end).0;
    let part = head.split_at(start).1;
    assert(bytes_of(part@) =~= bytes_of(text@).subrange(start as int, end as int));
    proof {
        vstd::utf8::encode_utf8_decode_utf8(part@);
    }
    part
}

/// How many bytes the UTF-8 form of `c` takes.
pub open spec fn width(c: char) -> nat {
    vstd::utf8::encode_scalar(c as u32).len()
}

/// How many bytes the UTF-8 form of `c` takes.
pub fn char_width(c: char) -> (bytes: usize)
    ensures
        bytes == width(c),
        1 <= bytes <= 4,
{
    let v: u32 = c as u32;
    if v <= 0x7F {
        1
    } else if v <= 0x7FF {
        2
    } else if v <= 0xFFFF {
        3
    } else {
        4
    }
}

/// The bytes of two texts in a row.
pub proof fn lemma_bytes_join(a: Seq<char>, b: Seq<char>)
    ensures
        bytes_of(a + b) == bytes_of(a) + bytes_of(b),
    decreases a.len(),
{
    if a.len() == 0 {
        assert(a + b =~= b);
        assert(bytes_of(a) + bytes_of(b) =~= bytes_of(b));
    } else {
        lemma_bytes_join(a.drop_first(), b);
        assert((a + b).drop_first() =~= a.drop_first() + b);
        assert((a + b)[0] == a[0]);
        assert(bytes_of(a + b) =~= bytes_of(a) + bytes_of(b));
    }
}

/// The bytes of a text with one more character.
pub proof fn lemma_bytes_push(a: Seq<char>, c: char)
    ensures
        bytes_of(a.push(c)) == bytes_of(a) + vstd::utf8::encode_scalar(c as u32),
        bytes_of(a.push(c)).len() == bytes_of(a).len() + width(c),
{
    lemma_bytes_join(a, seq![c]);
    assert(a.push(c) =~= a + seq![c]);
    assert(seq![c].drop_first() =~= Seq::<char>::empty());
    assert(bytes_of(seq![c].drop_first()) =~= Seq::<u8>::empty());
    assert(bytes_of(seq![c]) =~= vstd::utf8::encode_scalar(c as u32));
}

/// The bytes of the first `k` characters are the first bytes of the text, and
/// the offset they end at splits no character.
pub proof fn lemma_prefix_boundary(text: Seq<char>, k: int)
    requires
        0 <= k <= text.len(),
    ensures
        bytes_of(text.take(k)).len() <= bytes_of(text).len(),
        bytes_of(text).take(bytes_of(text.take(k)).len() as int) == bytes_of(text.take(k)),
        bytes_of(text).skip(bytes_of(text.take(k)).len() as int) == bytes_of(text.skip(k)),
        on_boundary(text, bytes_of(text.take(k)).len() as int),
    decreases k,
{
    let bytes = bytes_of(text);
    let n = bytes_of(text.take(k)).len() as int;
    assert(text.take(k) + text.skip(k) =~= text);
    lemma_bytes_join(text.take(k), text.skip(k));
    assert(bytes.take(n) =~= bytes_of(text.take(k)));
    assert(bytes.skip(n) =~= bytes_of(text.skip(k)));
    vstd::utf8::encode_utf8_valid_utf8(text);
    if k == 0 {
        assert(text.take(0) =~= Seq::<char>::empty());
    } else {
        let rest = text.drop_first();
        lemma_prefix_boundary(rest, k - 1);
        vstd::utf8::encode_utf8_first_scalar(text);
        assert(vstd::utf8::pop_first_scalar(bytes) =~= bytes_of(rest));
        assert(text.take(k).drop_first() =~= rest.take(k - 1));
        assert(text.take(k)[0] == text[0]);
        assert(n == width(text[0]) + bytes_of(rest.take(k - 1)).len());
    }
}

/// An offset that splits no character is where some number of characters end.
pub proof fn lemma_boundary_prefix(text: Seq<char>, offset: int) -> (k: int)
    requires
        on_boundary(text, offset),
    ensures
        0 <= k <= text.len(),
        bytes_of(text.take(k)).len() == offset,
        bytes_of(text.take(k)) == bytes_of(text).take(offset),
        bytes_of(text.skip(k)) == bytes_of(text).skip(offset),
{
    let bytes = bytes_of(text);
    vstd::utf8::encode_utf8_valid_utf8(text);
    vstd::utf8::valid_utf8_split(bytes, offset);
    let head = vstd::utf8::decode_utf8(bytes.subrange(0, offset));
    let tail = vstd::utf8::decode_utf8(bytes.subrange(offset, bytes.len() as int));
    vstd::utf8::decode_utf8_encode_utf8(bytes.subrange(0, offset));
    vstd::utf8::decode_utf8_encode_utf8(bytes.subrange(offset, bytes.len() as int));
    vstd::utf8::decode_utf8_split(bytes, offset);
    vstd::utf8::encode_utf8_decode_utf8(text);
    assert(text == head + tail);
    let k = head.len() as int;
    assert(text.take(k) =~= head);
    assert(text.skip(k) =~= tail);
    assert(bytes.subrange(0, offset) =~= bytes.take(offset));
    assert(bytes.subrange(offset, bytes.len() as int) =~= bytes.skip(offset));
    k
}

/// The text from `start` to `end`, both offsets that split no character.
pub open spec fn part(text: Seq<char>, start: int, end: int) -> Seq<char> {
    vstd::utf8::decode_utf8(bytes_of(text).subrange(start, end))
}

/// Whether two texts are the same.
pub fn same_text(a: &str, b: &str) -> (same: bool)
    ensures
        same == (a@ == b@),
{
    let left = a.as_bytes();
    let right = b.as_bytes();
    proof {
        vstd::utf8::encode_utf8_decode_utf8(a@);
        vstd::utf8::encode_utf8_decode_utf8(b@);
    }
    if left.len() != right.len() {
        return false;
    }
    let mut k: usize = 0;
    while k < left.len()
        invariant
            k <= left@.len(),
            left@.len() == right@.len(),
            left@ == bytes_of(a@),
            right@ == bytes_of(b@),
            forall|j: int| 0 <= j < k ==> left@[j] == right@[j],
        decreases left.len() - k,
    {
        if left[k] != right[k] {
            return false;
        }
        k = k + 1;
    }
    assert(left@ =~= right@);
    true
}

/// The offsets that split no character are those at which some number of
/// characters ends.
pub proof fn law_boundaries_are_between_characters(text: Seq<char>, offset: int)
    ensures
        on_boundary(text, offset) == exists|k: int|
            0 <= k <= text.len() && offset == bytes_of(#[trigger] text.take(k)).len(),
{
    if on_boundary(text, offset) {
        let k = lemma_boundary_prefix(text, offset);
        assert(0 <= k <= text.len() && offset == bytes_of(text.take(k)).len());
    }
    if exists|k: int| 0 <= k <= text.len() && offset == bytes_of(#[trigger] text.take(k)).len() {
        let k = choose|k: int|
            0 <= k <= text.len() && offset == bytes_of(#[trigger] text.take(k)).len();
        lemma_prefix_boundary(text, k);
    }
}

/// The part of a text between two such offsets has just the bytes between them.
pub proof fn law_parts_have_their_bytes(text: Seq<char>, start: int, end: int)
    requires
        start <= end,
        on_boundary(text, start),
        on_boundary(text, end),
    ensures
        bytes_of(part(text, start, end)) == bytes_of(text).subrange(start, end),
{
    crate::line_index::lemma_part_boundary(text, start, end, 0);
}

} // verus!
