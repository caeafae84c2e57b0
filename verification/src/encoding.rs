//! Negotiation of the LSP `positionEncoding` capability.

use crate::text::{byte_len, char_width, same_text};
use vstd::prelude::*;

verus! {

/// The character-unit convention a client uses for `Position.character`.
///
/// LSP 3.17+ clients advertise the encodings they support via the
/// `general.positionEncodings` client capability and the server picks one in
/// its `InitializeResult`; older clients always mean UTF-16. All conversions
/// in this crate funnel through this enum.
#[derive(Debug, Clone, Copy, PartialEq, Eq, Hash, Structural)]
pub enum PositionEncoding {
    /// `Position.character` counts UTF-8 bytes (code units of UTF-8).
    Utf8,
    /// `Position.character` counts UTF-16 code units — the LSP default and
    /// what most clients (VS Code included) use.
    Utf16,
    /// `Position.character` counts Unicode code points (UTF-32 code units).
    Utf32,
}

impl PositionEncoding {
    /// The name the protocol uses for the encoding.
    pub open spec fn label(self) -> Seq<char> {
        match self {
            PositionEncoding::Utf8 => "utf-8"@,
            PositionEncoding::Utf16 => "utf-16"@,
            PositionEncoding::Utf32 => "utf-32"@,
        }
    }

    /// One of the first `n` names offered is the encoding's.
    pub open spec fn offered_in(self, offered: Seq<String>, n: int) -> bool {
        exists|k: int| 0 <= k < n && (#[trigger] offered[k])@ == self.label()
    }

    /// The best of the encodings named by the first `n` of `offered`.
    pub open spec fn best_of(offered: Seq<String>, n: int) -> Option<Self> {
        if PositionEncoding::Utf8.offered_in(offered, n) {
            Some(PositionEncoding::Utf8)
        } else if PositionEncoding::Utf16.offered_in(offered, n) {
            Some(PositionEncoding::Utf16)
        } else if PositionEncoding::Utf32.offered_in(offered, n) {
            Some(PositionEncoding::Utf32)
        } else {
            None
        }
    }

    /// How many code units `c` takes.
    pub open spec fn units(self, c: char) -> nat {
        match self {
            PositionEncoding::Utf8 => crate::text::width(c),
            PositionEncoding::Utf16 => if c as u32 <= 0xFFFF {
                1
            } else {
                2
            },
            PositionEncoding::Utf32 => 1,
        }
    }

    /// How many code units `text` takes.
    pub open spec fn unit_count(self, text: Seq<char>) -> nat
        decreases text.len(),
    {
        if text.len() == 0 {
            0
        } else {
            self.unit_count(text.drop_last()) + self.units(text.last())
        }
    }

    /// How many characters of `text` it takes to fill `units` code units, or
    /// all of them where they do not.
    pub open spec fn chars_within(self, text: Seq<char>, units: int) -> int
        decreases text.len(),
    {
        if text.len() == 0 || units <= 0 {
            0
        } else {
            1 + self.chars_within(text.drop_first(), units - self.units(text[0]))
        }
    }

    /// The byte offset of the `units`-th code unit boundary within `text`.
    pub open spec fn unit_offset(self, text: Seq<char>, units: int) -> int {
        if self is Utf8 {
            if units < crate::text::bytes_of(text).len() {
                units
            } else {
                crate::text::bytes_of(text).len() as int
            }
        } else {
            crate::text::bytes_of(text.take(self.chars_within(text, units))).len() as int
        }
    }

    /// The name to advertise in `InitializeResult.capabilities.position_encoding`.
    pub fn capability(self) -> (name: &'static str)
        ensures
            name@ == self.label(),
    {
        match self {
            PositionEncoding::Utf8 => "utf-8",
            PositionEncoding::Utf16 => "utf-16",
            PositionEncoding::Utf32 => "utf-32",
        }
    }

    /// Selects an encoding from the names a client advertises, preferring
    /// UTF-8 (cheapest to convert) over UTF-16 over UTF-32.
    ///
    /// Returns `None` — and callers should fall back to
    /// [`PositionEncoding::Utf16`], the LSP default — if the client
    /// advertises none of the supported encodings.
    pub fn negotiate(offered: &[String]) -> (chosen: Option<Self>)
        ensures
            chosen == Self::best_of(offered@, offered@.len() as int),
    {
        let mut utf8 = false;
        let mut utf16 = false;
        let mut utf32 = false;
        let mut k: usize = 0;
        while k < offered.len()
            invariant
                k <= offered@.len(),
                utf8 == PositionEncoding::Utf8.offered_in(offered@, k as int),
                utf16 == PositionEncoding::Utf16.offered_in(offered@, k as int),
                utf32 == PositionEncoding::Utf32.offered_in(offered@, k as int),
            decreases offered.len() - k,
        {
            let name = offered[k].as_str();
            let is_utf8 = same_text(name, "utf-8");
            let is_utf16 = same_text(name, "utf-16");
            let is_utf32 = same_text(name, "utf-32");
            proof {
                lemma_offered_next(PositionEncoding::Utf8, offered@, k as int);
                lemma_offered_next(PositionEncoding::Utf16, offered@, k as int);
                lemma_offered_next(PositionEncoding::Utf32, offered@, k as int);
            }
            utf8 = utf8 || is_utf8;
            utf16 = utf16 || is_utf16;
            utf32 = utf32 || is_utf32;
            k = k + 1;
        }
        if utf8 {
            Some(PositionEncoding::Utf8)
        } else if utf16 {
            Some(PositionEncoding::Utf16)
        } else if utf32 {
            Some(PositionEncoding::Utf32)
        } else {
            None
        }
    }

    /// Number of code units `c` takes.
    fn units_of_char(self, c: char) -> (units: usize)
        ensures
            units == self.units(c),
            1 <= units <= 4,
    {
        match self {
            PositionEncoding::Utf8 => char_width(c),
            PositionEncoding::Utf16 => if c as u32 <= 0xFFFF {
                1
            } else {
                2
            },
            PositionEncoding::Utf32 => 1,
        }
    }

    /// Number of code units `text` occupies in this encoding.
    pub fn units_of(self, text: &str) -> (units: u32)
        requires
            self.unit_count(text@) <= u32::MAX,
        ensures
            units == self.unit_count(text@),
    {
        let mut count: u32 = 0;
        for c in it: text.chars()
            invariant
                it.seq() == text@,
                count == self.unit_count(text@.take(it.index() as int)),
                self.unit_count(text@) <= u32::MAX,
        {
            let ghost k = it.index() as int;
            proof {
                lemma_count_prefix(self, text@, k + 1);
                assert(text@.take(k + 1).drop_last() =~= text@.take(k));
                assert(text@.take(k + 1).last() == c);
            }
            count = count + self.units_of_char(c) as u32;
        }
        assert(text@.take(text@.len() as int) =~= text@);
        count
    }

    /// Byte offset of the `units`-th code unit boundary within `text`.
    ///
    /// For UTF-8 the units are bytes, so the result is simply
    /// `min(units, text.len())`. For UTF-16/UTF-32, positions that land
    /// inside a multi-unit character (e.g. the middle of a surrogate pair)
    /// round up to the next char boundary, and positions past the end of
    /// `text` clamp to `text.len()`.
    pub fn offset_of_units(self, text: &str, units: u32) -> (offset: usize)
        ensures
            offset == self.unit_offset(text@, units as int),
            offset <= crate::text::bytes_of(text@).len(),
            !(self is Utf8) ==> crate::text::on_boundary(text@, offset as int),
    {
        let len: usize = byte_len(text);
        if self == PositionEncoding::Utf8 {
            return if (units as usize) < len {
                units as usize
            } else {
                len
            };
        }
        let mut seen: u64 = 0;
        let mut offset: usize = 0;
        proof {
            assert(text@.take(0) =~= Seq::<char>::empty());
            assert(text@.skip(0) =~= text@);
            assert(crate::text::bytes_of(text@.take(0)).len() == 0);
        }
        for c in it: text.chars()
            invariant
                it.seq() == text@,
                !(self is Utf8),
                len == crate::text::bytes_of(text@).len(),
                self.chars_within(text@, units as int) == it.index() + self.chars_within(
                    text@.skip(it.index() as int),
                    units - seen,
                ),
                seen <= units + 4,
                offset == crate::text::bytes_of(text@.take(it.index() as int)).len(),
                offset <= len,
        {
            let ghost k = it.index() as int;
            if seen >= units as u64 {
                proof {
                    crate::text::lemma_prefix_boundary(text@, k);
                }
                return offset;
            }
            proof {
                assert(text@.skip(k)[0] == c);
                assert(text@.skip(k).drop_first() =~= text@.skip(k + 1));
                assert(text@.take(k + 1) =~= text@.take(k).push(c));
                crate::text::lemma_bytes_push(text@.take(k), c);
                crate::text::lemma_prefix_boundary(text@, k + 1);
            }
            seen = seen + self.units_of_char(c) as u64;
            offset = offset + char_width(c);
        }
        proof {
            assert(text@.skip(text@.len() as int).len() == 0);
            crate::text::lemma_prefix_boundary(text@, text@.len() as int);
        }
        offset
    }
}

/// One more name offered.
proof fn lemma_offered_next(encoding: PositionEncoding, offered: Seq<String>, k: int)
    requires
        0 <= k < offered.len(),
    ensures
        encoding.offered_in(offered, k + 1) == (encoding.offered_in(offered, k)
            || offered[k]@ == encoding.label()),
{
    if encoding.offered_in(offered, k) {
        let j = choose|j: int| 0 <= j < k && (#[trigger] offered[j])@ == encoding.label();
        assert(0 <= j < k + 1);
    }
    if encoding.offered_in(offered, k + 1) {
        let j = choose|j: int| 0 <= j < k + 1 && (#[trigger] offered[j])@ == encoding.label();
        assert(j == k || 0 <= j < k);
    }
}

/// A prefix takes no more code units than the whole.
pub proof fn lemma_count_prefix(encoding: PositionEncoding, text: Seq<char>, k: int)
    requires
        0 <= k <= text.len(),
    ensures
        encoding.unit_count(text.take(k)) <= encoding.unit_count(text),
    decreases text.len(),
{
    if k == text.len() {
        assert(text.take(k) =~= text);
    } else {
        lemma_count_prefix(encoding, text.drop_last(), k);
        assert(text.drop_last().take(k) =~= text.take(k));
    }
}

/// No more characters are counted than there are.
pub proof fn lemma_chars_within_bound(encoding: PositionEncoding, text: Seq<char>, units: int)
    ensures
        0 <= encoding.chars_within(text, units) <= text.len(),
    decreases text.len(),
{
    if text.len() > 0 && units > 0 {
        lemma_chars_within_bound(
            encoding,
            text.drop_first(),
            units - encoding.units(text[0]),
        );
    }
}

/// The code units of two texts in a row.
pub proof fn lemma_count_join(encoding: PositionEncoding, a: Seq<char>, b: Seq<char>)
    ensures
        encoding.unit_count(a + b) == encoding.unit_count(a) + encoding.unit_count(b),
    decreases b.len(),
{
    if b.len() == 0 {
        assert(a + b =~= a);
    } else {
        lemma_count_join(encoding, a, b.drop_last());
        assert((a + b).drop_last() =~= a + b.drop_last());
        assert((a + b).last() == b.last());
    }
}

/// In UTF-8 the code units are the bytes.
pub proof fn law_utf8_units_are_bytes(text: Seq<char>)
    ensures
        PositionEncoding::Utf8.unit_count(text) == crate::text::bytes_of(text).len(),
    decreases text.len(),
{
    if text.len() > 0 {
        law_utf8_units_are_bytes(text.drop_last());
        crate::text::lemma_bytes_push(text.drop_last(), text.last());
        assert(text.drop_last().push(text.last()) =~= text);
    }
}

/// Filling the code units that the first `k` characters take needs those
/// characters and no more.
proof fn lemma_chars_within_prefix(encoding: PositionEncoding, text: Seq<char>, k: int)
    requires
        0 <= k <= text.len(),
    ensures
        encoding.chars_within(text, encoding.unit_count(text.take(k)) as int) == k,
    decreases k,
{
    if k == 0 {
        assert(text.take(0) =~= Seq::<char>::empty());
    } else {
        let rest = text.drop_first();
        let head = seq![text[0]];
        lemma_chars_within_prefix(encoding, rest, k - 1);
        assert(text.take(k) =~= head + rest.take(k - 1));
        lemma_count_join(encoding, head, rest.take(k - 1));
        assert(head.drop_last() =~= Seq::<char>::empty());
        assert(encoding.unit_count(head.drop_last()) == 0);
        assert(encoding.unit_count(head) == encoding.units(text[0]));
        assert(encoding.units(text[0]) >= 1);
    }
}

/// Counting code units and finding the offset of a code unit undo each other
/// at every character boundary, in every encoding.
pub proof fn law_units_and_offsets_agree(encoding: PositionEncoding, text: Seq<char>, k: int)
    requires
        0 <= k <= text.len(),
    ensures
        encoding.unit_offset(text, encoding.unit_count(text.take(k)) as int)
            == crate::text::bytes_of(text.take(k)).len(),
{
    if encoding is Utf8 {
        law_utf8_units_are_bytes(text.take(k));
        crate::text::lemma_prefix_boundary(text, k);
    } else {
        lemma_chars_within_prefix(encoding, text, k);
    }
}

/// The UTF-16 code units of `c`: itself, or a pair of surrogates.
pub open spec fn utf16_of(c: char) -> Seq<u16> {
    let code = c as int;
    if code < 0x10000 {
        seq![code as u16]
    } else {
        seq![
            (0xD800 + (code - 0x10000) / 0x400) as u16,
            (0xDC00 + (code - 0x10000) % 0x400) as u16,
        ]
    }
}

/// UTF-16 positions count the code units from which the character can be read
/// back: one that is the character, or two surrogates that each hold ten bits
/// of it.
pub proof fn law_utf16_counts_code_units(c: char)
    ensures
        PositionEncoding::Utf16.unit_count(seq![c]) == utf16_of(c).len(),
        utf16_of(c).len() == 1 || utf16_of(c).len() == 2,
        utf16_of(c).len() == 1 ==> utf16_of(c)[0] == c as int && !(0xD800 <= utf16_of(c)[0]
            < 0xE000),
        utf16_of(c).len() == 2 ==> 0xD800 <= utf16_of(c)[0] < 0xDC00 && 0xDC00 <= utf16_of(c)[1]
            < 0xE000 && c as int == 0x10000 + (utf16_of(c)[0] - 0xD800) * 0x400 + (utf16_of(c)[1]
            - 0xDC00),
{
    assert(seq![c].drop_last() =~= Seq::<char>::empty());
    assert(PositionEncoding::Utf16.unit_count(seq![c].drop_last()) == 0);
}

/// In UTF-16 a text takes one code unit for each of its characters, and one
/// more for each that lies beyond the basic multilingual plane.
pub proof fn law_utf16_units_of_text(text: Seq<char>)
    ensures
        PositionEncoding::Utf16.unit_count(text) == text.len() + text.filter(
            |c: char| c as u32 > 0xFFFF,
        ).len(),
    decreases text.len(),
{
    reveal(Seq::filter);
    if text.len() > 0 {
        law_utf16_units_of_text(text.drop_last());
    }
}

/// In UTF-32 a text takes one code unit for each of its characters.
pub proof fn law_utf32_units_of_text(text: Seq<char>)
    ensures
        PositionEncoding::Utf32.unit_count(text) == text.len(),
    decreases text.len(),
{
    if text.len() > 0 {
        law_utf32_units_of_text(text.drop_last());
    }
}

/// The code units of a text are those of its first character and of the rest.
proof fn lemma_count_first(encoding: PositionEncoding, text: Seq<char>)
    requires
        text.len() > 0,
    ensures
        encoding.unit_count(text) == encoding.units(text[0]) + encoding.unit_count(
            text.drop_first(),
        ),
        encoding.units(text[0]) >= 1,
{
    let head = seq![text[0]];
    assert(text =~= head + text.drop_first());
    lemma_count_join(encoding, head, text.drop_first());
    assert(head.drop_last() =~= Seq::<char>::empty());
    assert(encoding.unit_count(head.drop_last()) == 0);
}

/// A number of code units that ends within or with character `k` needs the
/// characters up to it, and it.
proof fn lemma_chars_within_next(encoding: PositionEncoding, text: Seq<char>, k: int, units: int)
    requires
        0 <= k < text.len(),
        encoding.unit_count(text.take(k)) < units <= encoding.unit_count(text.take(k + 1)),
    ensures
        encoding.chars_within(text, units) == k + 1,
    decreases k,
{
    let rest = text.drop_first();
    assert(text.take(k + 1).drop_first() =~= rest.take(k));
    assert(text.take(k + 1)[0] == text[0]);
    lemma_count_first(encoding, text.take(k + 1));
    if k == 0 {
        assert(text.take(0) =~= Seq::<char>::empty());
        assert(rest.take(0) =~= Seq::<char>::empty());
        assert(encoding.chars_within(rest, units - encoding.units(text[0])) == 0);
    } else {
        assert(text.take(k).drop_first() =~= rest.take(k - 1));
        assert(text.take(k)[0] == text[0]);
        lemma_count_first(encoding, text.take(k));
        lemma_chars_within_next(encoding, rest, k - 1, units - encoding.units(text[0]));
    }
}

/// More code units than the text takes need all of its characters.
proof fn lemma_chars_within_all(encoding: PositionEncoding, text: Seq<char>, units: int)
    requires
        units >= encoding.unit_count(text),
    ensures
        encoding.chars_within(text, units) == text.len(),
    decreases text.len(),
{
    if text.len() > 0 {
        lemma_count_first(encoding, text);
        lemma_chars_within_all(encoding, text.drop_first(), units - encoding.units(text[0]));
    }
}

/// A code unit inside a character counts as its end, so that no character is
/// split; in UTF-8, where code units are bytes, it is taken as it is.
pub proof fn law_units_round_up(encoding: PositionEncoding, text: Seq<char>, k: int, units: int)
    requires
        0 <= k < text.len(),
        encoding.unit_count(text.take(k)) < units <= encoding.unit_count(text.take(k + 1)),
    ensures
        encoding is Utf8 ==> encoding.unit_offset(text, units) == units,
        !(encoding is Utf8) ==> encoding.unit_offset(text, units) == crate::text::bytes_of(
            text.take(k + 1),
        ).len(),
{
    if encoding is Utf8 {
        law_utf8_units_are_bytes(text.take(k + 1));
        crate::text::lemma_prefix_boundary(text, k + 1);
    } else {
        lemma_chars_within_next(encoding, text, k, units);
    }
}

/// Code units past the end of a text mean its end.
pub proof fn law_units_past_the_end(encoding: PositionEncoding, text: Seq<char>, units: int)
    requires
        units >= encoding.unit_count(text),
    ensures
        encoding.unit_offset(text, units) == crate::text::bytes_of(text).len(),
{
    if encoding is Utf8 {
        law_utf8_units_are_bytes(text);
    } else {
        lemma_chars_within_all(encoding, text, units);
        assert(text.take(text.len() as int) =~= text);
    }
}

/// `name` is among the names `offered`.
pub open spec fn named(offered: Seq<String>, name: Seq<char>) -> bool {
    exists|k: int| 0 <= k < offered.len() && (#[trigger] offered[k])@ == name
}

/// UTF-8 is chosen wherever it is offered, UTF-16 where UTF-8 is not, UTF-32
/// where it is all there is, and nothing where none of them is offered. The
/// name advertised is one of those offered.
pub proof fn law_best_offered_encoding(offered: Seq<String>)
    ensures
        ({
            let chosen = PositionEncoding::best_of(offered, offered.len() as int);
            &&& named(offered, "utf-8"@) <==> chosen == Some(PositionEncoding::Utf8)
            &&& !named(offered, "utf-8"@) && named(offered, "utf-16"@) <==> chosen == Some(
                PositionEncoding::Utf16,
            )
            &&& !named(offered, "utf-8"@) && !named(offered, "utf-16"@) && named(
                offered,
                "utf-32"@,
            ) <==> chosen == Some(PositionEncoding::Utf32)
            &&& chosen matches Some(encoding) ==> named(offered, encoding.label())
        }),
{
    let n = offered.len() as int;
    assert(PositionEncoding::Utf8.offered_in(offered, n) == named(offered, "utf-8"@));
    assert(PositionEncoding::Utf16.offered_in(offered, n) == named(offered, "utf-16"@));
    assert(PositionEncoding::Utf32.offered_in(offered, n) == named(offered, "utf-32"@));
}

} // verus!
