//! Mapping between LSP `(line, character)` positions and byte offsets.

use crate::encoding::PositionEncoding;
use crate::lsp::Position;
use crate::text::slice;
use vstd::prelude::*;

verus! {

/// Where lines start within the first `n` of `bytes`: at 0 and after every
/// newline.
pub open spec fn starts_within(bytes: Seq<u8>, n: int) -> Seq<int>
    decreases n,
{
    if n <= 0 {
        seq![0int]
    } else if bytes[n - 1] == 10 {
        starts_within(bytes, n - 1).push(n)
    } else {
        starts_within(bytes, n - 1)
    }
}

/// Where the lines of `bytes` start.
pub open spec fn starts(bytes: Seq<u8>) -> Seq<int> {
    starts_within(bytes, bytes.len() as int)
}

/// Where line `line` of `bytes` ends, its newline not counted.
pub open spec fn stop(bytes: Seq<u8>, line: int) -> int {
    if line + 1 < starts(bytes).len() {
        starts(bytes)[line + 1] - 1
    } else {
        bytes.len() as int
    }
}

/// The line that `offset` lies in: as many as there are newlines before it.
pub open spec fn line_at(bytes: Seq<u8>, offset: int) -> int {
    starts_within(bytes, offset).len() - 1
}

/// The last offset up to `offset` that splits no character.
pub open spec fn floor(text: Seq<char>, offset: int) -> int
    decreases offset,
{
    if offset <= 0 || crate::text::on_boundary(text, offset) {
        offset
    } else {
        floor(text, offset - 1)
    }
}

/// The byte offset that `position` stands for: lines past the last one mean
/// the last one, columns past the end of the line mean its end.
pub open spec fn offset_at(text: Seq<char>, position: Position, encoding: PositionEncoding) -> int {
    let bytes = crate::text::bytes_of(text);
    let line = if position.line < starts(bytes).len() {
        position.line as int
    } else {
        starts(bytes).len() - 1
    };
    let start = starts(bytes)[line];
    start + encoding.unit_offset(
        crate::text::part(text, start, stop(bytes, line)),
        position.character as int,
    )
}

/// `offset`, or the length of the text where it is larger.
pub open spec fn clamped(text: Seq<char>, offset: int) -> int {
    if offset < crate::text::bytes_of(text).len() {
        offset
    } else {
        crate::text::bytes_of(text).len() as int
    }
}

/// The position of the byte `offset`: offsets past the end mean the end,
/// offsets inside a character mean its start.
pub open spec fn position_at(text: Seq<char>, offset: int, encoding: PositionEncoding) -> Position {
    let bytes = crate::text::bytes_of(text);
    let at = clamped(text, offset);
    let line = line_at(bytes, at);
    Position {
        line: line as u32,
        character: encoding.unit_count(
            crate::text::part(text, starts(bytes)[line], floor(text, at)),
        ) as u32,
    }
}

/// A line-start table over one text snapshot.
///
/// Rebuild one per text revision ([`Document`](crate::Document) does this
/// automatically); conversions are then O(log lines) plus O(line length) for
/// the column walk.
#[derive(Debug, Clone, PartialEq, Eq)]
pub struct LineIndex {
    line_starts: Vec<usize>,
    len: usize,
}

impl LineIndex {
    /// The table holds the line starts of `text`.
    pub closed spec fn describes(&self, text: Seq<char>) -> bool {
        let bytes = crate::text::bytes_of(text);
        &&& self.len == bytes.len()
        &&& self.line_starts@.len() == starts(bytes).len()
        &&& forall|k: int|
            0 <= k < starts(bytes).len() ==> #[trigger] self.line_starts@[k] == starts(bytes)[k]
    }

    /// How many lines the table holds.
    pub closed spec fn lines(&self) -> nat {
        self.line_starts@.len()
    }

    /// Where line `line` starts.
    pub closed spec fn start_of(&self, line: int) -> usize {
        self.line_starts@[line]
    }

    /// Builds the index for `text`.
    pub fn new(text: &str) -> (index: Self)
        ensures
            index.describes(text@),
            index.lines() == starts(crate::text::bytes_of(text@)).len(),
            forall|line: int|
                0 <= line < index.lines() ==> #[trigger] index.start_of(line) == starts(
                    crate::text::bytes_of(text@),
                )[line],
    {
        let bytes = text.as_bytes();
        let mut line_starts: Vec<usize> = Vec::new();
        line_starts.push(0);
        let mut i: usize = 0;
        while i < bytes.len()
            invariant
                i <= bytes@.len(),
                bytes@ == crate::text::bytes_of(text@),
                line_starts@.len() == starts_within(bytes@, i as int).len(),
                forall|k: int|
                    0 <= k < line_starts@.len() ==> #[trigger] line_starts@[k] == starts_within(
                        bytes@,
                        i as int,
                    )[k],
            decreases bytes.len() - i,
        {
            if bytes[i] == 10 {
                line_starts.push(i + 1);
            }
            i = i + 1;
        }
        LineIndex { line_starts, len: bytes.len() }
    }

    /// Number of lines (a trailing newline starts a final empty line).
    pub fn line_count(&self) -> (count: usize)
        ensures
            count == self.lines(),
    {
        self.line_starts.len()
    }

    /// Byte offset where `line` begins.
    pub fn line_start(&self, line: u32) -> (start: Option<usize>)
        ensures
            start == (if line < self.lines() {
                Some(self.start_of(line as int))
            } else {
                None
            }),
    {
        if (line as usize) < self.line_starts.len() {
            Some(self.line_starts[line as usize])
        } else {
            None
        }
    }

    /// Byte offset just past the last byte of `line`, excluding the line
    /// terminator.
    pub fn line_end(&self, text: &str, line: u32) -> (end: Option<usize>)
        requires
            self.describes(text@),
        ensures
            match end {
                Some(end) => line < starts(crate::text::bytes_of(text@)).len() && end == stop(
                    crate::text::bytes_of(text@),
                    line as int,
                ),
                None => line >= starts(crate::text::bytes_of(text@)).len(),
            },
    {
        proof {
            lemma_starts(crate::text::bytes_of(text@), crate::text::bytes_of(text@).len() as int);
        }
        let k: usize = line as usize;
        if k >= self.line_starts.len() {
            None
        } else if k + 1 < self.line_starts.len() {
            assert(self.line_starts@[k + 1] == starts(crate::text::bytes_of(text@))[k + 1]);
            Some(self.line_starts[k + 1] - 1)
        } else {
            Some(self.len)
        }
    }

    /// Converts a `Position` to a byte offset.
    ///
    /// Out-of-range lines clamp to the last line; overshooting columns clamp
    /// to the end of the line (LSP clients legitimately send both while
    /// typing). A result is always found.
    pub fn offset(&self, text: &str, position: Position, encoding: PositionEncoding) -> (offset:
        Option<usize>)
        requires
            self.describes(text@),
            starts(crate::text::bytes_of(text@)).len() <= u32::MAX,
        ensures
            offset is Some,
            offset->0 == offset_at(text@, position, encoding),
            offset->0 <= crate::text::bytes_of(text@).len(),
            !(encoding is Utf8) ==> crate::text::on_boundary(text@, offset->0 as int),
    {
        let ghost bytes = crate::text::bytes_of(text@);
        proof {
            lemma_starts(bytes, bytes.len() as int);
        }
        let last: u32 = (self.line_starts.len() - 1) as u32;
        let line: u32 = if position.line < last {
            position.line
        } else {
            last
        };
        proof {
            lemma_line_bounds(text@, line as int);
        }
        let start: usize = self.line_starts[line as usize];
        match self.line_end(text, line) {
            Some(end) => {
                let line_text = slice(text, start, end);
                let column: usize = encoding.offset_of_units(line_text, position.character);
                proof {
                    lemma_part_boundary(text@, start as int, end as int, column as int);
                }
                Some(start + column)
            },
            None => None,
        }
    }

    /// Converts a byte offset to a `Position`.
    ///
    /// Out-of-bounds offsets clamp to the text length; offsets inside a
    /// multibyte character round down to the char boundary before them.
    pub fn position(&self, text: &str, offset: usize, encoding: PositionEncoding) -> (position:
        Position)
        requires
            self.describes(text@),
            crate::text::bytes_of(text@).len() < u32::MAX,
        ensures
            position == position_at(text@, offset as int, encoding),
    {
        let ghost bytes = crate::text::bytes_of(text@);
        let at: usize = if offset < self.len {
            offset
        } else {
            self.len
        };
        proof {
            lemma_starts(bytes, bytes.len() as int);
            lemma_starts(bytes, at as int);
            lemma_starts_grow(bytes, at as int, bytes.len() as int);
        }
        let mut low: usize = 0;
        let mut high: usize = self.line_starts.len();
        while low < high
            invariant
                low <= high <= self.line_starts@.len(),
                self.describes(text@),
                bytes == crate::text::bytes_of(text@),
                at <= bytes.len(),
                low <= line_at(bytes, at as int) + 1 <= high,
                line_at(bytes, at as int) + 1 <= starts(bytes).len(),
                forall|k: int|
                    0 <= k <= line_at(bytes, at as int) ==> #[trigger] starts(bytes)[k] <= at,
                forall|k: int|
                    line_at(bytes, at as int) < k < starts(bytes).len()
                        ==> #[trigger] starts(bytes)[k] > at,
            decreases high - low,
        {
            let mid: usize = low + (high - low) / 2;
            assert(self.line_starts@[mid as int] == starts(bytes)[mid as int]);
            if self.line_starts[mid] <= at {
                low = mid + 1;
            } else {
                high = mid;
            }
        }
        let line: usize = low - 1;
        assert(line == line_at(bytes, at as int));
        proof {
            lemma_line_bounds(text@, line as int);
        }
        let start: usize = self.line_starts[line];
        let mut end: usize = at;
        while end > start && !text.is_char_boundary(end)
            invariant
                start <= end <= at,
                at <= bytes.len(),
                bytes == crate::text::bytes_of(text@),
                crate::text::on_boundary(text@, start as int),
                floor(text@, at as int) == floor(text@, end as int),
            decreases end,
        {
            end = end - 1;
        }
        assert(crate::text::on_boundary(text@, end as int));
        let line_text = slice(text, start, end);
        proof {
            lemma_units_fit(encoding, line_text@);
        }
        Position { line: line as u32, character: encoding.units_of(line_text) }
    }
}

/// What the line starts within a prefix look like.
pub proof fn lemma_starts(bytes: Seq<u8>, n: int)
    requires
        0 <= n <= bytes.len(),
    ensures
        1 <= starts_within(bytes, n).len() <= n + 1,
        starts_within(bytes, n)[0] == 0,
        forall|k: int|
            0 <= k < starts_within(bytes, n).len() ==> 0 <= #[trigger] starts_within(bytes, n)[k] <= n,
        forall|j: int, k: int|
            0 <= j < k < starts_within(bytes, n).len() ==> #[trigger] starts_within(bytes, n)[j]
                < #[trigger] starts_within(bytes, n)[k],
        forall|k: int|
            0 < k < starts_within(bytes, n).len() ==> bytes[#[trigger] starts_within(bytes, n)[k]
                - 1] == 10,
    decreases n,
{
    if n > 0 {
        lemma_starts(bytes, n - 1);
    }
}

/// The line starts within a prefix are the first line starts of a longer
/// prefix, and the others lie behind the shorter one.
pub proof fn lemma_starts_grow(bytes: Seq<u8>, m: int, n: int)
    requires
        0 <= m <= n <= bytes.len(),
    ensures
        starts_within(bytes, m).len() <= starts_within(bytes, n).len(),
        forall|k: int|
            0 <= k < starts_within(bytes, m).len() ==> #[trigger] starts_within(bytes, n)[k]
                == starts_within(bytes, m)[k],
        forall|k: int|
            starts_within(bytes, m).len() <= k < starts_within(bytes, n).len()
                ==> #[trigger] starts_within(bytes, n)[k] > m,
        forall|k: int|
            0 <= k < starts_within(bytes, m).len() ==> #[trigger] starts_within(bytes, n)[k] <= m,
    decreases n,
{
    lemma_starts(bytes, m);
    if m < n {
        lemma_starts_grow(bytes, m, n - 1);
    }
}

/// A newline is a character of its own: it starts and ends at a boundary.
proof fn lemma_newline_boundary(text: Seq<char>, i: int)
    requires
        0 <= i < crate::text::bytes_of(text).len(),
        crate::text::bytes_of(text)[i] == 10,
    ensures
        crate::text::on_boundary(text, i),
        crate::text::on_boundary(text, i + 1),
{
    let bytes = crate::text::bytes_of(text);
    vstd::utf8::encode_utf8_valid_utf8(text);
    vstd::utf8::is_char_boundary_iff_not_is_continuation_byte(bytes, i);
    let k = crate::text::lemma_boundary_prefix(text, i);
    let rest = text.skip(k);
    if k == text.len() {
        assert(text.take(k) =~= text);
    }
    let c = rest[0] as u32;
    let coded = vstd::utf8::encode_scalar(c);
    assert(crate::text::bytes_of(rest)[0] == bytes[i]);
    assert(coded[0] == 10);
    assert(crate::text::width(rest[0]) == 1) by {
        let a = ((c >> 6) & 0x1F) as u8;
        let b = ((c >> 12) & 0x0F) as u8;
        let d = ((c >> 18) & 0x7) as u8;
        assert((0xC0u8 | a) != 10u8) by (bit_vector);
        assert((0xE0u8 | b) != 10u8) by (bit_vector);
        assert((0xF0u8 | d) != 10u8) by (bit_vector);
    }
    crate::text::lemma_prefix_boundary(text, k + 1);
    assert(text.take(k + 1) =~= text.take(k).push(text[k]));
    crate::text::lemma_bytes_push(text.take(k), text[k]);
}

/// Lines start and end at boundaries, in order.
pub proof fn lemma_line_bounds(text: Seq<char>, line: int)
    requires
        0 <= line < starts(crate::text::bytes_of(text)).len(),
    ensures
        0 <= starts(crate::text::bytes_of(text))[line] <= stop(crate::text::bytes_of(text), line)
            <= crate::text::bytes_of(text).len(),
        crate::text::on_boundary(text, starts(crate::text::bytes_of(text))[line]),
        crate::text::on_boundary(text, stop(crate::text::bytes_of(text), line)),
{
    let bytes = crate::text::bytes_of(text);
    lemma_starts(bytes, bytes.len() as int);
    vstd::utf8::encode_utf8_valid_utf8(text);
    vstd::utf8::is_char_boundary_start_end_of_seq(bytes);
    if line > 0 {
        assert(bytes[starts(bytes)[line] - 1] == 10);
        lemma_newline_boundary(text, starts(bytes)[line] - 1);
    }
    if line + 1 < starts(bytes).len() {
        assert(starts(bytes)[line] < starts(bytes)[line + 1]);
        assert(bytes[starts(bytes)[line + 1] - 1] == 10);
        lemma_newline_boundary(text, starts(bytes)[line + 1] - 1);
    }
}

/// A boundary of a part of a text is a boundary of the text.
pub proof fn lemma_part_boundary(text: Seq<char>, start: int, end: int, column: int)
    requires
        0 <= start <= end,
        crate::text::on_boundary(text, start),
        crate::text::on_boundary(text, end),
    ensures
        crate::text::bytes_of(crate::text::part(text, start, end)) == crate::text::bytes_of(
            text,
        ).subrange(start, end),
        crate::text::bytes_of(crate::text::part(text, start, end)).len() == end - start,
        crate::text::on_boundary(crate::text::part(text, start, end), column)
            ==> crate::text::on_boundary(text, start + column),
        0 <= column <= end - start && crate::text::on_boundary(text, start + column)
            ==> crate::text::on_boundary(crate::text::part(text, start, end), column),
{
    let bytes = crate::text::bytes_of(text);
    let part = crate::text::part(text, start, end);
    vstd::utf8::encode_utf8_valid_utf8(text);
    crate::text::lemma_boundary_in_prefix(bytes, start, end);
    let head = bytes.subrange(0, end);
    vstd::utf8::valid_utf8_split(head, start);
    let inner = bytes.subrange(start, end);
    assert(head.subrange(start, head.len() as int) =~= inner);
    vstd::utf8::decode_utf8_encode_utf8(inner);
    assert(crate::text::bytes_of(part) == inner);
    if 0 <= column < end - start {
        assert(inner[column] == bytes[start + column]);
        vstd::utf8::is_char_boundary_iff_not_is_continuation_byte(bytes, start + column);
        vstd::utf8::is_char_boundary_iff_not_is_continuation_byte(inner, column);
    }
    if column == end - start {
        vstd::utf8::is_char_boundary_start_end_of_seq(inner);
    }
}

/// A text has no more code units than bytes.
pub proof fn lemma_units_fit(encoding: PositionEncoding, text: Seq<char>)
    ensures
        encoding.unit_count(text) <= crate::text::bytes_of(text).len(),
    decreases text.len(),
{
    if text.len() > 0 {
        lemma_units_fit(encoding, text.drop_last());
        crate::text::lemma_bytes_push(text.drop_last(), text.last());
        assert(text.drop_last().push(text.last()) =~= text);
    }
}

/// Converting an offset to a position and back gives the offset, wherever it
/// splits no character.
pub proof fn law_offset_round_trip(text: Seq<char>, offset: int, encoding: PositionEncoding)
    requires
        crate::text::on_boundary(text, offset),
        crate::text::bytes_of(text).len() < u32::MAX,
    ensures
        offset_at(text, position_at(text, offset, encoding), encoding) == offset,
{
    let bytes = crate::text::bytes_of(text);
    let line = line_at(bytes, offset);
    lemma_starts(bytes, bytes.len() as int);
    lemma_starts(bytes, offset);
    lemma_starts_grow(bytes, offset, bytes.len() as int);
    lemma_line_bounds(text, line);
    let start = starts(bytes)[line];
    let end = stop(bytes, line);
    assert(start <= offset <= end) by {
        assert(starts(bytes)[line] <= offset);
        if line + 1 < starts(bytes).len() {
            assert(starts(bytes)[line + 1] > offset);
        }
    }
    assert(floor(text, offset) == offset);
    let line_text = crate::text::part(text, start, end);
    let before = crate::text::part(text, start, offset);
    lemma_part_boundary(text, start, end, offset - start);
    lemma_part_boundary(text, start, offset, 0);
    lemma_units_fit(encoding, before);
    let k = crate::text::lemma_boundary_prefix(line_text, offset - start);
    assert(bytes.subrange(start, end).take(offset - start) =~= bytes.subrange(start, offset));
    vstd::utf8::encode_utf8_decode_utf8(line_text.take(k));
    assert(line_text.take(k) == before);
    crate::encoding::law_units_and_offsets_agree(encoding, line_text, k);
}

/// A position in UTF-16 or UTF-32 stands for an offset that splits no
/// character.
pub proof fn law_wide_offset_is_boundary(
    text: Seq<char>,
    position: Position,
    encoding: PositionEncoding,
)
    requires
        !(encoding is Utf8),
    ensures
        crate::text::on_boundary(text, offset_at(text, position, encoding)),
{
    let bytes = crate::text::bytes_of(text);
    lemma_starts(bytes, bytes.len() as int);
    let line = if position.line < starts(bytes).len() {
        position.line as int
    } else {
        starts(bytes).len() - 1
    };
    lemma_line_bounds(text, line);
    let start = starts(bytes)[line];
    let end = stop(bytes, line);
    let line_text = crate::text::part(text, start, end);
    let k = encoding.chars_within(line_text, position.character as int);
    crate::encoding::lemma_chars_within_bound(encoding, line_text, position.character as int);
    crate::text::lemma_prefix_boundary(line_text, k);
    lemma_part_boundary(text, start, end, crate::text::bytes_of(line_text.take(k)).len() as int);
}

/// Positions are in the order of the offsets they stand for, line by line: a
/// later offset is on the same line or a later one.
pub proof fn law_lines_follow_offsets(text: Seq<char>, a: int, b: int, encoding: PositionEncoding)
    requires
        0 <= a <= b,
        crate::text::bytes_of(text).len() < u32::MAX,
    ensures
        position_at(text, a, encoding).line <= position_at(text, b, encoding).line,
{
    let bytes = crate::text::bytes_of(text);
    let x = clamped(text, a);
    let y = clamped(text, b);
    lemma_starts(bytes, x);
    lemma_starts(bytes, y);
    lemma_starts_grow(bytes, x, y);
}

/// Positions keep the order of the offsets they stand for: of two offsets that
/// split no character the later one is on a later line, or further along the
/// same one.
pub proof fn law_positions_follow_offsets(
    text: Seq<char>,
    a: int,
    b: int,
    encoding: PositionEncoding,
)
    requires
        a < b,
        crate::text::on_boundary(text, a),
        crate::text::on_boundary(text, b),
        crate::text::bytes_of(text).len() < u32::MAX,
    ensures
        position_at(text, a, encoding).line < position_at(text, b, encoding).line || (position_at(
            text,
            a,
            encoding,
        ).line == position_at(text, b, encoding).line && position_at(text, a, encoding).character
            < position_at(text, b, encoding).character),
{
    let bytes = crate::text::bytes_of(text);
    lemma_starts(bytes, a);
    lemma_starts(bytes, b);
    lemma_starts_grow(bytes, a, b);
    if line_at(bytes, a) == line_at(bytes, b) {
        let line = line_at(bytes, a);
        lemma_starts_grow(bytes, a, bytes.len() as int);
        lemma_line_bounds(text, line);
        let start = starts(bytes)[line];
        let before = crate::text::part(text, start, a);
        let between = crate::text::part(text, a, b);
        let whole = crate::text::part(text, start, b);
        lemma_part_boundary(text, start, a, 0);
        lemma_part_boundary(text, a, b, 0);
        lemma_part_boundary(text, start, b, 0);
        crate::text::lemma_bytes_join(before, between);
        assert(bytes.subrange(start, a) + bytes.subrange(a, b) =~= bytes.subrange(start, b));
        vstd::utf8::encode_utf8_decode_utf8(before + between);
        assert(before + between == whole);
        crate::encoding::lemma_count_join(encoding, before, between);
        assert(between.len() > 0);
        lemma_units_fit(encoding, whole);
    }
}

/// A line starts after every newline, and at the start of the text.
proof fn lemma_starts_count(bytes: Seq<u8>, n: int)
    requires
        0 <= n <= bytes.len(),
    ensures
        starts_within(bytes, n).len() == 1 + bytes.take(n).filter(|b: u8| b == 10).len(),
    decreases n,
{
    reveal(Seq::filter);
    if n > 0 {
        lemma_starts_count(bytes, n - 1);
        assert(bytes.take(n).drop_last() =~= bytes.take(n - 1));
        assert(bytes.take(n).last() == bytes[n - 1]);
    } else {
        assert(bytes.take(0).len() == 0);
    }
}

/// The line of an offset is the number of newlines before it.
pub proof fn law_line_counts_newlines(text: Seq<char>, offset: int, encoding: PositionEncoding)
    requires
        0 <= offset <= crate::text::bytes_of(text).len(),
        crate::text::bytes_of(text).len() < u32::MAX,
    ensures
        position_at(text, offset, encoding).line == crate::text::bytes_of(text).take(
            offset,
        ).filter(|b: u8| b == 10).len(),
{
    let bytes = crate::text::bytes_of(text);
    lemma_starts(bytes, offset);
    lemma_starts_count(bytes, offset);
}

/// Where a prefix without newlines after `start` has its last line start.
proof fn lemma_line_start(bytes: Seq<u8>, start: int, offset: int)
    requires
        0 <= start <= offset <= bytes.len(),
        start == 0 || bytes[start - 1] == 10,
        forall|k: int| start <= k < offset ==> #[trigger] bytes[k] != 10,
    ensures
        starts_within(bytes, offset).last() == start,
    decreases offset,
{
    lemma_starts(bytes, offset);
    if offset > start {
        lemma_line_start(bytes, start, offset - 1);
    }
}

/// The column of an offset counts the code units from the start of its line,
/// which is the start of the text or lies behind the last newline before it: in
/// UTF-8 the bytes, in UTF-32 the characters, and in UTF-16 the characters,
/// those beyond the basic multilingual plane twice.
pub proof fn law_column_counts_from_line_start(
    text: Seq<char>,
    start: int,
    offset: int,
    encoding: PositionEncoding,
)
    requires
        crate::text::bytes_of(text).len() < u32::MAX,
        start <= offset,
        crate::text::on_boundary(text, start),
        crate::text::on_boundary(text, offset),
        start == 0 || crate::text::bytes_of(text)[start - 1] == 10,
        forall|k: int| start <= k < offset ==> #[trigger] crate::text::bytes_of(text)[k] != 10,
    ensures
        match encoding {
            PositionEncoding::Utf8 => position_at(text, offset, encoding).character == offset
                - start,
            PositionEncoding::Utf16 => position_at(text, offset, encoding).character
                == crate::text::part(text, start, offset).len() + crate::text::part(
                text,
                start,
                offset,
            ).filter(|c: char| c as u32 > 0xFFFF).len(),
            PositionEncoding::Utf32 => position_at(text, offset, encoding).character
                == crate::text::part(text, start, offset).len(),
        },
        crate::text::bytes_of(crate::text::part(text, start, offset)) == crate::text::bytes_of(
            text,
        ).subrange(start, offset),
{
    let bytes = crate::text::bytes_of(text);
    let before = crate::text::part(text, start, offset);
    lemma_starts(bytes, offset);
    lemma_line_start(bytes, start, offset);
    lemma_starts_grow(bytes, offset, bytes.len() as int);
    let line = line_at(bytes, offset);
    assert(starts(bytes)[line] == start);
    lemma_part_boundary(text, start, offset, 0);
    lemma_units_fit(encoding, before);
    crate::encoding::law_utf8_units_are_bytes(before);
    crate::encoding::law_utf16_units_of_text(before);
    crate::encoding::law_utf32_units_of_text(before);
}

/// The last boundary up to an offset, stepping back over what lies between.
proof fn lemma_floor(text: Seq<char>, offset: int, boundary: int)
    requires
        0 <= boundary <= offset,
        crate::text::on_boundary(text, boundary),
        forall|k: int| boundary < k <= offset ==> !#[trigger] crate::text::on_boundary(text, k),
    ensures
        floor(text, offset) == boundary,
    decreases offset,
{
    if offset > boundary {
        lemma_floor(text, offset - 1, boundary);
    }
}

/// No character but the newline itself has a newline in it.
proof fn lemma_no_newline_inside(text: Seq<char>, offset: int, boundary: int)
    requires
        0 <= boundary <= offset <= crate::text::bytes_of(text).len(),
        forall|k: int| boundary < k <= offset ==> !#[trigger] crate::text::on_boundary(text, k),
    ensures
        starts_within(crate::text::bytes_of(text), offset) == starts_within(
            crate::text::bytes_of(text),
            boundary,
        ),
    decreases offset,
{
    let bytes = crate::text::bytes_of(text);
    if offset > boundary {
        lemma_no_newline_inside(text, offset - 1, boundary);
        if bytes[offset - 1] == 10 {
            lemma_newline_boundary(text, offset - 1);
            assert(crate::text::on_boundary(text, offset));
        }
    }
}

/// An offset inside a character has the position of the character's start, and
/// one past the end of the text that of the end.
pub proof fn law_position_rounds_down(
    text: Seq<char>,
    offset: int,
    boundary: int,
    encoding: PositionEncoding,
)
    requires
        0 <= boundary <= offset,
        crate::text::on_boundary(text, boundary),
        forall|k: int| boundary < k <= offset ==> !#[trigger] crate::text::on_boundary(text, k),
    ensures
        position_at(text, offset, encoding) == position_at(text, boundary, encoding),
{
    let bytes = crate::text::bytes_of(text);
    vstd::utf8::encode_utf8_valid_utf8(text);
    vstd::utf8::is_char_boundary_start_end_of_seq(bytes);
    if offset > bytes.len() {
        assert(crate::text::on_boundary(text, bytes.len() as int));
        assert(boundary == bytes.len());
    }
    let at = clamped(text, offset);
    lemma_no_newline_inside(text, at, boundary);
    lemma_floor(text, at, boundary);
}

/// The lines of a text are what its newlines part: there is one more of them
/// than there are newlines, each starts at the start of the text or behind a
/// newline, has no newline in it, and ends at a newline or at the end of the
/// text.
pub proof fn law_lines_are_parted_by_newlines(bytes: Seq<u8>, line: int)
    requires
        0 <= line < starts(bytes).len(),
    ensures
        starts(bytes).len() == 1 + bytes.filter(|b: u8| b == 10).len(),
        0 <= starts(bytes)[line] <= stop(bytes, line) <= bytes.len(),
        line == 0 ==> starts(bytes)[line] == 0,
        line > 0 ==> starts(bytes)[line] > 0 && bytes[starts(bytes)[line] - 1] == 10,
        forall|k: int| starts(bytes)[line] <= k < stop(bytes, line) ==> #[trigger] bytes[k] != 10,
        line == starts(bytes).len() - 1 ==> stop(bytes, line) == bytes.len(),
        line < starts(bytes).len() - 1 ==> bytes[stop(bytes, line)] == 10 && starts(bytes)[line + 1]
            == stop(bytes, line) + 1,
{
    let n = bytes.len() as int;
    lemma_starts(bytes, n);
    lemma_starts_count(bytes, n);
    assert(bytes.take(n) =~= bytes);
    if line + 1 < starts(bytes).len() {
        assert(starts(bytes)[line] < starts(bytes)[line + 1]);
        assert(bytes[starts(bytes)[line + 1] - 1] == 10);
    }
    if line > 0 {
        assert(starts(bytes)[0] < starts(bytes)[line]);
        assert(bytes[starts(bytes)[line] - 1] == 10);
    }
    assert forall|k: int| starts(bytes)[line] <= k < stop(bytes, line) implies #[trigger] bytes[k]
        != 10 by {
        if bytes[k] == 10 {
            lemma_starts(bytes, k + 1);
            lemma_starts_grow(bytes, k + 1, n);
            let j = starts_within(bytes, k + 1).len() - 1;
            assert(starts_within(bytes, k + 1)[j] == k + 1);
            assert(starts(bytes)[j] == k + 1);
            if j < line {
                assert(starts(bytes)[j] < starts(bytes)[line]);
            }
            if j > line + 1 {
                assert(starts(bytes)[line + 1] < starts(bytes)[j]);
            }
        }
    }
}

/// Positions that are not there mean the nearest one that is: a column past the
/// end of its line the end of the line, before the newline, and a line past the
/// last one the last line. Whatever its column, a position stands for an offset
/// within its line.
pub proof fn law_positions_are_clamped(
    text: Seq<char>,
    line: u32,
    character: u32,
    encoding: PositionEncoding,
)
    requires
        crate::text::bytes_of(text).len() < u32::MAX,
    ensures
        ({
            let bytes = crate::text::bytes_of(text);
            let last = starts(bytes).len() - 1;
            let offset = offset_at(text, Position { line, character }, encoding);
            &&& line > last ==> offset == offset_at(
                text,
                Position { line: last as u32, character },
                encoding,
            )
            &&& line <= last ==> starts(bytes)[line as int] <= offset <= stop(bytes, line as int)
            &&& line <= last && character >= position_at(
                text,
                stop(bytes, line as int),
                encoding,
            ).character ==> offset == stop(bytes, line as int)
            &&& line <= last && character == 0 ==> offset == starts(bytes)[line as int]
        }),
{
    let bytes = crate::text::bytes_of(text);
    let n = bytes.len() as int;
    lemma_starts(bytes, n);
    let last = starts(bytes).len() - 1;
    if line <= last {
        let k = line as int;
        lemma_line_bounds(text, k);
        law_lines_are_parted_by_newlines(bytes, k);
        let start = starts(bytes)[k];
        let end = stop(bytes, k);
        let line_text = crate::text::part(text, start, end);
        lemma_part_boundary(text, start, end, 0);
        lemma_units_fit(encoding, line_text);
        crate::encoding::lemma_chars_within_bound(encoding, line_text, character as int);
        crate::text::lemma_prefix_boundary(
            line_text,
            encoding.chars_within(line_text, character as int),
        );
        lemma_line_start(bytes, start, end);
        lemma_starts(bytes, end);
        lemma_starts_grow(bytes, end, n);
        let found = line_at(bytes, end);
        assert(starts(bytes)[found] == start);
        if found < k {
            assert(starts(bytes)[found] < starts(bytes)[k]);
        }
        if k < found {
            assert(starts(bytes)[k] < starts(bytes)[found]);
        }
        assert(position_at(text, end, encoding).character == encoding.unit_count(line_text));
        if character >= encoding.unit_count(line_text) {
            crate::encoding::law_units_past_the_end(encoding, line_text, character as int);
        }
        assert(line_text.take(0) =~= Seq::<char>::empty());
        assert(crate::text::bytes_of(line_text.take(0)).len() == 0);
    }
}

/// A column inside a character means the character's end, except in UTF-8, where
/// it means the byte.
pub proof fn law_offset_rounds_up(
    text: Seq<char>,
    a: int,
    b: int,
    character: u32,
    encoding: PositionEncoding,
)
    requires
        crate::text::bytes_of(text).len() < u32::MAX,
        a < b,
        crate::text::on_boundary(text, a),
        crate::text::on_boundary(text, b),
        forall|k: int| a < k < b ==> !#[trigger] crate::text::on_boundary(text, k),
        position_at(text, a, encoding).line == position_at(text, b, encoding).line,
        position_at(text, a, encoding).character < character <= position_at(
            text,
            b,
            encoding,
        ).character,
    ensures
        ({
            let line = position_at(text, a, encoding).line;
            let offset = offset_at(text, Position { line, character }, encoding);
            &&& encoding is Utf8 ==> offset == a + (character - position_at(
                text,
                a,
                encoding,
            ).character)
            &&& !(encoding is Utf8) ==> offset == b
        }),
{
    let bytes = crate::text::bytes_of(text);
    let n = bytes.len() as int;
    lemma_starts(bytes, n);
    lemma_starts(bytes, a);
    lemma_starts(bytes, b);
    lemma_starts_grow(bytes, a, n);
    lemma_starts_grow(bytes, b, n);
    let line = line_at(bytes, a);
    assert(line == line_at(bytes, b));
    lemma_line_bounds(text, line);
    let start = starts(bytes)[line];
    let end = stop(bytes, line);
    assert(start <= a && b <= end) by {
        assert(starts(bytes)[line] <= a);
        if line + 1 < starts(bytes).len() {
            assert(starts(bytes)[line + 1] > b);
        }
    }
    let line_text = crate::text::part(text, start, end);
    lemma_part_boundary(text, start, end, a - start);
    lemma_part_boundary(text, start, end, b - start);
    lemma_part_boundary(text, start, a, 0);
    lemma_part_boundary(text, start, b, 0);
    lemma_units_fit(encoding, crate::text::part(text, start, a));
    lemma_units_fit(encoding, crate::text::part(text, start, b));
    let j = crate::text::lemma_boundary_prefix(line_text, a - start);
    let k = crate::text::lemma_boundary_prefix(line_text, b - start);
    assert(bytes.subrange(start, end).take(a - start) =~= bytes.subrange(start, a));
    assert(bytes.subrange(start, end).take(b - start) =~= bytes.subrange(start, b));
    vstd::utf8::encode_utf8_decode_utf8(line_text.take(j));
    vstd::utf8::encode_utf8_decode_utf8(line_text.take(k));
    assert(line_text.take(j) == crate::text::part(text, start, a));
    assert(line_text.take(k) == crate::text::part(text, start, b));
    if k <= j {
        crate::text::lemma_prefix_boundary(line_text.take(j), k);
        assert(line_text.take(j).take(k) =~= line_text.take(k));
    }
    crate::text::lemma_prefix_boundary(line_text, j + 1);
    let next = crate::text::bytes_of(line_text.take(j + 1)).len() as int;
    lemma_part_boundary(text, start, end, next);
    assert(line_text.take(j + 1) =~= line_text.take(j).push(line_text[j]));
    crate::text::lemma_bytes_push(line_text.take(j), line_text[j]);
    crate::text::lemma_prefix_boundary(line_text.take(k), j + 1);
    assert(line_text.take(k).take(j + 1) =~= line_text.take(j + 1));
    assert(vstd::utf8::encode_scalar(line_text[j] as u32).len() >= 1);
    assert(crate::text::on_boundary(text, start + next));
    assert(next == b - start);
    if j + 1 < k {
        assert(line_text.take(j + 2) =~= line_text.take(j + 1).push(line_text[j + 1]));
        crate::text::lemma_bytes_push(line_text.take(j + 1), line_text[j + 1]);
        crate::text::lemma_prefix_boundary(line_text.take(k), j + 2);
        assert(line_text.take(k).take(j + 2) =~= line_text.take(j + 2));
        assert(vstd::utf8::encode_scalar(line_text[j + 1] as u32).len() >= 1);
    }
    crate::encoding::law_units_round_up(encoding, line_text, j, character as int);
    crate::encoding::law_utf8_units_are_bytes(line_text.take(j));
}

} // verus!
