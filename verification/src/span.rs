//! A half-open byte range into a source text, tagged with a source revision.

use crate::decimal::push_decimal;
use std::ops::Range;
use vstd::prelude::*;

verus! {

/// A half-open byte range `[start, end)` into a source text, tagged with the
/// revision of that text it refers to.
///
/// Spans are the currency of this crate: every node in a
/// [`ParseTree`](crate::ParseTree) covers a span of the source, and passes
/// consume a span and produce child spans.
#[derive(Debug, Clone, Copy, PartialEq, Eq, Hash, Structural)]
pub struct Span {
    /// Byte offset of the first byte covered by the span.
    pub start: usize,
    /// Byte offset one past the last byte covered by the span.
    pub end: usize,
    /// Revision of the source text this span indexes into.
    pub rev: u64,
}

impl Span {
    /// The span does not end before it starts.
    pub open spec fn ordered(self) -> bool {
        self.start <= self.end
    }

    /// Length of the span in bytes.
    pub open spec fn length(self) -> int {
        self.end - self.start
    }

    /// `other` lies entirely within `self`.
    pub open spec fn covers(self, other: Span) -> bool {
        self.start <= other.start && other.end <= self.end
    }

    /// The byte at `offset` is one of those covered.
    pub open spec fn has_offset(self, offset: int) -> bool {
        self.start <= offset < self.end
    }

    /// `other` is a region of the source revision of `self`, within `self`.
    pub open spec fn nests(self, other: Span) -> bool {
        &&& other.ordered()
        &&& self.covers(other)
        &&& other.rev == self.rev
    }

    /// Creates a span over `[start, end)` of source revision `rev`.
    pub fn new(start: usize, end: usize, rev: u64) -> (span: Self)
        requires
            start <= end,
        ensures
            span == (Span { start, end, rev }),
    {
        Self { start, end, rev }
    }

    /// Length of the span in bytes.
    pub fn len(&self) -> (len: usize)
        requires
            self.ordered(),
        ensures
            len == self.length(),
    {
        self.end - self.start
    }

    /// Returns `true` if the span covers zero bytes.
    pub fn is_empty(&self) -> (empty: bool)
        ensures
            empty == (self.start == self.end),
    {
        self.start == self.end
    }

    /// Returns `true` if `other` lies entirely within `self`.
    pub fn contains(&self, other: &Span) -> (inside: bool)
        ensures
            inside == self.covers(*other),
    {
        self.start <= other.start && other.end <= self.end
    }

    /// Returns `true` if `self` contains the byte `offset`:
    /// `start <= offset < end`. Zero-width spans never contain anything.
    pub fn contains_offset(&self, offset: usize) -> (inside: bool)
        ensures
            inside == self.has_offset(offset as int),
    {
        self.start <= offset && offset < self.end
    }

    /// Some byte belongs to both spans.
    pub open spec fn shares_byte(self, other: Span) -> bool {
        exists|offset: int| self.has_offset(offset) && other.has_offset(offset)
    }

    /// Returns `true` if the two spans share at least one byte.
    pub fn overlaps(&self, other: &Span) -> (shared: bool)
        ensures
            shared == self.shares_byte(*other),
    {
        let lower: usize = if self.start < other.start {
            other.start
        } else {
            self.start
        };
        let shared = lower < self.end && lower < other.end;
        proof {
            if shared {
                assert(self.has_offset(lower as int) && other.has_offset(lower as int));
            }
        }
        shared
    }

    /// Converts the span to a `Range<usize>` suitable for slicing source text.
    pub fn to_range(&self) -> (range: Range<usize>)
        ensures
            range.start == self.start,
            range.end == self.end,
    {
        self.start..self.end
    }

    /// The text form of a span: `start..end@rev`.
    pub open spec fn text_form(self) -> Seq<char> {
        crate::decimal::decimal(self.start as nat) + ".."@ + crate::decimal::decimal(
            self.end as nat,
        ) + "@"@ + crate::decimal::decimal(self.rev as nat)
    }

    /// Renders the span as `start..end@rev`.
    pub fn to_string(&self) -> (text: String)
        ensures
            text@ == self.text_form(),
    {
        let mut out = String::new();
        push_decimal(&mut out, self.start as u64);
        out.append("..");
        push_decimal(&mut out, self.end as u64);
        out.append("@");
        push_decimal(&mut out, self.rev);
        assert(out@ =~= self.text_form());
        out
    }
}

/// Containment is transitive.
pub proof fn law_covers_transitive(a: Span, b: Span, c: Span)
    requires
        a.covers(b),
        b.covers(c),
    ensures
        a.covers(c),
{
}

/// A span lies within another exactly where every byte it covers is one that
/// the other covers.
pub proof fn law_covering_is_of_bytes(outer: Span, inner: Span)
    requires
        inner.start < inner.end,
    ensures
        outer.covers(inner) == forall|offset: int|
            inner.start <= offset < inner.end ==> #[trigger] outer.has_offset(offset),
        forall|offset: int| #[trigger]
            outer.has_offset(offset) == (outer.start <= offset && offset < outer.end),
{
    if forall|offset: int| inner.start <= offset < inner.end ==> #[trigger] outer.has_offset(offset) {
        assert(outer.has_offset(inner.start as int));
        assert(outer.has_offset(inner.end - 1));
    }
}

/// A span is written with its start, its end and its revision, in that order.
pub proof fn law_written_span(span: Span)
    ensures
        span.text_form() == crate::decimal::decimal(span.start as nat) + ".."@
            + crate::decimal::decimal(span.end as nat) + "@"@ + crate::decimal::decimal(
            span.rev as nat,
        ),
        span.start <= span.end ==> span.length() + span.start == span.end,
{
}

/// Two spans overlap exactly where both begin before either ends: then the later
/// start is a byte of both.
pub proof fn law_overlap_is_of_bytes(a: Span, b: Span)
    ensures
        a.shares_byte(b) == (vstd::math::max(a.start as int, b.start as int) < vstd::math::min(
            a.end as int,
            b.end as int,
        )),
        a.shares_byte(b) == b.shares_byte(a),
{
    let later = vstd::math::max(a.start as int, b.start as int);
    if later < vstd::math::min(a.end as int, b.end as int) {
        assert(a.has_offset(later) && b.has_offset(later));
        assert(b.has_offset(later) && a.has_offset(later));
    }
}

} // verus!
