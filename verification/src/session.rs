//! Incremental editing: describing text changes and driving re-parses.

use crate::cancel::CancelToken;
use crate::engine::{Engine, RoundTrace, RunReport};
use crate::executor::Executor;
use crate::model::TreeModel;
use crate::span::Span;
use crate::tree::ParseTree;
use vstd::prelude::*;

verus! {

/// A single text edit: the old-text range `[start, old_end)` is replaced by
/// the new-text range `[start, new_end)`.
///
/// Positions refer to the text *before* the edit for `start` and `old_end`,
/// and to the text *after* the edit for `new_end`.
#[derive(Debug, Clone, Copy, PartialEq, Eq, Structural)]
pub struct Edit {
    /// Start of the edited range (valid in both old and new coordinates).
    pub start: usize,
    /// End of the edited range in old-text coordinates.
    pub old_end: usize,
    /// End of the replacement in new-text coordinates.
    pub new_end: usize,
}

impl Edit {
    /// Neither range ends before it starts.
    pub open spec fn valid(self) -> bool {
        self.start <= self.old_end && self.start <= self.new_end
    }

    /// Nothing is removed.
    pub open spec fn is_insertion(self) -> bool {
        self.start == self.old_end
    }

    /// Where a position of the old text lies in the new one.
    pub open spec fn pos_after(self, pos: int) -> int {
        if pos <= self.start {
            pos
        } else if pos < self.old_end {
            self.new_end as int
        } else {
            self.new_end + (pos - self.old_end)
        }
    }

    /// Where the end of a region of the old text lies in the new one: as any
    /// other position, except that a region ending at an insertion point takes
    /// in what is inserted.
    pub open spec fn end_after(self, pos: int) -> int {
        if self.is_insertion() && pos == self.start {
            self.new_end as int
        } else {
            self.pos_after(pos)
        }
    }

    /// A region of the old text in the coordinates of the new one.
    pub open spec fn span_after(self, span: Span, rev: u64) -> Span {
        Span {
            start: self.pos_after(span.start as int) as usize,
            end: self.end_after(span.end as int) as usize,
            rev,
        }
    }

    /// The edit can change the text that `span` covers.
    pub open spec fn reaches(self, span: Span) -> bool {
        if self.is_insertion() {
            span.start <= self.start <= span.end
        } else {
            span.start < self.old_end && self.start < span.end
        }
    }

    /// Replaces the old range `[start, old_end)` with the new range
    /// `[start, new_end)`.
    pub fn replace(start: usize, old_end: usize, new_end: usize) -> (edit: Self)
        requires
            start <= old_end,
            start <= new_end,
        ensures
            edit == (Edit { start, old_end, new_end }),
            edit.valid(),
    {
        Self { start, old_end, new_end }
    }

    /// Inserts `len` bytes at position `at`.
    pub fn insert(at: usize, len: usize) -> (edit: Self)
        requires
            at + len <= usize::MAX,
        ensures
            edit == (Edit { start: at, old_end: at, new_end: (at + len) as usize }),
            edit.valid(),
    {
        Self::replace(at, at, at + len)
    }

    /// Deletes the range `[start, end)`.
    pub fn delete(start: usize, end: usize) -> (edit: Self)
        requires
            start <= end,
        ensures
            edit == (Edit { start, old_end: end, new_end: start }),
            edit.valid(),
    {
        Self::replace(start, end, start)
    }

    /// Maps a position from old coordinates to new coordinates.
    ///
    /// Positions inside the deleted region collapse onto `new_end`; a pure
    /// insertion point stays put (it maps to itself via the `start` branch).
    pub fn map_pos(&self, pos: usize) -> (mapped: usize)
        requires
            self.valid(),
            self.pos_after(pos as int) <= usize::MAX,
        ensures
            mapped == self.pos_after(pos as int),
    {
        if pos <= self.start {
            pos
        } else if pos >= self.old_end {
            self.new_end + (pos - self.old_end)
        } else {
            self.new_end
        }
    }

    /// Maps a span *end* position, as [`map_pos`](Self::map_pos) does for
    /// starts, except for pure insertions: a region ending exactly at the
    /// insertion point absorbs the inserted bytes, so a region that ended at
    /// the end of the file still ends at the (new) end of the file. Without
    /// this, appending text at the end would leave every region — including
    /// the root — short, and the appended bytes would silently escape parsing.
    pub fn map_end(&self, pos: usize) -> (mapped: usize)
        requires
            self.valid(),
            self.end_after(pos as int) <= usize::MAX,
        ensures
            mapped == self.end_after(pos as int),
    {
        if self.start == self.old_end {
            if pos < self.start {
                pos
            } else {
                self.new_end + (pos - self.old_end)
            }
        } else if pos <= self.start {
            pos
        } else if pos < self.old_end {
            self.new_end
        } else {
            self.new_end + (pos - self.old_end)
        }
    }

    /// Returns `true` if the edit can change the text a span covers.
    ///
    /// Replacements use half-open overlap; pure insertions use closed
    /// containment, so an insert at a span's boundary (e.g. at the end of
    /// the file) still touches the enclosing regions.
    pub fn touches(&self, span: &Span) -> (touched: bool)
        ensures
            touched == self.reaches(*span),
    {
        if self.start == self.old_end {
            span.start <= self.start && self.start <= span.end
        } else {
            span.start < self.old_end && self.start < span.end
        }
    }
}

/// Maps `span` from old coordinates to new coordinates, tagging it with the
/// post-edit revision `rev`.
pub fn map_span(span: Span, edit: &Edit, rev: u64) -> (mapped: Span)
    requires
        edit.valid(),
        span.ordered(),
        edit.end_after(span.end as int) <= usize::MAX,
    ensures
        mapped == edit.span_after(span, rev),
        mapped.ordered(),
{
    Span::new(edit.map_pos(span.start), edit.map_end(span.end), rev)
}

/// A long-lived document: a [`ParseTree`] that can absorb [`Edit`]s.
///
/// `Session::edit` remaps every span into the new coordinates, bumps the
/// source revision, and resets only the nodes the edit could have changed
/// back to [`Unparsed`](crate::Status::Unparsed) — their children stay
/// attached so the next run can *reuse* them.
///
/// Reuse works because the engine matches a re-expansion's children against
/// the existing children by span and context: any child whose span and
/// context are unchanged keeps its identity, its status, and its whole
/// subtree. Only the edited chain (and anything whose context references
/// changed text) gets re-parsed — the rest of the tree is carried over as-is.
#[derive(Debug)]
pub struct Session<C> {
    tree: ParseTree<C>,
}

impl<C> View for Session<C> {
    type V = TreeModel<C>;

    closed spec fn view(&self) -> TreeModel<C> {
        self.tree@
    }
}

impl<C: Clone + PartialEq + Send + 'static> Session<C> {
    /// Creates a session whose tree root covers `root_span` of source
    /// revision `source_rev`, carrying `root_ctx`.
    pub fn new(source_rev: u64, root_span: Span, root_ctx: C) -> (session: Self)
        requires
            root_span.ordered(),
        ensures
            session@ == TreeModel::root_only(source_rev, root_span, root_ctx),
            session@.wf(),
    {
        Self { tree: ParseTree::new(source_rev, root_span, root_ctx) }
    }

    /// Creates a session whose tree root covers all of `source`, at revision
    /// `source_rev`, carrying `root_ctx`.
    pub fn from_source(source: &str, source_rev: u64, root_ctx: C) -> (session: Self)
        ensures
            session@ == TreeModel::root_only(
                source_rev,
                Span {
                    start: 0,
                    end: crate::text::bytes_of(source@).len() as usize,
                    rev: source_rev,
                },
                root_ctx,
            ),
            session@.wf(),
            session@.nodes[0].span.end == crate::text::bytes_of(source@).len(),
    {
        Self { tree: ParseTree::from_source(source, source_rev, root_ctx) }
    }

    /// The current source revision; bumped by every [`edit`](Self::edit).
    pub fn revision(&self) -> (rev: u64)
        ensures
            rev == self@.rev,
    {
        self.tree.source_rev()
    }

    /// The parse tree accumulated so far.
    pub fn tree(&self) -> (tree: &ParseTree<C>)
        ensures
            tree@ == self@,
    {
        &self.tree
    }

    /// Mutable access to the tree, for queries that need it (e.g. custom
    /// traversal helpers); prefer [`tree`](Self::tree) otherwise.
    pub fn tree_mut(&mut self) -> (tree: &mut ParseTree<C>)
        ensures
            tree@ == old(self)@,
            final(self)@ == final(tree)@,
    {
        &mut self.tree
    }

    /// Applies a text edit: remaps spans, bumps the revision, and resets the
    /// touched nodes for re-parsing on the next [`run`](Self::run).
    pub fn edit(&mut self, edit: Edit)
        requires
            old(self)@.wf(),
            edit.valid(),
            old(self)@.rev < u64::MAX,
            edit.end_after(old(self)@.nodes[0].span.end as int) <= usize::MAX,
        ensures
            final(self)@ == old(self)@.edited(edit),
            final(self)@.wf(),
    {
        self.tree.edit(edit);
    }

    /// Runs the engine over the current tree and `source`, returning the
    /// run report.
    ///
    /// `source` must be the text at the session's current
    /// [`revision`](Self::revision).
    pub fn run<E>(
        &mut self,
        engine: &Engine<C>,
        source: &str,
        exec: &E,
        cancel: &CancelToken,
    ) -> (report: RunReport) where E: Executor
        requires
            old(self)@.wf(),
            engine.takes(source, old(self)@.nodes[0].span),
        ensures
            final(self)@.wf(),
            final(self)@.nodes[0].span == old(self)@.nodes[0].span,
            exists|rounds: Seq<RoundTrace<C>>| #[trigger]
                engine.run_ok(source, old(self)@, rounds, final(self)@, report) && engine.stop_ok(
                    exec,
                    cancel,
                    rounds,
                    report,
                ),
    {
        engine.run(source, &mut self.tree, exec, cancel)
    }

    /// Runs the engine over the current tree and `source`, one job after
    /// another; nothing cancels it.
    pub(crate) fn run_through(&mut self, engine: &Engine<C>, source: &str) -> (report: RunReport)
        requires
            old(self)@.wf(),
            engine.takes(source, old(self)@.nodes[0].span),
        ensures
            final(self)@.wf(),
            final(self)@.nodes[0].span == old(self)@.nodes[0].span,
            !report.cancelled,
            exists|rounds: Seq<RoundTrace<C>>| #[trigger]
                engine.run_ok(source, old(self)@, rounds, final(self)@, report),
    {
        engine.run_through(source, &mut self.tree)
    }
}

/// An edit keeps the order of positions: a region within another stays within
/// it, and no region is turned inside out.
pub proof fn law_edit_keeps_nesting(edit: Edit, outer: Span, inner: Span, rev: u64)
    requires
        edit.valid(),
        outer.nests(inner),
        edit.end_after(outer.end as int) <= usize::MAX,
    ensures
        edit.span_after(outer, rev).nests(edit.span_after(inner, rev)),
{
}

/// An edit that reaches a region reaches every region around it.
pub proof fn law_touch_spreads_outwards(edit: Edit, outer: Span, inner: Span)
    requires
        outer.covers(inner),
        edit.reaches(inner),
    ensures
        edit.reaches(outer),
{
}

/// A position follows its text: what stands before a position up to the edit
/// still stands before it, what stands after a position behind the edit still
/// stands after it, and a position in what is removed goes to the end of what is
/// put in its place.
pub proof fn law_positions_follow_their_text(
    old_bytes: Seq<u8>,
    inserted: Seq<u8>,
    edit: Edit,
    pos: int,
)
    requires
        edit.valid(),
        edit.old_end <= old_bytes.len(),
        edit.new_end == edit.start + inserted.len(),
        0 <= pos <= old_bytes.len(),
    ensures
        ({
            let new_bytes = old_bytes.take(edit.start as int) + inserted + old_bytes.skip(
                edit.old_end as int,
            );
            &&& 0 <= edit.pos_after(pos) <= new_bytes.len()
            &&& pos <= edit.start ==> new_bytes.take(edit.pos_after(pos)) == old_bytes.take(pos)
            &&& pos > edit.start && pos >= edit.old_end ==> new_bytes.skip(edit.pos_after(pos))
                == old_bytes.skip(pos)
            &&& edit.start < pos < edit.old_end ==> edit.pos_after(pos) == edit.start
                + inserted.len()
            &&& 0 <= edit.end_after(pos) <= new_bytes.len()
            &&& edit.start == edit.old_end && pos >= edit.start ==> new_bytes.skip(
                edit.end_after(pos),
            ) == old_bytes.skip(pos)
            &&& !(edit.start == edit.old_end && pos == edit.start) ==> edit.end_after(pos)
                == edit.pos_after(pos)
        }),
{
    let new_bytes = old_bytes.take(edit.start as int) + inserted + old_bytes.skip(
        edit.old_end as int,
    );
    if pos <= edit.start {
        assert(new_bytes.take(edit.pos_after(pos)) =~= old_bytes.take(pos));
    }
    if pos > edit.start && pos >= edit.old_end {
        assert(new_bytes.skip(edit.pos_after(pos)) =~= old_bytes.skip(pos));
    }
    if edit.start == edit.old_end && pos >= edit.start {
        assert(new_bytes.skip(edit.end_after(pos)) =~= old_bytes.skip(pos));
    }
}

/// An edit that removes something reaches a region exactly where one of the
/// bytes removed is one that the region covers, and an empty region where it
/// removes bytes on both sides of it; one that only inserts reaches a region
/// exactly where it inserts within it or at one of its ends.
pub proof fn law_edit_reaches_what_it_changes(edit: Edit, span: Span)
    requires
        edit.valid(),
        span.start <= span.end,
    ensures
        edit.start < edit.old_end && span.start < span.end ==> edit.reaches(span) == exists|
            offset: int,
        |
            edit.start <= offset < edit.old_end && #[trigger] span.has_offset(offset),
        edit.start < edit.old_end && span.start == span.end ==> edit.reaches(span) == (edit.start
            < span.start && span.start < edit.old_end),
        edit.start == edit.old_end ==> edit.reaches(span) == (span.start <= edit.start
            && edit.start <= span.end),
{
    if edit.start < edit.old_end && span.start < span.end && edit.reaches(span) {
        let offset: int = if edit.start < span.start {
            span.start as int
        } else {
            edit.start as int
        };
        assert(edit.start <= offset < edit.old_end && span.has_offset(offset));
    }
}

/// A span goes where its ends go: its start as any position does, its end
/// likewise except that it takes in what is inserted right there, and it is on
/// the new revision.
pub proof fn law_spans_go_where_their_ends_go(edit: Edit, span: Span, rev: u64)
    requires
        edit.valid(),
        span.start <= span.end,
        span.end + edit.new_end <= usize::MAX,
    ensures
        edit.span_after(span, rev).rev == rev,
        edit.span_after(span, rev).start == edit.pos_after(span.start as int),
        edit.span_after(span, rev).end == edit.end_after(span.end as int),
        edit.span_after(span, rev).start <= edit.span_after(span, rev).end,
        span.end < edit.start ==> edit.span_after(span, rev).start == span.start && edit.span_after(
            span,
            rev,
        ).end == span.end,
        span.start > edit.old_end ==> edit.span_after(span, rev).start - span.start == edit.new_end
            - edit.old_end && edit.span_after(span, rev).end - span.end == edit.new_end
            - edit.old_end,
{
}

} // verus!
