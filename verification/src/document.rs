//! One open editor file: text, session, version, and position encoding.

use crate::cancel::CancelToken;
use crate::encoding::PositionEncoding;
use crate::engine::{Engine, RoundTrace, RunReport};
use crate::executor::Executor;
use crate::line_index::LineIndex;
use crate::lsp::{ContentChange, Location, Position, Range};
use crate::model::TreeModel;
use crate::session::{Edit, Session};
use crate::span::Span;
use crate::text::{byte_len, slice};
use vstd::prelude::*;

verus! {

/// The range that `span` covers in `text`.
pub open spec fn range_of(text: Seq<char>, span: Span, encoding: PositionEncoding) -> Range {
    Range {
        start: crate::line_index::position_at(text, span.start as int, encoding),
        end: crate::line_index::position_at(text, span.end as int, encoding),
    }
}

/// The positions of `text` fit the protocol's integers.
pub open spec fn fits(text: Seq<char>) -> bool {
    crate::text::bytes_of(text).len() < u32::MAX
}

/// Where `change` starts to replace `text`.
pub open spec fn change_start(
    text: Seq<char>,
    encoding: PositionEncoding,
    change: ContentChange,
) -> int {
    match change.range {
        None => 0,
        Some(range) => crate::line_index::offset_at(text, range.start, encoding),
    }
}

/// Where `change` stops to replace `text`; never before it starts.
pub open spec fn change_end(
    text: Seq<char>,
    encoding: PositionEncoding,
    change: ContentChange,
) -> int {
    match change.range {
        None => crate::text::bytes_of(text).len() as int,
        Some(range) => {
            let start = crate::line_index::offset_at(text, range.start, encoding);
            let end = crate::line_index::offset_at(text, range.end, encoding);
            if end < start {
                start
            } else {
                end
            }
        },
    }
}

/// `text` after `change`.
pub open spec fn text_after(
    text: Seq<char>,
    encoding: PositionEncoding,
    change: ContentChange,
) -> Seq<char> {
    crate::text::part(text, 0, change_start(text, encoding, change)) + change.text@
        + crate::text::part(
        text,
        change_end(text, encoding, change),
        crate::text::bytes_of(text).len() as int,
    )
}

/// The byte edit that `change` amounts to.
pub open spec fn edit_for(
    text: Seq<char>,
    encoding: PositionEncoding,
    change: ContentChange,
) -> Edit {
    let start = change_start(text, encoding, change);
    Edit {
        start: start as usize,
        old_end: change_end(text, encoding, change) as usize,
        new_end: (start + crate::text::bytes_of(change.text@).len()) as usize,
    }
}

/// `change` can be applied to `text` and to a tree whose root ends at
/// `root_end`: it splits no character, and what comes out still fits.
pub open spec fn change_ok(
    text: Seq<char>,
    root_end: int,
    encoding: PositionEncoding,
    change: ContentChange,
) -> bool {
    &&& crate::text::on_boundary(text, change_start(text, encoding, change))
    &&& crate::text::on_boundary(text, change_end(text, encoding, change))
    &&& fits(text_after(text, encoding, change))
    &&& edit_for(text, encoding, change).end_after(root_end) <= usize::MAX
}

/// The text after the first `n` of `changes`, each applied to what the one
/// before it left.
pub open spec fn text_after_all(
    text: Seq<char>,
    encoding: PositionEncoding,
    changes: Seq<ContentChange>,
    n: int,
) -> Seq<char>
    decreases n,
{
    if n <= 0 {
        text
    } else {
        text_after(text_after_all(text, encoding, changes, n - 1), encoding, changes[n - 1])
    }
}

/// The tree after the edits that the first `n` of `changes` amount to.
pub open spec fn tree_after_all<C>(
    tree: TreeModel<C>,
    text: Seq<char>,
    encoding: PositionEncoding,
    changes: Seq<ContentChange>,
    n: int,
) -> TreeModel<C>
    decreases n,
{
    if n <= 0 {
        tree
    } else {
        tree_after_all(tree, text, encoding, changes, n - 1).edited(
            edit_for(text_after_all(text, encoding, changes, n - 1), encoding, changes[n - 1]),
        )
    }
}

/// Change number `n` can be applied once those before it were.
pub open spec fn step_ok<C>(
    tree: TreeModel<C>,
    text: Seq<char>,
    encoding: PositionEncoding,
    changes: Seq<ContentChange>,
    n: int,
) -> bool {
    change_ok(
        text_after_all(text, encoding, changes, n),
        tree_after_all(tree, text, encoding, changes, n).nodes[0].span.end as int,
        encoding,
        changes[n],
    )
}

/// `text` with the bytes from `start` to `end` replaced by `inserted`.
fn splice(text: &str, start: usize, end: usize, inserted: &str) -> (spliced: String)
    requires
        start <= end,
        crate::text::on_boundary(text@, start as int),
        crate::text::on_boundary(text@, end as int),
    ensures
        spliced@ == crate::text::part(text@, 0, start as int) + inserted@ + crate::text::part(
            text@,
            end as int,
            crate::text::bytes_of(text@).len() as int,
        ),
{
    proof {
        vstd::utf8::encode_utf8_valid_utf8(text@);
        vstd::utf8::is_char_boundary_start_end_of_seq(crate::text::bytes_of(text@));
    }
    let mut spliced = slice(text, 0, start).to_owned();
    spliced.append(inserted);
    spliced.append(slice(text, end, byte_len(text)));
    spliced
}

/// The bytes of a spliced text are the spliced bytes.
proof fn lemma_spliced_bytes(text: Seq<char>, start: int, end: int, inserted: Seq<char>)
    requires
        0 <= start <= end,
        crate::text::on_boundary(text, start),
        crate::text::on_boundary(text, end),
    ensures
        crate::text::bytes_of(
            crate::text::part(text, 0, start) + inserted + crate::text::part(
                text,
                end,
                crate::text::bytes_of(text).len() as int,
            ),
        ) == crate::text::bytes_of(text).take(start) + crate::text::bytes_of(inserted)
            + crate::text::bytes_of(text).skip(end),
{
    let bytes = crate::text::bytes_of(text);
    let n = bytes.len() as int;
    vstd::utf8::encode_utf8_valid_utf8(text);
    vstd::utf8::is_char_boundary_start_end_of_seq(bytes);
    crate::line_index::lemma_part_boundary(text, 0, start, 0);
    crate::line_index::lemma_part_boundary(text, end, n, 0);
    let head = crate::text::part(text, 0, start);
    let tail = crate::text::part(text, end, n);
    crate::text::lemma_bytes_join(head, inserted);
    crate::text::lemma_bytes_join(head + inserted, tail);
    assert(bytes.subrange(0, start) =~= bytes.take(start));
    assert(bytes.subrange(end, n) =~= bytes.skip(end));
}

/// A single open document, bridging LSP change events and a parse
/// [`Session`].
///
/// `apply_changes` is the whole workflow: hand it the `didChange` payload and
/// an engine; it splices the text, translates every change into a byte-range
/// [`Edit`] (so the parse tree reuses everything the edit did not touch),
/// and runs the engine synchronously. How you thread that call — inline in
/// your server loop, or on a background thread with a [`CancelToken`] — is
/// your framework's business.
#[derive(Debug)]
pub struct Document<C> {
    uri: String,
    text: String,
    session: Session<C>,
    version: i32,
    encoding: PositionEncoding,
    index: LineIndex,
}

impl<C> Document<C> {
    /// The document's name.
    pub closed spec fn name(&self) -> Seq<char> {
        self.uri@
    }

    /// The current text.
    pub closed spec fn content(&self) -> Seq<char> {
        self.text@
    }

    /// The current parse tree.
    pub closed spec fn parsed(&self) -> TreeModel<C> {
        self.session@
    }

    /// The client's version.
    pub closed spec fn client_version(&self) -> i32 {
        self.version
    }

    /// The encoding of positions.
    pub closed spec fn units(&self) -> PositionEncoding {
        self.encoding
    }

    /// The line index describes the current text.
    pub closed spec fn indexed(&self) -> bool {
        self.index.describes(self.text@)
    }

    /// The invariant: the index describes the text, and the tree is well
    /// formed.
    pub open spec fn wf(&self) -> bool {
        self.indexed() && self.parsed().wf()
    }

    /// The tree's root covers exactly the text.
    pub open spec fn covered(&self) -> bool {
        &&& self.parsed().nodes[0].span.start == 0
        &&& self.parsed().nodes[0].span.end == crate::text::bytes_of(self.content()).len()
    }

    /// Every one of `changes` can be applied in turn.
    pub open spec fn accepts(&self, changes: Seq<ContentChange>) -> bool {
        &&& fits(self.content())
        &&& self.parsed().rev + changes.len() <= u64::MAX
        &&& forall|n: int|
            0 <= n < changes.len() ==> #[trigger] step_ok(
                self.parsed(),
                self.content(),
                self.units(),
                changes,
                n,
            )
    }

    /// The text after `changes`.
    pub open spec fn content_after(&self, changes: Seq<ContentChange>) -> Seq<char> {
        text_after_all(self.content(), self.units(), changes, changes.len() as int)
    }

    /// The tree after the edits that `changes` amount to, before any run.
    pub open spec fn tree_after(&self, changes: Seq<ContentChange>) -> TreeModel<C> {
        tree_after_all(
            self.parsed(),
            self.content(),
            self.units(),
            changes,
            changes.len() as int,
        )
    }
}

impl<C: Clone + PartialEq + Send + 'static> Document<C> {
    /// Opens a document at `version` with the full initial `text`.
    ///
    /// The tree root covers the whole text and carries `root_ctx`.
    pub fn open(
        uri: String,
        version: i32,
        text: String,
        encoding: PositionEncoding,
        root_ctx: C,
    ) -> (document: Self)
        ensures
            document.wf(),
            document.covered(),
            document.name() == uri@,
            document.content() == text@,
            document.client_version() == version,
            document.units() == encoding,
            document.parsed() == TreeModel::root_only(
                0,
                Span { start: 0, end: crate::text::bytes_of(text@).len() as usize, rev: 0 },
                root_ctx,
            ),
    {
        let index = LineIndex::new(text.as_str());
        let session = Session::from_source(text.as_str(), 0, root_ctx);
        Self { uri, text, session, version, encoding, index }
    }

    /// The document's URI.
    pub fn uri(&self) -> (uri: &str)
        ensures
            uri@ == self.name(),
    {
        self.uri.as_str()
    }

    /// The current text.
    pub fn text(&self) -> (text: &str)
        ensures
            text@ == self.content(),
    {
        self.text.as_str()
    }

    /// The client's document version.
    pub fn version(&self) -> (version: i32)
        ensures
            version == self.client_version(),
    {
        self.version
    }

    /// The negotiated position encoding.
    pub fn encoding(&self) -> (encoding: PositionEncoding)
        ensures
            encoding == self.units(),
    {
        self.encoding
    }

    /// The line index of the current text.
    pub fn line_index(&self) -> (index: &LineIndex)
        requires
            self.wf(),
        ensures
            index.describes(self.content()),
    {
        &self.index
    }

    /// The parse session (tree, revisions, edits).
    pub fn session(&self) -> (session: &Session<C>)
        ensures
            session@ == self.parsed(),
    {
        &self.session
    }

    /// Mutable access to the session, for custom workflows.
    pub fn session_mut(&mut self) -> (session: &mut Session<C>)
        ensures
            session@ == old(self).parsed(),
            final(self).parsed() == final(session)@,
            final(self).name() == old(self).name(),
            final(self).content() == old(self).content(),
            final(self).client_version() == old(self).client_version(),
            final(self).units() == old(self).units(),
            final(self).indexed() == old(self).indexed(),
    {
        &mut self.session
    }

    /// Current source revision of the parse tree (bumped once per applied
    /// change event).
    pub fn revision(&self) -> (rev: u64)
        ensures
            rev == self.parsed().rev,
    {
        self.session.revision()
    }

    /// Converts a tree span to an LSP location in this document — the
    /// convenient shape for go-to-definition answers.
    pub fn location(&self, span: Span) -> (location: Location)
        requires
            self.wf(),
            fits(self.content()),
        ensures
            location.uri@ == self.name(),
            location.range == range_of(self.content(), span, self.units()),
    {
        Location { uri: self.uri.clone(), range: self.range(span) }
    }

    /// Converts a tree span to an LSP range in the document's encoding.
    pub fn range(&self, span: Span) -> (range: Range)
        requires
            self.wf(),
            fits(self.content()),
        ensures
            range == range_of(self.content(), span, self.units()),
    {
        Range {
            start: self.index.position(self.text.as_str(), span.start, self.encoding),
            end: self.index.position(self.text.as_str(), span.end, self.encoding),
        }
    }

    /// Converts an LSP position to a byte offset (clamped like
    /// [`LineIndex::offset`]).
    pub fn offset(&self, position: Position) -> (offset: usize)
        requires
            self.wf(),
            fits(self.content()),
        ensures
            offset == crate::line_index::offset_at(self.content(), position, self.units()),
            offset <= crate::text::bytes_of(self.content()).len(),
            !(self.units() is Utf8) ==> crate::text::on_boundary(self.content(), offset as int),
    {
        proof {
            lemma_lines_fit(self.content());
        }
        match self.index.offset(self.text.as_str(), position, self.encoding) {
            Some(offset) => offset,
            None => byte_len(self.text.as_str()),
        }
    }
}

/// Where `change` starts and stops to replace `text`.
fn change_bounds(
    text: &str,
    index: &LineIndex,
    encoding: PositionEncoding,
    change: &ContentChange,
) -> (bounds: (usize, usize))
    requires
        index.describes(text@),
        fits(text@),
    ensures
        bounds.0 == change_start(text@, encoding, *change),
        bounds.1 == change_end(text@, encoding, *change),
        bounds.0 <= bounds.1 <= crate::text::bytes_of(text@).len(),
{
    proof {
        lemma_lines_fit(text@);
    }
    let len: usize = byte_len(text);
    match change.range {
        None => (0, len),
        Some(range) => {
            let start: usize = match index.offset(text, range.start, encoding) {
                Some(offset) => offset,
                None => len,
            };
            let end: usize = match index.offset(text, range.end, encoding) {
                Some(offset) => offset,
                None => len,
            };
            (
                start,
                if end < start {
                    start
                } else {
                    end
                },
            )
        },
    }
}

/// What applying one change does to the text, the edit and the tree.
proof fn lemma_change<C>(
    tree: TreeModel<C>,
    text: Seq<char>,
    encoding: PositionEncoding,
    change: ContentChange,
)
    requires
        tree.wf(),
        fits(text),
        change_start(text, encoding, change) <= change_end(text, encoding, change),
        change_ok(text, tree.nodes[0].span.end as int, encoding, change),
    ensures
        edit_for(text, encoding, change).valid(),
        edit_for(text, encoding, change).start == change_start(text, encoding, change),
        edit_for(text, encoding, change).old_end == change_end(text, encoding, change),
        edit_for(text, encoding, change).new_end == change_start(text, encoding, change)
            + crate::text::bytes_of(change.text@).len(),
        crate::text::bytes_of(text_after(text, encoding, change)) == crate::laws::spliced(
            crate::text::bytes_of(text),
            edit_for(text, encoding, change),
            crate::text::bytes_of(change.text@),
        ),
        tree.edited(edit_for(text, encoding, change)).wf(),
        tree.edited(edit_for(text, encoding, change)).nodes[0].span.end == edit_for(
            text,
            encoding,
            change,
        ).end_after(tree.nodes[0].span.end as int),
        tree.nodes[0].span.start == 0 && tree.nodes[0].span.end == crate::text::bytes_of(text).len()
            ==> tree.edited(edit_for(text, encoding, change)).nodes[0].span.start == 0
            && tree.edited(edit_for(text, encoding, change)).nodes[0].span.end
            == crate::text::bytes_of(text_after(text, encoding, change)).len(),
{
    let start = change_start(text, encoding, change);
    let end = change_end(text, encoding, change);
    let bytes = crate::text::bytes_of(text);
    lemma_spliced_bytes(text, start, end, change.text@);
    assert(bytes.take(start).len() == start);
    assert(bytes.skip(end).len() == bytes.len() - end);
    let edit = edit_for(text, encoding, change);
    assert(edit.valid());
    crate::model::lemma_edited_wf(tree, edit);
    assert(tree.live(0));
}

/// What a sequence of changes that can be applied leads through.
proof fn lemma_changes<C>(
    tree: TreeModel<C>,
    text: Seq<char>,
    encoding: PositionEncoding,
    changes: Seq<ContentChange>,
    n: int,
)
    requires
        tree.wf(),
        fits(text),
        0 <= n <= changes.len(),
        tree.rev + n <= u64::MAX,
        forall|k: int| 0 <= k < n ==> #[trigger] step_ok(tree, text, encoding, changes, k),
    ensures
        tree_after_all(tree, text, encoding, changes, n).wf(),
        tree_after_all(tree, text, encoding, changes, n).rev == tree.rev + n,
        fits(text_after_all(text, encoding, changes, n)),
        tree.nodes[0].span.start == 0 && tree.nodes[0].span.end == crate::text::bytes_of(text).len()
            ==> tree_after_all(tree, text, encoding, changes, n).nodes[0].span.start == 0
            && tree_after_all(tree, text, encoding, changes, n).nodes[0].span.end
            == crate::text::bytes_of(text_after_all(text, encoding, changes, n)).len(),
    decreases n,
{
    if n > 0 {
        lemma_changes(tree, text, encoding, changes, n - 1);
        assert(step_ok(tree, text, encoding, changes, n - 1));
        let before = text_after_all(text, encoding, changes, n - 1);
        lemma_bounds_ordered(before, encoding, changes[n - 1]);
        lemma_change(
            tree_after_all(tree, text, encoding, changes, n - 1),
            before,
            encoding,
            changes[n - 1],
        );
    }
}

/// A change never stops before it starts.
proof fn lemma_bounds_ordered(text: Seq<char>, encoding: PositionEncoding, change: ContentChange)
    requires
        crate::text::on_boundary(text, change_start(text, encoding, change)),
    ensures
        change_start(text, encoding, change) <= change_end(text, encoding, change),
{
}

impl<C: Clone + PartialEq + Send + 'static> Document<C> {
    /// Returns `true` if every one of `changes` can be applied in turn: none
    /// splits a character — only UTF-8 positions can — and the results stay
    /// small enough.
    pub fn can_apply(&self, changes: &[ContentChange]) -> (applicable: bool)
        requires
            self.wf(),
        ensures
            applicable == self.accepts(changes@),
    {
        let limit: usize = u32::MAX as usize;
        let mut text = self.text.clone();
        let mut index = LineIndex::new(text.as_str());
        let mut root_end: usize = self.session.tree().span(self.session.tree().root()).end;
        if byte_len(text.as_str()) >= limit || changes.len() as u64 > u64::MAX
            - self.session.revision() {
            return false;
        }
        let ghost tree = self.parsed();
        let mut n: usize = 0;
        while n < changes.len()
            invariant
                n <= changes@.len(),
                limit == u32::MAX,
                tree == self.parsed(),
                tree.wf(),
                fits(self.content()),
                tree.rev + changes@.len() <= u64::MAX,
                text@ == text_after_all(self.content(), self.units(), changes@, n as int),
                index.describes(text@),
                fits(text@),
                root_end == tree_after_all(
                    tree,
                    self.content(),
                    self.units(),
                    changes@,
                    n as int,
                ).nodes[0].span.end,
                forall|k: int|
                    0 <= k < n ==> #[trigger] step_ok(
                        tree,
                        self.content(),
                        self.units(),
                        changes@,
                        k,
                    ),
            decreases changes.len() - n,
        {
            let change = &changes[n];
            let (start, end) = change_bounds(text.as_str(), &index, self.encoding, change);
            let len: usize = byte_len(text.as_str());
            let inserted: usize = byte_len(change.text.as_str());
            let ghost now = tree_after_all(
                tree,
                self.content(),
                self.units(),
                changes@,
                n as int,
            );
            let ghost failed = !step_ok(tree, self.content(), self.units(), changes@, n as int);
            if !text.as_str().is_char_boundary(start) || !text.as_str().is_char_boundary(end) {
                assert(failed);
                return false;
            }
            proof {
                lemma_changes(tree, self.content(), self.units(), changes@, n as int);
                lemma_spliced_bytes(text@, start as int, end as int, change.text@);
                assert(crate::text::bytes_of(text@).take(start as int).len() == start);
                assert(crate::text::bytes_of(text@).skip(end as int).len() == len - end);
            }
            if inserted >= limit || start + (len - end) >= limit - inserted {
                assert(failed);
                return false;
            }
            let edit = Edit::replace(start, end, start + inserted);
            assert(edit == edit_for(text@, self.units(), *change));
            if root_end >= end && (root_end > start || start == end) && root_end - end > usize::MAX - (
            start + inserted) {
                assert(edit.end_after(root_end as int) > usize::MAX);
                assert(failed);
                return false;
            }
            assert(step_ok(tree, self.content(), self.units(), changes@, n as int));
            proof {
                lemma_change(now, text@, self.units(), *change);
            }
            root_end = edit.map_end(root_end);
            text = splice(text.as_str(), start, end, change.text.as_str());
            index = LineIndex::new(text.as_str());
            n = n + 1;
        }
        true
    }

    /// Applies changes to the text and the tree, without a run.
    fn edit_all(&mut self, version: i32, changes: &[ContentChange])
        requires
            old(self).wf(),
            old(self).accepts(changes@),
        ensures
            final(self).wf(),
            fits(final(self).content()),
            old(self).covered() ==> final(self).covered(),
            final(self).name() == old(self).name(),
            final(self).units() == old(self).units(),
            final(self).client_version() == version,
            final(self).content() == old(self).content_after(changes@),
            final(self).parsed() == old(self).tree_after(changes@),
    {
        let ghost before = *old(self);
        let ghost tree = before.parsed();
        let ghost encoding = before.units();
        let mut n: usize = 0;
        while n < changes.len()
            invariant
                n <= changes@.len(),
                before == *old(self),
                before.wf(),
                before.accepts(changes@),
                tree == before.parsed(),
                encoding == before.units(),
                self.encoding == encoding,
                self.uri@ == before.name(),
                self.index.describes(self.text@),
                self.text@ == text_after_all(before.content(), encoding, changes@, n as int),
                self.session@ == tree_after_all(
                    tree,
                    before.content(),
                    encoding,
                    changes@,
                    n as int,
                ),
            decreases changes.len() - n,
        {
            proof {
                lemma_changes(tree, before.content(), encoding, changes@, n as int);
                assert(step_ok(tree, before.content(), encoding, changes@, n as int));
            }
            let change = &changes[n];
            let (start, end) = change_bounds(
                self.text.as_str(),
                &self.index,
                self.encoding,
                change,
            );
            proof {
                lemma_change(self.session@, self.text@, encoding, *change);
            }
            let edit = Edit::replace(start, end, start + byte_len(change.text.as_str()));
            assert(edit == edit_for(self.text@, encoding, *change));
            self.session.edit(edit);
            let text = splice(self.text.as_str(), start, end, change.text.as_str());
            self.index = LineIndex::new(text.as_str());
            self.text = text;
            n = n + 1;
        }
        proof {
            lemma_changes(tree, before.content(), encoding, changes@, changes@.len() as int);
        }
        self.version = version;
    }

    /// Applies a `didChange` batch and runs the engine once.
    ///
    /// Events are applied in order, each interpreted against the text left
    /// by the previous one, per the LSP spec. A full-text event (`range ==
    /// None`) replaces the whole document; ranged events splice their text
    /// into the given range. Positions past the end of a line or document
    /// are clamped, matching common client behavior while typing.
    ///
    /// `version` becomes the document's new version and is returned by
    /// [`version`](Self::version); the parse tree sees one revision bump per
    /// applied event and a single run at the end.
    ///
    /// [`can_apply`](Self::can_apply) tells whether the changes are
    /// acceptable.
    pub fn apply_changes<E>(
        &mut self,
        engine: &Engine<C>,
        version: i32,
        changes: &[ContentChange],
        exec: &E,
        cancel: &CancelToken,
    ) -> (report: RunReport) where E: Executor
        requires
            old(self).wf(),
            old(self).accepts(changes@),
            forall|source: &str|
                source@ == old(self).content_after(changes@) ==> #[trigger] engine.takes(
                    source,
                    old(self).tree_after(changes@).nodes[0].span,
                ),
        ensures
            final(self).wf(),
            fits(final(self).content()),
            old(self).covered() ==> final(self).covered(),
            final(self).name() == old(self).name(),
            final(self).units() == old(self).units(),
            final(self).client_version() == version,
            final(self).content() == old(self).content_after(changes@),
            final(self).parsed().nodes[0].span == old(self).tree_after(changes@).nodes[0].span,
            exists|source: &str, rounds: Seq<RoundTrace<C>>|
                source@ == final(self).content() && #[trigger] engine.run_ok(
                    source,
                    old(self).tree_after(changes@),
                    rounds,
                    final(self).parsed(),
                    report,
                ) && engine.stop_ok(exec, cancel, rounds, report),
    {
        let ghost before = *old(self);
        self.edit_all(version, changes);
        let source = self.text.as_str();
        let ghost ready = self.session@;
        assert(engine.takes(source, before.tree_after(changes@).nodes[0].span));
        let report = self.session.run(engine, source, exec, cancel);
        proof {
            let rounds = choose|rounds: Seq<RoundTrace<C>>| #[trigger]
                engine.run_ok(source, ready, rounds, self.session@, report) && engine.stop_ok(
                    exec,
                    cancel,
                    rounds,
                    report,
                );
            assert(source@ == self.content() && engine.run_ok(
                source,
                before.tree_after(changes@),
                rounds,
                self.parsed(),
                report,
            ));
        }
        report
    }

    /// Applies a `didChange` batch and runs the engine once, one job after
    /// another; nothing cancels it.
    pub(crate) fn apply_changes_through(
        &mut self,
        engine: &Engine<C>,
        version: i32,
        changes: &[ContentChange],
    ) -> (report: RunReport)
        requires
            old(self).wf(),
            old(self).accepts(changes@),
            forall|source: &str|
                source@ == old(self).content_after(changes@) ==> #[trigger] engine.takes(
                    source,
                    old(self).tree_after(changes@).nodes[0].span,
                ),
        ensures
            final(self).wf(),
            fits(final(self).content()),
            old(self).covered() ==> final(self).covered(),
            final(self).name() == old(self).name(),
            final(self).units() == old(self).units(),
            final(self).client_version() == version,
            final(self).content() == old(self).content_after(changes@),
            final(self).parsed().nodes[0].span == old(self).tree_after(changes@).nodes[0].span,
            !report.cancelled,
            exists|source: &str, rounds: Seq<RoundTrace<C>>|
                source@ == final(self).content() && #[trigger] engine.run_ok(
                    source,
                    old(self).tree_after(changes@),
                    rounds,
                    final(self).parsed(),
                    report,
                ),
    {
        let ghost before = *old(self);
        self.edit_all(version, changes);
        let source = self.text.as_str();
        let ghost ready = self.session@;
        assert(engine.takes(source, before.tree_after(changes@).nodes[0].span));
        let report = self.session.run_through(engine, source);
        proof {
            let rounds = choose|rounds: Seq<RoundTrace<C>>| #[trigger]
                engine.run_ok(source, ready, rounds, self.session@, report);
            assert(source@ == self.content() && engine.run_ok(
                source,
                before.tree_after(changes@),
                rounds,
                self.parsed(),
                report,
            ));
        }
        report
    }
}

/// A text whose positions fit has few enough lines.
proof fn lemma_lines_fit(text: Seq<char>)
    requires
        fits(text),
    ensures
        crate::line_index::starts(crate::text::bytes_of(text)).len() <= u32::MAX,
{
    crate::line_index::lemma_starts(
        crate::text::bytes_of(text),
        crate::text::bytes_of(text).len() as int,
    );
}

/// A full-text change replaces the whole document.
pub proof fn law_full_change_replaces_text(
    text: Seq<char>,
    encoding: PositionEncoding,
    change: ContentChange,
)
    requires
        change.range is None,
    ensures
        text_after(text, encoding, change) == change.text@,
{
    let bytes = crate::text::bytes_of(text);
    let n = bytes.len() as int;
    assert(bytes.subrange(0, 0) =~= Seq::<u8>::empty());
    assert(bytes.subrange(n, n) =~= Seq::<u8>::empty());
    assert(text_after(text, encoding, change) =~= change.text@);
}

/// A change keeps the bytes before and after the range it replaces.
pub proof fn law_change_splices_bytes(
    text: Seq<char>,
    encoding: PositionEncoding,
    change: ContentChange,
)
    requires
        crate::text::on_boundary(text, change_start(text, encoding, change)),
        crate::text::on_boundary(text, change_end(text, encoding, change)),
    ensures
        crate::text::bytes_of(text_after(text, encoding, change)) == crate::text::bytes_of(
            text,
        ).take(change_start(text, encoding, change)) + crate::text::bytes_of(change.text@)
            + crate::text::bytes_of(text).skip(change_end(text, encoding, change)),
{
    lemma_bounds_ordered(text, encoding, change);
    lemma_spliced_bytes(
        text,
        change_start(text, encoding, change),
        change_end(text, encoding, change),
        change.text@,
    );
}

/// The tree's revision goes up by one per change.
pub proof fn law_one_revision_per_change<C>(document: Document<C>, changes: Seq<ContentChange>)
    requires
        document.wf(),
        document.accepts(changes),
    ensures
        document.tree_after(changes).rev == document.parsed().rev + changes.len(),
{
    lemma_changes(
        document.parsed(),
        document.content(),
        document.units(),
        changes,
        changes.len() as int,
    );
}

/// Positions in UTF-16 or UTF-32 never split a character: every change can be
/// applied, as long as the results stay small enough.
pub proof fn law_wide_positions_never_split(
    text: Seq<char>,
    encoding: PositionEncoding,
    change: ContentChange,
)
    requires
        !(encoding is Utf8),
    ensures
        crate::text::on_boundary(text, change_start(text, encoding, change)),
        crate::text::on_boundary(text, change_end(text, encoding, change)),
{
    let bytes = crate::text::bytes_of(text);
    vstd::utf8::encode_utf8_valid_utf8(text);
    vstd::utf8::is_char_boundary_start_end_of_seq(bytes);
    if let Some(range) = change.range {
        crate::line_index::law_wide_offset_is_boundary(text, range.start, encoding);
        crate::line_index::law_wide_offset_is_boundary(text, range.end, encoding);
    }
}

/// A range between the positions of two offsets that split no character stands
/// for exactly the bytes between them, on however many lines it lies: the change
/// keeps what is before the first and from the second on, puts its own text in
/// between, and amounts to the byte edit that does the same.
pub proof fn law_ranged_change_replaces_its_range(
    text: Seq<char>,
    encoding: PositionEncoding,
    change: ContentChange,
    a: int,
    b: int,
)
    requires
        fits(text),
        a <= b,
        crate::text::on_boundary(text, a),
        crate::text::on_boundary(text, b),
        change.range == Some(
            (Range {
                start: crate::line_index::position_at(text, a, encoding),
                end: crate::line_index::position_at(text, b, encoding),
            }),
        ),
    ensures
        change_start(text, encoding, change) == a,
        change_end(text, encoding, change) == b,
        crate::text::bytes_of(text_after(text, encoding, change)) == crate::text::bytes_of(
            text,
        ).subrange(0, a) + crate::text::bytes_of(change.text@) + crate::text::bytes_of(
            text,
        ).subrange(b, crate::text::bytes_of(text).len() as int),
        edit_for(text, encoding, change).start == a,
        edit_for(text, encoding, change).old_end == b,
        a + crate::text::bytes_of(change.text@).len() <= usize::MAX ==> edit_for(
            text,
            encoding,
            change,
        ).new_end == a + crate::text::bytes_of(change.text@).len(),
{
    let bytes = crate::text::bytes_of(text);
    crate::line_index::law_offset_round_trip(text, a, encoding);
    crate::line_index::law_offset_round_trip(text, b, encoding);
    lemma_spliced_bytes(text, a, b, change.text@);
    assert(bytes.subrange(0, a) =~= bytes.take(a));
    assert(bytes.subrange(b, bytes.len() as int) =~= bytes.skip(b));
}

/// A range that ends before it starts takes nothing out: the text of the change
/// goes in where the range starts.
pub proof fn law_inverted_range_inserts(
    text: Seq<char>,
    encoding: PositionEncoding,
    change: ContentChange,
    a: int,
    b: int,
)
    requires
        fits(text),
        b <= a,
        crate::text::on_boundary(text, a),
        crate::text::on_boundary(text, b),
        change.range == Some(
            (Range {
                start: crate::line_index::position_at(text, a, encoding),
                end: crate::line_index::position_at(text, b, encoding),
            }),
        ),
    ensures
        crate::text::bytes_of(text_after(text, encoding, change)) == crate::text::bytes_of(
            text,
        ).subrange(0, a) + crate::text::bytes_of(change.text@) + crate::text::bytes_of(
            text,
        ).subrange(a, crate::text::bytes_of(text).len() as int),
        edit_for(text, encoding, change).start == a,
        edit_for(text, encoding, change).old_end == a,
{
    let bytes = crate::text::bytes_of(text);
    crate::line_index::law_offset_round_trip(text, a, encoding);
    crate::line_index::law_offset_round_trip(text, b, encoding);
    lemma_spliced_bytes(text, a, a, change.text@);
    assert(bytes.subrange(0, a) =~= bytes.take(a));
    assert(bytes.subrange(a, bytes.len() as int) =~= bytes.skip(a));
}

/// The ends of a range in the protocol's terms are the positions of the ends of
/// the span, and stand for them where they split no character.
pub proof fn law_range_of_span(text: Seq<char>, span: Span, encoding: PositionEncoding)
    requires
        fits(text),
    ensures
        range_of(text, span, encoding).start == crate::line_index::position_at(
            text,
            span.start as int,
            encoding,
        ),
        range_of(text, span, encoding).end == crate::line_index::position_at(
            text,
            span.end as int,
            encoding,
        ),
        crate::text::on_boundary(text, span.start as int) ==> crate::line_index::offset_at(
            text,
            range_of(text, span, encoding).start,
            encoding,
        ) == span.start,
        crate::text::on_boundary(text, span.end as int) ==> crate::line_index::offset_at(
            text,
            range_of(text, span, encoding).end,
            encoding,
        ) == span.end,
{
    if crate::text::on_boundary(text, span.start as int) {
        crate::line_index::law_offset_round_trip(text, span.start as int, encoding);
    }
    if crate::text::on_boundary(text, span.end as int) {
        crate::line_index::law_offset_round_trip(text, span.end as int, encoding);
    }
}

/// Applying a batch is applying its changes one after the other: each to the
/// text that those before it left, and the tree likewise.
pub proof fn law_batches_apply_in_turn<C>(
    tree: TreeModel<C>,
    text: Seq<char>,
    encoding: PositionEncoding,
    changes: Seq<ContentChange>,
    n: int,
)
    requires
        0 <= n < changes.len(),
    ensures
        text_after_all(text, encoding, changes, 0) == text,
        tree_after_all(tree, text, encoding, changes, 0) == tree,
        text_after_all(text, encoding, changes, n + 1) == text_after(
            text_after_all(text, encoding, changes, n),
            encoding,
            changes[n],
        ),
        tree_after_all(tree, text, encoding, changes, n + 1) == tree_after_all(
            tree,
            text,
            encoding,
            changes,
            n,
        ).edited(edit_for(text_after_all(text, encoding, changes, n), encoding, changes[n])),
{
}

/// A change whose positions split no character is accepted by a document whose
/// tree covers its text, as long as the text stays small enough for its
/// positions to fit the protocol's integers.
pub proof fn law_whole_character_changes_are_accepted<C>(
    document: Document<C>,
    change: ContentChange,
)
    requires
        document.wf(),
        document.covered(),
        crate::text::bytes_of(document.content()).len() < u32::MAX,
        document.parsed().rev < u64::MAX,
        crate::text::on_boundary(
            document.content(),
            change_start(document.content(), document.units(), change),
        ),
        crate::text::on_boundary(
            document.content(),
            change_end(document.content(), document.units(), change),
        ),
        crate::text::bytes_of(text_after(document.content(), document.units(), change)).len()
            < u32::MAX,
    ensures
        document.accepts(seq![change]),
{
    let text = document.content();
    let units = document.units();
    let changes = seq![change];
    lemma_bounds_ordered(text, units, change);
    let start = change_start(text, units, change);
    let end = change_end(text, units, change);
    let bytes = crate::text::bytes_of(text);
    lemma_spliced_bytes(text, start, end, change.text@);
    assert(bytes.take(start).len() == start);
    assert(bytes.skip(end).len() == bytes.len() - end);
    assert forall|n: int| 0 <= n < changes.len() implies #[trigger] step_ok(
        document.parsed(),
        text,
        units,
        changes,
        n,
    ) by {
        assert(text_after_all(text, units, changes, 0) == text);
        assert(tree_after_all(document.parsed(), text, units, changes, 0) == document.parsed());
    }
}

/// The changes that a document accepts: each in turn starts and ends where it
/// splits no character of the text before it and leaves a text whose positions
/// fit the protocol's integers, and there are no more of them than revisions.
pub proof fn law_accepted_changes<C>(document: Document<C>, changes: Seq<ContentChange>)
    requires
        document.wf(),
        document.covered(),
    ensures
        document.accepts(changes) == ({
            let text = document.content();
            let units = document.units();
            &&& crate::text::bytes_of(text).len() < u32::MAX
            &&& document.parsed().rev + changes.len() <= u64::MAX
            &&& forall|n: int|
                0 <= n < changes.len() ==> {
                    let before = #[trigger] text_after_all(text, units, changes, n);
                    &&& crate::text::on_boundary(before, change_start(before, units, changes[n]))
                    &&& crate::text::on_boundary(before, change_end(before, units, changes[n]))
                    &&& crate::text::bytes_of(text_after(before, units, changes[n])).len()
                        < u32::MAX
                }
        }),
{
    let text = document.content();
    let units = document.units();
    let tree = document.parsed();
    if document.accepts(changes) {
        assert forall|n: int| 0 <= n < changes.len() implies ({
            let before = #[trigger] text_after_all(text, units, changes, n);
            &&& crate::text::on_boundary(before, change_start(before, units, changes[n]))
            &&& crate::text::on_boundary(before, change_end(before, units, changes[n]))
            &&& crate::text::bytes_of(text_after(before, units, changes[n])).len() < u32::MAX
        }) by {
            assert(step_ok(tree, text, units, changes, n));
        }
    }
    let fine = {
        &&& crate::text::bytes_of(text).len() < u32::MAX
        &&& tree.rev + changes.len() <= u64::MAX
        &&& forall|n: int|
            0 <= n < changes.len() ==> {
                let before = #[trigger] text_after_all(text, units, changes, n);
                &&& crate::text::on_boundary(before, change_start(before, units, changes[n]))
                &&& crate::text::on_boundary(before, change_end(before, units, changes[n]))
                &&& crate::text::bytes_of(text_after(before, units, changes[n])).len() < u32::MAX
            }
    };
    if fine {
        lemma_all_accepted(tree, text, units, changes, changes.len() as int);
        assert(document.accepts(changes));
    }
}

/// Changes that split no character and keep the text small can be applied one
/// after the other to a tree that covers the text.
proof fn lemma_all_accepted<C>(
    tree: TreeModel<C>,
    text: Seq<char>,
    units: PositionEncoding,
    changes: Seq<ContentChange>,
    n: int,
)
    requires
        tree.wf(),
        fits(text),
        tree.nodes[0].span.start == 0,
        tree.nodes[0].span.end == crate::text::bytes_of(text).len(),
        tree.rev + changes.len() <= u64::MAX,
        0 <= n <= changes.len(),
        forall|k: int|
            0 <= k < changes.len() ==> {
                let before = #[trigger] text_after_all(text, units, changes, k);
                &&& crate::text::on_boundary(before, change_start(before, units, changes[k]))
                &&& crate::text::on_boundary(before, change_end(before, units, changes[k]))
                &&& crate::text::bytes_of(text_after(before, units, changes[k])).len() < u32::MAX
            },
    ensures
        forall|k: int| 0 <= k < n ==> #[trigger] step_ok(tree, text, units, changes, k),
    decreases n,
{
    if n > 0 {
        lemma_all_accepted(tree, text, units, changes, n - 1);
        lemma_changes(tree, text, units, changes, n - 1);
        let before = text_after_all(text, units, changes, n - 1);
        let change = changes[n - 1];
        let start = change_start(before, units, change);
        let end = change_end(before, units, change);
        let bytes = crate::text::bytes_of(before);
        lemma_bounds_ordered(before, units, change);
        lemma_spliced_bytes(before, start, end, change.text@);
        assert(bytes.take(start).len() == start);
        assert(bytes.skip(end).len() == bytes.len() - end);
        assert(step_ok(tree, text, units, changes, n - 1));
    }
}

/// Wherever the positions of a change lie, it starts at the offset that the
/// first stands for, and stops at the offset that the second stands for or, if
/// that is earlier, where it starts. A change without a range is one of the
/// whole text.
pub proof fn law_bounds_of_changes(
    text: Seq<char>,
    encoding: PositionEncoding,
    change: ContentChange,
)
    ensures
        change.range is None ==> change_start(text, encoding, change) == 0 && change_end(
            text,
            encoding,
            change,
        ) == crate::text::bytes_of(text).len(),
        change.range matches Some(range) ==> {
            let first = crate::line_index::offset_at(text, range.start, encoding);
            let second = crate::line_index::offset_at(text, range.end, encoding);
            &&& change_start(text, encoding, change) == first
            &&& change_end(text, encoding, change) == vstd::math::max(first, second)
        },
        change_start(text, encoding, change) + crate::text::bytes_of(change.text@).len()
            <= usize::MAX && 0 <= change_start(text, encoding, change) <= change_end(
            text,
            encoding,
            change,
        ) <= usize::MAX ==> {
            let edit = edit_for(text, encoding, change);
            &&& edit.start == change_start(text, encoding, change)
            &&& edit.old_end == change_end(text, encoding, change)
            &&& edit.new_end == change_start(text, encoding, change) + crate::text::bytes_of(
                change.text@,
            ).len()
        },
{
}

} // verus!
