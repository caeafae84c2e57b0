//! The builder-shaped [`Language`] implementation for the common case.

use crate::diagnostics::FailedNode;
use crate::document::Document;
use crate::encoding::PositionEncoding;
use crate::engine::Engine;
use crate::hooks::{
    CompletionFn, DefinitionFn, DescribeFn, DiagnosticFn, HoverFn, LabelFn, NodeFn, NodeLabel,
    OffsetFn, SymbolsFn,
};
use crate::language::Language;
use crate::lsp::{Diagnostic, DocumentSymbol, Hover, HoverContents, Location, MarkedString};
use crate::model::TreeModel;
use crate::node::NodeId;
use vstd::prelude::*;

verus! {

/// A [`Language`] built from closures.
///
/// For the common server you never implement the [`Language`] trait;
/// describe the language and hand the builder to the server loop:
///
/// ```
/// use increparse::{Diagnostic, Engine, NodeLabel, SimpleLanguage};
///
/// # #[derive(Clone, Debug, PartialEq, Eq)]
/// # enum Ctx { File }
/// # fn build(engine: Engine<Ctx>) {
/// let language = SimpleLanguage::new(engine, Ctx::File)
///     .diagnostic_fn(|_doc, _node| {
///         Some(Diagnostic { message: "could not parse".into(), ..Diagnostic::default() })
///     })
///     .label_fn(|_ctx| Some(NodeLabel::new("region")));
/// # let _ = language;
/// # }
/// ```
#[verifier::reject_recursive_types(C)]
pub struct SimpleLanguage<C> {
    engine: Engine<C>,
    root_ctx: C,
    encoding: PositionEncoding,
    diagnostic_fn: Option<DiagnosticFn<C>>,
    symbols_fn: Option<SymbolsFn<C>>,
    label_fn: Option<LabelFn<C>>,
    describe_fn: Option<DescribeFn<C>>,
    hover_fn: Option<HoverFn<C>>,
    definition_fn: Option<DefinitionFn<C>>,
    completion_fn: Option<CompletionFn<C>>,
}

/// What a [`SimpleLanguage`] is made of.
#[verifier::reject_recursive_types(C)]
pub struct SimpleModel<C> {
    /// The engine.
    pub engine: Engine<C>,
    /// The root context.
    pub root_ctx: C,
    /// The position encoding.
    pub encoding: PositionEncoding,
    /// How failing regions become diagnostics.
    pub diagnostic: Option<DiagnosticFn<C>>,
    /// How documents are outlined.
    pub symbols: Option<SymbolsFn<C>>,
    /// How nodes are named.
    pub label: Option<LabelFn<C>>,
    /// How nodes are described.
    pub describe: Option<DescribeFn<C>>,
    /// What to show at an offset.
    pub hover: Option<HoverFn<C>>,
    /// Where what stands at an offset is defined.
    pub definition: Option<DefinitionFn<C>>,
    /// How to complete what stands at an offset.
    pub completion: Option<CompletionFn<C>>,
}

impl<C> View for SimpleLanguage<C> {
    type V = SimpleModel<C>;

    closed spec fn view(&self) -> SimpleModel<C> {
        SimpleModel {
            engine: self.engine,
            root_ctx: self.root_ctx,
            encoding: self.encoding,
            diagnostic: self.diagnostic_fn,
            symbols: self.symbols_fn,
            label: self.label_fn,
            describe: self.describe_fn,
            hover: self.hover_fn,
            definition: self.definition_fn,
            completion: self.completion_fn,
        }
    }
}

impl<C: Clone + PartialEq + Send + 'static> SimpleLanguage<C> {
    /// Creates a builder over an engine and a root context.
    pub fn new(engine: Engine<C>, root_ctx: C) -> (language: Self)
        ensures
            language@ == (SimpleModel {
                engine,
                root_ctx,
                encoding: PositionEncoding::Utf16,
                diagnostic: None,
                symbols: None,
                label: None,
                describe: None,
                hover: None,
                definition: None,
                completion: None,
            }),
    {
        Self {
            engine,
            root_ctx,
            encoding: PositionEncoding::Utf16,
            diagnostic_fn: None,
            symbols_fn: None,
            label_fn: None,
            describe_fn: None,
            hover_fn: None,
            definition_fn: None,
            completion_fn: None,
        }
    }

    /// Sets the negotiated position encoding (default UTF-16).
    pub fn encoding(self, encoding: PositionEncoding) -> (language: Self)
        ensures
            language@ == (SimpleModel { encoding, ..self@ }),
    {
        let mut language = self;
        language.encoding = encoding;
        language
    }

    /// How a failing region becomes a diagnostic; `None` stays silent.
    /// Diagnostics returned with an empty range are filled in from the
    /// node's span.
    pub fn diagnostic_fn<F>(self, f: F) -> (language: Self) where
        F: Fn(&Document<C>, &FailedNode<'_, C>) -> Option<Diagnostic> + Send + Sync + 'static,

        requires
            forall|doc: &Document<C>, node: &FailedNode<'_, C>|
                doc.presentable() ==> #[trigger] call_requires(f, (doc, node)),
        ensures
            language@ == (SimpleModel { diagnostic: language@.diagnostic, ..self@ }),
            language@.diagnostic is Some,
            (language@.diagnostic->0).holds(&f),
    {
        let mut language = self;
        language.diagnostic_fn = Some(DiagnosticFn::new(f));
        language
    }

    /// Full-control outline symbols. Mutually exclusive in spirit with
    /// [`label_fn`](Self::label_fn) — when both are set, this wins.
    pub fn symbols_fn<F>(self, f: F) -> (language: Self) where
        F: Fn(&Document<C>) -> Vec<DocumentSymbol> + Send + Sync + 'static,

        requires
            forall|doc: &Document<C>|
                doc.presentable() ==> #[trigger] call_requires(f, (doc,)),
        ensures
            language@ == (SimpleModel { symbols: language@.symbols, ..self@ }),
            language@.symbols is Some,
            (language@.symbols->0).holds(&f),
    {
        let mut language = self;
        language.symbols_fn = Some(SymbolsFn::new(f));
        language
    }

    /// Names tree nodes; every named node becomes an outline symbol with
    /// the node's range — symbols without writing a tree walk.
    pub fn label_fn<F>(self, f: F) -> (language: Self) where
        F: Fn(&C) -> Option<NodeLabel> + Send + Sync + 'static,

        requires
            forall|ctx: &C| #[trigger] call_requires(f, (ctx,)),
        ensures
            language@ == (SimpleModel { label: language@.label, ..self@ }),
            language@.label is Some,
            (language@.label->0).holds(&f),
    {
        let mut language = self;
        language.label_fn = Some(NodeFn::new(f));
        language
    }

    /// Describes tree nodes; hovering shows the description of the deepest
    /// node under the pointer, with the node's range.
    pub fn describe_fn<F>(self, f: F) -> (language: Self) where
        F: Fn(&C) -> Option<String> + Send + Sync + 'static,

        requires
            forall|ctx: &C| #[trigger] call_requires(f, (ctx,)),
        ensures
            language@ == (SimpleModel { describe: language@.describe, ..self@ }),
            language@.describe is Some,
            (language@.describe->0).holds(&f),
    {
        let mut language = self;
        language.describe_fn = Some(NodeFn::new(f));
        language
    }

    /// Full-control hover contents for a byte offset. When
    /// [`describe_fn`](Self::describe_fn) is set too, this wins.
    pub fn hover_fn<F>(self, f: F) -> (language: Self) where
        F: Fn(&Document<C>, usize) -> Option<Hover> + Send + Sync + 'static,

        requires
            forall|doc: &Document<C>, offset: usize|
                doc.presentable() ==> #[trigger] call_requires(f, (doc, offset)),
        ensures
            language@ == (SimpleModel { hover: language@.hover, ..self@ }),
            language@.hover is Some,
            (language@.hover->0).holds(&f),
    {
        let mut language = self;
        language.hover_fn = Some(OffsetFn::new(f));
        language
    }

    /// Where what stands at a byte offset is defined.
    pub fn definition_fn<F>(self, f: F) -> (language: Self) where
        F: Fn(&Document<C>, usize) -> Option<Vec<Location>> + Send + Sync + 'static,

        requires
            forall|doc: &Document<C>, offset: usize|
                doc.presentable() ==> #[trigger] call_requires(f, (doc, offset)),
        ensures
            language@ == (SimpleModel { definition: language@.definition, ..self@ }),
            language@.definition is Some,
            (language@.definition->0).holds(&f),
    {
        let mut language = self;
        language.definition_fn = Some(OffsetFn::new(f));
        language
    }

    /// The completions at a byte offset.
    pub fn completion_fn<F>(self, f: F) -> (language: Self) where
        F: Fn(&Document<C>, usize) -> Option<lsp_types::CompletionResponse> + Send + Sync + 'static,

        requires
            forall|doc: &Document<C>, offset: usize|
                doc.presentable() ==> #[trigger] call_requires(f, (doc, offset)),
        ensures
            language@ == (SimpleModel { completion: language@.completion, ..self@ }),
            language@.completion is Some,
            (language@.completion->0).holds(&f),
    {
        let mut language = self;
        language.completion_fn = Some(OffsetFn::new(f));
        language
    }
}

/// `label` may give `labels` to the nodes `ids`.
pub open spec fn labelled<C>(
    label: &LabelFn<C>,
    t: TreeModel<C>,
    ids: Seq<NodeId>,
    labels: Seq<Option<NodeLabel>>,
) -> bool {
    &&& labels.len() == ids.len()
    &&& forall|k: int|
        0 <= k < ids.len() ==> #[trigger] label.may_return(&t.at(ids[k]).ctx, labels[k])
}

/// The symbol that a label makes of the node `id`.
pub open spec fn symbol_for<C>(
    t: TreeModel<C>,
    id: NodeId,
    label: NodeLabel,
    text: Seq<char>,
    encoding: PositionEncoding,
) -> DocumentSymbol {
    let range = crate::document::range_of(text, t.at(id).span, encoding);
    DocumentSymbol {
        name: label.name,
        detail: label.detail,
        kind: label.kind,
        range,
        selection_range: range,
        children: None,
        tags: None,
        deprecated: None,
    }
}

/// The outline that `labels` of the nodes `ids` come to: one symbol for each
/// named node, in order.
pub open spec fn outlined<C>(
    t: TreeModel<C>,
    ids: Seq<NodeId>,
    labels: Seq<Option<NodeLabel>>,
    text: Seq<char>,
    encoding: PositionEncoding,
) -> Seq<DocumentSymbol>
    decreases ids.len(),
{
    if ids.len() == 0 {
        Seq::empty()
    } else {
        let rest = outlined(t, ids.drop_last(), labels.drop_last(), text, encoding);
        match labels.last() {
            Some(label) => rest.push(symbol_for(t, ids.last(), label, text, encoding)),
            None => rest,
        }
    }
}

/// `symbols` is an outline of `doc` by `label`: its live nodes, in creation
/// order.
pub open spec fn outline_of<C>(
    label: &LabelFn<C>,
    doc: &Document<C>,
    symbols: Seq<DocumentSymbol>,
) -> bool {
    exists|labels: Seq<Option<NodeLabel>>| #[trigger]
        labelled(label, doc.parsed(), doc.parsed().live_ids(), labels) && symbols == outlined(
            doc.parsed(),
            doc.parsed().live_ids(),
            labels,
            doc.content(),
            doc.units(),
        )
}

/// `hover` is what `describe` may show for the deepest node of `doc` at
/// `offset`.
pub open spec fn described<C>(
    describe: &DescribeFn<C>,
    doc: &Document<C>,
    offset: usize,
    hover: Option<Hover>,
) -> bool {
    ||| hover is None && forall|d: int| #[trigger]
        doc.parsed().live(d) ==> !doc.parsed().nodes[d].span.has_offset(offset as int)
    ||| exists|d: int, answer: Option<String>| #[trigger]
        describe.may_return(&doc.parsed().nodes[d].ctx, answer) && doc.parsed().deepest_at(
            offset as int,
            d,
        ) && hover == match answer {
            Some(contents) => Some(
                Hover {
                    contents: HoverContents::Scalar(MarkedString::Text(contents)),
                    range: Some(
                        crate::document::range_of(
                            doc.content(),
                            doc.parsed().nodes[d].span,
                            doc.units(),
                        ),
                    ),
                },
            ),
            None => None,
        }
}

/// The outline of `doc` by `label`.
fn outline<C: Clone + PartialEq + Send + 'static>(label: &LabelFn<C>, doc: &Document<C>) -> (
    symbols: Vec<DocumentSymbol>)
    requires
        doc.presentable(),
    ensures
        outline_of(label, doc, symbols@),
{
    let tree = doc.session().tree();
    let ids = tree.nodes();
    let ghost t = doc.parsed();
    let ghost mut labels: Seq<Option<NodeLabel>> = Seq::empty();
    let mut symbols: Vec<DocumentSymbol> = Vec::new();
    let mut i: usize = 0;
    while i < ids.len()
        invariant
            doc.presentable(),
            t == doc.parsed(),
            t == tree@,
            ids@ == t.live_ids(),
            i <= ids@.len(),
            labelled(label, t, ids@.take(i as int), labels),
            symbols@ == outlined(t, ids@.take(i as int), labels, doc.content(), doc.units()),
        decreases ids.len() - i,
    {
        let id = ids[i];
        proof {
            crate::model::lemma_ids_where(
                t,
                t.nodes.len() as int,
                |node: crate::model::NodeModel<C>| node.alive,
            );
            assert(ids@.take(i + 1).drop_last() =~= ids@.take(i as int));
            assert(ids@.take(i + 1).last() == id);
        }
        let answer = label.call(tree.ctx(id));
        proof {
            let given = labels;
            labels = labels.push(answer);
            assert(labels.drop_last() =~= given);
            assert forall|k: int| 0 <= k < i + 1 implies #[trigger] label.may_return(
                &t.at(ids@.take(i + 1)[k]).ctx,
                labels[k],
            ) by {
                if k < i {
                    assert(ids@.take(i + 1)[k] == ids@.take(i as int)[k]);
                    assert(label.may_return(&t.at(ids@.take(i as int)[k]).ctx, given[k]));
                }
            }
        }
        if let Some(found) = answer {
            let range = doc.range(tree.span(id));
            symbols.push(
                DocumentSymbol {
                    name: found.name,
                    detail: found.detail,
                    kind: found.kind,
                    range,
                    selection_range: range,
                    children: None,
                    tags: None,
                    deprecated: None,
                },
            );
        }
        i = i + 1;
    }
    assert(ids@.take(ids@.len() as int) =~= ids@);
    symbols
}

/// What `describe` shows for the deepest node of `doc` at `offset`.
fn description<C: Clone + PartialEq + Send + 'static>(
    describe: &DescribeFn<C>,
    doc: &Document<C>,
    offset: usize,
) -> (hover: Option<Hover>)
    requires
        doc.presentable(),
    ensures
        described(describe, doc, offset, hover),
{
    let tree = doc.session().tree();
    match tree.node_at(offset) {
        Some(id) => {
            let answer = describe.call(tree.ctx(id));
            assert(describe.may_return(&doc.parsed().nodes[id.0 as int].ctx, answer));
            match answer {
                Some(contents) => Some(
                    Hover {
                        contents: HoverContents::Scalar(MarkedString::Text(contents)),
                        range: Some(doc.range(tree.span(id))),
                    },
                ),
                None => None,
            }
        },
        None => None,
    }
}

/// `C` must additionally be `Sync` because the stored closures accept
/// `&C` from any thread.
impl<C: Clone + PartialEq + Send + Sync + 'static> Language<C> for SimpleLanguage<C> {
    fn supports_symbols(&self) -> (supported: bool)
        ensures
            supported == (self@.symbols is Some || self@.label is Some),
    {
        self.symbols_fn.is_some() || self.label_fn.is_some()
    }

    fn engine(&self) -> (engine: &Engine<C>)
        ensures
            *engine == self@.engine,
    {
        &self.engine
    }

    fn root_ctx(&self) -> (ctx: C)
        ensures
            cloned(self@.root_ctx, ctx),
    {
        self.root_ctx.clone()
    }

    fn encoding(&self) -> (encoding: PositionEncoding)
        ensures
            encoding == self@.encoding,
    {
        self.encoding
    }

    fn diagnostic(&self, doc: &Document<C>, node: FailedNode<'_, C>) -> (answer: Option<Diagnostic>)
        ensures
            match self@.diagnostic {
                Some(f) => f.may_return(doc, &node, answer),
                None => answer is None,
            },
    {
        match &self.diagnostic_fn {
            Some(f) => f.call(doc, &node),
            None => None,
        }
    }

    fn symbols(&self, doc: &Document<C>) -> (symbols: Vec<DocumentSymbol>)
        ensures
            match (self@.symbols, self@.label) {
                (Some(f), _) => f.may_return(doc, symbols),
                (None, Some(label)) => outline_of(&label, doc, symbols@),
                (None, None) => symbols@.len() == 0,
            },
    {
        if let Some(f) = &self.symbols_fn {
            return f.call(doc);
        }
        if let Some(label) = &self.label_fn {
            return outline(label, doc);
        }
        Vec::new()
    }

    fn supports_hover(&self) -> (supported: bool)
        ensures
            supported == (self@.hover is Some || self@.describe is Some),
    {
        self.hover_fn.is_some() || self.describe_fn.is_some()
    }

    fn supports_definition(&self) -> (supported: bool)
        ensures
            supported == self@.definition is Some,
    {
        self.definition_fn.is_some()
    }

    fn supports_completion(&self) -> (supported: bool)
        ensures
            supported == self@.completion is Some,
    {
        self.completion_fn.is_some()
    }

    fn hover(&self, doc: &Document<C>, offset: usize) -> (hover: Option<Hover>)
        ensures
            match (self@.hover, self@.describe) {
                (Some(f), _) => f.may_return(doc, offset, hover),
                (None, Some(describe)) => described(&describe, doc, offset, hover),
                (None, None) => hover is None,
            },
    {
        if let Some(f) = &self.hover_fn {
            return f.call(doc, offset);
        }
        if let Some(describe) = &self.describe_fn {
            return description(describe, doc, offset);
        }
        None
    }

    fn definition(&self, doc: &Document<C>, offset: usize) -> (locations: Option<Vec<Location>>)
        ensures
            match self@.definition {
                Some(f) => f.may_return(doc, offset, locations),
                None => locations is None,
            },
    {
        match &self.definition_fn {
            Some(f) => f.call(doc, offset),
            None => None,
        }
    }

    fn completion(&self, doc: &Document<C>, offset: usize) -> (completions: Option<
        lsp_types::CompletionResponse,
    >)
        ensures
            match self@.completion {
                Some(f) => f.may_return(doc, offset, completions),
                None => completions is None,
            },
    {
        match &self.completion_fn {
            Some(f) => f.call(doc, offset),
            None => None,
        }
    }
}

/// A server can run the language on every text if the passes of its engine
/// take every region.
pub proof fn law_parses_what_its_engine_takes<C: Clone + PartialEq + Send + Sync + 'static>(
    language: &SimpleLanguage<C>,
)
    requires
        forall|source: &str, root: crate::span::Span| #[trigger]
            language@.engine.takes(source, root),
    ensures
        crate::language::parses_anything(language),
{
}

/// The outline has one symbol, in order, for each node that was given a label:
/// with the name, the detail and the kind of the label, from where the node
/// starts to where it ends.
pub proof fn law_labels_make_the_outline<C>(
    t: TreeModel<C>,
    ids: Seq<NodeId>,
    labels: Seq<Option<NodeLabel>>,
    text: Seq<char>,
    encoding: PositionEncoding,
) -> (from: Seq<int>)
    requires
        ids.len() == labels.len(),
    ensures
        from.len() == outlined(t, ids, labels, text, encoding).len(),
        forall|i: int, j: int| 0 <= i < j < from.len() ==> from[i] < from[j],
        forall|k: int| 0 <= k < labels.len() ==> (#[trigger] labels[k] is Some) == from.contains(k),
        forall|i: int|
            0 <= i < from.len() ==> 0 <= #[trigger] from[i] < labels.len() && labels[from[i]] is Some,
        forall|i: int|
            #![trigger from[i]]
            #![trigger outlined(t, ids, labels, text, encoding)[i]]
            0 <= i < from.len() ==> {
                let symbol = outlined(t, ids, labels, text, encoding)[i];
                let label = labels[from[i]]->0;
                let span = t.nodes[ids[from[i]].0 as int].span;
                &&& symbol.name == label.name
                &&& symbol.detail == label.detail
                &&& symbol.kind == label.kind
                &&& symbol.range.start == crate::line_index::position_at(
                    text,
                    span.start as int,
                    encoding,
                )
                &&& symbol.range.end == crate::line_index::position_at(
                    text,
                    span.end as int,
                    encoding,
                )
                &&& symbol.selection_range.start == symbol.range.start
                &&& symbol.selection_range.end == symbol.range.end
                &&& symbol.children is None && symbol.tags is None && symbol.deprecated is None
            },
    decreases ids.len(),
{
    if ids.len() == 0 {
        Seq::empty()
    } else {
        let front = law_labels_make_the_outline(
            t,
            ids.drop_last(),
            labels.drop_last(),
            text,
            encoding,
        );
        let last = ids.len() - 1;
        let from = if labels.last() is Some {
            front.push(last)
        } else {
            front
        };
        assert forall|k: int| 0 <= k < labels.len() implies (#[trigger] labels[k] is Some)
            == from.contains(k) by {
            if k < last {
                assert(labels.drop_last()[k] == labels[k]);
                if front.contains(k) {
                    let i = choose|i: int| 0 <= i < front.len() && front[i] == k;
                    assert(from[i] == k);
                }
            } else {
                if labels[k] is Some {
                    assert(from[from.len() - 1] == k);
                }
            }
            if from.contains(k) {
                let i = choose|i: int| 0 <= i < from.len() && from[i] == k;
                if i < front.len() {
                    assert(front[i] == k);
                    assert(front.contains(k));
                }
            }
        }
        assert forall|i: int| 0 <= i < front.len() implies from[i] == front[i] && labels[front[i]]
            == labels.drop_last()[front[i]] && ids[front[i]] == ids.drop_last()[front[i]] by {
            assert(0 <= front[i] < last);
        }
        from
    }
}

/// What is shown at an offset is what the language has to say of the context of
/// a node that covers it, none below which covers it too, with the node's range;
/// and nothing where no node covers it or there is nothing to say.
pub proof fn law_description_is_of_the_innermost_node<C>(
    describe: &DescribeFn<C>,
    doc: &Document<C>,
    offset: usize,
    hover: Option<Hover>,
)
    requires
        doc.wf(),
        described(describe, doc, offset, hover),
    ensures
        hover matches Some(hover) ==> exists|d: int|
            {
                let span = doc.parsed().nodes[d].span;
                &&& #[trigger] doc.parsed().live(d)
                &&& span.start <= offset && offset < span.end
                &&& forall|e: int| #[trigger]
                    doc.parsed().live(e) && doc.parsed().below(d, e) ==> !(
                    doc.parsed().nodes[e].span.start <= offset && offset
                        < doc.parsed().nodes[e].span.end)
                &&& hover.contents matches HoverContents::Scalar(MarkedString::Text(words))
                &&& describe.may_return(&doc.parsed().nodes[d].ctx, Some(words))
                &&& hover.range matches Some(range)
                &&& range.start == crate::line_index::position_at(
                    doc.content(),
                    span.start as int,
                    doc.units(),
                )
                &&& range.end == crate::line_index::position_at(
                    doc.content(),
                    span.end as int,
                    doc.units(),
                )
            },
        hover is None ==> (forall|d: int| #[trigger]
            doc.parsed().live(d) ==> !(doc.parsed().nodes[d].span.start <= offset && offset
                < doc.parsed().nodes[d].span.end)) || exists|d: int|
            #![trigger doc.parsed().live(d)]
            doc.parsed().live(d) && doc.parsed().nodes[d].span.start <= offset && offset
                < doc.parsed().nodes[d].span.end && describe.may_return(
                &doc.parsed().nodes[d].ctx,
                None,
            ),
{
    let t = doc.parsed();
    if !(hover is None && forall|d: int| #[trigger]
        t.live(d) ==> !t.nodes[d].span.has_offset(offset as int)) {
        let (d, answer) = choose|d: int, answer: Option<String>| #[trigger]
            describe.may_return(&t.nodes[d].ctx, answer) && t.deepest_at(offset as int, d) && hover
                == match answer {
                Some(contents) => Some(
                    Hover {
                        contents: HoverContents::Scalar(MarkedString::Text(contents)),
                        range: Some(
                            crate::document::range_of(doc.content(), t.nodes[d].span, doc.units()),
                        ),
                    },
                ),
                None => None,
            };
        assert(t.live(d));
        assert forall|e: int| #[trigger] t.live(e) && t.below(d, e) implies !(
        t.nodes[e].span.start <= offset && offset < t.nodes[e].span.end) by {
            crate::model::law_levels_grow_downwards(t, d, e);
        }
    }
}

/// The outline by labels is of the nodes of the tree, in the order in which they
/// were made: each is offered to the labelling, by its context, once.
pub proof fn law_every_node_is_offered_a_label<C>(
    label: &LabelFn<C>,
    doc: &Document<C>,
    symbols: Seq<DocumentSymbol>,
) -> (ids: Seq<NodeId>)
    requires
        doc.wf(),
        outline_of(label, doc, symbols),
    ensures
        forall|d: int|
            #![trigger doc.parsed().nodes[d]]
            0 <= d < doc.parsed().nodes.len() ==> ids.contains(NodeId(d as usize))
                == doc.parsed().nodes[d].alive,
        forall|j: int, k: int| 0 <= j < k < ids.len() ==> (#[trigger] ids[j]).0 < (#[trigger] ids[k]).0,
        exists|labels: Seq<Option<NodeLabel>>|
            {
                &&& symbols == #[trigger] outlined(
                    doc.parsed(),
                    ids,
                    labels,
                    doc.content(),
                    doc.units(),
                )
                &&& labels.len() == ids.len()
                &&& forall|k: int|
                    0 <= k < ids.len() ==> #[trigger] label.may_return(
                        &doc.parsed().nodes[ids[k].0 as int].ctx,
                        labels[k],
                    )
            },
{
    let t = doc.parsed();
    let ids = t.live_ids();
    let alive = |node: crate::model::NodeModel<C>| node.alive;
    crate::model::lemma_ids_where(t, t.nodes.len() as int, alive);
    assert forall|d: int| #![trigger t.nodes[d]] 0 <= d < t.nodes.len() implies ids.contains(
        NodeId(d as usize),
    ) == t.nodes[d].alive by {
        if ids.contains(NodeId(d as usize)) {
            let k = choose|k: int| 0 <= k < ids.len() && ids[k] == NodeId(d as usize);
            assert(alive(t.at(ids[k])));
        }
        if alive(t.nodes[d]) {
        }
    }
    let labels = choose|labels: Seq<Option<NodeLabel>>| #[trigger]
        labelled(label, t, ids, labels) && symbols == outlined(
            t,
            ids,
            labels,
            doc.content(),
            doc.units(),
        );
    assert(symbols == outlined(t, ids, labels, doc.content(), doc.units()));
    assert forall|k: int| 0 <= k < ids.len() implies #[trigger] label.may_return(
        &t.nodes[ids[k].0 as int].ctx,
        labels[k],
    ) by {
        assert(label.may_return(&t.at(ids[k]).ctx, labels[k]));
    }
    ids
}

} // verus!
