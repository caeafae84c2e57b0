//! The server skeleton: everything a language server decides, apart from
//! reading and writing messages.
//!
//! Document bookkeeping, change translation, diagnostics and the dispatch of
//! requests live here, as functions from the store and a message to the new
//! store and a reply. A server loop reads a message, asks
//! [`route_request`] or [`route_notification`] what it is, decodes its
//! parameters, and hands them to [`handle_request`] or
//! [`handle_notification`]. Users describe *what* to parse and *how it
//! fails*; this module owns *how the server behaves*.

use crate::diagnostics::{diagnostics, DiagnosticsOptions, FailedNode};
use crate::document::Document;
use crate::documents::Documents;
use crate::engine::{Engine, RoundTrace, RunReport};
use crate::language::Language;
use crate::lsp::{
    ContentChange, Diagnostic, DocumentSymbol, Hover, Location, Position, Range,
};
use crate::model::TreeModel;
use crate::node::NodeId;
use crate::text::{byte_len, same_text};
use vstd::prelude::*;

verus! {

/// What a server advertises when it is initialized. Changes to documents are
/// always taken incrementally.
#[derive(Debug, Clone, Copy, PartialEq, Eq)]
pub struct Capabilities {
    /// The name of the position encoding.
    pub position_encoding: &'static str,
    /// Whether outlines are offered.
    pub symbols: bool,
    /// Whether hovering is answered.
    pub hover: bool,
    /// Whether definitions are found.
    pub definition: bool,
    /// Whether completions are offered.
    pub completion: bool,
    /// Whether code actions are offered.
    pub code_actions: bool,
}

/// The server capabilities advertised for `language`.
pub fn capabilities<C, L>(language: &L) -> (capabilities: Capabilities) where
    C: Clone + PartialEq + Send + 'static,
    L: Language<C>,

    ensures
        exists|encoding: crate::encoding::PositionEncoding| #[trigger]
            call_ensures(L::encoding, (language,), encoding)
                && capabilities.position_encoding@ == encoding.label(),
        call_ensures(L::supports_symbols, (language,), capabilities.symbols),
        call_ensures(L::supports_hover, (language,), capabilities.hover),
        call_ensures(L::supports_definition, (language,), capabilities.definition),
        call_ensures(L::supports_completion, (language,), capabilities.completion),
        call_ensures(L::supports_code_actions, (language,), capabilities.code_actions),
{
    let encoding = language.encoding();
    assert(call_ensures(L::encoding, (language,), encoding));
    Capabilities {
        position_encoding: encoding.capability(),
        symbols: language.supports_symbols(),
        hover: language.supports_hover(),
        definition: language.supports_definition(),
        completion: language.supports_completion(),
        code_actions: language.supports_code_actions(),
    }
}

/// The requests a server may answer.
#[derive(Debug, Clone, Copy, PartialEq, Eq, Structural)]
pub enum RequestKind {
    /// `textDocument/documentSymbol`
    Symbols,
    /// `textDocument/hover`
    Hover,
    /// `textDocument/definition`
    Definition,
    /// `textDocument/completion`
    Completion,
    /// `textDocument/codeAction`
    CodeAction,
}

impl RequestKind {
    /// The method by which the request is made.
    pub open spec fn method(self) -> Seq<char> {
        match self {
            RequestKind::Symbols => "textDocument/documentSymbol"@,
            RequestKind::Hover => "textDocument/hover"@,
            RequestKind::Definition => "textDocument/definition"@,
            RequestKind::Completion => "textDocument/completion"@,
            RequestKind::CodeAction => "textDocument/codeAction"@,
        }
    }

    /// `language` may say `supported` of this kind of request.
    pub open spec fn may_support<C: Clone + PartialEq + Send + 'static, L: Language<C>>(
        self,
        language: &L,
        supported: bool,
    ) -> bool {
        match self {
            RequestKind::Symbols => call_ensures(L::supports_symbols, (language,), supported),
            RequestKind::Hover => call_ensures(L::supports_hover, (language,), supported),
            RequestKind::Definition => call_ensures(L::supports_definition, (language,), supported),
            RequestKind::Completion => call_ensures(L::supports_completion, (language,), supported),
            RequestKind::CodeAction => call_ensures(
                L::supports_code_actions,
                (language,),
                supported,
            ),
        }
    }
}

/// The kind of request made by `method`, if it is one that a server may
/// answer.
pub fn request_kind(method: &str) -> (kind: Option<RequestKind>)
    ensures
        match kind {
            Some(kind) => kind.method() == method@,
            None => forall|kind: RequestKind| #[trigger] kind.method() != method@,
        },
{
    if same_text(method, "textDocument/documentSymbol") {
        Some(RequestKind::Symbols)
    } else if same_text(method, "textDocument/hover") {
        Some(RequestKind::Hover)
    } else if same_text(method, "textDocument/definition") {
        Some(RequestKind::Definition)
    } else if same_text(method, "textDocument/completion") {
        Some(RequestKind::Completion)
    } else if same_text(method, "textDocument/codeAction") {
        Some(RequestKind::CodeAction)
    } else {
        None
    }
}

/// The kind of request made by `method`, if `language` supports it. What is
/// not supported is to be answered with [`METHOD_NOT_SUPPORTED`].
pub fn route_request<C, L>(language: &L, method: &str) -> (kind: Option<RequestKind>) where
    C: Clone + PartialEq + Send + 'static,
    L: Language<C>,

    ensures
        match kind {
            Some(kind) => kind.method() == method@ && kind.may_support(language, true),
            None => forall|kind: RequestKind| #[trigger]
                kind.method() == method@ ==> kind.may_support(language, false),
        },
{
    let kind = match request_kind(method) {
        Some(kind) => kind,
        None => return None,
    };
    proof {
        law_methods_differ();
    }
    let supported: bool = match kind {
        RequestKind::Symbols => language.supports_symbols(),
        RequestKind::Hover => language.supports_hover(),
        RequestKind::Definition => language.supports_definition(),
        RequestKind::Completion => language.supports_completion(),
        RequestKind::CodeAction => language.supports_code_actions(),
    };
    assert(kind.may_support(language, supported));
    if supported {
        Some(kind)
    } else {
        None
    }
}

/// Different kinds of requests are made by different methods.
pub proof fn law_methods_differ()
    ensures
        forall|a: RequestKind, b: RequestKind| #[trigger]
            a.method() == #[trigger] b.method() ==> a == b,
{
    reveal_strlit("textDocument/documentSymbol");
    reveal_strlit("textDocument/hover");
    reveal_strlit("textDocument/definition");
    reveal_strlit("textDocument/completion");
    reveal_strlit("textDocument/codeAction");
    assert("textDocument/documentSymbol"@.len() == 27);
    assert("textDocument/hover"@.len() == 18);
    assert("textDocument/definition"@[14] == 'e');
    assert("textDocument/completion"@[14] == 'o');
    assert("textDocument/codeAction"@[15] == 'd');
    assert("textDocument/completion"@[15] == 'm');
    assert("textDocument/codeAction"@[14] == 'o');
}

/// The notifications a server acts on.
#[derive(Debug, Clone, Copy, PartialEq, Eq, Structural)]
pub enum NotificationKind {
    /// `textDocument/didOpen`
    DidOpen,
    /// `textDocument/didChange`
    DidChange,
    /// `textDocument/didClose`
    DidClose,
}

impl NotificationKind {
    /// The method by which the notification is made.
    pub open spec fn method(self) -> Seq<char> {
        match self {
            NotificationKind::DidOpen => "textDocument/didOpen"@,
            NotificationKind::DidChange => "textDocument/didChange"@,
            NotificationKind::DidClose => "textDocument/didClose"@,
        }
    }
}

/// The kind of notification made by `method`; any other is ignored.
pub fn route_notification(method: &str) -> (kind: Option<NotificationKind>)
    ensures
        match kind {
            Some(kind) => kind.method() == method@,
            None => forall|kind: NotificationKind| #[trigger] kind.method() != method@,
        },
{
    if same_text(method, "textDocument/didOpen") {
        Some(NotificationKind::DidOpen)
    } else if same_text(method, "textDocument/didChange") {
        Some(NotificationKind::DidChange)
    } else if same_text(method, "textDocument/didClose") {
        Some(NotificationKind::DidClose)
    } else {
        None
    }
}

/// What a request that is not supported is answered with.
pub const METHOD_NOT_SUPPORTED: &'static str = "method not supported";

/// Different kinds of notifications are made by different methods.
pub proof fn law_notifications_differ()
    ensures
        forall|a: NotificationKind, b: NotificationKind| #[trigger]
            a.method() == #[trigger] b.method() ==> a == b,
{
    reveal_strlit("textDocument/didOpen");
    reveal_strlit("textDocument/didChange");
    reveal_strlit("textDocument/didClose");
    assert("textDocument/didOpen"@.len() == 20);
    assert("textDocument/didChange"@.len() == 22);
    assert("textDocument/didClose"@.len() == 21);
}

/// A decoded request.
#[derive(Debug, Clone, PartialEq, Eq)]
pub enum Request {
    /// The outline of a document.
    Symbols {
        /// The document.
        uri: String,
    },
    /// What to show at a position.
    Hover {
        /// The document.
        uri: String,
        /// The position in it.
        position: Position,
    },
    /// Where what stands at a position is defined.
    Definition {
        /// The document.
        uri: String,
        /// The position in it.
        position: Position,
    },
    /// How to complete what stands at a position.
    Completion {
        /// The document.
        uri: String,
        /// The position in it.
        position: Position,
    },
    /// What can be done about a range.
    CodeAction {
        /// The document.
        uri: String,
        /// The range in it.
        range: Range,
    },
}

/// The reply to a [`Request`].
pub enum Reply {
    /// The outline; empty if the document is not open.
    Symbols(Vec<DocumentSymbol>),
    /// What to show, if anything.
    Hover(Option<Hover>),
    /// The definitions, if any.
    Definition(Option<Vec<Location>>),
    /// The completions, if any.
    Completion(Option<lsp_types::CompletionResponse>),
    /// The actions; none if the document is not open.
    CodeActions(Vec<lsp_types::CodeAction>),
}

/// A decoded notification.
#[derive(Debug, Clone, PartialEq, Eq)]
pub enum Notification {
    /// A document was opened.
    DidOpen {
        /// The document.
        uri: String,
        /// Its version.
        version: i32,
        /// Its text.
        text: String,
    },
    /// A document was changed.
    DidChange {
        /// The document.
        uri: String,
        /// Its new version.
        version: i32,
        /// The changes, each to what the one before it left.
        changes: Vec<ContentChange>,
    },
    /// A document was closed.
    DidClose {
        /// The document.
        uri: String,
    },
}

/// The diagnostics to publish for a document, in place of all those published
/// for it before.
#[derive(Debug, Clone, PartialEq, Eq)]
pub struct Publication {
    /// The document.
    pub uri: String,
    /// Its diagnostics.
    pub diagnostics: Vec<Diagnostic>,
    /// The version they are for; `None` for a closed document.
    pub version: Option<i32>,
}

/// A run of the engine of `language` over `text`, with nothing to cancel it,
/// may lead from the tree `start` to the tree `end`.
pub open spec fn parsed_by<C: Clone + PartialEq + Send + 'static, L: Language<C>>(
    language: &L,
    text: Seq<char>,
    start: TreeModel<C>,
    end: TreeModel<C>,
) -> bool {
    exists|engine: &Engine<C>, source: &str, rounds: Seq<RoundTrace<C>>, report: RunReport|
        #![trigger
            call_ensures(L::engine, (language,), engine),
            engine.run_ok(source, start, rounds, end, report)]
        call_ensures(L::engine, (language,), engine) && source@ == text && engine.run_ok(
            source,
            start,
            rounds,
            end,
            report,
        ) && !report.cancelled
}

/// `doc` may be what `language` makes of a document that is opened: a parse
/// from scratch.
pub open spec fn opened<C: Clone + PartialEq + Send + 'static, L: Language<C>>(
    language: &L,
    uri: Seq<char>,
    version: i32,
    text: Seq<char>,
    doc: Document<C>,
) -> bool {
    &&& doc.name() == uri
    &&& doc.client_version() == version
    &&& doc.content() == text
    &&& doc.covered()
    &&& call_ensures(L::encoding, (language,), doc.units())
    &&& exists|root: C| #[trigger]
        call_ensures(L::root_ctx, (language,), root) && parsed_by(
            language,
            text,
            TreeModel::root_only(0, crate::run::whole(text), root),
            doc.parsed(),
        )
}

/// `after` may be what `language` makes of `before` when it changes.
pub open spec fn changed<C: Clone + PartialEq + Send + 'static, L: Language<C>>(
    language: &L,
    before: Document<C>,
    version: i32,
    changes: Seq<ContentChange>,
    after: Document<C>,
) -> bool {
    &&& after.name() == before.name()
    &&& after.client_version() == version
    &&& after.content() == before.content_after(changes)
    &&& before.covered() ==> after.covered()
    &&& after.units() == before.units()
    &&& parsed_by(language, after.content(), before.tree_after(changes), after.parsed())
}

/// `language` may give `answer` to the node `id` of `doc`.
pub open spec fn may_diagnose<C: Clone + PartialEq + Send + 'static, L: Language<C>>(
    language: &L,
    doc: &Document<C>,
    id: NodeId,
    answer: Option<Diagnostic>,
) -> bool {
    exists|node: FailedNode<'_, C>| #[trigger]
        node.shows(doc.parsed(), id) && call_ensures(
            L::diagnostic,
            (language, doc, node),
            answer,
        )
}

/// `diagnostics` may be what `language` has to say of `doc`: its answers to
/// the failing nodes that no failing node stands above, and then the rest.
pub open spec fn may_publish<C: Clone + PartialEq + Send + 'static, L: Language<C>>(
    language: &L,
    doc: &Document<C>,
    diagnostics: Seq<Diagnostic>,
) -> bool {
    let ids = crate::diagnostics::offered(doc.parsed(), 0, false, false);
    exists|answers: Seq<Option<Diagnostic>>, extra: Vec<Diagnostic>|
        #![trigger
            crate::diagnostics::rendered(doc.parsed(), ids, answers, doc.content(), doc.units()),
            call_ensures(L::extra_diagnostics, (language, doc), extra)]
        {
            &&& answers.len() == ids.len()
            &&& forall|k: int|
                0 <= k < ids.len() ==> #[trigger] may_diagnose(language, doc, ids[k], answers[k])
            &&& call_ensures(L::extra_diagnostics, (language, doc), extra)
            &&& diagnostics == crate::diagnostics::rendered(
                doc.parsed(),
                ids,
                answers,
                doc.content(),
                doc.units(),
            ) + extra@
        }
}

/// The diagnostics to publish for `doc`.
pub fn publish<C, L>(language: &L, doc: &Document<C>) -> (publication: Publication) where
    C: Clone + PartialEq + Send + 'static,
    L: Language<C>,

    requires
        doc.presentable(),
    ensures
        publication.uri@ == doc.name(),
        publication.version == Some(doc.client_version()),
        may_publish(language, doc, publication.diagnostics@),
{
    let ghost t = doc.parsed();
    let ghost ids = crate::diagnostics::offered(t, 0, false, false);
    let hook = |node: FailedNode<'_, C>| -> (answer: Option<Diagnostic>)
        requires
            doc.presentable(),
        ensures
            call_ensures(L::diagnostic, (language, doc, node), answer),
        { language.diagnostic(doc, node) };
    let mut found = diagnostics(doc, DiagnosticsOptions { cascades: false }, hook);
    let ghost parse = found@;
    let mut extra = language.extra_diagnostics(doc);
    let ghost given = extra;
    found.append(&mut extra);
    proof {
        let answers = choose|answers: Seq<Option<Diagnostic>>| #[trigger]
            crate::diagnostics::answered(&hook, t, ids, answers) && parse
                == crate::diagnostics::rendered(t, ids, answers, doc.content(), doc.units());
        assert forall|k: int| 0 <= k < ids.len() implies #[trigger] may_diagnose(
            language,
            doc,
            ids[k],
            answers[k],
        ) by {
            assert(crate::diagnostics::may_answer(&hook, t, ids[k], answers[k]));
        }
        assert(call_ensures(L::extra_diagnostics, (language, doc), given));
    }
    Publication {
        uri: doc.uri().to_owned(),
        diagnostics: found,
        version: Some(doc.version()),
    }
}

/// Opens a document: parses it from scratch and stores it, in place of one
/// that was open under its name.
pub fn did_open<C, L>(
    language: &L,
    documents: &mut Documents<C>,
    uri: String,
    version: i32,
    text: String,
) -> (publication: Publication) where C: Clone + PartialEq + Send + 'static, L: Language<C>
    requires
        old(documents).wf(),
        crate::language::parses_anything(language),
        crate::document::fits(text@),
    ensures
        final(documents).wf(),
        final(documents)@.contains_key(uri@),
        final(documents)@ == old(documents)@.insert(uri@, final(documents)@[uri@]),
        opened(language, uri@, version, text@, final(documents)@[uri@]),
        publication.uri@ == uri@,
        publication.version == Some(version),
        may_publish(language, &final(documents)@[uri@], publication.diagnostics@),
{
    let ghost name = uri@;
    let ghost content = text@;
    let encoding = language.encoding();
    let root = language.root_ctx();
    let ghost given = root;
    let mut doc = Document::open(uri, version, text, encoding, root);
    let ghost before = doc;
    let engine = language.engine();
    let changes: Vec<ContentChange> = Vec::new();
    assert(before.tree_after(changes@) == before.parsed());
    assert(before.content_after(changes@) == before.content());
    doc.apply_changes_through(engine, version, changes.as_slice());
    proof {
        let start = TreeModel::root_only(0, crate::run::whole(content), given);
        assert(start == before.parsed());
        assert(call_ensures(L::engine, (language,), engine));
        assert(parsed_by(language, content, start, doc.parsed()));
        assert(opened(language, name, version, content, doc));
    }
    let publication = publish(language, &doc);
    documents.insert(doc);
    publication
}

/// Changes a document: applies the changes, parses what they reached, and
/// publishes. Changes to a document that is not open are ignored.
pub fn did_change<C, L>(
    language: &L,
    documents: &mut Documents<C>,
    uri: &str,
    version: i32,
    changes: &[ContentChange],
) -> (publication: Option<Publication>) where
    C: Clone + PartialEq + Send + 'static,
    L: Language<C>,

    requires
        old(documents).wf(),
        crate::language::parses_anything(language),
        old(documents)@.contains_key(uri@) ==> old(documents)@[uri@].accepts(changes@),
    ensures
        final(documents).wf(),
        match publication {
            Some(publication) => {
                &&& old(documents)@.contains_key(uri@)
                &&& final(documents)@.contains_key(uri@)
                &&& final(documents)@ == old(documents)@.insert(uri@, final(documents)@[uri@])
                &&& changed(
                    language,
                    old(documents)@[uri@],
                    version,
                    changes@,
                    final(documents)@[uri@],
                )
                &&& publication.uri@ == uri@
                &&& publication.version == Some(version)
                &&& may_publish(language, &final(documents)@[uri@], publication.diagnostics@)
            },
            None => !old(documents)@.contains_key(uri@) && final(documents)@ == old(documents)@,
        },
{
    match documents.remove(uri) {
        Some(taken) => {
            let mut doc = taken;
            let ghost before = doc;
            let engine = language.engine();
            doc.apply_changes_through(engine, version, changes);
            proof {
                assert(call_ensures(L::engine, (language,), engine));
                assert(parsed_by(
                    language,
                    doc.content(),
                    before.tree_after(changes@),
                    doc.parsed(),
                ));
            }
            let publication = publish(language, &doc);
            documents.insert(doc);
            proof {
                assert(documents@ =~= old(documents)@.insert(uri@, documents@[uri@]));
            }
            Some(publication)
        },
        None => {
            assert(documents@ =~= old(documents)@);
            None
        },
    }
}

/// Closes a document: forgets it and clears its diagnostics.
pub fn did_close<C>(documents: &mut Documents<C>, uri: String) -> (publication: Publication) where
    C: Clone + PartialEq + Send + 'static,

    requires
        old(documents).wf(),
    ensures
        final(documents).wf(),
        final(documents)@ == old(documents)@.remove(uri@),
        publication.uri == uri,
        publication.diagnostics@.len() == 0,
        publication.version is None,
{
    let _ = documents.remove(uri.as_str());
    Publication { uri, diagnostics: Vec::new(), version: None }
}

impl Request {
    /// The document the request is about.
    pub open spec fn subject(self) -> Seq<char> {
        match self {
            Request::Symbols { uri } => uri@,
            Request::Hover { uri, .. } => uri@,
            Request::Definition { uri, .. } => uri@,
            Request::Completion { uri, .. } => uri@,
            Request::CodeAction { uri, .. } => uri@,
        }
    }
}

/// The byte offset of `position` in `doc`.
pub open spec fn offset_in<C>(doc: &Document<C>, position: Position) -> usize {
    crate::line_index::offset_at(doc.content(), position, doc.units()) as usize
}

/// `reply` may be what `language` answers to `request` about the open
/// document `doc`.
pub open spec fn may_reply<C: Clone + PartialEq + Send + 'static, L: Language<C>>(
    language: &L,
    doc: &Document<C>,
    request: Request,
    reply: Reply,
) -> bool {
    match (request, reply) {
        (Request::Symbols { .. }, Reply::Symbols(symbols)) => call_ensures(
            L::symbols,
            (language, doc),
            symbols,
        ),
        (Request::Hover { position, .. }, Reply::Hover(hover)) => call_ensures(
            L::hover,
            (language, doc, offset_in(doc, position)),
            hover,
        ),
        (Request::Definition { position, .. }, Reply::Definition(locations)) => call_ensures(
            L::definition,
            (language, doc, offset_in(doc, position)),
            locations,
        ),
        (Request::Completion { position, .. }, Reply::Completion(completions)) => call_ensures(
            L::completion,
            (language, doc, offset_in(doc, position)),
            completions,
        ),
        (Request::CodeAction { range, .. }, Reply::CodeActions(actions)) => call_ensures(
            L::code_action,
            (language, doc, range),
            actions,
        ),
        _ => false,
    }
}

/// `reply` answers `request` with nothing.
pub open spec fn empty_reply(request: Request, reply: Reply) -> bool {
    match (request, reply) {
        (Request::Symbols { .. }, Reply::Symbols(symbols)) => symbols@.len() == 0,
        (Request::Hover { .. }, Reply::Hover(hover)) => hover is None,
        (Request::Definition { .. }, Reply::Definition(locations)) => locations is None,
        (Request::Completion { .. }, Reply::Completion(completions)) => completions is None,
        (Request::CodeAction { .. }, Reply::CodeActions(actions)) => actions@.len() == 0,
        _ => false,
    }
}

/// Answers a request that [`route_request`] let through: asks `language` about
/// the document, with the client's position converted to a byte offset. A
/// request about a document that is not open is answered with nothing.
pub fn handle_request<C, L>(language: &L, documents: &Documents<C>, request: &Request) -> (reply:
    Reply) where C: Clone + PartialEq + Send + 'static, L: Language<C>
    requires
        documents.wf(),
    ensures
        if documents@.contains_key(request.subject()) {
            may_reply(language, &documents@[request.subject()], *request, reply)
        } else {
            empty_reply(*request, reply)
        },
{
    match request {
        Request::Symbols { uri } => Reply::Symbols(
            match documents.get(uri.as_str()) {
                Some(doc) => language.symbols(doc),
                None => Vec::new(),
            },
        ),
        Request::Hover { uri, position } => Reply::Hover(
            match documents.get(uri.as_str()) {
                Some(doc) => language.hover(doc, doc.offset(*position)),
                None => None,
            },
        ),
        Request::Definition { uri, position } => Reply::Definition(
            match documents.get(uri.as_str()) {
                Some(doc) => language.definition(doc, doc.offset(*position)),
                None => None,
            },
        ),
        Request::Completion { uri, position } => Reply::Completion(
            match documents.get(uri.as_str()) {
                Some(doc) => language.completion(doc, doc.offset(*position)),
                None => None,
            },
        ),
        Request::CodeAction { uri, range } => Reply::CodeActions(
            match documents.get(uri.as_str()) {
                Some(doc) => language.code_action(doc, *range),
                None => Vec::new(),
            },
        ),
    }
}

impl Notification {
    /// The notification can be acted on: a text that is opened is short enough
    /// for its positions to fit the protocol's integers, and changes to an
    /// open document can be applied to it.
    pub open spec fn applicable<C>(self, documents: Map<Seq<char>, Document<C>>) -> bool {
        match self {
            Notification::DidOpen { text, .. } => crate::document::fits(text@),
            Notification::DidChange { uri, changes, .. } => documents.contains_key(uri@)
                ==> documents[uri@].accepts(changes@),
            Notification::DidClose { .. } => true,
        }
    }
}

/// Acting on `notification` may lead from the store `before` to the store
/// `after` and to `publication`.
pub open spec fn may_handle<C: Clone + PartialEq + Send + 'static, L: Language<C>>(
    language: &L,
    notification: Notification,
    before: Map<Seq<char>, Document<C>>,
    after: Map<Seq<char>, Document<C>>,
    publication: Option<Publication>,
) -> bool {
    match notification {
        Notification::DidOpen { uri, version, text } => {
            &&& after.contains_key(uri@)
            &&& after == before.insert(uri@, after[uri@])
            &&& opened(language, uri@, version, text@, after[uri@])
            &&& publication is Some
            &&& (publication->0).uri@ == uri@
            &&& (publication->0).version == Some(version)
            &&& may_publish(language, &after[uri@], (publication->0).diagnostics@)
        },
        Notification::DidChange { uri, version, changes } => if before.contains_key(uri@) {
            &&& after.contains_key(uri@)
            &&& after == before.insert(uri@, after[uri@])
            &&& changed(language, before[uri@], version, changes@, after[uri@])
            &&& publication is Some
            &&& (publication->0).uri@ == uri@
            &&& (publication->0).version == Some(version)
            &&& may_publish(language, &after[uri@], (publication->0).diagnostics@)
        } else {
            after == before && publication is None
        },
        Notification::DidClose { uri } => {
            &&& after == before.remove(uri@)
            &&& publication is Some
            &&& (publication->0).uri@ == uri@
            &&& (publication->0).version is None
            &&& (publication->0).diagnostics@.len() == 0
        },
    }
}

/// Acts on a notification: opens, changes or closes a document, and says what
/// to publish.
pub fn handle_notification<C, L>(
    language: &L,
    documents: &mut Documents<C>,
    notification: Notification,
) -> (publication: Option<Publication>) where
    C: Clone + PartialEq + Send + 'static,
    L: Language<C>,

    requires
        old(documents).wf(),
        crate::language::parses_anything(language),
        notification.applicable(old(documents)@),
    ensures
        final(documents).wf(),
        may_handle(language, notification, old(documents)@, final(documents)@, publication),
{
    match notification {
        Notification::DidOpen { uri, version, text } => Some(
            did_open(language, documents, uri, version, text),
        ),
        Notification::DidChange { uri, version, changes } => did_change(
            language,
            documents,
            uri.as_str(),
            version,
            changes.as_slice(),
        ),
        Notification::DidClose { uri } => Some(did_close(documents, uri)),
    }
}

impl Notification {
    /// Returns `true` if the notification can be acted on; see
    /// [`handle_notification`].
    pub fn can_apply<C: Clone + PartialEq + Send + 'static>(&self, documents: &Documents<C>) -> (
        possible: bool)
        requires
            documents.wf(),
        ensures
            possible == self.applicable(documents@),
    {
        match self {
            Notification::DidOpen { text, .. } => byte_len(text.as_str()) < u32::MAX as usize,
            Notification::DidChange { uri, changes, .. } => match documents.get(uri.as_str()) {
                Some(doc) => doc.can_apply(changes.as_slice()),
                None => true,
            },
            Notification::DidClose { .. } => true,
        }
    }

    /// The document the notification is about.
    pub open spec fn subject(self) -> Seq<char> {
        match self {
            Notification::DidOpen { uri, .. } => uri@,
            Notification::DidChange { uri, .. } => uri@,
            Notification::DidClose { uri } => uri@,
        }
    }
}

/// A notification about one document leaves every other as it is.
pub proof fn law_other_documents_are_kept<C: Clone + PartialEq + Send + 'static, L: Language<C>>(
    language: &L,
    notification: Notification,
    before: Map<Seq<char>, Document<C>>,
    after: Map<Seq<char>, Document<C>>,
    publication: Option<Publication>,
    uri: Seq<char>,
)
    requires
        may_handle(language, notification, before, after, publication),
        uri != notification.subject(),
    ensures
        after.contains_key(uri) == before.contains_key(uri),
        before.contains_key(uri) ==> after[uri] == before[uri],
{
}

/// A document is open from when it is opened until it is closed, and only
/// then.
pub proof fn law_open_until_closed<C: Clone + PartialEq + Send + 'static, L: Language<C>>(
    language: &L,
    notification: Notification,
    before: Map<Seq<char>, Document<C>>,
    after: Map<Seq<char>, Document<C>>,
    publication: Option<Publication>,
)
    requires
        may_handle(language, notification, before, after, publication),
    ensures
        after.contains_key(notification.subject()) == match notification {
            Notification::DidOpen { .. } => true,
            Notification::DidChange { .. } => before.contains_key(notification.subject()),
            Notification::DidClose { .. } => false,
        },
{
}

/// The text a server holds is the client's: what was opened, with every change
/// since then applied in turn; and diagnostics are published for exactly that
/// text's version.
pub proof fn law_text_follows_client<C: Clone + PartialEq + Send + 'static, L: Language<C>>(
    language: &L,
    notification: Notification,
    before: Map<Seq<char>, Document<C>>,
    after: Map<Seq<char>, Document<C>>,
    publication: Option<Publication>,
)
    requires
        may_handle(language, notification, before, after, publication),
        after.contains_key(notification.subject()),
    ensures
        publication is Some,
        (publication->0).version == Some(after[notification.subject()].client_version()),
        match notification {
            Notification::DidOpen { version, text, .. } => {
                &&& after[notification.subject()].content() == text@
                &&& after[notification.subject()].client_version() == version
            },
            Notification::DidChange { version, changes, .. } => {
                &&& after[notification.subject()].content()
                    == before[notification.subject()].content_after(changes@)
                &&& after[notification.subject()].client_version() == version
            },
            Notification::DidClose { .. } => false,
        },
{
}

/// Requests and notifications go by the protocol's names.
pub proof fn law_methods_of_the_protocol()
    ensures
        RequestKind::Symbols.method() == "textDocument/documentSymbol"@,
        RequestKind::Hover.method() == "textDocument/hover"@,
        RequestKind::Definition.method() == "textDocument/definition"@,
        RequestKind::Completion.method() == "textDocument/completion"@,
        RequestKind::CodeAction.method() == "textDocument/codeAction"@,
        NotificationKind::DidOpen.method() == "textDocument/didOpen"@,
        NotificationKind::DidChange.method() == "textDocument/didChange"@,
        NotificationKind::DidClose.method() == "textDocument/didClose"@,
{
}

/// The language is asked about the byte that the client points at: a request at
/// the position of an offset that splits no character is a question about that
/// offset, and a request for actions is about the client's range.
pub proof fn law_language_is_asked_about_the_place<
    C: Clone + PartialEq + Send + 'static,
    L: Language<C>,
>(language: &L, doc: &Document<C>, request: Request, reply: Reply, offset: usize)
    requires
        doc.presentable(),
        crate::text::on_boundary(doc.content(), offset as int),
        may_reply(language, doc, request, reply),
    ensures
        request matches Request::Symbols { .. } ==> (reply matches Reply::Symbols(symbols)
            && call_ensures(L::symbols, (language, doc), symbols)),
        request matches Request::Hover { position, .. } ==> (position
            == crate::line_index::position_at(doc.content(), offset as int, doc.units()) ==> (
        reply matches Reply::Hover(hover) && call_ensures(
            L::hover,
            (language, doc, offset),
            hover,
        ))),
        request matches Request::Definition { position, .. } ==> (position
            == crate::line_index::position_at(doc.content(), offset as int, doc.units()) ==> (
        reply matches Reply::Definition(locations) && call_ensures(
            L::definition,
            (language, doc, offset),
            locations,
        ))),
        request matches Request::Completion { position, .. } ==> (position
            == crate::line_index::position_at(doc.content(), offset as int, doc.units()) ==> (
        reply matches Reply::Completion(completions) && call_ensures(
            L::completion,
            (language, doc, offset),
            completions,
        ))),
        request matches Request::CodeAction { range, .. } ==> (reply matches Reply::CodeActions(
            actions,
        ) && call_ensures(L::code_action, (language, doc, range), actions)),
{
    crate::line_index::law_offset_round_trip(doc.content(), offset as int, doc.units());
}

/// A request about a document that is not open is answered with nothing, in the
/// form the request asks for.
pub proof fn law_closed_documents_have_no_answers(request: Request, reply: Reply)
    requires
        empty_reply(request, reply),
    ensures
        match request {
            Request::Symbols { .. } => reply matches Reply::Symbols(symbols) && symbols@.len() == 0,
            Request::Hover { .. } => reply matches Reply::Hover(hover) && hover is None,
            Request::Definition { .. } => reply matches Reply::Definition(locations)
                && locations is None,
            Request::Completion { .. } => reply matches Reply::Completion(completions)
                && completions is None,
            Request::CodeAction { .. } => reply matches Reply::CodeActions(actions)
                && actions@.len() == 0,
        },
{
}

/// A document that is opened is parsed whole and from scratch: by a run of the
/// language's engine that nothing cancels, over its text, from a tree of one
/// unparsed node that covers all of it and carries the language's root context.
pub proof fn law_opening_parses_the_whole_text<
    C: Clone + PartialEq + Send + 'static,
    L: Language<C>,
>(language: &L, uri: Seq<char>, version: i32, text: Seq<char>, doc: Document<C>)
    requires
        crate::text::bytes_of(text).len() <= usize::MAX,
        opened(language, uri, version, text, doc),
    ensures
        doc.name() == uri,
        doc.content() == text,
        doc.client_version() == version,
        call_ensures(L::encoding, (language,), doc.units()),
        exists|
            engine: &Engine<C>,
            source: &str,
            start: TreeModel<C>,
            rounds: Seq<RoundTrace<C>>,
            report: RunReport,
        |
            #![trigger engine.run_ok(source, start, rounds, doc.parsed(), report)]
            {
                &&& call_ensures(L::engine, (language,), engine)
                &&& source@ == text
                &&& engine.run_ok(source, start, rounds, doc.parsed(), report)
                &&& !report.cancelled
                &&& start.nodes.len() == 1
                &&& start.nodes[0].span.start == 0
                &&& start.nodes[0].span.end == crate::text::bytes_of(text).len()
                &&& start.nodes[0].status is Unparsed
                &&& start.nodes[0].depth == 0
                &&& start.nodes[0].children.len() == 0
                &&& start.nodes[0].alive
                &&& call_ensures(L::root_ctx, (language,), start.nodes[0].ctx)
            },
{
    let root = choose|root: C| #[trigger]
        call_ensures(L::root_ctx, (language,), root) && parsed_by(
            language,
            text,
            TreeModel::root_only(0, crate::run::whole(text), root),
            doc.parsed(),
        );
    let start = TreeModel::root_only(0, crate::run::whole(text), root);
    let (engine, source, rounds, report) = choose|
        engine: &Engine<C>,
        source: &str,
        rounds: Seq<RoundTrace<C>>,
        report: RunReport,
    |
        #![trigger
            call_ensures(L::engine, (language,), engine),
            engine.run_ok(source, start, rounds, doc.parsed(), report)]
        call_ensures(L::engine, (language,), engine) && source@ == text && engine.run_ok(
            source,
            start,
            rounds,
            doc.parsed(),
            report,
        ) && !report.cancelled;
    assert(engine.run_ok(source, start, rounds, doc.parsed(), report));
}

/// What is published of a document: first the language's answers about its
/// failing nodes that no failing node stands above, each once, and then whatever
/// more the language has to say.
pub proof fn law_publication_is_answers_and_extras<
    C: Clone + PartialEq + Send + 'static,
    L: Language<C>,
>(language: &L, doc: &Document<C>, diagnostics: Seq<Diagnostic>) -> (asked: Seq<NodeId>)
    requires
        doc.wf(),
        may_publish(language, doc, diagnostics),
    ensures
        asked.no_duplicates(),
        forall|id: NodeId| #[trigger]
            asked.contains(id) == (doc.parsed().live(id.0 as int) && (
            doc.parsed().nodes[id.0 as int].status is Failed
                || doc.parsed().nodes[id.0 as int].status is Unparsed) && forall|a: int| #[trigger]
                doc.parsed().below(a, id.0 as int) && doc.parsed().live(a) ==> !(
                doc.parsed().nodes[a].status is Failed || doc.parsed().nodes[a].status is Unparsed)),
        exists|answers: Seq<Option<Diagnostic>>, extra: Vec<Diagnostic>|
            #![trigger
                crate::diagnostics::rendered(
                    doc.parsed(),
                    asked,
                    answers,
                    doc.content(),
                    doc.units(),
                ),
                call_ensures(L::extra_diagnostics, (language, doc), extra)]
            {
                &&& answers.len() == asked.len()
                &&& forall|k: int|
                    0 <= k < asked.len() ==> #[trigger] may_diagnose(
                        language,
                        doc,
                        asked[k],
                        answers[k],
                    )
                &&& call_ensures(L::extra_diagnostics, (language, doc), extra)
                &&& diagnostics == crate::diagnostics::rendered(
                    doc.parsed(),
                    asked,
                    answers,
                    doc.content(),
                    doc.units(),
                ) + extra@
            },
{
    let t = doc.parsed();
    let asked = crate::diagnostics::offered(t, 0, false, false);
    crate::diagnostics::law_reported_once(t, 0, false, false);
    assert forall|id: NodeId| #[trigger] asked.contains(id) == (t.live(id.0 as int) && (
    t.nodes[id.0 as int].status is Failed || t.nodes[id.0 as int].status is Unparsed)
        && forall|a: int| #[trigger]
        t.below(a, id.0 as int) && t.live(a) ==> !(t.nodes[a].status is Failed
            || t.nodes[a].status is Unparsed)) by {
        crate::diagnostics::law_reported_nodes(t, false, id);
    }
    asked
}

/// What a kind of request asks of the language's support for it.
pub proof fn law_support_is_asked_by_kind<C: Clone + PartialEq + Send + 'static, L: Language<C>>(
    language: &L,
    supported: bool,
)
    ensures
        RequestKind::Symbols.may_support(language, supported) == call_ensures(
            L::supports_symbols,
            (language,),
            supported,
        ),
        RequestKind::Hover.may_support(language, supported) == call_ensures(
            L::supports_hover,
            (language,),
            supported,
        ),
        RequestKind::Definition.may_support(language, supported) == call_ensures(
            L::supports_definition,
            (language,),
            supported,
        ),
        RequestKind::Completion.may_support(language, supported) == call_ensures(
            L::supports_completion,
            (language,),
            supported,
        ),
        RequestKind::CodeAction.may_support(language, supported) == call_ensures(
            L::supports_code_actions,
            (language,),
            supported,
        ),
{
}

/// A document that changes is parsed on from where it was: by a run of the
/// language's engine that nothing cancels, over the text after the changes, from
/// the tree after the edits they amount to.
pub proof fn law_changing_parses_on<C: Clone + PartialEq + Send + 'static, L: Language<C>>(
    language: &L,
    before: Document<C>,
    version: i32,
    changes: Seq<ContentChange>,
    after: Document<C>,
)
    requires
        changed(language, before, version, changes, after),
    ensures
        after.name() == before.name(),
        after.units() == before.units(),
        after.client_version() == version,
        after.content() == crate::document::text_after_all(
            before.content(),
            before.units(),
            changes,
            changes.len() as int,
        ),
        exists|
            engine: &Engine<C>,
            source: &str,
            rounds: Seq<RoundTrace<C>>,
            report: RunReport,
        |
            #![trigger
                call_ensures(L::engine, (language,), engine),
                engine.run_ok(
                    source,
                    crate::document::tree_after_all(
                        before.parsed(),
                        before.content(),
                        before.units(),
                        changes,
                        changes.len() as int,
                    ),
                    rounds,
                    after.parsed(),
                    report,
                )]
            {
                &&& call_ensures(L::engine, (language,), engine)
                &&& source@ == after.content()
                &&& engine.run_ok(
                    source,
                    crate::document::tree_after_all(
                        before.parsed(),
                        before.content(),
                        before.units(),
                        changes,
                        changes.len() as int,
                    ),
                    rounds,
                    after.parsed(),
                    report,
                )
                &&& !report.cancelled
            },
{
}

/// What comes of a notification: opening and changing publish what the language
/// has to say of the document as it now is, changing a document that is not open
/// does nothing at all, and closing one takes back whatever was published.
pub proof fn law_what_notifications_come_to<
    C: Clone + PartialEq + Send + 'static,
    L: Language<C>,
>(
    language: &L,
    notification: Notification,
    before: Map<Seq<char>, Document<C>>,
    after: Map<Seq<char>, Document<C>>,
    publication: Option<Publication>,
)
    requires
        may_handle(language, notification, before, after, publication),
    ensures
        match notification {
            Notification::DidOpen { uri, version, text } => {
                &&& publication matches Some(given)
                &&& given.uri@ == uri@
                &&& given.version == Some(version)
                &&& opened(language, uri@, version, text@, after[uri@])
                &&& may_publish(language, &after[uri@], given.diagnostics@)
            },
            Notification::DidChange { uri, version, changes } => if before.contains_key(uri@) {
                &&& publication matches Some(given)
                &&& given.uri@ == uri@
                &&& given.version == Some(version)
                &&& changed(language, before[uri@], version, changes@, after[uri@])
                &&& may_publish(language, &after[uri@], given.diagnostics@)
            } else {
                publication is None && after == before
            },
            Notification::DidClose { uri } => {
                &&& publication matches Some(given)
                &&& given.uri@ == uri@
                &&& given.version is None
                &&& given.diagnostics@.len() == 0
                &&& !after.contains_key(uri@)
            },
        },
{
}

/// Which notifications can be acted on: the opening of any text whose positions
/// fit the protocol's integers, changes that the open document accepts, any
/// change to a document that is not open, and every closing.
pub proof fn law_applicable_notifications<C>(
    notification: Notification,
    documents: Map<Seq<char>, Document<C>>,
)
    ensures
        notification matches Notification::DidOpen { text, .. } ==> notification.applicable(
            documents,
        ) == (crate::text::bytes_of(text@).len() < u32::MAX),
        notification matches Notification::DidChange { uri, changes, .. }
            ==> notification.applicable(documents) == (!documents.contains_key(uri@)
            || documents[uri@].accepts(changes@)),
        notification matches Notification::DidClose { .. } ==> notification.applicable(documents),
        notification matches Notification::DidOpen { uri, .. } ==> notification.subject() == uri@,
        notification matches Notification::DidChange { uri, .. } ==> notification.subject() == uri@,
        notification matches Notification::DidClose { uri } ==> notification.subject() == uri@,
{
}

/// A request is about the document it names.
pub proof fn law_requests_name_their_document(request: Request)
    ensures
        request matches Request::Symbols { uri } ==> request.subject() == uri@,
        request matches Request::Hover { uri, .. } ==> request.subject() == uri@,
        request matches Request::Definition { uri, .. } ==> request.subject() == uri@,
        request matches Request::Completion { uri, .. } ==> request.subject() == uri@,
        request matches Request::CodeAction { uri, .. } ==> request.subject() == uri@,
{
}

/// The byte that a position in a request stands for is the one it stands for in
/// the document's text, in the document's encoding.
pub proof fn law_requests_are_located_in_the_text<C>(doc: &Document<C>, position: Position)
    requires
        doc.presentable(),
    ensures
        offset_in(doc, position) == crate::line_index::offset_at(
            doc.content(),
            position,
            doc.units(),
        ),
{
    let text = doc.content();
    let bytes = crate::text::bytes_of(text);
    crate::line_index::lemma_starts(bytes, bytes.len() as int);
    let last = (crate::line_index::starts(bytes).len() - 1) as u32;
    crate::line_index::law_positions_are_clamped(
        text,
        position.line,
        position.character,
        doc.units(),
    );
    crate::line_index::law_positions_are_clamped(text, last, position.character, doc.units());
    if position.line <= last {
        crate::line_index::law_lines_are_parted_by_newlines(bytes, position.line as int);
    } else {
        crate::line_index::law_lines_are_parted_by_newlines(bytes, last as int);
    }
    assert(position == (Position { line: position.line, character: position.character }));
}

} // verus!
