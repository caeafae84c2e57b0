//! The language-specific half of a server.

use crate::diagnostics::FailedNode;
use crate::document::Document;
use crate::encoding::PositionEncoding;
use crate::engine::Engine;
use crate::lsp::{Diagnostic, DocumentSymbol, Hover, Location, Range};
use crate::span::Span;
use vstd::prelude::*;

verus! {

/// lsp-types' `CompletionResponse`, handed through as it is.
#[verifier::external_type_specification]
#[verifier::external_body]
pub struct ExCompletionResponse(lsp_types::CompletionResponse);

/// lsp-types' `CodeAction`, handed through as it is.
#[verifier::external_type_specification]
#[verifier::external_body]
pub struct ExCodeAction(lsp_types::CodeAction);

impl<C> Document<C> {
    /// The document is fit to be handed to a language: well formed, and with
    /// positions that fit the protocol's integers.
    pub open spec fn presentable(&self) -> bool {
        self.wf() && crate::document::fits(self.content())
    }
}

/// The language-specific half of a server.
///
/// Implement this and hand it to a server loop. Everything else — lifecycle,
/// change bookkeeping, diagnostics publishing, symbol dispatch — is the
/// skeleton's job.
pub trait Language<C: Clone + PartialEq + Send + 'static>: Send + Sync + 'static {
    /// Whether to advertise and answer `textDocument/documentSymbol`.
    /// Defaults to `false`; flip to `true` and override [`symbols`](Self::symbols).
    ///
    /// For per-instance decisions (e.g. capability discovered from a config
    /// file), override [`supports_symbols`](Self::supports_symbols) instead —
    /// it defaults to this constant.
    const SUPPORTS_SYMBOLS: bool = false;

    /// Runtime hook for symbol support; defaults to
    /// [`SUPPORTS_SYMBOLS`](Self::SUPPORTS_SYMBOLS).
    fn supports_symbols(&self) -> (supported: bool)
        default_ensures
            supported == Self::SUPPORTS_SYMBOLS,
    {
        Self::SUPPORTS_SYMBOLS
    }

    /// The pass schedule run over every document.
    fn engine(&self) -> &Engine<C>;

    /// Context for a freshly opened document's root region.
    fn root_ctx(&self) -> C;

    /// The position encoding to negotiate with the client.
    /// Defaults to UTF-16, the LSP default and what most clients use.
    fn encoding(&self) -> (encoding: PositionEncoding)
        default_ensures
            encoding is Utf16,
    {
        PositionEncoding::Utf16
    }

    /// Renders the diagnostic for a failing region, or `None` to stay
    /// silent (e.g. for contexts whose failure is expected).
    ///
    /// `doc` gives access to the document's text, URI, and version; the
    /// returned diagnostic's range may be left empty, in which case it is
    /// filled in from the node's span.
    fn diagnostic(&self, doc: &Document<C>, node: FailedNode<'_, C>) -> Option<Diagnostic>
        requires
            doc.presentable(),
    ;

    /// Diagnostics that do not come from parse failures — lint-rule
    /// violations, style warnings, anything computed from the settled
    /// document rather than a failing tree node. Merged into the same
    /// `publishDiagnostics` notification, after the parse diagnostics.
    fn extra_diagnostics(&self, doc: &Document<C>) -> (diagnostics: Vec<Diagnostic>)
        requires
            doc.presentable(),
        default_ensures
            diagnostics@.len() == 0,
    {
        Vec::new()
    }

    /// The document symbols for the outline view. Only consulted when
    /// [`supports_symbols`](Self::supports_symbols) is `true`.
    fn symbols(&self, doc: &Document<C>) -> (symbols: Vec<DocumentSymbol>)
        requires
            doc.presentable(),
        default_ensures
            symbols@.len() == 0,
    {
        Vec::new()
    }

    /// Runtime hook for hover support; defaults to `false`.
    fn supports_hover(&self) -> (supported: bool)
        default_ensures
            !supported,
    {
        false
    }

    /// Runtime hook for go-to-definition support; defaults to `false`.
    fn supports_definition(&self) -> (supported: bool)
        default_ensures
            !supported,
    {
        false
    }

    /// Runtime hook for completion support; defaults to `false`.
    fn supports_completion(&self) -> (supported: bool)
        default_ensures
            !supported,
    {
        false
    }

    /// Runtime hook for code-action support (the editor's quickfix
    /// lightbulb); defaults to `false`.
    fn supports_code_actions(&self) -> (supported: bool)
        default_ensures
            !supported,
    {
        false
    }

    /// Code actions for the given range — typically quickfixes for the
    /// diagnostics published there. Only consulted when
    /// [`supports_code_actions`](Self::supports_code_actions) is `true`.
    fn code_action(&self, doc: &Document<C>, range: Range) -> (actions: Vec<lsp_types::CodeAction>)
        requires
            doc.presentable(),
        default_ensures
            actions@.len() == 0,
    {
        Vec::new()
    }

    /// Hover contents for the byte `offset` in `doc`, or `None`.
    ///
    /// The skeleton converts the client's position (in the negotiated
    /// encoding) to a byte offset before calling this, so implementations
    /// never touch position math.
    fn hover(&self, doc: &Document<C>, offset: usize) -> (hover: Option<Hover>)
        requires
            doc.presentable(),
        default_ensures
            hover is None,
    {
        None
    }

    /// Definition locations for the byte `offset` in `doc`, or `None`.
    fn definition(&self, doc: &Document<C>, offset: usize) -> (locations: Option<Vec<Location>>)
        requires
            doc.presentable(),
        default_ensures
            locations is None,
    {
        None
    }

    /// Completions for the byte `offset` in `doc`, or `None`.
    fn completion(&self, doc: &Document<C>, offset: usize) -> (completions: Option<
        lsp_types::CompletionResponse,
    >)
        requires
            doc.presentable(),
        default_ensures
            completions is None,
    {
        None
    }
}

/// Whatever engine the language gives, its passes take every region of every
/// text.
pub open spec fn parses_anything<C: Clone + PartialEq + Send + 'static, L: Language<C>>(
    language: &L,
) -> bool {
    forall|engine: &Engine<C>, source: &str, root: Span|
        #![trigger engine.takes(source, root), call_ensures(L::engine, (language,), engine)]
        call_ensures(L::engine, (language,), engine) ==> engine.takes(source, root)
}

} // verus!
