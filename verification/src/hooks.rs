//! Closures of any type, boxed: the hooks a
//! [`SimpleLanguage`](crate::SimpleLanguage) is built from.

use crate::diagnostics::FailedNode;
use crate::document::Document;
use crate::lsp::{Diagnostic, DocumentSymbol, Hover, Location, SymbolKind};
use vstd::prelude::*;

verus! {

/// A closure from a document and one of its failing nodes to a diagnostic.
///
/// Every such closure is one; write closures rather than implementing this
/// trait.
pub trait DiagnosticHook<C>: Send + Sync {
    /// The inputs on which [`render`](DiagnosticHook::render) may be called.
    spec fn renders(&self, doc: &Document<C>, node: &FailedNode<'_, C>) -> bool;

    /// The answers [`render`](DiagnosticHook::render) may give.
    spec fn may_render(
        &self,
        doc: &Document<C>,
        node: &FailedNode<'_, C>,
        answer: Option<Diagnostic>,
    ) -> bool;

    /// Calls the closure.
    fn render(&self, doc: &Document<C>, node: &FailedNode<'_, C>) -> (answer: Option<Diagnostic>)
        requires
            self.renders(doc, node),
        ensures
            self.may_render(doc, node, answer),
    ;
}

impl<C, F> DiagnosticHook<C> for F where
    F: Fn(&Document<C>, &FailedNode<'_, C>) -> Option<Diagnostic> + Send + Sync,
 {
    open spec fn renders(&self, doc: &Document<C>, node: &FailedNode<'_, C>) -> bool {
        call_requires(*self, (doc, node))
    }

    open spec fn may_render(
        &self,
        doc: &Document<C>,
        node: &FailedNode<'_, C>,
        answer: Option<Diagnostic>,
    ) -> bool {
        call_ensures(*self, (doc, node), answer)
    }

    fn render(&self, doc: &Document<C>, node: &FailedNode<'_, C>) -> (answer: Option<Diagnostic>) {
        self(doc, node)
    }
}

/// The closure behind
/// [`SimpleLanguage::diagnostic_fn`](crate::SimpleLanguage::diagnostic_fn).
#[verifier::reject_recursive_types(C)]
pub struct DiagnosticFn<C> {
    hook: Box<dyn DiagnosticHook<C>>,
}

impl<C> DiagnosticFn<C> {
    /// The closure takes every presentable document.
    #[verifier::type_invariant]
    spec fn total(&self) -> bool {
        forall|doc: &Document<C>, node: &FailedNode<'_, C>|
            doc.presentable() ==> #[trigger] self.hook.renders(doc, node)
    }

    /// The answers the closure may give.
    pub closed spec fn may_return(
        &self,
        doc: &Document<C>,
        node: &FailedNode<'_, C>,
        answer: Option<Diagnostic>,
    ) -> bool {
        self.hook.may_render(doc, node, answer)
    }

    /// The boxed closure answers exactly as `f`.
    pub open spec fn holds<F>(&self, f: &F) -> bool where
        F: Fn(&Document<C>, &FailedNode<'_, C>) -> Option<Diagnostic>,
     {
        forall|doc: &Document<C>, node: &FailedNode<'_, C>, answer: Option<Diagnostic>| #[trigger]
            self.may_return(doc, node, answer) == call_ensures(*f, (doc, node), answer)
    }

    /// Boxes `f`.
    pub fn new<F>(f: F) -> (boxed: Self) where
        F: Fn(&Document<C>, &FailedNode<'_, C>) -> Option<Diagnostic> + Send + Sync + 'static,

        requires
            forall|doc: &Document<C>, node: &FailedNode<'_, C>|
                doc.presentable() ==> #[trigger] call_requires(f, (doc, node)),
        ensures
            boxed.holds(&f),
    {
        let ghost given = f;
        let boxed: DiagnosticFn<C> = DiagnosticFn { hook: Box::new(f) };
        assert(boxed.holds(&given));
        boxed
    }

    /// Calls the closure.
    pub fn call(&self, doc: &Document<C>, node: &FailedNode<'_, C>) -> (answer: Option<Diagnostic>)
        requires
            doc.presentable(),
        ensures
            self.may_return(doc, node, answer),
    {
        proof {
            use_type_invariant(self);
        }
        self.hook.render(doc, node)
    }
}

/// A closure from a document to its outline.
///
/// Every such closure is one; write closures rather than implementing this
/// trait.
pub trait SymbolsHook<C>: Send + Sync {
    /// The inputs on which [`list`](SymbolsHook::list) may be called.
    spec fn lists(&self, doc: &Document<C>) -> bool;

    /// The answers [`list`](SymbolsHook::list) may give.
    spec fn may_list(&self, doc: &Document<C>, answer: Vec<DocumentSymbol>) -> bool;

    /// Calls the closure.
    fn list(&self, doc: &Document<C>) -> (answer: Vec<DocumentSymbol>)
        requires
            self.lists(doc),
        ensures
            self.may_list(doc, answer),
    ;
}

impl<C, F> SymbolsHook<C> for F where F: Fn(&Document<C>) -> Vec<DocumentSymbol> + Send + Sync {
    open spec fn lists(&self, doc: &Document<C>) -> bool {
        call_requires(*self, (doc,))
    }

    open spec fn may_list(&self, doc: &Document<C>, answer: Vec<DocumentSymbol>) -> bool {
        call_ensures(*self, (doc,), answer)
    }

    fn list(&self, doc: &Document<C>) -> (answer: Vec<DocumentSymbol>) {
        self(doc)
    }
}

/// The closure behind
/// [`SimpleLanguage::symbols_fn`](crate::SimpleLanguage::symbols_fn).
#[verifier::reject_recursive_types(C)]
pub struct SymbolsFn<C> {
    hook: Box<dyn SymbolsHook<C>>,
}

impl<C> SymbolsFn<C> {
    /// The closure takes every presentable document.
    #[verifier::type_invariant]
    spec fn total(&self) -> bool {
        forall|doc: &Document<C>| doc.presentable() ==> #[trigger] self.hook.lists(doc)
    }

    /// The answers the closure may give.
    pub closed spec fn may_return(&self, doc: &Document<C>, answer: Vec<DocumentSymbol>) -> bool {
        self.hook.may_list(doc, answer)
    }

    /// The boxed closure answers exactly as `f`.
    pub open spec fn holds<F>(&self, f: &F) -> bool where
        F: Fn(&Document<C>) -> Vec<DocumentSymbol>,
     {
        forall|doc: &Document<C>, answer: Vec<DocumentSymbol>| #[trigger]
            self.may_return(doc, answer) == call_ensures(*f, (doc,), answer)
    }

    /// Boxes `f`.
    pub fn new<F>(f: F) -> (boxed: Self) where
        F: Fn(&Document<C>) -> Vec<DocumentSymbol> + Send + Sync + 'static,

        requires
            forall|doc: &Document<C>| doc.presentable() ==> #[trigger] call_requires(f, (doc,)),
        ensures
            boxed.holds(&f),
    {
        let ghost given = f;
        let boxed: SymbolsFn<C> = SymbolsFn { hook: Box::new(f) };
        assert(boxed.holds(&given));
        boxed
    }

    /// Calls the closure.
    pub fn call(&self, doc: &Document<C>) -> (answer: Vec<DocumentSymbol>)
        requires
            doc.presentable(),
        ensures
            self.may_return(doc, answer),
    {
        proof {
            use_type_invariant(self);
        }
        self.hook.list(doc)
    }
}

/// A closure from a node's context to something said of the node.
///
/// Every such closure is one; write closures rather than implementing this
/// trait.
pub trait NodeHook<C, R>: Send + Sync {
    /// The inputs on which [`tell`](NodeHook::tell) may be called.
    spec fn tells(&self, ctx: &C) -> bool;

    /// The answers [`tell`](NodeHook::tell) may give.
    spec fn may_tell(&self, ctx: &C, answer: Option<R>) -> bool;

    /// Calls the closure.
    fn tell(&self, ctx: &C) -> (answer: Option<R>)
        requires
            self.tells(ctx),
        ensures
            self.may_tell(ctx, answer),
    ;
}

impl<C, R, F> NodeHook<C, R> for F where F: Fn(&C) -> Option<R> + Send + Sync {
    open spec fn tells(&self, ctx: &C) -> bool {
        call_requires(*self, (ctx,))
    }

    open spec fn may_tell(&self, ctx: &C, answer: Option<R>) -> bool {
        call_ensures(*self, (ctx,), answer)
    }

    fn tell(&self, ctx: &C) -> (answer: Option<R>) {
        self(ctx)
    }
}

/// A boxed closure from a node's context to something said of the node.
#[verifier::reject_recursive_types(C)]
#[verifier::reject_recursive_types(R)]
pub struct NodeFn<C, R> {
    hook: Box<dyn NodeHook<C, R>>,
}

impl<C, R> NodeFn<C, R> {
    /// The closure takes every context.
    #[verifier::type_invariant]
    spec fn total(&self) -> bool {
        forall|ctx: &C| #[trigger] self.hook.tells(ctx)
    }

    /// The answers the closure may give.
    pub closed spec fn may_return(&self, ctx: &C, answer: Option<R>) -> bool {
        self.hook.may_tell(ctx, answer)
    }

    /// The boxed closure answers exactly as `f`.
    pub open spec fn holds<F>(&self, f: &F) -> bool where F: Fn(&C) -> Option<R> {
        forall|ctx: &C, answer: Option<R>| #[trigger]
            self.may_return(ctx, answer) == call_ensures(*f, (ctx,), answer)
    }

    /// Boxes `f`.
    pub fn new<F>(f: F) -> (boxed: Self) where F: Fn(&C) -> Option<R> + Send + Sync + 'static
        requires
            forall|ctx: &C| #[trigger] call_requires(f, (ctx,)),
        ensures
            boxed.holds(&f),
    {
        let ghost given = f;
        let boxed: NodeFn<C, R> = NodeFn { hook: Box::new(f) };
        assert(boxed.holds(&given));
        boxed
    }

    /// Calls the closure.
    pub fn call(&self, ctx: &C) -> (answer: Option<R>)
        ensures
            self.may_return(ctx, answer),
    {
        proof {
            use_type_invariant(self);
        }
        self.hook.tell(ctx)
    }
}

/// A closure from a document and a byte offset in it to an answer.
///
/// Every such closure is one; write closures rather than implementing this
/// trait.
pub trait OffsetHook<C, R>: Send + Sync {
    /// The inputs on which [`look_up`](OffsetHook::look_up) may be called.
    spec fn looks_up(&self, doc: &Document<C>, offset: usize) -> bool;

    /// The answers [`look_up`](OffsetHook::look_up) may give.
    spec fn may_look_up(&self, doc: &Document<C>, offset: usize, answer: Option<R>) -> bool;

    /// Calls the closure.
    fn look_up(&self, doc: &Document<C>, offset: usize) -> (answer: Option<R>)
        requires
            self.looks_up(doc, offset),
        ensures
            self.may_look_up(doc, offset, answer),
    ;
}

impl<C, R, F> OffsetHook<C, R> for F where F: Fn(&Document<C>, usize) -> Option<R> + Send + Sync {
    open spec fn looks_up(&self, doc: &Document<C>, offset: usize) -> bool {
        call_requires(*self, (doc, offset))
    }

    open spec fn may_look_up(&self, doc: &Document<C>, offset: usize, answer: Option<R>) -> bool {
        call_ensures(*self, (doc, offset), answer)
    }

    fn look_up(&self, doc: &Document<C>, offset: usize) -> (answer: Option<R>) {
        self(doc, offset)
    }
}

/// A boxed closure from a document and a byte offset in it to an answer.
#[verifier::reject_recursive_types(C)]
#[verifier::reject_recursive_types(R)]
pub struct OffsetFn<C, R> {
    hook: Box<dyn OffsetHook<C, R>>,
}

impl<C, R> OffsetFn<C, R> {
    /// The closure takes every presentable document.
    #[verifier::type_invariant]
    spec fn total(&self) -> bool {
        forall|doc: &Document<C>, offset: usize|
            doc.presentable() ==> #[trigger] self.hook.looks_up(doc, offset)
    }

    /// The answers the closure may give.
    pub closed spec fn may_return(&self, doc: &Document<C>, offset: usize, answer: Option<R>) -> bool {
        self.hook.may_look_up(doc, offset, answer)
    }

    /// The boxed closure answers exactly as `f`.
    pub open spec fn holds<F>(&self, f: &F) -> bool where
        F: Fn(&Document<C>, usize) -> Option<R>,
     {
        forall|doc: &Document<C>, offset: usize, answer: Option<R>| #[trigger]
            self.may_return(doc, offset, answer) == call_ensures(*f, (doc, offset), answer)
    }

    /// Boxes `f`.
    pub fn new<F>(f: F) -> (boxed: Self) where
        F: Fn(&Document<C>, usize) -> Option<R> + Send + Sync + 'static,

        requires
            forall|doc: &Document<C>, offset: usize|
                doc.presentable() ==> #[trigger] call_requires(f, (doc, offset)),
        ensures
            boxed.holds(&f),
    {
        let ghost given = f;
        let boxed: OffsetFn<C, R> = OffsetFn { hook: Box::new(f) };
        assert(boxed.holds(&given));
        boxed
    }

    /// Calls the closure.
    pub fn call(&self, doc: &Document<C>, offset: usize) -> (answer: Option<R>)
        requires
            doc.presentable(),
        ensures
            self.may_return(doc, offset, answer),
    {
        proof {
            use_type_invariant(self);
        }
        self.hook.look_up(doc, offset)
    }
}

/// The closure behind [`SimpleLanguage::label_fn`](crate::SimpleLanguage::label_fn).
pub type LabelFn<C> = NodeFn<C, NodeLabel>;

/// The closure behind [`SimpleLanguage::describe_fn`](crate::SimpleLanguage::describe_fn).
pub type DescribeFn<C> = NodeFn<C, String>;

/// The closure behind [`SimpleLanguage::hover_fn`](crate::SimpleLanguage::hover_fn).
pub type HoverFn<C> = OffsetFn<C, Hover>;

/// The closure behind
/// [`SimpleLanguage::definition_fn`](crate::SimpleLanguage::definition_fn).
pub type DefinitionFn<C> = OffsetFn<C, Vec<Location>>;

/// The closure behind
/// [`SimpleLanguage::completion_fn`](crate::SimpleLanguage::completion_fn).
pub type CompletionFn<C> = OffsetFn<C, lsp_types::CompletionResponse>;

/// A display name (and optional detail) for one tree node — what
/// [`SimpleLanguage::label_fn`](crate::SimpleLanguage::label_fn) returns to
/// power the outline view.
#[derive(Debug, Clone, PartialEq, Eq)]
pub struct NodeLabel {
    /// The symbol's name.
    pub name: String,
    /// Optional detail shown next to the name (e.g. a parameter list).
    pub detail: Option<String>,
    /// What the symbol names; a function unless set otherwise.
    pub kind: SymbolKind,
}

impl NodeLabel {
    /// Creates a label with no detail, for a function.
    pub fn new(name: &str) -> (label: Self)
        ensures
            label.name@ == name@,
            label.detail is None,
            label.kind is Function,
    {
        NodeLabel { name: name.to_owned(), detail: None, kind: SymbolKind::Function }
    }

    /// Sets the detail string.
    pub fn detail(self, detail: &str) -> (label: Self)
        ensures
            label.name == self.name,
            label.detail is Some,
            (label.detail->0)@ == detail@,
            label.kind == self.kind,
    {
        NodeLabel { name: self.name, detail: Some(detail.to_owned()), kind: self.kind }
    }

    /// Sets what the symbol names.
    pub fn kind(self, kind: SymbolKind) -> (label: Self)
        ensures
            label == (NodeLabel { kind, ..self }),
    {
        NodeLabel { name: self.name, detail: self.detail, kind }
    }
}

} // verus!
