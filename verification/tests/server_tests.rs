//! What a server decides: capabilities, routing, documents and replies.

use increparse::server::{
    capabilities, handle_notification, handle_request, request_kind, route_notification,
    route_request, Notification, NotificationKind, Publication, Reply, Request, RequestKind,
};
use increparse::{
    ContentChange, Diagnostic, DiagnosticCode, DiagnosticSeverity, DiagnosticTag, Document,
    DocumentSymbol, Documents, Engine, FailedNode, Hover, HoverContents, Language, Location,
    MarkedString, MarkupKind, NodeLabel, Outcome, Pass, Position, PositionEncoding, Range,
    RelatedInformation, SimpleLanguage, Span, SymbolKind, SymbolTag,
};
use std::sync::atomic::{AtomicUsize, Ordering};
use std::sync::Arc;

fn hover_text(text: String) -> HoverContents {
    HoverContents::Scalar(MarkedString::Text(text))
}

#[derive(Clone, Debug, PartialEq, Eq)]
enum Ctx {
    File,
    Region { name: &'static str },
}

/// Round 0: splits the file at byte 4 into two named regions.
struct Split;

impl Pass for Split {
    type Ctx = Ctx;

    fn parse(&self, _source: &str, span: Span, ctx: &Ctx) -> Outcome<Ctx> {
        if !matches!(ctx, Ctx::File) {
            return Outcome::Failed;
        }
        let split = (span.start + 4).min(span.end);
        Outcome::Expand(vec![
            (
                Span::new(span.start, split, span.rev),
                Ctx::Region { name: "left" },
            ),
            (
                Span::new(split, span.end, span.rev),
                Ctx::Region { name: "right" },
            ),
        ])
    }
}

/// Round 1: fails regions containing `!`.
struct NoBang;

impl Pass for NoBang {
    type Ctx = Ctx;

    fn parse(&self, source: &str, span: Span, ctx: &Ctx) -> Outcome<Ctx> {
        if matches!(ctx, Ctx::File) || source[span.to_range()].contains('!') {
            Outcome::Failed
        } else {
            Outcome::Done
        }
    }
}

fn bare() -> SimpleLanguage<Ctx> {
    SimpleLanguage::new(Engine::with((Split, NoBang)), Ctx::File)
}

fn language(calls: Arc<AtomicUsize>) -> SimpleLanguage<Ctx> {
    bare()
        .diagnostic_fn(move |_doc, _node| {
            calls.fetch_add(1, Ordering::SeqCst);
            Some(Diagnostic {
                message: "bang".into(),
                ..Diagnostic::default()
            })
        })
        .label_fn(|ctx| match ctx {
            Ctx::File => None,
            Ctx::Region { name } => Some(NodeLabel::new(name)),
        })
}

fn at(line: u32, character: u32) -> Position {
    Position { line, character }
}

fn range(start: u32, end: u32) -> Range {
    Range {
        start: at(0, start),
        end: at(0, end),
    }
}

fn open(uri: &str, version: i32, text: &str) -> Notification {
    Notification::DidOpen {
        uri: uri.into(),
        version,
        text: text.into(),
    }
}

fn change(uri: &str, version: i32, over: Option<Range>, text: &str) -> Notification {
    Notification::DidChange {
        uri: uri.into(),
        version,
        changes: vec![ContentChange {
            range: over,
            text: text.into(),
        }],
    }
}

fn tell<L: Language<Ctx>>(
    language: &L,
    documents: &mut Documents<Ctx>,
    notification: Notification,
) -> Option<Publication> {
    assert!(notification.can_apply(documents));
    handle_notification(language, documents, notification)
}

fn symbols<L: Language<Ctx>>(
    language: &L,
    documents: &Documents<Ctx>,
    uri: &str,
) -> Vec<DocumentSymbol> {
    match handle_request(language, documents, &Request::Symbols { uri: uri.into() }) {
        Reply::Symbols(symbols) => symbols,
        _ => panic!("not an outline"),
    }
}

#[test]
fn documents_are_opened_changed_outlined_and_closed() {
    let calls = Arc::new(AtomicUsize::new(0));
    let language = language(calls.clone());
    let mut documents = Documents::new();

    // A bang in the right region: one diagnostic, at that region.
    let published = tell(&language, &mut documents, open("file:///s", 0, "abcdef!ghij")).unwrap();
    assert_eq!(published.uri, "file:///s");
    assert_eq!(published.version, Some(0));
    assert_eq!(published.diagnostics.len(), 1);
    assert_eq!(published.diagnostics[0].message, "bang");
    assert_eq!(published.diagnostics[0].range, range(4, 11));

    // Both regions, in creation order, named by the label hook.
    let outline = symbols(&language, &documents, "file:///s");
    let names: Vec<&str> = outline.iter().map(|s| s.name.as_str()).collect();
    assert_eq!(names, ["left", "right"]);
    assert_eq!(outline[0].range, range(0, 4));
    assert_eq!(outline[1].selection_range, range(4, 11));
    assert_eq!(outline[0].kind, SymbolKind::Function);

    // Fixing the bang clears the diagnostics.
    let fixed = change("file:///s", 1, Some(range(6, 7)), "X");
    let published = tell(&language, &mut documents, fixed).unwrap();
    assert_eq!(published.version, Some(1));
    assert!(published.diagnostics.is_empty());
    assert_eq!(documents.get("file:///s").unwrap().text(), "abcdefXghij");
    assert_eq!(calls.load(Ordering::SeqCst), 1);

    // Closing clears the diagnostics and forgets the document.
    let close = Notification::DidClose {
        uri: "file:///s".into(),
    };
    let published = tell(&language, &mut documents, close).unwrap();
    assert_eq!(
        published,
        Publication {
            uri: "file:///s".into(),
            diagnostics: vec![],
            version: None
        }
    );
    assert!(documents.get("file:///s").is_none());
    assert!(symbols(&language, &documents, "file:///s").is_empty());
}

#[test]
fn changes_to_an_unknown_document_are_ignored() {
    let language = bare();
    let mut documents = Documents::new();
    tell(&language, &mut documents, open("a", 0, "abcdefgh"));

    let ignored = change("b", 1, None, "new");
    assert_eq!(tell(&language, &mut documents, ignored), None);
    assert!(documents.get("b").is_none());
    assert_eq!(documents.get("a").unwrap().text(), "abcdefgh");
    assert_eq!(documents.get("a").unwrap().version(), 0);
}

#[test]
fn documents_are_kept_apart() {
    let language = bare();
    let mut documents = Documents::new();
    tell(&language, &mut documents, open("a", 0, "first text"));
    tell(&language, &mut documents, open("b", 3, "second text"));
    tell(&language, &mut documents, change("a", 1, None, "third"));
    assert_eq!(documents.get("a").unwrap().text(), "third");
    assert_eq!(documents.get("a").unwrap().version(), 1);
    assert_eq!(documents.get("b").unwrap().text(), "second text");
    assert_eq!(documents.get("b").unwrap().version(), 3);

    // Opening again replaces; closing one keeps the other.
    tell(&language, &mut documents, open("a", 7, "again"));
    assert_eq!(documents.get("a").unwrap().revision(), 0);
    tell(
        &language,
        &mut documents,
        Notification::DidClose { uri: "a".into() },
    );
    assert!(documents.get("a").is_none());
    assert_eq!(documents.get("b").unwrap().text(), "second text");
}

#[test]
fn a_change_that_splits_a_character_cannot_be_applied() {
    let language = bare().encoding(PositionEncoding::Utf8);
    let mut documents = Documents::new();
    tell(&language, &mut documents, open("a", 0, "aé"));
    assert!(!change("a", 1, Some(range(2, 2)), "x").can_apply(&documents));
    assert!(change("a", 1, Some(range(1, 3)), "x").can_apply(&documents));
    assert!(change("b", 1, Some(range(2, 2)), "x").can_apply(&documents));
}

#[test]
fn requests_are_routed_by_method_and_support() {
    let methods = [
        ("textDocument/documentSymbol", RequestKind::Symbols),
        ("textDocument/hover", RequestKind::Hover),
        ("textDocument/definition", RequestKind::Definition),
        ("textDocument/completion", RequestKind::Completion),
        ("textDocument/codeAction", RequestKind::CodeAction),
    ];
    for (method, kind) in methods {
        assert_eq!(request_kind(method), Some(kind));
        assert_eq!(route_request(&bare(), method), None, "{method}");
    }
    assert_eq!(request_kind("textDocument/rename"), None);

    let language = bare()
        .label_fn(|_ctx| None)
        .describe_fn(|_ctx| None)
        .definition_fn(|_doc, _offset| None)
        .completion_fn(|_doc, _offset| None);
    for (method, kind) in methods {
        let routed = if kind == RequestKind::CodeAction {
            None
        } else {
            Some(kind)
        };
        assert_eq!(route_request(&language, method), routed, "{method}");
    }
}

#[test]
fn notifications_are_routed_by_method() {
    assert_eq!(
        route_notification("textDocument/didOpen"),
        Some(NotificationKind::DidOpen)
    );
    assert_eq!(
        route_notification("textDocument/didChange"),
        Some(NotificationKind::DidChange)
    );
    assert_eq!(
        route_notification("textDocument/didClose"),
        Some(NotificationKind::DidClose)
    );
    assert_eq!(route_notification("textDocument/didSave"), None);
    assert_eq!(route_notification("initialized"), None);
}

#[test]
fn capabilities_follow_the_hooks() {
    let none = capabilities(&bare());
    assert_eq!(none.position_encoding, "utf-16");
    assert!(!none.symbols && !none.hover && !none.definition);
    assert!(!none.completion && !none.code_actions);

    let all = capabilities(
        &bare()
            .encoding(PositionEncoding::Utf8)
            .symbols_fn(|_doc| vec![])
            .hover_fn(|_doc, _offset| None)
            .definition_fn(|_doc, _offset| None)
            .completion_fn(|_doc, _offset| None),
    );
    assert_eq!(all.position_encoding, "utf-8");
    assert!(all.symbols && all.hover && all.definition && all.completion);
    assert!(!all.code_actions);
}

#[test]
fn hovering_describes_the_deepest_node() {
    let language = bare().describe_fn(|ctx| match ctx {
        Ctx::File => None,
        Ctx::Region { name } => Some(format!("the {name} region")),
    });
    let mut documents = Documents::new();
    tell(&language, &mut documents, open("a", 0, "abcdef!ghij"));
    let hover = |position| match handle_request(
        &language,
        &documents,
        &Request::Hover {
            uri: "a".into(),
            position,
        },
    ) {
        Reply::Hover(hover) => hover,
        _ => panic!("not a hover"),
    };
    assert_eq!(
        hover(at(0, 6)),
        Some(Hover {
            contents: hover_text("the right region".into()),
            range: Some(range(4, 11))
        })
    );
    assert_eq!(
        hover(at(0, 0)).map(|h| h.contents),
        Some(hover_text("the left region".into()))
    );
    // Past the end there is no node.
    assert_eq!(hover(at(0, 99)), None);
}

#[test]
fn full_control_hooks_win() {
    let own = DocumentSymbol {
        name: "own".into(),
        detail: Some("of the document".into()),
        kind: SymbolKind::Module,
        range: range(0, 1),
        selection_range: range(0, 1),
        children: None,
        tags: None,
        deprecated: None,
    };
    let given = own.clone();
    let language = bare()
        .label_fn(|_ctx| Some(NodeLabel::new("labelled")))
        .symbols_fn(move |_doc| vec![given.clone()])
        .describe_fn(|_ctx| Some("described".into()))
        .hover_fn(|_doc, offset| {
            Some(Hover {
                contents: hover_text(format!("at {offset}")),
                range: None,
            })
        });
    let mut documents = Documents::new();
    tell(&language, &mut documents, open("a", 0, "éab😀!ghij"));
    assert_eq!(symbols(&language, &documents, "a"), vec![own]);
    // Character 5 in UTF-16 is byte 8, past a two-byte and a four-byte character.
    let request = Request::Hover {
        uri: "a".into(),
        position: at(0, 5),
    };
    match handle_request(&language, &documents, &request) {
        Reply::Hover(Some(hover)) => assert_eq!(hover.contents, hover_text("at 8".into())),
        _ => panic!("not a hover"),
    }
}

#[test]
fn definitions_and_completions_come_from_their_hooks() {
    let language = bare()
        .definition_fn(|doc, offset| {
            let tree = doc.session().tree();
            let id = tree.node_at(offset)?;
            Some(vec![doc.location(tree.span(id))])
        })
        .completion_fn(|_doc, _offset| {
            Some(lsp_types::CompletionResponse::Array(vec![
                lsp_types::CompletionItem {
                    label: "left".into(),
                    ..Default::default()
                },
            ]))
        });
    let mut documents = Documents::new();
    tell(&language, &mut documents, open("a", 0, "abcdef!ghij"));
    let place = |uri: &str| (String::from(uri), at(0, 6));

    let (uri, position) = place("a");
    match handle_request(&language, &documents, &Request::Definition { uri, position }) {
        Reply::Definition(locations) => assert_eq!(
            locations,
            Some(vec![Location {
                uri: "a".into(),
                range: range(4, 11)
            }])
        ),
        _ => panic!("not a definition"),
    }
    let (uri, position) = place("a");
    match handle_request(&language, &documents, &Request::Completion { uri, position }) {
        Reply::Completion(Some(lsp_types::CompletionResponse::Array(items))) => {
            assert_eq!(items[0].label, "left")
        }
        _ => panic!("not a completion"),
    }

    // Nothing is known of documents that are not open.
    let (uri, position) = place("b");
    match handle_request(&language, &documents, &Request::Definition { uri, position }) {
        Reply::Definition(locations) => assert_eq!(locations, None),
        _ => panic!("not a definition"),
    }
    let (uri, position) = place("b");
    match handle_request(&language, &documents, &Request::Completion { uri, position }) {
        Reply::Completion(completions) => assert!(completions.is_none()),
        _ => panic!("not a completion"),
    }
}

/// A language written out in full, with lints and code actions.
struct Linted {
    engine: Engine<Ctx>,
}

impl Language<Ctx> for Linted {
    const SUPPORTS_SYMBOLS: bool = true;

    fn engine(&self) -> &Engine<Ctx> {
        &self.engine
    }

    fn root_ctx(&self) -> Ctx {
        Ctx::File
    }

    fn diagnostic(&self, _doc: &Document<Ctx>, node: FailedNode<'_, Ctx>) -> Option<Diagnostic> {
        Some(Diagnostic {
            message: format!("{:?}", node.ctx),
            severity: Some(DiagnosticSeverity::Error),
            ..Diagnostic::default()
        })
    }

    fn extra_diagnostics(&self, doc: &Document<Ctx>) -> Vec<Diagnostic> {
        vec![Diagnostic {
            message: format!("{} bytes", doc.text().len()),
            severity: Some(DiagnosticSeverity::Hint),
            ..Diagnostic::default()
        }]
    }

    fn supports_code_actions(&self) -> bool {
        true
    }

    fn code_action(&self, _doc: &Document<Ctx>, range: Range) -> Vec<lsp_types::CodeAction> {
        vec![lsp_types::CodeAction {
            title: format!("fix {}", range.start.character),
            ..Default::default()
        }]
    }
}

#[test]
fn lints_follow_parse_diagnostics() {
    let language = Linted {
        engine: Engine::with((Split, NoBang)),
    };
    let mut documents = Documents::new();
    let published = tell(&language, &mut documents, open("a", 2, "abc!def!")).unwrap();
    let messages: Vec<&str> = published
        .diagnostics
        .iter()
        .map(|d| d.message.as_str())
        .collect();
    assert_eq!(
        messages,
        [
            "Region { name: \"left\" }",
            "Region { name: \"right\" }",
            "8 bytes"
        ]
    );
    // A lint keeps the range it came with.
    assert_eq!(published.diagnostics[0].range, range(0, 4));
    assert_eq!(published.diagnostics[2].range, Range::default());
    assert_eq!(
        published.diagnostics[2].severity,
        Some(DiagnosticSeverity::Hint)
    );

    // What is left at its default: the constant decides on symbols, and the
    // outline is empty.
    assert!(capabilities(&language).symbols);
    assert!(capabilities(&language).code_actions);
    assert!(symbols(&language, &documents, "a").is_empty());
    let request = |uri: &str| Request::CodeAction {
        uri: uri.into(),
        range: range(3, 4),
    };
    match handle_request(&language, &documents, &request("a")) {
        Reply::CodeActions(actions) => assert_eq!(actions[0].title, "fix 3"),
        _ => panic!("not actions"),
    }
    match handle_request(&language, &documents, &request("b")) {
        Reply::CodeActions(actions) => assert!(actions.is_empty()),
        _ => panic!("not actions"),
    }
}

#[test]
fn labels_carry_detail_and_kind() {
    let language = bare().label_fn(|ctx| match ctx {
        Ctx::File => Some(NodeLabel::new("file").kind(SymbolKind::File)),
        Ctx::Region { name } => Some(NodeLabel::new(name).detail("region")),
    });
    let mut documents = Documents::new();
    tell(&language, &mut documents, open("a", 0, "abcdefgh"));
    let outline = symbols(&language, &documents, "a");
    assert_eq!(outline.len(), 3);
    assert_eq!(outline[0].name, "file");
    assert_eq!(outline[0].kind, SymbolKind::File);
    assert_eq!(outline[0].detail, None);
    assert_eq!(outline[1].detail.as_deref(), Some("region"));
    assert_eq!(outline[1].kind, SymbolKind::Function);
    assert!(outline.iter().all(|s| s.children.is_none()));
}

#[test]
fn cloned_symbols_are_equal() {
    let leaf = DocumentSymbol {
        name: "leaf".into(),
        detail: None,
        kind: SymbolKind::Key,
        range: range(1, 2),
        selection_range: range(1, 2),
        children: None,
        tags: None,
        deprecated: None,
    };
    let node = DocumentSymbol {
        name: "node".into(),
        detail: Some("two leaves".into()),
        kind: SymbolKind::Object,
        range: range(0, 3),
        selection_range: range(0, 1),
        children: Some(vec![leaf.clone(), leaf]),
        tags: None,
        deprecated: None,
    };
    assert_eq!(node.clone(), node);
    assert_eq!(node.children.as_ref().map(|c| c.len()), Some(2));
}

#[test]
fn hooks_may_say_all_that_the_protocol_carries() {
    let full = Diagnostic {
        range: range(1, 2),
        severity: Some(DiagnosticSeverity::Hint),
        code: Some(DiagnosticCode::Number(42)),
        code_description: Some("https://example.com/42".into()),
        source: Some("test".into()),
        message: "m".into(),
        related_information: Some(vec![RelatedInformation {
            location: Location { uri: "b".into(), range: range(3, 4) },
            message: "see there".into(),
        }]),
        tags: Some(vec![DiagnosticTag::Unnecessary, DiagnosticTag::Deprecated]),
        data: Some(serde_json::Value::Bool(true)),
    };
    let given = full.clone();
    let old = DocumentSymbol {
        name: "old".into(),
        detail: None,
        kind: SymbolKind::Key,
        range: range(0, 1),
        selection_range: range(0, 1),
        children: None,
        tags: Some(vec![SymbolTag::Deprecated]),
        deprecated: Some(true),
    };
    let listed = old.clone();
    let contents = HoverContents::Array(vec![
        MarkedString::Text("text".into()),
        MarkedString::Code { language: "lua".into(), value: "return 1".into() },
    ]);
    let shown = contents.clone();
    let language = bare()
        .diagnostic_fn(move |_doc, _node| Some(given.clone()))
        .symbols_fn(move |_doc| vec![listed.clone()])
        .hover_fn(move |_doc, offset| {
            Some(Hover {
                contents: if offset == 0 {
                    shown.clone()
                } else {
                    HoverContents::Markup { kind: MarkupKind::Markdown, value: "*m*".into() }
                },
                range: None,
            })
        });
    let mut documents = Documents::new();
    let published = tell(&language, &mut documents, open("a", 0, "abcd!fgh")).unwrap();
    assert_eq!(published.diagnostics, vec![full]);
    assert_eq!(symbols(&language, &documents, "a"), vec![old]);
    let hover = |character: u32| {
        let position = Position { line: 0, character };
        match handle_request(&language, &documents, &Request::Hover { uri: "a".into(), position }) {
            Reply::Hover(Some(hover)) => hover.contents,
            _ => panic!("nothing to show"),
        }
    };
    assert_eq!(hover(0), contents);
    assert_eq!(
        hover(1),
        HoverContents::Markup { kind: MarkupKind::Markdown, value: "*m*".into() }
    );
}
