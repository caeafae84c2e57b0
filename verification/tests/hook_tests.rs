//! The interactive hooks of a language built from closures.

use increparse::{
    pass_fn, Diagnostic, Engine, Language, NodeLabel, Outcome, SimpleLanguage, SymbolKind,
};

#[derive(Clone, Debug, PartialEq, Eq)]
enum Ctx {
    File,
    Word { name: &'static str },
}

#[test]
fn describe_fn_and_hover_fn_are_shape_agnostic() {
    // A language of *sections and keys* — no functions anywhere. The hooks
    // only ever see contexts and byte offsets.
    let config = SimpleLanguage::new(
        Engine::with((pass_fn(|_s: &str, _p, _c: &Ctx| Outcome::Done),)),
        Ctx::File,
    )
    .diagnostic_fn(|_doc, node| {
        Some(Diagnostic {
            message: format!("status: {:?}", node.status),
            ..Diagnostic::default()
        })
    })
    .describe_fn(|ctx| match ctx {
        Ctx::File => None,
        Ctx::Word { name } => Some(format!("a {name} section of the config")),
    })
    .definition_fn(|doc, offset| {
        let tree = doc.session().tree();
        tree.node_at(offset)
            .map(|id| vec![doc.location(tree.span(id))])
    })
    .completion_fn(|_doc, _offset| None)
    .label_fn(|ctx| match ctx {
        Ctx::File => None,
        Ctx::Word { name } => Some(NodeLabel::new(*name).kind(SymbolKind::Struct)),
    });

    assert!(config.supports_symbols());
    assert!(config.supports_hover());
    assert!(config.supports_definition());
    assert!(config.supports_completion());
}
