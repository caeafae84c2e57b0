//! Multi-pass fixpoint parsing for editors, language servers and compilers.
//!
//! An [`Engine`] executes a [`Schedule`] of passes over a growing
//! [`ParseTree`] until the tree settles. Every [`Pass`] is a function from a
//! region of the source and its context to an [`Outcome`]: the region expands
//! into smaller regions, is accepted, or fails and stays in the tree as a
//! leaf. After an [`Edit`], a [`Session`] re-parses only what the edit reached
//! and reuses the rest.
//!
//! Around the engine stand
//!
//! * adapters that turn [nom](nom_pass) and [chumsky](chumsky_pass) parsers
//!   and [Lua functions](lua) into passes,
//! * a bridge to the Language Server Protocol: [`PositionEncoding`],
//!   [`LineIndex`], [`Document`] and [`diagnostics()`], and
//! * everything a [language server](server) decides, for any [`Language`].
//!
//! Contracts speak of trees as a [`model::TreeModel`] and of runs as
//! [`Engine::run_ok`]; what holds across calls is proved in [`laws`] and next
//! to the functions it is about.

pub mod cancel;
pub mod chumsky_pass;
pub mod decimal;
pub mod diagnostics;
pub mod document;
pub mod documents;
pub mod encoding;
pub mod engine;
pub mod executor;
pub mod executor_rayon;
pub mod hooks;
pub mod job;
pub mod language;
pub mod laws;
pub mod line_index;
pub mod lsp;
pub mod lua;
pub mod lua_data;
pub mod lua_language;
pub mod lua_notice;
pub mod lua_pass;
pub mod lua_table;
pub mod model;
pub mod node;
pub mod nom_pass;
pub mod outcome;
pub mod pass;
pub mod passes;
pub mod prelude;
pub mod rebase;
pub mod run;
pub mod run_laws;
pub mod schedule;
pub mod server;
pub mod session;
pub mod simple;
pub mod span;
pub mod status;
pub mod text;
pub mod tree;
pub mod violation;

pub use cancel::CancelToken;
pub use chumsky_pass::{chumsky_pass, ChumskyPass};
pub use diagnostics::{diagnostics, DiagnosticsOptions, FailedNode};
pub use document::Document;
pub use documents::Documents;
pub use encoding::PositionEncoding;
pub use engine::{Engine, EngineConfig, RunReport};
pub use executor::{Executor, SerialExecutor};
pub use executor_rayon::RayonExecutor;
pub use hooks::NodeLabel;
pub use job::Job;
pub use language::Language;
pub use line_index::LineIndex;
pub use lsp::{
    ContentChange, Diagnostic, DiagnosticCode, DiagnosticSeverity, DiagnosticTag, DocumentSymbol,
    Hover, HoverContents, Location, MarkedString, MarkupKind, Position, Range, RelatedInformation,
    SymbolKind, SymbolTag,
};
pub use lua::LuaCtx;
pub use lua_language::LuaLanguage;
pub use lua_notice::{LuaNotice, LuaWatch};
pub use node::NodeId;
pub use nom_pass::{nom_pass, NomPass};
pub use outcome::Outcome;
pub use pass::{pass_fn, Pass, PassFn};
pub use run::run;
pub use schedule::{BoxedPass, Schedule};
pub use session::{Edit, Session};
pub use simple::SimpleLanguage;
pub use span::Span;
pub use status::{Status, StatusCounts};
pub use tree::ParseTree;
pub use violation::{Violation, ViolationKind};
