//! Everything a schedule of passes, a language and their tests usually need.

pub use crate::cancel::CancelToken;
pub use crate::diagnostics::{diagnostics, DiagnosticsOptions, FailedNode};
pub use crate::document::Document;
pub use crate::documents::Documents;
pub use crate::encoding::PositionEncoding;
pub use crate::engine::{Engine, EngineConfig, RunReport};
pub use crate::executor::{Executor, SerialExecutor};
pub use crate::executor_rayon::RayonExecutor;
pub use crate::hooks::NodeLabel;
pub use crate::job::Job;
pub use crate::language::Language;
pub use crate::line_index::LineIndex;
pub use crate::node::NodeId;
pub use crate::outcome::Outcome;
pub use crate::pass::{pass_fn, Pass, PassFn};
pub use crate::run::run;
pub use crate::schedule::{BoxedPass, Schedule};
pub use crate::session::{Edit, Session};
pub use crate::simple::SimpleLanguage;
pub use crate::span::Span;
pub use crate::status::{Status, StatusCounts};
pub use crate::tree::ParseTree;
pub use crate::violation::{Violation, ViolationKind};
