//! A rule-based lint engine for Nix syntax trees: a diagnostic/report data
//! model over byte ranges, a kind-indexed rule registry, a single-pass tree
//! traversal driver, a fix applicator that rewrites source bytes, and an
//! adapter that turns parse failures into ordinary reports.

pub mod span;
pub mod text;
pub mod report;
pub mod tree;
pub mod contract;
pub mod lints;
pub mod registry;
pub mod driver;
pub mod parse;

pub use span::TextSpan;
pub use report::{Severity, Diagnostic, Suggestion, Report, ApplyError};
pub use tree::{Element, NodeKind};
pub use contract::{Rule, Metadata, Explain, Lint, SessionInfo};
pub use lints::{AnyLint, ManualInherit, ManualInheritFrom, all_lints};
pub use registry::Registry;
pub use driver::{run_lints, lint_source};
pub use parse::{parse_source, SyntaxError, ParseErrorInfo, RawEvent, build_forest};
