//! The contract a lint rule implementation must satisfy: behaviour
//! (`Rule`), static identity (`Metadata`), an optional long-form
//! explanation (`Explain`), and their conjunction (`Lint`), which also
//! demands that a rule only fires on node kinds it declares.

use vstd::prelude::*;
use crate::report::{Report, ReportModel, Severity};
use crate::tree::{Element, NodeKind};

verus! {

/// Opaque session information supplied by the caller and handed unchanged
/// to every rule invocation; the driver neither inspects nor mutates it.
pub struct SessionInfo {}

impl SessionInfo {
    pub fn new() -> (r: SessionInfo) {
        SessionInfo {  }
    }
}

/// An empty report carrying a rule's note and code, at default severity.
pub open spec fn empty_report(note: Seq<char>, code: u32) -> ReportModel {
    ReportModel { note, code, severity: Severity::Warn, diagnostics: Seq::empty() }
}

/// Behaviour of a lint rule: given one node and the source text it was
/// parsed from, optionally produce a report describing violations found at
/// or within that node. Rules are pure: two calls on equal inputs describe
/// the same report.
pub trait Rule {
    /// The report this rule produces on `node`, if any.
    spec fn validate_spec(&self, node: Element, src: Seq<u8>) -> Option<ReportModel>;

    /// Inspect `node`. The session value is passed through for rules that
    /// need information beyond a single node; the bundled rules do not.
    fn validate(&self, node: &Element, src: &Vec<u8>, sess: &SessionInfo) -> (r: Option<Report>)
        ensures
            match r {
                Some(rep) => self.validate_spec(*node, src@) == Some(rep@),
                None => self.validate_spec(*node, src@) is None,
            },
    ;
}

/// Static identity of a lint rule: name, note, numeric code, and the node
/// kinds the rule applies to. `match_kind` must list exactly the kinds
/// accepted by `match_with`; both contracts are phrased over the same
/// `matches_kind` spec, so the two can never drift apart.
pub trait Metadata {
    spec fn spec_name(&self) -> Seq<char>;

    spec fn spec_note(&self) -> Seq<char>;

    spec fn spec_code(&self) -> u32;

    /// Does this rule apply to nodes of kind `k`?
    spec fn matches_kind(&self, k: NodeKind) -> bool;

    fn name(&self) -> (r: String)
        ensures
            r@ == self.spec_name(),
    ;

    fn note(&self) -> (r: String)
        ensures
            r@ == self.spec_note(),
    ;

    fn code(&self) -> (r: u32)
        ensures
            r == self.spec_code(),
    ;

    /// An empty report pre-filled with this rule's note and code.
    fn report(&self) -> (r: Report)
        ensures
            r@ == empty_report(self.spec_note(), self.spec_code()),
    ;

    fn match_with(&self, with: &NodeKind) -> (r: bool)
        ensures
            r == self.matches_kind(*with),
    ;

    /// The complete set of kinds for which `match_with` answers true,
    /// each listed once.
    fn match_kind(&self) -> (r: Vec<NodeKind>)
        ensures
            r@.no_duplicates(),
            forall|k: NodeKind| r@.contains(k) <==> self.matches_kind(k),
    ;
}

/// Offline long-form explanation of a lint.
pub trait Explain {
    fn explanation(&self) -> &'static str {
        "no explanation found"
    }
}

/// A lint rule is the conjunction of behaviour, identity and explanation,
/// together with their coherence: a rule only ever fires on a node whose
/// kind it declares through `matches_kind`. The registry's dispatch
/// optimization is sound exactly because of this obligation.
pub trait Lint: Metadata + Explain + Rule + Send + Sync {
    proof fn validate_matches_kind(&self, node: Element, src: Seq<u8>)
        ensures
            self.validate_spec(node, src) is Some ==> self.matches_kind(node.kind),
    ;
}

} // verus!
