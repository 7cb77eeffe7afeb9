//! The bundled lint rules and the closed set of rules the registry is
//! built from. Each rule inspects the library's tree model and produces a
//! report whose exact shape its contract pins down.

use vstd::prelude::*;
use vstd::string::StringSliceAdditionalSpecFns;
use crate::span::TextSpan;
use crate::text::extend_with_range;
use crate::report::{
    Report, ReportModel, DiagnosticModel, Suggestion, SuggestionModel, Severity,
};
use crate::tree::{Element, NodeKind};
use crate::contract::{Rule, Metadata, Explain, Lint, SessionInfo};

verus! {

/// Append the UTF-8 bytes of `s` to `out`.
pub fn extend_with_str(out: &mut Vec<u8>, s: &str)
    ensures
        final(out)@ == old(out)@ + s.spec_bytes(),
{
    let bytes = vstd::slice::slice_to_vec(s.as_bytes());
    let n: usize = bytes.len();
    extend_with_range(out, &bytes, 0, n);
    proof {
        assert(bytes@.subrange(0, bytes@.len() as int) =~= bytes@);
    }
}

/// Do two spans of `src` hold the same bytes?
pub fn span_bytes_equal(src: &Vec<u8>, a: TextSpan, b: TextSpan) -> (r: bool)
    requires
        a.in_bounds(src@.len()),
        b.in_bounds(src@.len()),
    ensures
        r == (src@.subrange(a.start as int, a.end as int) == src@.subrange(
            b.start as int,
            b.end as int,
        )),
{
    let ghost sa = src@.subrange(a.start as int, a.end as int);
    let ghost sb = src@.subrange(b.start as int, b.end as int);
    if a.end - a.start != b.end - b.start {
        proof {
            assert(sa.len() != sb.len());
        }
        return false;
    }
    let len: usize = a.end - a.start;
    let mut j: usize = 0;
    while j < len
        invariant
            j <= len,
            len == a.end - a.start == b.end - b.start,
            a.in_bounds(src@.len()),
            b.in_bounds(src@.len()),
            sa == src@.subrange(a.start as int, a.end as int),
            sb == src@.subrange(b.start as int, b.end as int),
            forall|m: int| 0 <= m < j ==> sa[m] == sb[m],
        decreases len - j,
    {
        if src[a.start + j] != src[b.start + j] {
            proof {
                assert(sa[j as int] != sb[j as int]);
            }
            return false;
        }
        j = j + 1;
    }
    proof {
        assert(sa =~= sb);
    }
    true
}

/// The replacement text `inherit (SET) KEY;` built from the bytes of the
/// selected set and the key identifier.
pub open spec fn inherit_from_fix(src: Seq<u8>, set: TextSpan, key: TextSpan) -> Seq<u8> {
    "inherit (".spec_bytes() + src.subrange(set.start as int, set.end as int)
        + ") ".spec_bytes() + src.subrange(key.start as int, key.end as int) + ";".spec_bytes()
}

/// The replacement text `inherit KEY;` built from the bytes of the key
/// identifier.
pub open spec fn inherit_fix(src: Seq<u8>, key: TextSpan) -> Seq<u8> {
    "inherit ".spec_bytes() + src.subrange(key.start as int, key.end as int) + ";".spec_bytes()
}

/// The single-diagnostic report every bundled rule produces: the whole
/// binding is flagged, and the suggestion replaces it with `fix`.
pub open spec fn single_fix_report(
    note: Seq<char>,
    code: u32,
    at: TextSpan,
    message: Seq<u8>,
    fix: Seq<u8>,
) -> ReportModel {
    ReportModel {
        note,
        code,
        severity: Severity::Warn,
        diagnostics: seq![
            DiagnosticModel {
                at,
                message,
                suggestion: Some(SuggestionModel { at, fix }),
            },
        ],
    }
}

/// The message both inherit rules attach to their diagnostic.
pub open spec fn inherit_message() -> Seq<u8> {
    "This assignment is better written with `inherit`".spec_bytes()
}

/// The key identifier of a binding whose key path is a single identifier:
/// for `a = ...;`, the element holding `a`.
pub open spec fn single_ident_key(e: Element) -> Option<Element> {
    match e.spec_child_node(0) {
        None => None,
        Some(key) => if !(key.kind is Key) {
            None
        } else {
            match key.spec_child_node(0) {
                None => None,
                Some(k0) => if !(k0.kind is Ident) {
                    None
                } else if key.spec_child_node(1) is Some {
                    None
                } else {
                    Some(k0)
                },
            }
        },
    }
}

/// What the `manual inherit from` rule reports on `e` over `src`:
/// a binding `a = b.a;` whose key and selected attribute are the same
/// identifier is better written `inherit (b) a;`.
pub open spec fn manual_inherit_from_spec(e: Element, src: Seq<u8>) -> Option<ReportModel> {
    if !(e.kind is KeyValue) {
        None
    } else {
        match single_ident_key(e) {
            None => None,
            Some(k0) => match e.spec_child_node(1) {
                None => None,
                Some(value) => if !(value.kind is Select) {
                    None
                } else {
                    match (value.spec_child_node(0), value.spec_child_node(1)) {
                        (Some(set), Some(idx)) => if !(idx.kind is Ident)
                            || !k0.span.in_bounds(src.len()) || !idx.span.in_bounds(src.len())
                            || !set.span.in_bounds(src.len()) {
                            None
                        } else if src.subrange(k0.span.start as int, k0.span.end as int)
                            != src.subrange(idx.span.start as int, idx.span.end as int) {
                            None
                        } else {
                            Some(
                                single_fix_report(
                                    "Assignment instead of inherit from"@,
                                    4,
                                    e.span,
                                    inherit_message(),
                                    inherit_from_fix(src, set.span, k0.span),
                                ),
                            )
                        },
                        _ => None,
                    }
                },
            },
        }
    }
}

/// What the `manual inherit` rule reports on `e` over `src`: a binding
/// `x = x;` whose key and value are the same identifier is better written
/// `inherit x;`.
pub open spec fn manual_inherit_spec(e: Element, src: Seq<u8>) -> Option<ReportModel> {
    if !(e.kind is KeyValue) {
        None
    } else {
        match single_ident_key(e) {
            None => None,
            Some(k0) => match e.spec_child_node(1) {
                None => None,
                Some(value) => if !(value.kind is Ident) || !k0.span.in_bounds(src.len())
                    || !value.span.in_bounds(src.len()) {
                    None
                } else if src.subrange(k0.span.start as int, k0.span.end as int) != src.subrange(
                    value.span.start as int,
                    value.span.end as int,
                ) {
                    None
                } else {
                    Some(
                        single_fix_report(
                            "Assignment instead of inherit"@,
                            3,
                            e.span,
                            inherit_message(),
                            inherit_fix(src, k0.span),
                        ),
                    )
                },
            },
        }
    }
}

/// Flags bindings like `a = b.a;` that are better written with
/// `inherit (b) a;`.
#[derive(Clone, Copy, Debug, PartialEq, Eq)]
pub struct ManualInheritFrom {}

/// Flags bindings like `x = x;` that are better written with `inherit x;`.
#[derive(Clone, Copy, Debug, PartialEq, Eq)]
pub struct ManualInherit {}

/// Build the report both inherit rules share the shape of.
fn build_single_fix_report(note: &str, code: u32, at: TextSpan, fix: Vec<u8>) -> (r: Report)
    ensures
        r@ == single_fix_report(note@, code, at, inherit_message(), fix@),
{
    let mut message: Vec<u8> = Vec::new();
    extend_with_str(&mut message, "This assignment is better written with `inherit`");
    proof {
        assert(Seq::<u8>::empty() + inherit_message() =~= inherit_message());
    }
    let r = Report::new(note, code).suggest(at, message, Suggestion::new(at, fix));
    proof {
        assert(r@.diagnostics =~= single_fix_report(
            note@,
            code,
            at,
            inherit_message(),
            fix@,
        ).diagnostics);
    }
    r
}

impl Rule for ManualInheritFrom {
    open spec fn validate_spec(&self, node: Element, src: Seq<u8>) -> Option<ReportModel> {
        manual_inherit_from_spec(node, src)
    }

    fn validate(&self, node: &Element, src: &Vec<u8>, sess: &SessionInfo) -> (r: Option<Report>) {
        if !matches!(node.kind, NodeKind::KeyValue) {
            return None;
        }
        let key = match node.child_node(0) {
            Some(k) => k,
            None => {
                return None;
            },
        };
        if !matches!(key.kind, NodeKind::Key) {
            return None;
        }
        let k0 = match key.child_node(0) {
            Some(k) => k,
            None => {
                return None;
            },
        };
        if !matches!(k0.kind, NodeKind::Ident) {
            return None;
        }
        if key.child_node(1).is_some() {
            return None;
        }
        let value = match node.child_node(1) {
            Some(v) => v,
            None => {
                return None;
            },
        };
        if !matches!(value.kind, NodeKind::Select) {
            return None;
        }
        let set = match value.child_node(0) {
            Some(s) => s,
            None => {
                return None;
            },
        };
        let idx = match value.child_node(1) {
            Some(x) => x,
            None => {
                return None;
            },
        };
        if !matches!(idx.kind, NodeKind::Ident) {
            return None;
        }
        let n: usize = src.len();
        if !(k0.span.start <= k0.span.end && k0.span.end <= n) || !(idx.span.start <= idx.span.end
            && idx.span.end <= n) || !(set.span.start <= set.span.end && set.span.end <= n) {
            return None;
        }
        if !span_bytes_equal(src, k0.span, idx.span) {
            return None;
        }
        let mut fix: Vec<u8> = Vec::new();
        extend_with_str(&mut fix, "inherit (");
        extend_with_range(&mut fix, src, set.span.start, set.span.end);
        extend_with_str(&mut fix, ") ");
        extend_with_range(&mut fix, src, k0.span.start, k0.span.end);
        extend_with_str(&mut fix, ";");
        proof {
            assert(Seq::<u8>::empty() + "inherit (".spec_bytes() =~= "inherit (".spec_bytes());
            assert(fix@ =~= inherit_from_fix(src@, set.span, k0.span));
        }
        Some(
            build_single_fix_report(
                "Assignment instead of inherit from",
                4,
                node.span,
                fix,
            ),
        )
    }
}

impl Rule for ManualInherit {
    open spec fn validate_spec(&self, node: Element, src: Seq<u8>) -> Option<ReportModel> {
        manual_inherit_spec(node, src)
    }

    fn validate(&self, node: &Element, src: &Vec<u8>, sess: &SessionInfo) -> (r: Option<Report>) {
        if !matches!(node.kind, NodeKind::KeyValue) {
            return None;
        }
        let key = match node.child_node(0) {
            Some(k) => k,
            None => {
                return None;
            },
        };
        if !matches!(key.kind, NodeKind::Key) {
            return None;
        }
        let k0 = match key.child_node(0) {
            Some(k) => k,
            None => {
                return None;
            },
        };
        if !matches!(k0.kind, NodeKind::Ident) {
            return None;
        }
        if key.child_node(1).is_some() {
            return None;
        }
        let value = match node.child_node(1) {
            Some(v) => v,
            None => {
                return None;
            },
        };
        if !matches!(value.kind, NodeKind::Ident) {
            return None;
        }
        let n: usize = src.len();
        if !(k0.span.start <= k0.span.end && k0.span.end <= n) || !(value.span.start
            <= value.span.end && value.span.end <= n) {
            return None;
        }
        if !span_bytes_equal(src, k0.span, value.span) {
            return None;
        }
        let mut fix: Vec<u8> = Vec::new();
        extend_with_str(&mut fix, "inherit ");
        extend_with_range(&mut fix, src, k0.span.start, k0.span.end);
        extend_with_str(&mut fix, ";");
        proof {
            assert(Seq::<u8>::empty() + "inherit ".spec_bytes() =~= "inherit ".spec_bytes());
            assert(fix@ =~= inherit_fix(src@, k0.span));
        }
        Some(build_single_fix_report("Assignment instead of inherit", 3, node.span, fix))
    }
}

impl Metadata for ManualInheritFrom {
    open spec fn spec_name(&self) -> Seq<char> {
        "manual inherit from"@
    }

    open spec fn spec_note(&self) -> Seq<char> {
        "Assignment instead of inherit from"@
    }

    open spec fn spec_code(&self) -> u32 {
        4
    }

    open spec fn matches_kind(&self, k: NodeKind) -> bool {
        k is KeyValue
    }

    fn name(&self) -> (r: String) {
        "manual inherit from".to_owned()
    }

    fn note(&self) -> (r: String) {
        "Assignment instead of inherit from".to_owned()
    }

    fn code(&self) -> (r: u32) {
        4
    }

    fn report(&self) -> (r: Report) {
        let r = Report::new("Assignment instead of inherit from", 4);
        r
    }

    fn match_with(&self, with: &NodeKind) -> (r: bool) {
        matches!(with, NodeKind::KeyValue)
    }

    fn match_kind(&self) -> (r: Vec<NodeKind>) {
        let mut r: Vec<NodeKind> = Vec::new();
        r.push(NodeKind::KeyValue);
        proof {
            lemma_singleton_kind_list(r@);
        }
        r
    }
}

impl Metadata for ManualInherit {
    open spec fn spec_name(&self) -> Seq<char> {
        "manual inherit"@
    }

    open spec fn spec_note(&self) -> Seq<char> {
        "Assignment instead of inherit"@
    }

    open spec fn spec_code(&self) -> u32 {
        3
    }

    open spec fn matches_kind(&self, k: NodeKind) -> bool {
        k is KeyValue
    }

    fn name(&self) -> (r: String) {
        "manual inherit".to_owned()
    }

    fn note(&self) -> (r: String) {
        "Assignment instead of inherit".to_owned()
    }

    fn code(&self) -> (r: u32) {
        3
    }

    fn report(&self) -> (r: Report) {
        let r = Report::new("Assignment instead of inherit", 3);
        r
    }

    fn match_with(&self, with: &NodeKind) -> (r: bool) {
        matches!(with, NodeKind::KeyValue)
    }

    fn match_kind(&self) -> (r: Vec<NodeKind>) {
        let mut r: Vec<NodeKind> = Vec::new();
        r.push(NodeKind::KeyValue);
        proof {
            lemma_singleton_kind_list(r@);
        }
        r
    }
}

/// A one-element kind list contains exactly its element.
proof fn lemma_singleton_kind_list(s: Seq<NodeKind>)
    requires
        s.len() == 1,
        s[0] == NodeKind::KeyValue,
    ensures
        s.no_duplicates(),
        forall|k: NodeKind| s.contains(k) <==> (k is KeyValue),
{
    assert forall|k: NodeKind| s.contains(k) <==> (k is KeyValue) by {
        if k is KeyValue {
            assert(s[0] == k);
            assert(s.contains(k));
        }
        if s.contains(k) {
            let i = choose|i: int| 0 <= i < s.len() && s[i] == k;
            assert(i == 0);
        }
    }
}

impl Explain for ManualInheritFrom {
    fn explanation(&self) -> &'static str {
        "Instead of assigning an attribute to the same attribute of another set, inherit it from that set."
    }
}

impl Explain for ManualInherit {
    fn explanation(&self) -> &'static str {
        "Instead of assigning a variable to an attribute of the same name, inherit it."
    }
}

impl Lint for ManualInheritFrom {
    proof fn validate_matches_kind(&self, node: Element, src: Seq<u8>) {
    }
}

impl Lint for ManualInherit {
    proof fn validate_matches_kind(&self, node: Element, src: Seq<u8>) {
    }
}

/// The closed set of bundled rules: the registry and the driver dispatch
/// over this type, and it satisfies the whole rule contract by delegating
/// to the wrapped rule.
#[derive(Clone, Copy, Debug, PartialEq, Eq)]
pub enum AnyLint {
    ManualInherit(ManualInherit),
    ManualInheritFrom(ManualInheritFrom),
}

/// The bundled rules in registration order: the assembly point a new rule
/// module is listed at.
pub open spec fn all_lints_spec() -> Seq<AnyLint> {
    seq![
        AnyLint::ManualInherit(ManualInherit {  }),
        AnyLint::ManualInheritFrom(ManualInheritFrom {  }),
    ]
}

/// Every bundled rule, in registration order.
pub fn all_lints() -> (r: Vec<AnyLint>)
    ensures
        r@ == all_lints_spec(),
{
    let mut r: Vec<AnyLint> = Vec::new();
    r.push(AnyLint::ManualInherit(ManualInherit {  }));
    r.push(AnyLint::ManualInheritFrom(ManualInheritFrom {  }));
    proof {
        assert(r@ =~= seq![
            AnyLint::ManualInherit(ManualInherit {  }),
            AnyLint::ManualInheritFrom(ManualInheritFrom {  }),
        ]);
    }
    r
}

impl Rule for AnyLint {
    open spec fn validate_spec(&self, node: Element, src: Seq<u8>) -> Option<ReportModel> {
        match self {
            AnyLint::ManualInherit(l) => l.validate_spec(node, src),
            AnyLint::ManualInheritFrom(l) => l.validate_spec(node, src),
        }
    }

    fn validate(&self, node: &Element, src: &Vec<u8>, sess: &SessionInfo) -> (r: Option<Report>) {
        match self {
            AnyLint::ManualInherit(l) => l.validate(node, src, sess),
            AnyLint::ManualInheritFrom(l) => l.validate(node, src, sess),
        }
    }
}

impl Metadata for AnyLint {
    open spec fn spec_name(&self) -> Seq<char> {
        match self {
            AnyLint::ManualInherit(l) => l.spec_name(),
            AnyLint::ManualInheritFrom(l) => l.spec_name(),
        }
    }

    open spec fn spec_note(&self) -> Seq<char> {
        match self {
            AnyLint::ManualInherit(l) => l.spec_note(),
            AnyLint::ManualInheritFrom(l) => l.spec_note(),
        }
    }

    open spec fn spec_code(&self) -> u32 {
        match self {
            AnyLint::ManualInherit(l) => l.spec_code(),
            AnyLint::ManualInheritFrom(l) => l.spec_code(),
        }
    }

    open spec fn matches_kind(&self, k: NodeKind) -> bool {
        match self {
            AnyLint::ManualInherit(l) => l.matches_kind(k),
            AnyLint::ManualInheritFrom(l) => l.matches_kind(k),
        }
    }

    fn name(&self) -> (r: String) {
        match self {
            AnyLint::ManualInherit(l) => l.name(),
            AnyLint::ManualInheritFrom(l) => l.name(),
        }
    }

    fn note(&self) -> (r: String) {
        match self {
            AnyLint::ManualInherit(l) => l.note(),
            AnyLint::ManualInheritFrom(l) => l.note(),
        }
    }

    fn code(&self) -> (r: u32) {
        match self {
            AnyLint::ManualInherit(l) => l.code(),
            AnyLint::ManualInheritFrom(l) => l.code(),
        }
    }

    fn report(&self) -> (r: Report) {
        match self {
            AnyLint::ManualInherit(l) => l.report(),
            AnyLint::ManualInheritFrom(l) => l.report(),
        }
    }

    fn match_with(&self, with: &NodeKind) -> (r: bool) {
        match self {
            AnyLint::ManualInherit(l) => l.match_with(with),
            AnyLint::ManualInheritFrom(l) => l.match_with(with),
        }
    }

    fn match_kind(&self) -> (r: Vec<NodeKind>) {
        match self {
            AnyLint::ManualInherit(l) => l.match_kind(),
            AnyLint::ManualInheritFrom(l) => l.match_kind(),
        }
    }
}

impl Explain for AnyLint {
    fn explanation(&self) -> &'static str {
        match self {
            AnyLint::ManualInherit(l) => l.explanation(),
            AnyLint::ManualInheritFrom(l) => l.explanation(),
        }
    }
}

impl Lint for AnyLint {
    proof fn validate_matches_kind(&self, node: Element, src: Seq<u8>) {
        match self {
            AnyLint::ManualInherit(l) => l.validate_matches_kind(node, src),
            AnyLint::ManualInheritFrom(l) => l.validate_matches_kind(node, src),
        }
    }
}

} // verus!
