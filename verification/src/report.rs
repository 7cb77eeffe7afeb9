//! The diagnostic data model: a located complaint (`Diagnostic`), an optional
//! located fix (`Suggestion`), and the aggregate a rule hands back for one
//! node (`Report`), together with the fix applicator that rewrites source
//! bytes from a report's suggestions.
//!
//! Contracts are stated over spec-level mirror values (`ReportModel` and
//! friends), reached through `view`.

use vstd::prelude::*;
use crate::span::TextSpan;
use crate::text::{splice, splice_bytes, lemma_splice_prefix};

verus! {

/// Report severity level. Purely informational: it affects neither
/// dispatch nor fix application.
#[derive(Clone, Copy, Debug, PartialEq, Eq, Structural)]
pub enum Severity {
    Warn,
    Error,
    Hint,
}

impl Default for Severity {
    /// The default severity is `Warn`.
    fn default() -> (r: Severity)
        ensures
            r == Severity::Warn,
    {
        Severity::Warn
    }
}

/// Suggested fix for a diagnostic: replace the bytes of `at` (a span of the
/// original text) with the rendered replacement text `fix`.
pub struct Suggestion {
    pub at: TextSpan,
    pub fix: Vec<u8>,
}

/// The spec-level value of a `Suggestion`.
pub struct SuggestionModel {
    pub at: TextSpan,
    pub fix: Seq<u8>,
}

impl View for Suggestion {
    type V = SuggestionModel;

    open spec fn view(&self) -> SuggestionModel {
        SuggestionModel { at: self.at, fix: self.fix@ }
    }
}

/// Mapping from a byte span to an error message; can optionally carry a fix.
pub struct Diagnostic {
    pub at: TextSpan,
    pub message: Vec<u8>,
    pub suggestion: Option<Suggestion>,
}

/// The spec-level value of a `Diagnostic`.
pub struct DiagnosticModel {
    pub at: TextSpan,
    pub message: Seq<u8>,
    pub suggestion: Option<SuggestionModel>,
}

impl View for Diagnostic {
    type V = DiagnosticModel;

    open spec fn view(&self) -> DiagnosticModel {
        DiagnosticModel {
            at: self.at,
            message: self.message@,
            suggestion: match self.suggestion {
                Some(s) => Some(s@),
                None => None,
            },
        }
    }
}

/// Report generated by one rule firing on one node.
pub struct Report {
    /// General information about this lint and where it applies.
    pub note: String,
    /// An error code that uniquely identifies this lint.
    pub code: u32,
    /// Report severity level.
    pub severity: Severity,
    /// Diagnostics raised by this lint, in insertion order.
    pub diagnostics: Vec<Diagnostic>,
}

/// The spec-level value of a `Report`.
pub struct ReportModel {
    pub note: Seq<char>,
    pub code: u32,
    pub severity: Severity,
    pub diagnostics: Seq<DiagnosticModel>,
}

impl View for Report {
    type V = ReportModel;

    open spec fn view(&self) -> ReportModel {
        ReportModel {
            note: self.note@,
            code: self.code,
            severity: self.severity,
            diagnostics: Seq::new(self.diagnostics@.len(), |i: int| self.diagnostics@[i]@),
        }
    }
}

impl Suggestion {
    /// Construct a suggestion.
    pub fn new(at: TextSpan, fix: Vec<u8>) -> (r: Suggestion)
        ensures
            r@ == (SuggestionModel { at, fix: fix@ }),
    {
        Suggestion { at, fix }
    }

    /// Apply this suggestion to a source buffer.
    pub fn apply(&self, src: &mut Vec<u8>)
        requires
            self.at.in_bounds(old(src)@.len()),
        ensures
            final(src)@ == splice(old(src)@, self.at, self.fix@),
    {
        splice_bytes(src, self.at, &self.fix);
    }
}

impl Diagnostic {
    /// Construct a diagnostic.
    pub fn new(at: TextSpan, message: Vec<u8>) -> (r: Diagnostic)
        ensures
            r@ == (DiagnosticModel { at, message: message@, suggestion: None }),
    {
        Diagnostic { at, message, suggestion: None }
    }

    /// Construct a diagnostic with a fix.
    pub fn suggest(at: TextSpan, message: Vec<u8>, suggestion: Suggestion) -> (r: Diagnostic)
        ensures
            r@ == (DiagnosticModel { at, message: message@, suggestion: Some(suggestion@) }),
    {
        Diagnostic { at, message, suggestion: Some(suggestion) }
    }

    /// Apply this diagnostic's suggestion, if any, to a source buffer.
    pub fn apply(&self, src: &mut Vec<u8>)
        requires
            match self.suggestion {
                Some(s) => s.at.in_bounds(old(src)@.len()),
                None => true,
            },
        ensures
            final(src)@ == match self@.suggestion {
                Some(s) => splice(old(src)@, s.at, s.fix),
                None => old(src)@,
            },
    {
        if let Some(s) = &self.suggestion {
            s.apply(src);
        }
    }
}

/// The suggestions of a diagnostic sequence, kept in order; diagnostics
/// without a fix contribute nothing.
pub open spec fn suggestions_of(ds: Seq<DiagnosticModel>) -> Seq<SuggestionModel>
    decreases ds.len(),
{
    if ds.len() == 0 {
        Seq::empty()
    } else {
        suggestions_of(ds.drop_last()) + match ds.last().suggestion {
            Some(s) => seq![s],
            None => Seq::<SuggestionModel>::empty(),
        }
    }
}

/// The diagnostic spans of a diagnostic sequence, in order.
pub open spec fn diagnostic_spans(ds: Seq<DiagnosticModel>) -> Seq<TextSpan>
    decreases ds.len(),
{
    if ds.len() == 0 {
        Seq::empty()
    } else {
        diagnostic_spans(ds.drop_last()).push(ds.last().at)
    }
}

/// The spans the suggestions of `ds` would replace, in order.
pub open spec fn suggestion_spans(ds: Seq<DiagnosticModel>) -> Seq<TextSpan>
    decreases ds.len(),
{
    if ds.len() == 0 {
        Seq::empty()
    } else {
        suggestion_spans(ds.drop_last()) + match ds.last().suggestion {
            Some(s) => seq![s.at],
            None => Seq::<TextSpan>::empty(),
        }
    }
}

/// Left fold of `cover` over a span sequence: the minimal span enclosing
/// all of them, absent exactly when there are none.
pub open spec fn cover_fold(spans: Seq<TextSpan>) -> Option<TextSpan>
    decreases spans.len(),
{
    if spans.len() == 0 {
        None
    } else {
        match cover_fold(spans.drop_last()) {
            None => Some(spans.last()),
            Some(acc) => Some(acc.spec_cover(spans.last())),
        }
    }
}

/// Apply a sequence of suggestions, from the last (highest offsets, under
/// the sortedness discipline below) to the first, so that an applied
/// replacement never shifts the span of one still waiting.
pub open spec fn apply_suggestions(s: Seq<u8>, sg: Seq<SuggestionModel>) -> Seq<u8>
    decreases sg.len(),
{
    if sg.len() == 0 {
        s
    } else {
        apply_suggestions(splice(s, sg.last().at, sg.last().fix), sg.drop_last())
    }
}

/// The discipline the applicator requires: suggestion spans lie inside the
/// buffer, are each well formed, are sorted by start offset, and do not
/// overlap.
pub open spec fn sorted_disjoint(spans: Seq<TextSpan>, n: nat) -> bool {
    (forall|i: int| 0 <= i < spans.len() ==> (#[trigger] spans[i]).in_bounds(n))
        && (forall|i: int, j: int|
        0 <= i < j < spans.len() ==> #[trigger] spans[i].end <= #[trigger] spans[j].start)
}

/// The spans a suggestion sequence would replace.
pub open spec fn sugg_spans(sg: Seq<SuggestionModel>) -> Seq<TextSpan> {
    Seq::new(sg.len(), |i: int| sg[i].at)
}

/// Suggestion extraction of a one-element sequence.
pub proof fn lemma_suggestions_single(d: DiagnosticModel)
    ensures
        suggestions_of(seq![d]) == match d.suggestion {
            Some(s) => seq![s],
            None => Seq::<SuggestionModel>::empty(),
        },
{
    let single: Seq<DiagnosticModel> = seq![d];
    assert(single.drop_last() =~= Seq::<DiagnosticModel>::empty());
    assert(single.last() == d);
    assert(suggestions_of(Seq::<DiagnosticModel>::empty()) == Seq::<SuggestionModel>::empty());
    assert(suggestions_of(single) == suggestions_of(single.drop_last()) + match d.suggestion {
        Some(s) => seq![s],
        None => Seq::<SuggestionModel>::empty(),
    });
    match d.suggestion {
        Some(s) => {
            assert(Seq::<SuggestionModel>::empty() + seq![s] =~= seq![s]);
        },
        None => {
            assert(Seq::<SuggestionModel>::empty() + Seq::<SuggestionModel>::empty() =~= Seq::<
                SuggestionModel,
            >::empty());
        },
    }
}

/// Applying a sequence with `x` in front equals applying the rest first
/// and then `x`, since application runs from the back of the sequence.
pub proof fn lemma_apply_cons(s0: Seq<u8>, x: SuggestionModel, sg: Seq<SuggestionModel>)
    ensures
        apply_suggestions(s0, seq![x] + sg) == splice(apply_suggestions(s0, sg), x.at, x.fix),
    decreases sg.len(),
{
    if sg.len() == 0 {
        assert((seq![x] + sg).drop_last() =~= Seq::<SuggestionModel>::empty());
        assert((seq![x] + sg).last() == x);
        assert(apply_suggestions(splice(s0, x.at, x.fix), Seq::<SuggestionModel>::empty())
            == splice(s0, x.at, x.fix));
        assert(apply_suggestions(s0, seq![x] + sg) == apply_suggestions(
            splice(s0, x.at, x.fix),
            (seq![x] + sg).drop_last(),
        ));
    } else {
        assert((seq![x] + sg).drop_last() =~= seq![x] + sg.drop_last());
        assert((seq![x] + sg).last() == sg.last());
        lemma_apply_cons(splice(s0, sg.last().at, sg.last().fix), x, sg.drop_last());
    }
}

/// Suggestion extraction distributes over concatenation.
pub proof fn lemma_suggestions_concat(a: Seq<DiagnosticModel>, b: Seq<DiagnosticModel>)
    ensures
        suggestions_of(a + b) == suggestions_of(a) + suggestions_of(b),
    decreases b.len(),
{
    if b.len() == 0 {
        assert(a + b =~= a);
        assert(b =~= Seq::<DiagnosticModel>::empty());
        assert(suggestions_of(Seq::<DiagnosticModel>::empty()) == Seq::<SuggestionModel>::empty());
        assert(suggestions_of(a) + suggestions_of(b) =~= suggestions_of(a));
    } else {
        assert((a + b).drop_last() =~= a + b.drop_last());
        assert((a + b).last() == b.last());
        lemma_suggestions_concat(a, b.drop_last());
        assert(suggestions_of(a) + suggestions_of(b) =~= (suggestions_of(a) + suggestions_of(
            b.drop_last(),
        )) + match b.last().suggestion {
            Some(s) => seq![s],
            None => Seq::<SuggestionModel>::empty(),
        });
    }
}

/// Under the sortedness discipline, applying suggestions whose spans all
/// start at or after `k` leaves the first `k` bytes alone and keeps the
/// buffer at least `k` long.
pub proof fn lemma_apply_prefix(s0: Seq<u8>, sg: Seq<SuggestionModel>, k: int)
    requires
        sorted_disjoint(sugg_spans(sg), s0.len()),
        forall|j: int| 0 <= j < sg.len() ==> k <= (#[trigger] sg[j]).at.start,
        0 <= k <= s0.len(),
    ensures
        apply_suggestions(s0, sg).len() >= k,
        apply_suggestions(s0, sg).take(k) == s0.take(k),
    decreases sg.len(),
{
    if sg.len() == 0 {
    } else {
        let x = sg.last();
        let s1 = splice(s0, x.at, x.fix);
        assert(sugg_spans(sg)[sg.len() - 1] == x.at);
        lemma_splice_prefix(s0, x.at, x.fix);
        assert(forall|j: int|
            0 <= j < sg.len() - 1 ==> (#[trigger] sg[j]).at.end <= x.at.start) by {
            assert(forall|j: int|
                0 <= j < sg.len() - 1 ==> sugg_spans(sg)[j] == (#[trigger] sg[j]).at);
        }
        assert(s1.len() >= x.at.start);
        assert(sorted_disjoint(sugg_spans(sg.drop_last()), s1.len())) by {
            assert(forall|j: int|
                0 <= j < sg.len() - 1 ==> #[trigger] sugg_spans(sg.drop_last())[j] == sg[j].at);
            assert(forall|j: int|
                0 <= j < sg.len() ==> #[trigger] sugg_spans(sg)[j] == sg[j].at);
            assert forall|j: int| 0 <= j < sg.len() - 1 implies (#[trigger] sugg_spans(
                sg.drop_last(),
            )[j]).in_bounds(s1.len()) by {
                assert(sugg_spans(sg)[j].in_bounds(s0.len()));
                assert(sg[j].at.end <= x.at.start);
            }
            assert forall|i2: int, j2: int|
                0 <= i2 < j2 < sg.len() - 1 implies #[trigger] sugg_spans(sg.drop_last())[i2].end
                <= #[trigger] sugg_spans(sg.drop_last())[j2].start by {
                assert(sugg_spans(sg)[i2].end <= sugg_spans(sg)[j2].start);
            }
        }
        lemma_apply_prefix(s1, sg.drop_last(), k);
        assert(k <= x.at.start);
        assert(s1.take(k) =~= s0.take(k)) by {
            assert(s1.take(x.at.start as int) == s0.take(x.at.start as int));
            assert(forall|m: int|
                0 <= m < k ==> s1.take(x.at.start as int)[m] == s0.take(x.at.start as int)[m]);
        }
    }
}

/// Applying a concatenation of two suggestion batches, back to front,
/// equals applying the second batch and then the first: for two reports
/// whose ranges are separated, the merged descending application and the
/// report-by-report application produce byte-identical output.
pub proof fn lemma_apply_batches(s0: Seq<u8>, a: Seq<SuggestionModel>, b: Seq<SuggestionModel>)
    ensures
        apply_suggestions(s0, a + b) == apply_suggestions(apply_suggestions(s0, b), a),
    decreases b.len(),
{
    if b.len() == 0 {
        assert(a + b =~= a);
    } else {
        assert((a + b).drop_last() =~= a + b.drop_last());
        assert((a + b).last() == b.last());
        lemma_apply_batches(splice(s0, b.last().at, b.last().fix), a, b.drop_last());
    }
}

/// Failure of the checked applicator: the report's suggestions violate
/// the non-overlap discipline, so applying them would corrupt the text.
#[derive(Clone, Copy, Debug, PartialEq, Eq, Structural)]
pub enum ApplyError {
    OverlappingFixes,
}

/// Consecutive ordering of well-formed spans implies the pairwise
/// discipline.
proof fn lemma_chain_ordered(spans: Seq<TextSpan>, n: nat, i: int, j: int)
    requires
        forall|m: int| 0 <= m < spans.len() ==> (#[trigger] spans[m]).in_bounds(n),
        forall|m: int| 0 < m < spans.len() ==> (#[trigger] spans[m - 1]).end <= spans[m].start,
        0 <= i < j < spans.len(),
    ensures
        spans[i].end <= spans[j].start,
    decreases j - i,
{
    if j == i + 1 {
        assert(spans[j - 1].end <= spans[j].start);
    } else {
        lemma_chain_ordered(spans, n, i, j - 1);
        assert(spans[j - 1].end <= spans[j].start);
    }
}

/// Non-overlap discipline across reports: for two reports whose
/// suggestion spans are separated (every span of `lo` ends at or before
/// every span of `hi` starts), the merged descending batch obeys the
/// applicator's discipline, and applying it equals applying the two
/// reports one at a time, the higher one first — the two orderings that
/// never shift a span still waiting produce byte-identical output.
pub proof fn lemma_apply_disjoint_reports(s0: Seq<u8>, lo: ReportModel, hi: ReportModel)
    requires
        sorted_disjoint(sugg_spans(suggestions_of(lo.diagnostics)), s0.len()),
        sorted_disjoint(sugg_spans(suggestions_of(hi.diagnostics)), s0.len()),
        forall|i: int, j: int|
            0 <= i < suggestions_of(lo.diagnostics).len() && 0 <= j < suggestions_of(
                hi.diagnostics,
            ).len() ==> (#[trigger] suggestions_of(lo.diagnostics)[i]).at.end
                <= (#[trigger] suggestions_of(hi.diagnostics)[j]).at.start,
    ensures
        sorted_disjoint(
            sugg_spans(suggestions_of(lo.diagnostics) + suggestions_of(hi.diagnostics)),
            s0.len(),
        ),
        apply_suggestions(s0, suggestions_of(lo.diagnostics) + suggestions_of(hi.diagnostics))
            == apply_suggestions(
            apply_suggestions(s0, suggestions_of(hi.diagnostics)),
            suggestions_of(lo.diagnostics),
        ),
{
    let a = suggestions_of(lo.diagnostics);
    let b = suggestions_of(hi.diagnostics);
    lemma_apply_batches(s0, a, b);
    assert(forall|i: int| 0 <= i < a.len() ==> #[trigger] sugg_spans(a)[i] == a[i].at);
    assert(forall|j: int| 0 <= j < b.len() ==> #[trigger] sugg_spans(b)[j] == b[j].at);
    assert(forall|i: int| 0 <= i < a.len() ==> #[trigger] sugg_spans(a + b)[i] == a[i].at);
    assert(forall|j: int|
        0 <= j < b.len() ==> #[trigger] sugg_spans(a + b)[a.len() + j] == b[j].at);
    assert forall|i: int| 0 <= i < (a + b).len() implies (#[trigger] sugg_spans(a + b)[
        i
    ]).in_bounds(s0.len()) by {
        if i < a.len() {
            assert(sugg_spans(a)[i].in_bounds(s0.len()));
        } else {
            assert(sugg_spans(b)[i - a.len()].in_bounds(s0.len()));
        }
    }
    assert forall|i: int, j: int| 0 <= i < j < (a + b).len() implies #[trigger] sugg_spans(
        a + b,
    )[i].end <= #[trigger] sugg_spans(a + b)[j].start by {
        if j < a.len() {
            assert(sugg_spans(a)[i].end <= sugg_spans(a)[j].start);
        } else if i >= a.len() {
            assert(sugg_spans(b)[i - a.len()].end <= sugg_spans(b)[j - a.len()].start);
        } else {
            assert(a[i].at.end <= b[j - a.len()].at.start);
        }
    }
}

/// `cover_fold` yields the minimal enclosing span: it is absent exactly for
/// an empty sequence, it encloses every span of the sequence, and every
/// span enclosing all of them encloses it.
pub proof fn lemma_cover_fold_minimal(spans: Seq<TextSpan>)
    ensures
        cover_fold(spans) is None <==> spans.len() == 0,
        cover_fold(spans) matches Some(t) ==> forall|i: int|
            0 <= i < spans.len() ==> t.spec_contains(#[trigger] spans[i]),
        cover_fold(spans) matches Some(t) ==> forall|outer: TextSpan|
            (forall|i: int| 0 <= i < spans.len() ==> outer.spec_contains(#[trigger] spans[i]))
                ==> #[trigger] outer.spec_contains(t),
    decreases spans.len(),
{
    if spans.len() > 0 {
        lemma_cover_fold_minimal(spans.drop_last());
        let rest = spans.drop_last();
        assert(forall|i: int| 0 <= i < rest.len() ==> rest[i] == #[trigger] spans[i]);
        match cover_fold(rest) {
            None => {
                assert(spans.len() == 1);
                crate::span::lemma_cover_minimal(spans.last(), spans.last(), spans.last());
            },
            Some(acc) => {
                assert(forall|outer: TextSpan|
                    (forall|i: int|
                        0 <= i < spans.len() ==> outer.spec_contains(#[trigger] spans[i]))
                        ==> #[trigger] outer.spec_contains(acc.spec_cover(spans.last()))) by {
                    assert forall|outer: TextSpan|
                        (forall|i: int|
                            0 <= i < spans.len() ==> outer.spec_contains(
                                #[trigger] spans[i],
                            )) implies #[trigger] outer.spec_contains(
                        acc.spec_cover(spans.last()),
                    ) by {
                        assert(outer.spec_contains(acc));
                        crate::span::lemma_cover_minimal(acc, spans.last(), outer);
                    }
                }
                assert forall|i: int|
                    0 <= i < spans.len() implies acc.spec_cover(spans.last()).spec_contains(
                    #[trigger] spans[i],
                ) by {
                    crate::span::lemma_cover_minimal(acc, spans.last(), acc);
                    if i < spans.len() - 1 {
                        assert(acc.spec_contains(spans[i]));
                    }
                }
            },
        }
    }
}

/// How the span sequences of a diagnostic sequence relate to it: one
/// diagnostic span per diagnostic, in order, and suggestion spans that are
/// empty exactly when no diagnostic carries a fix.
pub proof fn lemma_spans_of_diagnostics(ds: Seq<DiagnosticModel>)
    ensures
        diagnostic_spans(ds).len() == ds.len(),
        forall|i: int| 0 <= i < ds.len() ==> diagnostic_spans(ds)[i] == (#[trigger] ds[i]).at,
        suggestion_spans(ds).len() == 0 <==> (forall|i: int|
            0 <= i < ds.len() ==> (#[trigger] ds[i]).suggestion is None),
    decreases ds.len(),
{
    if ds.len() == 0 {
        assert(suggestion_spans(ds).len() == 0);
    } else {
        lemma_spans_of_diagnostics(ds.drop_last());
        let rest = ds.drop_last();
        assert(forall|i: int| 0 <= i < rest.len() ==> rest[i] == #[trigger] ds[i]);
        assert(diagnostic_spans(ds) == diagnostic_spans(rest).push(ds.last().at));
        match ds.last().suggestion {
            Some(s) => {
                assert(suggestion_spans(ds) == suggestion_spans(rest) + seq![s.at]);
                assert(suggestion_spans(ds).len() > 0);
                assert(ds[ds.len() - 1].suggestion is Some);
            },
            None => {
                assert(suggestion_spans(rest) + Seq::<TextSpan>::empty() =~= suggestion_spans(
                    rest,
                ));
                if suggestion_spans(ds).len() == 0 {
                    assert(forall|i: int|
                        0 <= i < ds.len() ==> (#[trigger] ds[i]).suggestion is None) by {
                        assert(forall|i: int|
                            0 <= i < rest.len() ==> (#[trigger] rest[i]).suggestion is None);
                        assert(ds[ds.len() - 1].suggestion is None);
                    }
                }
            },
        }
    }
}

/// Range coverage: a report's total diagnostic range is absent exactly
/// when the report has no diagnostics, its total suggestion range is
/// absent exactly when no diagnostic carries a fix, and each present range
/// encloses every contained span (`lemma_cover_fold_minimal` adds that the
/// enclosing range is minimal).
pub proof fn lemma_report_range_coverage(rm: ReportModel)
    ensures
        cover_fold(diagnostic_spans(rm.diagnostics)) is None <==> rm.diagnostics.len() == 0,
        cover_fold(suggestion_spans(rm.diagnostics)) is None <==> (forall|i: int|
            0 <= i < rm.diagnostics.len() ==> (#[trigger] rm.diagnostics[i]).suggestion is None),
        cover_fold(diagnostic_spans(rm.diagnostics)) matches Some(t) ==> forall|i: int|
            0 <= i < rm.diagnostics.len() ==> t.spec_contains((#[trigger] rm.diagnostics[i]).at),
{
    lemma_spans_of_diagnostics(rm.diagnostics);
    lemma_cover_fold_minimal(diagnostic_spans(rm.diagnostics));
    lemma_cover_fold_minimal(suggestion_spans(rm.diagnostics));
}

impl Report {
    /// Start an empty report for a rule's note and code, with default
    /// severity `Warn`.
    pub fn new(note: &str, code: u32) -> (r: Report)
        ensures
            r@ == (ReportModel {
                note: note@,
                code,
                severity: Severity::Warn,
                diagnostics: Seq::empty(),
            }),
    {
        let r = Report { note: note.to_owned(), code, severity: Severity::Warn, diagnostics: Vec::new() };
        proof {
            assert(r@.diagnostics =~= Seq::<DiagnosticModel>::empty());
        }
        r
    }

    /// Append a diagnostic; returns the report for fluent chaining.
    pub fn diagnostic(self, at: TextSpan, message: Vec<u8>) -> (r: Report)
        ensures
            r@ == (ReportModel {
                diagnostics: self@.diagnostics.push(
                    DiagnosticModel { at, message: message@, suggestion: None },
                ),
                ..self@
            }),
    {
        let ghost before = self@;
        let mut diagnostics = self.diagnostics;
        diagnostics.push(Diagnostic::new(at, message));
        let r = Report { diagnostics, ..self };
        proof {
            assert(r@.diagnostics =~= before.diagnostics.push(
                DiagnosticModel { at, message: message@, suggestion: None },
            ));
        }
        r
    }

    /// Append a diagnostic carrying a fix; returns the report for fluent
    /// chaining.
    pub fn suggest(self, at: TextSpan, message: Vec<u8>, suggestion: Suggestion) -> (r: Report)
        ensures
            r@ == (ReportModel {
                diagnostics: self@.diagnostics.push(
                    DiagnosticModel { at, message: message@, suggestion: Some(suggestion@) },
                ),
                ..self@
            }),
    {
        let ghost before = self@;
        let ghost sm = suggestion@;
        let mut diagnostics = self.diagnostics;
        diagnostics.push(Diagnostic::suggest(at, message, suggestion));
        let r = Report { diagnostics, ..self };
        proof {
            assert(r@.diagnostics =~= before.diagnostics.push(
                DiagnosticModel { at, message: message@, suggestion: Some(sm) },
            ));
        }
        r
    }

    /// Override the severity level.
    pub fn severity(self, severity: Severity) -> (r: Report)
        ensures
            r@ == (ReportModel { severity, ..self@ }),
    {
        let r = Report { severity, ..self };
        proof {
            assert(r@.diagnostics =~= self@.diagnostics);
        }
        r
    }

    /// The minimal range encompassing all the suggestions of this report,
    /// absent when no diagnostic carries a fix.
    pub fn total_suggestion_range(&self) -> (r: Option<TextSpan>)
        ensures
            r == cover_fold(suggestion_spans(self@.diagnostics)),
    {
        let ghost dvs = self@.diagnostics;
        let mut acc: Option<TextSpan> = None;
        let mut i: usize = 0;
        while i < self.diagnostics.len()
            invariant
                i <= dvs.len(),
                dvs == self@.diagnostics,
                dvs.len() == self.diagnostics@.len(),
                forall|j: int| 0 <= j < dvs.len() ==> #[trigger] dvs[j] == self.diagnostics@[j]@,
                acc == cover_fold(suggestion_spans(dvs.take(i as int))),
            decreases dvs.len() - i,
        {
            proof {
                assert(dvs.take(i as int + 1).drop_last() =~= dvs.take(i as int));
                assert(dvs.take(i as int + 1).last() == dvs[i as int]);
            }
            match &self.diagnostics[i].suggestion {
                Some(s) => {
                    proof {
                        assert(suggestion_spans(dvs.take(i as int + 1)) =~= suggestion_spans(
                            dvs.take(i as int),
                        ).push(s.at));
                        assert(suggestion_spans(dvs.take(i as int)).push(s.at).drop_last()
                            =~= suggestion_spans(dvs.take(i as int)));
                    }
                    acc = match acc {
                        None => Some(s.at),
                        Some(a) => Some(a.cover(s.at)),
                    };
                },
                None => {
                    proof {
                        assert(suggestion_spans(dvs.take(i as int + 1)) =~= suggestion_spans(
                            dvs.take(i as int),
                        ));
                    }
                },
            }
            i = i + 1;
        }
        proof {
            assert(dvs.take(dvs.len() as int) =~= dvs);
        }
        acc
    }

    /// The minimal range encompassing all the diagnostics of this report,
    /// absent when the report is empty.
    pub fn total_diagnostic_range(&self) -> (r: Option<TextSpan>)
        ensures
            r == cover_fold(diagnostic_spans(self@.diagnostics)),
    {
        let ghost dvs = self@.diagnostics;
        let mut acc: Option<TextSpan> = None;
        let mut i: usize = 0;
        while i < self.diagnostics.len()
            invariant
                i <= dvs.len(),
                dvs == self@.diagnostics,
                dvs.len() == self.diagnostics@.len(),
                forall|j: int| 0 <= j < dvs.len() ==> #[trigger] dvs[j] == self.diagnostics@[j]@,
                acc == cover_fold(diagnostic_spans(dvs.take(i as int))),
            decreases dvs.len() - i,
        {
            proof {
                assert(dvs.take(i as int + 1).drop_last() =~= dvs.take(i as int));
                assert(dvs.take(i as int + 1).last() == dvs[i as int]);
                assert(diagnostic_spans(dvs.take(i as int + 1)) == diagnostic_spans(
                    dvs.take(i as int),
                ).push(dvs[i as int].at));
                let sp = diagnostic_spans(dvs.take(i as int));
                assert(sp.push(dvs[i as int].at).drop_last() =~= sp);
                assert(sp.push(dvs[i as int].at).last() == dvs[i as int].at);
            }
            let at = self.diagnostics[i].at;
            acc = match acc {
                None => Some(at),
                Some(a) => Some(a.cover(at)),
            };
            i = i + 1;
        }
        proof {
            assert(dvs.take(dvs.len() as int) =~= dvs);
        }
        acc
    }

    /// The total suggestion range of a report known to carry a fix.
    pub fn range(&self) -> (r: TextSpan)
        requires
            cover_fold(suggestion_spans(self@.diagnostics)) is Some,
        ensures
            Some(r) == cover_fold(suggestion_spans(self@.diagnostics)),
    {
        match self.total_suggestion_range() {
            Some(t) => t,
            None => vstd::pervasive::unreached(),
        }
    }

    /// Apply every suggestion of this report to `src`, from the highest
    /// start offset down to the lowest, so that no applied replacement
    /// shifts the span of one still waiting. Requires the suggestion spans
    /// to respect the sortedness/non-overlap discipline.
    pub fn apply(&self, src: &mut Vec<u8>)
        requires
            sorted_disjoint(
                sugg_spans(suggestions_of(self@.diagnostics)),
                old(src)@.len(),
            ),
        ensures
            final(src)@ == apply_suggestions(old(src)@, suggestions_of(self@.diagnostics)),
    {
        let ghost dvs = self@.diagnostics;
        let ghost full = suggestions_of(dvs);
        let mut i: usize = self.diagnostics.len();
        proof {
            assert(dvs.skip(dvs.len() as int) =~= Seq::<DiagnosticModel>::empty());
        }
        while i > 0
            invariant
                i <= dvs.len(),
                dvs == self@.diagnostics,
                dvs.len() == self.diagnostics@.len(),
                forall|j: int| 0 <= j < dvs.len() ==> #[trigger] dvs[j] == self.diagnostics@[j]@,
                full == suggestions_of(dvs),
                sorted_disjoint(sugg_spans(full), old(src)@.len()),
                src@ == apply_suggestions(old(src)@, suggestions_of(dvs.skip(i as int))),
            decreases i,
        {
            let ghost pre = suggestions_of(dvs.take(i as int - 1));
            let ghost suf = suggestions_of(dvs.skip(i as int));
            proof {
                assert(dvs.skip(i as int - 1) =~= seq![dvs[i as int - 1]] + dvs.skip(i as int));
                assert(dvs =~= dvs.take(i as int - 1) + dvs.skip(i as int - 1));
                lemma_suggestions_concat(dvs.take(i as int - 1), dvs.skip(i as int - 1));
                lemma_suggestions_concat(seq![dvs[i as int - 1]], dvs.skip(i as int));
                assert(seq![dvs[i as int - 1]].drop_last() =~= Seq::<DiagnosticModel>::empty());
            }
            match &self.diagnostics[i - 1].suggestion {
                Some(s) => {
                    proof {
                        assert(dvs[i as int - 1].suggestion == Some(s@));
                        let ghost sm = s@;
                        lemma_suggestions_single(dvs[i as int - 1]);
                        assert(suggestions_of(seq![dvs[i as int - 1]]) == seq![sm]);
                        assert(full =~= pre + (seq![sm] + suf));
                        // position facts: sm sits at pre.len(), suf after it
                        assert(forall|j: int|
                            0 <= j < suf.len() ==> #[trigger] suf[j] == full[pre.len() + 1 + j]);
                        assert(sm == full[pre.len() as int]);
                        assert(sm.at == sugg_spans(full)[pre.len() as int]);
                        assert(forall|j: int|
                            0 <= j < suf.len() ==> sm.at.end <= (#[trigger] suf[j]).at.start) by {
                            assert(forall|j: int|
                                0 <= j < suf.len() ==> (#[trigger] suf[j]).at == sugg_spans(
                                    full,
                                )[pre.len() + 1 + j]);
                        }
                        assert(sorted_disjoint(sugg_spans(suf), old(src)@.len())) by {
                            assert(forall|j: int|
                                0 <= j < suf.len() ==> #[trigger] sugg_spans(suf)[j] == sugg_spans(
                                    full,
                                )[pre.len() + 1 + j]);
                        }
                        lemma_apply_prefix(old(src)@, suf, sm.at.end as int);
                        assert(sm == s@);
                        assert(sm.at.in_bounds(src@.len()));
                        lemma_apply_cons(old(src)@, sm, suf);
                    }
                    splice_bytes(src, s.at, &s.fix);
                },
                None => {
                    proof {
                        assert(dvs[i as int - 1].suggestion is None);
                        lemma_suggestions_single(dvs[i as int - 1]);
                        assert(suggestions_of(dvs.skip(i as int - 1)) =~= suf);
                    }
                },
            }
            i = i - 1;
        }
        proof {
            assert(dvs.skip(0) =~= dvs);
        }
    }

    /// Check the applicator's discipline at run time and apply only when
    /// it holds: when the suggestion spans overlap, run backwards, or
    /// leave the buffer, report `OverlappingFixes` and leave the text
    /// untouched instead of corrupting it.
    pub fn try_apply(&self, src: &mut Vec<u8>) -> (r: Result<(), ApplyError>)
        ensures
            match r {
                Ok(_) => sorted_disjoint(
                    sugg_spans(suggestions_of(self@.diagnostics)),
                    old(src)@.len(),
                ) && final(src)@ == apply_suggestions(
                    old(src)@,
                    suggestions_of(self@.diagnostics),
                ),
                Err(_) => !sorted_disjoint(
                    sugg_spans(suggestions_of(self@.diagnostics)),
                    old(src)@.len(),
                ) && final(src)@ == old(src)@,
            },
    {
        let ghost dvs = self@.diagnostics;
        let ghost full = sugg_spans(suggestions_of(dvs));
        let n: usize = src.len();
        let mut prev: Option<TextSpan> = None;
        let mut i: usize = 0;
        proof {
            assert(dvs.take(0).len() == 0);
            assert(sugg_spans(suggestions_of(dvs.take(0))) =~= Seq::<TextSpan>::empty());
        }
        while i < self.diagnostics.len()
            invariant
                i <= dvs.len(),
                dvs == self@.diagnostics,
                dvs.len() == self.diagnostics@.len(),
                forall|j: int| 0 <= j < dvs.len() ==> #[trigger] dvs[j] == self.diagnostics@[j]@,
                full == sugg_spans(suggestions_of(dvs)),
                n == src@.len(),
                src@ == old(src)@,
                match prev {
                    None => sugg_spans(suggestions_of(dvs.take(i as int))).len() == 0,
                    Some(p) => sugg_spans(suggestions_of(dvs.take(i as int))).len() > 0
                        && sugg_spans(suggestions_of(dvs.take(i as int))).last() == p,
                },
                forall|m: int|
                    0 <= m < sugg_spans(suggestions_of(dvs.take(i as int))).len() ==> (
                    #[trigger] sugg_spans(suggestions_of(dvs.take(i as int)))[m]).in_bounds(
                        n as nat,
                    ),
                forall|m: int|
                    0 < m < sugg_spans(suggestions_of(dvs.take(i as int))).len() ==> (
                    #[trigger] sugg_spans(suggestions_of(dvs.take(i as int)))[m - 1]).end
                        <= sugg_spans(suggestions_of(dvs.take(i as int)))[m].start,
            decreases dvs.len() - i,
        {
            let ghost sp = sugg_spans(suggestions_of(dvs.take(i as int)));
            proof {
                assert(dvs =~= dvs.take(i as int) + dvs.skip(i as int));
                lemma_suggestions_concat(dvs.take(i as int), dvs.skip(i as int));
                assert(dvs.take(i as int + 1).drop_last() =~= dvs.take(i as int));
                assert(dvs.take(i as int + 1).last() == dvs[i as int]);
            }
            match &self.diagnostics[i].suggestion {
                Some(s) => {
                    proof {
                        assert(dvs[i as int].suggestion == Some(s@));
                        assert(dvs.skip(i as int) =~= seq![dvs[i as int]] + dvs.skip(
                            i as int + 1,
                        ));
                        lemma_suggestions_concat(seq![dvs[i as int]], dvs.skip(i as int + 1));
                        lemma_suggestions_single(dvs[i as int]);
                        assert(suggestions_of(dvs) =~= suggestions_of(dvs.take(i as int)) + (seq![
                            s@,
                        ] + suggestions_of(dvs.skip(i as int + 1))));
                        assert(full[sp.len() as int] == s@.at) by {
                            assert(suggestions_of(dvs)[sp.len() as int] == s@);
                        }
                        assert(suggestions_of(dvs.take(i as int + 1)) =~= suggestions_of(
                            dvs.take(i as int),
                        ) + seq![s@]);
                        assert(sugg_spans(suggestions_of(dvs.take(i as int + 1))) =~= sp.push(
                            s@.at,
                        )) by {
                            assert(forall|m: int|
                                0 <= m < sp.len() ==> #[trigger] suggestions_of(
                                    dvs.take(i as int + 1),
                                )[m] == suggestions_of(dvs.take(i as int))[m]);
                        }
                    }
                    if !(s.at.start <= s.at.end && s.at.end <= n) {
                        proof {
                            assert(!full[sp.len() as int].in_bounds(old(src)@.len()));
                        }
                        return Err(ApplyError::OverlappingFixes);
                    }
                    match prev {
                        Some(p) => {
                            if !(p.end <= s.at.start) {
                                proof {
                                    assert(full[sp.len() - 1] == sp.last()) by {
                                        assert(suggestions_of(dvs)[sp.len() - 1]
                                            == suggestions_of(dvs.take(i as int))[sp.len() - 1]);
                                        assert(sp[sp.len() - 1] == sp.last());
                                    }
                                    assert(full[sp.len() - 1].end > full[sp.len() as int].start);
                                }
                                return Err(ApplyError::OverlappingFixes);
                            }
                        },
                        None => {},
                    }
                    prev = Some(s.at);
                },
                None => {
                    proof {
                        assert(dvs[i as int].suggestion is None);
                        lemma_suggestions_single(dvs[i as int]);
                        assert(dvs.skip(i as int) =~= seq![dvs[i as int]] + dvs.skip(
                            i as int + 1,
                        ));
                        assert(suggestions_of(dvs.take(i as int + 1)) =~= suggestions_of(
                            dvs.take(i as int),
                        ));
                    }
                },
            }
            i = i + 1;
        }
        proof {
            assert(dvs.take(dvs.len() as int) =~= dvs);
            let spans = sugg_spans(suggestions_of(dvs));
            assert forall|a: int, b: int| 0 <= a < b < spans.len() implies #[trigger] spans[
                a
            ].end <= #[trigger] spans[b].start by {
                lemma_chain_ordered(spans, old(src)@.len(), a, b);
            }
        }
        self.apply(src);
        Ok(())
    }
}

} // verus!

