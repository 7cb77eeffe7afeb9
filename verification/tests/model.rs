//! Tests of the diagnostic data model and the fix applicator.

use statix::{ApplyError, Diagnostic, Report, Severity, Suggestion, TextSpan};

fn span(start: usize, end: usize) -> TextSpan {
    TextSpan::new(start, end)
}

#[test]
fn report_new_defaults() {
    let r = Report::new("some note", 7);
    assert_eq!(r.note, "some note");
    assert_eq!(r.code, 7);
    assert!(matches!(r.severity, Severity::Warn));
    assert!(r.diagnostics.is_empty());
}

#[test]
fn severity_default_is_warn() {
    assert!(matches!(Severity::default(), Severity::Warn));
}

#[test]
fn severity_override() {
    let r = Report::new("n", 1).severity(Severity::Hint);
    assert!(matches!(r.severity, Severity::Hint));
}

#[test]
fn diagnostic_builders() {
    let d = Diagnostic::new(span(1, 4), b"msg".to_vec());
    assert_eq!(d.at, span(1, 4));
    assert_eq!(d.message, b"msg".to_vec());
    assert!(d.suggestion.is_none());

    let s = Suggestion::new(span(1, 4), b"fix".to_vec());
    let d2 = Diagnostic::suggest(span(1, 4), b"msg".to_vec(), s);
    assert_eq!(d2.suggestion.as_ref().unwrap().fix, b"fix".to_vec());
}

#[test]
fn report_fluent_chaining_appends_in_order() {
    let r = Report::new("n", 2)
        .diagnostic(span(0, 1), b"first".to_vec())
        .suggest(span(3, 5), b"second".to_vec(), Suggestion::new(span(3, 5), b"xy".to_vec()));
    assert_eq!(r.diagnostics.len(), 2);
    assert_eq!(r.diagnostics[0].message, b"first".to_vec());
    assert_eq!(r.diagnostics[1].message, b"second".to_vec());
    assert!(r.diagnostics[0].suggestion.is_none());
    assert!(r.diagnostics[1].suggestion.is_some());
}

#[test]
fn total_ranges_cover_all_contained_spans() {
    let r = Report::new("n", 3)
        .suggest(span(5, 9), b"a".to_vec(), Suggestion::new(span(5, 9), b"A".to_vec()))
        .diagnostic(span(0, 3), b"b".to_vec())
        .suggest(span(12, 20), b"c".to_vec(), Suggestion::new(span(13, 19), b"C".to_vec()));
    assert_eq!(r.total_diagnostic_range(), Some(span(0, 20)));
    assert_eq!(r.total_suggestion_range(), Some(span(5, 19)));
    assert_eq!(r.range(), span(5, 19));
}

#[test]
fn total_ranges_absent_exactly_when_empty() {
    let empty = Report::new("n", 4);
    assert_eq!(empty.total_diagnostic_range(), None);
    assert_eq!(empty.total_suggestion_range(), None);

    let no_fix = Report::new("n", 4).diagnostic(span(2, 6), b"m".to_vec());
    assert_eq!(no_fix.total_diagnostic_range(), Some(span(2, 6)));
    assert_eq!(no_fix.total_suggestion_range(), None);
}

#[test]
fn span_cover_is_minimal_enclosing() {
    assert_eq!(span(1, 4).cover(span(2, 9)), span(1, 9));
    assert_eq!(span(5, 6).cover(span(0, 2)), span(0, 6));
    assert_eq!(TextSpan::empty_at_zero(), span(0, 0));
}

#[test]
fn suggestion_apply_splices_bytes() {
    let s = Suggestion::new(span(0, 5), b"goodbye".to_vec());
    let mut buf = b"hello world".to_vec();
    s.apply(&mut buf);
    assert_eq!(buf, b"goodbye world".to_vec());
}

#[test]
fn diagnostic_without_fix_applies_as_noop() {
    let d = Diagnostic::new(span(0, 5), b"m".to_vec());
    let mut buf = b"hello".to_vec();
    d.apply(&mut buf);
    assert_eq!(buf, b"hello".to_vec());
}

#[test]
fn report_apply_replaces_every_suggested_span() {
    let r = Report::new("n", 5)
        .suggest(span(0, 1), b"m".to_vec(), Suggestion::new(span(0, 1), b"AA".to_vec()))
        .diagnostic(span(1, 2), b"no fix".to_vec())
        .suggest(span(2, 3), b"m".to_vec(), Suggestion::new(span(2, 3), b"B".to_vec()));
    let mut buf = b"xyz".to_vec();
    r.apply(&mut buf);
    assert_eq!(buf, b"AAyB".to_vec());
}

#[test]
fn two_disjoint_reports_apply_identically_in_either_discipline() {
    // r_lo rewrites [0,2), r_hi rewrites [5,7); both against the original
    // buffer. Applying the merged batch descending equals applying the
    // higher report first and then the lower one.
    let src = b"abcdefgh".to_vec();
    let r_lo = Report::new("n", 6).suggest(
        span(0, 2),
        b"m".to_vec(),
        Suggestion::new(span(0, 2), b"XXX".to_vec()),
    );
    let r_hi = Report::new("n", 6).suggest(
        span(5, 7),
        b"m".to_vec(),
        Suggestion::new(span(5, 7), b"Y".to_vec()),
    );
    let merged = Report::new("n", 6)
        .suggest(span(0, 2), b"m".to_vec(), Suggestion::new(span(0, 2), b"XXX".to_vec()))
        .suggest(span(5, 7), b"m".to_vec(), Suggestion::new(span(5, 7), b"Y".to_vec()));

    let mut one_at_a_time = src.clone();
    r_hi.apply(&mut one_at_a_time);
    r_lo.apply(&mut one_at_a_time);

    let mut batched = src.clone();
    merged.apply(&mut batched);

    assert_eq!(one_at_a_time, batched);
    assert_eq!(batched, b"XXXcdeYh".to_vec());
}

#[test]
fn try_apply_accepts_disciplined_reports() {
    let r = Report::new("n", 8)
        .suggest(span(0, 1), b"m".to_vec(), Suggestion::new(span(0, 1), b"AA".to_vec()))
        .suggest(span(2, 3), b"m".to_vec(), Suggestion::new(span(2, 3), b"B".to_vec()));
    let mut buf = b"xyz".to_vec();
    assert_eq!(r.try_apply(&mut buf), Ok(()));
    assert_eq!(buf, b"AAyB".to_vec());
}

#[test]
fn try_apply_rejects_overlapping_fixes() {
    let r = Report::new("n", 8)
        .suggest(span(0, 3), b"m".to_vec(), Suggestion::new(span(0, 3), b"A".to_vec()))
        .suggest(span(2, 4), b"m".to_vec(), Suggestion::new(span(2, 4), b"B".to_vec()));
    let mut buf = b"wxyz".to_vec();
    assert_eq!(r.try_apply(&mut buf), Err(ApplyError::OverlappingFixes));
    assert_eq!(buf, b"wxyz".to_vec());
}

#[test]
fn try_apply_rejects_unsorted_fixes() {
    let r = Report::new("n", 8)
        .suggest(span(2, 3), b"m".to_vec(), Suggestion::new(span(2, 3), b"B".to_vec()))
        .suggest(span(0, 1), b"m".to_vec(), Suggestion::new(span(0, 1), b"A".to_vec()));
    let mut buf = b"wxyz".to_vec();
    assert_eq!(r.try_apply(&mut buf), Err(ApplyError::OverlappingFixes));
    assert_eq!(buf, b"wxyz".to_vec());
}

#[test]
fn try_apply_rejects_out_of_bounds_fixes() {
    let r = Report::new("n", 8).suggest(
        span(0, 9),
        b"m".to_vec(),
        Suggestion::new(span(0, 9), b"A".to_vec()),
    );
    let mut buf = b"wxyz".to_vec();
    assert_eq!(r.try_apply(&mut buf), Err(ApplyError::OverlappingFixes));
    assert_eq!(buf, b"wxyz".to_vec());
}
