//! End-to-end tests through the real parser: parse, traverse, fix, and
//! re-lint; and the parse-error reporting pipeline.

use statix::{
    all_lints, lint_source, parse_source, run_lints, ParseErrorInfo, Registry, Report,
    SessionInfo, Severity, SyntaxError, TextSpan,
};

fn lint(source: &str) -> Vec<Report> {
    let bytes = source.as_bytes().to_vec();
    let (forest, _errors) = parse_source(&bytes);
    let lints = all_lints();
    let reg = Registry::build(&lints);
    run_lints(&reg, &forest, &bytes, &SessionInfo::new())
}

#[test]
fn manual_inherit_from_end_to_end() {
    let source = "{ a = b.a; }";
    let reports = lint(source);
    assert_eq!(reports.len(), 1);
    let report = &reports[0];
    assert_eq!(report.note, "Assignment instead of inherit from");
    assert_eq!(report.code, 4);
    assert_eq!(report.diagnostics.len(), 1);
    let diag = &report.diagnostics[0];
    assert_eq!(diag.at, TextSpan::new(2, 10));
    let sugg = diag.suggestion.as_ref().unwrap();
    assert_eq!(sugg.at, TextSpan::new(2, 10));
    assert_eq!(sugg.fix, b"inherit (b) a;".to_vec());

    let mut buf = source.as_bytes().to_vec();
    report.apply(&mut buf);
    let fixed = String::from_utf8(buf).unwrap();
    assert_eq!(fixed, "{ inherit (b) a; }");

    assert!(lint(&fixed).is_empty());
}

#[test]
fn manual_inherit_fix_does_not_retrigger() {
    let source = "{ x = x; }";
    let reports = lint(source);
    assert_eq!(reports.len(), 1);
    let report = &reports[0];
    assert_eq!(report.note, "Assignment instead of inherit");
    assert_eq!(report.code, 3);
    let sugg = report.diagnostics[0].suggestion.as_ref().unwrap();
    assert_eq!(sugg.fix, b"inherit x;".to_vec());

    let mut buf = source.as_bytes().to_vec();
    report.apply(&mut buf);
    let fixed = String::from_utf8(buf).unwrap();
    assert_eq!(fixed, "{ inherit x; }");

    assert!(lint(&fixed).is_empty());
}

#[test]
fn clean_source_produces_no_reports() {
    assert!(lint("{ a = b.c; }").is_empty());
    assert!(lint("{ inherit (b) a; }").is_empty());
    let bytes = b"{ a = b.c; }".to_vec();
    let (_, errors) = parse_source(&bytes);
    assert!(errors.is_empty());
}

#[test]
fn parse_error_becomes_syntax_error_report() {
    // An unclosed attribute set fails with exactly one error: the end of
    // file is reached while tokens are still expected.
    let bytes = b"{ a = b.a; ".to_vec();
    let (_, errors) = parse_source(&bytes);
    assert_eq!(errors.len(), 1);
    let reports: Vec<Report> =
        errors.into_iter().map(Report::from_parse_err).collect();
    assert_eq!(reports.len(), 1);
    let report = &reports[0];
    assert_eq!(report.note, "Syntax error");
    assert!(matches!(report.severity, Severity::Error));
    assert_eq!(report.diagnostics.len(), 1);
    let diag = &report.diagnostics[0];
    // No natural location: reported at the empty span at offset zero.
    assert_eq!(diag.at, TextSpan::new(0, 0));
    assert_eq!(diag.message, b"Unexpected end of file".to_vec());
}

#[test]
fn every_parse_failure_report_is_capitalized() {
    // An unterminated string literal; the parser reports several
    // failures, and each becomes a Syntax error report whose message
    // starts with an uppercase character.
    let bytes = b"\"abc".to_vec();
    let (_, errors) = parse_source(&bytes);
    assert!(!errors.is_empty());
    for err in errors {
        let report = Report::from_parse_err(err);
        assert_eq!(report.note, "Syntax error");
        assert!(matches!(report.severity, Severity::Error));
        assert_eq!(report.diagnostics.len(), 1);
        let msg = &report.diagnostics[0].message;
        assert!(!msg.is_empty());
        assert!(msg[0].is_ascii_uppercase());
    }
}

#[test]
fn parser_dump_reflects_tree_structure() {
    // The parse boundary hands back a real tree, not the input: one root
    // spanning the whole text, with nested children.
    let bytes = b"{ a = b.a; }".to_vec();
    let (forest, errors) = parse_source(&bytes);
    assert!(errors.is_empty());
    assert_eq!(forest.len(), 1);
    let root = &forest[0];
    assert_eq!(root.span, TextSpan::new(0, bytes.len()));
    assert!(!root.children.is_empty());
}

#[test]
fn lint_source_matches_manual_composition() {
    let bytes = b"{ a = b.a; x = x; }".to_vec();
    let (reports, errors) = lint_source(&bytes);
    assert!(errors.is_empty());

    let (forest, _) = parse_source(&bytes);
    let reg = Registry::build(&all_lints());
    let manual = run_lints(&reg, &forest, &bytes, &SessionInfo::new());

    assert_eq!(reports.len(), manual.len());
    assert_eq!(reports.len(), 2);
    for (a, b) in reports.iter().zip(manual.iter()) {
        assert_eq!(a.note, b.note);
        assert_eq!(a.code, b.code);
        assert_eq!(a.diagnostics.len(), b.diagnostics.len());
        assert_eq!(a.diagnostics[0].at, b.diagnostics[0].at);
    }
    // traversal order: the earlier binding's report comes first
    assert_eq!(reports[0].code, 4);
    assert_eq!(reports[1].code, 3);
}

#[test]
fn from_parse_err_maps_every_location_kind() {
    let located = [
        ParseErrorInfo::Unexpected(TextSpan::new(3, 7)),
        ParseErrorInfo::UnexpectedExtra(TextSpan::new(3, 7)),
        ParseErrorInfo::UnexpectedWanted(TextSpan::new(3, 7)),
        ParseErrorInfo::UnexpectedDoubleBind(TextSpan::new(3, 7)),
    ];
    for info in located {
        let report = Report::from_parse_err(SyntaxError {
            info,
            message: b"some message".to_vec(),
        });
        assert_eq!(report.note, "Syntax error");
        assert!(matches!(report.severity, Severity::Error));
        assert_eq!(report.diagnostics.len(), 1);
        assert_eq!(report.diagnostics[0].at, TextSpan::new(3, 7));
        assert_eq!(report.diagnostics[0].message, b"Some message".to_vec());
        assert!(report.diagnostics[0].suggestion.is_none());
    }
    let at_eof = [ParseErrorInfo::UnexpectedEof, ParseErrorInfo::UnexpectedEofWanted];
    for info in at_eof {
        let report = Report::from_parse_err(SyntaxError {
            info,
            message: b"some message".to_vec(),
        });
        assert_eq!(report.diagnostics[0].at, TextSpan::new(0, 0));
    }
}
