//! The boundary to the external Nix parser. The parser is consumed as a
//! read-only capability: parse source text, dump the resulting tree as a
//! flat pre-order event stream, and report parse errors as located values.
//! Everything past that boundary is verified: the event stream is folded
//! back into the library's own tree model by `build_forest`, whose result
//! is proved to flatten back to exactly the stream it was built from.

use vstd::prelude::*;
use crate::span::TextSpan;
use crate::tree::{Element, NodeKind};
use crate::text::extend_with_range;
use crate::report::{Report, ReportModel, DiagnosticModel, Severity};

verus! {

broadcast use
    vstd::seq::axiom_seq_index_decreases,
    vstd::seq::axiom_seq_subrange_decreases,
    vstd::std_specs::vec::axiom_vec_index_decreases,
    vstd::std_specs::vec::axiom_vec_decreases_to_view;

/// One event of a depth-first pre-order walk over a parsed tree: entering
/// an element (with its kind and byte range) or leaving the element
/// entered most recently.
#[derive(Clone, Copy, Debug, PartialEq, Eq, Structural)]
pub enum RawEvent {
    Enter { kind: NodeKind, start: usize, end: usize },
    Leave,
}

/// The location carried by a parse failure, where it has one.
#[derive(Clone, Copy, Debug, PartialEq, Eq, Structural)]
pub enum ParseErrorInfo {
    /// An error node whose cause cannot be specified further.
    Unexpected(TextSpan),
    /// Tokens following the root of the tree.
    UnexpectedExtra(TextSpan),
    /// A different token than the expected ones was found.
    UnexpectedWanted(TextSpan),
    /// A pattern bound twice.
    UnexpectedDoubleBind(TextSpan),
    /// The end of file was reached while tokens were still expected.
    UnexpectedEof,
    /// The end of file was reached where specific tokens were expected.
    UnexpectedEofWanted,
    /// A failure kind this adapter has no mapping for.
    Unknown,
}

/// A parse failure: its location information and its rendered message.
pub struct SyntaxError {
    pub info: ParseErrorInfo,
    pub message: Vec<u8>,
}

/// The spec-level value of a `SyntaxError`.
pub struct SyntaxErrorModel {
    pub info: ParseErrorInfo,
    pub message: Seq<u8>,
}

impl View for SyntaxError {
    type V = SyntaxErrorModel;

    open spec fn view(&self) -> SyntaxErrorModel {
        SyntaxErrorModel { info: self.info, message: self.message@ }
    }
}

/// The spec-level values of an error sequence.
pub open spec fn error_models(es: Seq<SyntaxError>) -> Seq<SyntaxErrorModel> {
    Seq::new(es.len(), |i: int| es[i]@)
}

/// What parsing a given source text yields: the pre-order event stream of
/// the tree and the parse errors, both functions of the text alone.
pub struct ParseDump {
    pub events: Seq<RawEvent>,
    pub errors: Seq<SyntaxErrorModel>,
}

/// The event stream and errors the external parser produces for a source
/// text. Parsing is deterministic: the same bytes give the same dump on
/// every machine.
pub uninterp spec fn parse_dump(src: Seq<u8>) -> ParseDump;

/// The nesting depth after a prefix of an event stream.
pub open spec fn depth_after(evs: Seq<RawEvent>) -> int
    decreases evs.len(),
{
    if evs.len() == 0 {
        0
    } else {
        depth_after(evs.drop_last()) + match evs.last() {
            RawEvent::Enter { .. } => 1,
            RawEvent::Leave => -1,
        }
    }
}

/// An event stream is balanced when every Leave matches an earlier Enter
/// and every Enter is eventually left.
pub open spec fn balanced(evs: Seq<RawEvent>) -> bool {
    depth_after(evs) == 0 && forall|i: int| 0 <= i <= evs.len() ==> depth_after(
        #[trigger] evs.take(i),
    ) >= 0
}

/// The Enter event of an element.
pub open spec fn enter_of(e: Element) -> RawEvent {
    RawEvent::Enter { kind: e.kind, start: e.span.start, end: e.span.end }
}

/// The pre-order event stream of one subtree.
pub open spec fn events_of_tree(e: Element) -> Seq<RawEvent>
    decreases e,
{
    seq![enter_of(e)] + events_of_forest(e.children@) + seq![RawEvent::Leave]
}

/// The pre-order event stream of a sequence of subtrees.
pub open spec fn events_of_forest(f: Seq<Element>) -> Seq<RawEvent>
    decreases f,
{
    if f.len() == 0 {
        Seq::empty()
    } else {
        events_of_forest(f.drop_last()) + events_of_tree(f.last())
    }
}

/// The events of the still-open elements on the builder's stack, bottom
/// to top: each frame's Enter followed by the events of the children
/// completed for it so far.
pub open spec fn open_events(st: Seq<Element>) -> Seq<RawEvent>
    decreases st.len(),
{
    if st.len() == 0 {
        Seq::empty()
    } else {
        open_events(st.drop_last()) + seq![enter_of(st.last())] + events_of_forest(
            st.last().children@,
        )
    }
}

/// Declares rnix::parser::ParseError so the converter below can take it;
/// the value is opaque here.
#[verifier::external_type_specification]
#[verifier::external_body]
pub struct ExParseError(rnix::parser::ParseError);

/// Declares text_size::TextRange (re-exported by rnix) so the converter
/// below can take it; the value is opaque here.
#[verifier::external_type_specification]
#[verifier::external_body]
pub struct ExTextRange(rnix::TextRange);

/// Relies on text_size::TextRange: `start()` and `end()` are the byte
/// offsets of the range, with start never past end.
#[verifier::external_body]
fn span_of(r: rnix::TextRange) -> (s: TextSpan)
    ensures
        s.start <= s.end,
{
    TextSpan { start: r.start().into(), end: r.end().into() }
}

/// Relies on rnix::SyntaxKind's variants: tells the node kinds the bundled
/// rules read apart from every other node or token kind, keeping the raw
/// tag for the rest.
#[verifier::external_body]
fn kind_of(raw: u16, is_node: bool) -> (r: NodeKind) {
    if !is_node {
        NodeKind::Token(raw)
    } else if raw == rnix::SyntaxKind::NODE_KEY_VALUE as u16 {
        NodeKind::KeyValue
    } else if raw == rnix::SyntaxKind::NODE_KEY as u16 {
        NodeKind::Key
    } else if raw == rnix::SyntaxKind::NODE_SELECT as u16 {
        NodeKind::Select
    } else if raw == rnix::SyntaxKind::NODE_IDENT as u16 {
        NodeKind::Ident
    } else {
        NodeKind::OtherNode(raw)
    }
}

/// Relies on rnix::parser::ParseError: one arm per variant, moving the
/// range out where the variant carries one, and rendering the error's
/// display text.
#[verifier::external_body]
fn convert_err(e: &rnix::parser::ParseError) -> (r: SyntaxError) {
    let info = match e {
        rnix::parser::ParseError::Unexpected(at) => ParseErrorInfo::Unexpected(span_of(*at)),
        rnix::parser::ParseError::UnexpectedExtra(at) => ParseErrorInfo::UnexpectedExtra(span_of(*at)),
        rnix::parser::ParseError::UnexpectedWanted(_, at, _) => ParseErrorInfo::UnexpectedWanted(span_of(*at)),
        rnix::parser::ParseError::UnexpectedDoubleBind(at) => ParseErrorInfo::UnexpectedDoubleBind(span_of(*at)),
        rnix::parser::ParseError::UnexpectedEOF => ParseErrorInfo::UnexpectedEof,
        rnix::parser::ParseError::UnexpectedEOFWanted(_) => ParseErrorInfo::UnexpectedEofWanted,
        _ => ParseErrorInfo::Unknown,
    };
    SyntaxError { info, message: e.to_string().into_bytes() }
}

/// Relies on rnix::parse and rowan's `preorder_with_tokens`: parsing is a
/// deterministic function of the text, the walk emits one Enter and one
/// matching Leave per element of the tree (so the stream is balanced), and
/// `errors` lists the parse failures.
#[verifier::external_body]
fn parse_events(src: &Vec<u8>) -> (r: (Vec<RawEvent>, Vec<SyntaxError>))
    ensures
        r.0@ == parse_dump(src@).events,
        error_models(r.1@) == parse_dump(src@).errors,
        balanced(r.0@),
{
    let ast = rnix::parse(&String::from_utf8_lossy(src));
    let events = ast
        .node()
        .preorder_with_tokens()
        .map(|ev| match ev {
            rnix::WalkEvent::Enter(e) => RawEvent::Enter {
                kind: kind_of(e.kind() as u16, e.as_node().is_some()),
                start: e.text_range().start().into(),
                end: e.text_range().end().into(),
            },
            rnix::WalkEvent::Leave(_) => RawEvent::Leave,
        })
        .collect();
    (events, ast.errors().iter().map(convert_err).collect())
}

/// Fold a pre-order event stream back into the forest it walks: succeeds
/// exactly on balanced streams, and the forest it returns flattens back to
/// the given stream.
pub fn build_forest(evs: &Vec<RawEvent>) -> (r: Option<Vec<Element>>)
    ensures
        match r {
            Some(f) => events_of_forest(f@) == evs@ && balanced(evs@),
            None => !balanced(evs@),
        },
{
    let ghost es = evs@;
    let mut stack: Vec<Element> = Vec::new();
    let mut roots: Vec<Element> = Vec::new();
    let mut i: usize = 0;
    proof {
        assert(es.take(0) =~= Seq::<RawEvent>::empty());
        assert(events_of_forest(roots@) + open_events(stack@) =~= Seq::<RawEvent>::empty());
    }
    while i < evs.len()
        invariant
            i <= es.len(),
            es == evs@,
            es.take(i as int) == events_of_forest(roots@) + open_events(stack@),
            depth_after(es.take(i as int)) == stack@.len(),
            forall|m: int| 0 <= m <= i ==> depth_after(#[trigger] es.take(m)) >= 0,
        decreases es.len() - i,
    {
        proof {
            assert(es.take(i as int + 1).drop_last() =~= es.take(i as int));
            assert(es.take(i as int + 1).last() == es[i as int]);
        }
        match evs[i] {
            RawEvent::Enter { kind, start, end } => {
                let ghost st0 = stack@;
                stack.push(Element { kind, span: TextSpan { start, end }, children: Vec::new() });
                proof {
                    assert(stack@.drop_last() =~= st0);
                    assert(stack@.last().children@ =~= Seq::<Element>::empty());
                    assert(events_of_forest(stack@.last().children@) =~= Seq::<RawEvent>::empty());
                    assert(enter_of(stack@.last()) == es[i as int]);
                    assert(es.take(i as int + 1) =~= events_of_forest(roots@) + open_events(
                        stack@,
                    ));
                }
            },
            RawEvent::Leave => {
                match stack.pop() {
                    None => {
                        proof {
                            assert(open_events(stack@) =~= Seq::<RawEvent>::empty());
                            assert(es.take(i as int) =~= events_of_forest(roots@));
                            assert(depth_after(es.take(i as int)) == 0);
                            assert(depth_after(es.take(i as int + 1)) == -1);
                        }
                        return None;
                    },
                    Some(done) => {
                        let ghost st0 = stack@;
                        let ghost closed = seq![enter_of(done)] + events_of_forest(
                            done.children@,
                        ) + seq![RawEvent::Leave];
                        proof {
                            assert(closed =~= events_of_tree(done));
                            assert(es.take(i as int + 1) =~= events_of_forest(roots@)
                                + open_events(st0) + events_of_tree(done));
                        }
                        match stack.pop() {
                            None => {
                                let ghost r0 = roots@;
                                roots.push(done);
                                proof {
                                    assert(st0.len() == 0);
                                    assert(open_events(st0) =~= Seq::<RawEvent>::empty());
                                    assert(roots@.drop_last() =~= r0);
                                    assert(roots@.last() == done);
                                    assert(stack@.len() == 0);
                                    assert(open_events(stack@) =~= Seq::<RawEvent>::empty());
                                    assert(es.take(i as int + 1) =~= events_of_forest(roots@)
                                        + open_events(stack@));
                                }
                            },
                            Some(parent) => {
                                let ghost st1 = stack@;
                                let ghost p0 = parent;
                                let mut parent = parent;
                                parent.children.push(done);
                                let ghost p1 = parent;
                                stack.push(parent);
                                proof {
                                    assert(st0.drop_last() =~= st1);
                                    assert(st0.last() == p0);
                                    assert(stack@.drop_last() =~= st1);
                                    assert(stack@.last() == p1);
                                    assert(p1.children@ =~= p0.children@.push(done));
                                    assert(enter_of(p1) == enter_of(p0));
                                    assert(p0.children@.push(done).drop_last() =~= p0.children@);
                                    assert(events_of_forest(p0.children@.push(done))
                                        == events_of_forest(p0.children@) + events_of_tree(done));
                                    assert(open_events(st0) =~= open_events(st1) + seq![
                                        enter_of(p0),
                                    ] + events_of_forest(p0.children@));
                                    assert(open_events(stack@) =~= open_events(st1) + seq![
                                        enter_of(p1),
                                    ] + events_of_forest(p1.children@));
                                    assert(es.take(i as int + 1) =~= events_of_forest(roots@)
                                        + open_events(stack@));
                                }
                            },
                        }
                    },
                }
            },
        }
        i = i + 1;
    }
    proof {
        assert(es.take(es.len() as int) =~= es);
    }
    if stack.len() == 0 {
        proof {
            assert(open_events(stack@) =~= Seq::<RawEvent>::empty());
            assert(es =~= events_of_forest(roots@));
            assert(balanced(es)) by {
                assert(depth_after(es) == 0);
            }
        }
        Some(roots)
    } else {
        proof {
            assert(depth_after(es) == stack@.len());
        }
        None
    }
}

/// Parse source bytes with the external parser and hand back the
/// library's own view of the result: the tree (as the forest of roots;
/// for the Nix grammar a single root) and the located parse errors.
pub fn parse_source(src: &Vec<u8>) -> (r: (Vec<Element>, Vec<SyntaxError>))
    ensures
        events_of_forest(r.0@) == parse_dump(src@).events,
        error_models(r.1@) == parse_dump(src@).errors,
{
    let (evs, errors) = parse_events(src);
    match build_forest(&evs) {
        Some(f) => (f, errors),
        None => vstd::pervasive::unreached(),
    }
}

/// The byte sequence with an ASCII-lowercase first byte raised to upper
/// case, for presentation consistency of error messages.
pub open spec fn capitalize(s: Seq<u8>) -> Seq<u8> {
    if s.len() > 0 && 97 <= s[0] <= 122 {
        s.update(0, (s[0] - 32) as u8)
    } else {
        s
    }
}

/// Raise the first byte of `msg` to upper case if it is an ASCII
/// lowercase letter.
pub fn capitalize_first(msg: Vec<u8>) -> (r: Vec<u8>)
    ensures
        r@ == capitalize(msg@),
{
    if msg.len() > 0 {
        let c: u8 = msg[0];
        if c >= 97 && c <= 122 {
            let mut out: Vec<u8> = Vec::new();
            out.push(c - 32);
            let n: usize = msg.len();
            extend_with_range(&mut out, &msg, 1, n);
            proof {
                assert(out@ =~= capitalize(msg@));
            }
            return out;
        }
    }
    msg
}

/// The span a parse failure is reported at: its own location where it has
/// one, the empty span at offset zero for end-of-file failures.
pub open spec fn error_span(info: ParseErrorInfo) -> TextSpan {
    match info {
        ParseErrorInfo::Unexpected(at) => at,
        ParseErrorInfo::UnexpectedExtra(at) => at,
        ParseErrorInfo::UnexpectedWanted(at) => at,
        ParseErrorInfo::UnexpectedDoubleBind(at) => at,
        ParseErrorInfo::UnexpectedEof => TextSpan { start: 0, end: 0 },
        ParseErrorInfo::UnexpectedEofWanted => TextSpan { start: 0, end: 0 },
        ParseErrorInfo::Unknown => TextSpan { start: 0, end: 0 },
    }
}

impl Report {
    /// Create a report out of a parse error, so that syntax errors and
    /// lint violations share one reporting pipeline: note `Syntax error`,
    /// severity `Error`, and a single diagnostic at the failure's location
    /// whose message is the failure's text with its first character
    /// capitalized. A failure kind without a mapping is a programmer
    /// error, so it is excluded rather than handled.
    pub fn from_parse_err(err: SyntaxError) -> (r: Report)
        requires
            !(err.info is Unknown),
        ensures
            r@ == (ReportModel {
                note: "Syntax error"@,
                code: 0,
                severity: Severity::Error,
                diagnostics: seq![
                    DiagnosticModel {
                        at: error_span(err.info),
                        message: capitalize(err.message@),
                        suggestion: None,
                    },
                ],
            }),
    {
        let at = match err.info {
            ParseErrorInfo::Unexpected(at) => at,
            ParseErrorInfo::UnexpectedExtra(at) => at,
            ParseErrorInfo::UnexpectedWanted(at) => at,
            ParseErrorInfo::UnexpectedDoubleBind(at) => at,
            ParseErrorInfo::UnexpectedEof => TextSpan::empty_at_zero(),
            ParseErrorInfo::UnexpectedEofWanted => TextSpan::empty_at_zero(),
            ParseErrorInfo::Unknown => vstd::pervasive::unreached(),
        };
        let message = capitalize_first(err.message);
        let r = Report::new("Syntax error", 0).diagnostic(at, message).severity(Severity::Error);
        proof {
            assert(r@.diagnostics =~= seq![
                DiagnosticModel {
                    at: error_span(err.info),
                    message: capitalize(err.message@),
                    suggestion: None,
                },
            ]);
        }
        r
    }
}

} // verus!
