//! The traversal driver: one depth-first pre-order walk over the whole
//! parsed tree, consulting the registry for the rules applicable to each
//! element's kind, invoking each in registration order, and accumulating
//! the reports in traversal order. Dispatch through the registry is proved
//! to invoke exactly the rules whose `match_with` accepts the kind.

use vstd::prelude::*;
use crate::lints::{AnyLint, all_lints, all_lints_spec};
use crate::contract::{Rule, Metadata, Lint, SessionInfo};
use crate::registry::{Registry, matching_lints};
use crate::report::{Report, ReportModel};
use crate::tree::Element;
use crate::parse::{parse_source, parse_dump, events_of_forest, error_models, SyntaxError};

verus! {

broadcast use
    vstd::seq::axiom_seq_index_decreases,
    vstd::seq::axiom_seq_subrange_decreases,
    vstd::std_specs::vec::axiom_vec_index_decreases,
    vstd::std_specs::vec::axiom_vec_decreases_to_view;

/// The spec-level values of a report sequence.
pub open spec fn report_models(rs: Seq<Report>) -> Seq<ReportModel> {
    Seq::new(rs.len(), |i: int| rs[i]@)
}

/// The reports produced on one element by the rules of `ls`, in order:
/// each rule that fires contributes its report.
pub open spec fn node_reports(ls: Seq<AnyLint>, e: Element, src: Seq<u8>) -> Seq<ReportModel>
    decreases ls.len(),
{
    if ls.len() == 0 {
        Seq::empty()
    } else {
        node_reports(ls.drop_last(), e, src) + match ls.last().validate_spec(e, src) {
            Some(m) => seq![m],
            None => Seq::<ReportModel>::empty(),
        }
    }
}

/// The reports of a whole subtree, in depth-first pre-order: the element's
/// own reports, then those of its children in source order.
pub open spec fn tree_reports(ls: Seq<AnyLint>, e: Element, src: Seq<u8>) -> Seq<ReportModel>
    decreases e,
{
    node_reports(ls, e, src) + forest_reports(ls, e.children@, src)
}

/// The reports of a sequence of subtrees, in order.
pub open spec fn forest_reports(ls: Seq<AnyLint>, f: Seq<Element>, src: Seq<u8>) -> Seq<
    ReportModel,
>
    decreases f,
{
    if f.len() == 0 {
        Seq::empty()
    } else {
        forest_reports(ls, f.drop_last(), src) + tree_reports(ls, f.last(), src)
    }
}

/// Dispatch equivalence: the rules the kind-indexed registry hands the
/// driver for an element produce exactly the reports that probing every
/// registered rule would produce. The registry changes how fast the rules
/// are found, never which rules fire.
pub proof fn lemma_dispatch_equivalence(ls: Seq<AnyLint>, e: Element, src: Seq<u8>)
    ensures
        node_reports(matching_lints(ls, e.kind), e, src) == node_reports(ls, e, src),
    decreases ls.len(),
{
    if ls.len() == 0 {
        assert(matching_lints(ls, e.kind) =~= Seq::<AnyLint>::empty());
    } else {
        lemma_dispatch_equivalence(ls.drop_last(), e, src);
        let l = ls.last();
        if l.matches_kind(e.kind) {
            let m = matching_lints(ls.drop_last(), e.kind);
            assert(matching_lints(ls, e.kind) =~= m.push(l));
            assert(m.push(l).drop_last() =~= m);
            assert(m.push(l).last() == l);
        } else {
            l.validate_matches_kind(e, src);
            assert(l.validate_spec(e, src) is None);
            assert(matching_lints(ls, e.kind) =~= matching_lints(ls.drop_last(), e.kind));
            assert(node_reports(ls.drop_last(), e, src) + Seq::<ReportModel>::empty()
                =~= node_reports(ls.drop_last(), e, src));
        }
    }
}

/// Visit `e` and its whole subtree: look up the applicable rules for each
/// element, invoke them in registration order, and append each report to
/// `out` in traversal order.
fn lint_element(
    reg: &Registry,
    e: &Element,
    src: &Vec<u8>,
    sess: &SessionInfo,
    out: &mut Vec<Report>,
)
    requires
        reg.wf(),
    ensures
        report_models(final(out)@) == report_models(old(out)@) + tree_reports(
            reg.spec_all(),
            *e,
            src@,
        ),
    decreases *e,
{
    let ghost base = report_models(out@);
    let ghost all = reg.spec_all();
    let matched = reg.lookup(&e.kind);
    let ghost ms = matched@;
    let mut i: usize = 0;
    proof {
        assert(ms.take(0).len() == 0);
        assert(base + node_reports(ms.take(0), *e, src@) =~= base);
    }
    while i < matched.len()
        invariant
            i <= ms.len(),
            ms == matched@,
            report_models(out@) == base + node_reports(ms.take(i as int), *e, src@),
        decreases ms.len() - i,
    {
        proof {
            assert(ms.take(i as int + 1).drop_last() =~= ms.take(i as int));
            assert(ms.take(i as int + 1).last() == ms[i as int]);
        }
        let l = &matched[i];
        match l.validate(e, src, sess) {
            Some(rep) => {
                let ghost m = rep@;
                out.push(rep);
                proof {
                    assert(report_models(out@) =~= (base + node_reports(
                        ms.take(i as int),
                        *e,
                        src@,
                    )).push(m));
                    assert((base + node_reports(ms.take(i as int), *e, src@)).push(m) =~= base
                        + (node_reports(ms.take(i as int), *e, src@) + seq![m]));
                }
            },
            None => {
                proof {
                    assert(node_reports(ms.take(i as int), *e, src@) + Seq::<
                        ReportModel,
                    >::empty() =~= node_reports(ms.take(i as int), *e, src@));
                }
            },
        }
        i = i + 1;
    }
    proof {
        assert(ms.take(ms.len() as int) =~= ms);
        lemma_dispatch_equivalence(all, *e, src@);
        assert(report_models(out@) == base + node_reports(all, *e, src@));
    }
    let ghost mid = report_models(out@);
    let cs = &e.children;
    let mut ci: usize = 0;
    proof {
        assert(forest_reports(all, cs@.take(0), src@) =~= Seq::<ReportModel>::empty());
        assert(mid + Seq::<ReportModel>::empty() =~= mid);
    }
    while ci < cs.len()
        invariant
            ci <= cs@.len(),
            cs == &e.children,
            reg.wf(),
            all == reg.spec_all(),
            report_models(out@) == mid + forest_reports(all, cs@.take(ci as int), src@),
        decreases cs@.len() - ci,
    {
        proof {
            assert(cs@.take(ci as int + 1).drop_last() =~= cs@.take(ci as int));
            assert(cs@.take(ci as int + 1).last() == cs@[ci as int]);
        }
        let ghost before = report_models(out@);
        lint_element(reg, &cs[ci], src, sess, out);
        proof {
            assert(before + tree_reports(all, cs@[ci as int], src@) =~= mid + (forest_reports(
                all,
                cs@.take(ci as int),
                src@,
            ) + tree_reports(all, cs@[ci as int], src@)));
        }
        ci = ci + 1;
    }
    proof {
        assert(cs@.take(cs@.len() as int) =~= cs@);
        assert(base + node_reports(all, *e, src@) + forest_reports(all, e.children@, src@)
            =~= base + (node_reports(all, *e, src@) + forest_reports(all, e.children@, src@)));
    }
}

/// Walk every tree of `forest` exactly once, in order, and return every
/// report the registered rules produce, in traversal order. The session
/// value is threaded through unchanged to every rule invocation.
pub fn run_lints(
    reg: &Registry,
    forest: &Vec<Element>,
    src: &Vec<u8>,
    sess: &SessionInfo,
) -> (r: Vec<Report>)
    requires
        reg.wf(),
    ensures
        report_models(r@) == forest_reports(reg.spec_all(), forest@, src@),
{
    let ghost all = reg.spec_all();
    let mut out: Vec<Report> = Vec::new();
    let mut i: usize = 0;
    proof {
        assert(report_models(out@) =~= Seq::<ReportModel>::empty());
        assert(forest_reports(all, forest@.take(0), src@) =~= Seq::<ReportModel>::empty());
    }
    while i < forest.len()
        invariant
            i <= forest@.len(),
            reg.wf(),
            all == reg.spec_all(),
            report_models(out@) == forest_reports(all, forest@.take(i as int), src@),
        decreases forest@.len() - i,
    {
        proof {
            assert(forest@.take(i as int + 1).drop_last() =~= forest@.take(i as int));
            assert(forest@.take(i as int + 1).last() == forest@[i as int]);
        }
        lint_element(reg, &forest[i], src, sess, &mut out);
        i = i + 1;
    }
    proof {
        assert(forest@.take(forest@.len() as int) =~= forest@);
    }
    out
}

/// Lint a whole source text: parse it, build the registry from every
/// bundled rule, walk the parsed tree exactly once, and hand back the lint
/// reports in traversal order together with the parse errors. The reports
/// are those of the forest whose pre-order walk the parser produced.
pub fn lint_source(src: &Vec<u8>) -> (r: (Vec<Report>, Vec<SyntaxError>))
    ensures
        error_models(r.1@) == parse_dump(src@).errors,
        exists|f: Seq<Element>|
            events_of_forest(f) == parse_dump(src@).events && report_models(r.0@)
                == forest_reports(all_lints_spec(), f, src@),
{
    let (forest, errors) = parse_source(src);
    let lints = all_lints();
    let reg = Registry::build(&lints);
    let sess = SessionInfo::new();
    let reports = run_lints(&reg, &forest, src, &sess);
    proof {
        assert(events_of_forest(forest@) == parse_dump(src@).events && report_models(reports@)
            == forest_reports(all_lints_spec(), forest@, src@));
    }
    (reports, errors)
}

} // verus!
