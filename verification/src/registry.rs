//! The lint registry: a table built once, before traversal, that maps each
//! node kind to the rules that apply to it, in registration order. After
//! construction the table is read-only. One entry is appended per
//! (rule, kind) pair, so lookup concatenates the entries for a kind and
//! needs no deduplication.

use vstd::prelude::*;
use crate::lints::AnyLint;
use crate::contract::Metadata;
use crate::tree::NodeKind;

verus! {

/// The rules of `ls` that apply to kind `k`, in registration order. This
/// is the semantics every lookup is proved against.
pub open spec fn matching_lints(ls: Seq<AnyLint>, k: NodeKind) -> Seq<AnyLint>
    decreases ls.len(),
{
    if ls.len() == 0 {
        Seq::empty()
    } else {
        matching_lints(ls.drop_last(), k) + if ls.last().matches_kind(k) {
            seq![ls.last()]
        } else {
            Seq::<AnyLint>::empty()
        }
    }
}

/// One table entry: the rules registered under one kind by one insertion.
pub struct KindEntry {
    pub kind: NodeKind,
    pub lints: Vec<AnyLint>,
}

/// What a kind finds in the table: the concatenation, in insertion order,
/// of every entry registered under it.
pub open spec fn table_lookup(es: Seq<KindEntry>, k: NodeKind) -> Seq<AnyLint>
    decreases es.len(),
{
    if es.len() == 0 {
        Seq::empty()
    } else {
        table_lookup(es.drop_last(), k) + if es.last().kind == k {
            es.last().lints@
        } else {
            Seq::<AnyLint>::empty()
        }
    }
}

/// The kind-indexed rule table. Build it once with `Registry::build`;
/// afterwards it is read-only.
pub struct Registry {
    pub entries: Vec<KindEntry>,
    /// The registered rules, in registration order, kept for specification.
    pub all: Ghost<Seq<AnyLint>>,
}

impl Registry {
    /// The registered rules this table indexes.
    pub open spec fn spec_all(&self) -> Seq<AnyLint> {
        self.all@
    }

    /// Every kind finds in the table exactly the registered rules that
    /// apply to it.
    pub open spec fn wf(&self) -> bool {
        forall|k: NodeKind| #[trigger]
            table_lookup(self.entries@, k) == matching_lints(self.all@, k)
    }

    /// Build the table by inserting every rule under each kind it matches,
    /// iterating every registered rule exactly once.
    pub fn build(lints: &Vec<AnyLint>) -> (r: Registry)
        ensures
            r.wf(),
            r.spec_all() == lints@,
    {
        let ghost all = lints@;
        let mut entries: Vec<KindEntry> = Vec::new();
        proof {
            assert forall|k: NodeKind| #[trigger] table_lookup(entries@, k) == matching_lints(
                all.take(0),
                k,
            ) by {
                assert(all.take(0).len() == 0);
                assert(table_lookup(entries@, k) =~= matching_lints(all.take(0), k));
            }
        }
        let mut i: usize = 0;
        while i < lints.len()
            invariant
                i <= all.len(),
                all == lints@,
                forall|k: NodeKind| #[trigger] table_lookup(entries@, k) == matching_lints(
                    all.take(i as int),
                    k,
                ),
            decreases all.len() - i,
        {
            let l = lints[i];
            let kinds = l.match_kind();
            let ghost ks = kinds@;
            proof {
                assert(ks.take(0).len() == 0);
                assert forall|k: NodeKind| #[trigger] table_lookup(entries@, k) == matching_lints(
                    all.take(i as int),
                    k,
                ) + if ks.take(0).contains(k) {
                    seq![l]
                } else {
                    Seq::<AnyLint>::empty()
                } by {
                    assert(!ks.take(0).contains(k));
                    assert(matching_lints(all.take(i as int), k) + Seq::<AnyLint>::empty()
                        =~= matching_lints(all.take(i as int), k));
                }
            }
            let mut j: usize = 0;
            while j < kinds.len()
                invariant
                    j <= ks.len(),
                    ks == kinds@,
                    ks.no_duplicates(),
                    forall|k: NodeKind| ks.contains(k) <==> l.matches_kind(k),
                    l == all[i as int],
                    0 <= i < all.len(),
                    forall|k: NodeKind| #[trigger] table_lookup(entries@, k) == matching_lints(
                        all.take(i as int),
                        k,
                    ) + if ks.take(j as int).contains(k) {
                        seq![l]
                    } else {
                        Seq::<AnyLint>::empty()
                    },
                decreases ks.len() - j,
            {
                let kj = kinds[j];
                let ghost before = entries@;
                let mut lone: Vec<AnyLint> = Vec::new();
                lone.push(l);
                entries.push(KindEntry { kind: kj, lints: lone });
                proof {
                    assert(entries@.drop_last() =~= before);
                    assert(entries@.last().kind == kj);
                    assert(entries@.last().lints@ =~= seq![l]);
                    assert forall|k: NodeKind| #[trigger] table_lookup(entries@, k)
                        == matching_lints(all.take(i as int), k) + if ks.take(
                        j as int + 1,
                    ).contains(k) {
                        seq![l]
                    } else {
                        Seq::<AnyLint>::empty()
                    } by {
                        assert(ks.take(j as int + 1).drop_last() =~= ks.take(j as int));
                        assert(ks.take(j as int + 1).last() == ks[j as int]);
                        if k == kj {
                            assert(!ks.take(j as int).contains(k)) by {
                                if ks.take(j as int).contains(k) {
                                    let m = choose|m: int|
                                        0 <= m < j && ks.take(j as int)[m] == k;
                                    assert(ks[m] == k && ks[j as int] == k);
                                }
                            }
                            assert(ks.take(j as int + 1).contains(k)) by {
                                assert(ks.take(j as int + 1)[j as int] == k);
                            }
                            assert(matching_lints(all.take(i as int), k) + Seq::<
                                AnyLint,
                            >::empty() =~= matching_lints(all.take(i as int), k));
                            assert(table_lookup(before, k) == matching_lints(
                                all.take(i as int),
                                k,
                            ) + Seq::<AnyLint>::empty());
                            assert(table_lookup(entries@, k) == table_lookup(before, k)
                                + seq![l]);
                        } else {
                            assert(table_lookup(entries@, k) =~= table_lookup(before, k));
                            assert(ks.take(j as int + 1).contains(k) <==> ks.take(
                                j as int,
                            ).contains(k)) by {
                                if ks.take(j as int + 1).contains(k) {
                                    let m = choose|m: int|
                                        0 <= m < j + 1 && #[trigger] ks.take(j as int + 1)[m]
                                            == k;
                                    if m < j {
                                        assert(ks.take(j as int)[m] == k);
                                    }
                                }
                                if ks.take(j as int).contains(k) {
                                    let m = choose|m: int|
                                        0 <= m < j && ks.take(j as int)[m] == k;
                                    assert(ks.take(j as int + 1)[m] == k);
                                }
                            }
                        }
                    }
                }
                j = j + 1;
            }
            proof {
                assert(ks.take(ks.len() as int) =~= ks);
                assert forall|k: NodeKind| #[trigger] table_lookup(entries@, k) == matching_lints(
                    all.take(i as int + 1),
                    k,
                ) by {
                    assert(all.take(i as int + 1).drop_last() =~= all.take(i as int));
                    assert(all.take(i as int + 1).last() == all[i as int]);
                    if l.matches_kind(k) {
                        assert(ks.contains(k));
                    } else {
                        assert(!ks.contains(k));
                        assert(matching_lints(all.take(i as int), k) + Seq::<AnyLint>::empty()
                            =~= matching_lints(all.take(i as int), k));
                    }
                }
            }
            i = i + 1;
        }
        proof {
            assert(all.take(all.len() as int) =~= all);
        }
        Registry { entries, all: Ghost(all) }
    }

    /// Look up every rule applicable to a node of kind `kind`, in
    /// registration order.
    pub fn lookup(&self, kind: &NodeKind) -> (r: Vec<AnyLint>)
        requires
            self.wf(),
        ensures
            r@ == matching_lints(self.spec_all(), *kind),
    {
        let ghost es = self.entries@;
        let mut acc: Vec<AnyLint> = Vec::new();
        let mut i: usize = 0;
        proof {
            assert(acc@ =~= table_lookup(es.take(0), *kind));
        }
        while i < self.entries.len()
            invariant
                i <= es.len(),
                es == self.entries@,
                acc@ == table_lookup(es.take(i as int), *kind),
            decreases es.len() - i,
        {
            proof {
                assert(es.take(i as int + 1).drop_last() =~= es.take(i as int));
                assert(es.take(i as int + 1).last() == es[i as int]);
            }
            let entry = &self.entries[i];
            if entry.kind == *kind {
                let mut m: usize = 0;
                while m < entry.lints.len()
                    invariant
                        m <= entry.lints@.len(),
                        entry == es[i as int],
                        acc@ == table_lookup(es.take(i as int), *kind) + entry.lints@.take(
                            m as int,
                        ),
                    decreases entry.lints@.len() - m,
                {
                    acc.push(entry.lints[m]);
                    proof {
                        assert(entry.lints@.take(m as int + 1) =~= entry.lints@.take(
                            m as int,
                        ).push(entry.lints@[m as int]));
                        assert(table_lookup(es.take(i as int), *kind) + entry.lints@.take(
                            m as int + 1,
                        ) =~= (table_lookup(es.take(i as int), *kind) + entry.lints@.take(
                            m as int,
                        )).push(entry.lints@[m as int]));
                    }
                    m = m + 1;
                }
                proof {
                    assert(entry.lints@.take(entry.lints@.len() as int) =~= entry.lints@);
                }
            } else {
                proof {
                    assert(table_lookup(es.take(i as int + 1), *kind) =~= table_lookup(
                        es.take(i as int),
                        *kind,
                    ));
                }
            }
            i = i + 1;
        }
        proof {
            assert(es.take(es.len() as int) =~= es);
        }
        acc
    }
}

/// Registry completeness: a registered rule is found under exactly the
/// kinds it matches — looking up a kind it matches yields a list
/// containing it, and looking up any other kind yields a list that does
/// not.
pub proof fn lemma_registry_complete(ls: Seq<AnyLint>, k: NodeKind, l: AnyLint)
    ensures
        matching_lints(ls, k).contains(l) <==> ls.contains(l) && l.matches_kind(k),
    decreases ls.len(),
{
    if ls.len() == 0 {
    } else {
        lemma_registry_complete(ls.drop_last(), k, l);
        let rest = matching_lints(ls.drop_last(), k);
        assert(forall|m: int| 0 <= m < ls.len() - 1 ==> ls.drop_last()[m] == #[trigger] ls[m]);
        if matching_lints(ls, k).contains(l) {
            let m = choose|m: int|
                0 <= m < matching_lints(ls, k).len() && matching_lints(ls, k)[m] == l;
            if m < rest.len() {
                assert(rest.contains(l)) by {
                    assert(rest[m] == l);
                }
                assert(ls.drop_last().contains(l));
                let w = choose|w: int| 0 <= w < ls.len() - 1 && ls.drop_last()[w] == l;
                assert(ls[w] == l);
            } else {
                assert(ls.last() == l && ls.last().matches_kind(k));
                assert(ls[ls.len() - 1] == l);
            }
        }
        if ls.contains(l) && l.matches_kind(k) {
            let w = choose|w: int| 0 <= w < ls.len() && ls[w] == l;
            if w < ls.len() - 1 {
                assert(ls.drop_last()[w] == l);
                assert(ls.drop_last().contains(l));
                let m = choose|m: int| 0 <= m < rest.len() && rest[m] == l;
                assert(matching_lints(ls, k)[m] == l);
            } else {
                assert(matching_lints(ls, k)[matching_lints(ls, k).len() - 1] == l);
            }
        }
    }
}

} // verus!
