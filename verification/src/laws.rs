//! Properties of the checker, stated and proved once and for all.

use vstd::prelude::*;

use crate::arch::ArchView;
use crate::check::{
    binary_decl_misssrcs, binary_unit_misssrcs, phase1_issues, phase1_slots, phase2_comp_misssrcs,
    phase2_issues, phase2_missdeps, phase2_misssrcs, source_miss, BinaryOutcomeView, IssueView,
    MissingDependencyView, MissingSourceView, SourceOutcomeView,
};
use crate::check::{binary_decl_missdeps, dep_misses};
use crate::model::{best_match, EntryView, PackageIndexView};
use crate::model::SourceIndexView;

verus! {

/// How often `x` occurs in a sequence of missing-dependency records.
pub open spec fn count_md(s: Seq<MissingDependencyView>, x: MissingDependencyView) -> int
    decreases s.len(),
{
    if s.len() == 0 {
        0
    } else {
        count_md(s.drop_last(), x) + (if s.last() == x {
            1int
        } else {
            0
        })
    }
}

proof fn lemma_count_md_concat(a: Seq<MissingDependencyView>, b: Seq<MissingDependencyView>, x: MissingDependencyView)
    ensures
        count_md(a + b, x) == count_md(a, x) + count_md(b, x),
    decreases b.len(),
{
    if b.len() == 0 {
        assert(a + b =~= a);
    } else {
        assert((a + b).drop_last() =~= a + b.drop_last());
        assert((a + b).last() == b.last());
        lemma_count_md_concat(a, b.drop_last(), x);
    }
}

/// A resolved entry carries the name it was looked up under.
proof fn lemma_best_match_name(entries: Seq<EntryView>, name: Seq<char>, c: Option<crate::model::ConstraintView>)
    ensures
        match best_match(entries, name, c) {
            Some(j) => 0 <= j < entries.len() && entries[j].name == name,
            None => true,
        },
    decreases entries.len(),
{
    if entries.len() > 0 {
        lemma_best_match_name(entries.drop_last(), name, c);
    }
}

/// The record a failing dependency `k` of entry `e` produces.
pub open spec fn md_make(comp: Seq<char>, e: EntryView, k: int) -> MissingDependencyView {
    MissingDependencyView { component: comp, package: e.name, constraint: e.depends[k] }
}

/// Whether dependency `k` of `e` fails to resolve in `entries`.
pub open spec fn dep_fails(entries: Seq<EntryView>, e: EntryView, k: int) -> bool {
    best_match(entries, e.depends[k].name, Some(e.depends[k])) is None
}

proof fn lemma_dep_misses_count(
    comp: Seq<char>,
    entries: Seq<EntryView>,
    e: EntryView,
    n: int,
    x: MissingDependencyView,
)
    requires
        n <= e.depends.len(),
        forall|p: int, q: int| 0 <= p < q < e.depends.len() ==> e.depends[p] != e.depends[q],
    ensures
        count_md(dep_misses(comp, entries, e, n), x) == (if (exists|k: int|
            0 <= k < n && dep_fails(entries, e, k) && x == md_make(comp, e, k)) {
            1int
        } else {
            0
        }),
    decreases n,
{
    if n <= 0 {
        assert(count_md(dep_misses(comp, entries, e, n), x) == 0);
    } else {
        lemma_dep_misses_count(comp, entries, e, n - 1, x);
        let prev = dep_misses(comp, entries, e, n - 1);
        let delta: Seq<MissingDependencyView> = if dep_fails(entries, e, n - 1) {
            seq![md_make(comp, e, n - 1)]
        } else {
            Seq::empty()
        };
        assert(dep_misses(comp, entries, e, n) == prev + delta);
        lemma_count_md_concat(prev, delta, x);
        if delta.len() > 0 {
            assert(delta.drop_last() =~= Seq::<MissingDependencyView>::empty());
            assert(count_md(delta.drop_last(), x) == 0);
            assert(delta.last() == md_make(comp, e, n - 1));
            assert(count_md(delta, x) == (if x == md_make(comp, e, n - 1) {
                1int
            } else {
                0
            }));
        }
        if (exists|k: int| 0 <= k < n - 1 && dep_fails(entries, e, k) && x == md_make(comp, e, k))
            && dep_fails(entries, e, n - 1) && x == md_make(comp, e, n - 1) {
            // The same record cannot come from two different
            // dependency positions: the constraints are distinct.
            let k = choose|k: int|
                0 <= k < n - 1 && dep_fails(entries, e, k) && x == md_make(comp, e, k);
            assert(e.depends[k] == x.constraint);
            assert(e.depends[n - 1] == x.constraint);
            assert(false);
        }
        if (exists|k: int| 0 <= k < n && dep_fails(entries, e, k) && x == md_make(comp, e, k))
            && !(exists|k: int|
            0 <= k < n - 1 && dep_fails(entries, e, k) && x == md_make(comp, e, k)) {
            let k = choose|k: int|
                0 <= k < n && dep_fails(entries, e, k) && x == md_make(comp, e, k);
            assert(k == n - 1);
        }
    }
}

/// Whether the group of declared name `i` contains record `x`.
pub open spec fn missdep_group_has(
    comp: Seq<char>,
    idx: PackageIndexView,
    i: int,
    x: MissingDependencyView,
) -> bool {
    match best_match(idx.entries, idx.declared[i], None) {
        None => false,
        Some(j) => exists|k: int|
            0 <= k < idx.entries[j].depends.len() && dep_fails(idx.entries, idx.entries[j], k) && x
                == md_make(comp, idx.entries[j], k),
    }
}

proof fn lemma_missdeps_count(comp: Seq<char>, idx: PackageIndexView, n: int, x: MissingDependencyView)
    requires
        n <= idx.declared.len(),
        forall|p: int, q: int|
            0 <= p < q < idx.declared.len() ==> idx.declared[p] != idx.declared[q],
        forall|j: int, p: int, q: int|
            0 <= j < idx.entries.len() && 0 <= p < q < idx.entries[j].depends.len()
                ==> idx.entries[j].depends[p] != idx.entries[j].depends[q],
    ensures
        count_md(binary_decl_missdeps(comp, idx, n), x) == (if (exists|i: int|
            0 <= i < n && missdep_group_has(comp, idx, i, x)) {
            1int
        } else {
            0
        }),
    decreases n,
{
    if n <= 0 {
    } else {
        lemma_missdeps_count(comp, idx, n - 1, x);
        let prev = binary_decl_missdeps(comp, idx, n - 1);
        let delta: Seq<MissingDependencyView> = match best_match(
            idx.entries,
            idx.declared[n - 1],
            None,
        ) {
            None => Seq::empty(),
            Some(j) => dep_misses(comp, idx.entries, idx.entries[j], idx.entries[j].depends.len() as int),
        };
        assert(binary_decl_missdeps(comp, idx, n) == prev + delta);
        lemma_count_md_concat(prev, delta, x);
        match best_match(idx.entries, idx.declared[n - 1], None) {
            None => {
                assert(count_md(delta, x) == 0);
                assert(!missdep_group_has(comp, idx, n - 1, x));
            },
            Some(j) => {
                lemma_best_match_name(idx.entries, idx.declared[n - 1], None);
                lemma_dep_misses_count(
                    comp,
                    idx.entries,
                    idx.entries[j],
                    idx.entries[j].depends.len() as int,
                    x,
                );
                assert(count_md(delta, x) == (if missdep_group_has(comp, idx, n - 1, x) {
                    1int
                } else {
                    0
                }));
            },
        }
        if (exists|i: int| 0 <= i < n - 1 && missdep_group_has(comp, idx, i, x))
            && missdep_group_has(comp, idx, n - 1, x) {
            // One record cannot lie in two groups: its package names
            // the declared name of its group, and those are distinct.
            let i = choose|i: int| 0 <= i < n - 1 && missdep_group_has(comp, idx, i, x);
            lemma_best_match_name(idx.entries, idx.declared[i], None);
            lemma_best_match_name(idx.entries, idx.declared[n - 1], None);
            assert(x.package == idx.declared[i]);
            assert(x.package == idx.declared[n - 1]);
            assert(false);
        }
        if (exists|i: int| 0 <= i < n && missdep_group_has(comp, idx, i, x)) && !(exists|i: int|
            0 <= i < n - 1 && missdep_group_has(comp, idx, i, x)) {
            let i = choose|i: int| 0 <= i < n && missdep_group_has(comp, idx, i, x);
            assert(i == n - 1);
        }
    }
}

/// Within one built package index whose declared names are distinct
/// and whose records list each dependency constraint once, the
/// missing-dependency findings contain no duplicate record, and each
/// unresolved constraint of a resolved package yields exactly one
/// record.  (Listing one dependency twice would yield the record
/// twice, which is why the distinctness is required.)
pub proof fn lemma_missing_dependency_unique(comp: Seq<char>, idx: PackageIndexView)
    requires
        forall|p: int, q: int|
            0 <= p < q < idx.declared.len() ==> idx.declared[p] != idx.declared[q],
        forall|j: int, p: int, q: int|
            0 <= j < idx.entries.len() && 0 <= p < q < idx.entries[j].depends.len()
                ==> idx.entries[j].depends[p] != idx.entries[j].depends[q],
    ensures
        forall|x: MissingDependencyView|
            #[trigger] count_md(
                binary_decl_missdeps(comp, idx, idx.declared.len() as int),
                x,
            ) <= 1,
        forall|i: int, j: int, k: int|
            #![trigger best_match(idx.entries, idx.declared[i], None), dep_fails(idx.entries, idx.entries[j], k)]
            0 <= i < idx.declared.len() && best_match(idx.entries, idx.declared[i], None) == Some(
                j,
            ) && 0 <= k < idx.entries[j].depends.len() && dep_fails(idx.entries, idx.entries[j], k)
                ==> count_md(
                binary_decl_missdeps(comp, idx, idx.declared.len() as int),
                md_make(comp, idx.entries[j], k),
            ) == 1,
{
    assert forall|x: MissingDependencyView|
        #[trigger] count_md(binary_decl_missdeps(comp, idx, idx.declared.len() as int), x)
            <= 1 by {
        lemma_missdeps_count(comp, idx, idx.declared.len() as int, x);
    }
    assert forall|i: int, j: int, k: int|
        #![trigger best_match(idx.entries, idx.declared[i], None), dep_fails(idx.entries, idx.entries[j], k)]
        0 <= i < idx.declared.len() && best_match(idx.entries, idx.declared[i], None) == Some(j)
            && 0 <= k < idx.entries[j].depends.len() && dep_fails(
            idx.entries,
            idx.entries[j],
            k,
        ) implies count_md(
        binary_decl_missdeps(comp, idx, idx.declared.len() as int),
        md_make(comp, idx.entries[j], k),
    ) == 1 by {
        let x = md_make(comp, idx.entries[j], k);
        lemma_missdeps_count(comp, idx, idx.declared.len() as int, x);
        assert(missdep_group_has(comp, idx, i, x));
    }
}

proof fn lemma_decl_misssrcs_without_index(comp: Seq<char>, idx: PackageIndexView, n: int)
    ensures
        binary_decl_misssrcs(comp, idx, None, n) =~= Seq::<MissingSourceView>::empty(),
    decreases n,
{
    if n > 0 {
        lemma_decl_misssrcs_without_index(comp, idx, n - 1);
    }
}

/// How often `x` occurs in a sequence of missing-source records.
pub open spec fn count_ms(s: Seq<MissingSourceView>, x: MissingSourceView) -> int
    decreases s.len(),
{
    if s.len() == 0 {
        0
    } else {
        count_ms(s.drop_last(), x) + (if s.last() == x {
            1int
        } else {
            0
        })
    }
}

proof fn lemma_count_ms_concat(a: Seq<MissingSourceView>, b: Seq<MissingSourceView>, x: MissingSourceView)
    ensures
        count_ms(a + b, x) == count_ms(a, x) + count_ms(b, x),
    decreases b.len(),
{
    if b.len() == 0 {
        assert(a + b =~= a);
    } else {
        assert((a + b).drop_last() =~= a + b.drop_last());
        assert((a + b).last() == b.last());
        lemma_count_ms_concat(a, b.drop_last(), x);
    }
}

/// Whether entry `e` produces the missing-source record `x`.
pub open spec fn source_miss_has(
    comp: Seq<char>,
    e: EntryView,
    src: Option<SourceIndexView>,
    x: MissingSourceView,
) -> bool {
    match e.source {
        None => false,
        Some(s) => match src {
            None => false,
            Some(si) => crate::model::best_source_match(
                si.entries,
                s,
                Some(crate::model::Relation::Exact),
                Some(e.version),
            ) is None && x == (MissingSourceView { component: comp, package: e.name, source: s }),
        },
    }
}

proof fn lemma_source_miss_count(
    comp: Seq<char>,
    e: EntryView,
    src: Option<SourceIndexView>,
    x: MissingSourceView,
)
    ensures
        count_ms(source_miss(comp, e, src), x) == (if source_miss_has(comp, e, src, x) {
            1int
        } else {
            0
        }),
{
    let s = source_miss(comp, e, src);
    if s.len() > 0 {
        assert(s.drop_last() =~= Seq::<MissingSourceView>::empty());
        assert(count_ms(s.drop_last(), x) == 0);
    }
}

/// Whether the group of declared name `i` contains record `x`.
pub open spec fn misssrc_group_has(
    comp: Seq<char>,
    idx: PackageIndexView,
    src: Option<SourceIndexView>,
    i: int,
    x: MissingSourceView,
) -> bool {
    match best_match(idx.entries, idx.declared[i], None) {
        None => false,
        Some(j) => source_miss_has(comp, idx.entries[j], src, x),
    }
}

proof fn lemma_misssrcs_count(
    comp: Seq<char>,
    idx: PackageIndexView,
    src: Option<SourceIndexView>,
    n: int,
    x: MissingSourceView,
)
    requires
        n <= idx.declared.len(),
        forall|p: int, q: int|
            0 <= p < q < idx.declared.len() ==> idx.declared[p] != idx.declared[q],
    ensures
        count_ms(binary_decl_misssrcs(comp, idx, src, n), x) == (if (exists|i: int|
            0 <= i < n && misssrc_group_has(comp, idx, src, i, x)) {
            1int
        } else {
            0
        }),
    decreases n,
{
    if n <= 0 {
    } else {
        lemma_misssrcs_count(comp, idx, src, n - 1, x);
        let prev = binary_decl_misssrcs(comp, idx, src, n - 1);
        let delta: Seq<MissingSourceView> = match best_match(
            idx.entries,
            idx.declared[n - 1],
            None,
        ) {
            None => Seq::empty(),
            Some(j) => source_miss(comp, idx.entries[j], src),
        };
        assert(binary_decl_misssrcs(comp, idx, src, n) == prev + delta);
        lemma_count_ms_concat(prev, delta, x);
        match best_match(idx.entries, idx.declared[n - 1], None) {
            None => {
                assert(count_ms(delta, x) == 0);
            },
            Some(j) => {
                lemma_best_match_name(idx.entries, idx.declared[n - 1], None);
                lemma_source_miss_count(comp, idx.entries[j], src, x);
                assert(count_ms(delta, x) == (if misssrc_group_has(comp, idx, src, n - 1, x) {
                    1int
                } else {
                    0
                }));
            },
        }
        if (exists|i: int| 0 <= i < n - 1 && misssrc_group_has(comp, idx, src, i, x))
            && misssrc_group_has(comp, idx, src, n - 1, x) {
            let i = choose|i: int| 0 <= i < n - 1 && misssrc_group_has(comp, idx, src, i, x);
            lemma_best_match_name(idx.entries, idx.declared[i], None);
            lemma_best_match_name(idx.entries, idx.declared[n - 1], None);
            assert(x.package == idx.declared[i]);
            assert(x.package == idx.declared[n - 1]);
            assert(false);
        }
        if (exists|i: int| 0 <= i < n && misssrc_group_has(comp, idx, src, i, x)) && !(exists|i: int|
            0 <= i < n - 1 && misssrc_group_has(comp, idx, src, i, x)) {
            let i = choose|i: int| 0 <= i < n && misssrc_group_has(comp, idx, src, i, x);
            assert(i == n - 1);
        }
    }
}

/// Within one built package index whose declared names are distinct,
/// the missing-source findings contain no duplicate record, and a
/// resolved package whose declared source does not resolve in the
/// component's source index at exactly the package's version yields
/// exactly one record.
pub proof fn lemma_missing_source_unique(
    comp: Seq<char>,
    idx: PackageIndexView,
    src: Option<SourceIndexView>,
)
    requires
        forall|p: int, q: int|
            0 <= p < q < idx.declared.len() ==> idx.declared[p] != idx.declared[q],
    ensures
        forall|x: MissingSourceView|
            #[trigger] count_ms(
                binary_decl_misssrcs(comp, idx, src, idx.declared.len() as int),
                x,
            ) <= 1,
        forall|i: int, j: int, x: MissingSourceView|
            #![trigger best_match(idx.entries, idx.declared[i], None), source_miss_has(comp, idx.entries[j], src, x)]
            0 <= i < idx.declared.len() && best_match(idx.entries, idx.declared[i], None) == Some(
                j,
            ) && source_miss_has(comp, idx.entries[j], src, x) ==> count_ms(
                binary_decl_misssrcs(comp, idx, src, idx.declared.len() as int),
                x,
            ) == 1,
{
    assert forall|x: MissingSourceView|
        #[trigger] count_ms(binary_decl_misssrcs(comp, idx, src, idx.declared.len() as int), x)
            <= 1 by {
        lemma_misssrcs_count(comp, idx, src, idx.declared.len() as int, x);
    }
    assert forall|i: int, j: int, x: MissingSourceView|
        #![trigger best_match(idx.entries, idx.declared[i], None), source_miss_has(comp, idx.entries[j], src, x)]
        0 <= i < idx.declared.len() && best_match(idx.entries, idx.declared[i], None) == Some(j)
            && source_miss_has(comp, idx.entries[j], src, x) implies count_ms(
        binary_decl_misssrcs(comp, idx, src, idx.declared.len() as int),
        x,
    ) == 1 by {
        lemma_misssrcs_count(comp, idx, src, idx.declared.len() as int, x);
        assert(misssrc_group_has(comp, idx, src, i, x));
    }
}

/// When a component's source index was never built, its binary units
/// produce no missing-source findings at all: the source check is
/// skipped, not failed.
pub proof fn lemma_no_index_no_missing_sources(comp: Seq<char>, out: BinaryOutcomeView)
    ensures
        binary_unit_misssrcs(comp, out, None) =~= Seq::<MissingSourceView>::empty(),
{
    match out {
        BinaryOutcomeView::Built(idx, probes) => {
            lemma_decl_misssrcs_without_index(comp, idx, idx.declared.len() as int);
        },
        BinaryOutcomeView::Failed(d) => {},
    }
}

/// The same, over a whole component's binary phase: with no retained
/// source index, the component contributes no missing-source finding
/// under any selection of architectures.
pub proof fn lemma_no_index_no_missing_sources_component(
    comp: Seq<char>,
    archs: Seq<ArchView>,
    outs: Seq<BinaryOutcomeView>,
    m: int,
)
    ensures
        phase2_comp_misssrcs(comp, archs, outs, None, m) =~= Seq::<MissingSourceView>::empty(),
    decreases m,
{
    if m > 0 {
        lemma_no_index_no_missing_sources_component(comp, archs, outs, m - 1);
        if archs[m - 1] != ArchView::Source {
            lemma_no_index_no_missing_sources(comp, outs[m - 1]);
        }
    }
}

/// The whole report is a function of the repository snapshot alone:
/// two runs of the checker over equal components, architectures,
/// artifact-check setting and fetch/probe outcomes reach, by the
/// contract of `check_repo`, finding collections that are equal — not
/// merely as sets but element for element.
pub proof fn lemma_check_repo_deterministic(
    comps: Seq<Seq<char>>,
    archs: Seq<ArchView>,
    check_files: bool,
    sources: Seq<SourceOutcomeView>,
    binaries: Seq<Seq<BinaryOutcomeView>>,
    issues_a: Seq<IssueView>,
    issues_b: Seq<IssueView>,
    missdeps_a: Seq<MissingDependencyView>,
    missdeps_b: Seq<MissingDependencyView>,
    misssrcs_a: Seq<MissingSourceView>,
    misssrcs_b: Seq<MissingSourceView>,
)
    requires
        issues_a == phase1_issues(comps, sources, check_files, comps.len() as int)
            + phase2_issues(comps, archs, binaries, check_files, comps.len() as int),
        issues_b == phase1_issues(comps, sources, check_files, comps.len() as int)
            + phase2_issues(comps, archs, binaries, check_files, comps.len() as int),
        missdeps_a == phase2_missdeps(comps, archs, binaries, comps.len() as int),
        missdeps_b == phase2_missdeps(comps, archs, binaries, comps.len() as int),
        misssrcs_a == phase2_misssrcs(comps, archs, binaries, phase1_slots(sources), comps.len() as int),
        misssrcs_b == phase2_misssrcs(comps, archs, binaries, phase1_slots(sources), comps.len() as int),
    ensures
        issues_a == issues_b,
        missdeps_a == missdeps_b,
        misssrcs_a == misssrcs_b,
{
}

} // verus!
