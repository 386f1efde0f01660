//! The consistency checker: per-component source checks,
//! per-component/architecture binary checks, and the aggregation of
//! findings into a report.
//!
//! Fetching indices and probing artifact URLs are outside
//! collaborators: the caller fetches and probes, and hands the checker
//! the outcomes; every decision made on them is verified here.

use vstd::prelude::*;

use crate::arch::{ArchView, Architecture};
use crate::model::{
    best_match, best_source_match, ConstraintView, EntryView, PackageIndex, PackageIndexView,
    Relation, SourceIndex, SourceIndexView, VersionConstraint,
};

verus! {

/// What a hard finding reports.
#[derive(Debug)]
pub enum IssueKind {
    /// An index or the release metadata could not be fetched or parsed.
    FetchFailure { detail: String },
    /// An index declares a name it cannot itself resolve.
    MissingEntry { name: String },
    /// A referenced artifact URL is unreachable.
    BrokenLink { url: String },
}

pub enum IssueKindView {
    FetchFailure { detail: Seq<char> },
    MissingEntry { name: Seq<char> },
    BrokenLink { url: Seq<char> },
}

impl View for IssueKind {
    type V = IssueKindView;

    open spec fn view(&self) -> IssueKindView {
        match self {
            IssueKind::FetchFailure { detail } => (IssueKindView::FetchFailure {
                detail: detail@,
            }),
            IssueKind::MissingEntry { name } => (IssueKindView::MissingEntry { name: name@ }),
            IssueKind::BrokenLink { url } => (IssueKindView::BrokenLink { url: url@ }),
        }
    }
}

impl DeepView for IssueKind {
    type V = IssueKindView;

    open spec fn deep_view(&self) -> IssueKindView {
        self.view()
    }
}

/// A hard finding, tied to a component and an architecture.
#[derive(Debug)]
pub struct Issue {
    pub component: String,
    pub architecture: Architecture,
    pub kind: IssueKind,
}

pub struct IssueView {
    pub component: Seq<char>,
    pub architecture: ArchView,
    pub kind: IssueKindView,
}

impl View for Issue {
    type V = IssueView;

    open spec fn view(&self) -> IssueView {
        IssueView { component: self.component@, architecture: self.architecture@, kind: self.kind@ }
    }
}

impl DeepView for Issue {
    type V = IssueView;

    open spec fn deep_view(&self) -> IssueView {
        self.view()
    }
}

/// A soft finding: a dependency of a package that its own index cannot
/// satisfy.
#[derive(Debug)]
pub struct MissingDependency {
    pub component: String,
    pub package: String,
    pub constraint: VersionConstraint,
}

pub struct MissingDependencyView {
    pub component: Seq<char>,
    pub package: Seq<char>,
    pub constraint: ConstraintView,
}

impl View for MissingDependency {
    type V = MissingDependencyView;

    open spec fn view(&self) -> MissingDependencyView {
        MissingDependencyView {
            component: self.component@,
            package: self.package@,
            constraint: self.constraint@,
        }
    }
}

impl DeepView for MissingDependency {
    type V = MissingDependencyView;

    open spec fn deep_view(&self) -> MissingDependencyView {
        self.view()
    }
}

/// A soft finding: a binary package whose declared source is not in
/// the component's source index at the matching version.
#[derive(Debug)]
pub struct MissingSource {
    pub component: String,
    pub package: String,
    pub source: String,
}

pub struct MissingSourceView {
    pub component: Seq<char>,
    pub package: Seq<char>,
    pub source: Seq<char>,
}

impl View for MissingSource {
    type V = MissingSourceView;

    open spec fn view(&self) -> MissingSourceView {
        MissingSourceView {
            component: self.component@,
            package: self.package@,
            source: self.source@,
        }
    }
}

impl DeepView for MissingSource {
    type V = MissingSourceView;

    open spec fn deep_view(&self) -> MissingSourceView {
        self.view()
    }
}

/// The reported outcome of probing one artifact URL.
#[derive(Debug)]
pub struct ProbeOutcome {
    pub url: String,
    pub ok: bool,
}

pub struct ProbeView {
    pub url: Seq<char>,
    pub ok: bool,
}

impl View for ProbeOutcome {
    type V = ProbeView;

    open spec fn view(&self) -> ProbeView {
        ProbeView { url: self.url@, ok: self.ok }
    }
}

impl DeepView for ProbeOutcome {
    type V = ProbeView;

    open spec fn deep_view(&self) -> ProbeView {
        self.view()
    }
}

/// The outcome of building one component's source index: the parsed
/// index with the probe results for its artifact URLs, or the failure
/// text.
pub enum SourceOutcome {
    Built(SourceIndex, Vec<ProbeOutcome>),
    Failed(String),
}

pub enum SourceOutcomeView {
    Built(SourceIndexView, Seq<ProbeView>),
    Failed(Seq<char>),
}

impl View for SourceOutcome {
    type V = SourceOutcomeView;

    open spec fn view(&self) -> SourceOutcomeView {
        match self {
            SourceOutcome::Built(idx, probes) => SourceOutcomeView::Built(idx@, probes.deep_view()),
            SourceOutcome::Failed(d) => SourceOutcomeView::Failed(d@),
        }
    }
}

impl DeepView for SourceOutcome {
    type V = SourceOutcomeView;

    open spec fn deep_view(&self) -> SourceOutcomeView {
        self.view()
    }
}

/// The outcome of building one component/architecture package index.
pub enum BinaryOutcome {
    Built(PackageIndex, Vec<ProbeOutcome>),
    Failed(String),
}

pub enum BinaryOutcomeView {
    Built(PackageIndexView, Seq<ProbeView>),
    Failed(Seq<char>),
}

impl View for BinaryOutcome {
    type V = BinaryOutcomeView;

    open spec fn view(&self) -> BinaryOutcomeView {
        match self {
            BinaryOutcome::Built(idx, probes) => BinaryOutcomeView::Built(idx@, probes.deep_view()),
            BinaryOutcome::Failed(d) => BinaryOutcomeView::Failed(d@),
        }
    }
}

impl DeepView for BinaryOutcome {
    type V = BinaryOutcomeView;

    open spec fn deep_view(&self) -> BinaryOutcomeView {
        self.view()
    }
}

/// Whether the probe results report `url` as broken.  A URL that was
/// never probed counts as reachable: probing is best effort.
pub open spec fn probe_broken(probes: Seq<ProbeView>, url: Seq<char>) -> bool {
    exists|k: int| 0 <= k < probes.len() && probes[k].url == url && !probes[k].ok
}

fn probe_broken_exec(probes: &Vec<ProbeOutcome>, url: &String) -> (r: bool)
    ensures
        r == probe_broken(probes.deep_view(), url@),
{
    let n = probes.len();
    let mut i: usize = 0;
    while i < n
        invariant
            i <= n == probes@.len(),
            forall|k: int|
                0 <= k < i ==> !(probes.deep_view()[k].url == url@ && !probes.deep_view()[k].ok),
        decreases n - i,
    {
        let p = &probes[i];
        if !p.ok && crate::arch::str_eq(p.url.as_str(), url.as_str()) {
            proof {
                assert(probes.deep_view()[i as int].url == url@ && !probes.deep_view()[
                    i as int
                ].ok);
            }
            return true;
        }
        proof {
            assert(probes.deep_view()[i as int] == probes@[i as int].deep_view());
        }
        i = i + 1;
    }
    false
}

/// Broken-link issues for the first `n` artifact links of one source
/// record, in order.
pub open spec fn source_link_issues(
    comp: Seq<char>,
    links: Seq<crate::model::SourceLinkView>,
    probes: Seq<ProbeView>,
    n: int,
) -> Seq<IssueView>
    decreases n,
{
    if n <= 0 {
        Seq::empty()
    } else {
        source_link_issues(comp, links, probes, n - 1) + (if probe_broken(
            probes,
            links[n - 1].url,
        ) {
            seq![
                (IssueView {
                    component: comp,
                    architecture: ArchView::Source,
                    kind: (IssueKindView::BrokenLink { url: links[n - 1].url }),
                }),
            ]
        } else {
            Seq::empty()
        })
    }
}

/// Issues for the first `n` declared names of a built source index:
/// a declared name the index cannot resolve, and, when artifact
/// checking is on, every broken link of each resolved record.
pub open spec fn source_decl_issues(
    comp: Seq<char>,
    idx: SourceIndexView,
    check_files: bool,
    probes: Seq<ProbeView>,
    n: int,
) -> Seq<IssueView>
    decreases n,
{
    if n <= 0 {
        Seq::empty()
    } else {
        source_decl_issues(comp, idx, check_files, probes, n - 1) + (match best_source_match(
            idx.entries,
            idx.declared[n - 1],
            None,
            None,
        ) {
            None => seq![
                (IssueView {
                    component: comp,
                    architecture: ArchView::Source,
                    kind: (IssueKindView::MissingEntry { name: idx.declared[n - 1] }),
                }),
            ],
            Some(j) => if check_files {
                source_link_issues(comp, idx.entries[j].links, probes, idx.entries[j].links.len() as int)
            } else {
                Seq::empty()
            },
        })
    }
}

/// All issues of one source unit: a fetch failure, or the issues of
/// the built index.
pub open spec fn source_unit_issues(
    comp: Seq<char>,
    out: SourceOutcomeView,
    check_files: bool,
) -> Seq<IssueView> {
    match out {
        SourceOutcomeView::Failed(detail) => seq![
            (IssueView {
                component: comp,
                architecture: ArchView::Source,
                kind: (IssueKindView::FetchFailure { detail: detail }),
            }),
        ],
        SourceOutcomeView::Built(idx, probes) => source_decl_issues(
            comp,
            idx,
            check_files,
            probes,
            idx.declared.len() as int,
        ),
    }
}

/// The source-index slot a source unit leaves behind.
pub open spec fn source_unit_slot(out: SourceOutcomeView) -> Option<SourceIndexView> {
    match out {
        SourceOutcomeView::Built(idx, probes) => Some(idx),
        SourceOutcomeView::Failed(detail) => None,
    }
}

/// Missing-dependency findings for the first `n` dependencies of one
/// resolved package record, resolved against its own index.
pub open spec fn dep_misses(
    comp: Seq<char>,
    entries: Seq<EntryView>,
    e: EntryView,
    n: int,
) -> Seq<MissingDependencyView>
    decreases n,
{
    if n <= 0 {
        Seq::empty()
    } else {
        dep_misses(comp, entries, e, n - 1) + (if best_match(
            entries,
            e.depends[n - 1].name,
            Some(e.depends[n - 1]),
        ) is None {
            seq![
                (MissingDependencyView {
                    component: comp,
                    package: e.name,
                    constraint: e.depends[n - 1],
                }),
            ]
        } else {
            Seq::empty()
        })
    }
}

/// Missing-source finding of one resolved package record: recorded
/// only when the record declares a source, the component has a source
/// index, and that index has no record of that name at exactly the
/// package's version.  Without a source index the check is skipped and
/// nothing is recorded.
pub open spec fn source_miss(
    comp: Seq<char>,
    e: EntryView,
    src: Option<SourceIndexView>,
) -> Seq<MissingSourceView> {
    match e.source {
        None => Seq::empty(),
        Some(s) => match src {
            None => Seq::empty(),
            Some(si) => if best_source_match(
                si.entries,
                s,
                Some(Relation::Exact),
                Some(e.version),
            ) is None {
                seq![(MissingSourceView { component: comp, package: e.name, source: s })]
            } else {
                Seq::empty()
            },
        },
    }
}

/// Issues for the first `n` declared names of a built package index:
/// a declared name the index cannot resolve (under the unit's
/// architecture), and, when artifact checking is on, a broken artifact
/// link of each resolved record — the latter tagged with the `Source`
/// sentinel whatever the unit's architecture.
pub open spec fn binary_decl_issues(
    comp: Seq<char>,
    arch: ArchView,
    idx: PackageIndexView,
    check_files: bool,
    probes: Seq<ProbeView>,
    n: int,
) -> Seq<IssueView>
    decreases n,
{
    if n <= 0 {
        Seq::empty()
    } else {
        binary_decl_issues(comp, arch, idx, check_files, probes, n - 1) + (match best_match(
            idx.entries,
            idx.declared[n - 1],
            None,
        ) {
            None => seq![
                (IssueView {
                    component: comp,
                    architecture: arch,
                    kind: (IssueKindView::MissingEntry { name: idx.declared[n - 1] }),
                }),
            ],
            Some(j) => if check_files && probe_broken(probes, idx.entries[j].link) {
                seq![
                    (IssueView {
                        component: comp,
                        architecture: ArchView::Source,
                        kind: (IssueKindView::BrokenLink { url: idx.entries[j].link }),
                    }),
                ]
            } else {
                Seq::empty()
            },
        })
    }
}

/// Missing-dependency findings for the first `n` declared names.
pub open spec fn binary_decl_missdeps(
    comp: Seq<char>,
    idx: PackageIndexView,
    n: int,
) -> Seq<MissingDependencyView>
    decreases n,
{
    if n <= 0 {
        Seq::empty()
    } else {
        binary_decl_missdeps(comp, idx, n - 1) + (match best_match(
            idx.entries,
            idx.declared[n - 1],
            None,
        ) {
            None => Seq::empty(),
            Some(j) => dep_misses(comp, idx.entries, idx.entries[j], idx.entries[j].depends.len() as int),
        })
    }
}

/// Missing-source findings for the first `n` declared names.
pub open spec fn binary_decl_misssrcs(
    comp: Seq<char>,
    idx: PackageIndexView,
    src: Option<SourceIndexView>,
    n: int,
) -> Seq<MissingSourceView>
    decreases n,
{
    if n <= 0 {
        Seq::empty()
    } else {
        binary_decl_misssrcs(comp, idx, src, n - 1) + (match best_match(
            idx.entries,
            idx.declared[n - 1],
            None,
        ) {
            None => Seq::empty(),
            Some(j) => source_miss(comp, idx.entries[j], src),
        })
    }
}

/// All issues of one binary unit.
pub open spec fn binary_unit_issues(
    comp: Seq<char>,
    arch: ArchView,
    out: BinaryOutcomeView,
    check_files: bool,
) -> Seq<IssueView> {
    match out {
        BinaryOutcomeView::Failed(detail) => seq![
            (IssueView {
                component: comp,
                architecture: arch,
                kind: (IssueKindView::FetchFailure { detail: detail }),
            }),
        ],
        BinaryOutcomeView::Built(idx, probes) => binary_decl_issues(
            comp,
            arch,
            idx,
            check_files,
            probes,
            idx.declared.len() as int,
        ),
    }
}

/// All missing-dependency findings of one binary unit.
pub open spec fn binary_unit_missdeps(comp: Seq<char>, out: BinaryOutcomeView) -> Seq<
    MissingDependencyView,
> {
    match out {
        BinaryOutcomeView::Failed(detail) => Seq::empty(),
        BinaryOutcomeView::Built(idx, probes) => binary_decl_missdeps(
            comp,
            idx,
            idx.declared.len() as int,
        ),
    }
}

/// All missing-source findings of one binary unit.
pub open spec fn binary_unit_misssrcs(
    comp: Seq<char>,
    out: BinaryOutcomeView,
    src: Option<SourceIndexView>,
) -> Seq<MissingSourceView> {
    match out {
        BinaryOutcomeView::Failed(detail) => Seq::empty(),
        BinaryOutcomeView::Built(idx, probes) => binary_decl_misssrcs(
            comp,
            idx,
            src,
            idx.declared.len() as int,
        ),
    }
}

/// A copy of a constraint record.
fn dup_constraint(c: &VersionConstraint) -> (r: VersionConstraint)
    ensures
        r@ == c@,
{
    VersionConstraint {
        name: c.name.clone(),
        architecture: match &c.architecture {
            Some(a) => Some(a.duplicate()),
            None => None,
        },
        relation: c.relation,
        version: match &c.version {
            Some(v) => Some(v.clone()),
            None => None,
        },
    }
}

/// The issues of one successfully built source index, as
/// `source_decl_issues` over the whole index.
fn built_source_issues(
    comp: &String,
    idx: &SourceIndex,
    check_files: bool,
    probes: &Vec<ProbeOutcome>,
) -> (r: Vec<Issue>)
    ensures
        r.deep_view() == source_decl_issues(
            comp@,
            idx@,
            check_files,
            probes.deep_view(),
            idx@.declared.len() as int,
        ),
{
    let mut out: Vec<Issue> = Vec::new();
    let nd = idx.declared.len();
    let mut d: usize = 0;
    while d < nd
        invariant
            d <= nd == idx@.declared.len(),
            out.deep_view() == source_decl_issues(
                comp@,
                idx@,
                check_files,
                probes.deep_view(),
                d as int,
            ),
        decreases nd - d,
    {
        let ghost pre = out.deep_view();
        let name = &idx.declared[d];
        proof {
            assert(name@ == idx@.declared[d as int]);
        }
        match idx.get(name, None, None) {
            None => {
                out.push(
                    Issue {
                        component: comp.clone(),
                        architecture: Architecture::Source,
                        kind: IssueKind::MissingEntry { name: name.clone() },
                    },
                );
                proof {
                    assert(out.deep_view() =~= pre + seq![
                        (IssueView {
                            component: comp@,
                            architecture: ArchView::Source,
                            kind: (IssueKindView::MissingEntry { name: idx@.declared[d as int] }),
                        }),
                    ]);
                }
            },
            Some(j) => {
                proof {
                    crate::model::lemma_best_source_match_range(
                        idx@.entries,
                        name@,
                        None,
                        None,
                    );
                }
                if check_files {
                    let e = &idx.entries[j];
                    let nl = e.links.len();
                    let mut k: usize = 0;
                    while k < nl
                        invariant
                            k <= nl,
                            j < idx@.entries.len(),
                            nl == idx@.entries[j as int].links.len(),
                            e == idx.entries@[j as int],
                            e.links@.len() == nl,
                            e.deep_view() == idx@.entries[j as int],
                            out.deep_view() == pre + source_link_issues(
                                comp@,
                                idx@.entries[j as int].links,
                                probes.deep_view(),
                                k as int,
                            ),
                        decreases nl - k,
                    {
                        let ghost pre2 = out.deep_view();
                        proof {
                            assert(e.links@[k as int].deep_view() == idx@.entries[
                                j as int
                            ].links[k as int]);
                        }
                        if probe_broken_exec(probes, &e.links[k].url) {
                            out.push(
                                Issue {
                                    component: comp.clone(),
                                    architecture: Architecture::Source,
                                    kind: IssueKind::BrokenLink { url: e.links[k].url.clone() },
                                },
                            );
                            proof {
                                assert(out.deep_view() =~= pre2 + seq![
                                    (IssueView {
                                        component: comp@,
                                        architecture: ArchView::Source,
                                        kind: (IssueKindView::BrokenLink {
                                            url: idx@.entries[j as int].links[k as int].url,
                                        }),
                                    }),
                                ]);
                            }
                        } else {
                            proof {
                                assert(out.deep_view() =~= pre2);
                            }
                        }
                        k = k + 1;
                    }
                } else {
                    proof {
                        assert(out.deep_view() =~= pre);
                    }
                }
            },
        }
        d = d + 1;
        proof {
            assert(out.deep_view() == source_decl_issues(
                comp@,
                idx@,
                check_files,
                probes.deep_view(),
                d as int,
            ));
        }
    }
    out
}

/// The findings of one successfully built package index: its issues,
/// missing dependencies and missing sources, as the `binary_decl_*`
/// functions over the whole index.
#[verifier::rlimit(100)]
fn built_binary_findings(
    comp: &String,
    arch: &Architecture,
    idx: &PackageIndex,
    src: Option<&SourceIndex>,
    check_files: bool,
    probes: &Vec<ProbeOutcome>,
) -> (r: (Vec<Issue>, Vec<MissingDependency>, Vec<MissingSource>))
    ensures
        r.0.deep_view() == binary_decl_issues(
            comp@,
            arch@,
            idx@,
            check_files,
            probes.deep_view(),
            idx@.declared.len() as int,
        ),
        r.1.deep_view() == binary_decl_missdeps(comp@, idx@, idx@.declared.len() as int),
        r.2.deep_view() == binary_decl_misssrcs(
            comp@,
            idx@,
            (match src {
                Some(s) => Some(s@),
                None => None,
            }),
            idx@.declared.len() as int,
        ),
{
    let ghost srcv: Option<SourceIndexView> = match src {
        Some(s) => Some(s@),
        None => None,
    };
    let mut issues: Vec<Issue> = Vec::new();
    let mut missdeps: Vec<MissingDependency> = Vec::new();
    let mut misssrcs: Vec<MissingSource> = Vec::new();
    let nd = idx.declared.len();
    let mut d: usize = 0;
    while d < nd
        invariant
            d <= nd == idx@.declared.len(),
            srcv == (match src {
                Some(s) => Some(s@),
                None => None,
            }),
            issues.deep_view() == binary_decl_issues(
                comp@,
                arch@,
                idx@,
                check_files,
                probes.deep_view(),
                d as int,
            ),
            missdeps.deep_view() == binary_decl_missdeps(comp@, idx@, d as int),
            misssrcs.deep_view() == binary_decl_misssrcs(comp@, idx@, srcv, d as int),
        decreases nd - d,
    {
        let ghost pre_i = issues.deep_view();
        let ghost pre_d = missdeps.deep_view();
        let ghost pre_s = misssrcs.deep_view();
        let name = &idx.declared[d];
        proof {
            assert(name@ == idx@.declared[d as int]);
        }
        match idx.get(name, None) {
            None => {
                issues.push(
                    Issue {
                        component: comp.clone(),
                        architecture: arch.duplicate(),
                        kind: IssueKind::MissingEntry { name: name.clone() },
                    },
                );
                proof {
                    assert(issues.deep_view() =~= pre_i + seq![
                        (IssueView {
                            component: comp@,
                            architecture: arch@,
                            kind: (IssueKindView::MissingEntry { name: idx@.declared[d as int] }),
                        }),
                    ]);
                    assert(missdeps.deep_view() =~= pre_d);
                    assert(misssrcs.deep_view() =~= pre_s);
                }
            },
            Some(j) => {
                proof {
                    crate::model::lemma_best_match_range(idx@.entries, name@, None);
                }
                let e = &idx.entries[j];
                proof {
                    assert(e.deep_view() == idx@.entries[j as int]);
                }
                // Artifact probe: failures are tagged with the
                // `Source` sentinel whatever this unit's architecture.
                if check_files && probe_broken_exec(probes, &e.link) {
                    issues.push(
                        Issue {
                            component: comp.clone(),
                            architecture: Architecture::Source,
                            kind: IssueKind::BrokenLink { url: e.link.clone() },
                        },
                    );
                    proof {
                        assert(issues.deep_view() =~= pre_i + seq![
                            (IssueView {
                                component: comp@,
                                architecture: ArchView::Source,
                                kind: (IssueKindView::BrokenLink {
                                    url: idx@.entries[j as int].link,
                                }),
                            }),
                        ]);
                    }
                } else {
                    proof {
                        assert(issues.deep_view() =~= pre_i);
                    }
                }
                // Dependencies, resolved against this same index.
                let ndeps = e.depends.len();
                let mut k: usize = 0;
                while k < ndeps
                    invariant
                        k <= ndeps,
                        j < idx@.entries.len(),
                        e == idx.entries@[j as int],
                        e.deep_view() == idx@.entries[j as int],
                        ndeps == idx@.entries[j as int].depends.len(),
                        e.depends@.len() == ndeps,
                        missdeps.deep_view() == pre_d + dep_misses(
                            comp@,
                            idx@.entries,
                            idx@.entries[j as int],
                            k as int,
                        ),
                    decreases ndeps - k,
                {
                    let ghost pre2 = missdeps.deep_view();
                    let dep = &e.depends[k];
                    proof {
                        assert(dep.deep_view() == idx@.entries[j as int].depends[k as int]);
                    }
                    match idx.get(&dep.name, Some(dep)) {
                        None => {
                            missdeps.push(
                                MissingDependency {
                                    component: comp.clone(),
                                    package: e.name.clone(),
                                    constraint: dup_constraint(dep),
                                },
                            );
                            proof {
                                assert(missdeps.deep_view() =~= pre2 + seq![
                                    (MissingDependencyView {
                                        component: comp@,
                                        package: idx@.entries[j as int].name,
                                        constraint: idx@.entries[j as int].depends[k as int],
                                    }),
                                ]);
                            }
                        },
                        Some(_) => {
                            proof {
                                assert(missdeps.deep_view() =~= pre2);
                            }
                        },
                    }
                    k = k + 1;
                }
                // Declared source, resolved in the component's source
                // index at exactly this package's version; skipped
                // without a finding when there is no source index or
                // no declared source.
                match &e.source {
                    None => {
                        proof {
                            assert(misssrcs.deep_view() =~= pre_s);
                        }
                    },
                    Some(s) => {
                        match src {
                            None => {
                                proof {
                                    assert(misssrcs.deep_view() =~= pre_s);
                                }
                            },
                            Some(si) => {
                                match si.get(s, Some(Relation::Exact), Some(&e.version)) {
                                    None => {
                                        misssrcs.push(
                                            MissingSource {
                                                component: comp.clone(),
                                                package: e.name.clone(),
                                                source: s.clone(),
                                            },
                                        );
                                        proof {
                                            assert(misssrcs.deep_view() =~= pre_s + seq![
                                                (MissingSourceView {
                                                    component: comp@,
                                                    package: idx@.entries[j as int].name,
                                                    source: idx@.entries[j as int].source->0,
                                                }),
                                            ]);
                                        }
                                    },
                                    Some(_) => {
                                        proof {
                                            assert(misssrcs.deep_view() =~= pre_s);
                                        }
                                    },
                                }
                            },
                        }
                    },
                }
            },
        }
        d = d + 1;
        proof {
            assert(issues.deep_view() == binary_decl_issues(
                comp@,
                arch@,
                idx@,
                check_files,
                probes.deep_view(),
                d as int,
            ));
            assert(missdeps.deep_view() == binary_decl_missdeps(comp@, idx@, d as int));
            assert(misssrcs.deep_view() == binary_decl_misssrcs(comp@, idx@, srcv, d as int));
        }
    }
    (issues, missdeps, misssrcs)
}

/// The trusted release metadata the checker starts from: the
/// repository's components and architectures, and the compliance
/// verdict the metadata provider reached.  The verdict is
/// informational only: it never affects the findings.
#[derive(Debug)]
pub struct Release {
    pub components: Vec<String>,
    pub architectures: Vec<Architecture>,
    pub compliant: bool,
}

/// Issues of the source phase: one unit per component, in order.
pub open spec fn phase1_issues(
    comps: Seq<Seq<char>>,
    outs: Seq<SourceOutcomeView>,
    check_files: bool,
    n: int,
) -> Seq<IssueView>
    decreases n,
{
    if n <= 0 {
        Seq::empty()
    } else {
        phase1_issues(comps, outs, check_files, n - 1) + source_unit_issues(
            comps[n - 1],
            outs[n - 1],
            check_files,
        )
    }
}

/// The source-index slots the source phase leaves behind.
pub open spec fn phase1_slots(outs: Seq<SourceOutcomeView>) -> Seq<Option<SourceIndexView>> {
    Seq::new(outs.len(), |i: int| source_unit_slot(outs[i]))
}

/// Issues of the binary phase for one component: one unit per
/// requested architecture, the `Source` sentinel skipped.
pub open spec fn phase2_comp_issues(
    comp: Seq<char>,
    archs: Seq<ArchView>,
    outs: Seq<BinaryOutcomeView>,
    check_files: bool,
    m: int,
) -> Seq<IssueView>
    decreases m,
{
    if m <= 0 {
        Seq::empty()
    } else {
        phase2_comp_issues(comp, archs, outs, check_files, m - 1) + (if archs[m - 1]
            == ArchView::Source {
            Seq::empty()
        } else {
            binary_unit_issues(comp, archs[m - 1], outs[m - 1], check_files)
        })
    }
}

pub open spec fn phase2_comp_missdeps(
    comp: Seq<char>,
    archs: Seq<ArchView>,
    outs: Seq<BinaryOutcomeView>,
    m: int,
) -> Seq<MissingDependencyView>
    decreases m,
{
    if m <= 0 {
        Seq::empty()
    } else {
        phase2_comp_missdeps(comp, archs, outs, m - 1) + (if archs[m - 1] == ArchView::Source {
            Seq::empty()
        } else {
            binary_unit_missdeps(comp, outs[m - 1])
        })
    }
}

pub open spec fn phase2_comp_misssrcs(
    comp: Seq<char>,
    archs: Seq<ArchView>,
    outs: Seq<BinaryOutcomeView>,
    slot: Option<SourceIndexView>,
    m: int,
) -> Seq<MissingSourceView>
    decreases m,
{
    if m <= 0 {
        Seq::empty()
    } else {
        phase2_comp_misssrcs(comp, archs, outs, slot, m - 1) + (if archs[m - 1]
            == ArchView::Source {
            Seq::empty()
        } else {
            binary_unit_misssrcs(comp, outs[m - 1], slot)
        })
    }
}

/// Issues of the whole binary phase: the components in order, each
/// against all requested architectures.
pub open spec fn phase2_issues(
    comps: Seq<Seq<char>>,
    archs: Seq<ArchView>,
    outs: Seq<Seq<BinaryOutcomeView>>,
    check_files: bool,
    n: int,
) -> Seq<IssueView>
    decreases n,
{
    if n <= 0 {
        Seq::empty()
    } else {
        phase2_issues(comps, archs, outs, check_files, n - 1) + phase2_comp_issues(
            comps[n - 1],
            archs,
            outs[n - 1],
            check_files,
            archs.len() as int,
        )
    }
}

pub open spec fn phase2_missdeps(
    comps: Seq<Seq<char>>,
    archs: Seq<ArchView>,
    outs: Seq<Seq<BinaryOutcomeView>>,
    n: int,
) -> Seq<MissingDependencyView>
    decreases n,
{
    if n <= 0 {
        Seq::empty()
    } else {
        phase2_missdeps(comps, archs, outs, n - 1) + phase2_comp_missdeps(
            comps[n - 1],
            archs,
            outs[n - 1],
            archs.len() as int,
        )
    }
}

pub open spec fn phase2_misssrcs(
    comps: Seq<Seq<char>>,
    archs: Seq<ArchView>,
    outs: Seq<Seq<BinaryOutcomeView>>,
    slots: Seq<Option<SourceIndexView>>,
    n: int,
) -> Seq<MissingSourceView>
    decreases n,
{
    if n <= 0 {
        Seq::empty()
    } else {
        phase2_misssrcs(comps, archs, outs, slots, n - 1) + phase2_comp_misssrcs(
            comps[n - 1],
            archs,
            outs[n - 1],
            slots[n - 1],
            archs.len() as int,
        )
    }
}

/// The architectures a sequence of names denotes, as `parse_arch`.
pub open spec fn parsed_archs(names: Seq<Seq<char>>) -> Seq<ArchView> {
    Seq::new(names.len(), |i: int| crate::arch::parse_arch(names[i]))
}

fn clone_string_vec(v: &Vec<String>) -> (r: Vec<String>)
    ensures
        r.deep_view() == v.deep_view(),
{
    let mut r: Vec<String> = Vec::new();
    let n = v.len();
    let mut i: usize = 0;
    while i < n
        invariant
            i <= n == v@.len(),
            r.deep_view() == v.deep_view().take(i as int),
        decreases n - i,
    {
        let ghost pre = r.deep_view();
        r.push(v[i].clone());
        proof {
            assert(r.deep_view() =~= pre.push(v.deep_view()[i as int]));
            assert(pre.push(v.deep_view()[i as int]) =~= v.deep_view().take(i + 1));
        }
        i = i + 1;
    }
    proof {
        assert(v.deep_view().take(n as int) =~= v.deep_view());
    }
    r
}

fn dup_arch_vec(v: &Vec<Architecture>) -> (r: Vec<Architecture>)
    ensures
        r.deep_view() == v.deep_view(),
{
    let mut r: Vec<Architecture> = Vec::new();
    let n = v.len();
    let mut i: usize = 0;
    while i < n
        invariant
            i <= n == v@.len(),
            r.deep_view() == v.deep_view().take(i as int),
        decreases n - i,
    {
        let ghost pre = r.deep_view();
        r.push(v[i].duplicate());
        proof {
            assert(r.deep_view() =~= pre.push(v.deep_view()[i as int]));
            assert(pre.push(v.deep_view()[i as int]) =~= v.deep_view().take(i + 1));
        }
        i = i + 1;
    }
    proof {
        assert(v.deep_view().take(n as int) =~= v.deep_view());
    }
    r
}

fn parse_arch_vec(v: &Vec<String>) -> (r: Vec<Architecture>)
    ensures
        r.deep_view() == parsed_archs(v.deep_view()),
{
    let mut r: Vec<Architecture> = Vec::new();
    let n = v.len();
    let mut i: usize = 0;
    while i < n
        invariant
            i <= n == v@.len(),
            r.deep_view() == parsed_archs(v.deep_view()).take(i as int),
        decreases n - i,
    {
        let ghost pre = r.deep_view();
        r.push(Architecture::from_str(v[i].as_str()));
        proof {
            assert(r.deep_view() =~= pre.push(parsed_archs(v.deep_view())[i as int]));
            assert(pre.push(parsed_archs(v.deep_view())[i as int]) =~= parsed_archs(
                v.deep_view(),
            ).take(i + 1));
        }
        i = i + 1;
    }
    proof {
        assert(parsed_archs(v.deep_view()).take(n as int) =~= parsed_archs(v.deep_view()));
    }
    r
}

fn none_slots(n: usize) -> (r: Vec<Option<SourceIndex>>)
    ensures
        r.deep_view().len() == n,
        forall|i: int| 0 <= i < n ==> r.deep_view()[i] is None,
{
    let mut r: Vec<Option<SourceIndex>> = Vec::new();
    let mut i: usize = 0;
    while i < n
        invariant
            i <= n,
            r@.len() == i,
            forall|j: int| 0 <= j < i ==> r.deep_view()[j] is None,
            r.deep_view().len() == i,
        decreases n - i,
    {
        let ghost pre = r.deep_view();
        r.push(None);
        proof {
            assert(r.deep_view() =~= pre.push(None));
        }
        i = i + 1;
    }
    r
}

/// The checker's state: the selection under check, the source indices
/// the source phase retained, and the accumulated findings.
#[derive(Debug)]
pub struct AptCheck {
    pub release: Release,
    pub components: Vec<String>,
    pub architectures: Vec<Architecture>,
    pub source_indices: Vec<Option<SourceIndex>>,
    pub issues: Vec<Issue>,
    pub missing_packages: Vec<MissingDependency>,
    pub missing_sources: Vec<MissingSource>,
    pub check_files: bool,
}

impl AptCheck {
    /// One source-index slot per component under check.
    pub open spec fn wf(&self) -> bool {
        self.source_indices@.len() == self.components@.len()
    }

    /// Set up a check of `release`: an empty component or architecture
    /// selection means everything the release lists.  Architecture
    /// names are parsed as `parse_arch`; the findings start empty.
    pub fn new(
        release: Release,
        components: Vec<String>,
        architectures: Vec<String>,
        check_files: bool,
    ) -> (r: AptCheck)
        ensures
            r.wf(),
            r.components.deep_view() == (if components.deep_view().len() == 0 {
                release.components.deep_view()
            } else {
                components.deep_view()
            }),
            r.architectures.deep_view() == (if architectures.deep_view().len() == 0 {
                release.architectures.deep_view()
            } else {
                parsed_archs(architectures.deep_view())
            }),
            r.issues@.len() == 0,
            r.missing_packages@.len() == 0,
            r.missing_sources@.len() == 0,
            forall|i: int| 0 <= i < r.source_indices.deep_view().len() ==> r.source_indices.deep_view()[i] is None,
            r.check_files == check_files,
            r.release.components.deep_view() == release.components.deep_view(),
            r.release.architectures.deep_view() == release.architectures.deep_view(),
            r.release.compliant == release.compliant,
    {
        let components = if components.is_empty() {
            clone_string_vec(&release.components)
        } else {
            components
        };
        let architectures = if architectures.is_empty() {
            dup_arch_vec(&release.architectures)
        } else {
            parse_arch_vec(&architectures)
        };
        let slots = none_slots(components.len());
        AptCheck {
            release,
            components,
            architectures,
            source_indices: slots,
            issues: Vec::new(),
            missing_packages: Vec::new(),
            missing_sources: Vec::new(),
            check_files,
        }
    }

    /// Run the source check of one component on the outcome of
    /// building its source index: a fetch failure is contained as an
    /// `Issue` and leaves no index; a built index is checked and
    /// retained for the binary phase.
    pub fn check_source_component(&mut self, ci: usize, outcome: SourceOutcome)
        requires
            old(self).wf(),
            ci < old(self).components@.len(),
        ensures
            final(self).wf(),
            final(self).components == old(self).components,
            final(self).architectures == old(self).architectures,
            final(self).release == old(self).release,
            final(self).check_files == old(self).check_files,
            final(self).missing_packages == old(self).missing_packages,
            final(self).missing_sources == old(self).missing_sources,
            final(self).issues.deep_view() == old(self).issues.deep_view() + source_unit_issues(
                old(self).components.deep_view()[ci as int],
                outcome.deep_view(),
                old(self).check_files,
            ),
            final(self).source_indices.deep_view() == old(self).source_indices.deep_view().update(
                ci as int,
                source_unit_slot(outcome.deep_view()),
            ),
    {
        let ghost pre = self.issues.deep_view();
        let ghost preslots = self.source_indices.deep_view();
        match outcome {
            SourceOutcome::Failed(detail) => {
                let ghost dv = detail@;
                self.issues.push(
                    Issue {
                        component: self.components[ci].clone(),
                        architecture: Architecture::Source,
                        kind: IssueKind::FetchFailure { detail },
                    },
                );
                self.source_indices[ci] = None;
                proof {
                    assert(self.issues.deep_view() =~= pre + seq![
                        (IssueView {
                            component: old(self).components.deep_view()[ci as int],
                            architecture: ArchView::Source,
                            kind: (IssueKindView::FetchFailure { detail: dv }),
                        }),
                    ]);
                    assert(self.source_indices.deep_view() =~= preslots.update(
                        ci as int,
                        None::<SourceIndexView>,
                    ));
                }
            },
            SourceOutcome::Built(idx, probes) => {
                let ghost idxv = idx@;
                let mut found = built_source_issues(
                    &self.components[ci],
                    &idx,
                    self.check_files,
                    &probes,
                );
                self.issues.append(&mut found);
                self.source_indices[ci] = Some(idx);
                proof {
                    assert(self.issues.deep_view() =~= pre + source_decl_issues(
                        old(self).components.deep_view()[ci as int],
                        idxv,
                        old(self).check_files,
                        probes.deep_view(),
                        idxv.declared.len() as int,
                    ));
                    assert(self.source_indices.deep_view() =~= preslots.update(
                        ci as int,
                        Some(idxv),
                    ));
                }
            },
        }
    }

    /// Run the binary check of one component and architecture on the
    /// outcome of building its package index: a fetch failure is
    /// contained as an `Issue`; a built index is validated against
    /// itself and against the component's source index, if the source
    /// phase left one.
    pub fn check_binary_component(&mut self, ci: usize, ai: usize, outcome: BinaryOutcome)
        requires
            old(self).wf(),
            ci < old(self).components@.len(),
            ai < old(self).architectures@.len(),
        ensures
            final(self).wf(),
            final(self).components == old(self).components,
            final(self).architectures == old(self).architectures,
            final(self).release == old(self).release,
            final(self).check_files == old(self).check_files,
            final(self).source_indices == old(self).source_indices,
            final(self).issues.deep_view() == old(self).issues.deep_view() + binary_unit_issues(
                old(self).components.deep_view()[ci as int],
                old(self).architectures.deep_view()[ai as int],
                outcome.deep_view(),
                old(self).check_files,
            ),
            final(self).missing_packages.deep_view() == old(self).missing_packages.deep_view()
                + binary_unit_missdeps(
                old(self).components.deep_view()[ci as int],
                outcome.deep_view(),
            ),
            final(self).missing_sources.deep_view() == old(self).missing_sources.deep_view()
                + binary_unit_misssrcs(
                old(self).components.deep_view()[ci as int],
                outcome.deep_view(),
                old(self).source_indices.deep_view()[ci as int],
            ),
    {
        let ghost pre_i = self.issues.deep_view();
        let ghost pre_d = self.missing_packages.deep_view();
        let ghost pre_s = self.missing_sources.deep_view();
        match outcome {
            BinaryOutcome::Failed(detail) => {
                let ghost dv = detail@;
                self.issues.push(
                    Issue {
                        component: self.components[ci].clone(),
                        architecture: self.architectures[ai].duplicate(),
                        kind: IssueKind::FetchFailure { detail },
                    },
                );
                proof {
                    assert(self.issues.deep_view() =~= pre_i + seq![
                        (IssueView {
                            component: old(self).components.deep_view()[ci as int],
                            architecture: old(self).architectures.deep_view()[ai as int],
                            kind: (IssueKindView::FetchFailure { detail: dv }),
                        }),
                    ]);
                    assert(self.missing_packages.deep_view() =~= pre_d);
                    assert(self.missing_sources.deep_view() =~= pre_s);
                }
            },
            BinaryOutcome::Built(idx, probes) => {
                let ghost idxv = idx@;
                let ghost slotv = old(self).source_indices.deep_view()[ci as int];
                let src_opt: Option<&SourceIndex> = match &self.source_indices[ci] {
                    Some(si) => Some(si),
                    None => None,
                };
                proof {
                    assert(slotv == (match src_opt {
                        Some(s) => Some(s@),
                        None => None,
                    }));
                }
                let (mut fi, mut fd, mut fs) = built_binary_findings(
                    &self.components[ci],
                    &self.architectures[ai],
                    &idx,
                    src_opt,
                    self.check_files,
                    &probes,
                );
                self.issues.append(&mut fi);
                self.missing_packages.append(&mut fd);
                self.missing_sources.append(&mut fs);
                proof {
                    assert(self.issues.deep_view() =~= pre_i + binary_decl_issues(
                        old(self).components.deep_view()[ci as int],
                        old(self).architectures.deep_view()[ai as int],
                        idxv,
                        old(self).check_files,
                        probes.deep_view(),
                        idxv.declared.len() as int,
                    ));
                    assert(self.missing_packages.deep_view() =~= pre_d + binary_decl_missdeps(
                        old(self).components.deep_view()[ci as int],
                        idxv,
                        idxv.declared.len() as int,
                    ));
                    assert(self.missing_sources.deep_view() =~= pre_s + binary_decl_misssrcs(
                        old(self).components.deep_view()[ci as int],
                        idxv,
                        slotv,
                        idxv.declared.len() as int,
                    ));
                }
            },
        }
    }

    /// Checks spanning several components.  Reserved: the current
    /// design performs no cross-component work, deliberately.
    pub fn cross_check(&mut self)
        ensures
            *final(self) == *old(self),
    {
    }

    /// Run both phases on the prepared outcomes: first every
    /// component's source unit, then, for every component, one binary
    /// unit per requested architecture, the `Source` sentinel skipped.
    /// `sources` holds one outcome per component; `binaries` holds one
    /// row per component with one outcome per architecture (the
    /// entries at `Source` positions are ignored).
    pub fn check(&mut self, sources: Vec<SourceOutcome>, binaries: Vec<Vec<BinaryOutcome>>)
        requires
            old(self).wf(),
            sources@.len() == old(self).components@.len(),
            binaries@.len() == old(self).components@.len(),
            forall|i: int| 0 <= i < binaries@.len() ==> binaries@[i]@.len() == old(
                self,
            ).architectures@.len(),
        ensures
            final(self).wf(),
            final(self).components == old(self).components,
            final(self).architectures == old(self).architectures,
            final(self).release == old(self).release,
            final(self).check_files == old(self).check_files,
            final(self).source_indices.deep_view() == phase1_slots(sources.deep_view()),
            final(self).issues.deep_view() == old(self).issues.deep_view() + phase1_issues(
                old(self).components.deep_view(),
                sources.deep_view(),
                old(self).check_files,
                old(self).components.deep_view().len() as int,
            ) + phase2_issues(
                old(self).components.deep_view(),
                old(self).architectures.deep_view(),
                binaries.deep_view(),
                old(self).check_files,
                old(self).components.deep_view().len() as int,
            ),
            final(self).missing_packages.deep_view() == old(self).missing_packages.deep_view()
                + phase2_missdeps(
                old(self).components.deep_view(),
                old(self).architectures.deep_view(),
                binaries.deep_view(),
                old(self).components.deep_view().len() as int,
            ),
            final(self).missing_sources.deep_view() == old(self).missing_sources.deep_view()
                + phase2_misssrcs(
                old(self).components.deep_view(),
                old(self).architectures.deep_view(),
                binaries.deep_view(),
                phase1_slots(sources.deep_view()),
                old(self).components.deep_view().len() as int,
            ),
    {
        let ghost comps = old(self).components.deep_view();
        let ghost archs = old(self).architectures.deep_view();
        let ghost cf = old(self).check_files;
        let ghost sdv = sources.deep_view();
        let ghost bdv = binaries.deep_view();
        let ghost pre_i = old(self).issues.deep_view();
        let ghost pre_d = old(self).missing_packages.deep_view();
        let ghost pre_s = old(self).missing_sources.deep_view();
        let mut sources = sources;
        let mut binaries = binaries;
        let nc = self.components.len();

        // Phase 1: one source unit per component.  Each unit's fetch
        // failure is contained; built indices are retained.
        let mut i: usize = 0;
        while i < nc
            invariant
                i <= nc,
                self.wf(),
                nc == comps.len(),
                self.components.deep_view() == comps,
                self.components == old(self).components,
                self.architectures == old(self).architectures,
                self.release == old(self).release,
                self.check_files == cf,
                self.missing_packages == old(self).missing_packages,
                self.missing_sources == old(self).missing_sources,
                sdv.len() == nc,
                sources@.len() == nc - i,
                forall|j: int| 0 <= j < nc - i ==> sources@[j].deep_view() == sdv[j + i],
                self.issues.deep_view() == pre_i + phase1_issues(comps, sdv, cf, i as int),
                self.source_indices.deep_view().len() == nc,
                forall|j: int|
                    0 <= j < i ==> self.source_indices.deep_view()[j] == source_unit_slot(sdv[j]),
            decreases nc - i,
        {
            let ghost slots_before = self.source_indices.deep_view();
            let o = sources.remove(0);
            proof {
                assert(o.deep_view() == sdv[i as int]);
            }
            self.check_source_component(i, o);
            proof {
                assert(self.issues.deep_view() =~= pre_i + phase1_issues(
                    comps,
                    sdv,
                    cf,
                    i + 1,
                ));
                assert(forall|j: int|
                    0 <= j < nc - i - 1 ==> sources@[j].deep_view() == sdv[j + i + 1]);
            }
            i = i + 1;
        }
        proof {
            assert(self.source_indices.deep_view() =~= phase1_slots(sdv));
        }

        // Phase 2: per component, one binary unit per architecture,
        // skipping the `Source` sentinel.  Each unit reads only its
        // own component's retained source index.
        let na = self.architectures.len();
        proof {
            assert forall|j: int| 0 <= j < nc implies bdv[j].len() == na by {
                assert(bdv[j] == binaries@[j].deep_view());
            }
        }
        let mut ci: usize = 0;
        while ci < nc
            invariant
                ci <= nc,
                self.wf(),
                nc == comps.len(),
                na == archs.len(),
                self.components.deep_view() == comps,
                self.components == old(self).components,
                self.architectures == old(self).architectures,
                self.architectures.deep_view() == archs,
                self.release == old(self).release,
                self.check_files == cf,
                self.source_indices.deep_view() == phase1_slots(sdv),
                sdv.len() == nc,
                bdv.len() == nc,
                forall|j: int| 0 <= j < nc ==> bdv[j].len() == na,
                binaries@.len() == nc - ci,
                forall|j: int| 0 <= j < nc - ci ==> binaries@[j].deep_view() == bdv[j + ci],
                self.issues.deep_view() == pre_i + phase1_issues(comps, sdv, cf, nc as int)
                    + phase2_issues(comps, archs, bdv, cf, ci as int),
                self.missing_packages.deep_view() == pre_d + phase2_missdeps(
                    comps,
                    archs,
                    bdv,
                    ci as int,
                ),
                self.missing_sources.deep_view() == pre_s + phase2_misssrcs(
                    comps,
                    archs,
                    bdv,
                    phase1_slots(sdv),
                    ci as int,
                ),
            decreases nc - ci,
        {
            let mut row = binaries.remove(0);
            let ghost rowdv = bdv[ci as int];
            proof {
                assert(row.deep_view() == rowdv);
                assert(forall|j: int|
                    0 <= j < nc - ci - 1 ==> binaries@[j].deep_view() == bdv[j + ci + 1]);
            }
            let ghost c_pre_i = self.issues.deep_view();
            let ghost c_pre_d = self.missing_packages.deep_view();
            let ghost c_pre_s = self.missing_sources.deep_view();
            let mut ai: usize = 0;
            while ai < na
                invariant
                    ai <= na,
                    ci < nc,
                    self.wf(),
                    nc == comps.len(),
                    na == archs.len(),
                    self.components.deep_view() == comps,
                    self.components == old(self).components,
                    self.architectures == old(self).architectures,
                    self.architectures.deep_view() == archs,
                    self.release == old(self).release,
                    self.check_files == cf,
                    self.source_indices.deep_view() == phase1_slots(sdv),
                    sdv.len() == nc,
                    rowdv.len() == na,
                    row@.len() == na - ai,
                    forall|j: int| 0 <= j < na - ai ==> row@[j].deep_view() == rowdv[j + ai],
                    self.issues.deep_view() == c_pre_i + phase2_comp_issues(
                        comps[ci as int],
                        archs,
                        rowdv,
                        cf,
                        ai as int,
                    ),
                    self.missing_packages.deep_view() == c_pre_d + phase2_comp_missdeps(
                        comps[ci as int],
                        archs,
                        rowdv,
                        ai as int,
                    ),
                    self.missing_sources.deep_view() == c_pre_s + phase2_comp_misssrcs(
                        comps[ci as int],
                        archs,
                        rowdv,
                        phase1_slots(sdv)[ci as int],
                        ai as int,
                    ),
                decreases na - ai,
            {
                let o = row.remove(0);
                proof {
                    assert(o.deep_view() == rowdv[ai as int]);
                    assert(forall|j: int|
                        0 <= j < na - ai - 1 ==> row@[j].deep_view() == rowdv[j + ai + 1]);
                }
                if !self.architectures[ai].is_source() {
                    self.check_binary_component(ci, ai, o);
                    proof {
                        assert(self.issues.deep_view() =~= c_pre_i + phase2_comp_issues(
                            comps[ci as int],
                            archs,
                            rowdv,
                            cf,
                            ai + 1,
                        ));
                        assert(self.missing_packages.deep_view() =~= c_pre_d
                            + phase2_comp_missdeps(comps[ci as int], archs, rowdv, ai + 1));
                        assert(self.missing_sources.deep_view() =~= c_pre_s
                            + phase2_comp_misssrcs(
                            comps[ci as int],
                            archs,
                            rowdv,
                            phase1_slots(sdv)[ci as int],
                            ai + 1,
                        ));
                    }
                } else {
                    proof {
                        assert(archs[ai as int] == ArchView::Source);
                        assert(self.issues.deep_view() =~= c_pre_i + phase2_comp_issues(
                            comps[ci as int],
                            archs,
                            rowdv,
                            cf,
                            ai + 1,
                        ));
                        assert(self.missing_packages.deep_view() =~= c_pre_d
                            + phase2_comp_missdeps(comps[ci as int], archs, rowdv, ai + 1));
                        assert(self.missing_sources.deep_view() =~= c_pre_s
                            + phase2_comp_misssrcs(
                            comps[ci as int],
                            archs,
                            rowdv,
                            phase1_slots(sdv)[ci as int],
                            ai + 1,
                        ));
                    }
                }
                ai = ai + 1;
            }
            proof {
                assert(self.issues.deep_view() =~= pre_i + phase1_issues(comps, sdv, cf, nc as int)
                    + phase2_issues(comps, archs, bdv, cf, ci + 1));
                assert(self.missing_packages.deep_view() =~= pre_d + phase2_missdeps(
                    comps,
                    archs,
                    bdv,
                    ci + 1,
                ));
                assert(self.missing_sources.deep_view() =~= pre_s + phase2_misssrcs(
                    comps,
                    archs,
                    bdv,
                    phase1_slots(sdv),
                    ci + 1,
                ));
            }
            ci = ci + 1;
        }
    }

    /// Execute the whole repository check on the prepared outcomes and
    /// report overall success: true exactly when no issue, no missing
    /// dependency and no missing source was found.
    pub fn check_repo(&mut self, sources: Vec<SourceOutcome>, binaries: Vec<Vec<BinaryOutcome>>) -> (r: bool)
        requires
            old(self).wf(),
            old(self).issues@.len() == 0,
            old(self).missing_packages@.len() == 0,
            old(self).missing_sources@.len() == 0,
            sources@.len() == old(self).components@.len(),
            binaries@.len() == old(self).components@.len(),
            forall|i: int| 0 <= i < binaries@.len() ==> binaries@[i]@.len() == old(
                self,
            ).architectures@.len(),
        ensures
            final(self).wf(),
            final(self).components == old(self).components,
            final(self).architectures == old(self).architectures,
            final(self).release == old(self).release,
            final(self).check_files == old(self).check_files,
            final(self).source_indices.deep_view() == phase1_slots(sources.deep_view()),
            final(self).issues.deep_view() == phase1_issues(
                old(self).components.deep_view(),
                sources.deep_view(),
                old(self).check_files,
                old(self).components.deep_view().len() as int,
            ) + phase2_issues(
                old(self).components.deep_view(),
                old(self).architectures.deep_view(),
                binaries.deep_view(),
                old(self).check_files,
                old(self).components.deep_view().len() as int,
            ),
            final(self).missing_packages.deep_view() == phase2_missdeps(
                old(self).components.deep_view(),
                old(self).architectures.deep_view(),
                binaries.deep_view(),
                old(self).components.deep_view().len() as int,
            ),
            final(self).missing_sources.deep_view() == phase2_misssrcs(
                old(self).components.deep_view(),
                old(self).architectures.deep_view(),
                binaries.deep_view(),
                phase1_slots(sources.deep_view()),
                old(self).components.deep_view().len() as int,
            ),
            r == (final(self).issues@.len() == 0 && final(self).missing_packages@.len() == 0
                && final(self).missing_sources@.len() == 0),
    {
        proof {
            assert(old(self).issues.deep_view() =~= Seq::<IssueView>::empty());
            assert(old(self).missing_packages.deep_view() =~= Seq::<
                MissingDependencyView,
            >::empty());
            assert(old(self).missing_sources.deep_view() =~= Seq::<MissingSourceView>::empty());
        }
        self.check(sources, binaries);
        self.cross_check();
        proof {
            assert(Seq::<IssueView>::empty() + phase1_issues(
                old(self).components.deep_view(),
                sources.deep_view(),
                old(self).check_files,
                old(self).components.deep_view().len() as int,
            ) + phase2_issues(
                old(self).components.deep_view(),
                old(self).architectures.deep_view(),
                binaries.deep_view(),
                old(self).check_files,
                old(self).components.deep_view().len() as int,
            ) =~= phase1_issues(
                old(self).components.deep_view(),
                sources.deep_view(),
                old(self).check_files,
                old(self).components.deep_view().len() as int,
            ) + phase2_issues(
                old(self).components.deep_view(),
                old(self).architectures.deep_view(),
                binaries.deep_view(),
                old(self).check_files,
                old(self).components.deep_view().len() as int,
            ));
            assert(Seq::<MissingDependencyView>::empty() + phase2_missdeps(
                old(self).components.deep_view(),
                old(self).architectures.deep_view(),
                binaries.deep_view(),
                old(self).components.deep_view().len() as int,
            ) =~= phase2_missdeps(
                old(self).components.deep_view(),
                old(self).architectures.deep_view(),
                binaries.deep_view(),
                old(self).components.deep_view().len() as int,
            ));
            assert(Seq::<MissingSourceView>::empty() + phase2_misssrcs(
                old(self).components.deep_view(),
                old(self).architectures.deep_view(),
                binaries.deep_view(),
                phase1_slots(sources.deep_view()),
                old(self).components.deep_view().len() as int,
            ) =~= phase2_misssrcs(
                old(self).components.deep_view(),
                old(self).architectures.deep_view(),
                binaries.deep_view(),
                phase1_slots(sources.deep_view()),
                old(self).components.deep_view().len() as int,
            ));
        }
        self.success()
    }

    /// Whether the accumulated report is clean: no issue, no missing
    /// dependency, no missing source.
    pub fn success(&self) -> (r: bool)
        ensures
            r == (self.issues@.len() == 0 && self.missing_packages@.len() == 0
                && self.missing_sources@.len() == 0),
    {
        self.issues.is_empty() && self.missing_packages.is_empty()
            && self.missing_sources.is_empty()
    }
}

} // verus!
