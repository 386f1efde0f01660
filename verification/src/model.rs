//! Data model of the repository metadata the checker works on, and the
//! version-constraint matcher that resolves names against an index.

use vstd::prelude::*;

use crate::arch::{ArchView, Architecture};
use crate::version::version_cmp;
use crate::version::compare_versions;
use crate::arch::str_eq;

verus! {

/// Relation of a candidate version to a constraint's version.
#[derive(Clone, Copy, PartialEq, Eq, Structural, Debug)]
pub enum Relation {
    Exact,
    LessThan,
    LessOrEqual,
    GreaterThan,
    GreaterOrEqual,
    Any,
}

/// A dependency or lookup constraint: a name, optionally narrowed by
/// an architecture and by a version relation.  An absent relation, or
/// `Any`, accepts every version of the name.
#[derive(Debug)]
pub struct VersionConstraint {
    pub name: String,
    pub architecture: Option<Architecture>,
    pub relation: Option<Relation>,
    pub version: Option<String>,
}

pub struct ConstraintView {
    pub name: Seq<char>,
    pub architecture: Option<ArchView>,
    pub relation: Option<Relation>,
    pub version: Option<Seq<char>>,
}

impl View for VersionConstraint {
    type V = ConstraintView;

    open spec fn view(&self) -> ConstraintView {
        ConstraintView {
            name: self.name@,
            architecture: match self.architecture {
                Some(a) => Some(a@),
                None => None,
            },
            relation: self.relation,
            version: match self.version {
                Some(v) => Some(v@),
                None => None,
            },
        }
    }
}

impl DeepView for VersionConstraint {
    type V = ConstraintView;

    open spec fn deep_view(&self) -> ConstraintView {
        self.view()
    }
}

/// One binary package record of a package index.
#[derive(Debug)]
pub struct PackageEntry {
    pub name: String,
    pub version: String,
    pub architecture: Option<Architecture>,
    pub depends: Vec<VersionConstraint>,
    pub source: Option<String>,
    pub link: String,
}

pub struct EntryView {
    pub name: Seq<char>,
    pub version: Seq<char>,
    pub architecture: Option<ArchView>,
    pub depends: Seq<ConstraintView>,
    pub source: Option<Seq<char>>,
    pub link: Seq<char>,
}

impl View for PackageEntry {
    type V = EntryView;

    open spec fn view(&self) -> EntryView {
        EntryView {
            name: self.name@,
            version: self.version@,
            architecture: match self.architecture {
                Some(a) => Some(a@),
                None => None,
            },
            depends: self.depends.deep_view(),
            source: match self.source {
                Some(s) => Some(s@),
                None => None,
            },
            link: self.link@,
        }
    }
}

impl DeepView for PackageEntry {
    type V = EntryView;

    open spec fn deep_view(&self) -> EntryView {
        self.view()
    }
}

/// One artifact of a source package: its kind tag and its URL.
#[derive(Debug)]
pub struct SourceLink {
    pub kind: String,
    pub url: String,
}

pub struct SourceLinkView {
    pub kind: Seq<char>,
    pub url: Seq<char>,
}

impl View for SourceLink {
    type V = SourceLinkView;

    open spec fn view(&self) -> SourceLinkView {
        SourceLinkView { kind: self.kind@, url: self.url@ }
    }
}

impl DeepView for SourceLink {
    type V = SourceLinkView;

    open spec fn deep_view(&self) -> SourceLinkView {
        self.view()
    }
}

/// One source package record of a source index.
#[derive(Debug)]
pub struct SourceEntry {
    pub name: String,
    pub version: String,
    pub links: Vec<SourceLink>,
}

pub struct SourceEntryView {
    pub name: Seq<char>,
    pub version: Seq<char>,
    pub links: Seq<SourceLinkView>,
}

impl View for SourceEntry {
    type V = SourceEntryView;

    open spec fn view(&self) -> SourceEntryView {
        SourceEntryView { name: self.name@, version: self.version@, links: self.links.deep_view() }
    }
}

impl DeepView for SourceEntry {
    type V = SourceEntryView;

    open spec fn deep_view(&self) -> SourceEntryView {
        self.view()
    }
}

/// A parsed binary package index for one component and architecture:
/// the names the index declares, and the records it actually holds.
#[derive(Debug)]
pub struct PackageIndex {
    pub architecture: Architecture,
    pub declared: Vec<String>,
    pub entries: Vec<PackageEntry>,
}

pub struct PackageIndexView {
    pub architecture: ArchView,
    pub declared: Seq<Seq<char>>,
    pub entries: Seq<EntryView>,
}

impl View for PackageIndex {
    type V = PackageIndexView;

    open spec fn view(&self) -> PackageIndexView {
        PackageIndexView {
            architecture: self.architecture@,
            declared: self.declared.deep_view(),
            entries: self.entries.deep_view(),
        }
    }
}

impl DeepView for PackageIndex {
    type V = PackageIndexView;

    open spec fn deep_view(&self) -> PackageIndexView {
        self.view()
    }
}

/// A parsed source package index for one component.
#[derive(Debug)]
pub struct SourceIndex {
    pub declared: Vec<String>,
    pub entries: Vec<SourceEntry>,
}

pub struct SourceIndexView {
    pub declared: Seq<Seq<char>>,
    pub entries: Seq<SourceEntryView>,
}

impl View for SourceIndex {
    type V = SourceIndexView;

    open spec fn view(&self) -> SourceIndexView {
        SourceIndexView { declared: self.declared.deep_view(), entries: self.entries.deep_view() }
    }
}

impl DeepView for SourceIndex {
    type V = SourceIndexView;

    open spec fn deep_view(&self) -> SourceIndexView {
        self.view()
    }
}

/// Whether a version satisfies an optional relation against an
/// optional constraint version.  No relation, or `Any`, accepts every
/// version; a relational constraint without a version accepts none.
pub open spec fn version_ok(v: Seq<char>, relation: Option<Relation>, cv: Option<Seq<char>>) -> bool {
    match relation {
        None => true,
        Some(rel) => (rel matches Relation::Any) || (match cv {
            None => false,
            Some(cv) => relation_holds(rel, version_cmp(v, cv)),
        }),
    }
}

/// Whether a three-way comparison outcome (`c` compares the candidate
/// to the constraint version) satisfies a relation.
pub open spec fn relation_holds(rel: Relation, c: int) -> bool {
    match rel {
        Relation::Exact => c == 0,
        Relation::LessThan => c < 0,
        Relation::LessOrEqual => c <= 0,
        Relation::GreaterThan => c > 0,
        Relation::GreaterOrEqual => c >= 0,
        Relation::Any => true,
    }
}

/// Whether a package record is a candidate for the lookup of `name`
/// under the optional constraint: the names must match, a constraint
/// architecture must match the record's exactly, and the record's
/// version must satisfy the constraint's relation.
pub open spec fn entry_matches(e: EntryView, name: Seq<char>, c: Option<ConstraintView>) -> bool {
    e.name == name && match c {
        None => true,
        Some(c) => e.name == c.name && (match c.architecture {
            None => true,
            Some(a) => e.architecture == Some(a),
        }) && version_ok(e.version, c.relation, c.version),
    }
}

/// The entry a lookup resolves to: among the candidates, the one with
/// the highest version wins, and the first encountered wins among
/// equals.  Returns its position, or `None` when no entry matches.
pub open spec fn best_match(entries: Seq<EntryView>, name: Seq<char>, c: Option<ConstraintView>) -> Option<int>
    decreases entries.len(),
{
    if entries.len() == 0 {
        None
    } else {
        let prev = best_match(entries.drop_last(), name, c);
        let i = entries.len() - 1;
        if entry_matches(entries[i], name, c) {
            match prev {
                None => Some(i),
                Some(j) => if version_cmp(entries[i].version, entries[j].version) > 0 {
                    Some(i)
                } else {
                    Some(j)
                },
            }
        } else {
            prev
        }
    }
}

/// As `best_match`, for source records: a source lookup filters by
/// name and version only.
pub open spec fn source_matches(e: SourceEntryView, name: Seq<char>, relation: Option<Relation>, cv: Option<Seq<char>>) -> bool {
    e.name == name && version_ok(e.version, relation, cv)
}

pub open spec fn best_source_match(entries: Seq<SourceEntryView>, name: Seq<char>, relation: Option<Relation>, cv: Option<Seq<char>>) -> Option<int>
    decreases entries.len(),
{
    if entries.len() == 0 {
        None
    } else {
        let prev = best_source_match(entries.drop_last(), name, relation, cv);
        let i = entries.len() - 1;
        if source_matches(entries[i], name, relation, cv) {
            match prev {
                None => Some(i),
                Some(j) => if version_cmp(entries[i].version, entries[j].version) > 0 {
                    Some(i)
                } else {
                    Some(j)
                },
            }
        } else {
            prev
        }
    }
}

/// A resolved position is always inside the index.
pub proof fn lemma_best_match_range(entries: Seq<EntryView>, name: Seq<char>, c: Option<ConstraintView>)
    ensures
        match best_match(entries, name, c) {
            Some(i) => 0 <= i < entries.len(),
            None => true,
        },
    decreases entries.len(),
{
    if entries.len() > 0 {
        lemma_best_match_range(entries.drop_last(), name, c);
    }
}

/// A resolved source position is always inside the index.
pub proof fn lemma_best_source_match_range(
    entries: Seq<SourceEntryView>,
    name: Seq<char>,
    relation: Option<Relation>,
    cv: Option<Seq<char>>,
)
    ensures
        match best_source_match(entries, name, relation, cv) {
            Some(i) => 0 <= i < entries.len(),
            None => true,
        },
    decreases entries.len(),
{
    if entries.len() > 0 {
        lemma_best_source_match_range(entries.drop_last(), name, relation, cv);
    }
}

/// Whether a three-way comparison result satisfies a relation, as
/// `relation_holds`.
fn relation_holds_exec(rel: Relation, c: i8) -> (r: bool)
    ensures
        r == relation_holds(rel, c as int),
{
    match rel {
        Relation::Exact => c == 0,
        Relation::LessThan => c < 0,
        Relation::LessOrEqual => c <= 0,
        Relation::GreaterThan => c > 0,
        Relation::GreaterOrEqual => c >= 0,
        Relation::Any => true,
    }
}

impl PackageIndex {
    /// Look up `name` under an optional constraint; returns the
    /// position of the resolved record, as `best_match`.
    #[verifier::rlimit(60)]
    pub fn get(&self, name: &String, constraint: Option<&VersionConstraint>) -> (r: Option<usize>)
        ensures
            (match r {
                Some(i) => best_match(
                    self@.entries,
                    name@,
                    (match constraint {
                        Some(c) => Some(c@),
                        None => None,
                    }),
                ) == Some(i as int),
                None => best_match(
                    self@.entries,
                    name@,
                    (match constraint {
                        Some(c) => Some(c@),
                        None => None,
                    }),
                ) is None,
            }),
    {
        let ghost cv: Option<ConstraintView> = match constraint {
            Some(c) => Some(c@),
            None => None,
        };
        let n = self.entries.len();
        let mut best: Option<usize> = None;
        let mut i: usize = 0;
        while i < n
            invariant
                i <= n == self@.entries.len(),
                cv == (match constraint {
                    Some(c) => Some(c@),
                    None => None,
                }),
                (match best {
                    Some(j) => j < i && best_match(self@.entries.take(i as int), name@, cv)
                        == Some(j as int),
                    None => best_match(self@.entries.take(i as int), name@, cv) is None,
                }),
        decreases n - i,
        {
            let e = &self.entries[i];
            let ghost pre = self@.entries.take(i as int);
            let matched = if str_eq(e.name.as_str(), name.as_str()) {
                match constraint {
                    None => true,
                    Some(c) => {
                        let nm = str_eq(e.name.as_str(), c.name.as_str());
                        let am = match &c.architecture {
                            None => true,
                            Some(a) => match &e.architecture {
                                Some(ea) => ea.same_as(a),
                                None => false,
                            },
                        };
                        let vo = match &c.relation {
                            None => true,
                            Some(rel) => {
                                if matches!(rel, Relation::Any) {
                                    true
                                } else {
                                    match &c.version {
                                        None => false,
                                        Some(cvs) => {
                                            let cc = compare_versions(
                                                e.version.as_str(),
                                                cvs.as_str(),
                                            );
                                            relation_holds_exec(*rel, cc)
                                        },
                                    }
                                }
                            },
                        };
                        nm && am && vo
                    },
                }
            } else {
                false
            };
            proof {
                let ev = self@.entries[i as int];
                assert(ev == self.entries@[i as int].deep_view());
                assert(ev.name == e.name@);
                assert(ev.version == e.version@);
                assert(ev.architecture == (match e.architecture {
                    Some(a) => Some(a@),
                    None => None,
                }));
                assert(matched == entry_matches(ev, name@, cv));
                assert(self@.entries.take(i + 1).drop_last() =~= pre);
                assert(self@.entries.take(i + 1).last() == self@.entries[i as int]);
            }
            match best {
                None => {
                    if matched {
                        best = Some(i);
                    }
                },
                Some(j) => {
                    if matched {
                        let c = compare_versions(
                            self.entries[i].version.as_str(),
                            self.entries[j].version.as_str(),
                        );
                        if c > 0 {
                            best = Some(i);
                        }
                    }
                },
            }
            i = i + 1;
        }
        proof {
            assert(self@.entries.take(n as int) =~= self@.entries);
        }
        best
    }
}

impl SourceIndex {
    /// Look up the source `name` under an optional relation/version,
    /// as `best_source_match`.
    #[verifier::rlimit(60)]
    pub fn get(&self, name: &String, relation: Option<Relation>, version: Option<&String>) -> (r:
        Option<usize>)
        ensures
            (match r {
                Some(i) => best_source_match(
                    self@.entries,
                    name@,
                    relation,
                    (match version {
                        Some(v) => Some(v@),
                        None => None,
                    }),
                ) == Some(i as int),
                None => best_source_match(
                    self@.entries,
                    name@,
                    relation,
                    (match version {
                        Some(v) => Some(v@),
                        None => None,
                    }),
                ) is None,
            }),
    {
        let ghost cv: Option<Seq<char>> = match version {
            Some(v) => Some(v@),
            None => None,
        };
        let n = self.entries.len();
        let mut best: Option<usize> = None;
        let mut i: usize = 0;
        while i < n
            invariant
                i <= n == self@.entries.len(),
                cv == (match version {
                    Some(v) => Some(v@),
                    None => None,
                }),
                (match best {
                    Some(j) => j < i && best_source_match(
                        self@.entries.take(i as int),
                        name@,
                        relation,
                        cv,
                    ) == Some(j as int),
                    None => best_source_match(self@.entries.take(i as int), name@, relation, cv)
                        is None,
                }),
            decreases n - i,
        {
            let e = &self.entries[i];
            let ghost pre = self@.entries.take(i as int);
            let nm = str_eq(e.name.as_str(), name.as_str());
            let vo = match &relation {
                None => true,
                Some(rel) => {
                    if matches!(rel, Relation::Any) {
                        true
                    } else {
                        match version {
                            None => false,
                            Some(cvs) => {
                                let cc = compare_versions(e.version.as_str(), cvs.as_str());
                                relation_holds_exec(*rel, cc)
                            },
                        }
                    }
                },
            };
            let matched = nm && vo;
            proof {
                let sv = self@.entries[i as int];
                assert(sv == self.entries@[i as int].deep_view());
                assert(sv.name == e.name@);
                assert(sv.version == e.version@);
                assert(matched == source_matches(sv, name@, relation, cv));
                assert(self@.entries.take(i + 1).drop_last() =~= pre);
                assert(self@.entries.take(i + 1).last() == self@.entries[i as int]);
            }
            match best {
                None => {
                    if matched {
                        best = Some(i);
                    }
                },
                Some(j) => {
                    if matched {
                        let c = compare_versions(
                            self.entries[i].version.as_str(),
                            self.entries[j].version.as_str(),
                        );
                        if c > 0 {
                            best = Some(i);
                        }
                    }
                },
            }
            i = i + 1;
        }
        proof {
            assert(self@.entries.take(n as int) =~= self@.entries);
        }
        best
    }
}

} // verus!
