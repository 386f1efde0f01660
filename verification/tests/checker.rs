use aptcheckr::arch::Architecture;
use aptcheckr::check::{
    AptCheck, BinaryOutcome, Issue, IssueKind, ProbeOutcome, Release, SourceOutcome,
};
use aptcheckr::model::{
    PackageEntry, PackageIndex, Relation, SourceEntry, SourceIndex, SourceLink, VersionConstraint,
};

fn entry(name: &str, version: &str, deps: Vec<VersionConstraint>, source: Option<&str>) -> PackageEntry {
    PackageEntry {
        name: name.to_string(),
        version: version.to_string(),
        architecture: Some(Architecture::Amd64),
        depends: deps,
        source: source.map(|s| s.to_string()),
        link: format!("http://repo.example/pool/{name}.deb"),
    }
}

fn dep(name: &str, relation: Relation, version: &str) -> VersionConstraint {
    VersionConstraint {
        name: name.to_string(),
        architecture: None,
        relation: Some(relation),
        version: Some(version.to_string()),
    }
}

fn package_index(names: &[&str], entries: Vec<PackageEntry>) -> PackageIndex {
    PackageIndex {
        architecture: Architecture::Amd64,
        declared: names.iter().map(|n| n.to_string()).collect(),
        entries,
    }
}

fn source_index(names: &[&str], entries: Vec<SourceEntry>) -> SourceIndex {
    SourceIndex {
        declared: names.iter().map(|n| n.to_string()).collect(),
        entries,
    }
}

fn source_entry(name: &str, version: &str, urls: &[&str]) -> SourceEntry {
    SourceEntry {
        name: name.to_string(),
        version: version.to_string(),
        links: urls
            .iter()
            .map(|u| SourceLink { kind: "tar".to_string(), url: u.to_string() })
            .collect(),
    }
}

fn release(components: &[&str], architectures: Vec<Architecture>) -> Release {
    Release {
        components: components.iter().map(|c| c.to_string()).collect(),
        architectures,
        compliant: true,
    }
}

fn is_fetch_failure(i: &Issue) -> bool {
    matches!(i.kind, IssueKind::FetchFailure { .. })
}

#[test]
fn scenario_missing_dependency() {
    // Component "main", architecture amd64: package A depends on
    // B (>= 2.0), the index only has B 1.0.
    let idx = package_index(
        &["A", "B"],
        vec![
            entry("A", "1.0", vec![dep("B", Relation::GreaterOrEqual, "2.0")], None),
            entry("B", "1.0", vec![], None),
        ],
    );
    let mut check = AptCheck::new(release(&["main"], vec![Architecture::Amd64]), vec![], vec![], false);
    let sources = vec![SourceOutcome::Built(source_index(&[], vec![]), vec![])];
    let binaries = vec![vec![BinaryOutcome::Built(idx, vec![])]];
    let ok = check.check_repo(sources, binaries);
    assert!(!ok);
    assert!(check.issues.is_empty());
    assert_eq!(check.missing_packages.len(), 1);
    let md = &check.missing_packages[0];
    assert_eq!(md.component, "main");
    assert_eq!(md.package, "A");
    assert_eq!(md.constraint.name, "B");
    assert_eq!(md.constraint.relation, Some(Relation::GreaterOrEqual));
    assert_eq!(md.constraint.version.as_deref(), Some("2.0"));
}

#[test]
fn scenario_missing_source_version() {
    // Package A declares source "a-src"; the source index has
    // "a-src" only at a different version.
    let idx = package_index(&["A"], vec![entry("A", "1.0", vec![], Some("a-src"))]);
    let srcidx = source_index(&["a-src"], vec![source_entry("a-src", "0.9", &[])]);
    let mut check = AptCheck::new(release(&["main"], vec![Architecture::Amd64]), vec![], vec![], false);
    let sources = vec![SourceOutcome::Built(srcidx, vec![])];
    let binaries = vec![vec![BinaryOutcome::Built(idx, vec![])]];
    let ok = check.check_repo(sources, binaries);
    assert!(!ok);
    assert_eq!(check.missing_sources.len(), 1);
    let ms = &check.missing_sources[0];
    assert_eq!(ms.component, "main");
    assert_eq!(ms.package, "A");
    assert_eq!(ms.source, "a-src");
}

#[test]
fn matching_source_version_is_clean() {
    let idx = package_index(&["A"], vec![entry("A", "1.0", vec![], Some("a-src"))]);
    let srcidx = source_index(&["a-src"], vec![source_entry("a-src", "1.0", &[])]);
    let mut check = AptCheck::new(release(&["main"], vec![Architecture::Amd64]), vec![], vec![], false);
    let ok = check.check_repo(
        vec![SourceOutcome::Built(srcidx, vec![])],
        vec![vec![BinaryOutcome::Built(idx, vec![])]],
    );
    assert!(ok);
    assert!(check.issues.is_empty());
    assert!(check.missing_packages.is_empty());
    assert!(check.missing_sources.is_empty());
}

#[test]
fn scenario_fetch_failure_is_contained() {
    // The package index of (main, arm64) cannot be fetched: one
    // FetchFailure issue for that pair, all other pairs still checked.
    let mut check = AptCheck::new(
        release(&["main"], vec![Architecture::Amd64, Architecture::Arm64]),
        vec![],
        vec![],
        false,
    );
    let amd = package_index(&["A"], vec![entry("A", "1.0", vec![], None)]);
    let sources = vec![SourceOutcome::Built(source_index(&[], vec![]), vec![])];
    let binaries = vec![vec![
        BinaryOutcome::Built(amd, vec![]),
        BinaryOutcome::Failed("connection refused".to_string()),
    ]];
    let ok = check.check_repo(sources, binaries);
    assert!(!ok);
    assert_eq!(check.issues.len(), 1);
    let issue = &check.issues[0];
    assert_eq!(issue.component, "main");
    assert!(issue.architecture.same_as(&Architecture::Arm64));
    assert!(is_fetch_failure(issue));
    // The amd64 unit was still processed and is clean.
    assert!(check.missing_packages.is_empty());
}

#[test]
fn scenario_probing_disabled_reports_no_broken_links() {
    // check_files off: even probe results that report the URL broken
    // produce no finding.
    let idx = package_index(&["A"], vec![entry("A", "1.0", vec![], None)]);
    let bad_probe = ProbeOutcome { url: "http://repo.example/pool/A.deb".to_string(), ok: false };
    let mut check = AptCheck::new(release(&["main"], vec![Architecture::Amd64]), vec![], vec![], false);
    let ok = check.check_repo(
        vec![SourceOutcome::Built(source_index(&[], vec![]), vec![])],
        vec![vec![BinaryOutcome::Built(idx, vec![bad_probe])]],
    );
    assert!(ok);
    assert!(check.issues.is_empty());
}

#[test]
fn broken_link_is_tagged_with_source_sentinel() {
    // check_files on: a broken artifact of a binary package is
    // recorded with the Source sentinel, not the unit's architecture.
    let idx = package_index(&["A"], vec![entry("A", "1.0", vec![], None)]);
    let bad_probe = ProbeOutcome { url: "http://repo.example/pool/A.deb".to_string(), ok: false };
    let mut check = AptCheck::new(release(&["main"], vec![Architecture::Amd64]), vec![], vec![], true);
    let ok = check.check_repo(
        vec![SourceOutcome::Built(source_index(&[], vec![]), vec![])],
        vec![vec![BinaryOutcome::Built(idx, vec![bad_probe])]],
    );
    assert!(!ok);
    assert_eq!(check.issues.len(), 1);
    let issue = &check.issues[0];
    assert!(issue.architecture.same_as(&Architecture::Source));
    match &issue.kind {
        IssueKind::BrokenLink { url } => assert_eq!(url, "http://repo.example/pool/A.deb"),
        _ => panic!("expected a broken-link issue"),
    }
}

#[test]
fn no_source_index_skips_source_check() {
    // The source index of the component never got built: the package's
    // source check is skipped, no MissingSource is recorded, and only
    // the fetch failure of the source unit shows up.
    let idx = package_index(&["A"], vec![entry("A", "1.0", vec![], Some("a-src"))]);
    let mut check = AptCheck::new(release(&["main"], vec![Architecture::Amd64]), vec![], vec![], false);
    let ok = check.check_repo(
        vec![SourceOutcome::Failed("404".to_string())],
        vec![vec![BinaryOutcome::Built(idx, vec![])]],
    );
    assert!(!ok);
    assert!(check.missing_sources.is_empty());
    assert_eq!(check.issues.len(), 1);
    assert!(is_fetch_failure(&check.issues[0]));
    assert!(check.issues[0].architecture.same_as(&Architecture::Source));
}

#[test]
fn declared_but_unresolvable_name_is_an_issue() {
    // The index lists "ghost" but holds no record of it.
    let idx = package_index(&["ghost"], vec![]);
    let mut check = AptCheck::new(release(&["main"], vec![Architecture::Amd64]), vec![], vec![], false);
    let ok = check.check_repo(
        vec![SourceOutcome::Built(source_index(&[], vec![]), vec![])],
        vec![vec![BinaryOutcome::Built(idx, vec![])]],
    );
    assert!(!ok);
    assert_eq!(check.issues.len(), 1);
    match &check.issues[0].kind {
        IssueKind::MissingEntry { name } => assert_eq!(name, "ghost"),
        _ => panic!("expected a missing-entry issue"),
    }
    assert!(check.issues[0].architecture.same_as(&Architecture::Amd64));
}

#[test]
fn declared_source_name_missing_from_its_index() {
    let srcidx = source_index(&["ghost-src"], vec![]);
    let mut check = AptCheck::new(release(&["main"], vec![Architecture::Amd64]), vec![], vec![], false);
    let ok = check.check_repo(
        vec![SourceOutcome::Built(srcidx, vec![])],
        vec![vec![BinaryOutcome::Built(package_index(&[], vec![]), vec![])]],
    );
    assert!(!ok);
    assert_eq!(check.issues.len(), 1);
    match &check.issues[0].kind {
        IssueKind::MissingEntry { name } => assert_eq!(name, "ghost-src"),
        _ => panic!("expected a missing-entry issue"),
    }
    assert!(check.issues[0].architecture.same_as(&Architecture::Source));
}

#[test]
fn broken_source_link_is_reported_when_probing() {
    let srcidx = source_index(
        &["a-src"],
        vec![source_entry("a-src", "1.0", &["http://repo.example/a.tar", "http://repo.example/b.tar"])],
    );
    let probes = vec![
        ProbeOutcome { url: "http://repo.example/a.tar".to_string(), ok: true },
        ProbeOutcome { url: "http://repo.example/b.tar".to_string(), ok: false },
    ];
    let mut check = AptCheck::new(release(&["main"], vec![Architecture::Amd64]), vec![], vec![], true);
    let ok = check.check_repo(
        vec![SourceOutcome::Built(srcidx, probes)],
        vec![vec![BinaryOutcome::Built(package_index(&[], vec![]), vec![])]],
    );
    assert!(!ok);
    assert_eq!(check.issues.len(), 1);
    match &check.issues[0].kind {
        IssueKind::BrokenLink { url } => assert_eq!(url, "http://repo.example/b.tar"),
        _ => panic!("expected a broken-link issue"),
    }
}

#[test]
fn success_iff_no_findings() {
    // Clean repository: success.
    let idx = package_index(&["A"], vec![entry("A", "1.0", vec![], None)]);
    let mut clean = AptCheck::new(release(&["main"], vec![Architecture::Amd64]), vec![], vec![], false);
    let ok = clean.check_repo(
        vec![SourceOutcome::Built(source_index(&[], vec![]), vec![])],
        vec![vec![BinaryOutcome::Built(idx, vec![])]],
    );
    assert!(ok);
    assert!(clean.issues.is_empty() && clean.missing_packages.is_empty() && clean.missing_sources.is_empty());

    // A single soft finding already makes the run fail.
    let idx2 = package_index(
        &["A"],
        vec![entry("A", "1.0", vec![dep("nowhere", Relation::Any, "1")], None)],
    );
    let mut dirty = AptCheck::new(release(&["main"], vec![Architecture::Amd64]), vec![], vec![], false);
    let ok2 = dirty.check_repo(
        vec![SourceOutcome::Built(source_index(&[], vec![]), vec![])],
        vec![vec![BinaryOutcome::Built(idx2, vec![])]],
    );
    assert!(!ok2);
    assert!(!dirty.missing_packages.is_empty());
}

#[test]
fn rerun_on_equal_snapshot_yields_identical_findings() {
    let build = || {
        let idx = package_index(
            &["A", "B"],
            vec![
                entry("A", "1.0", vec![dep("B", Relation::GreaterOrEqual, "2.0")], Some("a-src")),
                entry("B", "1.0", vec![], None),
            ],
        );
        let srcidx = source_index(&["a-src"], vec![source_entry("a-src", "0.5", &[])]);
        (
            vec![SourceOutcome::Built(srcidx, vec![])],
            vec![vec![BinaryOutcome::Built(idx, vec![])]],
        )
    };
    let mut one = AptCheck::new(release(&["main"], vec![Architecture::Amd64]), vec![], vec![], false);
    let (s1, b1) = build();
    let r1 = one.check_repo(s1, b1);
    let mut two = AptCheck::new(release(&["main"], vec![Architecture::Amd64]), vec![], vec![], false);
    let (s2, b2) = build();
    let r2 = two.check_repo(s2, b2);
    assert_eq!(r1, r2);
    assert_eq!(one.issues.len(), two.issues.len());
    assert_eq!(one.missing_packages.len(), two.missing_packages.len());
    assert_eq!(one.missing_sources.len(), two.missing_sources.len());
    for (a, b) in one.missing_packages.iter().zip(two.missing_packages.iter()) {
        assert_eq!(a.component, b.component);
        assert_eq!(a.package, b.package);
        assert_eq!(a.constraint.name, b.constraint.name);
    }
    for (a, b) in one.missing_sources.iter().zip(two.missing_sources.iter()) {
        assert_eq!(a.component, b.component);
        assert_eq!(a.package, b.package);
        assert_eq!(a.source, b.source);
    }
}

#[test]
fn source_sentinel_architecture_is_skipped_in_binary_phase() {
    let mut check = AptCheck::new(
        release(&["main"], vec![Architecture::Source, Architecture::Amd64]),
        vec![],
        vec![],
        false,
    );
    let idx = package_index(&["A"], vec![entry("A", "1.0", vec![], None)]);
    let ok = check.check_repo(
        vec![SourceOutcome::Built(source_index(&[], vec![]), vec![])],
        vec![vec![
            // The slot at the Source position is never looked at.
            BinaryOutcome::Failed(String::new()),
            BinaryOutcome::Built(idx, vec![]),
        ]],
    );
    assert!(ok);
    assert!(check.issues.is_empty());
}

#[test]
fn highest_version_wins_resolution() {
    let idx = package_index(
        &["A"],
        vec![
            entry("A", "1.0", vec![dep("gone", Relation::Any, "1")], None),
            entry("A", "2.0", vec![], None),
        ],
    );
    // The declared name resolves to A 2.0, whose dependency list is
    // empty, so nothing is missing.
    let mut check = AptCheck::new(release(&["main"], vec![Architecture::Amd64]), vec![], vec![], false);
    let ok = check.check_repo(
        vec![SourceOutcome::Built(source_index(&[], vec![]), vec![])],
        vec![vec![BinaryOutcome::Built(idx, vec![])]],
    );
    assert!(ok);
}

#[test]
fn selection_defaults_to_release_lists() {
    let check = AptCheck::new(
        release(&["main", "contrib"], vec![Architecture::Amd64]),
        vec![],
        vec![],
        false,
    );
    assert_eq!(check.components, vec!["main".to_string(), "contrib".to_string()]);
    assert_eq!(check.architectures.len(), 1);
    assert!(check.architectures[0].same_as(&Architecture::Amd64));

    let narrowed = AptCheck::new(
        release(&["main", "contrib"], vec![Architecture::Amd64]),
        vec!["contrib".to_string()],
        vec!["arm64".to_string()],
        false,
    );
    assert_eq!(narrowed.components, vec!["contrib".to_string()]);
    assert!(narrowed.architectures[0].same_as(&Architecture::Arm64));
}

#[test]
fn architecture_names_parse() {
    assert!(Architecture::from_str("amd64").same_as(&Architecture::Amd64));
    assert!(Architecture::from_str("source").is_source());
    let other = Architecture::from_str("mips64el");
    assert!(other.same_as(&Architecture::Other("mips64el".to_string())));
    assert!(!other.same_as(&Architecture::Amd64));
}

#[test]
fn lookup_filters_by_architecture_and_relation() {
    let mut b = entry("B", "1.5", vec![], None);
    b.architecture = Some(Architecture::Arm64);
    let idx = package_index(&["B"], vec![b]);

    // Right name, wrong architecture: no match.
    let wrong_arch = VersionConstraint {
        name: "B".to_string(),
        architecture: Some(Architecture::Amd64),
        relation: None,
        version: None,
    };
    assert!(idx.get(&"B".to_string(), Some(&wrong_arch)).is_none());

    // Matching architecture and a satisfied bound.
    let fits = VersionConstraint {
        name: "B".to_string(),
        architecture: Some(Architecture::Arm64),
        relation: Some(Relation::GreaterOrEqual),
        version: Some("1.0".to_string()),
    };
    assert!(idx.get(&"B".to_string(), Some(&fits)).is_some());

    // An unsatisfied strict bound.
    let too_new = VersionConstraint {
        name: "B".to_string(),
        architecture: None,
        relation: Some(Relation::GreaterThan),
        version: Some("1.5".to_string()),
    };
    assert!(idx.get(&"B".to_string(), Some(&too_new)).is_none());
}

#[test]
fn lookup_prefers_highest_version() {
    let idx = package_index(
        &["A"],
        vec![
            entry("A", "1.0", vec![], None),
            entry("A", "3.0", vec![], None),
            entry("A", "2.0", vec![], None),
        ],
    );
    let pos = idx.get(&"A".to_string(), None).expect("A resolves");
    assert_eq!(idx.entries[pos].version, "3.0");
}

#[test]
fn source_lookup_requires_exact_version() {
    let idx = source_index(
        &["s"],
        vec![source_entry("s", "1.0", &[]), source_entry("s", "2.0", &[])],
    );
    assert!(idx.get(&"s".to_string(), Some(Relation::Exact), Some(&"2.0".to_string())).is_some());
    assert!(idx.get(&"s".to_string(), Some(Relation::Exact), Some(&"3.0".to_string())).is_none());
}
