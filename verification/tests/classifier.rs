use upstream_seed::project::{
    classify, get, list_for_user, Classification, Delegate, Error, Failure, Metadata, Partial,
    Peer, ProjectDocument, ProjectScan, Projects, Refs, RefsQuery, Stats, StatsQuery, Status,
    UserProject,
};
use upstream_seed::{PeerId, Urn};

fn urn(s: &str) -> Urn {
    Urn::new(String::from(s))
}

fn doc(id: &str, name: &str, branch: Option<&str>) -> ProjectDocument {
    ProjectDocument {
        urn: urn(id),
        name: String::from(name),
        description: Some(String::from("a project")),
        default_branch: branch.map(String::from),
        delegates: vec![],
    }
}

fn stats(commits: usize) -> Stats {
    Stats { commits, branches: 1, contributors: 1 }
}

#[test]
fn metadata_from_document_carries_fields_over() {
    let m = Metadata::try_from(doc("p", "name", Some("main"))).unwrap();
    assert_eq!(m.name, "name");
    assert_eq!(m.description, "a project");
    assert_eq!(m.default_branch, "main");
    assert!(m.maintainers.is_empty());
}

#[test]
fn metadata_without_default_branch_is_rejected() {
    let e = Metadata::try_from(doc("p", "name", None)).unwrap_err();
    assert_eq!(e, Error::MissingDefaultBranch);
}

#[test]
fn metadata_missing_description_becomes_empty_string() {
    let mut d = doc("p", "name", Some("main"));
    d.description = None;
    let m = Metadata::try_from(d).unwrap();
    assert_eq!(m.description, "");
}

#[test]
fn metadata_maintainers_keep_first_appearance_and_drop_duplicates() {
    let mut d = doc("p", "name", Some("main"));
    d.delegates = vec![
        Delegate::Person(urn("alice")),
        Delegate::Key(PeerId::new(String::from("key1"))),
        Delegate::Person(urn("bob")),
        Delegate::Person(urn("alice")),
    ];
    let m = Metadata::try_from(d).unwrap();
    assert_eq!(m.maintainers, vec![urn("alice"), urn("bob")]);
}

#[test]
fn fulfill_upgrades_partial_without_changing_identity() {
    let p = Partial::try_from(doc("p", "name", Some("main"))).unwrap();
    let f = p.fulfill(stats(7));
    assert_eq!(f.urn, urn("p"));
    assert_eq!(f.metadata.name, "name");
    assert_eq!(f.metadata.default_branch, "main");
    assert_eq!(f.stats.commits, 7);
}

#[test]
fn classify_records_each_failed_stage() {
    let p1 = Partial::try_from(doc("p1", "one", Some("main"))).unwrap();
    match classify(p1, ProjectScan::NoDefaultBranch) {
        Classification::AsFailed(Failure::DefaultBranch(p)) => assert_eq!(p.urn, urn("p1")),
        _ => panic!("expected a default-branch failure"),
    }
    let p2 = Partial::try_from(doc("p2", "two", Some("main"))).unwrap();
    match classify(p2, ProjectScan::NoStats) {
        Classification::AsFailed(Failure::Stats(p)) => assert_eq!(p.urn, urn("p2")),
        _ => panic!("expected a stats failure"),
    }
    let p3 = Partial::try_from(doc("p3", "three", Some("main"))).unwrap();
    match classify(p3, ProjectScan::Scanned(stats(1), RefsQuery::Failed)) {
        Classification::AsFailed(Failure::SignedRefs(f)) => {
            assert_eq!(f.urn, urn("p3"));
            assert_eq!(f.stats.commits, 1);
        },
        _ => panic!("expected a signed-refs failure"),
    }
}

#[test]
fn classify_calls_project_with_branch_heads_contributed() {
    let p = Partial::try_from(doc("p", "name", Some("main"))).unwrap();
    let refs = Refs { heads: vec![String::from("main")] };
    match classify(p, ProjectScan::Scanned(stats(3), RefsQuery::Loaded(Some(refs)))) {
        Classification::AsContributed(f) => assert_eq!(f.urn, urn("p")),
        _ => panic!("expected contributed"),
    }
}

#[test]
fn classify_calls_project_without_heads_tracked() {
    let p = Partial::try_from(doc("p", "name", Some("main"))).unwrap();
    let refs = Refs { heads: vec![] };
    match classify(p, ProjectScan::Scanned(stats(3), RefsQuery::Loaded(Some(refs)))) {
        Classification::AsTracked(t) => assert_eq!(t.0.urn, urn("p")),
        _ => panic!("expected tracked"),
    }
    let p = Partial::try_from(doc("q", "name", Some("main"))).unwrap();
    match classify(p, ProjectScan::Scanned(stats(3), RefsQuery::Loaded(None))) {
        Classification::AsTracked(t) => assert_eq!(t.0.urn, urn("q")),
        _ => panic!("expected tracked"),
    }
}

fn scanned(d: ProjectDocument, scan: ProjectScan) -> upstream_seed::project::ScannedProject {
    upstream_seed::project::ScannedProject { doc: d, scan }
}

#[test]
fn list_partitions_three_projects_by_their_scans() {
    // One project with no default branch, one fully resolved with empty
    // refs, one fully resolved with a branch head: exactly one failure,
    // one tracked, one contributed.
    let items = vec![
        scanned(doc("p1", "one", Some("main")), ProjectScan::NoDefaultBranch),
        scanned(
            doc("p2", "two", Some("main")),
            ProjectScan::Scanned(stats(2), RefsQuery::Loaded(Some(Refs { heads: vec![] }))),
        ),
        scanned(
            doc("p3", "three", Some("main")),
            ProjectScan::Scanned(
                stats(3),
                RefsQuery::Loaded(Some(Refs { heads: vec![String::from("main")] })),
            ),
        ),
    ];
    let p = Projects::list(items).unwrap();
    assert_eq!(p.failures.len(), 1);
    match &p.failures[0] {
        Failure::DefaultBranch(partial) => assert_eq!(partial.urn, urn("p1")),
        _ => panic!("expected a default-branch failure"),
    }
    assert_eq!(p.tracked_projects.len(), 1);
    assert_eq!(p.tracked_projects[0].0.urn, urn("p2"));
    assert_eq!(p.contributed.len(), 1);
    assert_eq!(p.contributed[0].urn, urn("p3"));
}

#[test]
fn list_aborts_on_malformed_document() {
    let items = vec![
        scanned(doc("ok", "one", Some("main")), ProjectScan::NoDefaultBranch),
        scanned(doc("bad", "two", None), ProjectScan::NoDefaultBranch),
    ];
    assert_eq!(Projects::list(items).unwrap_err(), Error::MissingDefaultBranch);
}

#[test]
fn list_of_nothing_is_empty() {
    let p = Projects::list(vec![]).unwrap();
    assert!(p.tracked_projects.is_empty());
    assert!(p.contributed.is_empty());
    assert!(p.failures.is_empty());
}

#[test]
fn every_listed_project_lands_in_exactly_one_list() {
    let items = vec![
        scanned(doc("a", "a", Some("m")), ProjectScan::NoStats),
        scanned(
            doc("b", "b", Some("m")),
            ProjectScan::Scanned(stats(1), RefsQuery::Loaded(None)),
        ),
        scanned(doc("c", "c", Some("m")), ProjectScan::Scanned(stats(2), RefsQuery::Failed)),
        scanned(
            doc("d", "d", Some("m")),
            ProjectScan::Scanned(
                stats(3),
                RefsQuery::Loaded(Some(Refs { heads: vec![String::from("x")] })),
            ),
        ),
    ];
    let p = Projects::list(items).unwrap();
    assert_eq!(
        p.tracked_projects.len() + p.contributed.len() + p.failures.len(),
        4
    );
}

#[test]
fn get_reports_each_failure_in_pipeline_order() {
    assert_eq!(get(None, StatsQuery::Found(stats(1))).unwrap_err(), Error::ProjectNotFound);
    assert_eq!(
        get(Some(doc("p", "n", Some("main"))), StatsQuery::NoBranch).unwrap_err(),
        Error::DefaultBranchLookup
    );
    assert_eq!(
        get(Some(doc("p", "n", Some("main"))), StatsQuery::NoStats).unwrap_err(),
        Error::StatsLookup
    );
    assert_eq!(
        get(Some(doc("p", "n", None)), StatsQuery::Found(stats(1))).unwrap_err(),
        Error::MissingDefaultBranch
    );
    let f = get(Some(doc("p", "n", Some("main"))), StatsQuery::Found(stats(9))).unwrap();
    assert_eq!(f.urn, urn("p"));
    assert_eq!(f.stats.commits, 9);
}

#[test]
fn replicated_remote_filters_locals_and_unreplicated() {
    let local = Peer::Local {
        peer_id: PeerId::new(String::from("me")),
        status: Status::Replicated(urn("me-user")),
    };
    assert!(local.replicated_remote().is_none());
    let empty = Peer::Remote {
        peer_id: PeerId::new(String::from("other")),
        status: Status::NotReplicated,
    };
    assert!(empty.replicated_remote().is_none());
    let full = Peer::Remote {
        peer_id: PeerId::new(String::from("other")),
        status: Status::Replicated(urn("them")),
    };
    let (pid, u) = full.replicated_remote().unwrap();
    assert_eq!(pid.id, "other");
    assert_eq!(u, urn("them"));
}

fn remote(peer: &str, user: &str) -> Peer {
    Peer::Remote {
        peer_id: PeerId::new(String::from(peer)),
        status: Status::Replicated(urn(user)),
    }
}

#[test]
fn list_for_user_keeps_only_projects_the_user_replicated() {
    let items = vec![
        UserProject {
            doc: doc("p1", "one", Some("main")),
            peers: vec![remote("peer-a", "alice")],
            stats: StatsQuery::Found(stats(1)),
        },
        UserProject {
            doc: doc("p2", "two", Some("main")),
            peers: vec![remote("peer-b", "bob")],
            stats: StatsQuery::Found(stats(2)),
        },
        UserProject {
            doc: doc("p3", "three", Some("main")),
            peers: vec![remote("peer-c", "carol"), remote("peer-a", "alice")],
            stats: StatsQuery::Found(stats(3)),
        },
    ];
    let v = list_for_user(&urn("alice"), items).unwrap();
    assert_eq!(v.len(), 2);
    assert_eq!(v[0].urn, urn("p1"));
    assert_eq!(v[1].urn, urn("p3"));
}

#[test]
fn list_for_user_propagates_the_first_failure_of_a_matched_project() {
    let items = vec![
        UserProject {
            doc: doc("p1", "one", Some("main")),
            peers: vec![remote("peer-b", "bob")],
            stats: StatsQuery::NoBranch,
        },
        UserProject {
            doc: doc("p2", "two", Some("main")),
            peers: vec![remote("peer-a", "alice")],
            stats: StatsQuery::NoStats,
        },
    ];
    // The first entry is not alice's, so its failed lookup is irrelevant;
    // the second is hers and fails on the statistics.
    assert_eq!(list_for_user(&urn("alice"), items).unwrap_err(), Error::StatsLookup);
}

#[test]
fn iteration_yields_contributed_before_tracked() {
    let items = vec![
        scanned(
            doc("t1", "t1", Some("m")),
            ProjectScan::Scanned(stats(1), RefsQuery::Loaded(None)),
        ),
        scanned(
            doc("c1", "c1", Some("m")),
            ProjectScan::Scanned(
                stats(2),
                RefsQuery::Loaded(Some(Refs { heads: vec![String::from("x")] })),
            ),
        ),
        scanned(
            doc("t2", "t2", Some("m")),
            ProjectScan::Scanned(stats(3), RefsQuery::Loaded(None)),
        ),
    ];
    let p = Projects::list(items).unwrap();

    let mut it = p.iter();
    let mut seen: Vec<Urn> = Vec::new();
    while let Some(f) = it.next() {
        seen.push(f.urn.clone());
    }
    assert_eq!(seen, vec![urn("c1"), urn("t1"), urn("t2")]);

    let mut it = p.into_iter();
    let mut seen: Vec<Urn> = Vec::new();
    while let Some(f) = it.next() {
        seen.push(f.urn);
    }
    assert_eq!(seen, vec![urn("c1"), urn("t1"), urn("t2")]);
}
