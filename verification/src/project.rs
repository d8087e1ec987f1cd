//! Projects held by the local peer, and their classification.
//!
//! A locally held project is either *tracked* (replicated from the network,
//! never locally advanced) or *contributed* (locally advanced or authored).
//! The classifier works through a pipeline per project: convert the
//! identity document into metadata, resolve the default branch, fetch
//! statistics, load the signed refs, and finally decide the class.  Each
//! stage past the first may fail for one project without disturbing the
//! others; such a project is set aside with whatever was obtained so far.
//!
//! The lookups themselves (branch, statistics, signed refs) are queries to
//! the peer's storage and run outside; the functions here take their
//! outcomes as values and make every decision that follows from them.

use vstd::prelude::*;

use vstd::multiset::Multiset;

use crate::PeerId;
use crate::Urn;

verus! {

/// Errors of the classification pipeline that abort a whole call.
#[derive(Clone, Copy, Debug, PartialEq, Eq, Structural)]
pub enum Error {
    /// A project's identity document names no default branch.
    MissingDefaultBranch,
    /// The requested project is not in the local store.
    ProjectNotFound,
    /// The default branch could not be resolved from storage.
    DefaultBranchLookup,
    /// The statistics for a branch could not be fetched.
    StatsLookup,
}

/// High-level statistics of a project's repository, supplied by the
/// storage layer.
#[derive(Clone, Copy, Debug, PartialEq, Eq, Structural)]
pub struct Stats {
    /// Number of commits on the default branch.
    pub commits: usize,
    /// Number of branches.
    pub branches: usize,
    /// Number of distinct contributors.
    pub contributors: usize,
}

/// One entry of a project's delegation list: either a bare signing key or
/// a person identity known by its own identifier.
pub enum Delegate {
    /// A directly delegating key, not resolvable to a person.
    Key(PeerId),
    /// An indirect delegation to a person identity.
    Person(Urn),
}

/// What the identity layer hands over for one project: the fields of its
/// signed identity document that the classification reads.
pub struct ProjectDocument {
    /// Unique identifier of the project.
    pub urn: Urn,
    /// Project name.
    pub name: String,
    /// Optional human-readable description.
    pub description: Option<String>,
    /// Default branch named by the document, if any.
    pub default_branch: Option<String>,
    /// The document's delegations, in document order.
    pub delegates: Vec<Delegate>,
}

/// Object encapsulating project metadata.
#[derive(Debug)]
pub struct Metadata {
    /// Project name.
    pub name: String,
    /// High-level description of the project.
    pub description: String,
    /// Default branch for checkouts, often used as mainline as well.
    pub default_branch: String,
    /// Maintainers: the person identities among the delegations, each
    /// listed once, in order of first appearance.
    pub maintainers: Vec<Urn>,
}

/// Whether some identifier in `s` has the textual form `v`.
pub open spec fn contains_urn(s: Seq<Urn>, v: Seq<char>) -> bool {
    exists|i: int| 0 <= i < s.len() && s[i]@ == v
}

/// The person identities among a delegation list, in order.
pub open spec fn person_urns(ds: Seq<Delegate>) -> Seq<Urn>
    decreases ds.len(),
{
    if ds.len() == 0 {
        Seq::<Urn>::empty()
    } else {
        let rest = person_urns(ds.drop_last());
        match ds.last() {
            Delegate::Person(u) => rest.push(u),
            Delegate::Key(_) => rest,
        }
    }
}

/// The same identifiers with textual duplicates removed, keeping the first
/// appearance of each.
pub open spec fn dedup_urns(s: Seq<Urn>) -> Seq<Urn>
    decreases s.len(),
{
    if s.len() == 0 {
        s
    } else {
        let d = dedup_urns(s.drop_last());
        if contains_urn(d, s.last()@) {
            d
        } else {
            d.push(s.last())
        }
    }
}

/// `m` is the metadata of `doc`: name and default branch carried over, a
/// missing description replaced by the empty string, and the maintainers
/// the deduplicated person delegations.
pub open spec fn metadata_for(m: Metadata, doc: ProjectDocument) -> bool {
    &&& m.name == doc.name
    &&& match doc.description {
        Option::Some(d) => m.description == d,
        Option::None => m.description@ == Seq::<char>::empty(),
    }
    &&& match doc.default_branch {
        Option::Some(b) => m.default_branch == b,
        Option::None => false,
    }
    &&& m.maintainers@ == dedup_urns(person_urns(doc.delegates@))
}

impl Metadata {
    /// Convert an identity document into metadata.
    ///
    /// Fails exactly when the document names no default branch; such a
    /// document is malformed and not locally recoverable.
    pub fn try_from(doc: ProjectDocument) -> (r: Result<Metadata, Error>)
        ensures
            match r {
                Ok(m) => doc.default_branch is Some && metadata_for(m, doc),
                Err(e) => doc.default_branch is None && e == Error::MissingDefaultBranch,
            },
    {
        let ghost ds = doc.delegates@;
        match doc.default_branch {
            None => Err(Error::MissingDefaultBranch),
            Some(branch) => {
                let mut maintainers: Vec<Urn> = Vec::new();
                let mut i: usize = 0;
                while i < doc.delegates.len()
                    invariant
                        i <= ds.len(),
                        doc.delegates@ == ds,
                        maintainers@ == dedup_urns(person_urns(ds.take(i as int))),
                    decreases ds.len() - i,
                {
                    let ghost before = maintainers@;
                    match &doc.delegates[i] {
                        Delegate::Key(_) => {},
                        Delegate::Person(u) => {
                            let mut found: bool = false;
                            let mut j: usize = 0;
                            while j < maintainers.len()
                                invariant
                                    j <= maintainers@.len(),
                                    maintainers@ == before,
                                    found <==> contains_urn(before.take(j as int), u@),
                                decreases maintainers@.len() - j,
                            {
                                let ghost tj = before.take(j as int);
                                let hit = maintainers[j] == *u;
                                proof {
                                    let t2 = before.take(j as int + 1);
                                    assert(t2 =~= tj.push(before[j as int]));
                                    if found {
                                        let k = choose|k: int|
                                            0 <= k < tj.len() && tj[k]@ == u@;
                                        assert(t2[k]@ == u@);
                                        assert(contains_urn(t2, u@));
                                    } else if hit {
                                        assert(t2[j as int]@ == u@);
                                        assert(contains_urn(t2, u@));
                                    } else {
                                        assert(!contains_urn(t2, u@)) by {
                                            if contains_urn(t2, u@) {
                                                let k = choose|k: int|
                                                    0 <= k < t2.len() && t2[k]@ == u@;
                                                if k < j {
                                                    assert(tj[k]@ == u@);
                                                    assert(contains_urn(tj, u@));
                                                } else {
                                                    assert(before[j as int]@ == u@);
                                                }
                                            }
                                        }
                                    }
                                }
                                if hit {
                                    found = true;
                                }
                                j = j + 1;
                            }
                            proof {
                                assert(before.take(maintainers@.len() as int) =~= before);
                            }
                            if !found {
                                maintainers.push(u.clone());
                            }
                        },
                    }
                    i = i + 1;
                    proof {
                        let t1 = ds.take(i as int);
                        assert(t1.drop_last() =~= ds.take(i - 1));
                        assert(t1.last() == ds[i - 1]);
                        match ds[i - 1] {
                            Delegate::Person(u) => {
                                assert(person_urns(t1) == person_urns(ds.take(i - 1)).push(u));
                                assert(person_urns(t1).drop_last() =~= person_urns(
                                    ds.take(i - 1),
                                ));
                            },
                            Delegate::Key(_) => {
                                assert(person_urns(t1) == person_urns(ds.take(i - 1)));
                            },
                        }
                    }
                }
                proof {
                    assert(ds.take(ds.len() as int) =~= ds);
                }
                Ok(
                    Metadata {
                        name: doc.name,
                        description: match doc.description {
                            Some(d) => d,
                            None => String::new(),
                        },
                        default_branch: branch,
                        maintainers,
                    },
                )
            },
        }
    }
}

/// Radicle project for sharing and collaborating, with statistics of type
/// `S`: not yet obtained for a [`Partial`] project, present for a [`Full`]
/// one.
#[derive(Debug)]
pub struct Project<S> {
    /// Unique identifier of the project in the network.
    pub urn: Urn,
    /// Attached metadata, mostly for human pleasure.
    pub metadata: Metadata,
    /// High-level statistics about the project.
    pub stats: S,
}

/// A project whose statistics could not (or not yet) be fetched.
pub type Partial = Project<()>;

/// A project whose statistics were fetched.
pub type Full = Project<Stats>;

/// `p` is the partial project of `doc`.
pub open spec fn partial_for(p: Partial, doc: ProjectDocument) -> bool {
    &&& p.urn == doc.urn
    &&& metadata_for(p.metadata, doc)
}

/// `f` is the full project of `doc` with statistics `stats`.
pub open spec fn full_for(f: Full, doc: ProjectDocument, stats: Stats) -> bool {
    &&& f.urn == doc.urn
    &&& metadata_for(f.metadata, doc)
    &&& f.stats == stats
}

impl Partial {
    /// Upgrade a partial project into a full one by providing its
    /// statistics.  The upgrade is pure and one-way: identifier and
    /// metadata are carried over unchanged, and nothing turns a full
    /// project back into a partial one.
    pub fn fulfill(self, stats: Stats) -> (r: Full)
        ensures
            r.urn == self.urn,
            r.metadata == self.metadata,
            r.stats == stats,
    {
        Project { urn: self.urn, metadata: self.metadata, stats }
    }

    /// Build a partial project from an identity document.  Fails exactly
    /// when the document names no default branch.
    pub fn try_from(doc: ProjectDocument) -> (r: Result<Partial, Error>)
        ensures
            match r {
                Ok(p) => doc.default_branch is Some && partial_for(p, doc),
                Err(e) => doc.default_branch is None && e == Error::MissingDefaultBranch,
            },
    {
        let urn = doc.urn.clone();
        match Metadata::try_from(doc) {
            Ok(metadata) => Ok(Project { urn, metadata, stats: () }),
            Err(e) => Err(e),
        }
    }
}

impl Full {
    /// Build a full project from an identity document and its statistics.
    /// Fails exactly when the document names no default branch.
    pub fn try_from(doc: ProjectDocument, stats: Stats) -> (r: Result<Full, Error>)
        ensures
            match r {
                Ok(f) => doc.default_branch is Some && full_for(f, doc, stats),
                Err(e) => doc.default_branch is None && e == Error::MissingDefaultBranch,
            },
    {
        match Partial::try_from(doc) {
            Ok(partial) => Ok(partial.fulfill(stats)),
            Err(e) => Err(e),
        }
    }
}

/// A project replicated onto this device but never locally advanced.
#[derive(Debug)]
pub struct TrackedProject(pub Full);

impl TrackedProject {
    /// The underlying full project.
    pub fn project(&self) -> (r: &Full)
        ensures
            *r == self.0,
    {
        &self.0
    }
}

/// Partial failures that occur when getting the list of projects: which
/// pipeline stage failed, with whatever data was obtained up to there.
#[derive(Debug)]
pub enum Failure {
    /// We couldn't get a default branch for the project.
    DefaultBranch(Partial),
    /// We couldn't get the stats for the project.
    Stats(Partial),
    /// We couldn't get the signed refs of the project, and so we can't
    /// determine whether it is tracked or contributed.
    SignedRefs(Full),
}

/// Cryptographically attested branch pointers that the local peer
/// publishes for a project.  Local branch heads mean local contribution.
pub struct Refs {
    /// Names of the attested branch heads.
    pub heads: Vec<String>,
}

/// Outcome of loading a project's signed refs from storage.
pub enum RefsQuery {
    /// The load failed.
    Failed,
    /// The load succeeded; the peer may or may not publish refs at all.
    Loaded(Option<Refs>),
}

/// Outcomes of the storage queries for one enumerated project, in pipeline
/// order: default branch, then statistics, then signed refs.  A failed
/// stage ends the pipeline, so nothing past it was queried.
pub enum ProjectScan {
    /// The default branch could not be resolved.
    NoDefaultBranch,
    /// The branch resolved but its statistics could not be fetched.
    NoStats,
    /// Statistics were fetched; the signed-refs load went as recorded.
    Scanned(Stats, RefsQuery),
}

/// One enumerated project together with what its storage queries yielded.
pub struct ScannedProject {
    /// The project's identity document.
    pub doc: ProjectDocument,
    /// What the storage queries for this project yielded.
    pub scan: ProjectScan,
}

/// The three classes a scanned project can fall into.
pub enum Class {
    /// Replicated, no local contribution.
    IsTracked,
    /// Locally advanced or authored.
    IsContributed,
    /// A pipeline stage failed for this project.
    IsFailed,
}

/// The class that a scan decides: a project with no signed refs, or signed
/// refs without a single branch head, is merely tracked; one with a branch
/// head is contributed; a failed stage sets the project aside.
pub open spec fn class_of(scan: ProjectScan) -> Class {
    match scan {
        ProjectScan::NoDefaultBranch => Class::IsFailed,
        ProjectScan::NoStats => Class::IsFailed,
        ProjectScan::Scanned(_, RefsQuery::Failed) => Class::IsFailed,
        ProjectScan::Scanned(_, RefsQuery::Loaded(None)) => Class::IsTracked,
        ProjectScan::Scanned(_, RefsQuery::Loaded(Some(refs))) => if refs.heads@.len() == 0 {
            Class::IsTracked
        } else {
            Class::IsContributed
        },
    }
}

/// The result of classifying one project.
pub enum Classification {
    /// The project is tracked.
    AsTracked(TrackedProject),
    /// The project is contributed.
    AsContributed(Full),
    /// A pipeline stage failed.
    AsFailed(Failure),
}

/// Classify one project from its partial form and its scan outcomes,
/// upgrading to a full project where the statistics arrived.
pub fn classify(partial: Partial, scan: ProjectScan) -> (c: Classification)
    ensures
        match c {
            Classification::AsTracked(t) => {
                &&& class_of(scan) == Class::IsTracked
                &&& t.0.urn == partial.urn
                &&& t.0.metadata == partial.metadata
                &&& scan matches ProjectScan::Scanned(stats, _) && t.0.stats == stats
            },
            Classification::AsContributed(f) => {
                &&& class_of(scan) == Class::IsContributed
                &&& f.urn == partial.urn
                &&& f.metadata == partial.metadata
                &&& scan matches ProjectScan::Scanned(stats, _) && f.stats == stats
            },
            Classification::AsFailed(fl) => {
                &&& class_of(scan) == Class::IsFailed
                &&& match fl {
                    Failure::DefaultBranch(p) => scan is NoDefaultBranch && p == partial,
                    Failure::Stats(p) => scan is NoStats && p == partial,
                    Failure::SignedRefs(f) => {
                        &&& scan matches ProjectScan::Scanned(stats, RefsQuery::Failed)
                        &&& f.urn == partial.urn
                        &&& f.metadata == partial.metadata
                        &&& f.stats == stats
                    },
                }
            },
        },
{
    match scan {
        ProjectScan::NoDefaultBranch => Classification::AsFailed(Failure::DefaultBranch(partial)),
        ProjectScan::NoStats => Classification::AsFailed(Failure::Stats(partial)),
        ProjectScan::Scanned(stats, refs) => {
            let full = partial.fulfill(stats);
            match refs {
                RefsQuery::Failed => Classification::AsFailed(Failure::SignedRefs(full)),
                RefsQuery::Loaded(None) => Classification::AsTracked(TrackedProject(full)),
                RefsQuery::Loaded(Some(refs)) => {
                    if refs.heads.len() == 0 {
                        Classification::AsTracked(TrackedProject(full))
                    } else {
                        Classification::AsContributed(full)
                    }
                },
            }
        },
    }
}

/// All projects contained in a user's monorepo, partitioned by class.
#[derive(Debug)]
pub struct Projects {
    /// Projects replicated onto this device and never locally advanced.
    pub tracked_projects: Vec<TrackedProject>,
    /// Projects created here, or replicated and locally advanced.
    pub contributed: Vec<Full>,
    /// Projects for which a pipeline stage failed.
    pub failures: Vec<Failure>,
}

/// How many of the first `upto` items fall into class `c`.
pub open spec fn count_class(items: Seq<ScannedProject>, c: Class, upto: int) -> int
    decreases upto,
{
    if upto <= 0 {
        0
    } else {
        count_class(items, c, upto - 1) + if class_of(items[upto - 1].scan) == c {
            1int
        } else {
            0int
        }
    }
}

/// `t` is the tracked entry for `item`.
pub open spec fn tracked_for(t: TrackedProject, item: ScannedProject) -> bool {
    &&& class_of(item.scan) == Class::IsTracked
    &&& item.scan matches ProjectScan::Scanned(stats, _) && full_for(t.0, item.doc, stats)
}

/// `f` is the contributed entry for `item`.
pub open spec fn contributed_for(f: Full, item: ScannedProject) -> bool {
    &&& class_of(item.scan) == Class::IsContributed
    &&& item.scan matches ProjectScan::Scanned(stats, _) && full_for(f, item.doc, stats)
}

/// `fl` is the failure entry for `item`: the variant names the stage that
/// failed, and the payload preserves what was obtained before it.
pub open spec fn failure_for(fl: Failure, item: ScannedProject) -> bool {
    match fl {
        Failure::DefaultBranch(p) => item.scan is NoDefaultBranch && partial_for(p, item.doc),
        Failure::Stats(p) => item.scan is NoStats && partial_for(p, item.doc),
        Failure::SignedRefs(f) => item.scan matches ProjectScan::Scanned(stats, RefsQuery::Failed)
            && full_for(f, item.doc, stats),
    }
}

/// Counts never go below zero.
pub proof fn lemma_count_nonneg(items: Seq<ScannedProject>, c: Class, n: int)
    ensures
        count_class(items, c, n) >= 0,
    decreases n,
{
    if n > 0 {
        lemma_count_nonneg(items, c, n - 1);
    }
}

/// Counts grow with the prefix.
pub proof fn lemma_count_mono(items: Seq<ScannedProject>, c: Class, a: int, b: int)
    requires
        a <= b,
    ensures
        count_class(items, c, a) <= count_class(items, c, b),
    decreases b - a,
{
    if a < b {
        lemma_count_mono(items, c, a, b - 1);
    }
}

/// Every enumerated document names a default branch.
pub open spec fn docs_have_branch(items: Seq<ScannedProject>) -> bool {
    forall|i: int|
        0 <= i < items.len() ==> (#[trigger] items[i].doc.default_branch) is Some
}

/// Item `i` stands in the list its class dictates, at the position given
/// by how many earlier items share that class.
pub open spec fn item_placed(
    tracked_projects: Seq<TrackedProject>,
    contributed: Seq<Full>,
    failures: Seq<Failure>,
    items: Seq<ScannedProject>,
    i: int,
) -> bool {
    match class_of(items[i].scan) {
        Class::IsTracked => tracked_for(
            tracked_projects[count_class(items, Class::IsTracked, i)],
            items[i],
        ),
        Class::IsContributed => contributed_for(
            contributed[count_class(items, Class::IsContributed, i)],
            items[i],
        ),
        Class::IsFailed => failure_for(failures[count_class(items, Class::IsFailed, i)], items[i]),
    }
}

/// The three lists partition the first `n` items: each list is exactly as
/// long as its class is frequent, and every item stands in the list its
/// class dictates, in enumeration order.
pub open spec fn partition_upto(
    tracked_projects: Seq<TrackedProject>,
    contributed: Seq<Full>,
    failures: Seq<Failure>,
    items: Seq<ScannedProject>,
    n: int,
) -> bool {
    &&& tracked_projects.len() == count_class(items, Class::IsTracked, n)
    &&& contributed.len() == count_class(items, Class::IsContributed, n)
    &&& failures.len() == count_class(items, Class::IsFailed, n)
    &&& forall|i: int|
        0 <= i < n ==> #[trigger] item_placed(tracked_projects, contributed, failures, items, i)
}

impl Projects {
    /// List all the projects that are located on your device, classified.
    ///
    /// Takes one entry per project the peer enumerates, in enumeration
    /// order, each carrying the identity document and what the storage
    /// queries yielded.  A malformed document (no default branch) aborts
    /// the whole listing; every later failure is recorded for its own
    /// project alone and the listing goes on.
    #[verifier::loop_isolation(false)]
    pub fn list(items: Vec<ScannedProject>) -> (r: Result<Projects, Error>)
        ensures
            match r {
                Ok(p) => {
                    &&& docs_have_branch(items@)
                    &&& partition_upto(
                        p.tracked_projects@,
                        p.contributed@,
                        p.failures@,
                        items@,
                        items@.len() as int,
                    )
                },
                Err(e) => {
                    &&& e == Error::MissingDefaultBranch
                    &&& !docs_have_branch(items@)
                },
            },
    {
        let ghost all = items@;
        let mut remaining = items;
        let mut projects = Projects { tracked_projects: Vec::new(), contributed: Vec::new(), failures: Vec::new() };
        let ghost mut k: int = 0;
        while remaining.len() > 0
            invariant
                0 <= k <= all.len(),
                remaining@ == all.skip(k),
                partition_upto(projects.tracked_projects@, projects.contributed@, projects.failures@, all, k),
                forall|i: int| 0 <= i < k ==> (#[trigger] all[i].doc.default_branch) is Some,
            decreases remaining@.len(),
        {
            let ghost tr0 = projects.tracked_projects@;
            let ghost co0 = projects.contributed@;
            let ghost fa0 = projects.failures@;
            let it = remaining.remove(0);
            proof {
                assert(all.skip(k)[0] == all[k]);
                assert(all.skip(k).remove(0) =~= all.skip(k + 1));
            }
            let ScannedProject { doc, scan } = it;
            proof {
                assert(doc == all[k].doc);
            }
            match Partial::try_from(doc) {
                Err(e) => {
                    proof {
                        assert(0 <= k < all.len() && all[k].doc.default_branch is None);
                        assert(!docs_have_branch(all));
                    }
                    return Err(e);
                },
                Ok(partial) => {
                    match classify(partial, scan) {
                        Classification::AsTracked(t) => projects.tracked_projects.push(t),
                        Classification::AsContributed(f) => projects.contributed.push(f),
                        Classification::AsFailed(fl) => projects.failures.push(fl),
                    }
                },
            }
            proof {
                k = k + 1;
                assert(item_placed(
                    projects.tracked_projects@,
                    projects.contributed@,
                    projects.failures@,
                    all,
                    k - 1,
                ));
                assert forall|i: int| 0 <= i < k - 1 implies #[trigger] item_placed(
                    projects.tracked_projects@,
                    projects.contributed@,
                    projects.failures@,
                    all,
                    i,
                ) by {
                    assert(item_placed(tr0, co0, fa0, all, i));
                    let c2 = class_of(all[i].scan);
                    lemma_count_nonneg(all, c2, i);
                    lemma_count_mono(all, c2, i + 1, k - 1);
                }
            }
        }
        proof {
            assert(all.skip(k).len() == 0);
            assert(docs_have_branch(all));
        }
        Ok(projects)
    }
}

/// The identifier a failure entry preserves.
pub open spec fn failure_urn(fl: Failure) -> Urn {
    match fl {
        Failure::DefaultBranch(p) => p.urn,
        Failure::Stats(p) => p.urn,
        Failure::SignedRefs(f) => f.urn,
    }
}

/// The identifiers of a sequence of tracked entries.
pub open spec fn tracked_urns(s: Seq<TrackedProject>) -> Seq<Urn> {
    s.map_values(|t: TrackedProject| t.0.urn)
}

/// The identifiers of a sequence of contributed entries.
pub open spec fn contributed_urns(s: Seq<Full>) -> Seq<Urn> {
    s.map_values(|f: Full| f.urn)
}

/// The identifiers of a sequence of failure entries.
pub open spec fn failure_urns(s: Seq<Failure>) -> Seq<Urn> {
    s.map_values(|fl: Failure| failure_urn(fl))
}

/// The identifiers of the enumerated projects.
pub open spec fn item_urns(items: Seq<ScannedProject>) -> Seq<Urn> {
    items.map_values(|it: ScannedProject| it.doc.urn)
}

/// Every item has exactly one class, so the three counts exhaust the
/// prefix.
pub proof fn lemma_count_sum(items: Seq<ScannedProject>, n: int)
    requires
        0 <= n,
    ensures
        count_class(items, Class::IsTracked, n) + count_class(items, Class::IsContributed, n)
            + count_class(items, Class::IsFailed, n) == n,
    decreases n,
{
    if n > 0 {
        lemma_count_sum(items, n - 1);
    }
}

proof fn lemma_partition_multiset_upto(
    tracked_projects: Seq<TrackedProject>,
    contributed: Seq<Full>,
    failures: Seq<Failure>,
    items: Seq<ScannedProject>,
    n: int,
)
    requires
        0 <= n <= items.len(),
        partition_upto(tracked_projects, contributed, failures, items, items.len() as int),
    ensures
        tracked_urns(tracked_projects.take(count_class(items, Class::IsTracked, n))).to_multiset()
            .add(
            contributed_urns(
                contributed.take(count_class(items, Class::IsContributed, n)),
            ).to_multiset(),
        ).add(failure_urns(failures.take(count_class(items, Class::IsFailed, n))).to_multiset())
            == item_urns(items.take(n)).to_multiset(),
    decreases n,
{
    broadcast use vstd::seq_lib::group_to_multiset_ensures;

    let ct = count_class(items, Class::IsTracked, n);
    let cc = count_class(items, Class::IsContributed, n);
    let cf = count_class(items, Class::IsFailed, n);
    lemma_count_nonneg(items, Class::IsTracked, n);
    lemma_count_nonneg(items, Class::IsContributed, n);
    lemma_count_nonneg(items, Class::IsFailed, n);
    lemma_count_mono(items, Class::IsTracked, n, items.len() as int);
    lemma_count_mono(items, Class::IsContributed, n, items.len() as int);
    lemma_count_mono(items, Class::IsFailed, n, items.len() as int);
    if n == 0 {
        assert(tracked_urns(tracked_projects.take(0)) =~= Seq::<Urn>::empty());
        assert(contributed_urns(contributed.take(0)) =~= Seq::<Urn>::empty());
        assert(failure_urns(failures.take(0)) =~= Seq::<Urn>::empty());
        assert(item_urns(items.take(0)) =~= Seq::<Urn>::empty());
        assert(Seq::<Urn>::empty().to_multiset() =~= Multiset::<Urn>::empty());
        assert(Multiset::<Urn>::empty().add(Multiset::<Urn>::empty()).add(
            Multiset::<Urn>::empty(),
        ) =~= Multiset::<Urn>::empty());
    } else {
        lemma_partition_multiset_upto(tracked_projects, contributed, failures, items, n - 1);
        let ct0 = count_class(items, Class::IsTracked, n - 1);
        let cc0 = count_class(items, Class::IsContributed, n - 1);
        let cf0 = count_class(items, Class::IsFailed, n - 1);
        lemma_count_nonneg(items, Class::IsTracked, n - 1);
        lemma_count_nonneg(items, Class::IsContributed, n - 1);
        lemma_count_nonneg(items, Class::IsFailed, n - 1);
        let u = items[n - 1].doc.urn;
        assert(item_placed(tracked_projects, contributed, failures, items, n - 1));
        assert(item_urns(items.take(n)) =~= item_urns(items.take(n - 1)).push(u));
        let mt0 = tracked_urns(tracked_projects.take(ct0)).to_multiset();
        let mc0 = contributed_urns(contributed.take(cc0)).to_multiset();
        let mf0 = failure_urns(failures.take(cf0)).to_multiset();
        match class_of(items[n - 1].scan) {
            Class::IsTracked => {
                assert(ct == ct0 + 1 && cc == cc0 && cf == cf0);
                assert(ct0 < tracked_projects.len());
                assert(tracked_projects[ct0].0.urn == u);
                tracked_projects.lemma_take_succ_push(ct0);
                assert(tracked_projects.take(ct) =~= tracked_projects.take(ct0).push(
                    tracked_projects[ct0],
                ));
                assert(tracked_urns(tracked_projects.take(ct)) =~= tracked_urns(
                    tracked_projects.take(ct0),
                ).push(u));
                assert(mt0.insert(u).add(mc0).add(mf0) =~= mt0.add(mc0).add(mf0).insert(u));
            },
            Class::IsContributed => {
                assert(cc == cc0 + 1 && ct == ct0 && cf == cf0);
                assert(cc0 < contributed.len());
                assert(contributed[cc0].urn == u);
                contributed.lemma_take_succ_push(cc0);
                assert(contributed.take(cc) =~= contributed.take(cc0).push(contributed[cc0]));
                assert(contributed_urns(contributed.take(cc)) =~= contributed_urns(
                    contributed.take(cc0),
                ).push(u));
                assert(mt0.add(mc0.insert(u)).add(mf0) =~= mt0.add(mc0).add(mf0).insert(u));
            },
            Class::IsFailed => {
                assert(cf == cf0 + 1 && ct == ct0 && cc == cc0);
                assert(cf0 < failures.len());
                assert(failure_urn(failures[cf0]) == u);
                failures.lemma_take_succ_push(cf0);
                assert(failures.take(cf) =~= failures.take(cf0).push(failures[cf0]));
                assert(failure_urns(failures.take(cf)) =~= failure_urns(failures.take(cf0)).push(
                    u,
                ));
                assert(mt0.add(mc0).add(mf0.insert(u)) =~= mt0.add(mc0).add(mf0).insert(u));
            },
        }
    }
}

/// Monotonic upgrade: a project whose statistics resolved appears in its
/// list upgraded exactly once — same identifier and metadata as its
/// document, the resolved statistics attached — and a project whose
/// statistics did not resolve is preserved partial, with no statistics
/// ever attached to it.
pub proof fn lemma_monotonic_upgrade(
    tracked_projects: Seq<TrackedProject>,
    contributed: Seq<Full>,
    failures: Seq<Failure>,
    items: Seq<ScannedProject>,
    i: int,
)
    requires
        partition_upto(tracked_projects, contributed, failures, items, items.len() as int),
        0 <= i < items.len(),
    ensures
        match items[i].scan {
            ProjectScan::Scanned(st, rq) => match rq {
                RefsQuery::Failed => failures[count_class(items, Class::IsFailed, i)] matches
                    Failure::SignedRefs(f) && full_for(f, items[i].doc, st),
                RefsQuery::Loaded(None) => full_for(
                    tracked_projects[count_class(items, Class::IsTracked, i)].0,
                    items[i].doc,
                    st,
                ),
                RefsQuery::Loaded(Some(refs)) => if refs.heads@.len() == 0 {
                    full_for(
                        tracked_projects[count_class(items, Class::IsTracked, i)].0,
                        items[i].doc,
                        st,
                    )
                } else {
                    full_for(
                        contributed[count_class(items, Class::IsContributed, i)],
                        items[i].doc,
                        st,
                    )
                },
            },
            ProjectScan::NoDefaultBranch => failures[count_class(items, Class::IsFailed, i)]
                matches Failure::DefaultBranch(p) && partial_for(p, items[i].doc),
            ProjectScan::NoStats => failures[count_class(items, Class::IsFailed, i)] matches
                Failure::Stats(p) && partial_for(p, items[i].doc),
        },
{
    assert(item_placed(tracked_projects, contributed, failures, items, i));
}

/// Exhaustive partition: every project the peer enumerates appears in
/// exactly one of the three lists.  Counting multiplicity, the
/// identifiers across `tracked`, `contributed` and `failures` together
/// are exactly the enumerated identifiers, and the three lengths add up
/// to the number of enumerated projects.
pub proof fn lemma_exhaustive_partition(
    tracked_projects: Seq<TrackedProject>,
    contributed: Seq<Full>,
    failures: Seq<Failure>,
    items: Seq<ScannedProject>,
)
    requires
        partition_upto(tracked_projects, contributed, failures, items, items.len() as int),
    ensures
        tracked_projects.len() + contributed.len() + failures.len() == items.len(),
        tracked_urns(tracked_projects).to_multiset().add(
            contributed_urns(contributed).to_multiset(),
        ).add(failure_urns(failures).to_multiset()) == item_urns(items).to_multiset(),
{
    let n = items.len() as int;
    lemma_count_sum(items, n);
    lemma_partition_multiset_upto(tracked_projects, contributed, failures, items, n);
    assert(tracked_projects.take(count_class(items, Class::IsTracked, n)) =~= tracked_projects);
    assert(contributed.take(count_class(items, Class::IsContributed, n)) =~= contributed);
    assert(failures.take(count_class(items, Class::IsFailed, n)) =~= failures);
    assert(items.take(n) =~= items);
}

/// Outcome of resolving a project's default branch and then its
/// statistics, for calls that stop at the statistics stage.
pub enum StatsQuery {
    /// The branch could not be resolved.
    NoBranch,
    /// The branch resolved but its statistics could not be fetched.
    NoStats,
    /// Both lookups succeeded.
    Found(Stats),
}

/// Fetch a single project: the local store's answer and the storage
/// queries are taken as values, and the first failure becomes a hard
/// error — a single-item lookup has no larger batch to preserve.
pub fn get(doc: Option<ProjectDocument>, stats: StatsQuery) -> (r: Result<Full, Error>)
    ensures
        match doc {
            None => r == Err::<Full, Error>(Error::ProjectNotFound),
            Some(d) => match stats {
                StatsQuery::NoBranch => r == Err::<Full, Error>(Error::DefaultBranchLookup),
                StatsQuery::NoStats => r == Err::<Full, Error>(Error::StatsLookup),
                StatsQuery::Found(st) => match r {
                    Ok(f) => d.default_branch is Some && full_for(f, d, st),
                    Err(e) => d.default_branch is None && e == Error::MissingDefaultBranch,
                },
            },
        },
{
    match doc {
        None => Err(Error::ProjectNotFound),
        Some(d) => match stats {
            StatsQuery::NoBranch => Err(Error::DefaultBranchLookup),
            StatsQuery::NoStats => Err(Error::StatsLookup),
            StatsQuery::Found(st) => Full::try_from(d, st),
        },
    }
}

/// Whether a peer has replicated a project, and through which user
/// identity.
pub enum Status {
    /// The peer is known but holds no copy.
    NotReplicated,
    /// The peer replicated the project under the given user identity.
    Replicated(Urn),
}

/// Codified relation of a peer to a project: the local peer itself or a
/// remote one, each with its replication status.
pub enum Peer {
    /// This device's own peer.
    Local {
        /// The peer's identity.
        peer_id: PeerId,
        /// Its replication status for the project at hand.
        status: Status,
    },
    /// Another participant.
    Remote {
        /// The peer's identity.
        peer_id: PeerId,
        /// Its replication status for the project at hand.
        status: Status,
    },
}

impl Peer {
    /// The identity and user of a remote peer that replicated the
    /// project; nothing for the local peer or an empty remote.
    pub open spec fn replicated_remote_spec(self) -> Option<(PeerId, Urn)> {
        match self {
            Peer::Remote { peer_id, status: Status::Replicated(u) } => Some((peer_id, u)),
            _ => None,
        }
    }

    /// Extract the remote replication, if this peer is one.
    pub fn replicated_remote(self) -> (r: Option<(PeerId, Urn)>)
        ensures
            r == self.replicated_remote_spec(),
    {
        match self {
            Peer::Remote { peer_id, status: Status::Replicated(u) } => Some((peer_id, u)),
            _ => None,
        }
    }
}

/// Whether `p` is a remote peer that replicated the project under the
/// user with textual identifier `user`.
pub open spec fn replicates_for(p: Peer, user: Seq<char>) -> bool {
    match p {
        Peer::Remote { peer_id: _, status: Status::Replicated(u) } => u@ == user,
        _ => false,
    }
}

/// Whether one of the first `upto` peers replicates for `user`.
pub open spec fn holds_upto(peers: Seq<Peer>, user: Seq<char>, upto: int) -> bool {
    exists|j: int| 0 <= j < upto && replicates_for(#[trigger] peers[j], user)
}

/// One locally known project as input to [`list_for_user`]: its document,
/// the peers tracked for it, and the branch/statistics lookups keyed to
/// the replicating peer.
pub struct UserProject {
    /// The project's identity document.
    pub doc: ProjectDocument,
    /// The peers known to track this project.
    pub peers: Vec<Peer>,
    /// Branch and statistics lookups for the replicating peer's view.
    pub stats: StatsQuery,
}

/// Whether the given user appears among the entry's replicating remotes.
pub open spec fn user_holds(entry: UserProject, user: Seq<char>) -> bool {
    holds_upto(entry.peers@, user, entry.peers@.len() as int)
}

/// An entry whose lookups all succeeded and whose document is well
/// formed.
pub open spec fn entry_good(entry: UserProject) -> bool {
    entry.stats is Found && entry.doc.default_branch is Some
}

/// The error a bad entry propagates, in pipeline order.
pub open spec fn entry_error(entry: UserProject) -> Error {
    match entry.stats {
        StatsQuery::NoBranch => Error::DefaultBranchLookup,
        StatsQuery::NoStats => Error::StatsLookup,
        StatsQuery::Found(_) => Error::MissingDefaultBranch,
    }
}

/// How many of the first `upto` entries the user replicates.
pub open spec fn count_matched(items: Seq<UserProject>, user: Seq<char>, upto: int) -> int
    decreases upto,
{
    if upto <= 0 {
        0
    } else {
        count_matched(items, user, upto - 1) + if user_holds(items[upto - 1], user) {
            1int
        } else {
            0int
        }
    }
}

proof fn lemma_matched_nonneg(items: Seq<UserProject>, user: Seq<char>, n: int)
    ensures
        count_matched(items, user, n) >= 0,
    decreases n,
{
    if n > 0 {
        lemma_matched_nonneg(items, user, n - 1);
    }
}

/// Every entry the user replicates resolved fully.
pub open spec fn all_matched_good(items: Seq<UserProject>, user: Seq<char>) -> bool {
    forall|i: int|
        0 <= i < items.len() ==> ((#[trigger] user_holds(items[i], user)) ==> entry_good(items[i]))
}

/// Entry `i`, if the user replicates it, stands in the result at the
/// position given by how many earlier entries the user replicates.
pub open spec fn matched_placed(
    v: Seq<Full>,
    items: Seq<UserProject>,
    user: Seq<char>,
    i: int,
) -> bool {
    user_holds(items[i], user) ==> match items[i].stats {
        StatsQuery::Found(st) => full_for(v[count_matched(items, user, i)], items[i].doc, st),
        _ => false,
    }
}

/// The result lists exactly the entries the user replicates, in order.
pub open spec fn listing_for_user(v: Seq<Full>, items: Seq<UserProject>, user: Seq<char>) -> bool {
    &&& v.len() == count_matched(items, user, items.len() as int)
    &&& forall|i: int| 0 <= i < items.len() ==> #[trigger] matched_placed(v, items, user, i)
}

/// The call failed on the first replicated entry whose lookups failed,
/// with that entry's error.
pub open spec fn fails_for_user(items: Seq<UserProject>, user: Seq<char>, e: Error) -> bool {
    exists|i: int|
        {
            &&& 0 <= i < items.len()
            &&& #[trigger] user_holds(items[i], user)
            &&& !entry_good(items[i])
            &&& e == entry_error(items[i])
            &&& forall|j: int|
                0 <= j < i ==> ((#[trigger] user_holds(items[j], user)) ==> entry_good(items[j]))
        }
}

/// List the projects that a given (other) user replicated, as full
/// projects from that user's view.
///
/// An entry without the user among its replicating remotes is skipped.
/// For the entries that carry the user, the first failed lookup or
/// malformed document aborts the whole call with that entry's error —
/// unlike [`Projects::list`], this call accumulates no partial failures.
#[verifier::loop_isolation(false)]
pub fn list_for_user(user: &Urn, items: Vec<UserProject>) -> (r: Result<Vec<Full>, Error>)
    ensures
        match r {
            Ok(v) => {
                &&& all_matched_good(items@, user@)
                &&& listing_for_user(v@, items@, user@)
            },
            Err(e) => fails_for_user(items@, user@, e),
        },
{
    let ghost all = items@;
    let ghost uv = user@;
    let mut remaining = items;
    let mut out: Vec<Full> = Vec::new();
    let ghost mut k: int = 0;
    while remaining.len() > 0
        invariant
            0 <= k <= all.len(),
            remaining@ == all.skip(k),
            out@.len() == count_matched(all, uv, k),
            forall|i: int| 0 <= i < k ==> #[trigger] matched_placed(out@, all, uv, i),
            forall|i: int|
                0 <= i < k ==> ((#[trigger] user_holds(all[i], uv)) ==> entry_good(all[i])),
        decreases remaining@.len(),
    {
        let ghost out0 = out@;
        let entry = remaining.remove(0);
        proof {
            assert(all.skip(k)[0] == all[k]);
            assert(all.skip(k).remove(0) =~= all.skip(k + 1));
            assert(entry == all[k]);
        }
        let UserProject { doc, peers, stats } = entry;
        let mut found: bool = false;
        let mut j: usize = 0;
        while j < peers.len()
            invariant
                j <= peers@.len(),
                found <==> holds_upto(peers@, uv, j as int),
            decreases peers@.len() - j,
        {
            let hit = match &peers[j] {
                Peer::Remote { peer_id: _, status: Status::Replicated(u) } => *u == *user,
                _ => false,
            };
            proof {
                if found {
                    let w = choose|w: int| 0 <= w < j && replicates_for(peers@[w], uv);
                    assert(replicates_for(peers@[w], uv));
                    assert(holds_upto(peers@, uv, j + 1));
                } else if hit {
                    assert(replicates_for(peers@[j as int], uv));
                    assert(holds_upto(peers@, uv, j + 1));
                } else {
                    assert(!holds_upto(peers@, uv, j + 1)) by {
                        if holds_upto(peers@, uv, j + 1) {
                            let w = choose|w: int|
                                0 <= w < j + 1 && replicates_for(peers@[w], uv);
                            if w < j {
                                assert(holds_upto(peers@, uv, j as int));
                            } else {
                                assert(replicates_for(peers@[j as int], uv));
                            }
                        }
                    }
                }
            }
            if hit {
                found = true;
            }
            j = j + 1;
        }
        proof {
            assert(found <==> user_holds(all[k], uv));
        }
        if found {
            match stats {
                StatsQuery::NoBranch => {
                    proof {
                        assert(fails_for_user(all, uv, Error::DefaultBranchLookup));
                    }
                    return Err(Error::DefaultBranchLookup);
                },
                StatsQuery::NoStats => {
                    proof {
                        assert(fails_for_user(all, uv, Error::StatsLookup));
                    }
                    return Err(Error::StatsLookup);
                },
                StatsQuery::Found(st) => {
                    match Full::try_from(doc, st) {
                        Err(e) => {
                            proof {
                                assert(!entry_good(all[k]));
                                assert(fails_for_user(all, uv, e));
                            }
                            return Err(e);
                        },
                        Ok(f) => {
                            out.push(f);
                        },
                    }
                },
            }
        }
        proof {
            k = k + 1;
            lemma_matched_nonneg(all, uv, k - 1);
            assert(out@.len() == count_matched(all, uv, k));
            assert(matched_placed(out@, all, uv, k - 1));
            assert forall|i: int| 0 <= i < k - 1 implies #[trigger] matched_placed(
                out@,
                all,
                uv,
                i,
            ) by {
                assert(matched_placed(out0, all, uv, i));
                if user_holds(all[i], uv) {
                    lemma_matched_mono(all, uv, i + 1, k - 1);
                    lemma_matched_nonneg(all, uv, i);
                }
            }
        }
    }
    proof {
        assert(all.skip(k).len() == 0);
        assert(k == all.len());
    }
    Ok(out)
}

proof fn lemma_matched_mono(items: Seq<UserProject>, user: Seq<char>, a: int, b: int)
    requires
        a <= b,
    ensures
        count_matched(items, user, a) <= count_matched(items, user, b),
    decreases b - a,
{
    if a < b {
        lemma_matched_mono(items, user, a, b - 1);
    }
}

/// The full projects behind a sequence of tracked entries.
pub open spec fn tracked_fulls(s: Seq<TrackedProject>) -> Seq<Full> {
    s.map_values(|t: TrackedProject| t.0)
}

/// An iterator over [`Projects`] that borrows them and yields contributed
/// projects first, then tracked projects, in insertion order.
pub struct Iter<'a> {
    /// The contributed projects.
    contributed: &'a Vec<Full>,
    /// The tracked projects, yielded after the contributed ones.
    tracked_projects: &'a Vec<TrackedProject>,
    /// How many contributed projects were already yielded.
    ci: usize,
    /// How many tracked projects were already yielded.
    ti: usize,
}

impl<'a> Iter<'a> {
    /// The cursors stand inside their lists, and tracked projects are
    /// only taken up once the contributed ones are exhausted.
    pub closed spec fn wf(self) -> bool {
        &&& self.ci <= self.contributed@.len()
        &&& self.ti <= self.tracked_projects@.len()
        &&& self.ti > 0 ==> self.ci == self.contributed@.len()
    }

    /// The projects not yet yielded, in yield order.
    pub closed spec fn remaining(self) -> Seq<Full> {
        self.contributed@.skip(self.ci as int) + tracked_fulls(self.tracked_projects@).skip(
            self.ti as int,
        )
    }

    /// Yield the next project, contributed before tracked.
    pub fn next(&mut self) -> (r: Option<&'a Full>)
        requires
            old(self).wf(),
        ensures
            final(self).wf(),
            match r {
                Some(f) => {
                    &&& old(self).remaining().len() > 0
                    &&& *f == old(self).remaining()[0]
                    &&& final(self).remaining() == old(self).remaining().drop_first()
                },
                None => {
                    &&& old(self).remaining().len() == 0
                    &&& final(self).remaining() == old(self).remaining()
                },
            },
    {
        let contributed: &'a Vec<Full> = self.contributed;
        let tracked_projects: &'a Vec<TrackedProject> = self.tracked_projects;
        if self.ci < contributed.len() {
            let rf = &contributed[self.ci];
            self.ci = self.ci + 1;
            proof {
                assert(self.remaining() =~= old(self).remaining().drop_first());
            }
            Some(rf)
        } else if self.ti < tracked_projects.len() {
            let rf = &tracked_projects[self.ti].0;
            self.ti = self.ti + 1;
            proof {
                assert(old(self).contributed@.skip(old(self).ci as int) =~= Seq::<Full>::empty());
                assert(old(self).remaining()[0] == tracked_fulls(tracked_projects@)[
                    old(self).ti as int]);
                assert(self.remaining() =~= old(self).remaining().drop_first());
            }
            Some(rf)
        } else {
            proof {
                assert(old(self).remaining() =~= Seq::<Full>::empty());
            }
            None
        }
    }
}

/// An iterator over [`Projects`] that moves the values out.  It yields
/// contributed projects first, then tracked projects, in insertion order.
pub struct IntoIter {
    /// The contributed projects, back to front.
    contributed_rev: Vec<Full>,
    /// The tracked projects, back to front, yielded after the others.
    tracked_rev: Vec<TrackedProject>,
}

impl IntoIter {
    /// The projects not yet yielded, in yield order.
    pub closed spec fn remaining(self) -> Seq<Full> {
        self.contributed_rev@.reverse() + tracked_fulls(self.tracked_rev@.reverse())
    }

    /// Yield the next project, contributed before tracked.
    pub fn next(&mut self) -> (r: Option<Full>)
        ensures
            match r {
                Some(f) => {
                    &&& old(self).remaining().len() > 0
                    &&& f == old(self).remaining()[0]
                    &&& final(self).remaining() == old(self).remaining().drop_first()
                },
                None => {
                    &&& old(self).remaining().len() == 0
                    &&& final(self).remaining() == old(self).remaining()
                },
            },
    {
        match self.contributed_rev.pop() {
            Some(f) => {
                proof {
                    assert(old(self).remaining()[0] == f);
                    assert(self.remaining() =~= old(self).remaining().drop_first());
                }
                Some(f)
            },
            None => match self.tracked_rev.pop() {
                Some(t) => {
                    proof {
                        assert(old(self).contributed_rev@.reverse() =~= Seq::<Full>::empty());
                        assert(old(self).remaining()[0] == t.0);
                        assert(self.remaining() =~= old(self).remaining().drop_first());
                    }
                    Some(t.0)
                },
                None => {
                    proof {
                        assert(old(self).remaining().len() == 0);
                    }
                    None
                },
            },
        }
    }
}

/// Reverse a vector of tracked entries, moving the values.
#[verifier::loop_isolation(false)]
fn reverse_tracked(v: Vec<TrackedProject>) -> (r: Vec<TrackedProject>)
    ensures
        r@ == v@.reverse(),
{
    let ghost orig = v@;
    let mut v = v;
    let mut r: Vec<TrackedProject> = Vec::new();
    let ghost mut k: int = orig.len() as int;
    proof {
        assert(orig.take(k) =~= orig);
        assert(orig.skip(k).reverse() =~= Seq::<TrackedProject>::empty());
    }
    while v.len() > 0
        invariant
            0 <= k <= orig.len(),
            v@ == orig.take(k),
            r@ == orig.skip(k).reverse(),
        decreases v@.len(),
    {
        let e = v.pop().unwrap();
        proof {
            assert(e == orig[k - 1]);
            assert(v@ =~= orig.take(k - 1));
        }
        r.push(e);
        proof {
            let lhs = r@;
            let rhs = orig.skip(k - 1).reverse();
            assert(lhs.len() == rhs.len());
            assert forall|t: int| 0 <= t < lhs.len() implies lhs[t] == rhs[t] by {
                assert(rhs[t] == orig.skip(k - 1)[orig.len() - (k - 1) - 1 - t]);
                if t < lhs.len() - 1 {
                    assert(lhs[t] == orig.skip(k).reverse()[t]);
                    assert(orig.skip(k).reverse()[t] == orig.skip(k)[orig.len() - k - 1 - t]);
                }
            }
            assert(lhs =~= rhs);
            k = k - 1;
        }
    }
    proof {
        assert(k == 0);
        assert(orig.skip(0).reverse() =~= orig.reverse());
    }
    r
}

/// Reverse a vector of full projects, moving the values.
#[verifier::loop_isolation(false)]
fn reverse_fulls(v: Vec<Full>) -> (r: Vec<Full>)
    ensures
        r@ == v@.reverse(),
{
    let ghost orig = v@;
    let mut v = v;
    let mut r: Vec<Full> = Vec::new();
    let ghost mut k: int = orig.len() as int;
    proof {
        assert(orig.take(k) =~= orig);
        assert(orig.skip(k).reverse() =~= Seq::<Full>::empty());
    }
    while v.len() > 0
        invariant
            0 <= k <= orig.len(),
            v@ == orig.take(k),
            r@ == orig.skip(k).reverse(),
        decreases v@.len(),
    {
        let e = v.pop().unwrap();
        proof {
            assert(e == orig[k - 1]);
            assert(v@ =~= orig.take(k - 1));
        }
        r.push(e);
        proof {
            let lhs = r@;
            let rhs = orig.skip(k - 1).reverse();
            assert(lhs.len() == rhs.len());
            assert forall|t: int| 0 <= t < lhs.len() implies lhs[t] == rhs[t] by {
                assert(rhs[t] == orig.skip(k - 1)[orig.len() - (k - 1) - 1 - t]);
                if t < lhs.len() - 1 {
                    assert(lhs[t] == orig.skip(k).reverse()[t]);
                    assert(orig.skip(k).reverse()[t] == orig.skip(k)[orig.len() - k - 1 - t]);
                }
            }
            assert(lhs =~= rhs);
            k = k - 1;
        }
    }
    proof {
        assert(k == 0);
        assert(orig.skip(0).reverse() =~= orig.reverse());
    }
    r
}

impl Projects {
    /// Borrowing iterator: contributed projects first, then tracked ones.
    pub fn iter(&self) -> (it: Iter<'_>)
        ensures
            it.wf(),
            it.remaining() == self.contributed@ + tracked_fulls(self.tracked_projects@),
    {
        let it = Iter {
            contributed: &self.contributed,
            tracked_projects: &self.tracked_projects,
            ci: 0,
            ti: 0,
        };
        proof {
            assert(it.remaining() =~= self.contributed@ + tracked_fulls(self.tracked_projects@));
        }
        it
    }

    /// Consuming iterator: contributed projects first, then tracked ones.
    pub fn into_iter(self) -> (it: IntoIter)
        ensures
            it.remaining() == self.contributed@ + tracked_fulls(self.tracked_projects@),
    {
        let Projects { tracked_projects, contributed, failures: _ } = self;
        let it = IntoIter {
            contributed_rev: reverse_fulls(contributed),
            tracked_rev: reverse_tracked(tracked_projects),
        };
        proof {
            assert(it.contributed_rev@.reverse() =~= self.contributed@);
            assert(it.tracked_rev@.reverse() =~= self.tracked_projects@);
        }
        it
    }
}

} // verus!
