//! How a version control overlay is held against Git: the scenarios, what each must show, and
//! the verdict on what was seen.

use crate::keyset::KeySet;
use crate::order::{view_of, views};
use crate::table::Key;
use crate::vcs::{
    same_changes, Change, QueryView, RevisionView, VcsChangeQuery, VcsRevision,
};
use vstd::prelude::*;

verus! {

broadcast use crate::order::group_views;

/// A situation in which the overlay is asked.
#[derive(Clone, Copy, PartialEq, Eq, Structural, Debug)]
pub enum Scenario {
    DivergentBranches,
    MergedFeature,
    PreviousMerge,
    PreviousRoot,
    CleanWorkingCopy,
    AmbiguousRevision,
    SensitivePaths,
    CrossProjectRename,
    CrissCross,
    PinnedSnapshot,
    FreshSnapshot,
    AbsentPolicy,
    DisabledPolicy,
    IntegrityMismatch,
    TrustedPolicy,
    ProductionAdapter,
    GitOnly,
}

/// The name of a scenario.
pub open spec fn name_of(scenario: Scenario) -> Seq<char> {
    match scenario {
        Scenario::DivergentBranches => "between divergent default and feature uses merge base"@,
        Scenario::MergedFeature => "between default and merge commit includes merged feature"@,
        Scenario::PreviousMerge => "previous merge commit compares against first parent"@,
        Scenario::PreviousRoot => "previous root commit has no prior changes"@,
        Scenario::CleanWorkingCopy => "clean working copy is empty"@,
        Scenario::AmbiguousRevision => "ambiguous named revision is rejected"@,
        Scenario::SensitivePaths => "working copy preserves machine-sensitive paths"@,
        Scenario::CrossProjectRename => "cross-project rename affects source and destination"@,
        Scenario::CrissCross => "criss-cross history uses an isolated virtual merge base"@,
        Scenario::PinnedSnapshot => "secondary workspace preserves a prepared snapshot"@,
        Scenario::FreshSnapshot => "secondary workspace fresh snapshot observes later changes"@,
        Scenario::AbsentPolicy => "absent user policy selects Git"@,
        Scenario::DisabledPolicy => "disabled user policy selects Git without loading"@,
        Scenario::IntegrityMismatch => "plugin integrity mismatch fails closed"@,
        Scenario::TrustedPolicy => "trusted user policy activates the detected overlay"@,
        Scenario::ProductionAdapter => "production Moon adapter routes VCS queries through the active plugin"@,
        Scenario::GitOnly => "trusted overlay selects Git when jj is not detected"@,
    }
}

/// The changes that are seen in a scenario where all is well.
pub open spec fn expected_of(scenario: Scenario) -> Set<(Seq<char>, Seq<char>)> {
    match scenario {
        Scenario::DivergentBranches => Set::empty().insert(("projects/feature.txt"@, "added"@)),
        Scenario::MergedFeature => Set::empty().insert(("projects/feature.txt"@, "added"@)),
        Scenario::PreviousMerge => Set::empty().insert(("projects/feature.txt"@, "added"@)),
        Scenario::SensitivePaths => Set::empty().insert(("line\nbreak.txt"@, "added"@)).insert(("space name.txt"@, "added"@)).insert(("unicode-\u{00e9}.txt"@, "added"@)).insert(("working.txt"@, "added"@)),
        Scenario::CrossProjectRename => Set::empty().insert(("projects/a/old.txt"@, "deleted"@)).insert(("projects/b/new.txt"@, "added"@)),
        Scenario::PinnedSnapshot => Set::empty().insert(("secondary.txt"@, "added"@)),
        Scenario::FreshSnapshot => Set::empty().insert(("later.txt"@, "added"@)).insert(("secondary.txt"@, "added"@)),
        Scenario::ProductionAdapter => Set::empty().insert(("line\nbreak.txt"@, "added"@)).insert(("space name.txt"@, "added"@)).insert(("unicode-\u{00e9}.txt"@, "added"@)).insert(("working.txt"@, "added"@)),
        _ => Set::empty(),
    }
}

/// The revisions that the scenarios name.
pub struct RevisionsView {
    pub initial: Seq<char>,
    pub merged: Seq<char>,
    pub left_merge: Seq<char>,
    pub right_merge: Seq<char>,
}

/// The revisions that the scenarios name.
#[derive(Debug)]
pub struct FixtureRevisions {
    pub initial: String,
    pub merged: String,
    pub left_merge: String,
    pub right_merge: String,
}

impl View for FixtureRevisions {
    type V = RevisionsView;

    open spec fn view(&self) -> RevisionsView {
        RevisionsView {
            initial: self.initial@,
            merged: self.merged@,
            left_merge: self.left_merge@,
            right_merge: self.right_merge@,
        }
    }
}

/// What is asked for in a scenario.
pub open spec fn query_for(scenario: Scenario, revisions: RevisionsView) -> QueryView {
    match scenario {
        Scenario::DivergentBranches => QueryView::Between {
            base: RevisionView::Default,
            head: RevisionView::Current,
        },
        Scenario::MergedFeature => QueryView::Between {
            base: RevisionView::Default,
            head: RevisionView::Named(revisions.merged),
        },
        Scenario::PreviousMerge => QueryView::Previous {
            revision: RevisionView::Named(revisions.merged),
        },
        Scenario::PreviousRoot => QueryView::Previous {
            revision: RevisionView::Named(revisions.initial),
        },
        Scenario::AmbiguousRevision => QueryView::Between {
            base: RevisionView::Named("all()"@),
            head: RevisionView::Current,
        },
        Scenario::CrissCross => QueryView::Between {
            base: RevisionView::Named(revisions.left_merge),
            head: RevisionView::Named(revisions.right_merge),
        },
        _ => QueryView::WorkingCopy,
    }
}

impl Scenario {
    /// The name of the scenario.
    pub fn name(self) -> (name: &'static str)
        ensures
            name@ == name_of(self),
    {
        match self {
            Scenario::DivergentBranches => "between divergent default and feature uses merge base",
            Scenario::MergedFeature => "between default and merge commit includes merged feature",
            Scenario::PreviousMerge => "previous merge commit compares against first parent",
            Scenario::PreviousRoot => "previous root commit has no prior changes",
            Scenario::CleanWorkingCopy => "clean working copy is empty",
            Scenario::AmbiguousRevision => "ambiguous named revision is rejected",
            Scenario::SensitivePaths => "working copy preserves machine-sensitive paths",
            Scenario::CrossProjectRename => "cross-project rename affects source and destination",
            Scenario::CrissCross => "criss-cross history uses an isolated virtual merge base",
            Scenario::PinnedSnapshot => "secondary workspace preserves a prepared snapshot",
            Scenario::FreshSnapshot => "secondary workspace fresh snapshot observes later changes",
            Scenario::AbsentPolicy => "absent user policy selects Git",
            Scenario::DisabledPolicy => "disabled user policy selects Git without loading",
            Scenario::IntegrityMismatch => "plugin integrity mismatch fails closed",
            Scenario::TrustedPolicy => "trusted user policy activates the detected overlay",
            Scenario::ProductionAdapter => "production Moon adapter routes VCS queries through the active plugin",
            Scenario::GitOnly => "trusted overlay selects Git when jj is not detected",
        }
    }

    /// The changes that are seen where all is well.
    pub fn expected(self) -> (changes: KeySet<Change>)
        ensures
            changes@ == expected_of(self),
    {
        let mut changes: KeySet<Change> = KeySet::new();
        match self {
            Scenario::DivergentBranches => {
                add_change(&mut changes, "projects/feature.txt", "added");
            },
            Scenario::MergedFeature => {
                add_change(&mut changes, "projects/feature.txt", "added");
            },
            Scenario::PreviousMerge => {
                add_change(&mut changes, "projects/feature.txt", "added");
            },
            Scenario::SensitivePaths => {
                add_change(&mut changes, "line\nbreak.txt", "added");
                add_change(&mut changes, "space name.txt", "added");
                add_change(&mut changes, "unicode-\u{00e9}.txt", "added");
                add_change(&mut changes, "working.txt", "added");
            },
            Scenario::CrossProjectRename => {
                add_change(&mut changes, "projects/a/old.txt", "deleted");
                add_change(&mut changes, "projects/b/new.txt", "added");
            },
            Scenario::PinnedSnapshot => {
                add_change(&mut changes, "secondary.txt", "added");
            },
            Scenario::FreshSnapshot => {
                add_change(&mut changes, "later.txt", "added");
                add_change(&mut changes, "secondary.txt", "added");
            },
            Scenario::ProductionAdapter => {
                add_change(&mut changes, "line\nbreak.txt", "added");
                add_change(&mut changes, "space name.txt", "added");
                add_change(&mut changes, "unicode-\u{00e9}.txt", "added");
                add_change(&mut changes, "working.txt", "added");
            },
            _ => {},
        }
        changes
    }

    /// What is asked for.
    pub fn query(self, revisions: &FixtureRevisions) -> (query: VcsChangeQuery)
        ensures
            query@ == query_for(self, revisions@),
    {
        match self {
            Scenario::DivergentBranches => VcsChangeQuery::Between {
                base: VcsRevision::Default,
                head: VcsRevision::Current,
            },
            Scenario::MergedFeature => VcsChangeQuery::Between {
                base: VcsRevision::Default,
                head: VcsRevision::Named(revisions.merged.clone()),
            },
            Scenario::PreviousMerge => VcsChangeQuery::Previous {
                revision: VcsRevision::Named(revisions.merged.clone()),
            },
            Scenario::PreviousRoot => VcsChangeQuery::Previous {
                revision: VcsRevision::Named(revisions.initial.clone()),
            },
            Scenario::AmbiguousRevision => VcsChangeQuery::Between {
                base: VcsRevision::Named("all()".to_owned()),
                head: VcsRevision::Current,
            },
            Scenario::CrissCross => VcsChangeQuery::Between {
                base: VcsRevision::Named(revisions.left_merge.clone()),
                head: VcsRevision::Named(revisions.right_merge.clone()),
            },
            _ => VcsChangeQuery::WorkingCopy,
        }
    }
}

/// Adds a change to a set.
fn add_change(changes: &mut KeySet<Change>, path: &str, status: &str)
    ensures
        final(changes)@ == old(changes)@.insert((path@, status@)),
{
    changes.insert(Change { path: path.to_owned(), status: status.to_owned() });
}

/// What was seen in a scenario.
pub struct ReportView {
    pub name: Seq<char>,
    pub passed: bool,
    pub expected: Set<(Seq<char>, Seq<char>)>,
    pub git: Option<Set<(Seq<char>, Seq<char>)>>,
    pub jj: Set<(Seq<char>, Seq<char>)>,
}

/// What was seen in a scenario: by Git, where it was asked, and by the overlay.
#[derive(Debug)]
pub struct ScenarioReport {
    pub name: String,
    pub passed: bool,
    pub expected: KeySet<Change>,
    pub git: Option<KeySet<Change>>,
    pub jj: KeySet<Change>,
}

impl View for ScenarioReport {
    type V = ReportView;

    open spec fn view(&self) -> ReportView {
        ReportView {
            name: self.name@,
            passed: self.passed,
            expected: self.expected@,
            git: view_of(self.git),
            jj: self.jj@,
        }
    }
}

/// The report where Git and the overlay were asked: both must see what is expected.
pub fn compare_with_git(scenario: Scenario, git: KeySet<Change>, jj: KeySet<Change>) -> (report:
    ScenarioReport)
    ensures
        report@ == (ReportView {
            name: name_of(scenario),
            passed: git@ == expected_of(scenario) && jj@ == expected_of(scenario),
            expected: expected_of(scenario),
            git: Some(git@),
            jj: jj@,
        }),
{
    let expected = scenario.expected();
    let passed = same_changes(&git, &expected) && same_changes(&jj, &expected);
    ScenarioReport { name: scenario.name().to_owned(), passed, expected, git: Some(git), jj }
}

/// The report where only the overlay was asked. Besides the changes, something else must hold.
pub fn compare_jj_only(scenario: Scenario, jj: KeySet<Change>, holds: bool) -> (report:
    ScenarioReport)
    ensures
        report@ == (ReportView {
            name: name_of(scenario),
            passed: jj@ == expected_of(scenario) && holds,
            expected: expected_of(scenario),
            git: None,
            jj: jj@,
        }),
{
    let expected = scenario.expected();
    let passed = same_changes(&jj, &expected) && holds;
    ScenarioReport { name: scenario.name().to_owned(), passed, expected, git: None, jj }
}

/// The report on a history where two branches merged each other. Git takes one of the two
/// merge bases; the overlay takes both, sees no change, and leaves the snapshot as it is.
pub fn judge_criss_cross(git: KeySet<Change>, jj: KeySet<Change>, same_snapshot: bool) -> (report:
    ScenarioReport)
    ensures
        report@ == (ReportView {
            name: name_of(Scenario::CrissCross),
            passed: (git@ == Set::empty().insert(("left.txt"@, "added"@)) || git@
                == Set::empty().insert(("right.txt"@, "added"@))) && jj@ == Set::<
                (Seq<char>, Seq<char>),
            >::empty() && same_snapshot,
            expected: Set::empty(),
            git: Some(git@),
            jj: jj@,
        }),
{
    let mut left: KeySet<Change> = KeySet::new();
    add_change(&mut left, "left.txt", "added");
    let mut right: KeySet<Change> = KeySet::new();
    add_change(&mut right, "right.txt", "added");
    let valid_git_single_base = same_changes(&git, &left) || same_changes(&git, &right);
    let expected = Scenario::CrissCross.expected();
    let passed = valid_git_single_base && same_changes(&jj, &expected) && same_snapshot;
    ScenarioReport {
        name: Scenario::CrissCross.name().to_owned(),
        passed,
        expected,
        git: Some(git),
        jj,
    }
}

/// The report on a decision that shows no changes.
pub fn policy_report(scenario: Scenario, passed: bool) -> (report: ScenarioReport)
    ensures
        report@ == (ReportView {
            name: name_of(scenario),
            passed,
            expected: Set::empty(),
            git: None,
            jj: Set::empty(),
        }),
{
    ScenarioReport {
        name: scenario.name().to_owned(),
        passed,
        expected: KeySet::new(),
        git: None,
        jj: KeySet::new(),
    }
}

/// Whether a pinned snapshot of another workspace is kept: the overlay was found, it names a
/// revision, and it names the same one after the workspace changed.
pub fn keeps_snapshot(detected: bool, before: &Option<String>, after: &Option<String>) -> (kept:
    bool)
    ensures
        kept == (detected && before is Some && view_of(*after) == view_of(*before)),
{
    match (before, after) {
        (Some(before), Some(after)) => detected && before.same_key(after),
        _ => false,
    }
}

/// Whether all reports passed.
pub open spec fn every_passed(reports: Seq<ReportView>) -> bool {
    forall|i: int| 0 <= i < reports.len() ==> (#[trigger] reports[i]).passed
}

/// Whether all reports passed.
pub fn all_passed(reports: &Vec<ScenarioReport>) -> (passed: bool)
    ensures
        passed == every_passed(views(reports@)),
{
    let mut i: usize = 0;
    while i < reports.len()
        invariant
            i <= reports@.len(),
            forall|k: int| 0 <= k < i ==> (#[trigger] views(reports@)[k]).passed,
        decreases reports.len() - i,
    {
        assert(views(reports@)[i as int] == reports@[i as int]@);
        if !reports[i].passed {
            return false;
        }
        i = i + 1;
    }
    true
}

} // verus!
