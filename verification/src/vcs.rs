//! Version control: revisions, queries for changes, and the state that an overlay shows over
//! Git.

use crate::changed_files::{contains_status, ChangedStatus};
use crate::keyset::KeySet;
use crate::order::views;
use crate::table::{value_views, Key, Table};
use crate::text::same_text;
use vstd::prelude::*;
use vstd::seq_lib::lemma_seq_contains_after_push;

verus! {

broadcast use crate::order::group_views;

/// The version of the protocol that version control plugins speak.
pub const VCS_PLUGIN_PROTOCOL_VERSION: u16 = 1;

/// Whether a snapshot of the working copy is taken.
#[derive(Clone, Copy, PartialEq, Eq, Structural, Debug)]
pub enum VcsConsistency {
    ExistingSnapshot,
    FreshSnapshot,
}

/// A revision.
pub enum RevisionView {
    Current,
    Default,
    Named(Seq<char>),
}

/// A revision: the current one, that of the default branch, or one with a name.
#[derive(Debug)]
pub enum VcsRevision {
    Current,
    Default,
    Named(String),
}

impl View for VcsRevision {
    type V = RevisionView;

    open spec fn view(&self) -> RevisionView {
        match self {
            VcsRevision::Current => RevisionView::Current,
            VcsRevision::Default => RevisionView::Default,
            VcsRevision::Named(name) => RevisionView::Named(name@),
        }
    }
}

/// Which changes are asked for.
pub enum QueryView {
    WorkingCopy,
    Previous { revision: RevisionView },
    Between { base: RevisionView, head: RevisionView },
}

/// Which changes are asked for: those of the working copy, those of a revision over the one
/// before it, or those between two revisions.
#[derive(Debug)]
pub enum VcsChangeQuery {
    WorkingCopy,
    Previous { revision: VcsRevision },
    Between { base: VcsRevision, head: VcsRevision },
}

impl View for VcsChangeQuery {
    type V = QueryView;

    open spec fn view(&self) -> QueryView {
        match self {
            VcsChangeQuery::WorkingCopy => QueryView::WorkingCopy,
            VcsChangeQuery::Previous { revision } => QueryView::Previous { revision: revision@ },
            VcsChangeQuery::Between { base, head } => QueryView::Between {
                base: base@,
                head: head@,
            },
        }
    }
}

/// How a file changed, as plugins say it.
#[derive(Clone, Copy, PartialEq, Eq, Structural, Debug)]
pub enum VcsChangedStatus {
    Added,
    Deleted,
    Modified,
}

/// A file that changed.
pub struct ChangedFileView {
    pub path: Seq<char>,
    pub status: VcsChangedStatus,
}

/// A file that changed.
#[derive(Debug)]
pub struct VcsChangedFile {
    pub path: String,
    pub status: VcsChangedStatus,
}

impl View for VcsChangedFile {
    type V = ChangedFileView;

    open spec fn view(&self) -> ChangedFileView {
        ChangedFileView { path: self.path@, status: self.status }
    }
}

/// A file with the name of how it changed.
#[derive(Debug)]
pub struct Change {
    pub path: String,
    pub status: String,
}

impl View for Change {
    type V = (Seq<char>, Seq<char>);

    open spec fn view(&self) -> (Seq<char>, Seq<char>) {
        (self.path@, self.status@)
    }
}

impl Key for Change {
    fn same_key(&self, other: &Self) -> bool {
        same_text(self.path.as_str(), other.path.as_str()) && same_text(
            self.status.as_str(),
            other.status.as_str(),
        )
    }

    fn copy_key(&self) -> Self {
        Change { path: self.path.clone(), status: self.status.clone() }
    }
}

/// The revision as Git names it.
pub open spec fn git_name(revision: RevisionView, default_branch: Seq<char>) -> Seq<char> {
    match revision {
        RevisionView::Current => "HEAD"@,
        RevisionView::Default => default_branch,
        RevisionView::Named(name) => name,
    }
}

/// The revision as Git names it.
pub fn resolve_git_revision(revision: &VcsRevision, default_branch: &str) -> (name: String)
    ensures
        name@ == git_name(revision@, default_branch@),
{
    match revision {
        VcsRevision::Current => "HEAD".to_owned(),
        VcsRevision::Default => default_branch.to_owned(),
        VcsRevision::Named(value) => value.clone(),
    }
}

/// What Git is asked for.
pub enum GitRequestView {
    Changed,
    AgainstPrevious { revision: Seq<char> },
    Between { base: Seq<char>, head: Seq<char> },
}

/// What Git is asked for.
#[derive(Debug)]
pub enum GitRequest {
    Changed,
    AgainstPrevious { revision: String },
    Between { base: String, head: String },
}

impl View for GitRequest {
    type V = GitRequestView;

    open spec fn view(&self) -> GitRequestView {
        match self {
            GitRequest::Changed => GitRequestView::Changed,
            GitRequest::AgainstPrevious { revision } => GitRequestView::AgainstPrevious {
                revision: revision@,
            },
            GitRequest::Between { base, head } => GitRequestView::Between {
                base: base@,
                head: head@,
            },
        }
    }
}

/// What Git is asked for to answer a query.
pub open spec fn git_request(query: QueryView, default_branch: Seq<char>) -> GitRequestView {
    match query {
        QueryView::WorkingCopy => GitRequestView::Changed,
        QueryView::Previous { revision } => GitRequestView::AgainstPrevious {
            revision: git_name(revision, default_branch),
        },
        QueryView::Between { base, head } => GitRequestView::Between {
            base: git_name(base, default_branch),
            head: git_name(head, default_branch),
        },
    }
}

/// What Git is asked for to answer a query.
pub fn request_of_git(query: &VcsChangeQuery, default_branch: &str) -> (request: GitRequest)
    ensures
        request@ == git_request(query@, default_branch@),
{
    match query {
        VcsChangeQuery::WorkingCopy => GitRequest::Changed,
        VcsChangeQuery::Previous { revision } => GitRequest::AgainstPrevious {
            revision: resolve_git_revision(revision, default_branch),
        },
        VcsChangeQuery::Between { base, head } => GitRequest::Between {
            base: resolve_git_revision(base, default_branch),
            head: resolve_git_revision(head, default_branch),
        },
    }
}

/// The name of how a file changed.
pub open spec fn name_of_status(status: VcsChangedStatus) -> Seq<char> {
    match status {
        VcsChangedStatus::Added => "added"@,
        VcsChangedStatus::Deleted => "deleted"@,
        VcsChangedStatus::Modified => "modified"@,
    }
}

/// The name of how a file changed.
pub fn status_name(status: VcsChangedStatus) -> (name: &'static str)
    ensures
        name@ == name_of_status(status),
{
    match status {
        VcsChangedStatus::Added => "added",
        VcsChangedStatus::Deleted => "deleted",
        VcsChangedStatus::Modified => "modified",
    }
}

/// How a file changed, in one word. A file that is not known to version control may count as
/// added.
pub open spec fn summary(statuses: Seq<ChangedStatus>, untracked: bool) -> VcsChangedStatus {
    if statuses.contains(ChangedStatus::Added) || (untracked && statuses.contains(
        ChangedStatus::Untracked,
    )) {
        VcsChangedStatus::Added
    } else if statuses.contains(ChangedStatus::Deleted) {
        VcsChangedStatus::Deleted
    } else {
        VcsChangedStatus::Modified
    }
}

/// How a file changed, in one word.
pub fn summarize(statuses: &Vec<ChangedStatus>, untracked: bool) -> (status: VcsChangedStatus)
    ensures
        status == summary(statuses@, untracked),
{
    if contains_status(statuses, ChangedStatus::Added) || (untracked && contains_status(
        statuses,
        ChangedStatus::Untracked,
    )) {
        VcsChangedStatus::Added
    } else if contains_status(statuses, ChangedStatus::Deleted) {
        VcsChangedStatus::Deleted
    } else {
        VcsChangedStatus::Modified
    }
}

/// The changes that Git reports.
pub open spec fn git_changes(files: Map<Seq<char>, Seq<ChangedStatus>>) -> Set<
    (Seq<char>, Seq<char>),
> {
    Set::new(
        |change: (Seq<char>, Seq<char>)|
            files.dom().contains(change.0) && change.1 == name_of_status(
                summary(files[change.0], true),
            ),
    )
}

/// The changes that Git reports of some files.
spec fn changes_among(
    files: Map<Seq<char>, Seq<ChangedStatus>>,
    paths: Seq<Seq<char>>,
) -> Set<(Seq<char>, Seq<char>)> {
    Set::new(
        |change: (Seq<char>, Seq<char>)|
            paths.contains(change.0) && change.1 == name_of_status(summary(files[change.0], true)),
    )
}

/// The changes that Git reports, by name.
pub fn changed_files_to_set(files: &Table<String, Vec<ChangedStatus>>) -> (changes: KeySet<Change>)
    ensures
        changes@ == git_changes(value_views(files@)),
{
    let ghost all = value_views(files@);
    let mut changes: KeySet<Change> = KeySet::new();
    let mut i: usize = 0;
    let count = files.len();
    assert(changes@ =~= changes_among(all, files.keys().take(0)));
    while i < count
        invariant
            i <= count,
            count == files.keys().len(),
            files.keys().no_duplicates(),
            all == value_views(files@),
            forall|path: Seq<char>|
                files@.dom().contains(path) <==> #[trigger] files.keys().contains(path),
            changes@ == changes_among(all, files.keys().take(i as int)),
        decreases count - i,
    {
        let path = files.key_at(i);
        let statuses = files.value_at(i);
        let status = status_name(summarize(statuses, true));
        changes.insert(Change { path: path.clone(), status: status.to_owned() });
        proof {
            let keys = files.keys();
            assert(all[path@] == statuses@);
            assert(keys.take(i + 1) =~= keys.take(i as int).push(path@));
            let more = changes_among(all, keys.take(i + 1));
            assert forall|change: (Seq<char>, Seq<char>)| #[trigger]
                changes@.contains(change) <==> more.contains(change) by {
                lemma_seq_contains_after_push(keys.take(i as int), path@, change.0);
            }
            assert(changes@ =~= more);
        }
        i = i + 1;
    }
    proof {
        assert(files.keys().take(i as int) =~= files.keys());
        assert forall|change: (Seq<char>, Seq<char>)| #[trigger]
            changes@.contains(change) <==> git_changes(all).contains(change) by {
            assert(files@.dom().contains(change.0) <==> files.keys().contains(change.0));
        }
        assert(changes@ =~= git_changes(all));
    }
    changes
}

/// The changes that a plugin reports, by name.
pub open spec fn plugin_changes(files: Seq<ChangedFileView>) -> Set<(Seq<char>, Seq<char>)> {
    files.map_values(
        |file: ChangedFileView| (file.path, name_of_status(file.status)),
    ).to_set()
}

/// The changes that a plugin reports, by name.
pub fn reported_changes(files: &Vec<VcsChangedFile>) -> (changes: KeySet<Change>)
    ensures
        changes@ == plugin_changes(views(files@)),
{
    let ghost named = views(files@).map_values(
        |file: ChangedFileView| (file.path, name_of_status(file.status)),
    );
    let mut changes: KeySet<Change> = KeySet::new();
    let mut i: usize = 0;
    assert(named.take(0).to_set() =~= Set::empty());
    while i < files.len()
        invariant
            i <= files@.len(),
            named == views(files@).map_values(
                |file: ChangedFileView| (file.path, name_of_status(file.status)),
            ),
            changes@ == named.take(i as int).to_set(),
        decreases files.len() - i,
    {
        let file = &files[i];
        proof {
            assert(named.take(i + 1) =~= named.take(i as int).push(named[i as int]));
            assert(views(files@)[i as int] == file@);
            let more = named.take(i as int).to_set().insert(named[i as int]);
            assert forall|change: (Seq<char>, Seq<char>)| #[trigger]
                named.take(i + 1).to_set().contains(change) <==> more.contains(change) by {
                lemma_seq_contains_after_push(named.take(i as int), named[i as int], change);
            }
            assert(named.take(i + 1).to_set() =~= more);
        }
        changes.insert(
            Change { path: file.path.clone(), status: status_name(file.status).to_owned() },
        );
        i = i + 1;
    }
    assert(named.take(i as int) =~= named);
    changes
}

/// Whether two sets of changes are the same.
pub fn same_changes(a: &KeySet<Change>, b: &KeySet<Change>) -> (same: bool)
    ensures
        same == (a@ == b@),
{
    let same = holds_all(a, b) && holds_all(b, a);
    assert(same ==> a@ =~= b@);
    same
}

/// Whether a set holds all changes of another.
fn holds_all(a: &KeySet<Change>, b: &KeySet<Change>) -> (all: bool)
    ensures
        all == b@.subset_of(a@),
{
    let count = b.len();
    let mut i: usize = 0;
    while i < count
        invariant
            i <= count,
            count == b.keys().len(),
            forall|key: (Seq<char>, Seq<char>)|
                b@.contains(key) <==> #[trigger] b.keys().contains(key),
            forall|k: int| 0 <= k < i ==> a@.contains(#[trigger] b.keys()[k]),
        decreases count - i,
    {
        let change = b.key_at(i);
        if !a.contains(change) {
            proof {
                assert(b@.contains(change@));
            }
            return false;
        }
        i = i + 1;
    }
    proof {
        assert forall|key: (Seq<char>, Seq<char>)| b@.contains(key) implies a@.contains(key) by {
            assert(b.keys().contains(key));
        }
    }
    true
}

} // verus!
