//! What version control is asked for, and what its answers mean.

use crate::changed_files::ChangedStatus;
use crate::vcs::{
    git_changes, git_request, plugin_changes, summary, ChangedFileView, GitRequestView, QueryView,
    RevisionView, VcsChangedStatus,
};
use crate::vcs_overlay::{
    composed_state, query_of, request_of, AdapterStateView, RequestView, ScreenCommand, ScreenView,
    StatePatchView,
};
use vstd::prelude::*;

verus! {

/// A revision under the name by which Git knows it.
pub open spec fn is_named(
    revision: RevisionView,
    default_branch: Seq<char>,
    name: Seq<char>,
) -> bool {
    match revision {
        RevisionView::Current => name == "HEAD"@,
        RevisionView::Default => name == default_branch,
        RevisionView::Named(given) => name == given,
    }
}

/// Git compares what a query compares: from its base to its head, or with what was before.
pub proof fn git_is_asked_what_is_asked(query: QueryView, default_branch: Seq<char>)
    ensures
        match (query, git_request(query, default_branch)) {
            (QueryView::WorkingCopy, GitRequestView::Changed) => true,
            (
                QueryView::Previous { revision },
                GitRequestView::AgainstPrevious { revision: name },
            ) => is_named(revision, default_branch, name),
            (
                QueryView::Between { base, head },
                GitRequestView::Between { base: from, head: to },
            ) => is_named(base, default_branch, from) && is_named(head, default_branch, to),
            _ => false,
        },
{
}

/// A file that was added counts as added whatever else happened to it; else one that was
/// deleted counts as deleted; and what is neither was modified. A file that is not known to
/// version control counts as added only where asked for.
pub proof fn files_count_as_what_happened(statuses: Seq<ChangedStatus>, untracked: bool)
    ensures
        statuses.contains(ChangedStatus::Added) ==> summary(statuses, untracked)
            == VcsChangedStatus::Added,
        untracked && statuses.contains(ChangedStatus::Untracked) ==> summary(statuses, untracked)
            == VcsChangedStatus::Added,
        summary(statuses, untracked) == VcsChangedStatus::Added ==> statuses.contains(
            ChangedStatus::Added,
        ) || (untracked && statuses.contains(ChangedStatus::Untracked)),
        summary(statuses, untracked) == VcsChangedStatus::Deleted <==> statuses.contains(
            ChangedStatus::Deleted,
        ) && !statuses.contains(ChangedStatus::Added) && !(untracked && statuses.contains(
            ChangedStatus::Untracked,
        )),
{
}

/// Every file that Git reports is a change under one of three names, and nothing else is one.
pub proof fn git_reports_every_file(
    files: Map<Seq<char>, Seq<ChangedStatus>>,
    path: Seq<char>,
    name: Seq<char>,
)
    ensures
        git_changes(files).contains((path, name)) <==> files.dom().contains(path) && match summary(
            files[path],
            true,
        ) {
            VcsChangedStatus::Added => name == "added"@,
            VcsChangedStatus::Deleted => name == "deleted"@,
            VcsChangedStatus::Modified => name == "modified"@,
        },
{
}

/// Every file that a plugin reports is a change under the name of its status.
pub proof fn plugins_report_every_file(files: Seq<ChangedFileView>, i: int)
    requires
        0 <= i < files.len(),
    ensures
        plugin_changes(files).contains(
            (
                files[i].path,
                match files[i].status {
                    VcsChangedStatus::Added => "added"@,
                    VcsChangedStatus::Deleted => "deleted"@,
                    VcsChangedStatus::Modified => "modified"@,
                },
            ),
        ),
{
    let changes = files.map_values(
        |file: ChangedFileView| (file.path, crate::vcs::name_of_status(file.status)),
    );
    assert(changes[i] == (files[i].path, crate::vcs::name_of_status(files[i].status)));
    assert(changes.contains(changes[i]));
}

/// An overlay is over the state of Git: what it knows is shown, what it does not know is
/// Git's, and what the default is Git alone says.
pub proof fn overlays_are_over_git(base: AdapterStateView, patch: StatePatchView)
    ensures
        ({
            let shown = composed_state(base, Some(patch));
            &&& patch.adapter is Some ==> shown.adapter == patch.adapter->0
            &&& patch.adapter is None ==> shown.adapter == base.adapter
            &&& patch.current_label is Some ==> shown.current_label == patch.current_label->0
            &&& patch.current_label is None ==> shown.current_label == base.current_label
            &&& patch.current_revision is Some ==> shown.current_revision
                == patch.current_revision->0
            &&& patch.current_revision is None ==> shown.current_revision == base.current_revision
            &&& patch.is_default is Some ==> shown.is_default == patch.is_default->0
            &&& patch.is_default is None ==> shown.is_default == base.is_default
            &&& patch.repository_root is Some ==> shown.repository_root == patch.repository_root->0
            &&& patch.repository_root is None ==> shown.repository_root == base.repository_root
            &&& patch.working_root is Some ==> shown.working_root == patch.working_root->0
            &&& patch.working_root is None ==> shown.working_root == base.working_root
            &&& shown.default_label == base.default_label
            &&& shown.default_revision == base.default_revision
        }),
        composed_state(base, None) == base,
{
}

/// The overlay is asked only where it was found and is not turned off, and for what depends on
/// a snapshot only with the one that is pinned. Changes are asked of Git otherwise.
pub proof fn the_overlay_is_asked_where_it_is_on(screen: ScreenView, command: ScreenCommand)
    ensures
        match request_of(screen, command) {
            RequestView::Prepare(consistency) => command == ScreenCommand::Prepare(consistency)
                && screen.detected && !screen.forced_fallback,
            RequestView::LoadState { snapshot } => command is LoadState && screen.detected
                && !screen.forced_fallback && screen.prepared == Some(snapshot),
            RequestView::PluginChanges { snapshot, query } => screen.detected
                && !screen.forced_fallback && screen.prepared == Some(snapshot) && query
                == query_of(command),
            RequestView::GitChanges { query } => (!screen.detected || screen.forced_fallback
                || screen.prepared is None) && query == query_of(command),
            RequestView::Detect => command is Detect,
            RequestView::Quit => command is Quit,
            RequestView::Nothing => true,
        },
        command is WorkingChanges || command is PreviousChanges || command is BaseChanges
            ==> request_of(screen, command) is PluginChanges || request_of(
            screen,
            command,
        ) is GitChanges,
        command is Detect ==> request_of(screen, command) is Detect,
        command is Quit ==> request_of(screen, command) is Quit,
        command is Prepare && screen.detected && !screen.forced_fallback ==> request_of(
            screen,
            command,
        ) is Prepare,
        command is LoadState && screen.detected && !screen.forced_fallback && screen.prepared is Some
            ==> request_of(screen, command) is LoadState,
{
}

/// The changes since the default revision lead from that to the current one.
pub proof fn changes_lead_to_the_current_revision(command: ScreenCommand)
    ensures
        command is BaseChanges ==> query_of(command) == (QueryView::Between {
            base: RevisionView::Default,
            head: RevisionView::Current,
        }),
        command is PreviousChanges ==> query_of(command) == (QueryView::Previous {
            revision: RevisionView::Current,
        }),
        command is WorkingChanges ==> query_of(command) is WorkingCopy,
{
}

} // verus!
