//! What holds of every change of a file that a session hears of.

use crate::watch::{
    is_ignored_path, names_in, EventKind, ModifyKind,
};
use crate::workspace_watch::{
    event_action, workspace_reset, FactsView, Rebuild, WatchAction, WorkspaceChange, WorkspaceReset,
};
use vstd::prelude::*;

verus! {

/// Something was created, modified or removed, and it is not the source root itself that was
/// removed or renamed.
pub open spec fn is_change_inside(path: Seq<char>, kind: EventKind) -> bool {
    match kind {
        EventKind::Create(_) => true,
        EventKind::Modify(ModifyKind::Name(_)) => path.len() > 0,
        EventKind::Modify(_) => true,
        EventKind::Remove(_) => path.len() > 0,
        _ => false,
    }
}

/// The source root itself was removed or renamed.
pub open spec fn takes_the_root(path: Seq<char>, kind: EventKind) -> bool {
    path.len() == 0 && match kind {
        EventKind::Remove(_) => true,
        EventKind::Modify(ModifyKind::Name(_)) => true,
        _ => false,
    }
}

/// A configuration of the workspace is loaded again when it changes in the primary source
/// root, whatever else its path is recognised as: the one that has the name, and no other.
pub proof fn configurations_are_loaded_again(
    path: Seq<char>,
    kind: EventKind,
    source_known: bool,
    facts: FactsView,
    project_root: bool,
)
    requires
        is_change_inside(path, kind),
        facts.workspace_config,
        !facts.prototools,
    ensures
        ({
            let action = event_action(path, kind, true, source_known, facts, project_root);
            &&& action == WatchAction::ResetWorkspace <==> facts.config_name == Some("workspace"@)
            &&& action == WatchAction::ResetToolchains <==> facts.config_name == Some(
                "toolchains"@,
            )
            &&& action == WatchAction::ResetExtensions <==> facts.config_name == Some(
                "extensions"@,
            )
            &&& action is ResetWorkspace || action is ResetToolchains || action is ResetExtensions
                || action is Ignore
        }),
{
    reveal_strlit("workspace");
    reveal_strlit("toolchains");
    reveal_strlit("extensions");
    assert("toolchains"@.len() == 10 && "extensions"@.len() == 10 && "workspace"@.len() == 9);
    assert("toolchains"@[0] == 't' && "extensions"@[0] == 'e');
}

/// A configuration of the workspace is loaded again only when a file that is one changes in
/// the primary source root.
pub proof fn only_configurations_are_loaded_again(
    path: Seq<char>,
    kind: EventKind,
    in_primary: bool,
    source_known: bool,
    facts: FactsView,
    project_root: bool,
)
    requires
        ({
            let action = event_action(path, kind, in_primary, source_known, facts, project_root);
            action is ResetWorkspace || action is ResetToolchains || action is ResetExtensions
        }),
    ensures
        is_change_inside(path, kind),
        in_primary,
        facts.workspace_config,
        !facts.prototools,
{
}

/// The session ends exactly where a source root is gone, or where something changes in one
/// that the session does not know.
pub proof fn sessions_end_with_their_roots(
    path: Seq<char>,
    kind: EventKind,
    in_primary: bool,
    source_known: bool,
    facts: FactsView,
    project_root: bool,
)
    ensures
        event_action(path, kind, in_primary, source_known, facts, project_root)
            == WatchAction::Retire <==> takes_the_root(path, kind) || (is_change_inside(path, kind)
            && !in_primary && !source_known),
{
}

/// What neither changes anything nor takes a source root asks for nothing.
pub proof fn looking_asks_for_nothing(
    path: Seq<char>,
    kind: EventKind,
    in_primary: bool,
    source_known: bool,
    facts: FactsView,
    project_root: bool,
)
    requires
        !is_change_inside(path, kind),
        !takes_the_root(path, kind),
    ensures
        event_action(path, kind, in_primary, source_known, facts, project_root)
            == WatchAction::Ignore,
{
}

/// A source root besides the primary one is loaded again as a whole, exactly where a
/// configuration of any kind or the root of a project changes in it.
pub proof fn other_roots_are_loaded_as_a_whole(
    path: Seq<char>,
    kind: EventKind,
    in_primary: bool,
    source_known: bool,
    facts: FactsView,
    project_root: bool,
)
    ensures
        event_action(path, kind, in_primary, source_known, facts, project_root)
            == WatchAction::ReloadChild <==> {
            &&& !in_primary
            &&& source_known
            &&& is_change_inside(path, kind)
            &&& {
                ||| facts.prototools
                ||| facts.workspace_config
                ||| facts.tasks_config
                ||| facts.project_config
                ||| project_root && moves_directory(kind)
            }
        },
        in_primary || matches!(
            event_action(path, kind, in_primary, source_known, facts, project_root),
            WatchAction::Retire | WatchAction::ReloadChild | WatchAction::Ignore
        ),
{
}

/// A directory was created or removed, or something was renamed.
pub open spec fn moves_directory(kind: EventKind) -> bool {
    match kind {
        EventKind::Create(crate::watch::CreateKind::Folder) => true,
        EventKind::Remove(crate::watch::RemoveKind::Folder) => true,
        EventKind::Modify(ModifyKind::Name(_)) => true,
        _ => false,
    }
}

/// In the primary source root proto comes first: its environment is loaded again exactly where
/// its configuration changes, whatever else the path is recognised as.
pub proof fn proto_comes_first(
    path: Seq<char>,
    kind: EventKind,
    in_primary: bool,
    source_known: bool,
    facts: FactsView,
    project_root: bool,
)
    ensures
        event_action(path, kind, in_primary, source_known, facts, project_root)
            == WatchAction::ResetProto <==> in_primary && facts.prototools && is_change_inside(
            path,
            kind,
        ),
{
}

/// In the primary source root inherited tasks are loaded again exactly where their
/// configuration changes and the path is no configuration of the workspace. The graphs are
/// built again exactly where the path is none of these, and a project or its root changes.
pub proof fn tasks_and_projects_come_last(
    path: Seq<char>,
    kind: EventKind,
    in_primary: bool,
    source_known: bool,
    facts: FactsView,
    project_root: bool,
)
    ensures
        ({
            let action = event_action(path, kind, in_primary, source_known, facts, project_root);
            let rest = in_primary && is_change_inside(path, kind) && !facts.prototools
                && !facts.workspace_config;
            &&& action == WatchAction::ResetTasks <==> rest && facts.tasks_config
            &&& action == WatchAction::ResetProjects <==> rest && !facts.tasks_config && (
            facts.project_config || (project_root && moves_directory(kind)))
        }),
{
}

/// A path below one that is never watched is never watched.
pub proof fn ignored_paths_stay_ignored(parts: Seq<Seq<char>>, more: Seq<Seq<char>>)
    requires
        is_ignored_path(parts),
    ensures
        is_ignored_path(parts + more),
    decreases more.len(),
{
    if more.len() == 0 {
        assert(parts + more =~= parts);
    } else {
        ignored_paths_stay_ignored(parts, more.drop_last());
        let before = parts + more.drop_last();
        let after = parts + more;
        assert(after.drop_last() =~= before);
        let names = names_in(before);
        let longer = names_in(after);
        assert forall|i: int| 0 <= i < names.len() implies #[trigger] longer[i] == names[i] by {}
        if exists|i: int|
            0 <= i < names.len() && crate::watch::is_ignored_name(#[trigger] names[i]) {
            let i = choose|i: int|
                0 <= i < names.len() && crate::watch::is_ignored_name(#[trigger] names[i]);
            assert(crate::watch::is_ignored_name(longer[i]));
        } else {
            let (i, j) = choose|i: int, j: int|
                0 <= i < names.len() && j == i + 1 && j < names.len()
                    && crate::watch::is_ignored_pair(#[trigger] names[i], #[trigger] names[j]);
            assert(crate::watch::is_ignored_pair(longer[i], longer[j]));
        }
    }
}

/// At one place stands the name of a directory that is never watched: one of version control or
/// of installed packages, or, directly below the configuration, a cache or the files of
/// containers.
pub open spec fn is_never_watched(names: Seq<Seq<char>>, k: int) -> bool {
    ||| names[k] == ".git"@
    ||| names[k] == ".svn"@
    ||| names[k] == "node_modules"@
    ||| k > 0 && names[k - 1] == ".moon"@ && (names[k] == "cache"@ || names[k] == "docker"@)
}

/// A path with a directory of version control or of installed packages anywhere in it is never
/// watched, nor is one with a cache or the files of containers directly below the
/// configuration. What has none of these names is watched.
pub proof fn ignored_paths_have_a_name(parts: Seq<Seq<char>>, i: int)
    requires
        0 <= i < names_in(parts).len(),
    ensures
        names_in(parts)[i] == ".git"@ ==> is_ignored_path(parts),
        names_in(parts)[i] == ".svn"@ ==> is_ignored_path(parts),
        names_in(parts)[i] == "node_modules"@ ==> is_ignored_path(parts),
        i > 0 && names_in(parts)[i - 1] == ".moon"@ && (names_in(parts)[i] == "cache"@ || names_in(
            parts,
        )[i] == "docker"@) ==> is_ignored_path(parts),
        is_ignored_path(parts) ==> exists|k: int|
            0 <= k < names_in(parts).len() && #[trigger] is_never_watched(names_in(parts), k),
{
    let names = names_in(parts);
    assert(crate::watch::is_ignored_name(names[i]) ==> is_ignored_path(parts));
    if i > 0 && crate::watch::is_ignored_pair(names[i - 1], names[i]) {
        let j = i - 1;
        assert(crate::watch::is_ignored_pair(names[j], names[j + 1]));
    }
    if is_ignored_path(parts) {
        if exists|k: int| 0 <= k < names.len() && crate::watch::is_ignored_name(#[trigger] names[k]) {
            let k = choose|k: int|
                0 <= k < names.len() && crate::watch::is_ignored_name(#[trigger] names[k]);
            assert(is_never_watched(names, k));
        } else {
            let (a, b) = choose|a: int, b: int|
                0 <= a < names.len() && b == a + 1 && b < names.len()
                    && crate::watch::is_ignored_pair(#[trigger] names[a], #[trigger] names[b]);
            assert(is_never_watched(names, b));
        }
    }
}

/// A new configuration of a workspace ends the session exactly where the source roots are
/// others than before. Otherwise version control is loaded again exactly where it changed, the
/// graphs are built again exactly where the projects changed, and the daemon stops exactly
/// where it is no longer wanted.
pub proof fn workspace_changes_reach_what_they_change(change: WorkspaceChange)
    ensures
        match workspace_reset(change) {
            WorkspaceReset::Retire => change.id || change.workspaces,
            WorkspaceReset::Apply { reset_vcs, reset_components, stop_daemon, rebuild } => {
                &&& !change.id
                &&& !change.workspaces
                &&& reset_vcs <==> change.vcs
                &&& rebuild == Rebuild::Graphs <==> change.projects || change.default_project
                &&& reset_components <==> rebuild == Rebuild::Graphs
                &&& stop_daemon <==> !change.daemon
            },
        },
{
}

} // verus!
