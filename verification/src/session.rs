//! What a session has loaded, and what has to be loaded again after a change.

use crate::action_node::SyncProjectNode;
use crate::order::views;
use crate::runtime::{RuntimeView, SourceRuntime, SourceRuntimeRegistry};
use crate::source::SourceRootId;
use crate::table::Key;
use crate::workspace_watch::{
    plan_tasks_reset, plan_workspace_reset, workspace_reset, Rebuild, WorkspaceChange,
    WorkspaceReset,
};
use vstd::prelude::*;

verus! {

broadcast use crate::order::group_views;

/// Which parts of a session are loaded. A part that is not loaded is loaded when it is asked
/// for next.
#[derive(Clone, Copy, PartialEq, Eq, Structural, Debug)]
pub struct MoonSession {
    pub aggregate_workspace_graph: bool,
    pub app_context: bool,
    pub extension_registry: bool,
    pub project_graph: bool,
    pub source_runtime_registry: bool,
    pub task_graph: bool,
    pub toolchain_registry: bool,
    pub vcs_adapter: bool,
    pub workspace_graph: bool,
}

impl MoonSession {
    /// Nothing is loaded.
    pub fn new() -> (session: Self)
        ensures
            session == (MoonSession {
                aggregate_workspace_graph: false,
                app_context: false,
                extension_registry: false,
                project_graph: false,
                source_runtime_registry: false,
                task_graph: false,
                toolchain_registry: false,
                vcs_adapter: false,
                workspace_graph: false,
            }),
    {
        MoonSession {
            aggregate_workspace_graph: false,
            app_context: false,
            extension_registry: false,
            project_graph: false,
            source_runtime_registry: false,
            task_graph: false,
            toolchain_registry: false,
            vcs_adapter: false,
            workspace_graph: false,
        }
    }

    /// Forgets the services, registries and graphs, and keeps version control.
    pub fn reset_components(&mut self)
        ensures
            *final(self) == (MoonSession {
                aggregate_workspace_graph: false,
                app_context: false,
                extension_registry: false,
                project_graph: false,
                source_runtime_registry: false,
                task_graph: false,
                toolchain_registry: false,
                vcs_adapter: old(self).vcs_adapter,
                workspace_graph: false,
            }),
    {
        self.aggregate_workspace_graph = false;
        self.reset_runtime_contexts();
        self.extension_registry = false;
        self.toolchain_registry = false;
        self.project_graph = false;
        self.task_graph = false;
        self.workspace_graph = false;
    }

    /// Forgets the services of the source roots.
    pub fn reset_runtime_contexts(&mut self)
        ensures
            *final(self) == (MoonSession {
                app_context: false,
                source_runtime_registry: false,
                ..*old(self)
            }),
    {
        self.app_context = false;
        self.source_runtime_registry = false;
    }

    /// Forgets version control, and the services that were made with it.
    pub fn reset_vcs(&mut self)
        ensures
            *final(self) == (MoonSession {
                app_context: false,
                source_runtime_registry: false,
                vcs_adapter: false,
                ..*old(self)
            }),
    {
        self.reset_runtime_contexts();
        self.vcs_adapter = false;
    }
}

/// What has to be done once a configuration was taken in: whether plugins are to be fetched,
/// and what is built again.
#[derive(Clone, Copy, PartialEq, Eq, Structural, Debug)]
pub struct SessionReset {
    pub download: bool,
    pub rebuild: Rebuild,
}

/// A session that keeps version control alone.
pub open spec fn without_components(session: MoonSession) -> MoonSession {
    MoonSession {
        aggregate_workspace_graph: false,
        app_context: false,
        extension_registry: false,
        project_graph: false,
        source_runtime_registry: false,
        task_graph: false,
        toolchain_registry: false,
        workspace_graph: false,
        ..session
    }
}

/// A session that takes in another configuration of plugins. Where that makes the plugins
/// obsolete, all that was made with them is forgotten.
pub open spec fn with_plugins(session: MoonSession, invalidate: bool) -> MoonSession {
    if invalidate {
        without_components(session)
    } else {
        MoonSession { app_context: false, source_runtime_registry: false, ..session }
    }
}

impl MoonSession {
    /// Takes in another environment of proto.
    pub fn reset_proto(&mut self) -> (reset: SessionReset)
        ensures
            *final(self) == without_components(*old(self)),
            reset == (SessionReset { download: false, rebuild: Rebuild::Context }),
    {
        self.reset_components();
        SessionReset { download: false, rebuild: Rebuild::Context }
    }

    /// Takes in another configuration of extensions.
    pub fn reset_extensions(&mut self, invalidate: bool) -> (reset: SessionReset)
        ensures
            *final(self) == with_plugins(*old(self), invalidate),
            reset == (SessionReset { download: invalidate, rebuild: Rebuild::Context }),
    {
        self.reset_runtime_contexts();
        if invalidate {
            self.reset_components();
        }
        SessionReset { download: invalidate, rebuild: Rebuild::Context }
    }

    /// Takes in another configuration of toolchains.
    pub fn reset_toolchains(&mut self, invalidate: bool) -> (reset: SessionReset)
        ensures
            *final(self) == with_plugins(*old(self), invalidate),
            reset == (SessionReset { download: invalidate, rebuild: Rebuild::Context }),
    {
        self.reset_runtime_contexts();
        if invalidate {
            self.reset_components();
        }
        SessionReset { download: invalidate, rebuild: Rebuild::Context }
    }

    /// Takes in another configuration of a project, or another set of projects.
    pub fn reset_projects(&mut self) -> (reset: SessionReset)
        ensures
            *final(self) == without_components(*old(self)),
            reset == (SessionReset { download: false, rebuild: Rebuild::Graphs }),
    {
        self.reset_components();
        SessionReset { download: false, rebuild: Rebuild::Graphs }
    }

    /// Takes in other inherited tasks. The graphs are built again where what is inherited
    /// changed.
    pub fn reset_tasks(&mut self, invalidate: bool) -> (reset: SessionReset)
        ensures
            *final(self) == if invalidate {
                without_components(*old(self))
            } else {
                *old(self)
            },
            reset.download == false,
            reset.rebuild == if invalidate {
                Rebuild::Graphs
            } else {
                Rebuild::Context
            },
    {
        if invalidate {
            self.reset_components();
        }
        SessionReset { download: false, rebuild: plan_tasks_reset(invalidate) }
    }

    /// Takes in another configuration of the workspace. Where the source roots are others now,
    /// the session ends as it is.
    pub fn reset_workspace(&mut self, change: WorkspaceChange) -> (reset: WorkspaceReset)
        ensures
            reset == workspace_reset(change),
            *final(self) == match reset {
                WorkspaceReset::Retire => *old(self),
                WorkspaceReset::Apply { reset_vcs, reset_components, .. } => {
                    let kept = if reset_components {
                        without_components(*old(self))
                    } else {
                        MoonSession {
                            app_context: false,
                            source_runtime_registry: false,
                            ..*old(self)
                        }
                    };
                    MoonSession { vcs_adapter: kept.vcs_adapter && !reset_vcs, ..kept }
                },
            },
    {
        let reset = plan_workspace_reset(change);
        match reset {
            WorkspaceReset::Retire => {},
            WorkspaceReset::Apply { reset_vcs, reset_components, .. } => {
                if reset_vcs {
                    self.reset_vcs();
                }
                if reset_components {
                    self.reset_components();
                }
                self.reset_runtime_contexts();
            },
        }
        reset
    }
}

/// What became of an action.
#[derive(Clone, Copy, PartialEq, Eq, Structural, Debug)]
pub enum ActionStatus {
    Invalid,
    Passed,
    Skipped,
}

/// The report of a project that is synchronised in another source root than its own.
pub open spec fn wrong_source_message(own: Seq<char>, other: Seq<char>) -> Seq<char> {
    "Sync project action for source "@ + own + " cannot run in source "@ + other + "."@
}

/// A project is synchronised in its own source root only.
pub fn check_sync_source(node: &SyncProjectNode, source: &SourceRootId) -> (checked: Result<
    (),
    String,
>)
    ensures
        match checked {
            Ok(()) => node.project_key@.source == source@,
            Err(message) => node.project_key@.source != source@ && message@ == wrong_source_message(
                node.project_key@.source,
                source@,
            ),
        },
{
    if node.project_key.source_id().same_key(source) {
        return Ok(());
    }
    let mut message = "Sync project action for source ".to_owned();
    message.append(node.project_key.source_id().as_str());
    message.append(" cannot run in source ");
    message.append(source.as_str());
    message.append(".");
    Err(message)
}

/// What becomes of the synchronisation of a project. Files that it changes in CI should have
/// been committed.
pub fn sync_status(skipped: bool, changed_files: usize, ci: bool) -> (status: ActionStatus)
    ensures
        status == if skipped {
            ActionStatus::Skipped
        } else if changed_files > 0 && ci {
            ActionStatus::Invalid
        } else {
            ActionStatus::Passed
        },
{
    if skipped {
        ActionStatus::Skipped
    } else if changed_files > 0 && ci {
        ActionStatus::Invalid
    } else {
        ActionStatus::Passed
    }
}

/// The source roots among some whose services were loaded.
pub open spec fn available_among(entries: Map<Seq<char>, RuntimeView>, ids: Seq<Seq<char>>) -> Seq<
    Seq<char>,
>
    decreases ids.len(),
{
    if ids.len() == 0 {
        ids
    } else {
        let rest = available_among(entries, ids.drop_last());
        if entries[ids.last()] is Available {
            rest.push(ids.last())
        } else {
            rest
        }
    }
}

/// The source roots whose caches are cleaned when a run completes: those whose services were
/// loaded.
pub fn caches_to_clean(registry: &SourceRuntimeRegistry, completed: bool) -> (ids: Vec<SourceRootId>)
    ensures
        views(ids@) == if completed {
            available_among(registry@.entries, registry.ids())
        } else {
            Seq::empty()
        },
{
    let mut ids: Vec<SourceRootId> = Vec::new();
    assert(views(ids@) =~= Seq::empty());
    if !completed {
        return ids;
    }
    let n = registry.len();
    let ghost all = registry.ids();
    let mut i: usize = 0;
    assert(all.take(0) =~= Seq::empty());
    while i < n
        invariant
            i <= n,
            all == registry.ids(),
            n == all.len(),
            views(ids@) == available_among(registry@.entries, all.take(i as int)),
        decreases n - i,
    {
        proof {
            assert(all.take(i + 1).drop_last() =~= all.take(i as int));
            assert(all.take(i + 1).last() == all[i as int]);
        }
        let entry = registry.entry_at(i);
        if let SourceRuntime::Available(_) = entry.1 {
            ids.push(entry.0.copy_key());
        }
        i = i + 1;
    }
    assert(all.take(i as int) =~= all);
    ids
}

} // verus!
