//! What the hash of a task is made of.

use crate::config::{copy_ids, DependencyView, Project, ProjectView};
use crate::environment::list_env;
use crate::id::{valid_id, Id};
use crate::invocation::{EnvEntry, EnvView, InvocationView, TaskInvocationKey};
use crate::keys::{ProjectKey, ProjectKeyView, TaskKey, TaskKeyView};
use crate::order::{ranked, sort_ranked, view_of, views};
use crate::source::{SourcePathBuf, SourcePathView};
use crate::table::{value_views, value_views_empty, Table};
use crate::task::{copy_option, copy_texts, key_of_task, Task, TaskView};
use vstd::prelude::*;

verus! {

broadcast use crate::order::group_views;

/// What the hash of a task is made of.
pub struct FingerprintView {
    pub cache_key: Option<Seq<char>>,
    pub command: Seq<char>,
    pub args: Seq<Seq<char>>,
    pub deps: Map<InvocationView, Seq<char>>,
    pub env: Seq<EnvView>,
    pub inputs: Map<SourcePathView, Seq<char>>,
    pub input_env: Map<Seq<char>, Seq<char>>,
    pub outputs: Seq<Seq<char>>,
    pub project_deps: Seq<ProjectKeyView>,
    pub script: Option<Seq<char>>,
    pub target: TaskKeyView,
    pub toolchains: Seq<Seq<char>>,
    pub version: Seq<char>,
}

/// What the hash of a task is made of. The environment is in order; what tasks it depends on,
/// and what files it reads, is filled in later.
#[derive(Debug)]
pub struct TaskFingerprint {
    pub cache_key: Option<String>,
    pub command: String,
    pub args: Vec<String>,
    pub deps: Table<TaskInvocationKey, String>,
    pub env: Vec<EnvEntry>,
    pub inputs: Table<SourcePathBuf, String>,
    pub input_env: Table<String, String>,
    pub outputs: Vec<String>,
    pub project_deps: Vec<ProjectKey>,
    pub script: Option<String>,
    pub target: TaskKey,
    pub toolchains: Vec<Id>,
    pub version: String,
}

impl View for TaskFingerprint {
    type V = FingerprintView;

    open spec fn view(&self) -> FingerprintView {
        FingerprintView {
            cache_key: view_of(self.cache_key),
            command: self.command@,
            args: views(self.args@),
            deps: value_views(self.deps@),
            env: views(self.env@),
            inputs: value_views(self.inputs@),
            input_env: value_views(self.input_env@),
            outputs: views(self.outputs@),
            project_deps: views(self.project_deps@),
            script: view_of(self.script),
            target: self.target@,
            toolchains: views(self.toolchains@),
            version: self.version@,
        }
    }
}

/// The key of a project that another project depends on. Without a source root it is one of
/// the same source root.
pub open spec fn dependency_key(project: ProjectView, dependency: DependencyView) -> ProjectKeyView {
    ProjectKeyView {
        source: match dependency.source_root {
            Some(source) => source,
            None => project.source_id,
        },
        project: dependency.id,
    }
}

/// The keys of the projects that a project depends on.
pub open spec fn dependency_keys(project: ProjectView) -> Seq<ProjectKeyView> {
    project.dependencies.map_values(|dependency: DependencyView| dependency_key(project, dependency))
}

/// The version of fingerprints. Another version makes all other hashes.
pub open spec fn fingerprint_version() -> Seq<char> {
    "4"@
}

/// What the hash of a task is made of, before its dependencies and inputs are known.
pub open spec fn fingerprint_of(
    project: ProjectView,
    task: TaskView,
) -> FingerprintView {
    FingerprintView {
        cache_key: task.cache_key,
        command: task.command,
        args: task.args,
        deps: Map::empty(),
        env: ranked::<EnvEntry>(task.env),
        inputs: Map::empty(),
        input_env: Map::empty(),
        outputs: task.outputs,
        project_deps: dependency_keys(project),
        script: task.script,
        target: key_of_task(task)->0,
        toolchains: task.toolchains,
        version: fingerprint_version(),
    }
}

/// The identifiers of the dependencies of a project are valid.
pub open spec fn valid_dependencies(project: ProjectView) -> bool {
    forall|i: int|
        0 <= i < project.dependencies.len() ==> valid_id(
            (#[trigger] project.dependencies[i]).id,
        )
}

impl TaskFingerprint {
    /// What the hash of a task is made of, before its dependencies and inputs are known.
    pub fn new(project: &Project, task: &Task) -> (fingerprint: Self)
        requires
            key_of_task(task@) is Some,
            valid_dependencies(project@),
        ensures
            fingerprint@ == fingerprint_of(project@, task@),
    {
        let mut project_deps: Vec<ProjectKey> = Vec::new();
        let mut i: usize = 0;
        while i < project.dependencies.len()
            invariant
                i <= project.dependencies@.len(),
                valid_dependencies(project@),
                views(project_deps@) =~= dependency_keys(project@).take(i as int),
            decreases project.dependencies.len() - i,
        {
            let dependency = &project.dependencies[i];
            let source = match &dependency.source_root {
                Some(source) => source.clone(),
                None => project.source_id.clone(),
            };
            proof {
                assert(project@.dependencies[i as int] == dependency@);
                assert(valid_id(project@.dependencies[i as int].id));
            }
            if let Ok(key) = ProjectKey::new(source, dependency.id.clone()) {
                project_deps.push(key);
            }
            i = i + 1;
        }
        proof {
            assert(dependency_keys(project@).take(i as int) =~= dependency_keys(project@));
            value_views_empty::<InvocationView, String>();
            value_views_empty::<SourcePathView, String>();
            value_views_empty::<Seq<char>, String>();
        }
        TaskFingerprint {
            cache_key: copy_option(&task.cache_key),
            command: task.command.clone(),
            args: copy_texts(&task.args),
            deps: Table::new(),
            env: sort_ranked(list_env(&task.env)),
            inputs: Table::new(),
            input_env: Table::new(),
            outputs: copy_texts(&task.outputs),
            project_deps,
            script: copy_option(&task.script),
            target: task.key(),
            toolchains: copy_ids(&task.toolchains),
            version: "4".to_owned(),
        }
    }
}

/// Tasks with different keys have different fingerprints: hashes are qualified by source root.
pub proof fn fingerprints_tell_tasks_apart(
    project_a: ProjectView,
    task_a: TaskView,
    project_b: ProjectView,
    task_b: TaskView,
)
    requires
        key_of_task(task_a) is Some,
        key_of_task(task_b) is Some,
        key_of_task(task_a) != key_of_task(task_b),
    ensures
        fingerprint_of(project_a, task_a) != fingerprint_of(project_b, task_b),
{
    assert(fingerprint_of(project_a, task_a).target == key_of_task(task_a)->0);
    assert(fingerprint_of(project_b, task_b).target == key_of_task(task_b)->0);
}

} // verus!
