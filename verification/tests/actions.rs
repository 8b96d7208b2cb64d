use indexmap::IndexMap;
use moon_sources::action_builder::{ActionGraph, ActionGraphBuilder};
use moon_sources::action_context::{ActionContext, TargetLocator, TargetState};
use moon_sources::action_node::{ActionNode, RunTaskNode, ToolchainSpec};
use moon_sources::action_partition::{take_part, TargetsBlock};
use moon_sources::action_run::{internal_sync_project, RunRequirements};
use moon_sources::action_scene::{
    ActionGraphBuilderOptions, ActionScene, AffectedMarks, PipelineActionSwitch,
    ProjectSetting, ResolvedDependencies, ResolvedTaskDependency, ToolchainFacts,
    ToolchainPluginConfig, ToolchainsConfig,
};
use moon_sources::action_setup::internal_setup_toolchain;
use moon_sources::action_state::{ActionGraphError, ActionGraphState};
use moon_sources::action_tasks::TaskCall;
use moon_sources::action_targets::{
    own_target, plan_locator, project_request, query_for_projects, query_for_tasks,
    target_for_project, LocatorAnswer, LocatorPlan, ProjectRequest,
};
use moon_sources::affected::RelationScope;
use moon_sources::affected_tracker::TaskInputs;
use moon_sources::changed_files::{ChangedFilesObservation, ChangedStatus, ImpactCompleteness};
use moon_sources::config::{Constraints, DependencyScope, Project, ProjectDependencyConfig};
use moon_sources::graph::Direction;
use moon_sources::id::Id;
use moon_sources::invocation::TaskInvocationKey;
use moon_sources::keys::{ProjectKey, TaskKey};
use moon_sources::keyset::KeySet;
use moon_sources::path::LogicalPath;
use moon_sources::project_graph::{GraphExpanderContext, ProjectGraph, ProjectNode};
use moon_sources::runtime::{SourceContext, SourceRuntime, SourceRuntimeRegistry};
use moon_sources::source::{SourcePathBuf, SourceRegistry, SourceRootId};
use moon_sources::table::{Key, Table};
use moon_sources::task::{
    Target, TargetTaskScope, Task, TaskDependencyCacheStrategy, TaskDependencyType, TaskOptions,
};
use moon_sources::task_graph::{TaskGraph, TaskNode};
use std::sync::Arc;

fn source(id: &str) -> SourceRootId {
    SourceRootId::new(id).unwrap()
}

fn path(text: &str) -> LogicalPath {
    LogicalPath::parse(text)
}

fn project_key(source_id: &SourceRootId, id: &str) -> ProjectKey {
    ProjectKey::new(source_id.clone(), Id::raw(id)).unwrap()
}

fn task_key(source_id: &SourceRootId, project: &str, task: &str) -> TaskKey {
    TaskKey::new(project_key(source_id, project), Id::raw(task)).unwrap()
}

fn spec(id: &str) -> ToolchainSpec {
    ToolchainSpec::new(Id::raw(id), "1.2.3".into())
}

fn registry(primary: &SourceRootId, child: &SourceRootId) -> SourceRegistry {
    let mut sources = SourceRegistry::new(primary.clone(), path("/root"));
    sources.register(child.clone(), path("/root/child")).unwrap();
    sources
}

fn graph_context(sources: SourceRegistry) -> GraphExpanderContext {
    GraphExpanderContext {
        sources,
        working_dir: path("/root"),
        workspace_root: path("/root"),
        constraints: Constraints::none(),
    }
}

fn project_graph(
    context: GraphExpanderContext,
    projects: Vec<Project>,
    edges: &[(usize, usize)],
) -> Arc<ProjectGraph> {
    let mut graph = ProjectGraph::new(context);
    let mut links = petgraph::Graph::<usize, u8>::new();
    for (index, project) in projects.into_iter().enumerate() {
        let key = project.key();
        links.add_node(index);
        graph.indexes.push(key.clone());
        graph.nodes.insert(key, ProjectNode { index, project });
    }
    for (from, to) in edges {
        links.add_edge(
            petgraph::graph::NodeIndex::new(*from),
            petgraph::graph::NodeIndex::new(*to),
            DependencyScope::Build.label(),
        );
    }
    graph.set_graph(links).unwrap();
    Arc::new(graph)
}

fn task(source_id: &SourceRootId, project: &str, id: &str) -> Task {
    Task::new(
        source_id.clone(),
        Id::raw(id),
        Target::new(project, id).unwrap(),
    )
}

fn task_graph(
    context: GraphExpanderContext,
    projects: &Arc<ProjectGraph>,
    tasks: Vec<Task>,
    edges: &[(usize, usize, TaskDependencyType)],
) -> Arc<TaskGraph> {
    let mut graph = TaskGraph::new(context, Arc::clone(projects));
    for task in tasks {
        let key = task.key();
        let index = graph.graph.add_node();
        graph.indexes.push(key.clone());
        graph.nodes.insert(key, TaskNode { index, task });
    }
    for (owner, dependency, dependency_type) in edges {
        assert!(graph
            .graph
            .add_edge(*owner, *dependency, dependency_type.label()));
    }
    Arc::new(graph)
}

fn runtime(id: &SourceRootId, root: &str) -> SourceContext {
    SourceContext {
        source_id: id.clone(),
        workspace_root: path(root),
        store: "store".into(),
        vcs_enabled: true,
    }
}

fn toolchains(version: &str, ids: &[&str]) -> ToolchainsConfig {
    let mut plugins: Table<Id, ToolchainPluginConfig> = Table::new();
    for id in ids {
        plugins.insert(
            Id::raw(id),
            ToolchainPluginConfig {
                version: Some("1.2.3".into()),
                install_dependencies: true,
            },
        );
    }
    ToolchainsConfig {
        plugins,
        proto_version: version.into(),
        requires_proto: true,
    }
}

fn facts(source_id: &SourceRootId, project: Option<ProjectKey>, id: &str, requires: &[&str]) -> ToolchainFacts {
    ToolchainFacts {
        source: source_id.clone(),
        project,
        toolchain: Id::raw(id),
        tier_2: true,
        tier_3: true,
        has_setup_environment: false,
        has_install_dependencies: false,
        requires: requires.iter().map(|text| (*text).to_owned()).collect(),
        for_setup_environment: false,
        for_setup_toolchain: true,
        root: None,
    }
}

struct Fixture {
    options: ActionGraphBuilderOptions,
    primary: SourceRootId,
    child: SourceRootId,
    child_runtime: SourceRuntime,
    settings: Vec<ProjectSetting>,
    facts: Vec<ToolchainFacts>,
    projects: Arc<ProjectGraph>,
    tasks: Arc<TaskGraph>,
    resolved: Table<TaskKey, ResolvedDependencies>,
    affected: Option<AffectedMarks>,
}

impl Fixture {
    fn scene(self) -> ActionScene {
        let ids = ["tc-tier3", "tc-tier3-reqs", "tc-tier2-reqs"];
        let mut configs: Table<SourceRootId, ToolchainsConfig> = Table::new();
        configs.insert(self.primary.clone(), toolchains("0.1.2", &ids));
        configs.insert(self.child.clone(), toolchains("9.8.7", &ids));
        ActionScene {
            options: self.options,
            runtimes: SourceRuntimeRegistry::new(
                runtime(&self.primary, "/root"),
                vec![(self.child.clone(), self.child_runtime)],
            )
            .unwrap(),
            primary: self.primary,
            configs,
            settings: self.settings,
            facts: self.facts,
            projects: self.projects,
            tasks: self.tasks,
            resolved: self.resolved,
            unready: Table::new(),
            affected: self.affected,
        }
    }
}

fn fixture(options: ActionGraphBuilderOptions) -> Fixture {
    let primary = SourceRootId::primary();
    let child = source("child");
    let context = graph_context(registry(&primary, &child));
    let projects = project_graph(
        context.clone(),
        vec![
            Project::new(primary.clone(), Id::raw("app")),
            Project::new(child.clone(), Id::raw("app")),
        ],
        &[(0, 1)],
    );
    let mut root_task = task(&primary, "app", "root");
    root_task.options.run_deps_in_parallel = false;
    let tasks = task_graph(
        context,
        &projects,
        vec![
            root_task,
            task(&primary, "app", "build"),
            task(&child, "app", "build"),
            task(&child, "app", "lint"),
        ],
        &[
            (0, 1, TaskDependencyType::Required),
            (0, 2, TaskDependencyType::Required),
            (0, 3, TaskDependencyType::Optional),
        ],
    );
    let mut resolved: Table<TaskKey, ResolvedDependencies> = Table::new();
    resolved.insert(
        task_key(&primary, "app", "root"),
        ResolvedDependencies {
            items: vec![
                ResolvedTaskDependency {
                    declaration_ordinal: 0,
                    task_key: task_key(&primary, "app", "build"),
                    args: vec!["--local".into()],
                    env: IndexMap::new(),
                    dependency_type: TaskDependencyType::Required,
                    cache_strategy: TaskDependencyCacheStrategy::Hash,
                },
                ResolvedTaskDependency {
                    declaration_ordinal: 1,
                    task_key: task_key(&child, "app", "build"),
                    args: vec!["--cross".into()],
                    env: IndexMap::from_iter([("CROSS".into(), Some("1".into()))]),
                    dependency_type: TaskDependencyType::Required,
                    cache_strategy: TaskDependencyCacheStrategy::Outputs,
                },
                ResolvedTaskDependency {
                    declaration_ordinal: 2,
                    task_key: task_key(&child, "app", "lint"),
                    args: vec![],
                    env: IndexMap::new(),
                    dependency_type: TaskDependencyType::Optional,
                    cache_strategy: TaskDependencyCacheStrategy::Ignored,
                },
            ],
        },
    );
    let child_app = project_key(&child, "app");
    Fixture {
        options,
        child_runtime: SourceRuntime::Available(runtime(&child, "/root/child")),
        settings: vec![],
        facts: vec![
            facts(&primary, None, "tc-tier3", &[]),
            facts(&primary, None, "tc-tier3-reqs", &["tc-tier3"]),
            facts(&primary, None, "tc-tier2-reqs", &["tc-tier3"]),
            facts(&child, Some(child_app), "tc-tier3", &[]),
        ],
        primary,
        child,
        projects,
        tasks,
        resolved,
        affected: None,
    }
}

fn position(graph: &ActionGraph, wanted: impl Fn(&ActionNode) -> bool) -> usize {
    graph.nodes.iter().position(wanted).unwrap()
}

fn runs(graph: &ActionGraph, key: &TaskKey) -> Option<usize> {
    graph
        .nodes
        .iter()
        .position(|node| matches!(node, ActionNode::RunTask(inner) if &inner.key == key))
}

#[test]
fn run_task_identity_is_source_qualified() {
    let target = Target::parse("app:build").unwrap();
    let first_key = task_key(&source("first"), "app", "build");
    let second_key = task_key(&source("second"), "app", "build");

    let first = ActionNode::run_task(RunTaskNode::new_with_key(first_key, target.clone()));
    let second = ActionNode::run_task(RunTaskNode::new_with_key(second_key, target));

    assert!(!first.same_key(&second));
    assert_ne!(first.get_id(), second.get_id());
    assert_eq!(first.label(), second.label());
}

#[test]
fn runs_with_the_same_environment_are_the_same() {
    let target = Target::parse("app:build").unwrap();
    let key = task_key(&source("first"), "app", "build");
    let entry = |name: &str, value: &str| (name.to_string(), Some(value.to_string()));
    let node = |entries: Vec<(String, Option<String>)>| {
        let mut node = RunTaskNode::new_with_key(key.clone(), target.clone());
        node.env = IndexMap::from_iter(entries);
        node
    };
    let first = ActionNode::run_task(node(vec![entry("A", "1"), entry("B", "2")]));
    let second = ActionNode::run_task(node(vec![entry("B", "2"), entry("A", "1")]));
    let other = ActionNode::run_task(node(vec![entry("A", "1"), entry("B", "3")]));
    let fewer = ActionNode::run_task(node(vec![entry("A", "1")]));

    assert!(first.same_key(&second));
    assert!(first.same_key(&first.copy_key()));
    assert!(!first.same_key(&other));
    assert!(!first.same_key(&fewer));
}

#[test]
fn invocations_tell_environments_apart() {
    let target = Target::parse("app:build").unwrap();
    let key = task_key(&source("first"), "app", "build");
    let mut node = RunTaskNode::new_with_key(key.clone(), target);
    assert!(node.env.is_empty());
    assert!(node
        .invocation_key()
        .same_key(&TaskInvocationKey::from_task(key)));

    let plain = node.invocation_key();
    node.env = IndexMap::from_iter([("A".to_string(), Some("1".to_string()))]);
    let set = node.invocation_key();
    node.env = IndexMap::from_iter([("A".to_string(), None)]);
    let unset = node.invocation_key();

    assert!(!plain.same_key(&set));
    assert!(!plain.same_key(&unset));
    assert!(!set.same_key(&unset));
}

#[test]
fn serializes_shared_setup_across_sources() {
    let base = fixture(ActionGraphBuilderOptions::default());
    let primary_id = base.primary.clone();
    let child_id = base.child.clone();
    let mut builder = ActionGraphBuilder::new(base.scene());
    let spec = spec("tc-tier3");

    builder.setup_toolchain(&spec, None).unwrap();
    builder
        .setup_toolchain(&spec, Some(&project_key(&child_id, "app")))
        .unwrap();

    let (_, graph) = builder.build();
    let primary_toolchain = position(
        &graph,
        |node| matches!(node, ActionNode::SetupToolchain(node) if node.source_id == primary_id),
    );
    let child_proto = position(
        &graph,
        |node| matches!(node, ActionNode::SetupProto(node) if node.source_id == child_id),
    );
    assert!(graph
        .graph
        .find_edge(child_proto, primary_toolchain)
        .is_some());

    let versions: Vec<(SourceRootId, String)> = graph
        .nodes
        .iter()
        .filter_map(|node| match node {
            ActionNode::SetupProto(node) => Some((node.source_id.clone(), node.version.clone())),
            _ => None,
        })
        .collect();
    assert_eq!(
        versions,
        [
            (primary_id, "0.1.2".to_owned()),
            (child_id, "9.8.7".to_owned())
        ]
    );
}

#[test]
fn builds_cross_source_dependencies_from_canonical_metadata() {
    let primary = SourceRootId::primary();
    let child = source("child");
    let root_key = task_key(&primary, "app", "root");
    let child_build = task_key(&child, "app", "build");

    let mut offline = fixture(ActionGraphBuilderOptions::new(false));
    offline.child_runtime = SourceRuntime::Unavailable("offline".into());
    let mut unavailable = ActionGraphBuilder::new(offline.scene());
    match unavailable.run_task(&root_key, &RunRequirements::new(false)) {
        Err(ActionGraphError::Runtime(error)) => {
            assert!(error.message().contains("child") && error.message().contains("offline"));
        }
        _ => panic!("the child is offline"),
    }

    let mut dependents =
        ActionGraphBuilder::new(fixture(ActionGraphBuilderOptions::new(false)).scene());
    let mut reqs = RunRequirements::new(false);
    reqs.dependencies = RelationScope::Nothing;
    reqs.dependents = RelationScope::Direct;
    dependents.run_task(&child_build, &reqs).unwrap();
    assert!(runs(&dependents.build().1, &root_key).is_some());

    let mut builder =
        ActionGraphBuilder::new(fixture(ActionGraphBuilderOptions::new(false)).scene());
    builder
        .run_task(&root_key, &RunRequirements::new(false))
        .unwrap();
    let (_, graph) = builder.build();

    let builds: Vec<usize> = graph
        .nodes
        .iter()
        .enumerate()
        .filter(|(_, node)| {
            matches!(node, ActionNode::RunTask(inner) if inner.target.to_text() == "app:build")
        })
        .map(|(index, _)| index)
        .collect();
    assert_eq!(builds.len(), 2);
    assert_ne!(
        graph.nodes[builds[0]].source_id(),
        graph.nodes[builds[1]].source_id()
    );

    let label = |from: usize, to: usize| {
        graph
            .graph
            .edges()
            .into_iter()
            .find(|edge| edge.0 == from && edge.1 == to)
            .map(|edge| edge.2)
    };
    let root_index = runs(&graph, &root_key).unwrap();
    let lint_index = runs(&graph, &task_key(&child, "app", "lint")).unwrap();
    assert_eq!(
        label(root_index, lint_index),
        Some(TaskDependencyType::Optional.label())
    );
    assert!(builds.iter().all(|index| {
        label(root_index, *index) == Some(TaskDependencyType::Required.label())
    }));
    assert!(label(builds[1], builds[0]).is_some() || label(builds[0], builds[1]).is_some());
    assert!(graph.nodes.iter().any(|node| {
        matches!(node, ActionNode::RunTask(inner)
            if inner.args == ["--cross"]
                && inner.env.get("CROSS") == Some(&Some("1".into())))
    }));
}

#[test]
fn keeps_toolchain_requirements_path_local_across_siblings() {
    let scene = fixture(ActionGraphBuilderOptions::default()).scene();
    let mut state = ActionGraphState::new();
    let mut cycle: KeySet<Id> = KeySet::new();
    cycle.insert(Id::raw("root"));

    internal_setup_toolchain(&scene, &mut state, None, &spec("tc-tier3-reqs"), &cycle).unwrap();
    internal_setup_toolchain(&scene, &mut state, None, &spec("tc-tier2-reqs"), &cycle).unwrap();

    let find = |id: &str| {
        state
            .nodes
            .iter()
            .position(|node| {
                matches!(node, ActionNode::SetupToolchain(inner)
                    if inner.toolchain.id.as_str() == id)
            })
            .unwrap()
    };
    assert!(state
        .graph
        .find_edge(find("tc-tier2-reqs"), find("tc-tier3"))
        .is_some());
}

#[test]
fn keeps_project_dependencies_path_local_across_siblings() {
    let primary = SourceRootId::primary();
    let child = source("child");
    let context = graph_context(registry(&primary, &child));
    let projects = project_graph(
        context.clone(),
        ["foo", "bar", "qux", "baz"]
            .iter()
            .map(|id| Project::new(primary.clone(), Id::raw(id)))
            .collect(),
        &[(0, 1), (0, 2), (1, 3), (2, 3)],
    );
    let mut base = fixture(ActionGraphBuilderOptions::default());
    base.tasks = task_graph(context, &projects, vec![], &[]);
    base.projects = Arc::clone(&projects);
    let scene = base.scene();
    let mut state = ActionGraphState::new();
    let mut cycle: KeySet<ProjectKey> = KeySet::new();
    cycle.insert(project_key(&primary, "root"));
    let reqs = RunRequirements::new(false);

    for id in ["bar", "qux"] {
        let project = projects.get(id).unwrap();
        internal_sync_project(&scene, &mut state, &project, &reqs, &cycle).unwrap();
    }

    let find = |id: &str| {
        state
            .nodes
            .iter()
            .position(|node| {
                matches!(node, ActionNode::SyncProject(inner)
                    if inner.project_key.project_id().as_str() == id)
            })
            .unwrap()
    };
    assert!(state.graph.find_edge(find("bar"), find("baz")).is_some());
    assert!(state.graph.find_edge(find("qux"), find("baz")).is_some());
}

#[test]
fn jobs_share_the_tasks() {
    let items: Vec<String> = (0..10).map(|n| n.to_string()).collect();
    let mut all: Vec<String> = vec![];
    for job in 0..4 {
        all.extend(take_part(&items, job, 4).0);
    }
    assert_eq!(all, items);
    assert_eq!(take_part(&items, 0, 4).1, 3);
    assert_eq!(take_part(&items, 3, 4).0, ["9"]);
}

fn targets(text: &str) -> TargetLocator {
    TargetLocator::Qualified(Target::parse(text).unwrap())
}

#[test]
fn partitioned_targets_need_a_job() {
    let block = TargetsBlock::Partitioned {
        jobs: vec![vec![targets("a:b")], vec![targets("c:d"), targets("e:f")]],
    };
    let mut reqs = RunRequirements::new(true);
    reqs.job = Some(1);
    reqs.job_total = Some(2);
    assert_eq!(block.choose_targets(reqs).unwrap().locators.len(), 2);

    let mut beyond = RunRequirements::new(true);
    beyond.job = Some(2);
    beyond.job_total = Some(2);
    assert!(matches!(
        block.choose_targets(beyond),
        Err(ActionGraphError::InvalidJobIndex { index: 2, total: 2 })
    ));

    let mut other = RunRequirements::new(true);
    other.job = Some(1);
    other.job_total = Some(3);
    assert!(matches!(
        block.choose_targets(other),
        Err(ActionGraphError::MismatchedPlanJobTotals {
            plan_total: 2,
            total: 3
        })
    ));
    assert!(matches!(
        block.choose_targets(RunRequirements::new(true)),
        Err(ActionGraphError::InvalidPlanJobs)
    ));
}

#[test]
fn affected_tasks_alone_are_run() {
    let mut base = fixture(ActionGraphBuilderOptions::new(false));
    let root_key = task_key(&base.primary, "app", "root");
    base.affected = Some(AffectedMarks {
        projects: KeySet::new(),
        projects_alone: KeySet::new(),
        tasks: KeySet::new(),
        tasks_alone: KeySet::new(),
    });
    let mut builder = ActionGraphBuilder::new(base.scene());
    assert_eq!(
        builder
            .run_task(&root_key, &RunRequirements::new(false))
            .unwrap(),
        None
    );

    let mut base = fixture(ActionGraphBuilderOptions::new(false));
    let mut tasks: KeySet<TaskKey> = KeySet::new();
    tasks.insert(root_key.clone());
    let mut alone: KeySet<TaskKey> = KeySet::new();
    alone.insert(root_key.clone());
    base.affected = Some(AffectedMarks {
        projects: KeySet::new(),
        projects_alone: KeySet::new(),
        tasks,
        tasks_alone: alone,
    });
    let mut builder = ActionGraphBuilder::new(base.scene());
    assert!(builder
        .run_task(&root_key, &RunRequirements::new(false))
        .unwrap()
        .is_some());
}

#[test]
fn changed_files_reach_the_context() {
    let base = fixture(ActionGraphBuilderOptions::new(false));
    let child = base.child.clone();
    let mut builder = ActionGraphBuilder::new(base.scene());
    let mut observation: ChangedFilesObservation<SourcePathBuf> = ChangedFilesObservation::none();
    observation.files.insert(
        SourcePathBuf::new(child.clone(), "changed.txt"),
        vec![ChangedStatus::Modified],
    );
    let mut observations: Table<SourceRootId, ChangedFilesObservation<SourcePathBuf>> =
        Table::new();
    observations.insert(child.clone(), observation);
    builder.set_source_changed_files(observations);
    let (context, _) = builder.build();

    assert!(context
        .source_changed_files
        .get(&child)
        .unwrap()
        .contains(&"changed.txt".to_owned()));
}

#[test]
fn switches_turn_actions_off() {
    assert!(PipelineActionSwitch::Default.is_enabled(&Id::raw("node")));
    assert!(!PipelineActionSwitch::Enabled(false).is_enabled(&Id::raw("node")));
    assert!(PipelineActionSwitch::Only(vec![Id::raw("node")]).is_enabled(&Id::raw("node")));
    assert!(!PipelineActionSwitch::Only(vec![Id::raw("rust")]).is_enabled(&Id::raw("node")));
}

#[test]
fn contexts_remember_what_became_of_tasks() {
    let primary = SourceRootId::primary();
    let key = task_key(&primary, "app", "build");
    let mut context = ActionContext::new(primary);
    context.set_task_state(key.clone(), TargetState::from_hash(Some("abc")));
    context.set_invocation_state(
        TaskInvocationKey::from_task(key.clone()),
        TargetState::Skipped,
    );

    let other = task_key(&source("child"), "app", "build");
    context.set_task_state(other.clone(), TargetState::Failed);
    // What was noted first stands.
    context.set_task_state(key.clone(), TargetState::Skipped);

    let states = context.get_target_states();
    assert_eq!(states.len(), 2);
    assert_eq!(states.get(&key), Some(&TargetState::Passed("abc".into())));
    assert_eq!(states.get(&other), Some(&TargetState::Failed));
    assert!(TargetState::from_hash(None).is_complete());
    assert!(!TargetState::Failed.is_complete());
    assert!(TargetState::Skipped.is_skipped());
    assert!(!context.is_primary_task(&key));
    context.primary_targets.insert(key.clone());
    assert!(context.is_primary_task(&key));
}

#[test]
fn prefixes_are_as_wide_as_the_widest_name() {
    let primary = SourceRootId::primary();
    let mut context = ActionContext::new(primary.clone());
    assert_eq!(context.prefix_width(), None);

    context.primary_targets.insert(task_key(&primary, "app", "build"));
    assert_eq!(context.prefix_width(), Some(9));

    context
        .primary_targets
        .insert(task_key(&source("child"), "backend", "typecheck"));
    assert_eq!(context.prefix_width(), Some(17));
}

#[test]
fn locators_become_queries() {
    assert!(matches!(
        project_request(&Target::parse("app:build").unwrap()),
        Ok(ProjectRequest::One(id)) if id.as_str() == "app"
    ));
    assert!(matches!(
        project_request(&Target::parse(":build").unwrap()),
        Ok(ProjectRequest::All)
    ));
    assert_eq!(query_for_projects("app-*"), "project~app-*");
    assert_eq!(query_for_tasks("build-*", None), "task~build-*");
    assert!(matches!(
        plan_locator(&targets("app:build")),
        LocatorPlan::Target(_)
    ));
    assert_eq!(
        target_for_project(&Id::raw("app"), &Id::raw("build"))
            .unwrap()
            .to_text(),
        "app:build"
    );
}

#[test]
fn nothing_waits_for_itself() {
    let mut builder =
        ActionGraphBuilder::new(fixture(ActionGraphBuilderOptions::default()).scene());
    let root_key = task_key(&SourceRootId::primary(), "app", "root");
    builder
        .run_task(&root_key, &RunRequirements::new(false))
        .unwrap();
    let (_, graph) = builder.build();

    for index in 0..graph.nodes.len() {
        assert!(!graph
            .graph
            .neighbors(index, Direction::Outgoing)
            .contains(&index));
    }
    let sync = position(&graph, |node| matches!(node, ActionNode::SyncWorkspace(_)));
    assert!(graph.graph.neighbors(sync, Direction::Outgoing).is_empty());
}

#[test]
fn defaults_of_tasks_and_dependencies() {
    assert!(TaskOptions::default().run_deps_in_parallel);
    assert!(!ProjectDependencyConfig::new(Id::raw("a")).is_cross_source());
}

#[test]
fn jobs_share_out_the_tasks() {
    let keys = |base: &Fixture| {
        vec![
            task_key(&base.primary, "app", "build"),
            task_key(&base.child, "app", "build"),
            task_key(&base.child, "app", "lint"),
        ]
    };
    let mut names: Vec<String> = vec![];
    for job in 0..2 {
        let base = fixture(ActionGraphBuilderOptions::new(false));
        let tasks = keys(&base);
        let mut builder = ActionGraphBuilder::new(base.scene());
        let mut reqs = RunRequirements::new(false);
        reqs.skip_affected = true;
        reqs.job = Some(job);
        reqs.job_total = Some(2);
        let partition = builder.run_selected_tasks(tasks, reqs).unwrap();
        assert_eq!(partition.size, Some(2));
        for index in 0..partition.targets.len() {
            names.push(partition.targets.value_at(index).to_text());
        }
    }
    assert_eq!(
        names,
        [
            task_key(&SourceRootId::primary(), "app", "build").to_text(),
            "child::app:build".to_string(),
            "child::app:lint".to_string(),
        ]
    );

    let base = fixture(ActionGraphBuilderOptions::new(false));
    let tasks = keys(&base);
    let mut builder = ActionGraphBuilder::new(base.scene());
    let mut reqs = RunRequirements::new(false);
    reqs.job = Some(2);
    reqs.job_total = Some(2);
    assert!(matches!(
        builder.run_selected_tasks(tasks, reqs),
        Err(ActionGraphError::InvalidJobIndex { index: 2, total: 2 })
    ));

    let base = fixture(ActionGraphBuilderOptions::new(false));
    let tasks = keys(&base);
    let mut builder = ActionGraphBuilder::new(base.scene());
    let partition = builder.run_selected_tasks(tasks, RunRequirements::new(false)).unwrap();
    assert_eq!(partition.size, None);
    assert_eq!(partition.targets.len(), 3);
}

fn answer(all: Option<Vec<ProjectKey>>, projects: Vec<ProjectKey>) -> LocatorAnswer {
    LocatorAnswer {
        all,
        projects,
        tasks: vec![],
    }
}

#[test]
fn targets_run_the_tasks_of_their_projects() {
    let base = fixture(ActionGraphBuilderOptions::new(false));
    let primary_app = project_key(&base.primary, "app");
    let child_app = project_key(&base.child, "app");
    let mut builder = ActionGraphBuilder::new(base.scene());
    let reqs = RunRequirements::new(false);
    let mut run = |target: &str, found: LocatorAnswer| {
        builder.run_task_by_target(&Target::parse(target).unwrap(), &found, &reqs)
    };

    // Without a query the projects of the primary source root are meant.
    let own = run(":build", answer(None, vec![])).unwrap();
    assert_eq!(own.len(), 1);
    assert_eq!(own.value_at(0).project_key(), &primary_app);
    let both = vec![primary_app.clone(), child_app.clone()];
    assert_eq!(run(":build", answer(Some(both), vec![])).unwrap().len(), 2);
    let tagged = run("#web:lint", answer(None, vec![child_app.clone()])).unwrap();
    assert_eq!(tagged.len(), 1);
    assert_eq!(tagged.value_at(0).project_key(), &child_app);

    let named = run("app:build", answer(None, vec![])).unwrap();
    assert_eq!(named.value_at(0).project_key(), &primary_app);
    assert!(matches!(
        run("app:missing", answer(None, vec![])),
        Err(ActionGraphError::Task(_))
    ));
    assert!(matches!(
        run("other:build", answer(None, vec![])),
        Err(ActionGraphError::Project(_))
    ));
}

#[test]
fn targets_without_a_project_around_them_do_not_run() {
    let base = fixture(ActionGraphBuilderOptions::new(false));
    let found = answer(None, vec![project_key(&base.primary, "app")]);
    let mut builder = ActionGraphBuilder::new(base.scene());
    let reqs = RunRequirements::new(false);

    for target in ["^:build", "^production:build"] {
        assert!(matches!(
            builder.run_task_by_target(&Target::parse(target).unwrap(), &found, &reqs),
            Err(ActionGraphError::NoDepsInRunContext)
        ));
    }

    assert!(matches!(
        builder.run_task_by_target(&Target::parse("~:build").unwrap(), &found, &reqs),
        Err(ActionGraphError::NoSelfInRunContext)
    ));
    assert!(builder.state.nodes.is_empty());
}

#[test]
fn tasks_that_are_not_ready_are_passed_over_where_no_project_is_named() {
    let base = fixture(ActionGraphBuilderOptions::new(false));
    let build = task_key(&base.primary, "app", "build");
    let mut scene = base.scene();
    scene.unready.insert(build, "no such token".into());
    let mut builder = ActionGraphBuilder::new(scene);
    let reqs = RunRequirements::new(false);
    let found = answer(None, vec![]);

    let all = builder
        .run_task_by_target(&Target::parse(":build").unwrap(), &found, &reqs)
        .unwrap();
    assert_eq!(all.len(), 0);
    assert!(matches!(
        builder.run_task_by_target(&Target::parse("app:build").unwrap(), &found, &reqs),
        Err(ActionGraphError::Expansion { .. })
    ));
    assert!(matches!(
        builder.run_task_by_target(&Target::parse(":#ci").unwrap(), &found, &reqs),
        Err(ActionGraphError::Expansion { .. })
    ));
}

#[test]
fn locators_use_the_projects_that_were_found() {
    let base = fixture(ActionGraphBuilderOptions::new(false));
    let primary_app = project_key(&base.primary, "app");
    let build = task_key(&base.primary, "app", "build");
    let mut scene = base.scene();
    let mut builder = ActionGraphBuilder::new(scene);
    let reqs = RunRequirements::new(false);
    let nothing = answer(None, vec![]);

    // Nothing is at the current path, whatever the task.
    for locator in ["~:build", "~:#ci"] {
        assert!(matches!(
            builder.run_task_by_target_locator(&targets(locator), &nothing, &reqs),
            Err(ActionGraphError::NoProjectAtPath)
        ));
    }

    let here = answer(None, vec![primary_app.clone()]);
    assert!(matches!(
        builder.run_task_by_target_locator(&targets("~:#ci"), &here, &reqs),
        Err(ActionGraphError::UnqualifiedTask)
    ));
    let own = builder
        .run_task_by_target_locator(&targets("~:build"), &here, &reqs)
        .unwrap();
    assert_eq!(own.value_at(0), &build);

    // A pattern that selects no project selects no task.
    let pattern = TargetLocator::GlobMatch {
        project: None,
        project_glob: Some("none-*".into()),
        task_glob: "*".into(),
    };
    let mut found = answer(None, vec![]);
    found.tasks = vec![build.clone()];
    let selected = builder
        .run_task_by_target_locator(&pattern, &found, &reqs)
        .unwrap();
    assert_eq!(selected.len(), 0);
    found.projects = vec![primary_app.clone()];
    let selected = builder
        .run_task_by_target_locator(&pattern, &found, &reqs)
        .unwrap();
    assert_eq!(selected.len(), 1);

    let default = TargetLocator::DefaultProject(Id::raw("build"));
    assert!(matches!(
        builder.run_task_by_target_locator(&default, &nothing, &reqs),
        Err(ActionGraphError::NoDefaultProjectForTask { task_id }) if task_id == "build"
    ));
    let mut base = fixture(ActionGraphBuilderOptions::new(false));
    let mut projects = project_graph(
        graph_context(registry(&base.primary, &base.child)),
        vec![
            Project::new(base.primary.clone(), Id::raw("app")),
            Project::new(base.child.clone(), Id::raw("app")),
        ],
        &[],
    );
    Arc::get_mut(&mut projects).unwrap().default_key = Some(primary_app);
    base.projects = projects;
    scene = base.scene();
    builder = ActionGraphBuilder::new(scene);
    let run = builder
        .run_task_by_target_locator(&default, &nothing, &reqs)
        .unwrap();
    assert_eq!(run.value_at(0), &build);
}

#[test]
fn calls_of_one_task_are_apart() {
    let base = fixture(ActionGraphBuilderOptions::new(false));
    let key = task_key(&base.primary, "app", "build");
    let mut builder = ActionGraphBuilder::new(base.scene());
    let reqs = RunRequirements::new(false);
    let mut call = TaskCall::plain();
    let plain = builder.run_task_with_config(&key, &reqs, &call).unwrap();
    call.args = vec!["--watch".into()];
    let watching = builder.run_task_with_config(&key, &reqs, &call).unwrap();
    let again = builder.run_task_with_config(&key, &reqs, &call).unwrap();

    assert!(plain.is_some());
    assert_ne!(plain, watching);
    assert_eq!(watching, again);
}

#[test]
fn changed_files_belong_to_the_primary_source() {
    let base = fixture(ActionGraphBuilderOptions::new(false));
    let primary = base.primary.clone();
    let mut builder = ActionGraphBuilder::new(base.scene());
    let mut files: KeySet<String> = KeySet::new();
    files.insert("a.txt".into());
    builder.set_changed_files(files);
    let (context, _) = builder.build();

    assert!(context.changed_files.contains(&"a.txt".to_string()));
    assert!(context
        .source_changed_files
        .get(&primary)
        .unwrap()
        .contains(&"a.txt".to_string()));
}

#[test]
fn toolchains_of_a_project_are_installed() {
    let base = fixture(ActionGraphBuilderOptions::default());
    let mut project = Project::new(base.child.clone(), Id::raw("app"));
    project.toolchains = vec![Id::raw("tc-tier3")];
    let mut builder = ActionGraphBuilder::new(base.scene());

    assert_eq!(
        builder
            .install_dependencies_by_project(&project)
            .unwrap()
            .len(),
        1
    );
}

#[test]
fn arguments_are_for_the_tasks_that_were_asked_for() {
    let primary = SourceRootId::primary();
    let key = task_key(&primary, "app", "build");
    let target = Target::parse("app:build").unwrap();
    let mut context = ActionContext::new(primary.clone());
    context.primary_targets.insert(key.clone());
    assert!(!context.should_inherit_args(&key, &target));

    context.passthrough_args = vec!["--watch".into()];
    assert!(context.should_inherit_args(&key, &target));
    let lint = task_key(&primary, "app", "lint");
    let lint_target = Target::parse("app:lint").unwrap();
    assert!(!context.should_inherit_args(&lint, &lint_target));
    context.initial_targets.push(targets(":lint"));
    assert!(context.should_inherit_args(&lint, &lint_target));

    assert!(!context.is_dependency_ignored(&key, &lint));
    let mut ignored: KeySet<TaskKey> = KeySet::new();
    ignored.insert(lint.clone());
    context.ignored_dependencies.insert(key.clone(), ignored);
    assert!(context.is_dependency_ignored(&key, &lint));
    assert!(!context.is_dependency_ignored(&lint, &key));
}

#[test]
fn nodes_say_how_they_run() {
    let target = Target::parse("app:build").unwrap();
    let key = task_key(&SourceRootId::primary(), "app", "build");
    let mut run = RunTaskNode::new_with_key(key, target);
    run.persistent = true;
    let node = ActionNode::run_task(run);
    assert_eq!(node.get_priority(), 2);
    assert!(node.is_persistent());
    assert!(!node.is_interactive());
    assert!(!node.is_standard());
    assert!(ActionNode::Nothing.is_standard());
    assert_eq!(ActionNode::Nothing.get_priority(), 0);
}

#[test]
fn tags_name_no_single_task() {
    assert_eq!(
        own_target(&Id::raw("app"), &TargetTaskScope::Id(Id::raw("build")))
            .unwrap()
            .to_text(),
        "app:build"
    );
    assert!(matches!(
        own_target(&Id::raw("app"), &TargetTaskScope::Tag(Id::raw("ci"))),
        Err(ActionGraphError::UnqualifiedTask)
    ));
}

fn observed(source_id: &SourceRootId, file: Option<&str>) -> ChangedFilesObservation<SourcePathBuf> {
    let mut observation: ChangedFilesObservation<SourcePathBuf> = ChangedFilesObservation::none();
    observation.completeness = ImpactCompleteness::Exact;
    if let Some(file) = file {
        observation.files.insert(
            SourcePathBuf::new(source_id.clone(), file),
            vec![ChangedStatus::Modified],
        );
    }
    observation
}

fn tracking_builder(file: Option<&str>) -> (ActionGraphBuilder, SourceRegistry, TaskKey, TaskKey) {
    let base = fixture(ActionGraphBuilderOptions::new(false));
    let sources = registry(&base.primary, &base.child);
    let changed = task_key(&base.child, "app", "lint");
    let unchanged = task_key(&base.primary, "app", "build");
    let mut observations: Table<SourceRootId, ChangedFilesObservation<SourcePathBuf>> =
        Table::new();
    observations.insert(base.primary.clone(), observed(&base.primary, None));
    observations.insert(base.child.clone(), observed(&base.child, file));
    let mut builder = ActionGraphBuilder::new(base.scene());
    builder.set_source_changed_files(observations);
    (builder, sources, changed, unchanged)
}

fn inputs_of(key: &TaskKey, file: &str) -> TaskInputs {
    let mut files: KeySet<String> = KeySet::new();
    files.insert(file.into());
    let mut matched: Table<TaskKey, KeySet<String>> = Table::new();
    matched.insert(key.clone(), files);
    TaskInputs {
        env: KeySet::new(),
        listed: Table::new(),
        matched,
    }
}

#[test]
fn observations_decide_what_runs() {
    let (mut builder, sources, changed, unchanged) = tracking_builder(Some("src/main.rs"));
    builder.track_affected(
        sources,
        &inputs_of(&changed, "src/main.rs"),
        RelationScope::Nothing,
        RelationScope::Nothing,
        false,
    );
    let reqs = RunRequirements::new(false);
    assert!(builder.run_task(&changed, &reqs).unwrap().is_some());
    assert!(builder.run_task(&unchanged, &reqs).unwrap().is_none());

    let (context, _) = builder.build();
    let affected = context.aggregate_affected.unwrap();
    assert!(affected.is_task_affected(&changed));
    assert!(!affected.is_task_affected(&unchanged));
}

#[test]
fn without_changes_nothing_runs() {
    let (mut builder, sources, changed, _) = tracking_builder(None);
    builder.track_affected(
        sources,
        &inputs_of(&changed, "src/main.rs"),
        RelationScope::Deep,
        RelationScope::Deep,
        false,
    );
    let reqs = RunRequirements::new(false);
    assert!(builder.run_task(&changed, &reqs).unwrap().is_none());
    let mut all = RunRequirements::new(false);
    all.skip_affected = true;
    assert!(builder.run_task(&changed, &all).unwrap().is_some());
}

#[test]
fn tracking_begins_once() {
    let (mut builder, sources, changed, _) = tracking_builder(Some("src/main.rs"));
    assert!(builder.aggregate_affected.is_none());
    builder.set_affected(sources.clone());
    assert_eq!(builder.observations.len(), 0);
    // Nothing was looked at yet, so nothing counts as affected.
    assert!(builder
        .run_task(&changed, &RunRequirements::new(false))
        .unwrap()
        .is_none());
    builder.track_affected(
        sources,
        &inputs_of(&changed, "src/main.rs"),
        RelationScope::Nothing,
        RelationScope::Nothing,
        false,
    );
    assert!(builder
        .run_task(&changed, &RunRequirements::new(false))
        .unwrap()
        .is_some());
}

#[test]
fn plans_share_out_tasks_themselves() {
    let plan = TargetsBlock::Partitioned {
        jobs: vec![vec![targets("app:build")], vec![targets(":lint")]],
    };
    let base = fixture(ActionGraphBuilderOptions::new(false));
    let lint = task_key(&base.child, "app", "lint");
    let found = || answer(Some(vec![lint.project_key().clone()]), vec![]);
    let mut builder = ActionGraphBuilder::new(base.scene());
    let mut reqs = RunRequirements::new(false);
    assert!(matches!(
        builder.run_tasks_with_plan(&plan, &vec![], reqs),
        Err(ActionGraphError::InvalidPlanJobs)
    ));

    reqs.job = Some(1);
    reqs.job_total = Some(2);
    let partition = builder
        .run_tasks_with_plan(&plan, &vec![found()], reqs)
        .unwrap();
    assert_eq!(partition.size, Some(1));
    assert_eq!(partition.targets.len(), 1);

    let located = builder
        .run_task_by_target_locator(
            &targets(":lint"),
            &found(),
            &RunRequirements::new(false),
        )
        .unwrap();
    assert_eq!(located.len(), 1);
    assert_eq!(located.value_at(0), &lint);
    assert!(matches!(
        builder.run_task_by_target_locator(
            &targets("app:none"),
            &found(),
            &RunRequirements::new(false),
        ),
        Err(ActionGraphError::Task(_))
    ));
}

#[test]
fn a_second_run_adds_nothing() {
    let base = fixture(ActionGraphBuilderOptions::new(false));
    let root = task_key(&base.primary, "app", "root");
    let mut builder = ActionGraphBuilder::new(base.scene());
    let reqs = RunRequirements::new(false);
    let first = builder.run_selected_tasks(vec![root.clone()], reqs).unwrap();
    let nodes = builder.state.nodes.len();
    let edges = builder.state.graph.edge_count();
    let second = builder.run_selected_tasks(vec![root.clone()], reqs).unwrap();
    assert_eq!(first.targets.key_at(0), second.targets.key_at(0));
    assert_eq!(builder.state.nodes.len(), nodes);
    assert_eq!(builder.state.graph.edge_count(), edges);
    let (_, graph) = builder.build();
    assert_eq!(
        graph
            .nodes
            .iter()
            .filter(|node| matches!(node, ActionNode::RunTask(inner) if inner.key == root))
            .count(),
        1
    );
}

#[test]
fn tasks_that_cannot_be_expanded_do_not_run() {
    let base = fixture(ActionGraphBuilderOptions::new(false));
    let root = task_key(&base.primary, "app", "root");
    let build = task_key(&base.child, "app", "build");
    let mut scene = base.scene();
    scene.unready.insert(build, "no such token".into());
    let mut builder = ActionGraphBuilder::new(scene);
    assert!(matches!(
        builder.run_selected_tasks(vec![root], RunRequirements::new(false)),
        Err(ActionGraphError::Expansion { reason }) if reason == "no such token"
    ));
}

#[test]
fn runs_are_numbered_by_key_and_kind() {
    let target = Target::parse("app:build").unwrap();
    let key = task_key(&source("first"), "app", "build");
    let mut node = RunTaskNode::new_with_key(key.clone(), target);
    assert!(node.hash_input().bytes.is_empty());
    node.persistent = true;
    node.interactive = true;
    let input = node.hash_input();
    assert_eq!(input.key, key);
    assert_eq!(input.bytes, [100, 50]);
}

#[test]
fn contexts_start_without_arguments() {
    let base = fixture(ActionGraphBuilderOptions::new(false));
    let builder = ActionGraphBuilder::new(base.scene());
    assert_eq!(builder.observations.len(), 0);
    let (context, graph) = builder.build();
    assert!(context.passthrough_args.is_empty());
    assert!(context.initial_targets.is_empty());
    assert_eq!(context.get_target_states().len(), 0);
    assert!(graph.nodes.is_empty());
}

#[test]
fn runs_keep_what_is_known_of_changes() {
    let (mut builder, sources, changed, _) = tracking_builder(Some("src/main.rs"));
    builder.track_affected(
        sources,
        &inputs_of(&changed, "src/main.rs"),
        RelationScope::Nothing,
        RelationScope::Nothing,
        false,
    );
    let known = builder.source_changed_files.len();
    builder
        .run_selected_tasks(vec![changed.clone()], RunRequirements::new(false))
        .unwrap();
    assert!(builder.changed_files.is_some());
    assert_eq!(builder.source_changed_files.len(), known);
    let mut files: KeySet<String> = KeySet::new();
    files.insert("src/lib.rs".into());
    builder.set_changed_files(files);
    assert!(builder.aggregate_affected.is_some());

    let (context, _) = builder.build();
    assert!(context.changed_files.contains(&"src/lib.rs".to_string()));
    assert_eq!(context.source_changed_files.len(), known);
    assert!(context.aggregate_affected.is_some());
}

#[test]
fn runs_of_a_graph_are_numbered() {
    let base = fixture(ActionGraphBuilderOptions::new(false));
    let root = task_key(&base.primary, "app", "root");
    let mut builder = ActionGraphBuilder::new(base.scene());
    builder
        .run_selected_tasks(vec![root], RunRequirements::new(false))
        .unwrap();
    let (_, graph) = builder.build();
    assert!(graph.nodes.iter().all(|node| match node {
        ActionNode::RunTask(inner) => inner.id.is_some(),
        _ => true,
    }));
}

#[test]
fn a_second_run_comes_to_what_a_failure_left_out() {
    let mut base = fixture(ActionGraphBuilderOptions::new(false));
    let context = graph_context(registry(&base.primary, &base.child));
    let required = TaskDependencyType::Required;
    base.tasks = task_graph(
        context,
        &base.projects,
        ["base", "middle", "broken", "wide"]
            .iter()
            .map(|id| task(&base.primary, "app", id))
            .collect(),
        // Dependents are listed by the newest edge first.
        &[
            (3, 0, required),
            (1, 0, required),
            (3, 1, required),
            (2, 1, required),
        ],
    );
    let key = |id: &str| task_key(&SourceRootId::primary(), "app", id);
    let dependency = |ordinal: usize, id: &str, args: &[&str]| ResolvedTaskDependency {
        declaration_ordinal: ordinal,
        task_key: key(id),
        args: args.iter().map(|arg| arg.to_string()).collect(),
        env: IndexMap::new(),
        dependency_type: required,
        cache_strategy: TaskDependencyCacheStrategy::Hash,
    };
    base.resolved = Table::new();
    for (id, items) in [
        ("middle", vec![dependency(0, "base", &[])]),
        ("broken", vec![dependency(0, "middle", &[])]),
        (
            "wide",
            vec![dependency(0, "middle", &["--wide"]), dependency(1, "base", &["--wide"])],
        ),
    ] {
        base.resolved.insert(key(id), ResolvedDependencies { items });
    }
    let mut scene = base.scene();
    scene.unready.insert(key("broken"), "no such token".into());
    let mut builder = ActionGraphBuilder::new(scene);
    let mut reqs = RunRequirements::new(false);
    reqs.dependents = RelationScope::Deep;

    // The action of the task stays, though one of its dependents cannot run.
    assert!(builder.run_task(&key("middle"), &reqs).is_err());
    let first = builder.run_task(&key("base"), &reqs).unwrap();
    assert!(first.is_some());
    // The runs with other arguments put the dependents of both tasks off, so that they are
    // looked at again.
    assert!(matches!(
        builder.run_task(&key("base"), &reqs),
        Err(ActionGraphError::Expansion { .. })
    ));
    // Without dependents nothing is looked at again.
    reqs.dependents = RelationScope::Nothing;
    assert_eq!(builder.run_task(&key("base"), &reqs).unwrap(), first);
    assert_eq!(builder.run_task(&key("base"), &reqs).unwrap(), first);
}

#[test]
fn locators_share_out_tasks_together() {
    let base = fixture(ActionGraphBuilderOptions::new(false));
    let lint = task_key(&base.child, "app", "lint");
    let locators = vec![targets("app:build"), targets(":lint")];
    let answers = || {
        vec![
            answer(None, vec![]),
            answer(Some(vec![lint.project_key().clone()]), vec![]),
        ]
    };
    let mut builder = ActionGraphBuilder::new(base.scene());
    let mut reqs = RunRequirements::new(false);
    let partition = builder.run_tasks(&locators, &answers(), reqs).unwrap();
    assert_eq!(partition.size, None);
    assert_eq!(partition.targets.len(), 2);

    reqs.job = Some(1);
    reqs.job_total = Some(2);
    let partition = builder.run_tasks(&locators, &answers(), reqs).unwrap();
    assert_eq!(partition.size, Some(1));
    assert_eq!(partition.targets.len(), 1);
    assert_eq!(partition.targets.value_at(0), &lint);

    let nodes = builder.state.nodes.len();
    assert!(matches!(
        builder.run_tasks(&vec![targets("^:build")], &vec![answer(None, vec![])], reqs),
        Err(ActionGraphError::NoDepsInRunContext)
    ));
    assert_eq!(builder.state.nodes.len(), nodes);
}
