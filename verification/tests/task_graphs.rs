use moon_sources::config::{Constraints, DependencyScope, Project};
use moon_sources::id::Id;
use moon_sources::keys::{ProjectKey, TaskKey};
use moon_sources::path::LogicalPath;
use moon_sources::project_graph::{GraphExpanderContext, ProjectGraph, ProjectNode};
use moon_sources::source::{SourceRegistry, SourceRootId};
use moon_sources::task::{
    validate_task_dependency, Target, Task, TaskDependencyConfig, TaskDependencyType,
    TaskDependencyValidationError, TaskOptionRunInCI, TaskOptions,
};
use moon_sources::task_graph::{TaskGraph, TaskGraphError, TaskNode};
use std::sync::Arc;

fn source(id: &str) -> SourceRootId {
    SourceRootId::new(id).unwrap()
}

fn path(text: &str) -> LogicalPath {
    LogicalPath::parse(text)
}

fn context(source_id: SourceRootId, root: &str) -> GraphExpanderContext {
    GraphExpanderContext {
        sources: SourceRegistry::new(source_id, path(root)),
        working_dir: path(root),
        workspace_root: path(root),
        constraints: Constraints::none(),
    }
}

fn projects(
    edges: &[(usize, usize, DependencyScope)],
) -> (Arc<ProjectGraph>, ProjectKey, ProjectKey) {
    let primary_id = source("primary");
    let child_id = source("child");
    let mut sources = SourceRegistry::new(primary_id.clone(), path("/primary"));
    sources.register(child_id.clone(), path("/child")).unwrap();
    let mut graph_context = context(primary_id.clone(), "/primary");
    graph_context.sources = sources;
    let mut projects = ProjectGraph::new(graph_context);
    let primary_key = ProjectKey::new(primary_id, Id::raw("app")).unwrap();
    let child_key = ProjectKey::new(child_id, Id::raw("lib")).unwrap();
    let mut graph = petgraph::Graph::<usize, u8>::new();

    for (index, key) in [&primary_key, &child_key].into_iter().enumerate() {
        let project = Project::new(key.source_id().clone(), key.project_id().clone());
        projects.indexes.push(key.clone());
        projects
            .nodes
            .insert(key.clone(), ProjectNode { index, project });
        graph.add_node(index);
    }

    for (from, to, scope) in edges {
        graph.add_edge(
            petgraph::graph::NodeIndex::new(*from),
            petgraph::graph::NodeIndex::new(*to),
            scope.label(),
        );
    }
    projects.set_graph(graph).unwrap();

    (Arc::new(projects), primary_key, child_key)
}

fn tasks(
    context: GraphExpanderContext,
    project_graph: Arc<ProjectGraph>,
    project_key: &ProjectKey,
    configs: Vec<(&str, Vec<TaskDependencyConfig>)>,
) -> TaskGraph {
    let mut graph = TaskGraph::new(context, project_graph);

    for (task_id, configured_deps) in configs {
        let target = Target::new(project_key.project_id().as_str(), task_id).unwrap();
        let mut task = Task::new(project_key.source_id().clone(), Id::raw(task_id), target);
        task.configured_deps = configured_deps;
        let key = task.key();
        let index = graph.graph.add_node();
        graph.indexes.push(key.clone());
        graph.nodes.insert(key, TaskNode { index, task });
    }

    graph
}

fn depends_on(scope: &str, task: &str) -> TaskDependencyConfig {
    TaskDependencyConfig::new(Target::new(scope, task).unwrap())
}

#[test]
fn composes_cross_source_dependency_selectors_with_exact_scopes() {
    let (projects, primary_project, child_project) = projects(&[(0, 1, DependencyScope::Build)]);
    let primary = tasks(
        context(primary_project.source_id().clone(), "/primary"),
        Arc::clone(&projects),
        &primary_project,
        vec![(
            "build",
            vec![
                depends_on("^build", "build"),
                depends_on("^production", "test"),
            ],
        )],
    );
    let child = tasks(
        context(child_project.source_id().clone(), "/child"),
        Arc::clone(&projects),
        &child_project,
        vec![("build", vec![]), ("test", vec![])],
    );
    let graph = TaskGraph::compose(projects, vec![&primary, &child]).unwrap();
    let source_key = TaskKey::new(primary_project, Id::raw("build")).unwrap();
    let dependencies = graph.dependencies_of(graph.get_unexpanded_by_key(&source_key).unwrap());

    assert_eq!(dependencies.len(), 1);
    assert_eq!(dependencies[0].to_text(), "child::lib:build");
    assert_eq!(
        graph.cross_source_dependencies_of(&source_key)[0].to_text(),
        "child::lib:build"
    );
    assert_eq!(graph.contexts.len(), 2);
    assert_eq!(
        graph
            .contexts
            .get(&source("child"))
            .unwrap()
            .workspace_root,
        path("/child")
    );
    assert_eq!(
        graph
            .focus_for_key(&source_key, false)
            .unwrap()
            .contexts
            .len(),
        2
    );
}

#[test]
fn rejects_cross_source_task_cycles_with_qualified_keys() {
    let (projects, primary_project, child_project) = projects(&[
        (0, 1, DependencyScope::Build),
        (1, 0, DependencyScope::Production),
    ]);
    let primary = tasks(
        context(primary_project.source_id().clone(), "/primary"),
        Arc::clone(&projects),
        &primary_project,
        vec![("build", vec![depends_on("^", "build")])],
    );
    let child = tasks(
        context(child_project.source_id().clone(), "/child"),
        Arc::clone(&projects),
        &child_project,
        vec![("build", vec![depends_on("^", "build")])],
    );
    let error = TaskGraph::compose(projects, vec![&primary, &child])
        .err()
        .unwrap()
        .message()
        .unwrap();

    assert!(error.contains("primary::app:build"));
    assert!(error.contains("child::lib:build"));
}

#[test]
fn detects_cross_source_dependencies_in_transitive_closures() {
    let (projects, primary_project, child_project) = projects(&[(0, 1, DependencyScope::Build)]);
    let mut primary = tasks(
        context(primary_project.source_id().clone(), "/primary"),
        Arc::clone(&projects),
        &primary_project,
        vec![
            ("root", vec![]),
            ("middle", vec![depends_on("^", "build")]),
        ],
    );
    let root_key = TaskKey::new(primary_project.clone(), Id::raw("root")).unwrap();
    let middle_key = TaskKey::new(primary_project, Id::raw("middle")).unwrap();
    primary
        .add_edge(&root_key, &middle_key, TaskDependencyType::Required)
        .unwrap();
    let child = tasks(
        context(child_project.source_id().clone(), "/child"),
        Arc::clone(&projects),
        &child_project,
        vec![("build", vec![])],
    );
    let graph = TaskGraph::compose(projects, vec![&primary, &child]).unwrap();

    assert!(graph.cross_source_dependencies_of(&root_key).is_empty());
    assert_eq!(
        graph
            .cross_source_dependency_in_closure(&root_key)
            .unwrap()
            .to_text(),
        "child::lib:build"
    );
}

#[test]
fn the_nearest_cross_source_dependency_is_found() {
    let (projects, primary_project, child_project) = projects(&[(0, 1, DependencyScope::Build)]);
    let mut primary = tasks(
        context(primary_project.source_id().clone(), "/primary"),
        Arc::clone(&projects),
        &primary_project,
        vec![
            ("root", vec![]),
            ("a", vec![]),
            ("deep", vec![depends_on("^", "alpha")]),
            ("z", vec![depends_on("^", "omega")]),
        ],
    );
    let key = |id: &str| TaskKey::new(primary_project.clone(), Id::raw(id)).unwrap();
    for (from, to) in [("root", "a"), ("a", "deep"), ("root", "z")] {
        primary
            .add_edge(&key(from), &key(to), TaskDependencyType::Required)
            .unwrap();
    }
    let child = tasks(
        context(child_project.source_id().clone(), "/child"),
        Arc::clone(&projects),
        &child_project,
        vec![("alpha", vec![]), ("omega", vec![])],
    );
    let graph = TaskGraph::compose(projects, vec![&primary, &child]).unwrap();

    assert_eq!(
        graph
            .cross_source_dependency_in_closure(&key("root"))
            .unwrap()
            .to_text(),
        "child::lib:omega"
    );
    assert_eq!(
        graph
            .cross_source_dependency_in_closure(&key("a"))
            .unwrap()
            .to_text(),
        "child::lib:alpha"
    );
}

#[test]
fn dependents_mirror_dependencies() {
    let (projects, primary_project, child_project) = projects(&[(0, 1, DependencyScope::Build)]);
    let primary = tasks(
        context(primary_project.source_id().clone(), "/primary"),
        Arc::clone(&projects),
        &primary_project,
        vec![("build", vec![depends_on("^", "build")])],
    );
    let child = tasks(
        context(child_project.source_id().clone(), "/child"),
        Arc::clone(&projects),
        &child_project,
        vec![("build", vec![])],
    );
    let graph = TaskGraph::compose(projects, vec![&child, &primary]).unwrap();
    let child_key = TaskKey::new(child_project, Id::raw("build")).unwrap();
    let dependents = graph.dependents_of(graph.get_unexpanded_by_key(&child_key).unwrap());

    assert_eq!(dependents.len(), 1);
    assert_eq!(dependents[0].to_text(), "primary::app:build");
    assert_eq!(graph.focus_for_key(&child_key, false).unwrap().nodes.len(), 1);
    assert_eq!(graph.focus_for_key(&child_key, true).unwrap().nodes.len(), 2);
}

#[test]
fn cycles_of_tasks_are_refused() {
    let (projects, primary_project, _) = projects(&[]);
    let mut graph = tasks(
        context(primary_project.source_id().clone(), "/primary"),
        projects,
        &primary_project,
        vec![("a", vec![]), ("b", vec![])],
    );
    let a = TaskKey::new(primary_project.clone(), Id::raw("a")).unwrap();
    let b = TaskKey::new(primary_project, Id::raw("b")).unwrap();

    graph.add_edge(&a, &b, TaskDependencyType::Required).unwrap();
    let error = graph
        .add_edge(&b, &a, TaskDependencyType::Required)
        .err().unwrap();

    assert!(matches!(error, TaskGraphError::WouldCycle { .. }));
    assert_eq!(
        error.message().unwrap(),
        "Unable to create task graph, adding a relationship from primary::app:b to primary::app:a would introduce a cycle."
    );
}

#[test]
fn unknown_tasks_are_reported() {
    let (projects, primary_project, _) = projects(&[]);
    let graph = tasks(
        context(primary_project.source_id().clone(), "/primary"),
        projects,
        &primary_project,
        vec![("a", vec![])],
    );

    assert!(graph.get_unexpanded(&Target::new("app", "a").unwrap()).is_ok());
    assert!(graph.get_unexpanded(&Target::new("app", "b").unwrap()).is_err());
}

fn options() -> TaskOptions {
    TaskOptions::default()
}

#[test]
fn task_dependencies_are_validated() {
    let mut failing = options();
    failing.allow_failure = true;
    assert_eq!(
        validate_task_dependency(&options(), &failing),
        Err(TaskDependencyValidationError::AllowFailure)
    );

    let mut persistent = options();
    persistent.persistent = true;
    assert_eq!(
        validate_task_dependency(&options(), &persistent),
        Err(TaskDependencyValidationError::Persistent)
    );
    assert_eq!(validate_task_dependency(&persistent, &persistent), Ok(()));

    let mut local = options();
    local.run_in_ci = TaskOptionRunInCI::Enabled(false);
    assert_eq!(
        validate_task_dependency(&options(), &local),
        Err(TaskDependencyValidationError::RunInCi)
    );
    assert_eq!(validate_task_dependency(&options(), &options()), Ok(()));
}

#[test]
fn targets_round_trip_through_texts() {
    for text in ["app:build", ":lint", "~:test", "^:build", "#tag:build", "^production:build"] {
        assert_eq!(Target::parse(text).unwrap().to_text(), text);
    }
    assert!(Target::parse("").is_err());
    assert!(Target::parse("a b:build").is_err());
}

#[test]
fn tasks_are_found_by_target() {
    let (projects, primary_project, _) = projects(&[]);
    let graph = tasks(
        context(primary_project.source_id().clone(), "/primary"),
        projects,
        &primary_project,
        vec![("build", vec![]), ("test", vec![])],
    );
    let target = |id: &str| Target::new("app", id).unwrap();
    let wanted = vec![target("test"), target("build")];

    let found = graph.get_many_unexpanded(&wanted).unwrap();
    assert_eq!(found[0].id.as_str(), "test");
    assert_eq!(found[1].id.as_str(), "build");
    let expanded = graph.get_many(&wanted).unwrap();
    assert_eq!(expanded[0].task.id.as_str(), "test");
    assert_eq!(expanded[1].project.id.as_str(), "app");
    assert!(graph.get_many(&vec![target("missing")]).is_err());
    assert!(graph.get_many_unexpanded(&vec![target("missing")]).is_err());
}
