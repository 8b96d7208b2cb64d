use moon_sources::affected::RelationScope;
use moon_sources::affected_tracker::{
    touches_input, AggregateAffectedTracker, TaskInputs, WorkspaceGraph,
};
use moon_sources::changed_files::{
    qualify_changed_files_observation, ChangedFilesObservation, ChangedStatus, ImpactCompleteness,
};
use moon_sources::changed_files_query::{
    changed_files_observation_from_stdin, combine_reports, filter_observation, plan_queries, read_stdin_files,
    shallow_observation, should_use_legacy_affected_fallback, standardize_separators,
    AffectedOption, QueryChangedFilesOptions,
    RepositoryState, SourceReport, StdinFiles, VcsQuery,
};
use moon_sources::config::{Constraints, DependencyScope, Project, ProjectDependencyConfig};
use moon_sources::id::Id;
use moon_sources::keys::{ProjectKey, TaskKey};
use moon_sources::keyset::KeySet;
use moon_sources::path::LogicalPath;
use moon_sources::project_graph::{GraphExpanderContext, ProjectGraph, ProjectNode};
use moon_sources::reports::keep_affected;
use moon_sources::runtime::{report_without_vcs, SourceContext, SourceRuntime};
use moon_sources::source::{SourcePathBuf, SourceRegistry, SourceRootId};
use moon_sources::table::Table;
use moon_sources::task::{Target, Task};
use moon_sources::task_graph::{TaskGraph, TaskNode};
use std::sync::Arc;

type Observation = ChangedFilesObservation<SourcePathBuf>;

fn source(id: &str) -> SourceRootId {
    SourceRootId::new(id).unwrap()
}

fn path(text: &str) -> LogicalPath {
    LogicalPath::parse(text)
}

fn project_key(source_id: &SourceRootId, id: &str) -> ProjectKey {
    ProjectKey::new(source_id.clone(), Id::raw(id)).unwrap()
}

fn task_key(source_id: &SourceRootId) -> TaskKey {
    TaskKey::new(project_key(source_id, "app"), Id::raw("build")).unwrap()
}

fn local_graph(source_id: SourceRootId, root: &str) -> (Arc<ProjectGraph>, TaskGraph) {
    let context = GraphExpanderContext {
        sources: SourceRegistry::new(source_id.clone(), path(root)),
        working_dir: path(root),
        workspace_root: path(root),
        constraints: Constraints::none(),
    };
    let mut project = Project::new(source_id.clone(), Id::raw("app"));
    project.source = "packages/app".into();
    let key = project.key();
    let mut projects = ProjectGraph::new(context.clone());
    let mut graph = petgraph::Graph::<usize, u8>::new();
    graph.add_node(0);
    projects.indexes.push(key.clone());
    projects.nodes.insert(key, ProjectNode { index: 0, project });
    projects.set_graph(graph).unwrap();
    let projects = Arc::new(projects);

    let task = Task::new(
        source_id,
        Id::raw("build"),
        Target::new("app", "build").unwrap(),
    );
    let key = task.key();
    let mut tasks = TaskGraph::new(context, Arc::clone(&projects));
    let index = tasks.graph.add_node();
    tasks.indexes.push(key.clone());
    tasks.nodes.insert(key, TaskNode { index, task });

    (projects, tasks)
}

fn aggregate_graph() -> WorkspaceGraph {
    let primary_id = source("primary");
    let child_id = source("child");
    let mut sources = SourceRegistry::new(primary_id.clone(), path("/primary"));
    sources.register(child_id.clone(), path("/child")).unwrap();
    let (primary_projects, primary_tasks) = local_graph(primary_id, "/primary");
    let (child_projects, child_tasks) = local_graph(child_id, "/child");
    let projects = Arc::new(
        ProjectGraph::compose(
            sources.clone(),
            &Table::new(),
            vec![&primary_projects, &child_projects],
        )
        .unwrap(),
    );
    let tasks = Arc::new(
        TaskGraph::compose(Arc::clone(&projects), vec![&primary_tasks, &child_tasks]).unwrap(),
    );

    WorkspaceGraph {
        projects,
        tasks,
        sources,
        aggregate: true,
    }
}

fn observation(
    source_id: &SourceRootId,
    completeness: ImpactCompleteness,
    file: Option<&str>,
) -> Observation {
    let mut observation = Observation::none();
    observation.completeness = completeness;
    if let Some(file) = file {
        observation.files.insert(
            SourcePathBuf::new(source_id.clone(), file),
            vec![ChangedStatus::Modified],
        );
    }
    observation
}

fn no_inputs() -> TaskInputs {
    TaskInputs {
        env: KeySet::new(),
        listed: Table::new(),
        matched: Table::new(),
    }
}

#[test]
fn identical_relative_paths_only_affect_the_owning_source() {
    let primary = source("primary");
    let child = source("child");
    let mut observations: Table<SourceRootId, Observation> = Table::new();
    observations.insert(
        primary.clone(),
        observation(&primary, ImpactCompleteness::Exact, None),
    );
    observations.insert(
        child.clone(),
        observation(
            &child,
            ImpactCompleteness::Conservative,
            Some("packages/app/file.rs"),
        ),
    );
    let mut tracker = AggregateAffectedTracker::new(&aggregate_graph(), observations).unwrap();
    tracker.track_projects();
    let affected = tracker.build();

    assert_eq!(affected.completeness, ImpactCompleteness::Conservative);
    assert!(!affected.is_project_affected(&project_key(&primary, "app")));
    assert!(affected.is_project_affected(&project_key(&child, "app")));
}

#[test]
fn unavailable_marks_only_its_duplicate_canonical_identities() {
    let primary = source("primary");
    let child = source("child");
    let mut observations: Table<SourceRootId, Observation> = Table::new();
    observations.insert(
        primary.clone(),
        observation(&primary, ImpactCompleteness::Exact, None),
    );
    observations.insert(child.clone(), Observation::unavailable("provider failed"));
    let mut tracker = AggregateAffectedTracker::new(&aggregate_graph(), observations).unwrap();
    tracker.track_projects();
    tracker.track_tasks(&no_inputs());
    let affected = tracker.build();
    let primary_task = task_key(&primary);
    let child_task = task_key(&child);

    assert!(!affected.is_task_affected(&primary_task));
    assert!(affected.is_task_affected(&child_task));
    assert_ne!(primary_task, child_task);
    assert_eq!(affected.diagnostics, ["child: provider failed"]);
}

#[test]
fn exact_empty_observations_mark_nothing() {
    let primary = source("primary");
    let child = source("child");
    let mut observations: Table<SourceRootId, Observation> = Table::new();
    observations.insert(
        primary.clone(),
        observation(&primary, ImpactCompleteness::Exact, None),
    );
    observations.insert(
        child.clone(),
        observation(&child, ImpactCompleteness::Exact, None),
    );
    let mut tracker = AggregateAffectedTracker::new(&aggregate_graph(), observations).unwrap();
    tracker.track_projects();
    tracker.track_tasks(&no_inputs());
    let affected = tracker.build();

    assert_eq!(affected.completeness, ImpactCompleteness::Exact);
    assert_eq!(affected.projects.len(), 0);
    assert_eq!(affected.tasks.len(), 0);
    assert!(!affected.should_check);
}

#[test]
fn sources_without_an_observation_are_unknown() {
    let primary = source("primary");
    let mut observations: Table<SourceRootId, Observation> = Table::new();
    observations.insert(
        primary.clone(),
        observation(&primary, ImpactCompleteness::Exact, None),
    );
    let mut tracker = AggregateAffectedTracker::new(&aggregate_graph(), observations).unwrap();
    tracker.track_projects();
    let affected = tracker.build();

    assert_eq!(affected.completeness, ImpactCompleteness::Unavailable);
    assert!(affected.is_project_affected(&project_key(&source("child"), "app")));
    assert!(!affected.is_project_affected(&project_key(&primary, "app")));
    assert_eq!(affected.diagnostics.len(), 1);
}

#[test]
fn tracking_needs_an_aggregate_graph() {
    let mut graph = aggregate_graph();
    graph.aggregate = false;

    assert!(AggregateAffectedTracker::new(&graph, Table::new()).is_err());
}

fn linked_sources() -> WorkspaceGraph {
    let primary_id = source("primary");
    let child_id = source("child");
    let mut sources = SourceRegistry::new(primary_id.clone(), path("/primary"));
    sources.register(child_id.clone(), path("/child")).unwrap();
    let (primary_projects, primary_tasks) = local_graph(primary_id.clone(), "/primary");
    let key = project_key(&primary_id, "app");
    let mut linked = primary_projects.get_by_key(&key).unwrap();
    linked
        .cross_source_dependencies
        .push(ProjectDependencyConfig {
            id: Id::raw("app"),
            scope: DependencyScope::Production,
            source_root: Some(child_id.clone()),
            via: None,
        });
    let mut projects = ProjectGraph::new(primary_projects.context.clone());
    let mut edges = petgraph::Graph::<usize, u8>::new();
    edges.add_node(0);
    projects.indexes.push(key.clone());
    projects.nodes.insert(
        key,
        ProjectNode {
            index: 0,
            project: linked,
        },
    );
    projects.set_graph(edges).unwrap();
    let (child_projects, child_tasks) = local_graph(child_id, "/child");
    let projects = Arc::new(
        ProjectGraph::compose(
            sources.clone(),
            &Table::new(),
            vec![&projects, &child_projects],
        )
        .unwrap(),
    );
    let tasks = Arc::new(
        TaskGraph::compose(Arc::clone(&projects), vec![&primary_tasks, &child_tasks]).unwrap(),
    );

    WorkspaceGraph {
        projects,
        tasks,
        sources,
        aggregate: true,
    }
}

#[test]
fn dependents_in_other_sources_are_affected_on_request() {
    let primary = source("primary");
    let child = source("child");

    for (scope, expected) in [(RelationScope::Nothing, false), (RelationScope::Deep, true)] {
        let mut observations: Table<SourceRootId, Observation> = Table::new();
        observations.insert(
            primary.clone(),
            observation(&primary, ImpactCompleteness::Exact, None),
        );
        observations.insert(
            child.clone(),
            observation(
                &child,
                ImpactCompleteness::Exact,
                Some("packages/app/file.rs"),
            ),
        );
        let mut tracker = AggregateAffectedTracker::new(&linked_sources(), observations).unwrap();
        tracker.set_scopes(RelationScope::Nothing, scope);
        tracker.track_projects();
        let affected = tracker.build();

        assert!(affected.is_project_affected(&project_key(&child, "app")));
        assert_eq!(
            affected.is_project_affected(&project_key(&primary, "app")),
            expected
        );
    }
}

#[test]
fn inputs_are_touched_by_files_that_match() {
    assert!(touches_input(true, None, false));
    assert!(touches_input(false, None, true));
    assert!(!touches_input(false, None, false));
    assert!(!touches_input(true, Some(false), false));
    assert!(touches_input(true, Some(true), false));
}

#[test]
fn stdin_changed_files_remain_exact_and_primary_scoped() {
    let primary_id = SourceRootId::primary();
    let mut files: KeySet<String> = KeySet::new();
    files.insert("packages/app/src/main.ts".into());

    let observation = qualify_changed_files_observation(
        &primary_id,
        changed_files_observation_from_stdin(&primary_id, &primary_id, &files),
    );

    assert_eq!(observation.completeness, ImpactCompleteness::Exact);
    assert_eq!(
        observation
            .files
            .get(&SourcePathBuf::new(primary_id, "packages/app/src/main.ts")),
        Some(&vec![ChangedStatus::All])
    );
    assert!(observation.diagnostics.is_empty());
}

#[test]
fn stdin_marks_non_primary_sources_unavailable() {
    let primary_id = SourceRootId::primary();
    let child_id = source("child");
    let mut files: KeySet<String> = KeySet::new();
    files.insert("primary.txt".into());
    let observation = qualify_changed_files_observation(
        &child_id,
        changed_files_observation_from_stdin(&child_id, &primary_id, &files),
    );

    assert_eq!(observation.completeness, ImpactCompleteness::Unavailable);
    assert_eq!(observation.files.len(), 0);
    assert_eq!(observation.diagnostics.len(), 1);
    assert!(observation.diagnostics[0].contains("scoped to the primary source"));
}

#[test]
fn unavailable_vcs_only_disables_affected_for_single_source_queries() {
    let primary_id = source("workspace");

    assert!(should_use_legacy_affected_fallback(
        1,
        &primary_id,
        &primary_id,
        true
    ));
    assert!(!should_use_legacy_affected_fallback(
        2,
        &primary_id,
        &primary_id,
        true
    ));
}

#[test]
fn observations_merge_to_the_worse() {
    let id = source("a");
    let mut first = observation(&id, ImpactCompleteness::Exact, Some("x"));
    let second = observation(&id, ImpactCompleteness::Conservative, Some("y"));
    first.merge(&second);

    assert_eq!(first.completeness, ImpactCompleteness::Conservative);
    assert_eq!(first.files.len(), 2);
}

fn state() -> RepositoryState {
    RepositoryState {
        base_variable: None,
        head_variable: None,
        default_branch: "main".into(),
        on_default_branch: false,
        shallow: false,
    }
}

#[test]
fn local_queries_only_look_at_the_working_copy() {
    let mut options = QueryChangedFilesOptions::for_affected(false);
    options.local = true;

    let queries = plan_queries(&options, &state()).unwrap();
    assert_eq!(queries.len(), 1);
    assert!(matches!(queries[0], VcsQuery::WorkingCopy));
}

#[test]
fn filters_keep_the_statuses_that_are_asked_for() {
    let mut observation: ChangedFilesObservation<String> = ChangedFilesObservation::none();
    observation
        .files
        .insert("a\\b.txt".into(), vec![ChangedStatus::Added]);
    observation
        .files
        .insert("c.txt".into(), vec![ChangedStatus::Deleted]);

    let kept = filter_observation(observation, &vec![ChangedStatus::Added]);
    assert_eq!(kept.files.len(), 1);
    assert!(kept.files.get(&"a/b.txt".to_owned()).is_some());
    assert_eq!(standardize_separators("a\\b"), "a/b");
}

#[test]
fn stdin_is_read_line_by_line() {
    match read_stdin_files("a.txt\nb.txt") {
        StdinFiles::Lines(files) => assert_eq!(files.len(), 2),
        _ => panic!("expected lines"),
    }
    assert!(matches!(read_stdin_files(""), StdinFiles::Missing));
    assert!(matches!(read_stdin_files("{}"), StdinFiles::Json));
}

#[test]
fn the_affected_option_fills_in_what_is_missing() {
    let mut options = QueryChangedFilesOptions {
        base: Some("main".into()),
        default_branch: false,
        head: None,
        local: true,
        status: vec![],
        stdin: false,
    };
    options.apply_affected(&AffectedOption {
        local: false,
        base: Some("other".into()),
        head: Some("HEAD".into()),
    });

    assert_eq!(options.base.as_deref(), Some("main"));
    assert_eq!(options.head.as_deref(), Some("HEAD"));
    assert!(options.default_branch);
    assert!(!options.local);
}

fn report(id: &str, vcs_unavailable: bool, diagnostic: Option<&str>) -> SourceReport {
    let mut observation: ChangedFilesObservation<String> = ChangedFilesObservation::none();
    observation.completeness = if diagnostic.is_some() {
        ImpactCompleteness::Unavailable
    } else {
        ImpactCompleteness::Exact
    };
    observation
        .files
        .insert("a.txt".into(), vec![ChangedStatus::Modified]);
    observation.diagnostics = diagnostic.iter().map(|text| text.to_string()).collect();
    SourceReport {
        source: source(id),
        observation,
        vcs_unavailable,
    }
}

#[test]
fn reports_of_sources_are_combined() {
    let both = combine_reports(
        &source("primary"),
        vec![
            report("primary", true, Some("b")),
            report("child", false, None),
        ],
    );
    assert_eq!(both.observations.len(), 2);
    assert_eq!(both.completeness, ImpactCompleteness::Unavailable);
    assert_eq!(both.diagnostics, ["primary: b"]);
    assert!(!both.legacy_affected_fallback);
    let child = both.observations.get(&source("child")).unwrap();
    assert!(child
        .files
        .contains(&SourcePathBuf::new(source("child"), "a.txt")));

    let alone = combine_reports(&source("primary"), vec![report("primary", true, Some("b"))]);
    assert!(alone.legacy_affected_fallback);
}

#[test]
fn shallow_histories_tell_nothing() {
    let observation = shallow_observation();
    assert_eq!(observation.completeness, ImpactCompleteness::Unavailable);
    assert_eq!(
        observation.diagnostics,
        ["A full source-control history is required to determine affected files."]
    );
}

#[test]
fn sources_without_version_control_are_reported() {
    let primary = source("primary");
    let child = source("child");
    let available = |vcs_enabled: bool| {
        SourceRuntime::Available(SourceContext {
            source_id: source("child"),
            workspace_root: path("/child"),
            store: "store".into(),
            vcs_enabled,
        })
    };
    assert!(report_without_vcs(&child, &primary, None, &available(true)).is_none());
    let missing = report_without_vcs(&child, &primary, None, &available(false)).unwrap();
    assert!(missing.vcs_unavailable);
    let failed = report_without_vcs(
        &child,
        &primary,
        None,
        &SourceRuntime::Unavailable("broken".into()),
    )
    .unwrap();
    assert!(!failed.vcs_unavailable);
    assert_eq!(failed.observation.diagnostics, ["broken"]);

    let mut files: KeySet<String> = KeySet::new();
    files.insert("a.txt".into());
    let given = report_without_vcs(&primary, &primary, Some(&files), &available(false)).unwrap();
    assert!(given.observation.files.contains(&"a.txt".to_string()));
}

#[test]
fn affected_projects_alone_are_kept() {
    let primary = source("primary");
    let child = source("child");
    let mut observations: Table<SourceRootId, Observation> = Table::new();
    observations.insert(
        primary.clone(),
        observation(&primary, ImpactCompleteness::Exact, None),
    );
    observations.insert(
        child.clone(),
        observation(
            &child,
            ImpactCompleteness::Exact,
            Some("packages/app/src/main.rs"),
        ),
    );
    let mut tracker = AggregateAffectedTracker::new(&aggregate_graph(), observations).unwrap();
    tracker.set_ci_check(true);
    tracker.track_projects();
    let affected = tracker.build();
    let keys = vec![project_key(&primary, "app"), project_key(&child, "app")];

    assert_eq!(keep_affected(&keys, &affected), keys[1..].to_vec());
}

#[test]
fn tasks_are_affected_by_the_files_that_they_list_or_match() {
    let primary = source("primary");
    let key = task_key(&primary);
    let is_affected = |inputs: &TaskInputs| {
        let mut observations: Table<SourceRootId, Observation> = Table::new();
        observations.insert(
            primary.clone(),
            observation(&primary, ImpactCompleteness::Exact, Some("docs/notes.md")),
        );
        let mut tracker = AggregateAffectedTracker::new(&aggregate_graph(), observations).unwrap();
        tracker.track_tasks(inputs);
        tracker.build().is_task_affected(&key)
    };
    let listing = |content: Option<bool>| {
        let mut files: Table<String, Option<bool>> = Table::new();
        files.insert("docs/notes.md".into(), content);
        let mut inputs = no_inputs();
        inputs.listed.insert(key.clone(), files);
        inputs
    };

    assert!(!is_affected(&no_inputs()));
    assert!(is_affected(&listing(None)));
    assert!(is_affected(&listing(Some(true))));
    let mut inputs = listing(Some(false));
    assert!(!is_affected(&inputs));

    // What a task lists is not looked up among its patterns.
    let mut files: KeySet<String> = KeySet::new();
    files.insert("docs/notes.md".into());
    inputs.matched.insert(key.clone(), files);
    assert!(!is_affected(&inputs));
    inputs.listed = Table::new();
    assert!(is_affected(&inputs));
}

#[test]
fn files_belong_to_projects_by_their_components() {
    let primary = source("primary");
    let is_affected = |file: &str| {
        let mut observations: Table<SourceRootId, Observation> = Table::new();
        observations.insert(
            primary.clone(),
            observation(&primary, ImpactCompleteness::Exact, Some(file)),
        );
        let mut tracker = AggregateAffectedTracker::new(&aggregate_graph(), observations).unwrap();
        tracker.track_projects();
        tracker
            .build()
            .is_project_affected(&project_key(&primary, "app"))
    };

    assert!(is_affected("packages/app/main.rs"));
    assert!(is_affected("packages//app/main.rs"));
    assert!(is_affected("/packages/app/main.rs"));
    assert!(!is_affected("packages/./app/main.rs"));
    assert!(!is_affected("packages/application/main.rs"));
}
