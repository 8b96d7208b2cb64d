use moon_sources::config::{
    Constraints, DependencyScope, LayerType, Project, ProjectDependencyConfig, Refusal, StackType,
    TagRelationship,
};
use moon_sources::expander::{ProjectExpander, ProjectExpanderContext};
use moon_sources::id::Id;
use moon_sources::keys::ProjectKey;
use moon_sources::path::LogicalPath;
use moon_sources::project_graph::{
    AliasKey, GraphExpanderContext, ProjectGraph, ProjectGraphError, ProjectNode,
};
use moon_sources::scopes::{would_cycle_in_scope, ScopePartition};
use moon_sources::source::{SourceAlias, SourcePathBuf, SourceRegistry, SourceRootId};
use moon_sources::table::Table;

type Edges = petgraph::Graph<usize, u8, petgraph::Directed, u32>;

fn source(id: &str) -> SourceRootId {
    SourceRootId::new(id).unwrap()
}

fn path(text: &str) -> LogicalPath {
    LogicalPath::parse(text)
}

fn key(source_id: &SourceRootId, id: &str) -> ProjectKey {
    ProjectKey::new(source_id.clone(), Id::raw(id)).unwrap()
}

fn project(source_id: SourceRootId, id: &str) -> Project {
    Project::new(source_id, Id::raw(id))
}

fn cross_dependency(
    source_root: SourceRootId,
    id: &str,
    scope: DependencyScope,
) -> ProjectDependencyConfig {
    ProjectDependencyConfig {
        id: Id::raw(id),
        scope,
        source_root: Some(source_root),
        via: None,
    }
}

fn context(sources: SourceRegistry, root: &str) -> GraphExpanderContext {
    GraphExpanderContext {
        sources,
        working_dir: path(root),
        workspace_root: path(root),
        constraints: Constraints::none(),
    }
}

fn empty_graph() -> ProjectGraph {
    ProjectGraph::new(context(SourceRegistry::default(), ""))
}

fn local_graph(
    source_id: SourceRootId,
    root: &str,
    projects: Vec<Project>,
    edges: &[(usize, usize)],
) -> ProjectGraph {
    let mut project_graph =
        ProjectGraph::new(context(SourceRegistry::new(source_id, path(root)), root));
    let mut graph = Edges::new();

    for project in projects {
        let index = graph.node_count();
        graph.add_node(index);
        let key = project.key();
        project_graph.indexes.push(key.clone());
        project_graph.nodes.insert(key, ProjectNode { index, project });
    }

    for (from, to) in edges {
        graph.add_edge(
            petgraph::graph::NodeIndex::new(*from),
            petgraph::graph::NodeIndex::new(*to),
            DependencyScope::Production.label(),
        );
    }

    project_graph.set_graph(graph).unwrap();
    project_graph
}

fn loop_graph(scope_ab: DependencyScope, scope_ba: DependencyScope) -> Edges {
    let mut graph = Edges::new();
    let a = graph.add_node(0);
    let b = graph.add_node(1);

    graph.add_edge(a, b, scope_ab.label());
    graph.add_edge(b, a, scope_ba.label());
    graph
}

fn two_sources(primary: &SourceRootId, child: &SourceRootId) -> SourceRegistry {
    let mut sources = SourceRegistry::new(primary.clone(), path("/workspace/primary"));
    sources
        .register(child.clone(), path("/workspace/child"))
        .unwrap();
    sources
}

fn no_aliases() -> Table<SourceAlias, SourceRootId> {
    Table::new()
}

#[test]
fn routes_scopes_into_expected_partitions() {
    assert_eq!(
        ScopePartition::of(&DependencyScope::Production),
        ScopePartition::Production
    );
    assert_eq!(
        ScopePartition::of(&DependencyScope::Peer),
        ScopePartition::Production
    );
    assert_eq!(
        ScopePartition::of(&DependencyScope::Build),
        ScopePartition::Development
    );
    assert_eq!(
        ScopePartition::of(&DependencyScope::Development),
        ScopePartition::Development
    );
    assert_eq!(
        ScopePartition::of(&DependencyScope::Root),
        ScopePartition::Development
    );
}

#[test]
fn stores_duplicate_local_ids_without_key_collisions() {
    let primary = SourceRootId::primary();
    let secondary = source("secondary");
    let mut graph = empty_graph();

    for (index, project) in [
        project(primary.clone(), "app"),
        project(secondary.clone(), "app"),
    ]
    .into_iter()
    .enumerate()
    {
        graph
            .nodes
            .insert(project.key(), ProjectNode { index, project });
    }

    assert_eq!(graph.nodes.len(), 2);
    assert_eq!(graph.get_unexpanded("app").unwrap().source_id, primary);
    assert_eq!(
        graph
            .get_unexpanded_by_key(&key(&secondary, "app"))
            .unwrap()
            .source_id,
        secondary
    );
}

#[test]
fn composes_source_local_graphs_deterministically() {
    let primary_id = source("primary");
    let child_id = source("child");
    let primary_root = "/workspace/primary";
    let child_root = "/workspace/child";
    let sources = two_sources(&primary_id, &child_id);

    let mut primary_app = project(primary_id.clone(), "app");
    primary_app.source = "packages/app".into();
    primary_app
        .dependencies
        .push(ProjectDependencyConfig::new(Id::raw("shared")));
    let mut primary_dep = project(primary_id.clone(), "primary-dep");
    primary_dep.source = "packages/dep".into();
    let mut primary = local_graph(
        primary_id.clone(),
        primary_root,
        vec![primary_app, primary_dep],
        &[(0, 1)],
    );
    primary.aliases.insert(
        AliasKey {
            source: primary_id.clone(),
            alias: "shared".into(),
        },
        key(&primary_id, "primary-dep"),
    );
    primary.default_key = Some(key(&primary_id, "app"));

    let mut child_app = project(child_id.clone(), "app");
    child_app.source = "packages/app".into();
    child_app
        .dependencies
        .push(ProjectDependencyConfig::new(Id::raw("shared")));
    let mut child_dep = project(child_id.clone(), "child-dep");
    child_dep.source = "packages/dep".into();
    let mut child = local_graph(
        child_id.clone(),
        child_root,
        vec![child_app, child_dep],
        &[(0, 1)],
    );
    child.aliases.insert(
        AliasKey {
            source: child_id.clone(),
            alias: "shared".into(),
        },
        key(&child_id, "child-dep"),
    );
    child.default_key = Some(key(&child_id, "app"));

    let aggregate = ProjectGraph::compose(sources, &no_aliases(), vec![&child, &primary]).unwrap();
    let primary_app = aggregate.get("app").unwrap();
    let child_app = aggregate.get_by_key(&key(&child_id, "app")).unwrap();

    assert_eq!(aggregate.nodes.len(), 4);
    assert_eq!(primary_app.source_id, primary_id);
    assert_eq!(child_app.source_id, child_id);
    assert_eq!(
        aggregate.dependencies_of(&child_app),
        [key(&child_id, "child-dep")]
    );
    assert_eq!(child_app.dependencies[0].id, Id::raw("child-dep"));
    assert_eq!(aggregate.get_default().unwrap().id, Id::raw("app"));
    assert_eq!(
        aggregate.contexts.get(&child_id).unwrap().workspace_root,
        path(child_root)
    );
    assert_eq!(
        aggregate
            .get_from_path(Some(&path("/workspace/primary/packages/app")))
            .unwrap()
            .source_id,
        primary_id
    );
    assert_eq!(
        aggregate
            .get_from_path(Some(&path("/workspace/child/packages/app")))
            .unwrap()
            .source_id,
        child_id
    );

    let labels = aggregate.to_labeled_graph().nodes;
    assert!(labels.contains(&"child::app".to_owned()));
    assert!(labels.contains(&"primary::app".to_owned()));
    assert!(labels.contains(&"child-dep".to_owned()));
    assert!(!labels.contains(&"child::child-dep".to_owned()));
}

#[test]
fn rejects_cross_source_edges_during_composition() {
    let primary_id = source("primary");
    let child_id = source("child");
    let sources = two_sources(&primary_id, &child_id);
    let malformed = local_graph(
        primary_id.clone(),
        "/workspace/primary",
        vec![project(primary_id, "app"), project(child_id, "app")],
        &[(0, 1)],
    );

    let error = ProjectGraph::compose(sources, &no_aliases(), vec![&malformed]).err().unwrap();

    assert!(matches!(
        error,
        ProjectGraphError::UnsupportedCrossSourceEdge { .. }
    ));
}

#[test]
fn resolves_cross_source_ids_and_aliases_after_composition() {
    let primary_id = source("acme/platform");
    let child_id = source("acme/web");
    let sources = two_sources(&primary_id, &child_id);

    let mut primary_app = project(primary_id.clone(), "app");
    primary_app.cross_source_dependencies.push(cross_dependency(
        source("frontend"),
        "app",
        DependencyScope::Production,
    ));
    let mut canonical_duplicate =
        cross_dependency(child_id.clone(), "app", DependencyScope::Production);
    canonical_duplicate.via = Some("canonical".into());
    primary_app
        .cross_source_dependencies
        .push(canonical_duplicate);
    primary_app.cross_source_dependencies.push(cross_dependency(
        child_id.clone(),
        "shared",
        DependencyScope::Build,
    ));
    let primary = local_graph(
        primary_id.clone(),
        "/workspace/primary",
        vec![primary_app],
        &[],
    );

    let mut child = local_graph(
        child_id.clone(),
        "/workspace/child",
        vec![
            project(child_id.clone(), "app"),
            project(child_id.clone(), "lib"),
        ],
        &[],
    );
    child.aliases.insert(
        AliasKey {
            source: child_id.clone(),
            alias: "shared".into(),
        },
        key(&child_id, "lib"),
    );
    let mut aliases: Table<SourceAlias, SourceRootId> = Table::new();
    aliases.insert(SourceAlias::new("frontend").unwrap(), child_id.clone());

    let aggregate =
        ProjectGraph::compose(sources.clone(), &aliases, vec![&child, &primary]).unwrap();
    let app = aggregate.get("app").unwrap();

    assert_eq!(
        aggregate.dependencies_of(&app),
        [key(&child_id, "lib"), key(&child_id, "app")]
    );
    assert!(app.cross_source_dependencies.is_empty());
    assert_eq!(app.dependencies.len(), 2);
    assert_eq!(
        app.dependencies
            .iter()
            .map(|dependency| dependency.id.as_str())
            .collect::<Vec<_>>(),
        ["app", "lib"]
    );
    assert!(app.dependencies.iter().all(|dep| {
        dep.source_root.as_ref() == Some(&child_id) && matches!(dep.id.as_str(), "app" | "lib")
    }));
    assert_eq!(
        app.dependencies
            .iter()
            .find(|dep| dep.id == Id::raw("app"))
            .unwrap()
            .via
            .as_deref(),
        Some("canonical")
    );

    let reversed = ProjectGraph::compose(sources, &aliases, vec![&primary, &child]).unwrap();
    let labeled = aggregate.to_labeled_graph();
    let reversed = reversed.to_labeled_graph();
    assert_eq!(labeled.nodes, reversed.nodes);
    assert_eq!(labeled.edges, reversed.edges);
}

#[test]
fn resolves_workspace_compatibility_id_to_the_primary_source() {
    let primary_id = source("acme/platform");
    let child_id = source("acme/web");
    let sources = two_sources(&primary_id, &child_id);
    let primary = local_graph(
        primary_id.clone(),
        "/workspace/primary",
        vec![project(primary_id.clone(), "lib")],
        &[],
    );
    let mut child_app = project(child_id.clone(), "app");
    child_app.cross_source_dependencies.push(cross_dependency(
        SourceRootId::primary(),
        "lib",
        DependencyScope::Production,
    ));
    let child = local_graph(child_id.clone(), "/workspace/child", vec![child_app], &[]);

    let aggregate = ProjectGraph::compose(sources, &no_aliases(), vec![&primary, &child]).unwrap();
    let child_app = aggregate.get_by_key(&key(&child_id, "app")).unwrap();

    assert_eq!(
        aggregate.dependencies_of(&child_app),
        [key(&primary_id, "lib")]
    );
    assert_eq!(
        child_app.dependencies[0].source_root.as_ref(),
        Some(&primary_id)
    );
}

#[test]
fn rejects_redundant_same_source_qualified_dependencies() {
    let source_id = source("acme/platform");
    let sources = SourceRegistry::new(source_id.clone(), path("/workspace/primary"));
    let mut app = project(source_id.clone(), "app");
    app.dependencies
        .push(ProjectDependencyConfig::new(Id::raw("lib")));
    app.cross_source_dependencies.push(cross_dependency(
        source_id.clone(),
        "lib",
        DependencyScope::Development,
    ));
    let local = local_graph(
        source_id.clone(),
        "/workspace/primary",
        vec![app, project(source_id.clone(), "lib")],
        &[(0, 1)],
    );

    let error = ProjectGraph::compose(sources, &no_aliases(), vec![&local]).err().unwrap();

    assert!(matches!(
        error,
        ProjectGraphError::RedundantDependencySource { .. }
    ));
}

fn compose_loop(
    from_primary: DependencyScope,
    from_child: DependencyScope,
) -> Result<ProjectGraph, ProjectGraphError> {
    let primary_id = source("primary");
    let child_id = source("child");
    let sources = two_sources(&primary_id, &child_id);
    let mut primary_app = project(primary_id.clone(), "app");
    primary_app
        .cross_source_dependencies
        .push(cross_dependency(child_id.clone(), "app", from_primary));
    let mut child_app = project(child_id.clone(), "app");
    child_app
        .cross_source_dependencies
        .push(cross_dependency(primary_id.clone(), "app", from_child));
    let primary = local_graph(primary_id, "/workspace/primary", vec![primary_app], &[]);
    let child = local_graph(child_id, "/workspace/child", vec![child_app], &[]);

    ProjectGraph::compose(sources, &no_aliases(), vec![&primary, &child])
}

#[test]
fn rejects_same_partition_cross_source_cycles() {
    let error = compose_loop(DependencyScope::Production, DependencyScope::Peer).err().unwrap();

    assert!(error.message().contains("would introduce a cycle"));
}

#[test]
fn allows_cross_partition_cross_source_cycles() {
    let aggregate = compose_loop(DependencyScope::Production, DependencyScope::Development).unwrap();

    assert_eq!(aggregate.production_graph().edge_count(), 1);
    assert_eq!(aggregate.development_graph().edge_count(), 1);
}

#[test]
fn enforces_constraints_from_the_declaring_source() {
    let primary_id = source("primary");
    let child_id = source("child");
    let sources = two_sources(&primary_id, &child_id);
    let mut primary_app = project(primary_id.clone(), "app");
    primary_app.layer = LayerType::Application;
    primary_app.stack = StackType::Frontend;
    primary_app.cross_source_dependencies.push(cross_dependency(
        child_id.clone(),
        "app",
        DependencyScope::Production,
    ));
    let mut child_app = project(child_id.clone(), "app");
    child_app.layer = LayerType::Application;
    child_app.stack = StackType::Frontend;
    let refusal = || Refusal {
        owner: key(&primary_id, "app"),
        target: key(&child_id, "app"),
        scope: DependencyScope::Production,
    };
    let mut primary =
        local_graph(primary_id.clone(), "/workspace/primary", vec![primary_app], &[]);
    primary.context.constraints.enforce_layer_relationships = true;
    primary.context.constraints.refused_layers.push(refusal());
    let mut child = local_graph(child_id.clone(), "/workspace/child", vec![child_app], &[]);
    child.context.constraints.enforce_layer_relationships = false;

    let error = ProjectGraph::compose(sources, &no_aliases(), vec![&primary, &child]).err().unwrap();

    assert!(error.message().contains("Layering violation"));
}

#[test]
fn constraints_of_other_sources_and_scopes_do_not_count() {
    let primary_id = source("primary");
    let child_id = source("child");
    let mut app = project(primary_id.clone(), "app");
    app.cross_source_dependencies.push(cross_dependency(
        child_id.clone(),
        "app",
        DependencyScope::Production,
    ));
    let refusal = |scope: DependencyScope| Refusal {
        owner: key(&primary_id, "app"),
        target: key(&child_id, "app"),
        scope,
    };
    let mut primary = local_graph(primary_id.clone(), "/workspace/primary", vec![app], &[]);
    primary.context.constraints.enforce_layer_relationships = true;
    primary.context.constraints.refused_layers.push(refusal(DependencyScope::Build));
    let mut child = local_graph(
        child_id.clone(),
        "/workspace/child",
        vec![project(child_id.clone(), "app")],
        &[],
    );
    child.context.constraints.enforce_layer_relationships = true;
    child
        .context
        .constraints
        .refused_layers
        .push(refusal(DependencyScope::Production));
    assert!(ProjectGraph::compose(
        two_sources(&primary_id, &child_id),
        &no_aliases(),
        vec![&primary, &child]
    )
    .is_ok());

    primary
        .context
        .constraints
        .refused_layers
        .push(refusal(DependencyScope::Production));
    primary.context.constraints.enforce_layer_relationships = false;
    assert!(ProjectGraph::compose(
        two_sources(&primary_id, &child_id),
        &no_aliases(),
        vec![&primary, &child]
    )
    .is_ok());
}

#[test]
fn nodes_hold_their_own_numbers() {
    let mut graph = Edges::new();
    let a = graph.add_node(7);
    let b = graph.add_node(7);
    graph.add_edge(a, b, DependencyScope::Production.label());
    let mut project_graph = empty_graph();
    project_graph.set_graph(graph).unwrap();
    for graph in [
        project_graph.get_graph(),
        project_graph.production_graph(),
        project_graph.development_graph(),
    ] {
        assert_eq!(graph.node_weights().copied().collect::<Vec<_>>(), [0, 1]);
    }
}

#[test]
fn neighbors_follow_the_numbers_of_edges() {
    let main = source("main");
    let mut project_graph = local_graph(
        main.clone(),
        "/main",
        ["a", "b", "c", "d"].iter().map(|id| project(main.clone(), id)).collect(),
        &[],
    );
    let mut graph = Edges::new();
    for index in 0..4 {
        graph.add_node(index);
    }
    let node = petgraph::graph::NodeIndex::new;
    let first = graph.add_edge(node(0), node(1), DependencyScope::Production.label());
    graph.add_edge(node(0), node(2), DependencyScope::Production.label());
    graph.add_edge(node(0), node(3), DependencyScope::Production.label());
    graph.remove_edge(first);
    project_graph.set_graph(graph).unwrap();
    assert_eq!(
        project_graph.dependencies_of(&project(main.clone(), "a")),
        [key(&main, "c"), key(&main, "d")]
    );
}

#[test]
fn projects_are_found_at_any_depth() {
    let main = source("main");
    let mut app = project(main.clone(), "app");
    app.source = "app".to_owned();
    let graph = local_graph(main.clone(), "/main", vec![app], &[]);
    let mut file = "app".to_owned();
    for _ in 0..1500 {
        file.push_str("/x");
    }
    let found = graph
        .get_from_source_path(&SourcePathBuf::new(main, file.as_str()))
        .unwrap();
    assert_eq!(found.id, Id::raw("app"));
}

#[test]
fn toposorts_partitions_in_dependency_first_order() {
    let mut project_graph = empty_graph();

    project_graph
        .set_graph(loop_graph(
            DependencyScope::Production,
            DependencyScope::Development,
        ))
        .unwrap();
    project_graph
        .indexes
        .push(ProjectKey::primary(Id::raw("a")).unwrap());
    project_graph
        .indexes
        .push(ProjectKey::primary(Id::raw("b")).unwrap());

    assert_eq!(
        project_graph.partitioned_toposort(ScopePartition::Production),
        [Id::raw("b"), Id::raw("a")]
    );
    assert_eq!(
        project_graph.partitioned_toposort(ScopePartition::Development),
        [Id::raw("a"), Id::raw("b")]
    );
}

#[test]
fn would_cycle_for_self_loops_in_either_partition() {
    let mut graph = Edges::new();
    graph.add_node(0);

    assert!(would_cycle_in_scope(
        &graph,
        0,
        0,
        &DependencyScope::Production
    ));
    assert!(would_cycle_in_scope(&graph, 0, 0, &DependencyScope::Build));
}

#[test]
fn set_graph_allows_cross_partition_cycles() {
    let mut project_graph = empty_graph();

    project_graph
        .set_graph(loop_graph(
            DependencyScope::Production,
            DependencyScope::Development,
        ))
        .unwrap();

    assert_eq!(project_graph.production_graph().edge_count(), 1);
    assert_eq!(project_graph.development_graph().edge_count(), 1);
}

#[test]
fn set_graph_errors_for_production_partition_cycles() {
    let mut project_graph = empty_graph();

    let error = project_graph
        .set_graph(loop_graph(
            DependencyScope::Production,
            DependencyScope::Peer,
        ))
        .err().unwrap();

    assert!(error.message().contains("would introduce a cycle"));
}

#[test]
fn set_graph_errors_for_development_partition_cycles() {
    let mut project_graph = empty_graph();

    let error = project_graph
        .set_graph(loop_graph(
            DependencyScope::Build,
            DependencyScope::Development,
        ))
        .err().unwrap();

    assert!(error.message().contains("would introduce a cycle"));
}

#[test]
fn expands_local_aliases_without_flattening_cross_source_identities() {
    let source_id = source("acme/platform");
    let mut project = project(source_id.clone(), "app");
    project
        .dependencies
        .push(ProjectDependencyConfig::new(Id::raw("alias")));
    project.dependencies.push(cross_dependency(
        source("acme/web"),
        "alias",
        DependencyScope::Production,
    ));
    project.dependencies.push(cross_dependency(
        source("frontend"),
        "alias",
        DependencyScope::Production,
    ));
    let mut aliases: Table<String, ProjectKey> = Table::new();
    aliases.insert("alias".into(), key(&source_id, "canonical"));

    let project = ProjectExpander::new(ProjectExpanderContext {
        aliases,
        source_id: &source_id,
    })
    .expand(&project);

    assert_eq!(project.dependencies.len(), 3);
    assert!(project
        .dependencies
        .iter()
        .any(|dep| dep.id.as_str() == "canonical" && dep.source_root.is_none()));
    assert!(project.dependencies.iter().any(|dep| {
        dep.id.as_str() == "alias" && dep.source_root == Some(source("acme/web"))
    }));
    assert!(project.dependencies.iter().any(|dep| {
        dep.id.as_str() == "alias" && dep.source_root == Some(source("frontend"))
    }));
}

fn chain() -> ProjectGraph {
    let id = source("main");
    local_graph(
        id.clone(),
        "/workspace",
        vec![
            project(id.clone(), "app"),
            project(id.clone(), "lib"),
            project(id.clone(), "core"),
            project(id, "other"),
        ],
        &[(0, 1), (1, 2)],
    )
}

#[test]
fn dependencies_and_dependents_mirror_each_other() {
    let graph = chain();
    let id = source("main");
    let app = graph.get("app").unwrap();
    let lib = graph.get("lib").unwrap();
    let core = graph.get("core").unwrap();

    assert_eq!(graph.dependencies_of(&app), [key(&id, "lib")]);
    assert_eq!(graph.dependents_of(&lib), [key(&id, "app")]);
    assert_eq!(
        graph.partitioned_deep_dependency_keys_of(&app, ScopePartition::Production).len(),
        2
    );
    assert_eq!(
        graph.partitioned_deep_dependents_of(&core, ScopePartition::Production).len(),
        2
    );
    assert!(graph
        .partitioned_dependencies_of(&app, ScopePartition::Development)
        .is_empty());
    assert_eq!(
        graph
            .direct_dependencies_with_scopes(&key(&id, "app"))
            .unwrap(),
        [(key(&id, "lib"), DependencyScope::Production)]
    );
}

#[test]
fn focus_keeps_what_a_project_needs() {
    let graph = chain();

    let below = graph.focus_for("lib", false).unwrap();
    assert_eq!(below.nodes.len(), 2);
    assert!(below.get("core").is_ok());
    assert!(below.get("app").is_err());

    let around = graph.focus_for("lib", true).unwrap();
    assert_eq!(around.nodes.len(), 3);
    assert!(around.get("app").is_ok());
    assert!(around.get("other").is_err());
}

#[test]
fn sources_and_paths_find_their_projects() {
    let id = source("main");
    let mut app = project(id.clone(), "app");
    app.source = "packages/app".into();
    let mut nested = project(id.clone(), "nested");
    nested.source = "packages/app/nested".into();
    let graph = local_graph(id.clone(), "/workspace", vec![app, nested], &[]);

    assert_eq!(
        graph
            .get_from_path(Some(&path("/workspace/packages/app/src/a.ts")))
            .unwrap()
            .id,
        Id::raw("app")
    );
    assert_eq!(
        graph
            .get_from_source_path(&SourcePathBuf::new(id, "packages/app/nested/a.ts"))
            .unwrap()
            .id,
        Id::raw("nested")
    );
    assert!(matches!(
        graph.get_from_path(Some(&path("/workspace/elsewhere"))),
        Err(ProjectGraphError::MissingFromPath { .. })
    ));
    assert_eq!(
        graph.sources().get(&Id::raw("app")).unwrap(),
        "packages/app"
    );
}

#[test]
fn missing_projects_are_reported() {
    let graph = chain();

    assert!(matches!(
        graph.get("unknown"),
        Err(ProjectGraphError::UnconfiguredId { .. })
    ));
    assert!(matches!(
        graph.get_default(),
        Err(ProjectGraphError::NoDefaultProject)
    ));
    assert_eq!(
        graph.get("unknown").unwrap_err().message(),
        "No project has been configured with the identifier or alias unknown."
    );
}

#[test]
fn unknown_dependency_sources_and_targets_are_reported() {
    let primary_id = source("primary");
    let child_id = source("child");

    let mut app = project(primary_id.clone(), "app");
    app.cross_source_dependencies.push(cross_dependency(
        source("nowhere"),
        "app",
        DependencyScope::Production,
    ));
    let primary = local_graph(primary_id.clone(), "/workspace/primary", vec![app], &[]);
    let child = local_graph(child_id.clone(), "/workspace/child", vec![], &[]);
    assert!(matches!(
        ProjectGraph::compose(
            two_sources(&primary_id, &child_id),
            &no_aliases(),
            vec![&primary, &child]
        ),
        Err(ProjectGraphError::UnknownDependencySource { .. })
    ));

    let mut app = project(primary_id.clone(), "app");
    app.cross_source_dependencies.push(cross_dependency(
        child_id.clone(),
        "nobody",
        DependencyScope::Production,
    ));
    let primary = local_graph(primary_id.clone(), "/workspace/primary", vec![app], &[]);
    assert!(matches!(
        ProjectGraph::compose(
            two_sources(&primary_id, &child_id),
            &no_aliases(),
            vec![&primary, &child]
        ),
        Err(ProjectGraphError::UnknownCrossSourceTarget { .. })
    ));
}

#[test]
fn tags_are_enforced_across_sources() {
    let primary_id = source("primary");
    let child_id = source("child");
    let mut app = project(primary_id.clone(), "app");
    app.tags.push(Id::raw("web"));
    app.cross_source_dependencies.push(cross_dependency(
        child_id.clone(),
        "lib",
        DependencyScope::Production,
    ));
    let mut primary = local_graph(primary_id.clone(), "/workspace/primary", vec![app], &[]);
    primary.context.constraints.tag_relationships.push(TagRelationship {
        tag: Id::raw("web"),
        required: vec![Id::raw("shared")],
        refused: vec![Refusal {
            owner: key(&primary_id, "app"),
            target: key(&child_id, "lib"),
            scope: DependencyScope::Production,
        }],
    });
    let mut lib = project(child_id.clone(), "lib");
    let child = local_graph(child_id.clone(), "/workspace/child", vec![lib.clone()], &[]);
    assert!(matches!(
        ProjectGraph::compose(
            two_sources(&primary_id, &child_id),
            &no_aliases(),
            vec![&primary, &child]
        ),
        Err(ProjectGraphError::TagViolation { .. })
    ));

    lib.tags.push(Id::raw("shared"));
    primary.context.constraints.tag_relationships[0].refused.clear();
    let child = local_graph(child_id.clone(), "/workspace/child", vec![lib], &[]);
    assert!(ProjectGraph::compose(
        two_sources(&primary_id, &child_id),
        &no_aliases(),
        vec![&primary, &child]
    )
    .is_ok());
}

#[test]
fn partitions_are_walked_both_ways() {
    let main = source("main");
    let graph = local_graph(
        main.clone(),
        "/main",
        vec![
            project(main.clone(), "a"),
            project(main.clone(), "b"),
            project(main.clone(), "c"),
        ],
        &[(0, 1), (1, 2)],
    );
    let names = |ids: Vec<Id>| {
        let mut names: Vec<String> = ids.iter().map(|id| id.as_str().to_owned()).collect();
        names.sort();
        names
    };
    let a = graph.get_unexpanded_by_key(&key(&main, "a")).unwrap();
    let c = graph.get_unexpanded_by_key(&key(&main, "c")).unwrap();

    assert_eq!(
        names(graph.partitioned_deep_dependencies_of(a, ScopePartition::Production)),
        ["b", "c"]
    );
    assert_eq!(
        names(graph.partitioned_dependents_of(c, ScopePartition::Production)),
        ["b"]
    );
    assert!(graph
        .partitioned_dependents_of(c, ScopePartition::Development)
        .is_empty());
}

#[test]
fn nearer_projects_come_first() {
    let main = source("main");
    let graph = local_graph(
        main.clone(),
        "/main",
        ["a", "b", "c", "d"].iter().map(|id| project(main.clone(), id)).collect(),
        &[(0, 1), (1, 2), (0, 3), (3, 2)],
    );
    let reached = graph.partitioned_deep_dependency_keys_of(
        graph.get_unexpanded_by_key(&key(&main, "a")).unwrap(),
        ScopePartition::Production,
    );
    assert_eq!(reached, [key(&main, "d"), key(&main, "b"), key(&main, "c")]);
    for id in ["b", "c", "d"] {
        let other = graph.get_unexpanded_by_key(&key(&main, id)).unwrap();
        assert!(graph
            .partitioned_deep_dependent_keys_of(other, ScopePartition::Production)
            .contains(&key(&main, "a")));
    }
}

#[test]
fn projects_are_found_by_identifier_and_path() {
    let main = source("main");
    let mut app = project(main.clone(), "app");
    app.source = "packages/app".into();
    let graph = local_graph(main.clone(), "/main", vec![app], &[]);

    assert_eq!(graph.resolve_id("app").as_str(), "app");
    assert_eq!(graph.resolve_id("missing").as_str(), "missing");
    let paths = graph.sources_by_key();
    assert_eq!(paths.len(), 1);
    assert_eq!(paths.get(&key(&main, "app")).unwrap(), "packages/app");
    assert!(matches!(
        graph.get_default_by_key(),
        Err(ProjectGraphError::NoDefaultProject)
    ));
}

#[test]
fn composed_projects_have_numbers_of_their_own() {
    let primary = SourceRootId::new("primary").unwrap();
    let child = SourceRootId::new("child").unwrap();
    let child_graph = local_graph(
        child.clone(),
        "/workspace/child",
        vec![project(child.clone(), "lib"), project(child.clone(), "app")],
        &[(1, 0)],
    );
    let primary_graph = local_graph(
        primary.clone(),
        "/workspace/primary",
        vec![project(primary.clone(), "app")],
        &[],
    );
    let graph = ProjectGraph::compose(
        two_sources(&primary, &child),
        &no_aliases(),
        vec![&primary_graph, &child_graph],
    )
    .unwrap();

    let keys: Vec<String> = graph.indexes.iter().map(|key| key.to_text()).collect();
    assert_eq!(keys, ["child::app", "child::lib", "primary::app"]);

    for (index, key) in graph.indexes.iter().enumerate() {
        assert_eq!(graph.nodes.get(key).unwrap().index, index);
    }
}
