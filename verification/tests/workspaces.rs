use moon_sources::action_node::SyncProjectNode;
use moon_sources::config::{Project, ProjectDependencyConfig};
use moon_sources::discovery::{
    choose_workspace_root, collect_load_failures, order_declarations, workspace_root_candidates,
    DiscoveryError, FoundWorkspace, WorkspaceDeclaration, WorkspaceDiscovery, WorkspaceRootError,
};
use moon_sources::id::Id;
use moon_sources::keys::{ProjectKey, TaskKey};
use moon_sources::path::LogicalPath;
use moon_sources::reports::{
    find_widest, list_all_tasks, list_project_tasks, list_projects, tasks_of_project, writes_keys,
    KeyedTask, ProjectGraphFocus,
};
use moon_sources::runtime::{SourceContext, SourceRuntime, SourceRuntimeRegistry};
use moon_sources::session::{
    caches_to_clean, check_sync_source, sync_status, ActionStatus, MoonSession, SessionReset,
};
use moon_sources::source::{SourceAlias, SourceRootId};
use moon_sources::source_reports::{diagnose_sources, list_sources, ProviderState, SourceEntry};
use moon_sources::task::{Target, Task};
use moon_sources::task_fingerprint::TaskFingerprint;
use moon_sources::workspace_watch::{Rebuild, WorkspaceChange, WorkspaceReset};

fn source(id: &str) -> SourceRootId {
    SourceRootId::new(id).unwrap()
}

fn alias(id: &str) -> SourceAlias {
    SourceAlias::new(id).unwrap()
}

fn path(text: &str) -> LogicalPath {
    LogicalPath::parse(text)
}

fn declaration(alias: &str, path: &str, id: Option<&str>) -> WorkspaceDeclaration {
    WorkspaceDeclaration {
        alias: alias.into(),
        path: path.into(),
        id: id.map(|text| text.to_owned()),
    }
}

fn loaded(root: &str, id: Option<&str>) -> FoundWorkspace {
    FoundWorkspace::Loaded {
        physical_root: path(root),
        id: id.map(|text| text.to_owned()),
    }
}

fn platform() -> LogicalPath {
    path("/platform")
}

fn start(id: Option<&str>) -> WorkspaceDiscovery {
    WorkspaceDiscovery::new(id, platform(), platform()).unwrap()
}

#[test]
fn discovers_direct_workspaces_by_their_self_declared_id() {
    let mut discovery = start(Some("acme/platform"));
    discovery
        .take_in(
            &platform(),
            &declaration("frontend", "../web", Some("acme/web")),
            loaded("/web", Some("acme/web")),
            false,
        )
        .unwrap();

    let web = source("acme/web");
    assert_eq!(discovery.sources.primary_id(), &source("acme/platform"));
    assert_eq!(discovery.sources.len(), 2);
    assert_eq!(discovery.aliases.get(&alias("frontend")), Some(&web));
    assert_eq!(discovery.workspaces.len(), 2);
    assert_eq!(discovery.workspaces.get(&web), Some(&path("/web")));
    assert_eq!(discovery.child_sources(), [web]);
}

#[test]
fn uses_the_compatibility_id_for_an_unidentified_primary_workspace() {
    let discovery = start(None);

    assert_eq!(discovery.sources.primary_id(), &SourceRootId::primary());
    assert_eq!(discovery.sources.len(), 1);
}

#[test]
fn requires_discovered_workspaces_to_declare_an_id() {
    let error = start(None)
        .take_in(
            &platform(),
            &declaration("frontend", "../web", None),
            loaded("/web", None),
            false,
        )
        .unwrap_err();

    assert!(error.message().contains("must declare a canonical `id`"));
}

#[test]
fn verifies_the_expected_workspace_id() {
    let error = start(None)
        .take_in(
            &platform(),
            &declaration("frontend", "../web", Some("acme/expected")),
            loaded("/web", Some("acme/actual")),
            false,
        )
        .unwrap_err();

    assert!(error.message().contains("acme/actual"));
    assert!(error.message().contains("acme/expected"));
}

#[test]
fn deduplicates_aliases_for_the_same_canonical_workspace() {
    let mut discovery = start(None);
    for name in ["frontend", "ui"] {
        discovery
            .take_in(
                &platform(),
                &declaration(name, "../web", None),
                loaded("/web", Some("acme/web")),
                false,
            )
            .unwrap();
    }

    assert_eq!(discovery.sources.len(), 2);
    assert_eq!(discovery.aliases.len(), 2);
    assert_eq!(
        discovery.aliases.get(&alias("frontend")),
        discovery.aliases.get(&alias("ui"))
    );
}

#[test]
fn rejects_the_same_canonical_id_at_different_roots() {
    let mut discovery = start(None);
    discovery
        .take_in(
            &platform(),
            &declaration("frontend", "../web", None),
            loaded("/web", Some("acme/web")),
            false,
        )
        .unwrap();
    let error = discovery
        .take_in(
            &platform(),
            &declaration("frontend-copy", "../web-copy", None),
            loaded("/web-copy", Some("acme/web")),
            false,
        )
        .unwrap_err();

    assert!(error.message().contains("already registered"));
    assert!(error.message().contains("frontend-copy"));
}

#[test]
fn deduplicates_real_and_symlinked_workspace_roots() {
    let mut discovery = start(None);
    for (name, root) in [("frontend", "../web"), ("ui", "../web-link")] {
        discovery
            .take_in(
                &platform(),
                &declaration(name, root, None),
                loaded("/web", Some("acme/web")),
                false,
            )
            .unwrap();
    }

    assert_eq!(discovery.sources.len(), 2);
    assert_eq!(discovery.aliases.len(), 2);
}

#[test]
fn one_root_has_one_identity() {
    let mut discovery = start(Some("acme"));
    discovery
        .take_in(
            &platform(),
            &declaration("a", "../web", None),
            loaded("/web", Some("acme/web")),
            false,
        )
        .unwrap();

    assert!(matches!(
        discovery.take_in(
            &platform(),
            &declaration("b", "../web", None),
            loaded("/web", Some("acme/other")),
            false,
        ),
        Err(DiscoveryError::RootConflict { .. })
    ));
    assert!(matches!(
        discovery.take_in(
            &platform(),
            &declaration("c", "../c", None),
            loaded("/c", Some("workspace")),
            false,
        ),
        Err(DiscoveryError::Reserved { .. })
    ));
    assert!(matches!(
        discovery.take_in(
            &platform(),
            &declaration("a b", "../c", None),
            loaded("/c", Some("c")),
            false,
        ),
        Err(DiscoveryError::InvalidId { .. })
    ));
}

#[test]
fn diagnostics_keep_going_after_a_failure() {
    let mut discovery = start(None);
    let broken = || FoundWorkspace::Unloaded;

    assert!(discovery
        .take_in(
            &platform(),
            &declaration("broken", "../broken", None),
            broken(),
            false
        )
        .is_err());
    discovery
        .take_in(
            &platform(),
            &declaration("broken", "../broken", None),
            broken(),
            true,
        )
        .unwrap();
    assert_eq!(discovery.failures.len(), 1);
    assert_eq!(
        discovery.failures[0].message,
        "Failed to load discovered workspace broken at \"/broken\""
    );
    assert_eq!(discovery.sources.len(), 1);
}

#[test]
fn all_declarations_are_found_or_fail() {
    let declarations = || {
        vec![
            declaration("api", "../api", None),
            declaration("lost", "../lo\"st", None),
            declaration("web", "../web", None),
        ]
    };
    let found = || {
        vec![
            loaded("/api", Some("acme/api")),
            FoundWorkspace::Unresolved,
            loaded("/web", Some("acme/web")),
        ]
    };

    let mut discovery = start(None);
    discovery
        .take_in_all(&platform(), &declarations(), found(), true)
        .unwrap();
    assert_eq!(discovery.aliases.len(), 2);
    assert_eq!(discovery.aliases.get(&alias("api")), Some(&source("acme/api")));
    assert_eq!(discovery.aliases.get(&alias("web")), Some(&source("acme/web")));
    assert_eq!(discovery.failures.len(), 1);
    assert_eq!(
        discovery.failures[0].message,
        "Failed to resolve discovered workspace lost at \"/lo\\\"st\""
    );

    let mut discovery = start(None);
    let error = discovery
        .take_in_all(&platform(), &declarations(), found(), false)
        .unwrap_err();
    assert!(matches!(error, DiscoveryError::Unresolved { .. }));
    assert_eq!(discovery.aliases.len(), 1);
    assert_eq!(discovery.sources.len(), 2);
}

#[test]
fn declarations_are_read_in_the_order_of_their_aliases() {
    let ordered = order_declarations(vec![
        declaration("b", "../b", None),
        declaration("a", "../a", None),
    ]);

    assert_eq!(ordered[0].alias, "a");
    assert_eq!(ordered[1].alias, "b");
}

#[test]
fn load_failures_are_kept_or_reported() {
    assert_eq!(
        collect_load_failures(Some("x".into()), None, None, false).unwrap_err(),
        "x"
    );
    let kept = collect_load_failures(Some("x".into()), None, Some("y".into()), true).unwrap();
    assert_eq!(kept.len(), 2);
    assert_eq!(kept[0].message, "x");
    assert!(collect_load_failures(None, None, None, false)
        .unwrap()
        .is_empty());
}

#[test]
fn the_workspace_root_is_looked_for_upwards() {
    let candidates = workspace_root_candidates(None, &path("/a/b"));
    assert_eq!(candidates, [path("/a/b"), path("/a"), path("/")]);
    assert_eq!(
        choose_workspace_root(Some(path("/a")), Some(&path("/home/me"))).unwrap(),
        path("/a")
    );
    assert!(choose_workspace_root(None, Some(&path("/home/me"))).is_err());
    assert!(matches!(
        choose_workspace_root(Some(path("/a")), None),
        Err(WorkspaceRootError::MissingHomeDir)
    ));
    assert!(matches!(
        choose_workspace_root(Some(path("/home/me")), Some(&path("/home/me"))),
        Err(WorkspaceRootError::MissingConfigDir)
    ));
}

fn entry(id: &str, provider: ProviderState) -> SourceEntry {
    SourceEntry {
        id: source(id),
        path: format!("/{id}"),
        provider,
        failures: vec![],
    }
}

#[test]
fn sources_are_listed_with_their_providers() {
    let mut discovery = start(Some("acme"));
    discovery
        .take_in(
            &platform(),
            &declaration("web", "../web", None),
            loaded("/web", Some("site")),
            false,
        )
        .unwrap();
    let reports = diagnose_sources(
        &vec![
            entry(
                "acme",
                ProviderState::Ready {
                    version: Some("2.0".into()),
                },
            ),
            entry(
                "site",
                ProviderState::Failed {
                    message: "no git".into(),
                },
            ),
        ],
        &discovery.aliases,
        &source("acme"),
        &discovery.failures,
    );

    assert_eq!(reports.len(), 2);
    assert!(reports.iter().any(|report| report.primary
        && report.id.as_deref() == Some("acme")
        && report.provider.version.as_deref() == Some("2.0")));
    assert!(reports
        .iter()
        .any(|report| report.aliases == ["web"]
            && report.provider.message.as_deref() == Some("no git")));
    assert_eq!(list_sources(&reports).rows.len(), 2);
}

fn task(source_id: &SourceRootId, id: &str) -> Task {
    Task::new(
        source_id.clone(),
        Id::raw(id),
        Target::new("app", id).unwrap(),
    )
}

fn keyed(source_id: &SourceRootId, id: &str) -> KeyedTask {
    KeyedTask {
        key: TaskKey::new(
            ProjectKey::new(source_id.clone(), Id::raw("app")).unwrap(),
            Id::raw(id),
        )
        .unwrap(),
        task: task(source_id, id),
    }
}

#[test]
fn listings_are_in_order() {
    let id = source("acme");
    let listing = list_projects(vec![
        Project::new(id.clone(), Id::raw("b")),
        Project::new(id.clone(), Id::raw("a")),
    ])
    .unwrap();
    assert_eq!(listing.rows.len(), 2);
    assert!(listing.rows[0].cells[0].contains('a'));

    assert!(list_projects(vec![]).is_none());
    assert_eq!(
        list_all_tasks(vec![keyed(&id, "test"), keyed(&id, "build")], 1)
            .unwrap()
            .rows
            .len(),
        2
    );
    assert_eq!(
        list_project_tasks(vec![task(&id, "build")])
            .unwrap()
            .rows
            .len(),
        1
    );
    assert_eq!(find_widest(&vec!["abc".into(), "a".into()], 2), 3);
    assert!(!writes_keys(false, 1));
}

#[test]
fn tasks_of_one_project_keep_their_order() {
    let here = source("here");
    let there = source("there");
    let own = tasks_of_project(
        vec![
            keyed(&here, "test"),
            keyed(&there, "lint"),
            keyed(&here, "build"),
        ],
        &ProjectKey::new(here.clone(), Id::raw("app")).unwrap(),
    );
    let texts: Vec<String> = own.iter().map(|entry| entry.key.to_text()).collect();
    assert_eq!(texts, ["here::app:test", "here::app:build"]);
    assert!(tasks_of_project(
        own,
        &ProjectKey::new(here, Id::raw("lib")).unwrap()
    )
    .is_empty());
}

#[test]
fn parses_primary_and_qualified_focus() {
    assert!(matches!(
        "app".parse::<ProjectGraphFocus>().unwrap(),
        ProjectGraphFocus::Primary(id) if id.as_str() == "app"
    ));
    assert!(matches!(
        "child::app".parse::<ProjectGraphFocus>().unwrap(),
        ProjectGraphFocus::Qualified(key) if key.to_text() == "child::app"
    ));
}

fn context(id: &str) -> SourceContext {
    SourceContext {
        source_id: source(id),
        workspace_root: path("/root"),
        store: "store".into(),
        vcs_enabled: true,
    }
}

#[test]
fn cleans_every_available_source_cache() {
    let registry = SourceRuntimeRegistry::new(
        context("acme"),
        vec![
            (source("web"), SourceRuntime::Available(context("web"))),
            (source("gone"), SourceRuntime::Unavailable("gone".into())),
        ],
    )
    .unwrap();

    let cleaned = caches_to_clean(&registry, true);
    assert_eq!(cleaned.len(), 2);
    assert!(cleaned.contains(&source("acme")) && cleaned.contains(&source("web")));
    assert!(caches_to_clean(&registry, false).is_empty());
}

#[test]
fn sessions_forget_what_they_built() {
    let mut session = MoonSession::new();
    session.project_graph = true;
    session.workspace_graph = true;
    session.vcs_adapter = true;
    session.reset_components();
    assert!(!session.project_graph && !session.workspace_graph);
    session.vcs_adapter = true;
    session.reset_vcs();
    assert!(!session.vcs_adapter);
}

#[test]
fn projects_are_synchronised_in_their_own_source() {
    let node = SyncProjectNode {
        project_key: ProjectKey::new(source("web"), Id::raw("app")).unwrap(),
    };

    assert!(check_sync_source(&node, &source("web")).is_ok());
    assert_eq!(
        check_sync_source(&node, &source("acme")).unwrap_err(),
        "Sync project action for source web cannot run in source acme."
    );
    assert_eq!(sync_status(true, 3, true), ActionStatus::Skipped);
    assert_eq!(sync_status(false, 3, true), ActionStatus::Invalid);
    assert_eq!(sync_status(false, 3, false), ActionStatus::Passed);
}

#[test]
fn fingerprints_are_qualified_by_source() {
    let child = source("child");
    let mut project = Project::new(child.clone(), Id::raw("app"));
    project
        .dependencies
        .push(ProjectDependencyConfig::new(Id::raw("lib")));
    let mut other = ProjectDependencyConfig::new(Id::raw("core"));
    other.source_root = Some(source("acme"));
    project.dependencies.push(other);
    let mut task = task(&child, "build");
    task.command = "tsc".into();

    task.args = vec!["--flag".into()];
    task.env.insert("B".into(), None);
    task.env.insert("A".into(), Some("1".into()));
    task.outputs = vec!["dist".into()];
    task.cache_key = Some("v2".into());

    let fingerprint = TaskFingerprint::new(&project, &task);

    assert_eq!(fingerprint.target.to_text(), "child::app:build");
    assert_eq!(fingerprint.project_deps[0].to_text(), "child::lib");
    assert_eq!(fingerprint.project_deps[1].to_text(), "acme::core");
    assert_eq!(fingerprint.command, "tsc");
    assert_eq!(fingerprint.args, ["--flag"]);
    assert_eq!(fingerprint.cache_key.as_deref(), Some("v2"));
    assert_eq!(fingerprint.env[0].name, "A");
    assert_eq!(fingerprint.env[0].value.as_deref(), Some("1"));
    assert_eq!(fingerprint.env[1].name, "B");
    assert_eq!(fingerprint.version, "4");
    assert_eq!(fingerprint.outputs, ["dist"]);
    assert_eq!(fingerprint.deps.len(), 0);
}

fn complete_session() -> MoonSession {
    MoonSession {
        aggregate_workspace_graph: true,
        app_context: true,
        extension_registry: true,
        project_graph: true,
        source_runtime_registry: true,
        task_graph: true,
        toolchain_registry: true,
        vcs_adapter: true,
        workspace_graph: true,
    }
}

#[test]
fn configurations_of_plugins_are_taken_in() {
    let mut session = complete_session();
    assert_eq!(
        session.reset_extensions(false),
        SessionReset {
            download: false,
            rebuild: Rebuild::Context
        }
    );
    assert!(!session.app_context && session.extension_registry && session.project_graph);

    let mut session = complete_session();
    assert_eq!(
        session.reset_toolchains(true),
        SessionReset {
            download: true,
            rebuild: Rebuild::Context
        }
    );
    assert!(!session.toolchain_registry && !session.workspace_graph && session.vcs_adapter);

    let mut session = complete_session();
    assert_eq!(session.reset_proto().rebuild, Rebuild::Context);
    assert!(!session.extension_registry);
}

#[test]
fn projects_and_tasks_are_built_again() {
    let mut session = complete_session();
    assert_eq!(session.reset_projects().rebuild, Rebuild::Graphs);
    assert!(!session.project_graph && session.vcs_adapter);

    let mut session = complete_session();
    assert_eq!(session.reset_tasks(false).rebuild, Rebuild::Context);
    assert_eq!(session, complete_session());
    assert_eq!(session.reset_tasks(true).rebuild, Rebuild::Graphs);
    assert!(!session.task_graph);
}

#[test]
fn other_source_roots_end_a_session() {
    let mut change = WorkspaceChange {
        id: true,
        workspaces: false,
        vcs: true,
        projects: false,
        default_project: false,
        daemon: true,
    };
    let mut session = complete_session();
    assert_eq!(session.reset_workspace(change), WorkspaceReset::Retire);
    assert_eq!(session, complete_session());

    change.id = false;
    session.reset_workspace(change);
    assert!(!session.vcs_adapter && !session.app_context && session.project_graph);
}
