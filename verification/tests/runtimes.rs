use moon_sources::daemon::{
    check_archive_request, check_digest_source, check_hydrate_request, check_outputs_request,
    decide_retirement, get_missing_source_root, is_remote_backend, parse_manifest_path,
    parse_requested_task, parse_source_runtime, validate_manifest_paths, ContentDigest,
    DigestSource, ManifestPaths, OutputsRequest, RequestError, RequestPart, Retirement,
    IDLE_TTL_MILLIS,
};
use moon_sources::path::LogicalPath;
use moon_sources::runtime::{
    SourceContext, SourceRuntime, SourceRuntimeRegistry, SourceRuntimeRegistryError,
};
use moon_sources::session::caches_to_clean;
use moon_sources::source::{SourceRegistry, SourceRootId};
use moon_sources::watch::{
    create_file_event, get_watch_roots, is_ignored, CreateKind, EventKind, FileEvent, ModifyKind,
    RemoveKind, RenameMode,
};
use moon_sources::workspace_watch::{
    classify_path, decide_event, decide_project_root, is_a_project_root, needs_project_root,
    plan_tasks_reset, plan_workspace_reset, same_identity, should_retire_for_event, ConfigPatterns, PathFacts,
    Rebuild, RebuildGeneration, WatchAction, WorkspaceChange, WorkspaceReset,
};

fn source(id: &str) -> SourceRootId {
    SourceRootId::new(id).unwrap()
}

fn path(text: &str) -> LogicalPath {
    LogicalPath::parse(text)
}

fn context(id: &str, root: &str) -> SourceContext {
    SourceContext {
        source_id: source(id),
        workspace_root: path(root),
        store: "store".into(),
        vcs_enabled: true,
    }
}

fn primary_context() -> SourceContext {
    context(SourceRootId::primary().as_str(), "/primary")
}

#[test]
fn reports_unknown_and_unavailable_sources() {
    let child_id = source("child");
    let unknown_id = source("unknown");
    let registry = SourceRuntimeRegistry::new(
        primary_context(),
        vec![(
            child_id.clone(),
            SourceRuntime::Unavailable("VCS failed".into()),
        )],
    )
    .unwrap();

    assert!(registry
        .get(&child_id)
        .unwrap_err()
        .message()
        .contains("VCS failed"));
    assert!(registry
        .get(&unknown_id)
        .unwrap_err()
        .message()
        .contains("not registered"));
}

#[test]
fn rejects_duplicate_entries_before_becoming_read_only() {
    let id = source("child");
    let entries = vec![
        (id.clone(), SourceRuntime::Unavailable("first".into())),
        (id, SourceRuntime::Unavailable("second".into())),
    ];

    assert!(SourceRuntimeRegistry::new(primary_context(), entries).is_err());
}

#[test]
fn registries_refuse_what_does_not_belong() {
    assert!(matches!(
        SourceRuntimeRegistry::new(
            context("main", "/main"),
            vec![(source("main"), SourceRuntime::Unavailable("twice".into()))],
        ),
        Err(SourceRuntimeRegistryError::DuplicateSource { .. })
    ));
    assert!(matches!(
        SourceRuntimeRegistry::new(
            context("main", "/main"),
            vec![
                (source("a"), SourceRuntime::Unavailable("gone".into())),
                (source("b"), SourceRuntime::Available(context("c", "/c"))),
                (source("a"), SourceRuntime::Unavailable("twice".into())),
            ],
        ),
        Err(SourceRuntimeRegistryError::IdentityMismatch { .. })
    ));
    let registry = SourceRuntimeRegistry::new(
        context("main", "/main"),
        vec![(source("b"), SourceRuntime::Available(context("b", "/b")))],
    )
    .unwrap();
    assert_eq!(registry.len(), 2);
    assert_eq!(registry.get(&source("b")).unwrap().workspace_root, path("/b"));
    assert_eq!(registry.get(&source("main")).unwrap().workspace_root, path("/main"));
    assert!(matches!(
        registry.get(&source("c")),
        Err(SourceRuntimeRegistryError::UnknownSource { .. })
    ));
}

#[test]
fn the_primary_source_is_always_available() {
    let registry = SourceRuntimeRegistry::new(
        context("main", "/main"),
        vec![(source("child"), SourceRuntime::Unavailable("gone".into()))],
    )
    .unwrap();

    assert_eq!(registry.len(), 2);
    assert_eq!(registry.get_primary().workspace_root, path("/main"));
    assert!(matches!(
        registry.get(&source("child")),
        Err(SourceRuntimeRegistryError::UnavailableSource { .. })
    ));
    assert_eq!(
        SourceRuntimeRegistry::single(context("main", "/main")).len(),
        1
    );
}

#[test]
fn requests_name_their_source_and_task() {
    let registry = SourceRuntimeRegistry::single(context("main", "/main"));

    let (id, found) = parse_source_runtime(&registry, "main").unwrap();
    assert_eq!(id, source("main"));
    assert_eq!(found.workspace_root, path("/main"));
    assert!(parse_source_runtime(&registry, "other").is_err());
    assert!(parse_source_runtime(&registry, "a b").is_err());

    assert_eq!(
        parse_requested_task("main::app:build", &source("main"))
            .unwrap()
            .to_text(),
        "main::app:build"
    );
    assert!(parse_requested_task("other::app:build", &source("main")).is_err());
    assert!(parse_requested_task("app", &source("main")).is_err());
}

#[test]
fn manifests_stay_inside_the_workspace() {
    assert_eq!(parse_manifest_path("a/b.txt").unwrap(), "a/b.txt");
    assert!(parse_manifest_path("/etc/passwd").is_err());
    assert!(parse_manifest_path("../a").is_err());
    assert!(validate_manifest_paths(&vec!["a".into()], &vec!["b/c".into()]).is_ok());
    assert!(validate_manifest_paths(&vec!["a".into()], &vec!["b/../../c".into()]).is_err());
}

fn digest(hash: &str, size: u64) -> ContentDigest {
    ContentDigest {
        hash: hash.into(),
        size,
    }
}

#[test]
fn digests_match_the_bytes_they_name() {
    let own = digest("abc", 3);
    assert!(check_digest_source(&own, &digest("abc", 3), &digest("abc", 3)).is_ok());
    assert!(check_digest_source(&own, &digest("abc", 3), &digest("abd", 3)).is_err());
    assert!(matches!(
        check_digest_source(&own, &digest("abc", 4), &digest("abc", 3)),
        Err(RequestError::InvalidArgument(message))
            if message == "Digest source does not match the task digest."
    ));
}

fn outputs_request() -> OutputsRequest {
    OutputsRequest {
        source_id: "main".into(),
        task_key: "main::app:build".into(),
        digest: RequestPart::Given(digest("abc", 3)),
        manifest: RequestPart::Given(ManifestPaths {
            files: vec!["dist/a.js".into()],
            symlinks: vec![],
        }),
    }
}

fn refusal<T>(result: Result<T, RequestError>) -> String {
    match result {
        Err(
            RequestError::InvalidArgument(text)
            | RequestError::NotFound(text)
            | RequestError::FailedPrecondition(text)
            | RequestError::Internal(text)
            | RequestError::Unknown(text),
        ) => text,
        Ok(_) => "accepted".into(),
    }
}

#[test]
fn requests_for_outputs_are_checked_in_order() {
    let registry = SourceRuntimeRegistry::single(context("main", "/main"));
    let check = |request: &OutputsRequest| check_outputs_request(&registry, request);

    let mut request = outputs_request();
    let (source_id, key) = check(&request).unwrap();
    assert_eq!(source_id, source("main"));
    assert_eq!(key.to_text(), "main::app:build");

    request.manifest = RequestPart::Given(ManifestPaths {
        files: vec!["dist/a.js".into()],
        symlinks: vec!["../b".into()],
    });
    assert_eq!(
        refusal(check(&request)),
        "Manifest path must be source-root-relative: ../b"
    );
    request.manifest = RequestPart::Unreadable("bad manifest".into());
    assert!(matches!(check(&request), Err(RequestError::Unknown(text)) if text == "bad manifest"));
    request.manifest = RequestPart::Missing;
    assert_eq!(refusal(check(&request)), "Missing manifest");
    request.digest = RequestPart::Unreadable("bad digest".into());
    assert!(matches!(check(&request), Err(RequestError::Unknown(text)) if text == "bad digest"));
    request.digest = RequestPart::Missing;
    assert_eq!(refusal(check(&request)), "Missing digest");
    request.task_key = "other::app:build".into();
    assert_eq!(
        refusal(check(&request)),
        "Task key source other does not match request source main."
    );
    request.source_id = "other".into();
    assert!(matches!(check(&request), Err(RequestError::NotFound(_))));
}

#[test]
fn archives_name_what_their_digest_was_made_from() {
    let registry = SourceRuntimeRegistry::single(context("main", "/main"));
    let request = outputs_request();
    let made_from = |own: RequestPart<ContentDigest>,
                     of_bytes: Result<ContentDigest, String>,
                     path: &str| {
        refusal(check_archive_request(
            &registry,
            &request,
            &Some(DigestSource {
                digest: own,
                of_bytes,
                path: path.into(),
            }),
        ))
    };
    let given = |hash: &str| RequestPart::Given(digest(hash, 3));

    assert_eq!(refusal(check_archive_request(&registry, &request, &None)), "accepted");
    assert_eq!(made_from(given("abc"), Ok(digest("abc", 3)), "hash.json"), "accepted");
    assert_eq!(
        made_from(given("abc"), Ok(digest("abc", 3)), "/hash.json"),
        "Manifest path must be source-root-relative: /hash.json"
    );
    assert_eq!(
        made_from(given("abc"), Ok(digest("abd", 3)), "/hash.json"),
        "Digest source bytes do not match its digest."
    );
    assert_eq!(made_from(given("abc"), Err("no hash".into()), "hash.json"), "no hash");
    assert_eq!(
        made_from(given("abd"), Err("no hash".into()), "hash.json"),
        "Digest source does not match the task digest."
    );
    assert_eq!(
        made_from(RequestPart::Unreadable("bad".into()), Ok(digest("abc", 3)), "hash.json"),
        "bad"
    );
    assert_eq!(
        made_from(RequestPart::Missing, Ok(digest("abc", 3)), "hash.json"),
        "Missing digest source digest"
    );
}

#[test]
fn outputs_come_from_known_backends() {
    let registry = SourceRuntimeRegistry::single(context("main", "/main"));
    let request = outputs_request();
    let backends = vec!["local".to_owned(), "remote-http".to_owned()];

    let (_, _, remote) =
        check_hydrate_request(&registry, &request, &backends, "remote-http").unwrap();
    assert!(remote);
    let (_, _, remote) = check_hydrate_request(&registry, &request, &backends, "local").unwrap();
    assert!(!remote);
    assert_eq!(
        refusal(check_hydrate_request(&registry, &request, &backends, "tape")),
        "Missing storage backend"
    );
}

#[test]
fn idle_daemons_retire() {
    assert!(decide_retirement(false, IDLE_TTL_MILLIS - 1, 0).is_none());
    assert!(matches!(
        decide_retirement(false, IDLE_TTL_MILLIS, 0),
        Some(Retirement::Idle)
    ));
    assert!(matches!(
        decide_retirement(true, 0, 0),
        Some(Retirement::RootRemoved)
    ));
    assert!(!is_remote_backend("local"));
}

fn daemon_sources() -> (SourceRegistry, SourceRootId) {
    let child_id = source("child");
    let mut sources = SourceRegistry::single(path("/base/primary"));
    sources.register(child_id.clone(), path("/base/child")).unwrap();
    (sources, child_id)
}

#[test]
fn detects_removed_child_source_root() {
    let (sources, child_id) = daemon_sources();
    let present: Vec<bool> = (0..sources.len())
        .map(|index| sources.id_at(index) != &child_id)
        .collect();

    assert_eq!(get_missing_source_root(&sources, &present), Some(&child_id));
}

#[test]
fn detects_renamed_child_source_root() {
    let (sources, child_id) = daemon_sources();
    let present: Vec<bool> = (0..sources.len())
        .map(|index| sources.root_at(index) != &path("/base/child"))
        .collect();

    assert_eq!(get_missing_source_root(&sources, &present), Some(&child_id));
    assert_eq!(
        get_missing_source_root(&sources, &vec![true; sources.len()]),
        None
    );
}

fn sources() -> SourceRegistry {
    SourceRegistry::single(path("/workspace"))
}

#[test]
fn test_is_ignored_git() {
    assert!(is_ignored(&path("/workspace/.git/objects/abc")));
}

#[test]
fn test_is_ignored_node_modules() {
    assert!(is_ignored(&path("/workspace/node_modules/foo/bar.js")));
}

#[test]
fn test_is_ignored_svn() {
    assert!(is_ignored(&path("/workspace/.svn/entries")));
}

#[test]
fn test_is_ignored_moon_cache() {
    assert!(is_ignored(&path("/workspace/.moon/cache/hashes/abc")));
}

#[test]
fn test_is_ignored_moon_docker() {
    assert!(is_ignored(&path("/workspace/.moon/docker/scaffold")));
}

#[test]
fn test_not_ignored_source_file() {
    assert!(!is_ignored(&path("/workspace/src/main.rs")));
}

#[test]
fn test_not_ignored_moon_config() {
    assert!(!is_ignored(&path("/workspace/.moon/workspace.yml")));
}

#[test]
fn creates_workspace_relative_file_event() {
    let event =
        create_file_event(&sources(), &path("/workspace/src/main.rs"), EventKind::Any).unwrap();

    assert_eq!(event.path.as_str(), "src/main.rs");
    assert_eq!(event.source_id, SourceRootId::primary());
}

fn nested_sources() -> (SourceRegistry, SourceRootId) {
    let mut sources = sources();
    let child = source("child");
    sources
        .register(child.clone(), path("/workspace/packages/child"))
        .unwrap();
    (sources, child)
}

#[test]
fn tags_nested_events_with_the_most_specific_source() {
    let (sources, child) = nested_sources();

    let event = create_file_event(
        &sources,
        &path("/workspace/packages/child/src/main.rs"),
        EventKind::Any,
    )
    .unwrap();

    assert_eq!(event.source_id, child);
    assert_eq!(event.path.as_str(), "src/main.rs");
    assert_eq!(get_watch_roots(&sources), vec![path("/workspace")]);
}

#[test]
fn tags_child_root_removal_without_dropping_the_empty_path() {
    let (sources, child) = nested_sources();

    let event = create_file_event(
        &sources,
        &path("/workspace/packages/child"),
        EventKind::Remove(RemoveKind::Folder),
    )
    .unwrap();

    assert_eq!(event.source_id, child);
    assert!(event.path.as_str().is_empty());
    assert!(event.is_source_root_removed_or_renamed());
}

#[test]
fn tags_child_root_rename_without_dropping_the_empty_path() {
    let (sources, child) = nested_sources();

    let event = create_file_event(
        &sources,
        &path("/workspace/packages/child"),
        EventKind::Modify(ModifyKind::Name(RenameMode::From)),
    )
    .unwrap();

    assert_eq!(event.source_id, child);
    assert!(event.path.as_str().is_empty());
    assert!(event.is_source_root_removed_or_renamed());
}

#[test]
fn watches_disjoint_source_roots() {
    let mut sources = sources();
    sources
        .register(source("child"), path("/other/child"))
        .unwrap();

    assert_eq!(
        get_watch_roots(&sources),
        vec![path("/workspace"), path("/other/child")]
    );
}

#[test]
fn events_outside_all_sources_are_dropped() {
    assert!(create_file_event(&sources(), &path("/elsewhere/a"), EventKind::Any).is_none());
}

fn child_root_event(kind: EventKind) -> FileEvent {
    FileEvent {
        source_id: source("child"),
        path_original: path("/workspace/child"),
        path: String::new(),
        kind,
    }
}

#[test]
fn retires_for_empty_child_root_removal_event() {
    assert!(should_retire_for_event(&child_root_event(
        EventKind::Remove(RemoveKind::Folder)
    )));
}

#[test]
fn retires_for_empty_child_root_rename_event() {
    assert!(should_retire_for_event(&child_root_event(
        EventKind::Modify(ModifyKind::Name(RenameMode::From))
    )));
}

fn patterns() -> ConfigPatterns {
    ConfigPatterns::new(&vec!["yml".into(), "json".into()]).unwrap()
}

#[test]
fn configuration_files_are_recognized() {
    let patterns = patterns();

    let workspace = classify_path(&patterns, ".moon/workspace.yml");
    assert!(workspace.workspace_config);
    assert_eq!(workspace.config_name.as_deref(), Some("workspace"));

    let tasks = classify_path(&patterns, ".moon/tasks/node.yml");
    assert!(tasks.tasks_config);

    let project = classify_path(&patterns, "packages/app/moon.json");
    assert!(project.project_config);

    let other = classify_path(&patterns, "packages/app/src/main.ts");
    assert!(!other.project_config && !other.tasks_config && !other.workspace_config);
    assert!(classify_path(&patterns, ".prototools").prototools);
}

fn facts() -> PathFacts {
    PathFacts {
        prototools: false,
        workspace_config: false,
        config_name: None,
        tasks_config: false,
        project_config: false,
    }
}

#[test]
fn events_of_other_sources_reload_their_context() {
    let event = FileEvent {
        source_id: source("child"),
        path_original: path("/workspace/child/moon.yml"),
        path: "moon.yml".into(),
        kind: EventKind::Create(CreateKind::File),
    };
    let mut project = facts();
    project.project_config = true;

    let own = decide_event(&event, &source("child"), true, &project, false);
    let other = decide_event(&event, &source("main"), true, &project, false);
    assert!(matches!(own, WatchAction::ResetProjects));
    assert!(!matches!(other, WatchAction::ResetProjects));
}

#[test]
fn project_roots_matter_for_directories_alone() {
    let main = source("main");
    let event = |kind: EventKind| FileEvent {
        source_id: source("main"),
        path: "packages/app".into(),
        path_original: path("/main/packages/app"),
        kind,
    };
    let folder = event(EventKind::Create(CreateKind::Folder));
    let file = event(EventKind::Create(CreateKind::File));

    assert!(needs_project_root(&folder, &main, true, &facts()));
    assert!(!needs_project_root(&file, &main, true, &facts()));
    assert!(!needs_project_root(&folder, &source("other"), false, &facts()));
    let mut project = facts();
    project.project_config = true;
    assert!(!needs_project_root(&folder, &main, true, &project));
}

#[test]
fn globs_select_project_roots() {
    assert_eq!(
        decide_project_root("packages/app", &vec!["packages/app".into()], None),
        Some(true)
    );
    assert_eq!(
        is_a_project_root("packages/app", &vec![], &vec!["packages/*".into()]),
        Some(true)
    );
    assert_eq!(
        is_a_project_root("apps/app", &vec![], &vec!["packages/*".into()]),
        Some(false)
    );
}

#[test]
fn workspace_changes_decide_what_is_rebuilt() {
    let quiet = WorkspaceChange {
        id: false,
        workspaces: false,
        vcs: false,
        projects: false,
        default_project: false,
        daemon: true,
    };

    assert!(matches!(
        plan_workspace_reset(WorkspaceChange { id: true, ..quiet }),
        WorkspaceReset::Retire
    ));
    assert!(matches!(plan_tasks_reset(true), Rebuild::Graphs));
    assert!(same_identity(Some("child"), &source("child")));
    assert!(!same_identity(None, &source("child")));
}

#[test]
fn only_the_latest_rebuild_counts() {
    let mut generation = RebuildGeneration { latest: 0 };
    let first = generation.start();
    let second = generation.start();

    assert!(!generation.is_latest(first));
    assert!(generation.is_latest(second));
}

#[test]
fn source_runtimes_come_in_order() {
    let registry = SourceRuntimeRegistry::new(
        context("main", "/main"),
        vec![
            (source("zebra"), SourceRuntime::Available(context("zebra", "/zebra"))),
            (source("gone"), SourceRuntime::Unavailable("gone".into())),
            (source("ant"), SourceRuntime::Available(context("ant", "/ant"))),
        ],
    )
    .unwrap();
    let ids: Vec<&str> = (0..registry.len())
        .map(|index| registry.entry_at(index).0.as_str())
        .collect();
    assert_eq!(ids, ["ant", "gone", "main", "zebra"]);
    assert_eq!(
        caches_to_clean(&registry, true),
        [source("ant"), source("main"), source("zebra")]
    );
    assert!(caches_to_clean(&registry, false).is_empty());
}

#[test]
fn project_roots_are_compared_by_components() {
    let listed = vec!["packages/app".to_string()];
    assert_eq!(decide_project_root("packages//app/", &listed, None), Some(true));
    assert_eq!(decide_project_root("/packages/app", &listed, None), Some(true));
    assert_eq!(decide_project_root("packages/./app", &listed, Some(false)), Some(false));
}
