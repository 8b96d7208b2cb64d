use moon_sources::id::Id;
use moon_sources::invocation::{EnvEntry, TaskInvocationKey};
use moon_sources::keys::{KeyError, ProjectKey, TaskKey};
use moon_sources::path::LogicalPath;
use moon_sources::source::{
    SourceAlias, SourcePathBuf, SourcePathError, SourceRegistry, SourceRegistryError, SourceRootId,
};

fn source(id: &str) -> SourceRootId {
    SourceRootId::new(id).unwrap()
}

fn path(text: &str) -> LogicalPath {
    LogicalPath::parse(text)
}

#[test]
fn project_keys_include_the_source_root() {
    let first = ProjectKey::new(source("first"), Id::raw("app")).unwrap();
    let second = ProjectKey::new(source("second"), Id::raw("app")).unwrap();

    assert_ne!(first, second);
    assert_eq!(first.to_text(), "first::app");
    assert_eq!(first.to_text().parse::<ProjectKey>().unwrap(), first);
}

#[test]
fn task_keys_include_the_source_root() {
    let key = TaskKey::new(
        ProjectKey::new(source("frontend"), Id::raw("app")).unwrap(),
        Id::raw("build"),
    )
    .unwrap();

    assert_eq!(key.to_text(), "frontend::app:build");
    assert_eq!(key.to_text().parse::<TaskKey>().unwrap(), key);
}

#[test]
fn primary_keys_have_stable_qualified_values() {
    assert_eq!(
        ProjectKey::primary(Id::raw("app")).unwrap().to_text(),
        "workspace::app"
    );
    assert_eq!(
        TaskKey::primary(Id::raw("app"), Id::raw("build"))
            .unwrap()
            .to_text(),
        "workspace::app:build"
    );
}

#[test]
fn rejects_unchecked_ids_that_break_qualified_serialization() {
    assert!(ProjectKey::new(SourceRootId::primary(), Id::raw("app:invalid")).is_err());
    assert!(TaskKey::primary(Id::raw("app"), Id::raw("build:invalid")).is_err());
}

#[test]
fn keys_that_are_no_keys_are_reported() {
    assert!(ProjectKey::parse("app").is_err());
    assert!(ProjectKey::parse("::app").is_err());
    assert!(TaskKey::parse("first::app").is_err());
    assert!(matches!(
        ProjectKey::parse("first::a b"),
        Err(KeyError::InvalidId(_))
    ));
}

#[test]
fn texts_are_read_back() {
    assert_eq!("first".parse::<SourceRootId>().unwrap(), source("first"));
    assert!("a b".parse::<SourceRootId>().is_err());
    assert_eq!(
        "first::app".parse::<ProjectKey>().unwrap(),
        ProjectKey::parse("first::app").unwrap()
    );
    assert!(matches!(
        "app".parse::<ProjectKey>(),
        Err(KeyError::ProjectFormat)
    ));
    assert_eq!(
        "first::app:build".parse::<TaskKey>().unwrap(),
        TaskKey::parse("first::app:build").unwrap()
    );
    assert!("first::app".parse::<TaskKey>().is_err());
    assert!("first".parse::<SourcePathBuf>().is_err());
    assert!("a b::file".parse::<SourcePathBuf>().is_err());
}

#[test]
fn defaults_to_a_stable_primary_id() {
    assert_eq!(SourceRootId::primary().as_str(), "workspace");
    assert_eq!(SourceRootId::default(), SourceRootId::primary());
}

#[test]
fn resolves_and_qualifies_paths() {
    let root = path("/work/workspace");
    let mut sources = SourceRegistry::single(root);
    let nested_id = source("nested");

    sources
        .register(nested_id.clone(), path("/work/workspace/nested"))
        .unwrap();

    let qualified = sources
        .qualify(&path("/work/workspace/nested/project/file.txt"))
        .unwrap();

    assert_eq!(qualified.source, nested_id);
    assert_eq!(qualified.path.as_str(), "project/file.txt");
    assert_eq!(
        sources.resolve(&qualified).unwrap(),
        path("/work/workspace/nested/project/file.txt")
    );
}

#[test]
fn rejects_unknown_and_duplicate_roots() {
    let mut sources = SourceRegistry::single(path("/work/workspace"));

    assert!(sources
        .register(SourceRootId::primary(), path("other"))
        .is_err());
    assert!(sources
        .resolve(&SourcePathBuf::new(source("unknown"), "file.txt"))
        .is_err());
}

#[test]
fn rejects_duplicate_normalized_root_paths() {
    let mut sources = SourceRegistry::single(path("/work/workspace"));

    assert!(sources
        .register(source("other"), path("/work/workspace/."))
        .is_err());
}

#[test]
fn source_paths_round_trip_through_strings() {
    let file = SourcePathBuf::new(source("frontend"), "packages/app");
    let value = file.to_text();

    assert_eq!(value, "frontend::packages/app");
    assert_eq!(value.parse::<SourcePathBuf>().unwrap(), file);
}

#[test]
fn rejects_paths_that_escape_their_source_root() {
    let sources = SourceRegistry::single(path("/work/workspace"));

    assert!(sources
        .resolve(&SourcePathBuf::primary("../file.txt"))
        .is_err());
}

#[test]
fn default_registry_resolves_relative_paths() {
    let sources = SourceRegistry::default();
    let file = SourcePathBuf::primary("file.txt");

    assert_eq!(sources.resolve(&file).unwrap(), path("file.txt"));
}

#[test]
fn the_nearest_source_root_owns_a_path() {
    let mut sources = SourceRegistry::new(source("outer"), path("/work"));
    sources.register(source("inner"), path("/work/inner")).unwrap();

    assert_eq!(
        sources.qualify(&path("/work/a/b.txt")).unwrap().to_text(),
        "outer::a/b.txt"
    );
    assert_eq!(
        sources.qualify(&path("/work/inner/b.txt")).unwrap().to_text(),
        "inner::b.txt"
    );
    assert!(matches!(
        sources.qualify(&path("/other/b.txt")),
        Err(SourceRegistryError::UnqualifiedPath { .. })
    ));
}

#[test]
fn errors_of_the_registry_say_what_is_wrong() {
    let mut sources = SourceRegistry::new(source("main"), path("/work"));

    let duplicate = sources.register(source("main"), path("/a")).unwrap_err();
    assert!(matches!(
        duplicate,
        SourceRegistryError::DuplicateSourceRoot { .. }
    ));
    assert_eq!(
        duplicate.message(),
        "Source root main has already been registered."
    );

    let reserved = sources
        .register(SourceRootId::primary(), path("/a"))
        .unwrap_err();
    assert!(matches!(
        reserved,
        SourceRegistryError::ReservedSourceRoot { .. }
    ));

    let same_path = sources.register(source("twin"), path("/work")).unwrap_err();
    assert!(matches!(
        same_path,
        SourceRegistryError::DuplicateSourceRootPath { .. }
    ));

    let unknown = sources.get(&source("nobody")).unwrap_err();
    assert_eq!(
        unknown.message(),
        "Source root nobody has not been registered."
    );

    let escaping = sources
        .resolve(&SourcePathBuf::new(source("main"), "../x"))
        .unwrap_err();
    assert_eq!(escaping.message(), "Path ../x escapes source root main.");
}

#[test]
fn the_compatibility_id_names_the_primary_source_root() {
    let sources = SourceRegistry::new(source("acme"), path("/work"));

    assert_eq!(
        sources.get(&SourceRootId::primary()).unwrap(),
        sources.get_primary()
    );
    assert_eq!(
        sources.resolve(&SourcePathBuf::primary("a.txt")).unwrap(),
        path("/work/a.txt")
    );
}

#[test]
fn source_paths_need_a_source_root() {
    assert!(matches!(
        SourcePathBuf::parse("a.txt"),
        Err(SourcePathError::MissingSeparator)
    ));
    assert!(SourcePathBuf::parse("a b::c").is_err());
}

#[test]
fn aliases_and_ids_share_a_format() {
    assert_eq!(SourceAlias::new("acme/web").unwrap().as_str(), "acme/web");
    assert!(SourceAlias::new("acme web").is_err());
    assert_eq!(
        Id::new("a:b").unwrap_err().message(),
        "Invalid format for a:b, may only contain alpha-numeric characters, dashes (-), slashes (/), underscores (_), and periods (.)."
    );
}

fn entry(name: &str, value: Option<&str>) -> EnvEntry {
    EnvEntry {
        name: name.to_owned(),
        value: value.map(|text| text.to_owned()),
    }
}

#[test]
fn invocations_ignore_the_order_of_their_environment() {
    let task = TaskKey::primary(Id::raw("app"), Id::raw("build")).unwrap();
    let plain = TaskInvocationKey::new(task.clone(), vec![], vec![]);
    let first = TaskInvocationKey::new(
        task.clone(),
        vec!["--fast".to_owned()],
        vec![entry("A", Some("1")), entry("B", None)],
    );
    let second = TaskInvocationKey::new(
        task.clone(),
        vec!["--fast".to_owned()],
        vec![entry("B", None), entry("A", Some("1"))],
    );
    let other = TaskInvocationKey::new(task, vec!["--slow".to_owned()], vec![]);

    assert_eq!(plain.to_text(), "workspace::app:build");
    assert_eq!(first.to_text(), second.to_text());
    assert_ne!(first.to_text(), other.to_text());
    assert_ne!(first.to_text(), plain.to_text());
}

#[test]
fn invocations_round_trip_through_texts() {
    let task = TaskKey::primary(Id::raw("app"), Id::raw("build")).unwrap();
    let key = TaskInvocationKey::new(task, vec!["--fast".to_owned()], vec![]);
    let text = key.to_text();

    assert_eq!(TaskInvocationKey::parse(&text).unwrap().to_text(), text);
    assert_eq!(text.len(), "workspace::app:build".len() + 1 + 64);
}

#[test]
fn messages_show_paths_for_debugging() {
    let mut registry = SourceRegistry::new(
        SourceRootId::new("main").unwrap(),
        LogicalPath::parse("/a \"b\"\\c"),
    );
    let error = registry
        .register(
            SourceRootId::new("other").unwrap(),
            LogicalPath::parse("/a \"b\"\\c"),
        )
        .unwrap_err();
    assert_eq!(
        error.message(),
        "Source root path \"/a \\\"b\\\"\\\\c\" has already been registered as main."
    );
    assert_eq!(
        registry
            .qualify(&LogicalPath::parse("/tab\there"))
            .unwrap_err()
            .message(),
        "Path \"/tab\\there\" is not contained by a registered source root."
    );
}

#[test]
fn identifiers_of_source_roots_are_texts() {
    let id = SourceRootId::new("child").unwrap();
    let text: &str = id.as_ref();
    assert_eq!(text, "child");
    let alias = SourceAlias::new("other").unwrap();
    let text: &str = alias.as_ref();
    assert_eq!(text, "other");
    assert_eq!(Id::from(id), Id::raw("child"));
}
