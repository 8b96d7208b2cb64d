use moon_sources::id::Id;
use moon_sources::keyset::KeySet;
use moon_sources::path::LogicalPath;
use moon_sources::plugin_config::{
    load_extension_config_by_id, load_toolchain_config_by_id, parse_config_request, ConfigError,
};
use moon_sources::plugin_host::{
    choose_executable, exit_code, keeps_function, limit_command, own_functions,
    parse_wanted_target, process_capture_options, validate_process_cwd, ExecutableCandidate,
    PluginType, ProcessCapabilityDeclaration, ProcessError, ProcessHostAccess, ProcessOutput,
    ProcessOutputState, ProcessOutputStream, PROCESS_COMMAND_TIMEOUT_MILLIS,
    PROCESS_OUTPUT_CHUNK_SIZE, PROCESS_OUTPUT_DRAIN_TIMEOUT_MILLIS, PROCESS_OUTPUT_LIMIT,
};
use moon_sources::plugin_registry::{
    LoadAction, LoadEvent, LoadManyPlan, LoadStart, LoadStep, PluginError, PluginLoad,
    PluginPolicy, PluginRegistry, VCS_PLUGIN_TIMEOUT_MS,
};
use moon_sources::protocol::{
    endpoint, fingerprint, render_fingerprint_constant, Json, PluginProtocol, ProtocolIdentity,
    ProtocolManifest, ProtocolMismatch,
};

fn path(text: &str) -> LogicalPath {
    LogicalPath::parse(text)
}

fn capability(id: &str, executable: &str) -> ProcessCapabilityDeclaration {
    ProcessCapabilityDeclaration {
        id: Id::raw(id),
        executable: executable.into(),
    }
}

#[test]
fn bounds_process_execution_output_and_drain() {
    let options = process_capture_options(PROCESS_COMMAND_TIMEOUT_MILLIS);

    assert_eq!(options.timeout_millis, Some(PROCESS_COMMAND_TIMEOUT_MILLIS));
    assert_eq!(options.output_limit, Some(PROCESS_OUTPUT_LIMIT));
    assert_eq!(
        options.output_drain_timeout_millis,
        Some(PROCESS_OUTPUT_DRAIN_TIMEOUT_MILLIS)
    );
}

#[test]
fn resolves_declared_executables_without_a_core_allowlist() {
    let mut access = ProcessHostAccess::new();
    access
        .configure(
            &vec![capability("vcs", "git")],
            &vec![Some(path("/usr/bin/git"))],
        )
        .unwrap();

    assert!(access.executable(&Id::raw("vcs")).is_ok());
    assert!(access.executable(&Id::raw("undeclared")).is_err());
}

#[test]
fn rejects_executable_paths_in_capability_declarations() {
    let mut access = ProcessHostAccess::new();

    assert!(access
        .configure(&vec![capability("vcs", "../vcs")], &vec![None])
        .is_err());
}

#[test]
fn confines_process_working_directories_to_the_workspace() {
    let workspace = path("/work/space");

    assert!(validate_process_cwd(&workspace, &workspace).is_ok());
    assert!(validate_process_cwd(&path("/work/space/nested"), &workspace).is_ok());
    assert!(validate_process_cwd(&path("/work/outside"), &workspace).is_err());
}

#[test]
fn reads_chunked_output() {
    let bytes = vec![b'x'; PROCESS_OUTPUT_CHUNK_SIZE as usize + 3];
    let output = ProcessOutput::new(1, bytes, vec![]);

    let first = output.read(ProcessOutputStream::Stdout, 0).unwrap();
    assert_eq!(first.bytes.len(), PROCESS_OUTPUT_CHUNK_SIZE as usize);
    assert!(!first.eof);

    let second = output
        .read(ProcessOutputStream::Stdout, PROCESS_OUTPUT_CHUNK_SIZE)
        .unwrap();
    assert_eq!(second.bytes, b"xxx");
    assert!(second.eof);
}

#[test]
fn output_is_read_whole_part_by_part() {
    let bytes: Vec<u8> = (0..200_000u32).map(|n| (n % 251) as u8).collect();
    let output = ProcessOutput::new(1, vec![], bytes.clone());
    let mut read: Vec<u8> = vec![];

    loop {
        let chunk = output
            .read(ProcessOutputStream::Stderr, read.len() as u64)
            .unwrap();
        read.extend(chunk.bytes);
        if chunk.eof {
            break;
        }
    }

    assert_eq!(read, bytes);
    assert_eq!(
        output
            .read(ProcessOutputStream::Stdout, 1)
            .unwrap_err()
            .message(),
        "process output offset 1 exceeds stream length 0"
    );
}

#[test]
fn capabilities_are_declared_once() {
    let mut access = ProcessHostAccess::new();
    assert_eq!(
        access.executable(&Id::raw("vcs")).unwrap_err().message(),
        "plugin process capabilities are not configured"
    );

    let twice = vec![capability("vcs", "git"), capability("vcs", "jj")];
    let places = vec![Some(path("/bin/git")), Some(path("/bin/jj"))];
    assert_eq!(
        access.configure(&twice, &places).unwrap_err().message(),
        "process capability `vcs` is declared more than once"
    );
    assert_eq!(
        access
            .configure(&vec![capability("vcs", "jj")], &vec![None])
            .unwrap_err()
            .message(),
        "unable to resolve executable `jj` for process capability `vcs`"
    );
    assert_eq!(
        access
            .configure(&vec![capability("vcs", "")], &vec![None])
            .unwrap_err()
            .message(),
        "process capability `vcs` must declare an executable name without a path"
    );

    access
        .configure(&vec![capability("vcs", "jj")], &vec![Some(path("/bin/jj"))])
        .unwrap();
    assert_eq!(
        access
            .configure(&vec![], &vec![])
            .unwrap_err()
            .message(),
        "plugin process capabilities are already configured"
    );
    assert_eq!(
        access.executable(&Id::raw("git")).unwrap_err().message(),
        "plugin requested undeclared process capability `git`"
    );
    assert_eq!(access.executable(&Id::raw("vcs")).unwrap(), &path("/bin/jj"));
}

#[test]
fn executables_of_the_workspace_are_passed_over() {
    let workspace = path("/work");
    let candidates = vec![
        ExecutableCandidate {
            path: path("/work/bin/git"),
            is_file: true,
            physical: Some(path("/work/bin/git")),
        },
        ExecutableCandidate {
            path: path("/opt/git"),
            is_file: true,
            physical: Some(path("/work/bin/git")),
        },
        ExecutableCandidate {
            path: path("/bin/git"),
            is_file: false,
            physical: None,
        },
        ExecutableCandidate {
            path: path("/usr/bin/git"),
            is_file: true,
            physical: Some(path("/usr/lib/git")),
        },
    ];

    assert_eq!(
        choose_executable(&candidates, &workspace),
        Some(path("/usr/lib/git"))
    );
    assert_eq!(choose_executable(&vec![], &workspace), None);
}

#[test]
fn commands_leave_time_for_the_answer() {
    assert_eq!(limit_command(None), 120_000);
    assert_eq!(limit_command(Some(10_000)), 0);
    assert_eq!(limit_command(Some(90_000)), 60_000);
    assert_eq!(limit_command(Some(1_000_000)), 120_000);
    assert_eq!(exit_code(Some(Some(3))), 3);
    assert_eq!(exit_code(Some(None)), -1);
    assert_eq!(exit_code(None), -1);
}

#[test]
fn results_are_numbered_and_closed() {
    let mut state = ProcessOutputState::new();
    let first = state.begin().unwrap();
    state.keep(ProcessOutput::new(first, b"one".to_vec(), vec![]));
    assert_eq!(
        state
            .find(first)
            .unwrap()
            .read(ProcessOutputStream::Stdout, 0)
            .unwrap()
            .bytes,
        b"one"
    );

    let second = state.begin().unwrap();
    assert_eq!((first, second), (1, 2));
    assert_eq!(
        state.close(first).unwrap_err().message(),
        "unknown process result `1`"
    );
    state.keep(ProcessOutput::new(second, vec![], vec![]));
    state.close(second).unwrap();
    assert!(state.find(second).is_err());

    state.next_id = u64::MAX;
    assert!(matches!(state.begin(), Err(ProcessError::IdsExhausted)));
}

#[test]
fn version_control_plugins_have_their_own_functions() {
    assert!(keeps_function(PluginType::Vcs, "host_log"));
    assert!(!keeps_function(PluginType::Vcs, "exec_command"));
    assert!(keeps_function(PluginType::Toolchain, "exec_command"));
    assert_eq!(
        own_functions(PluginType::Vcs),
        [
            "exec_process_command_v1",
            "read_process_output_v1",
            "close_process_output_v1"
        ]
    );
    assert_eq!(own_functions(PluginType::Extension).len(), 6);
}

#[test]
fn wanted_tasks_name_their_project() {
    assert_eq!(
        parse_wanted_target("app:build").unwrap().to_text(),
        "app:build"
    );
    assert_eq!(
        parse_wanted_target(":build").unwrap_err().message(),
        "Unable to load task :build. Requires a fully-qualified target with a project scope."
    );
    assert!(matches!(
        parse_wanted_target("a b:c"),
        Err(ProcessError::InvalidTarget { .. })
    ));
}

fn registry() -> PluginRegistry {
    let mut locators: KeySet<Id> = KeySet::new();
    locators.insert(Id::raw("node"));
    locators.insert(Id::raw("rust"));
    PluginRegistry::new(PluginType::Toolchain, locators)
}

fn open_policy() -> PluginPolicy {
    PluginPolicy {
        allowed_hosts: None,
        allowed_paths: None,
        timeout_ms: None,
    }
}

fn begin(plugins: &PluginRegistry, id: &str, verified: bool) -> PluginLoad {
    match plugins.begin_load(&Id::raw(id), verified) {
        LoadStart::Acquire(load) => load,
        LoadStart::UseExisting(instance) => panic!("{} is registered", instance),
    }
}

fn create(plugins: &mut PluginRegistry, load: &mut PluginLoad, verified: bool) {
    let mut action = plugins.continue_load(load, LoadEvent::Acquired).unwrap();
    if verified {
        assert!(matches!(action, LoadAction::Verify));
        action = plugins.continue_load(load, LoadEvent::Verified).unwrap();
    }
    assert!(matches!(action, LoadAction::Prepare));
    let policy = match plugins.continue_load(load, LoadEvent::Prepared(open_policy())) {
        Ok(LoadAction::Configure(policy)) => policy,
        _ => panic!("the plugin is configured"),
    };
    assert!(matches!(
        plugins.continue_load(load, LoadEvent::Configured(policy)),
        Ok(LoadAction::Create)
    ));
}

fn settle(
    plugins: &mut PluginRegistry,
    load: &mut PluginLoad,
    instance: usize,
) -> Result<usize, PluginError> {
    match plugins.continue_load(load, LoadEvent::Created(instance))? {
        LoadAction::Use(instance) => Ok(instance),
        _ => panic!("the load ends"),
    }
}

#[test]
fn plugins_are_loaded_once() {
    let mut plugins = registry();
    let node = Id::raw("node");

    assert_eq!(plugins.load(&node).unwrap(), LoadStep::Acquire);
    assert!(matches!(
        plugins.load(&Id::raw("go")),
        Err(PluginError::UnknownId { .. })
    ));
    assert!(!plugins.is_registered(&node));

    let mut first = begin(&plugins, "node", false);
    let mut second = begin(&plugins, "node", false);
    let mut third = begin(&plugins, "node", true);
    create(&mut plugins, &mut first, false);
    create(&mut plugins, &mut second, false);
    create(&mut plugins, &mut third, true);
    assert!(!plugins.is_registered(&node));
    assert_eq!(settle(&mut plugins, &mut first, 7).unwrap(), 7);
    assert!(plugins.is_registered(&node));
    assert_eq!(settle(&mut plugins, &mut second, 8).unwrap(), 7);
    assert!(matches!(
        settle(&mut plugins, &mut third, 9),
        Err(PluginError::ExistingId { .. })
    ));

    assert_eq!(plugins.get_instance(&node).unwrap(), 7);
    assert_eq!(plugins.load(&node).unwrap(), LoadStep::UseExisting(7));
    assert!(matches!(
        plugins.begin_load(&node, false),
        LoadStart::UseExisting(7)
    ));
    assert!(plugins.get_instance(&Id::raw("rust")).is_err());
}

#[test]
fn verified_loads_check_the_file_of_a_registered_plugin() {
    let mut plugins = registry();
    let mut load = begin(&plugins, "node", false);
    create(&mut plugins, &mut load, false);
    settle(&mut plugins, &mut load, 7).unwrap();

    let mut again = begin(&plugins, "node", true);
    assert!(matches!(
        plugins.continue_load(&mut again, LoadEvent::Acquired),
        Ok(LoadAction::Verify)
    ));
    assert!(matches!(
        plugins.continue_load(&mut again, LoadEvent::Verified),
        Err(PluginError::ExistingId { ty: PluginType::Toolchain, .. })
    ));
    assert!(matches!(
        plugins.continue_load(&mut again, LoadEvent::Created(8)),
        Ok(LoadAction::Ignore)
    ));
    assert_eq!(plugins.get_instance(&Id::raw("node")).unwrap(), 7);
}

#[test]
fn loads_heed_what_belongs_to_their_stage() {
    let mut plugins = registry();
    let node = Id::raw("node");
    let mut load = begin(&plugins, "node", true);

    for event in [
        LoadEvent::Verified,
        LoadEvent::Prepared(open_policy()),
        LoadEvent::Configured(open_policy()),
        LoadEvent::Created(1),
    ] {
        assert!(matches!(
            plugins.continue_load(&mut load, event),
            Ok(LoadAction::Ignore)
        ));
    }
    assert!(!plugins.is_registered(&node));

    plugins.continue_load(&mut load, LoadEvent::Acquired).unwrap();
    assert!(matches!(
        plugins.continue_load(&mut load, LoadEvent::Created(1)),
        Ok(LoadAction::Ignore)
    ));
    assert!(!plugins.is_registered(&node));

    let mut others = PluginRegistry::new(PluginType::Vcs, KeySet::new());
    assert!(matches!(
        others.continue_load(&mut load, LoadEvent::Verified),
        Ok(LoadAction::Ignore)
    ));
    assert!(matches!(
        plugins.continue_load(&mut load, LoadEvent::Verified),
        Ok(LoadAction::Prepare)
    ));
}

#[test]
fn plugins_come_in_the_order_of_the_request() {
    let mut plugins = registry();
    let ids = vec![Id::raw("rust"), Id::raw("go"), Id::raw("node")];

    match plugins.load_many(&ids) {
        LoadManyPlan::Load(missing) => {
            assert_eq!(missing, [Id::raw("rust"), Id::raw("node")]);
        }
        LoadManyPlan::Registered(_) => panic!("nothing is registered"),
    }

    for (id, instance) in [("node", 1), ("rust", 2)] {
        let mut load = begin(&plugins, id, false);
        create(&mut plugins, &mut load, false);
        settle(&mut plugins, &mut load, instance).unwrap();
    }
    match plugins.load_many(&vec![Id::raw("rust"), Id::raw("node")]) {
        LoadManyPlan::Registered(instances) => assert_eq!(instances, [2, 1]),
        LoadManyPlan::Load(_) => panic!("all are registered"),
    }
}

#[test]
fn the_host_owns_the_policy_of_version_control() {
    let git = Id::raw("git");
    let mut plugins = PluginRegistry::new(PluginType::Vcs, KeySet::new());

    for changed in [true, false] {
        let mut load = begin(&plugins, "git", false);
        plugins.continue_load(&mut load, LoadEvent::Acquired).unwrap();
        let mut policy = match plugins.continue_load(&mut load, LoadEvent::Prepared(open_policy()))
        {
            Ok(LoadAction::Configure(policy)) => policy,
            _ => panic!("the plugin is configured"),
        };
        assert_eq!(policy.allowed_hosts.as_ref().unwrap().len(), 0);
        assert_eq!(policy.allowed_paths.as_ref().unwrap().len(), 0);
        assert_eq!(policy.timeout_ms, Some(VCS_PLUGIN_TIMEOUT_MS));
        if changed {
            policy.allowed_hosts = Some(vec!["example.com".into()]);
        }
        let configured = plugins.continue_load(&mut load, LoadEvent::Configured(policy));
        if changed {
            assert!(matches!(configured, Err(PluginError::PolicyChanged)));
        } else {
            assert!(matches!(configured, Ok(LoadAction::Create)));
        }
        let _ = plugins.continue_load(&mut load, LoadEvent::Created(1));
        assert_eq!(plugins.is_registered(&git), !changed);
    }
}

#[test]
fn other_plugins_set_their_own_policy() {
    let mut plugins = registry();
    let mut load = begin(&plugins, "node", false);
    plugins.continue_load(&mut load, LoadEvent::Acquired).unwrap();
    match plugins.continue_load(&mut load, LoadEvent::Prepared(open_policy())) {
        Ok(LoadAction::Configure(policy)) => assert!(policy.allowed_hosts.is_none()),
        _ => panic!("the plugin is configured"),
    }
    let mut policy = open_policy();
    policy.timeout_ms = Some(1);
    assert!(matches!(
        plugins.continue_load(&mut load, LoadEvent::Configured(policy)),
        Ok(LoadAction::Create)
    ));
}

fn value(text: &str) -> serde_json::Value {
    serde_json::from_str(text).unwrap()
}

#[test]
fn project_configuration_is_put_over_that_of_the_workspace() {
    let root = value(r#"{"version":"1","nested":{"a":1,"b":2}}"#);
    let own = value(r#"{"nested":{"b":3}}"#);

    let for_project = parse_config_request("node", Some("app")).unwrap();
    assert_eq!(
        value(&load_toolchain_config_by_id(&for_project, Some(&root), &own).unwrap()),
        value(r#"{"version":"1","nested":{"a":1,"b":3}}"#)
    );

    let for_workspace = parse_config_request("node", Some("")).unwrap();
    assert_eq!(
        value(&load_toolchain_config_by_id(&for_workspace, Some(&root), &own).unwrap()),
        root
    );
    assert_eq!(
        load_toolchain_config_by_id(&for_workspace, None, &own)
            .unwrap_err()
            .message(),
        "Unable to load toolchain configuration. Toolchain node does not exist."
    );
    assert!(matches!(
        parse_config_request("no de", None),
        Err(ConfigError::InvalidId { .. })
    ));
    assert!(parse_config_request("node", Some("a b")).is_err());
    assert_eq!(
        load_extension_config_by_id(&Id::raw("ext"), None)
            .unwrap_err()
            .message(),
        "Unable to load extension configuration. Extension ext does not exist."
    );
    assert_eq!(
        load_extension_config_by_id(&Id::raw("ext"), Some(&own)).unwrap(),
        r#"{"nested":{"b":3}}"#
    );
}

#[test]
fn fingerprints_are_digests_of_the_protocol() {
    assert_eq!(
        fingerprint("abc"),
        "ba7816bf8f01cfea414140de5dae2223b00361a396177a9cb410ff61f20015ad"
    );
    assert_eq!(
        ProtocolManifest::new().fingerprint(),
        "be27ae781ea42971368495f0e621660f604f5084cd5bc5edc7e08cec48f41404"
    );

    let manifest = ProtocolManifest::new().required(
        "detect".into(),
        vec![Json::Text("A".into())],
        vec![Json::Text("B".into()), Json::Number(1)],
    );
    assert_eq!(
        manifest.fingerprint(),
        "b768196a476a93d89311bba6c117c97abaffcb7cc2af433b964ef2bf355fc5a3"
    );
}

#[test]
fn the_order_of_declarations_does_not_show() {
    let a = || vec![Json::Bool(true)];
    let first = ProtocolManifest::new()
        .optional("a".into(), a(), vec![])
        .optional("b".into(), vec![], a());
    let second = ProtocolManifest::new()
        .optional("b".into(), vec![], a())
        .optional("a".into(), a(), vec![]);

    assert_eq!(first.render(), second.render());
    assert!(matches!(endpoint(vec![], vec![]), Json::Object(fields) if fields.len() == 2));
}

#[test]
fn manifests_are_verified_against_their_files() {
    let manifest = ProtocolManifest::new().optional("a".into(), vec![], vec![]);
    let (text, constant) = manifest.update("FINGERPRINT");

    assert!(text.starts_with("{\n  \"wireFingerprint\": \""));
    assert!(text.ends_with("}\n"));
    assert_eq!(
        constant,
        render_fingerprint_constant("FINGERPRINT", &manifest.fingerprint())
    );
    assert_eq!(manifest.verify(&text, &constant, "FINGERPRINT"), Ok(()));
    assert_eq!(
        manifest.verify("{}", &constant, "FINGERPRINT"),
        Err(ProtocolMismatch::Manifest)
    );
    assert_eq!(
        manifest.verify(&text, &constant, "OTHER"),
        Err(ProtocolMismatch::Fingerprint)
    );
    assert_eq!(
        render_fingerprint_constant("NAME", "abc"),
        "// Generated protocol fingerprint.\npub const NAME: &str =\n    \"abc\";\n"
    );
}

struct TestProtocol;

impl PluginProtocol for TestProtocol {
    const FINGERPRINT: &'static str = "abc";
}

#[test]
fn protocols_accept_their_own_fingerprint_alone() {
    assert_eq!(TestProtocol::identity().fingerprint, "abc");
    assert!(TestProtocol::is_compatible(&TestProtocol::identity()));
    assert!(!TestProtocol::is_compatible(&ProtocolIdentity {
        fingerprint: "abd".into()
    }));
}
