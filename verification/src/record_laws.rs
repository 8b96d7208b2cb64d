//! What manifests, fingerprints and configuration files record.

use crate::action_install::{
    environment_root_step, install_root_step, install_step, setup_environment_step,
};
use crate::action_node::SpecView;
use crate::action_scene::{facts_of, SceneView};
use crate::action_state::StateView;
use crate::config::ProjectView;
use crate::invocation::EnvEntry;
use crate::keyset::texts_rank;
use crate::order::{arranged, arranged_holds, ranked_is_permutation};
use crate::protocol::{
    endpoint_json, endpoints_json, manifest_json, protocol_json, JsonView, ManifestView,
};
use crate::runtime::runtime_of;
use crate::task::{key_of_task, TaskView};
use crate::task_fingerprint::fingerprint_of;
use crate::text::join_texts;
use crate::wait_laws::is_on;
use crate::workspace_watch::{
    config_patterns, path_facts, pattern_capture, pattern_matches, PatternsView,
};
use vstd::prelude::*;

verus! {

/// A field of an object has a value.
pub open spec fn has_field(json: JsonView, name: Seq<char>, value: JsonView) -> bool {
    json matches JsonView::Object(fields) && exists|i: int|
        0 <= i < fields.len() && #[trigger] fields[i] == (name, value)
}

/// A protocol records what a plugin must have as required, and what it may have as optional.
pub proof fn protocols_record_what_is_required(manifest: ManifestView)
    ensures
        has_field(protocol_json(manifest), "required"@, endpoints_json(manifest.required)),
        has_field(protocol_json(manifest), "optional"@, endpoints_json(manifest.optional)),
        protocol_json(manifest)->Object_0.len() == 2,
{
    let fields = protocol_json(manifest)->Object_0;
    assert(fields[0] == ("required"@, endpoints_json(manifest.required)));
    assert(fields[1] == ("optional"@, endpoints_json(manifest.optional)));
}

/// An endpoint records what it takes as inputs, and what it gives as outputs.
pub proof fn endpoints_record_what_they_take_and_give(inputs: Seq<JsonView>, outputs: Seq<JsonView>)
    ensures
        has_field(endpoint_json(inputs, outputs), "inputs"@, JsonView::List(inputs)),
        has_field(endpoint_json(inputs, outputs), "outputs"@, JsonView::List(outputs)),
        endpoint_json(inputs, outputs)->Object_0.len() == 2,
{
    let fields = endpoint_json(inputs, outputs)->Object_0;
    assert(fields[0] == ("inputs"@, JsonView::List(inputs)));
    assert(fields[1] == ("outputs"@, JsonView::List(outputs)));
}

/// All endpoints are recorded under their names, and nothing else is.
pub proof fn endpoints_are_recorded_by_name(
    endpoints: Map<Seq<char>, JsonView>,
    name: Seq<char>,
    value: JsonView,
)
    requires
        endpoints.dom().finite(),
    ensures
        has_field(endpoints_json(endpoints), name, value) <==> endpoints.dom().contains(name)
            && endpoints[name] == value,
{
    let names = arranged::<String>(endpoints.dom());
    texts_rank();
    arranged_holds::<String>(endpoints.dom());
    let fields = endpoints_json(endpoints)->Object_0;
    if endpoints.dom().contains(name) && endpoints[name] == value {
        assert(names.contains(name));
        let i = choose|i: int| 0 <= i < names.len() && names[i] == name;
        assert(fields[i] == (name, value));
    }
    if has_field(endpoints_json(endpoints), name, value) {
        let i = choose|i: int| 0 <= i < fields.len() && #[trigger] fields[i] == (name, value);
        assert(names[i] == name);
        assert(names.contains(name));
    }
}

/// A manifest records its protocol under the fingerprint that it is given.
pub proof fn manifests_record_their_fingerprint(fingerprint: Seq<char>, protocol: JsonView)
    ensures
        has_field(
            manifest_json(fingerprint, protocol),
            "wireFingerprint"@,
            JsonView::Text(fingerprint),
        ),
        has_field(manifest_json(fingerprint, protocol), "protocol"@, protocol),
{
    let fields = manifest_json(fingerprint, protocol)->Object_0;
    assert(fields[0] == ("wireFingerprint"@, JsonView::Text(fingerprint)));
    assert(fields[1] == ("protocol"@, protocol));
}

/// The hash of a task is made of all that makes the task, in the same order, of its environment
/// in any order, and of the projects that its own depends on; what is found later is not in it
/// yet.
pub proof fn fingerprints_hold_what_makes_a_task(project: ProjectView, task: TaskView)
    requires
        key_of_task(task) is Some,
    ensures
        ({
            let fingerprint = fingerprint_of(project, task);
            &&& Some(fingerprint.target) == key_of_task(task)
            &&& fingerprint.command == task.command
            &&& fingerprint.args == task.args
            &&& fingerprint.outputs == task.outputs
            &&& fingerprint.script == task.script
            &&& fingerprint.toolchains == task.toolchains
            &&& fingerprint.cache_key == task.cache_key
            &&& fingerprint.env.to_multiset() == task.env.to_multiset()
            &&& fingerprint.deps.dom() =~= Set::empty()
            &&& fingerprint.inputs.dom() =~= Set::empty()
            &&& fingerprint.input_env.dom() =~= Set::empty()
            &&& fingerprint.project_deps.len() == project.dependencies.len()
            &&& forall|i: int|
                0 <= i < project.dependencies.len() ==> {
                    let key = #[trigger] fingerprint.project_deps[i];
                    let dependency = project.dependencies[i];
                    &&& key.project == dependency.id
                    &&& dependency.source_root is Some ==> key.source
                        == dependency.source_root->0
                    &&& dependency.source_root is None ==> key.source == project.source_id
                }
        }),
{
    ranked_is_permutation::<EnvEntry>(task.env);
}

/// What a path is depends on the pattern for it: each kind of configuration on its own, and the
/// name of one of the workspace on what its pattern takes as the name.
pub proof fn files_are_what_their_pattern_says(patterns: PatternsView, path: Seq<char>)
    ensures
        ({
            let facts = path_facts(patterns, path);
            &&& facts.workspace_config <==> pattern_matches(patterns.workspace, path) == Some(true)
            &&& facts.tasks_config <==> pattern_matches(patterns.tasks, path) == Some(true)
            &&& facts.project_config <==> pattern_matches(patterns.project, path) == Some(true)
            &&& facts.config_name == pattern_capture(patterns.workspace, path, "name"@)
            &&& facts.prototools <==> crate::path::relative_components(path).len() > 0
                && crate::path::relative_components(path).last() == ".prototools"@
        }),
{
}

/// Configuration files have one of the extensions: those of projects are anywhere, and those of
/// tasks and of the workspace in the directories of the configuration.
pub proof fn configuration_files_have_an_extension(extensions: Seq<Seq<char>>)
    ensures
        ({
            let group = "("@ + join_texts(extensions, "|"@) + ")"@;
            let patterns = config_patterns(extensions);
            &&& patterns.project == "(^|/)moon\\."@ + group + "$"@
            &&& patterns.tasks == "^(\\.moon|\\.config/moon)/.*\\."@ + group + "$"@
            &&& patterns.workspace == "^(\\.moon|\\.config/moon)/(?<name>\\w+)\\."@ + group + "$"@
        }),
{
}

/// The dependencies of the workspace itself are installed, and its environment set up, only
/// where it declares them itself; then as for the workspace, and otherwise nothing changes.
pub proof fn workspaces_install_what_they_declare(
    scene: SceneView,
    state: StateView,
    spec: SpecView,
)
    ensures
        ({
            let facts = facts_of(scene.facts, scene.primary, None, spec.id);
            let declares = facts is Some && facts->0.tier_2 && facts->0.root is Some
                && facts->0.root->0.is_workspace_root;
            let (installed, step) = install_root_step(scene, state, spec);
            let (set_up, done) = setup_environment_step(scene, state, None, spec, Seq::empty());
            &&& step matches Ok(Some(_)) ==> declares && (installed, step) == install_step(
                scene,
                state,
                None,
                spec,
            )
            &&& runtime_of(scene.runtimes.entries, scene.primary) is Ok && facts is Some
                && !declares ==> installed == state && step is Ok && step->Ok_0 is None
            &&& spec.id == "system"@ || !is_on(scene.options.install_dependencies, spec.id)
                ==> installed == state
            &&& environment_root_step(scene, state, spec).1 matches Ok(Some(_)) ==> declares
                && environment_root_step(scene, state, spec) == (set_up, done)
            &&& runtime_of(scene.runtimes.entries, scene.primary) is Ok && facts is Some
                && !declares ==> environment_root_step(scene, state, spec).0 == state
        }),
{
    crate::wait_laws::switches_agree(scene.options.install_dependencies, spec.id);
    crate::wait_laws::switches_agree(scene.options.setup_environment, spec.id);
}

} // verus!
