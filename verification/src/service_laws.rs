//! What sessions, services and plugins keep and are told.

use crate::action_builder::{changed_only, files_by_source, files_of_source, with_marks};
use crate::action_context::{noted, TargetStateView};
use crate::action_scene::SceneView;
use crate::affected_tracker::TrackerView;
use crate::benchmark::{revision_of, times_of, total_time};
use crate::changed_files::{ImpactCompleteness, ObservationView};
use crate::id::valid_id;
use crate::keys::TaskKeyView;
use crate::order::{ranked, ranked_same_items};
use crate::plugin_config::{
    config_request, extension_config_text, merged_value, toolchain_config_text, ConfigFault,
    ConfigRequestView,
};
use crate::plugin_registry::{begun, settled, PluginFault, RegistryView, StartView};
use crate::protocol::compact_text;
use crate::runtime::{known_report, RuntimeView};
use crate::session::{available_among, with_plugins, MoonSession};
use crate::source::SourcePathView;
use crate::watch::{is_directory_mutation, is_mutation, is_root_gone};
use vstd::prelude::*;

verus! {

/// A session keeps version control whatever plugins it takes in. Plugins that are obsolete take
/// all that was made with them along, and others only what was made of the services.
pub proof fn sessions_keep_version_control(session: MoonSession, invalidate: bool)
    ensures
        ({
            let after = with_plugins(session, invalidate);
            &&& after.vcs_adapter == session.vcs_adapter
            &&& !after.app_context
            &&& !after.source_runtime_registry
            &&& if invalidate {
                &&& !after.aggregate_workspace_graph && !after.workspace_graph
                &&& !after.extension_registry && !after.toolchain_registry
                &&& !after.project_graph && !after.task_graph
            } else {
                &&& after.aggregate_workspace_graph == session.aggregate_workspace_graph
                &&& after.workspace_graph == session.workspace_graph
                &&& after.extension_registry == session.extension_registry
                &&& after.toolchain_registry == session.toolchain_registry
                &&& after.project_graph == session.project_graph
                &&& after.task_graph == session.task_graph
            }
        }),
{
}

/// The source roots whose services can be used are those among some that were loaded.
pub proof fn available_sources_are_those_loaded(
    entries: Map<Seq<char>, RuntimeView>,
    ids: Seq<Seq<char>>,
    id: Seq<char>,
)
    ensures
        available_among(entries, ids).contains(id) <==> ids.contains(id) && entries[
            id] is Available,
    decreases ids.len(),
{
    if ids.len() > 0 {
        let rest = ids.drop_last();
        let last = ids.last();
        available_sources_are_those_loaded(entries, rest, id);
        let before = available_among(entries, rest);
        let all = available_among(entries, ids);
        if rest.contains(id) {
            let i = choose|i: int| 0 <= i < rest.len() && rest[i] == id;
            assert(ids[i] == id);
        }
        if ids.contains(id) && id != last {
            let i = choose|i: int| 0 <= i < ids.len() && ids[i] == id;
            assert(rest[i] == id);
        }
        assert(ids[ids.len() - 1] == last);
        if entries[last] is Available {
            assert(all[before.len() as int] == last);
            if before.contains(id) {
                let i = choose|i: int| 0 <= i < before.len() && before[i] == id;
                assert(all[i] == id);
            }
            if all.contains(id) && id != last {
                let i = choose|i: int| 0 <= i < all.len() && all[i] == id;
                assert(before[i] == id);
            }
        }
    }
}

/// Version control is asked exactly where standard input says nothing and it is there. Without
/// it nothing is known of the changes, and only where it is switched off is it said to be
/// missing.
pub proof fn version_control_is_asked_where_it_is_needed(
    source: Seq<char>,
    primary: Seq<char>,
    stdin: Option<Set<Seq<char>>>,
    runtime: RuntimeView,
)
    ensures
        known_report(source, primary, stdin, runtime) is None <==> stdin is None && (
        runtime matches RuntimeView::Available(context) && context.vcs_enabled),
        known_report(source, primary, stdin, runtime) matches Some(report) ==> {
            &&& report.source == source
            &&& report.vcs_unavailable <==> stdin is None && runtime is Available
            &&& stdin is None ==> report.observation.completeness
                == ImpactCompleteness::Unavailable && report.observation.files.dom()
                =~= Set::empty()
            &&& stdin is None ==> (runtime matches RuntimeView::Unavailable(reason)
                ==> report.observation.diagnostics == seq![reason])
            &&& stdin matches Some(files) ==> source != primary ==> report.observation.completeness
                == ImpactCompleteness::Unavailable
            &&& stdin matches Some(files) ==> source == primary ==> report.observation.completeness
                == ImpactCompleteness::Exact && report.observation.files.dom() =~= files
        },
{
}

/// A plugin asks for the configuration of a toolchain, and of a project where it names one: an
/// empty name names none. Names that are not identifiers are refused.
pub proof fn configurations_are_asked_for_by_identifier(
    toolchain: Seq<char>,
    project: Option<Seq<char>>,
)
    ensures
        match config_request(toolchain, project) {
            Ok(request) => {
                &&& valid_id(toolchain)
                &&& request.toolchain == toolchain
                &&& request.project is Some <==> project is Some && project->0.len() > 0
                &&& request.project is Some ==> request.project == project && valid_id(project->0)
            },
            Err(ConfigFault::InvalidId { id }) => !valid_id(id) && (id == toolchain || project
                == Some(id)),
            Err(_) => false,
        },
{
}

/// A configuration is that of the workspace, with that of the project over it only where a
/// project was asked for; what the workspace does not have is refused by its name.
pub proof fn configurations_are_those_of_the_workspace(
    request: ConfigRequestView,
    extension: Seq<char>,
    root: serde_json::Value,
    own: serde_json::Value,
)
    ensures
        request.project is None ==> toolchain_config_text(request, Some(root), own) == Ok::<
            Seq<char>,
            ConfigFault,
        >(compact_text(root)),
        request.project is Some ==> toolchain_config_text(request, Some(root), own) == Ok::<
            Seq<char>,
            ConfigFault,
        >(compact_text(merged_value(root, own))),
        toolchain_config_text(request, None, own) == Err::<Seq<char>, ConfigFault>(
            ConfigFault::NoToolchain { id: request.toolchain },
        ),
        extension_config_text(extension, Some(root)) == Ok::<Seq<char>, ConfigFault>(
            compact_text(root),
        ),
        extension_config_text(extension, None) == Err::<Seq<char>, ConfigFault>(
            ConfigFault::NoExtension { id: extension },
        ),
{
}

/// A plugin that is registered is not replaced: a load that is to be verified fails then, and
/// another gets what is there.
pub proof fn registered_plugins_are_not_replaced(
    registry: RegistryView,
    id: Seq<char>,
    instance: usize,
    verified: bool,
)
    ensures
        ({
            let (after, got) = settled(registry, id, instance, verified);
            if registry.plugins.dom().contains(id) {
                &&& after == registry
                &&& verified ==> got is Err
                &&& !verified ==> got == Ok::<usize, PluginFault>(registry.plugins[id])
            } else {
                &&& got == Ok::<usize, PluginFault>(instance)
                &&& after.plugins.dom().contains(id) && after.plugins[id] == instance
                &&& forall|other: Seq<char>| #[trigger]
                    after.plugins.dom().contains(other) && other != id
                        <==> registry.plugins.dom().contains(other)
                &&& forall|other: Seq<char>| #[trigger]
                    registry.plugins.dom().contains(other) ==> after.plugins[other]
                        == registry.plugins[other]
            }
        }),
        begun(registry, id, verified) is UseExisting <==> !verified
            && registry.plugins.dom().contains(id),
        begun(registry, id, verified) matches StartView::UseExisting(used) ==> used
            == registry.plugins[id],
        begun(registry, id, verified) matches StartView::Acquire(load) ==> load.id == id
            && load.verified == verified && load.type_of == registry.type_of && (load.existing
            <==> registry.plugins.dom().contains(id)),
{
}

/// What became of a task is noted once: what was noted first stands, and nothing is noted of
/// another.
pub proof fn what_became_of_a_task_is_noted_once(
    states: Map<TaskKeyView, TargetStateView>,
    key: TaskKeyView,
    state: TargetStateView,
    other: TaskKeyView,
)
    ensures
        noted(states, key, state).dom().contains(key),
        states.dom().contains(key) ==> noted(states, key, state)[key] == states[key],
        !states.dom().contains(key) ==> noted(states, key, state)[key] == state,
        other != key ==> (noted(states, key, state).dom().contains(other)
            <==> states.dom().contains(other)),
        states.dom().contains(other) ==> noted(states, key, state)[other] == states[other],
{
}

/// The files that changed in a source root are those that were observed there, and none
/// where nothing was observed.
pub proof fn changed_files_are_those_observed(
    observations: Map<Seq<char>, ObservationView<SourcePathView>>,
    id: Seq<char>,
    path: Seq<char>,
)
    ensures
        files_of_source(observations, id).contains(path) <==> observations.dom().contains(id)
            && exists|file: SourcePathView| #[trigger]
            observations[id].files.dom().contains(file) && file.path == path,
        files_by_source(observations).dom().contains(id) <==> observations.dom().contains(id),
        observations.dom().contains(id) ==> files_by_source(observations)[id] == files_of_source(
            observations,
            id,
        ),
{
}

/// Files that are said to have changed are all that changed in their source root.
pub proof fn files_that_are_said_to_have_changed_are_all(
    source: Seq<char>,
    files: Set<Seq<char>>,
    file: SourcePathView,
)
    ensures
        changed_only(source, files).files.dom().contains(file) <==> file.source == source
            && files.contains(file.path),
        changed_only(source, files).completeness == ImpactCompleteness::Exact,
        changed_only(source, files).diagnostics.len() == 0,
{
}

/// A tracker says what counts as affected in a run, and changes nothing else of it.
pub proof fn marking_changes_only_what_is_affected(scene: SceneView, tracker: TrackerView)
    ensures
        with_marks(scene, tracker).affected is Some,
        with_marks(scene, tracker) == (SceneView {
            affected: with_marks(scene, tracker).affected,
            ..scene
        }),
{
}

/// Looking at something is no change, and a directory changes only where something does.
pub proof fn changes_are_mutations(path: Seq<char>, kind: crate::watch::EventKind)
    ensures
        is_mutation(kind) <==> kind is Create || kind is Modify || kind is Remove,
        is_directory_mutation(kind) ==> is_mutation(kind),
        is_root_gone(path, kind) ==> is_mutation(kind) && path.len() == 0 && !(kind is Create),
        kind is Remove && path.len() == 0 ==> is_root_gone(path, kind),
{
}

proof fn totals_hold_each(samples: Seq<u64>, i: int)
    requires
        0 <= i < samples.len(),
    ensures
        total_time(samples) >= samples[i],
    decreases samples.len(),
{
    if i < samples.len() - 1 {
        totals_hold_each(samples.drop_last(), i);
        assert(samples.drop_last()[i] == samples[i]);
    }
}

/// The shortest and the longest time are those of some runs, and no run was shorter or longer.
pub proof fn extremes_are_times_of_runs(samples: Seq<u64>, i: int)
    requires
        samples.len() > 0,
        0 <= i < samples.len(),
        total_time(samples) <= u128::MAX,
        samples.len() <= usize::MAX,
    ensures
        samples.contains(times_of(samples).min),
        samples.contains(times_of(samples).max),
        times_of(samples).min <= samples[i] <= times_of(samples).max,
        times_of(samples).total >= samples[i],
        times_of(samples).samples == samples.len(),
{
    let sorted = ranked::<u64>(samples);
    crate::order::ranked_is_permutation::<u64>(samples);
    ranked_same_items::<u64>(samples, sorted[0]);
    ranked_same_items::<u64>(samples, sorted.last());
    assert(sorted.contains(sorted[0]));
    assert(sorted.contains(sorted[sorted.len() - 1]));
    ranked_same_items::<u64>(samples, samples[i]);
    assert(samples.contains(samples[i]));
    let k = choose|k: int| 0 <= k < sorted.len() && sorted[k] == samples[i];
    crate::benchmark::percentiles_cover(samples, k);
    totals_hold_each(samples, i);
}

/// A build is of the revision that Jujutsu names, else of the one that Git names, marked where
/// something was changed since; without either it is not known.
pub proof fn builds_are_of_a_revision(jj: Option<Seq<char>>, git: Option<Seq<char>>, dirty: bool)
    ensures
        jj is Some ==> revision_of(jj, git, dirty) == jj->0,
        jj is None && git is Some && !dirty ==> revision_of(jj, git, dirty) == git->0,
        jj is None && git is Some && dirty ==> revision_of(jj, git, dirty) == git->0 + "-dirty"@,
        jj is None && git is None ==> revision_of(jj, git, dirty) == "unknown"@,
{
}

} // verus!
