//! What plugins may run, and how they are had.

use crate::path::components;
use crate::plugin_host::{
    command_timeout, first_runnable, wanted_target, with_capabilities, CandidateView,
    CapabilityView, ProcessFault,
};
use crate::plugin_registry::{load_plan, load_step, LoadPlan, LoadStep, PluginFault, RegistryView};
use crate::task::parse_target;
use vstd::prelude::*;

verus! {

/// Declarations of executables are in order: each names one without a path, each was found, and
/// no two have the same identifier.
pub open spec fn are_in_order(
    capabilities: Seq<CapabilityView>,
    found: Seq<Option<Seq<Seq<char>>>>,
) -> bool {
    &&& forall|i: int|
        0 <= i < capabilities.len() ==> (#[trigger] capabilities[i]).executable.len() > 0
            && components(capabilities[i].executable).len() == 1 && found[i] is Some
    &&& forall|i: int, j: int|
        0 <= i < j < capabilities.len() ==> (#[trigger] capabilities[i]).id != (
        #[trigger] capabilities[j]).id
}

/// A plugin may run exactly what it declares, at the place where it was found, and nothing
/// where any declaration is not in order.
pub proof fn plugins_run_what_they_declare(
    capabilities: Seq<CapabilityView>,
    found: Seq<Option<Seq<Seq<char>>>>,
)
    requires
        capabilities.len() <= found.len(),
    ensures
        with_capabilities(capabilities, found) is Ok <==> are_in_order(capabilities, found),
        with_capabilities(capabilities, found) matches Ok(known) ==> {
            &&& forall|i: int|
                0 <= i < capabilities.len() ==> known.dom().contains(
                    (#[trigger] capabilities[i]).id,
                ) && found[i] == Some(known[capabilities[i].id])
            &&& forall|id: Seq<char>| #[trigger]
                known.dom().contains(id) ==> exists|i: int|
                    0 <= i < capabilities.len() && (#[trigger] capabilities[i]).id == id
        },
    decreases capabilities.len(),
{
    if capabilities.len() > 0 {
        let rest = capabilities.drop_last();
        let last = capabilities.len() - 1;
        let capability = capabilities.last();
        assert(capabilities[last] == capability);
        plugins_run_what_they_declare(rest, found);
        if are_in_order(capabilities, found) {
            assert forall|i: int| 0 <= i < rest.len() implies (
            #[trigger] rest[i]).executable.len() > 0 && components(rest[i].executable).len() == 1
                && found[i] is Some by {
                assert(rest[i] == capabilities[i]);
            }
            assert forall|i: int, j: int| 0 <= i < j < rest.len() implies (#[trigger] rest[i]).id
                != (#[trigger] rest[j]).id by {
                assert(rest[i] == capabilities[i] && rest[j] == capabilities[j]);
            }
            assert(are_in_order(rest, found));
            let known = with_capabilities(rest, found)->Ok_0;
            if known.dom().contains(capability.id) {
                let i = choose|i: int| 0 <= i < rest.len() && (#[trigger] rest[i]).id
                    == capability.id;
                assert(capabilities[i].id == capabilities[last].id);
            }
        }
        if with_capabilities(capabilities, found) is Ok {
            let before = with_capabilities(rest, found)->Ok_0;
            let known = with_capabilities(capabilities, found)->Ok_0;
            assert forall|i: int| 0 <= i < capabilities.len() implies (
            #[trigger] capabilities[i]).executable.len() > 0 && components(
                capabilities[i].executable,
            ).len() == 1 && found[i] is Some by {
                if i < last {
                    assert(rest[i] == capabilities[i]);
                }
            }
            assert forall|i: int, j: int| 0 <= i < j < capabilities.len() implies (
            #[trigger] capabilities[i]).id != (#[trigger] capabilities[j]).id by {
                assert(rest[i] == capabilities[i]);
                if j < last {
                    assert(rest[j] == capabilities[j]);
                } else {
                    assert(before.dom().contains(rest[i].id));
                }
            }
            assert forall|i: int| 0 <= i < capabilities.len() implies known.dom().contains(
                (#[trigger] capabilities[i]).id,
            ) && found[i] == Some(known[capabilities[i].id]) by {
                if i < last {
                    assert(rest[i] == capabilities[i]);
                    assert(before.dom().contains(rest[i].id));
                }
            }
            assert forall|id: Seq<char>| #[trigger] known.dom().contains(id) implies exists|i: int|
                0 <= i < capabilities.len() && (#[trigger] capabilities[i]).id == id by {
                if id == capability.id {
                    assert(capabilities[last].id == id);
                } else {
                    assert(before.dom().contains(id));
                    let i = choose|i: int| 0 <= i < rest.len() && (#[trigger] rest[i]).id == id;
                    assert(capabilities[i].id == id);
                }
            }
        }
    }
}

/// A file may be run: it is a file, and neither it nor what is behind it lies in the workspace.
pub open spec fn is_runnable(candidate: CandidateView, workspace: Seq<Seq<char>>) -> bool {
    &&& candidate.is_file
    &&& !workspace.is_prefix_of(candidate.path)
    &&& candidate.physical matches Some(place) && !workspace.is_prefix_of(place)
}

/// An executable is the first file that may be run, by the place behind all links.
pub proof fn the_first_runnable_file_is_run(
    candidates: Seq<CandidateView>,
    workspace: Seq<Seq<char>>,
)
    ensures
        match first_runnable(candidates, workspace) {
            None => forall|i: int|
                0 <= i < candidates.len() ==> !is_runnable(#[trigger] candidates[i], workspace),
            Some(place) => exists|i: int|
                0 <= i < candidates.len() && is_runnable(#[trigger] candidates[i], workspace)
                    && candidates[i].physical == Some(place) && forall|j: int|
                    0 <= j < i ==> !is_runnable(#[trigger] candidates[j], workspace),
        },
    decreases candidates.len(),
{
    if candidates.len() > 0 {
        let rest = candidates.drop_last();
        let last = candidates.len() - 1;
        the_first_runnable_file_is_run(rest, workspace);
        match first_runnable(rest, workspace) {
            None => {
                assert forall|j: int| 0 <= j < last implies !is_runnable(
                    #[trigger] candidates[j],
                    workspace,
                ) by {
                    assert(rest[j] == candidates[j]);
                }
                if first_runnable(candidates, workspace) is Some {
                    assert(is_runnable(candidates[last], workspace));
                }
            },
            Some(place) => {
                let i = choose|i: int|
                    0 <= i < rest.len() && is_runnable(#[trigger] rest[i], workspace)
                        && rest[i].physical == Some(place) && forall|j: int|
                        0 <= j < i ==> !is_runnable(#[trigger] rest[j], workspace);
                assert(candidates[i] == rest[i]);
                assert forall|j: int| 0 <= j < i implies !is_runnable(
                    #[trigger] candidates[j],
                    workspace,
                ) by {
                    assert(rest[j] == candidates[j]);
                }
            },
        }
    }
}

/// A command never takes longer than any command may, nor so long that the plugin cannot answer
/// any more; more time for the plugin is never less for the command.
pub proof fn commands_leave_time_to_answer(less: u64, more: u64)
    requires
        less <= more,
    ensures
        command_timeout(Some(less)) <= command_timeout(Some(more)),
        command_timeout(Some(more)) <= command_timeout(None),
        command_timeout(Some(more)) <= more,
        command_timeout(Some(more)) > 0 ==> command_timeout(Some(more))
            + crate::plugin_host::PROCESS_RESPONSE_RESERVE_MILLIS <= more,
        command_timeout(Some(more)) < command_timeout(None) ==> more <= command_timeout(Some(more))
            + crate::plugin_host::PROCESS_RESPONSE_RESERVE_MILLIS,
        command_timeout(None) == crate::plugin_host::PROCESS_COMMAND_TIMEOUT_MILLIS,
{
}

/// A plugin can ask for a task of a project that it names, and for nothing else.
pub proof fn plugins_name_the_project(text: Seq<char>)
    ensures
        match wanted_target(text) {
            Ok(target) => parse_target(text) == Some(target) && target.project is Id,
            Err(ProcessFault::InvalidTarget { target }) => parse_target(text) is None && target
                == text,
            Err(ProcessFault::NoProjectScope { .. }) => parse_target(text) matches Some(target)
                && !(target.project is Id),
            Err(_) => false,
        },
{
}

/// A plugin that is registered is used as it is, one with a place is had from there, and
/// another is not known.
pub proof fn plugins_are_had_where_they_are(registry: RegistryView, id: Seq<char>)
    ensures
        match load_step(registry, id) {
            Ok(LoadStep::UseExisting(instance)) => registry.plugins.dom().contains(id)
                && registry.plugins[id] == instance,
            Ok(LoadStep::Acquire) => !registry.plugins.dom().contains(id)
                && registry.locators.contains(id),
            Err(fault) => !registry.plugins.dom().contains(id) && !registry.locators.contains(id)
                && fault == (PluginFault::UnknownId { id, ty: registry.type_of }),
        },
{
}

/// Several plugins are used as they are where all are registered; else those with a place are
/// loaded, all of them and no others.
pub proof fn several_plugins_are_had_together(registry: RegistryView, ids: Seq<Seq<char>>)
    ensures
        match load_plan(registry, ids) {
            LoadPlan::Registered(instances) => {
                &&& instances.len() == ids.len()
                &&& forall|i: int|
                    0 <= i < ids.len() ==> registry.plugins.dom().contains(#[trigger] ids[i])
                        && instances[i] == registry.plugins[ids[i]]
            },
            LoadPlan::Load(wanted) => {
                &&& exists|i: int|
                    0 <= i < ids.len() && !registry.plugins.dom().contains(#[trigger] ids[i])
                &&& forall|id: Seq<char>| #[trigger]
                    wanted.contains(id) <==> ids.contains(id) && registry.locators.contains(id)
            },
        },
{
    let known = |id: Seq<char>| registry.locators.contains(id);
    assert forall|id: Seq<char>| #[trigger] ids.filter(known).contains(id) <==> ids.contains(id)
        && registry.locators.contains(id) by {
        filtered_are_kept(ids, known, id);
    }
}

proof fn filtered_are_kept(items: Seq<Seq<char>>, keep: spec_fn(Seq<char>) -> bool, item: Seq<char>)
    ensures
        items.filter(keep).contains(item) <==> items.contains(item) && keep(item),
    decreases items.len(),
{
    reveal(Seq::filter);
    if items.len() > 0 {
        let rest = items.drop_last();
        let last = items.last();
        filtered_are_kept(rest, keep, item);
        let kept = rest.filter(keep);
        assert(items =~= rest.push(last));
        vstd::seq_lib::lemma_seq_contains_after_push(rest, last, item);
        vstd::seq_lib::lemma_seq_contains_after_push(kept, last, item);
        if items.contains(item) && item != last {
            let i = choose|i: int| 0 <= i < items.len() && items[i] == item;
            assert(rest[i] == item);
        }
        if rest.contains(item) {
            let i = choose|i: int| 0 <= i < rest.len() && rest[i] == item;
            assert(items[i] == item);
        }
        assert(items[items.len() - 1] == last);
    }
}

} // verus!
