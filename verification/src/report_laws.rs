//! What tables and reports show.

use crate::config::{key_of_project, ProjectView};
use crate::discovery::{FailureView, LoadFailureView};
use crate::id::valid_id;
use crate::keys::{parse_project_key, project_key_text, task_key_text, ProjectKeyView};
use crate::order::{ranked_in_order, ranked_same_items, Ranked};
use crate::path::render_path;
use crate::project_graph::ProjectNodeView;
use crate::project_queries::{id_count, project_label};
use crate::reports::{
    affected_projects, parse_focus, project_rows, projects_named, shown_project, shown_task,
    task_row, text_width, widest_text, FocusView, KeyedView,
};
use crate::source_reports::{
    entry_report, failure_report, provider_report, shown_details, sort_text, source_reports,
    source_row, DiagnosticView, EntryView, ProviderView, SourceDiagnostic,
};
use crate::task::{target_text, TaskView};
use crate::text::{has_text, join_texts, text_less};
use vstd::prelude::*;

verus! {

proof fn names_are_counted(projects: Seq<ProjectView>, id: Seq<char>)
    ensures
        projects_named(projects, id) == 0 <==> forall|i: int|
            0 <= i < projects.len() ==> (#[trigger] projects[i]).id != id,
        projects_named(projects, id) > 1 <==> exists|i: int, j: int|
            0 <= i < j < projects.len() && (#[trigger] projects[i]).id == id && (
            #[trigger] projects[j]).id == id,
    decreases projects.len(),
{
    if projects.len() > 0 {
        let rest = projects.drop_last();
        let last = projects.len() - 1;
        names_are_counted(rest, id);
        assert(projects[last] == projects.last());
        assert forall|i: int| 0 <= i < last implies #[trigger] projects[i] == rest[i] by {}
        if projects_named(projects, id) == 0 {
            assert forall|i: int| 0 <= i < projects.len() implies (
            #[trigger] projects[i]).id != id by {
                if i < last {
                    assert(rest[i].id != id);
                }
            }
        } else if forall|i: int| 0 <= i < projects.len() ==> (#[trigger] projects[i]).id != id {
            assert forall|i: int| 0 <= i < rest.len() implies (#[trigger] rest[i]).id != id by {
                assert(projects[i].id != id);
            }
        }
        if projects_named(rest, id) > 1 {
            let (i, j) = choose|i: int, j: int|
                0 <= i < j < rest.len() && (#[trigger] rest[i]).id == id && (
                #[trigger] rest[j]).id == id;
            assert(projects[i].id == id && projects[j].id == id);
        } else if projects_named(projects, id) > 1 {
            let i = choose|i: int| 0 <= i < rest.len() && (#[trigger] rest[i]).id == id;
            assert(projects[i].id == id && projects[last].id == id);
        }
        if exists|i: int, j: int|
            0 <= i < j < projects.len() && (#[trigger] projects[i]).id == id && (
            #[trigger] projects[j]).id == id {
            let (i, j) = choose|i: int, j: int|
                0 <= i < j < projects.len() && (#[trigger] projects[i]).id == id && (
                #[trigger] projects[j]).id == id;
            assert(rest[i].id == id);
            if j < last {
                assert(rest[j].id == id);
            }
        }
    }
}

/// A project is shown by its identifier, or by its key where another has the same identifier.
pub proof fn projects_are_shown_apart(projects: Seq<ProjectView>, at: int)
    requires
        0 <= at < projects.len(),
    ensures
        ({
            let shared = exists|i: int|
                0 <= i < projects.len() && i != at && (#[trigger] projects[i]).id
                    == projects[at].id;
            &&& shared ==> shown_project(projects, projects[at]) == project_key_text(
                key_of_project(projects[at]),
            )
            &&& !shared ==> shown_project(projects, projects[at]) == projects[at].id
        }),
{
    let id = projects[at].id;
    names_are_counted(projects, id);
    if exists|i: int| 0 <= i < projects.len() && i != at && (#[trigger] projects[i]).id == id {
        let i = choose|i: int|
            0 <= i < projects.len() && i != at && (#[trigger] projects[i]).id == id;
        if i < at {
            assert(projects[i].id == id && projects[at].id == id);
        } else {
            assert(projects[at].id == id && projects[i].id == id);
        }
    } else if projects_named(projects, id) > 1 {
        let (i, j) = choose|i: int, j: int|
            0 <= i < j < projects.len() && (#[trigger] projects[i]).id == id && (
            #[trigger] projects[j]).id == id;
        if i == at {
            assert(projects[j].id == id);
        } else {
            assert(projects[i].id == id);
        }
    }
}

/// Every project has one row, at its place, with how it is shown, where it is, its stack, its
/// layer, its toolchains, and its description where it has one.
pub proof fn projects_have_a_row(projects: Seq<ProjectView>, at: int)
    requires
        0 <= at < projects.len(),
    ensures
        project_rows(projects).len() == projects.len(),
        ({
            let row = project_rows(projects)[at];
            let project = projects[at];
            &&& row.len() == 6
            &&& row[0] == shown_project(projects, project)
            &&& row[1] == project.source
            &&& row[2] == project.stack.name_spec()
            &&& row[3] == project.layer.name_spec()
            &&& row[4] == join_texts(project.toolchains, ", "@)
            &&& project.description is Some ==> row[5] == project.description->0
            &&& project.description is None ==> row[5].len() == 0
        }),
{
}

/// A task has a row with how it is shown, its command unless it is a script, its kind, its
/// preset and its description where it has one, and its toolchains.
pub proof fn tasks_have_a_row(shown: Seq<char>, task: TaskView)
    ensures
        ({
            let row = task_row(shown, task);
            &&& row.len() == 6
            &&& row[0] == shown
            &&& task.script is None ==> row[1] == task.command
            &&& task.script is Some ==> row[1] == "(script)"@
            &&& row[2] == task.type_of.name_spec()
            &&& task.preset is Some ==> row[3] == task.preset->0
            &&& task.preset is None ==> row[3].len() == 0
            &&& row[4] == join_texts(task.toolchains, ", "@)
            &&& task.description is Some ==> row[5] == task.description->0
            &&& task.description is None ==> row[5].len() == 0
        }),
{
}

/// A task is shown by its target, or by its key where there are several source roots.
pub proof fn tasks_are_shown_by_key_among_several_sources(entry: KeyedView, sources: nat)
    ensures
        sources <= 1 ==> shown_task(entry, sources) == target_text(entry.task.target),
        sources > 1 ==> shown_task(entry, sources) == task_key_text(entry.key),
{
}

/// The width of a column is that of its widest text, and not less than the floor.
pub proof fn columns_are_as_wide_as_their_widest_text(texts: Seq<Seq<char>>, floor: nat)
    ensures
        widest_text(texts, floor) >= floor,
        forall|i: int|
            0 <= i < texts.len() ==> text_width(#[trigger] texts[i]) <= widest_text(texts, floor),
        widest_text(texts, floor) == floor || exists|i: int|
            0 <= i < texts.len() && text_width(#[trigger] texts[i]) == widest_text(texts, floor),
    decreases texts.len(),
{
    if texts.len() > 0 {
        let rest = texts.drop_last();
        let last = texts.len() - 1;
        columns_are_as_wide_as_their_widest_text(rest, floor);
        assert(texts[last] == texts.last());
        assert forall|i: int| 0 <= i < texts.len() implies text_width(#[trigger] texts[i])
            <= widest_text(texts, floor) by {
            if i < last {
                assert(rest[i] == texts[i]);
            }
        }
        if widest_text(texts, floor) == widest_text(rest, floor) && widest_text(rest, floor)
            != floor {
            let i = choose|i: int|
                0 <= i < rest.len() && text_width(#[trigger] rest[i]) == widest_text(rest, floor);
            assert(texts[i] == rest[i]);
        }
    }
}

/// A graph is limited to a key where the text holds the separator of keys, and to a project of
/// the primary source root where it is an identifier. Nothing else is understood.
pub proof fn focus_is_a_key_or_an_identifier(text: Seq<char>)
    ensures
        match parse_focus(text) {
            Ok(FocusView::Qualified(key)) => has_text(text, seq![':', ':'])
                && parse_project_key(text) == Ok::<ProjectKeyView, crate::keys::KeyFault>(key),
            Ok(FocusView::Primary(id)) => !has_text(text, seq![':', ':']) && valid_id(text) && id
                == text,
            Err(_) => if has_text(text, seq![':', ':']) {
                parse_project_key(text) is Err
            } else {
                !valid_id(text)
            },
        },
{
}

/// The affected projects among some are those of them that are affected.
pub proof fn affected_projects_are_listed(keys: Seq<ProjectKeyView>, affected: Set<ProjectKeyView>)
    ensures
        forall|key: ProjectKeyView| #[trigger]
            affected_projects(keys, affected).contains(key) <==> keys.contains(key)
                && affected.contains(key),
    decreases keys.len(),
{
    if keys.len() > 0 {
        let rest = keys.drop_last();
        let last = keys.last();
        affected_projects_are_listed(rest, affected);
        let before = affected_projects(rest, affected);
        let all = affected_projects(keys, affected);
        assert forall|key: ProjectKeyView| #[trigger] all.contains(key) <==> keys.contains(key)
            && affected.contains(key) by {
            assert(before.contains(key) <==> rest.contains(key) && affected.contains(key));
            if rest.contains(key) {
                let i = choose|i: int| 0 <= i < rest.len() && rest[i] == key;
                assert(keys[i] == key);
            }
            if keys.contains(key) && key != last {
                let i = choose|i: int| 0 <= i < keys.len() && keys[i] == key;
                assert(rest[i] == key);
            }
            assert(keys[keys.len() - 1] == last);
            if affected.contains(last) {
                assert(all[before.len() as int] == last);
                if before.contains(key) {
                    let i = choose|i: int| 0 <= i < before.len() && before[i] == key;
                    assert(all[i] == key);
                }
                if all.contains(key) && key != last {
                    let i = choose|i: int| 0 <= i < all.len() && all[i] == key;
                    assert(before[i] == key);
                }
            }
        }
    }
}

/// A source root reports what its version control says: ready with its version, failed with its
/// message, or pending.
pub proof fn providers_report_their_state(provider: ProviderView)
    ensures
        match provider {
            ProviderView::Ready { version } => provider_report(provider).status == "ready"@
                && provider_report(provider).version == version && provider_report(
                provider,
            ).message is None,
            ProviderView::Failed { message } => provider_report(provider).status == "failed"@
                && provider_report(provider).message == Some(message) && provider_report(
                provider,
            ).version is None,
            ProviderView::Pending => provider_report(provider).status == "pending"@
                && provider_report(provider).message is None && provider_report(
                provider,
            ).version is None,
        },
{
}

/// Every source root that was found has a report, and so has every one that could not be taken
/// in. There are no others, and they are in the order of their identifiers, or of their names
/// where they have none.
pub proof fn every_source_root_is_reported(
    entries: Seq<EntryView>,
    aliases: Map<Seq<char>, Seq<char>>,
    primary: Seq<char>,
    failures: Seq<FailureView>,
)
    ensures
        ({
            let reports = source_reports(entries, aliases, primary, failures);
            &&& reports.len() == entries.len() + failures.len()
            &&& forall|i: int|
                0 <= i < entries.len() ==> exists|k: int|
                    0 <= k < reports.len() && (#[trigger] reports[k]).id == Some(
                        (#[trigger] entries[i]).id,
                    ) && reports[k].path == entries[i].path && (reports[k].primary <==> entries[i].id
                        == primary) && (entries[i].id == primary ==> reports[k].failures.len() == 0)
                        && (entries[i].id != primary ==> reports[k].failures
                        == entries[i].failures)
            &&& forall|i: int|
                0 <= i < failures.len() ==> exists|k: int|
                    0 <= k < reports.len() && (#[trigger] reports[k]).id is None
                        && reports[k].aliases == seq![(#[trigger] failures[i]).alias]
                        && !reports[k].primary && reports[k].path == render_path(failures[i].root)
                        && reports[k].failures == seq![
                        LoadFailureView { message: failures[i].message, stage: failures[i].stage },
                    ] && reports[k].provider.status == "unavailable"@
            &&& forall|i: int, j: int|
                0 <= i < j < reports.len() ==> !text_less(
                    sort_text(#[trigger] reports[j]),
                    sort_text(#[trigger] reports[i]),
                )
        }),
{
    let found = entries.map_values(|entry: EntryView| entry_report(aliases, primary, entry));
    let failed = failures.map_values(|failure: FailureView| failure_report(failure));
    let all = found + failed;
    let reports = source_reports(entries, aliases, primary, failures);
    crate::order::ranked_is_permutation::<SourceDiagnostic>(all);
    ranked_in_order::<SourceDiagnostic>(all);
    assert forall|i: int| 0 <= i < entries.len() implies exists|k: int|
        0 <= k < reports.len() && (#[trigger] reports[k]).id == Some((#[trigger] entries[i]).id)
            && reports[k].path == entries[i].path && (reports[k].primary <==> entries[i].id
            == primary) && (entries[i].id == primary ==> reports[k].failures.len() == 0) && (
        entries[i].id != primary ==> reports[k].failures == entries[i].failures) by {
        let report = entry_report(aliases, primary, entries[i]);
        assert(all[i] == report);
        ranked_same_items::<SourceDiagnostic>(all, report);
        let k = choose|k: int| 0 <= k < reports.len() && reports[k] == report;
        assert(reports[k] == report);
    }
    assert forall|i: int| 0 <= i < failures.len() implies exists|k: int|
        0 <= k < reports.len() && (#[trigger] reports[k]).id is None && reports[k].aliases == seq![
            (#[trigger] failures[i]).alias,
        ] && !reports[k].primary && reports[k].path == render_path(failures[i].root)
            && reports[k].failures == seq![
            LoadFailureView { message: failures[i].message, stage: failures[i].stage },
        ] && reports[k].provider.status == "unavailable"@ by {
        let report = failure_report(failures[i]);
        assert(all[entries.len() + i] == report);
        ranked_same_items::<SourceDiagnostic>(all, report);
        let k = choose|k: int| 0 <= k < reports.len() && reports[k] == report;
        assert(reports[k] == report);
    }
    assert forall|i: int, j: int| 0 <= i < j < reports.len() implies !text_less(
        sort_text(#[trigger] reports[j]),
        sort_text(#[trigger] reports[i]),
    ) by {
        assert(!SourceDiagnostic::before(reports[j], reports[i]));
    }
}

/// A source root is sorted by its identifier, or by its first name where it has none.
pub proof fn source_roots_are_sorted_by_who_they_are(report: DiagnosticView)
    ensures
        report.id is Some ==> sort_text(report) == report.id->0,
        report.id is None && report.aliases.len() > 0 ==> sort_text(report) == report.aliases[0],
        source_row(report).len() == 5,
        report.id is Some ==> source_row(report)[0] == report.id->0,
        report.id is None ==> source_row(report)[0] == "(unidentified)"@,
        source_row(report)[1] == join_texts(report.aliases, ", "@),
        source_row(report)[2] == report.provider.status,
        source_row(report)[3] == report.path,
        report.failures.len() == 0 && report.provider.message is None ==> source_row(report)[4]
            == join_texts(Seq::empty(), "; "@),
{
    if report.failures.len() == 0 && report.provider.message is None {
        assert(report.failures.map_values(
            |failure: LoadFailureView| crate::source_reports::shown_failure(failure),
        ) =~= Seq::empty());
        assert(shown_details(report) == join_texts(Seq::empty(), "; "@));
    }
}

proof fn identifiers_are_counted(
    nodes: Map<ProjectKeyView, ProjectNodeView>,
    keys: Seq<ProjectKeyView>,
    id: Seq<char>,
)
    ensures
        id_count(nodes, keys, id) == 0 <==> forall|i: int|
            0 <= i < keys.len() ==> nodes[#[trigger] keys[i]].project.id != id,
        id_count(nodes, keys, id) > 1 <==> exists|i: int, j: int|
            0 <= i < j < keys.len() && nodes[#[trigger] keys[i]].project.id == id && nodes[
                #[trigger] keys[j]].project.id == id,
    decreases keys.len(),
{
    if keys.len() > 0 {
        let rest = keys.drop_last();
        let last = keys.len() - 1;
        identifiers_are_counted(nodes, rest, id);
        assert(keys[last] == keys.last());
        assert forall|i: int| 0 <= i < last implies #[trigger] keys[i] == rest[i] by {}
        if id_count(nodes, keys, id) == 0 {
            assert forall|i: int| 0 <= i < keys.len() implies nodes[
                #[trigger] keys[i]].project.id != id by {
                if i < last {
                    assert(nodes[rest[i]].project.id != id);
                }
            }
        } else if forall|i: int| 0 <= i < keys.len() ==> nodes[
            #[trigger] keys[i]].project.id != id {
            assert forall|i: int| 0 <= i < rest.len() implies nodes[
                #[trigger] rest[i]].project.id != id by {
                assert(nodes[keys[i]].project.id != id);
            }
        }
        if id_count(nodes, rest, id) > 1 {
            let (i, j) = choose|i: int, j: int|
                0 <= i < j < rest.len() && nodes[#[trigger] rest[i]].project.id == id && nodes[
                    #[trigger] rest[j]].project.id == id;
            assert(nodes[keys[i]].project.id == id && nodes[keys[j]].project.id == id);
        } else if id_count(nodes, keys, id) > 1 {
            let i = choose|i: int|
                0 <= i < rest.len() && nodes[#[trigger] rest[i]].project.id == id;
            assert(nodes[keys[i]].project.id == id && nodes[keys[last]].project.id == id);
        }
        if exists|i: int, j: int|
            0 <= i < j < keys.len() && nodes[#[trigger] keys[i]].project.id == id && nodes[
                #[trigger] keys[j]].project.id == id {
            let (i, j) = choose|i: int, j: int|
                0 <= i < j < keys.len() && nodes[#[trigger] keys[i]].project.id == id && nodes[
                    #[trigger] keys[j]].project.id == id;
            assert(nodes[rest[i]].project.id == id);
            if j < last {
                assert(nodes[rest[j]].project.id == id);
            }
        }
    }
}

/// A project of a graph is labeled by its identifier, or by its key where another project of
/// the graph has the same identifier.
pub proof fn projects_are_labeled_apart(
    nodes: Map<ProjectKeyView, ProjectNodeView>,
    keys: Seq<ProjectKeyView>,
    at: int,
)
    requires
        0 <= at < keys.len(),
    ensures
        ({
            let project = nodes[keys[at]].project;
            let shared = exists|i: int|
                0 <= i < keys.len() && i != at && nodes[#[trigger] keys[i]].project.id
                    == project.id;
            &&& shared ==> project_label(nodes, keys, project) == project_key_text(
                key_of_project(project),
            )
            &&& !shared ==> project_label(nodes, keys, project) == project.id
        }),
{
    let id = nodes[keys[at]].project.id;
    identifiers_are_counted(nodes, keys, id);
    if exists|i: int| 0 <= i < keys.len() && i != at && nodes[#[trigger] keys[i]].project.id == id {
        let i = choose|i: int|
            0 <= i < keys.len() && i != at && nodes[#[trigger] keys[i]].project.id == id;
        if i < at {
            assert(nodes[keys[i]].project.id == id && nodes[keys[at]].project.id == id);
        } else {
            assert(nodes[keys[at]].project.id == id && nodes[keys[i]].project.id == id);
        }
    } else if id_count(nodes, keys, id) > 1 {
        let (i, j) = choose|i: int, j: int|
            0 <= i < j < keys.len() && nodes[#[trigger] keys[i]].project.id == id && nodes[
                #[trigger] keys[j]].project.id == id;
        if i == at {
            assert(nodes[keys[j]].project.id == id);
        } else {
            assert(nodes[keys[i]].project.id == id);
        }
    }
}

} // verus!
