//! What holds of every question for changed files, and of every answer.

use crate::changed_files::{
    merged, qualified, unknown_changes, ChangedStatus, ImpactCompleteness, ObservationView,
};
use crate::changed_files_query::{
    add_report, any_disables, keep_file, lines_of, planned_queries, standardized,
    stdin_observation, worst_of, QueryView, RepositoryView, SourceReportView, VcsQueryView,
};
use crate::fold::fold;
use crate::source::SourcePathView;
use vstd::prelude::*;

verus! {

/// Neither the environment nor the options say anything.
pub open spec fn nothing_given(environment: Option<Seq<char>>, option: Option<Seq<char>>) -> bool {
    &&& environment matches Some(text) ==> text.len() == 0
    &&& option matches Some(text) ==> text.len() == 0
}

/// The environment says this, or it says nothing and the options do.
pub open spec fn is_given(
    environment: Option<Seq<char>>,
    option: Option<Seq<char>>,
    value: Seq<char>,
) -> bool {
    &&& value.len() > 0
    &&& environment == Some(value) || (nothing_given(environment, None) && option == Some(value))
}

/// Where revisions are compared, the comparison starts at the base that is given, and at the
/// default branch where none is. It ends at the head that is given, and at the checked out
/// revision where none is.
pub proof fn comparisons_lead_from_base_to_head(
    options: QueryView,
    state: RepositoryView,
    base: Seq<char>,
    head: Seq<char>,
)
    requires
        planned_queries(options, state) is Some,
        planned_queries(options, state)->0.contains(VcsQueryView::Between { base, head }),
    ensures
        is_given(state.base_variable, options.base, base) || (nothing_given(
            state.base_variable,
            options.base,
        ) && base == state.default_branch),
        is_given(state.head_variable, options.head, head) || (nothing_given(
            state.head_variable,
            options.head,
        ) && head == "HEAD"@),
{
}

/// Which questions are asked: revisions are compared exactly where one is given, or where not
/// only local changes are wanted and the default branch is not to be compared with itself. In
/// that last case the revision before is asked for. The working copy counts exactly where no
/// head is given, and comes last.
pub proof fn questions_are_asked_where_wanted(options: QueryView, state: RepositoryView)
    requires
        planned_queries(options, state) is Some,
    ensures
        ({
            let queries = planned_queries(options, state)->0;
            let open = nothing_given(state.base_variable, options.base) && nothing_given(
                state.head_variable,
                options.head,
            );
            let itself = open && state.on_default_branch && options.default_branch;
            &&& queries.contains(VcsQueryView::WorkingCopy) <==> nothing_given(
                state.head_variable,
                options.head,
            )
            &&& (exists|base: Seq<char>, head: Seq<char>| #[trigger]
                queries.contains(VcsQueryView::Between { base, head })) <==> !open || (
            !options.local && !itself)
            &&& forall|branch: Seq<char>| #[trigger]
                queries.contains(VcsQueryView::Previous { branch }) <==> itself && !options.local
                    && branch == state.default_branch
            &&& queries.len() <= 2
            &&& forall|i: int|
                0 <= i < queries.len() - 1 ==> !(#[trigger] queries[i] is WorkingCopy)
            &&& queries.len() == 2 ==> queries[1] is WorkingCopy
        }),
{
    let queries = planned_queries(options, state)->0;
    if queries.len() > 0 {
        assert(queries.contains(queries[0]));
        assert(queries.contains(queries.last()));
    }
    if queries.len() > 0 && queries[0] is Between {
        assert(queries.contains(
            VcsQueryView::Between { base: queries[0]->base, head: queries[0]->head },
        ));
    }
}

/// Nothing can be asked exactly where no base is given and the history is not all there.
pub proof fn the_whole_history_is_needed_without_a_base(options: QueryView, state: RepositoryView)
    ensures
        planned_queries(options, state) is None <==> state.shallow && nothing_given(
            state.base_variable,
            options.base,
        ),
{
}

/// A path with forward separators is as long as before, has no other separators, and differs
/// in the separators alone.
pub proof fn separators_lean_forward(path: Seq<char>, i: int)
    requires
        0 <= i < path.len(),
    ensures
        standardized(path).len() == path.len(),
        standardized(path)[i] != '\\',
        path[i] != '\\' ==> standardized(path)[i] == path[i],
        path[i] == '\\' ==> standardized(path)[i] == '/',
        standardized(standardized(path)) == standardized(path),
{
    assert(standardized(standardized(path)) =~= standardized(path));
}

/// A file is asked for: all are, or one of its statuses is.
pub open spec fn is_asked_for(asked: Seq<ChangedStatus>, statuses: Seq<ChangedStatus>) -> bool {
    asked.len() == 0 || exists|status: ChangedStatus| #[trigger]
        asked.contains(status) && statuses.contains(status)
}

/// The files that are kept are those that were asked for, each with its statuses and under its
/// standard path.
pub proof fn files_are_kept_where_asked_for(
    keys: Seq<Seq<char>>,
    asked: Seq<ChangedStatus>,
    files: Map<Seq<char>, Seq<ChangedStatus>>,
)
    ensures
        ({
            let kept = fold(keys, Map::empty(), keep_file(asked, files));
            &&& forall|file: Seq<char>| #[trigger]
                keys.contains(file) && is_asked_for(asked, files[file]) ==> kept.dom().contains(
                    standardized(file),
                )
            &&& forall|path: Seq<char>| #[trigger]
                kept.dom().contains(path) ==> exists|file: Seq<char>| #[trigger]
                    keys.contains(file) && path == standardized(file) && is_asked_for(
                        asked,
                        files[file],
                    ) && kept[path] == files[file]
        }),
    decreases keys.len(),
{
    let kept = fold(keys, Map::empty(), keep_file(asked, files));
    if keys.len() > 0 {
        let rest = keys.drop_last();
        let last = keys.last();
        let before = fold(rest, Map::empty(), keep_file(asked, files));
        files_are_kept_where_asked_for(rest, asked, files);
        assert(keys.contains(last)) by {
            assert(keys[keys.len() - 1] == last);
        }
        let statuses = files[last];
        assert(crate::changed_files_query::wanted(asked, statuses) <==> is_asked_for(
            asked,
            statuses,
        )) by {
            if asked.len() > 0 && crate::changed_files_query::wanted(asked, statuses) {
                let i = choose|i: int|
                    0 <= i < asked.len() && statuses.contains(#[trigger] asked[i]);
                assert(asked.contains(asked[i]));
            }
            if asked.len() > 0 && is_asked_for(asked, statuses) {
                let status = choose|status: ChangedStatus| #[trigger]
                    asked.contains(status) && statuses.contains(status);
                let i = choose|i: int| 0 <= i < asked.len() && asked[i] == status;
                assert(statuses.contains(asked[i]));
            }
        }
        assert forall|file: Seq<char>| #[trigger]
            keys.contains(file) && is_asked_for(
                asked,
                files[file],
            ) implies kept.dom().contains(standardized(file)) by {
            let i = choose|i: int| 0 <= i < keys.len() && keys[i] == file;
            if i < rest.len() {
                assert(rest[i] == file);
                assert(rest.contains(file));
            }
        }
        assert forall|path: Seq<char>| #[trigger] kept.dom().contains(path) implies exists|
            file: Seq<char>,
        | #[trigger]
            keys.contains(file) && path == standardized(file) && is_asked_for(asked, files[file])
                && kept[path] == files[file] by {
            if path != standardized(last) || !is_asked_for(asked, statuses) {
                let file = choose|file: Seq<char>| #[trigger]
                    rest.contains(file) && path == standardized(file) && is_asked_for(
                        asked,
                        files[file],
                    ) && before[path] == files[file];
                let i = choose|i: int| 0 <= i < rest.len() && rest[i] == file;
                assert(keys[i] == file);
                assert(keys.contains(file));
            }
        }
    }
}

/// What standard input names is known exactly, and of the primary source root alone.
pub proof fn standard_input_speaks_of_the_primary(
    source: Seq<char>,
    primary: Seq<char>,
    files: Set<Seq<char>>,
)
    ensures
        ({
            let observation = stdin_observation(source, primary, files);
            &&& observation.completeness == ImpactCompleteness::Exact <==> source == primary
            &&& observation.completeness == ImpactCompleteness::Unavailable <==> source != primary
            &&& source == primary ==> observation.files.dom() == files
            &&& source != primary ==> observation.files.dom() == Set::<Seq<char>>::empty()
                && observation.diagnostics.len() == 1
            &&& forall|file: Seq<char>| #[trigger]
                observation.files.dom().contains(file) ==> observation.files[file].contains(
                    ChangedStatus::All,
                )
        }),
{
    let observation = stdin_observation(source, primary, files);
    if source == primary {
        assert(observation.files.dom() =~= files);
        assert forall|file: Seq<char>| #[trigger]
            observation.files.dom().contains(file) implies observation.files[file].contains(
            ChangedStatus::All,
        ) by {
            assert(observation.files[file][0] == ChangedStatus::All);
        }
    } else {
        assert(observation.files.dom() =~= Set::<Seq<char>>::empty());
    }
}

/// Changes that are not known come with the reason, and without files.
pub proof fn unknown_changes_say_why(reason: Seq<char>)
    ensures
        unknown_changes::<Seq<char>>(reason).completeness == ImpactCompleteness::Unavailable,
        unknown_changes::<Seq<char>>(reason).diagnostics.contains(reason),
        forall|file: Seq<char>| !(#[trigger] unknown_changes::<Seq<char>>(
            reason,
        ).files.dom().contains(file)),
{
    assert(unknown_changes::<Seq<char>>(reason).diagnostics[0] == reason);
}

/// The last report of each source root is what is known of it: every file of the report, as a
/// file of that source root, and no other file.
pub proof fn reports_belong_to_their_source(reports: Seq<SourceReportView>, i: int)
    requires
        0 <= i < reports.len(),
        forall|j: int| i < j < reports.len() ==> (#[trigger] reports[j]).source
            != reports[i].source,
    ensures
        ({
            let known = fold(reports, Map::empty(), add_report());
            let report = reports[i];
            &&& known.dom().contains(report.source)
            &&& known[report.source].completeness == report.observation.completeness
            &&& known[report.source].diagnostics == report.observation.diagnostics
            &&& forall|file: SourcePathView| #[trigger]
                known[report.source].files.dom().contains(file) <==> file.source == report.source
                    && report.observation.files.dom().contains(file.path)
            &&& forall|file: SourcePathView| #[trigger]
                known[report.source].files.dom().contains(file)
                    ==> known[report.source].files[file] == report.observation.files[file.path]
        }),
    decreases reports.len(),
{
    if i < reports.len() - 1 {
        let rest = reports.drop_last();
        assert forall|j: int| i < j < rest.len() implies (#[trigger] rest[j]).source
            != rest[i].source by {
            assert(rest[j] == reports[j]);
        }
        reports_belong_to_their_source(rest, i);
        assert(reports[reports.len() - 1].source != reports[i].source);
    }
}

/// Nothing is known of a source root that no report is about.
pub proof fn only_reports_are_known(reports: Seq<SourceReportView>, source: Seq<char>)
    requires
        forall|j: int| 0 <= j < reports.len() ==> (#[trigger] reports[j]).source != source,
    ensures
        !fold(reports, Map::empty(), add_report()).dom().contains(source),
    decreases reports.len(),
{
    if reports.len() > 0 {
        let rest = reports.drop_last();
        assert forall|j: int| 0 <= j < rest.len() implies (#[trigger] rest[j]).source
            != source by {
            assert(rest[j] == reports[j]);
        }
        only_reports_are_known(rest, source);
        assert(reports[reports.len() - 1].source != source);
    }
}

/// Some report is known this well.
pub open spec fn some_report_is(
    reports: Seq<SourceReportView>,
    completeness: ImpactCompleteness,
) -> bool {
    exists|i: int|
        0 <= i < reports.len() && (#[trigger] reports[i]).observation.completeness == completeness
}

/// All source roots together are known as well as the one that is known worst.
pub proof fn the_worst_report_counts(reports: Seq<SourceReportView>)
    ensures
        ({
            let together = fold(reports, ImpactCompleteness::Exact, worst_of());
            &&& together == ImpactCompleteness::Unavailable <==> some_report_is(
                reports,
                ImpactCompleteness::Unavailable,
            )
            &&& together == ImpactCompleteness::Conservative <==> !some_report_is(
                reports,
                ImpactCompleteness::Unavailable,
            ) && some_report_is(reports, ImpactCompleteness::Conservative)
        }),
    decreases reports.len(),
{
    if reports.len() > 0 {
        let rest = reports.drop_last();
        the_worst_report_counts(rest);
        let last = reports[reports.len() - 1];
        assert forall|completeness: ImpactCompleteness| some_report_is(reports, completeness)
            <==> some_report_is(rest, completeness) || last.observation.completeness
            == completeness by {
            if some_report_is(reports, completeness) {
                let i = choose|i: int|
                    0 <= i < reports.len() && (#[trigger] reports[i]).observation.completeness
                        == completeness;
                if i < rest.len() {
                    assert(rest[i] == reports[i]);
                }
            }
            if some_report_is(rest, completeness) {
                let i = choose|i: int|
                    0 <= i < rest.len() && (#[trigger] rest[i]).observation.completeness
                        == completeness;
                assert(reports[i] == rest[i]);
            }
        }
    }
}

/// Affected checks are disabled exactly where the only source root is the primary one and has
/// no version control.
pub proof fn checks_are_disabled_for_one_root_alone(
    reports: Seq<SourceReportView>,
    primary: Seq<char>,
)
    ensures
        any_disables(reports, primary, reports.len()) <==> {
            &&& reports.len() == 1
            &&& reports[0].source == primary
            &&& reports[0].vcs_unavailable
        },
{
    if reports.len() == 1 && reports[0].source == primary && reports[0].vcs_unavailable {
        assert(crate::changed_files_query::disables_affected(
            1,
            reports[0].source,
            primary,
            reports[0].vcs_unavailable,
        ));
    }
}

/// Two observations together know every change that either knows, and no other, as well as
/// the worse of them, and for the reasons of both.
pub proof fn merged_changes_are_those_of_both(
    a: ObservationView<Seq<char>>,
    b: ObservationView<Seq<char>>,
    file: Seq<char>,
)
    ensures
        ({
            let both = merged(a, b);
            &&& both.files.dom().contains(file) <==> a.files.dom().contains(file)
                || b.files.dom().contains(file)
            &&& forall|status: ChangedStatus|
                both.files.dom().contains(file) ==> (#[trigger] both.files[file].contains(status)
                    <==> (a.files.dom().contains(file) && a.files[file].contains(status)) || (
                b.files.dom().contains(file) && b.files[file].contains(status)))
            &&& both.completeness == ImpactCompleteness::Exact <==> a.completeness
                == ImpactCompleteness::Exact && b.completeness == ImpactCompleteness::Exact
            &&& both.completeness == ImpactCompleteness::Unavailable <==> a.completeness
                == ImpactCompleteness::Unavailable || b.completeness
                == ImpactCompleteness::Unavailable
            &&& forall|reason: Seq<char>| #[trigger]
                both.diagnostics.contains(reason) <==> a.diagnostics.contains(reason)
                    || b.diagnostics.contains(reason)
        }),
{
    let both = merged(a, b);
    broadcast use vstd::seq_lib::group_seq_properties;

    assert forall|reason: Seq<char>| #[trigger]
        both.diagnostics.contains(reason) <==> a.diagnostics.contains(reason)
            || b.diagnostics.contains(reason) by {}
}

/// Qualified changes are those of the source root, and of no other.
pub proof fn qualified_changes_name_their_source(
    source: Seq<char>,
    observation: ObservationView<Seq<char>>,
    file: SourcePathView,
)
    ensures
        qualified(source, observation).files.dom().contains(file) <==> file.source == source
            && observation.files.dom().contains(file.path),
        qualified(source, observation).completeness == observation.completeness,
{
}

/// The lines of a text, put together again, are the text, and none of them holds the end of
/// a line.
pub proof fn lines_make_the_text(text: Seq<char>)
    ensures
        lines_of(text).len() > 0,
        joined_lines(lines_of(text)) == text,
        forall|i: int|
            0 <= i < lines_of(text).len() ==> !(#[trigger] lines_of(text)[i]).contains('\n'),
    decreases text.len(),
{
    if text.len() == 0 {
        assert(lines_of(text) =~= seq![Seq::<char>::empty()]);
        assert(lines_of(text).drop_last() =~= Seq::<Seq<char>>::empty());
        assert(joined_lines(lines_of(text)) =~= text);
    } else {
        let rest = text.drop_last();
        lines_make_the_text(rest);
        let front = lines_of(rest);
        let lines = lines_of(text);
        assert(text =~= rest.push(text.last()));
        if text.last() == '\n' {
            assert(lines.drop_last() =~= front);
            assert(joined_lines(lines) =~= text);
        } else {
            assert(lines.drop_last() =~= front.drop_last());
            assert(lines.last() == front.last().push(text.last()));
            assert(joined_lines(lines) =~= text);
            assert forall|i: int| 0 <= i < lines.len() implies !(#[trigger] lines[i]).contains(
                '\n',
            ) by {
                assert(!front[i].contains('\n'));
                if i == lines.len() - 1 && lines[i].contains('\n') {
                    let k = choose|k: int| 0 <= k < lines[i].len() && lines[i][k] == '\n';
                    assert(front[i][k] == '\n');
                }
            }
        }
    }
}

/// Lines, one after the other.
pub open spec fn joined_lines(lines: Seq<Seq<char>>) -> Seq<char>
    decreases lines.len(),
{
    if lines.len() == 0 {
        Seq::empty()
    } else if lines.len() == 1 {
        lines[0]
    } else {
        joined_lines(lines.drop_last()).push('\n') + lines.last()
    }
}

} // verus!
