//! How targets, actions and identifiers are written.

use crate::action_node::{node_label, node_source, spec_text, NodeView, SpecView};
use crate::action_targets::{project_glob_query, task_glob_query, task_query};
use crate::config::DependencyScope;
use crate::id::valid_id;
use crate::task::{
    parse_project_selector, parse_target, parse_task_selector, project_selector_text, target_text,
    task_selector_text, ProjectSelector, TargetView, TaskSelector,
};
use crate::keys::{project_key_less, task_key_less, TaskKeyView};
use crate::text::{
    decimal, is_first, occurs_at, split_first_at, text_less, text_less_irreflexive,
};
use vstd::prelude::*;

verus! {

/// A character that separates or marks is part of no identifier, and no digit begins one.
pub proof fn identifiers_hold_no_marks(text: Seq<char>)
    requires
        valid_id(text),
    ensures
        text.len() > 0,
        !('0' <= text[0] <= '9'),
        forall|i: int|
            0 <= i < text.len() ==> {
                let c = #[trigger] text[i];
                c != ':' && c != '#' && c != '^' && c != '~' && c != ' ' && c != '*' && c != ','
            },
        forall|i: int| 0 < i < text.len() ==> #[trigger] text[i] != '@',
        forall|i: int| 0 <= i < text.len() && i == 0 ==> #[trigger] text[i] != '.' && text[i]
            != '/' && text[i] != '-',
{
    assert forall|i: int| 0 <= i < text.len() implies {
        let c = #[trigger] text[i];
        c != ':' && c != '#' && c != '^' && c != '~' && c != ' ' && c != '*' && c != ','
    } by {
        if i > 0 {
            assert(crate::id::id_part(text[i]));
        }
    }
    assert forall|i: int| 0 < i < text.len() implies #[trigger] text[i] != '@' by {
        assert(crate::id::id_part(text[i]));
    }
}

/// A target can be written: its identifiers and tags are valid, and it does not select
/// dependencies on the root of the workspace.
pub open spec fn can_be_written(target: TargetView) -> bool {
    &&& match target.project {
        ProjectSelector::Id(id) => valid_id(id),
        ProjectSelector::Tag(tag) => valid_id(tag),
        ProjectSelector::DepsOf(scope) => !(scope is Root),
        _ => true,
    }
    &&& match target.task {
        TaskSelector::Id(id) => valid_id(id),
        TaskSelector::Tag(tag) => valid_id(tag),
    }
}

proof fn project_selectors_read_back(selector: ProjectSelector)
    requires
        match selector {
            ProjectSelector::Id(id) => valid_id(id),
            ProjectSelector::Tag(tag) => valid_id(tag),
            ProjectSelector::DepsOf(scope) => !(scope is Root),
            _ => true,
        },
    ensures
        parse_project_selector(project_selector_text(selector)) == Some(selector),
        forall|i: int|
            0 <= i < project_selector_text(selector).len() ==> #[trigger] project_selector_text(
                selector,
            )[i] != ':',
{
    reveal_strlit("^");
    reveal_strlit("~");
    reveal_strlit("#");
    reveal_strlit("build");
    reveal_strlit("development");
    reveal_strlit("peer");
    reveal_strlit("production");
    reveal_strlit("^build");
    reveal_strlit("^development");
    reveal_strlit("^peer");
    reveal_strlit("^production");
    let text = project_selector_text(selector);
    match selector {
        ProjectSelector::All => {},
        ProjectSelector::Deps => {},
        ProjectSelector::OwnSelf => {
            assert(text != "^"@) by {
                assert(text[0] == '~');
            }
            assert(text != "^build"@ && text != "^development"@ && text != "^peer"@ && text
                != "^production"@);
        },
        ProjectSelector::DepsOf(scope) => {
            match scope {
                DependencyScope::Build => {
                    assert(text =~= "^build"@);
                    assert(text.len() != "^"@.len());
                },
                DependencyScope::Development => {
                    assert(text =~= "^development"@);
                    assert(text.len() != "^"@.len() && text.len() != "^build"@.len());
                },
                DependencyScope::Peer => {
                    assert(text =~= "^peer"@);
                    assert(text.len() != "^"@.len() && text.len() != "^build"@.len() && text.len()
                        != "^development"@.len());
                },
                DependencyScope::Production => {
                    assert(text =~= "^production"@);
                    assert(text.len() != "^"@.len() && text.len() != "^build"@.len() && text.len()
                        != "^development"@.len() && text.len() != "^peer"@.len());
                },
                DependencyScope::Root => {},
            }
        },
        ProjectSelector::Id(id) => {
            identifiers_hold_no_marks(id);
            assert(text[0] != '^' && text[0] != '~' && text[0] != '#');
            assert("^"@[0] == '^' && "^build"@[0] == '^' && "^development"@[0] == '^'
                && "^peer"@[0] == '^' && "^production"@[0] == '^' && "~"@[0] == '~');
        },
        ProjectSelector::Tag(tag) => {
            identifiers_hold_no_marks(tag);
            assert(text[0] == '#');
            assert("^"@[0] == '^' && "^build"@[0] == '^' && "^development"@[0] == '^'
                && "^peer"@[0] == '^' && "^production"@[0] == '^' && "~"@[0] == '~');
            assert(text.skip(1) =~= tag);
            assert forall|i: int| 0 <= i < text.len() implies #[trigger] text[i] != ':' by {
                if i > 0 {
                    assert(text[i] == tag[i - 1]);
                }
            }
        },
    }
}

proof fn task_selectors_read_back(selector: TaskSelector)
    requires
        match selector {
            TaskSelector::Id(id) => valid_id(id),
            TaskSelector::Tag(tag) => valid_id(tag),
        },
    ensures
        parse_task_selector(task_selector_text(selector)) == Some(selector),
{
    reveal_strlit("#");
    let text = task_selector_text(selector);
    match selector {
        TaskSelector::Id(id) => {
            identifiers_hold_no_marks(id);
            assert(text[0] != '#');
        },
        TaskSelector::Tag(tag) => {
            assert(text[0] == '#');
            assert(text.skip(1) =~= tag);
        },
    }
}

/// A target reads back from its own text.
pub proof fn targets_read_back(target: TargetView)
    requires
        can_be_written(target),
    ensures
        parse_target(target_text(target)) == Some(target),
{
    reveal_strlit(":");
    let sep = ":"@;
    let head = project_selector_text(target.project);
    let tail = task_selector_text(target.task);
    let text = target_text(target);
    project_selectors_read_back(target.project);
    task_selectors_read_back(target.task);
    assert(sep =~= seq![':']);
    let at = head.len() as int;
    assert(text.subrange(at, at + 1) =~= sep);
    assert(occurs_at(text, sep, at));
    assert forall|j: int| 0 <= j < at implies !occurs_at(text, sep, j) by {
        if occurs_at(text, sep, j) {
            assert(text.subrange(j, j + 1)[0] == text[j]);
            assert(text[j] == head[j]);
        }
    }
    assert(is_first(text, sep, at));
    split_first_at(text, sep, at);
    assert(text.subrange(0, at) =~= head);
    assert(text.subrange(at + 1, text.len() as int) =~= tail);
}

/// An action is written by what it does and for what: a run by its target, and as persistent
/// before it is written as interactive; what has a root with that root.
pub proof fn actions_are_written_by_what_they_do(node: NodeView)
    ensures
        match node {
            NodeView::Nothing => node_label(node) == "None"@,
            NodeView::SyncWorkspace { .. } => node_label(node) == "SyncWorkspace"@,
            NodeView::SyncProject { key } => node_label(node) == "SyncProject"@ + "("@ + key.project
                + ")"@,
            NodeView::SetupProto { version, .. } => node_label(node) == "SetupProto"@ + "("@
                + version + ")"@,
            NodeView::SetupToolchain { spec, .. } => node_label(node) == "SetupToolchain"@ + "("@
                + spec_text(spec) + ")"@,
            NodeView::SetupEnvironment { toolchain, root, .. } => {
                &&& root.len() == 0 ==> node_label(node) == "SetupEnvironment"@ + "("@ + toolchain
                    + ")"@
                &&& root.len() > 0 ==> node_label(node) == "SetupEnvironment"@ + "("@ + toolchain
                    + ", "@ + root + ")"@
            },
            NodeView::InstallDependencies { toolchain, root, .. } => {
                &&& root.len() == 0 ==> node_label(node) == "InstallDependencies"@ + "("@
                    + toolchain + ")"@
                &&& root.len() > 0 ==> node_label(node) == "InstallDependencies"@ + "("@ + toolchain
                    + ", "@ + root + ")"@
            },
            NodeView::RunTask(run) => {
                &&& run.persistent ==> node_label(node) == "RunPersistentTask"@ + "("@ + target_text(
                    run.target,
                ) + ")"@
                &&& !run.persistent && run.interactive ==> node_label(node)
                    == "RunInteractiveTask"@ + "("@ + target_text(run.target) + ")"@
                &&& !run.persistent && !run.interactive ==> node_label(node) == "RunTask"@ + "("@
                    + target_text(run.target) + ")"@
            },
        },
{
}

/// Every action belongs to the source root that it is for.
pub proof fn actions_belong_to_their_source(node: NodeView)
    ensures
        node_source(node) is None <==> node is Nothing,
        node matches NodeView::RunTask(run) ==> node_source(node) == Some(run.key.project.source),
        node matches NodeView::SyncProject { key } ==> node_source(node) == Some(key.source),
        node matches NodeView::SyncWorkspace { source } ==> node_source(node) == Some(source),
        node matches NodeView::SetupProto { source, .. } ==> node_source(node) == Some(source),
        node matches NodeView::SetupToolchain { source, .. } ==> node_source(node) == Some(source),
        node matches NodeView::SetupEnvironment { source, .. } ==> node_source(node) == Some(
            source,
        ),
        node matches NodeView::InstallDependencies { source, .. } ==> node_source(node) == Some(
            source,
        ),
{
}

/// A toolchain is written with its version where it has one.
pub proof fn toolchains_are_written_with_their_version(id: Seq<char>, version: Seq<char>)
    ensures
        spec_text(SpecView { id, req: None }) == id,
        spec_text(SpecView { id, req: Some(version) }) == id + ":"@ + version,
{
}

/// A pattern selects by identifier, or by tag behind `#`, and a query for tasks in some
/// projects asks for those projects too.
pub proof fn patterns_select_by_identifier_or_tag(glob: Seq<char>, ids: Seq<Seq<char>>)
    ensures
        glob.len() > 0 && glob[0] == '#' ==> project_glob_query(glob) == "projectTag~"@
            + glob.skip(1) && task_glob_query(glob) == "taskTag~"@ + glob.skip(1),
        glob.len() == 0 || glob[0] != '#' ==> project_glob_query(glob) == "project~"@ + glob
            && task_glob_query(glob) == "task~"@ + glob,
        task_query(glob, None) == task_glob_query(glob),
        task_query(glob, Some(ids)) == "project=["@ + crate::text::join_texts(ids, ","@) + "] && "@
            + task_glob_query(glob),
{
}

/// Keys are ordered by source root, then by project, then by task.
pub proof fn keys_are_ordered_from_the_outside_in(a: TaskKeyView, b: TaskKeyView)
    ensures
        text_less(a.project.source, b.project.source) ==> project_key_less(a.project, b.project),
        a.project.source == b.project.source ==> (project_key_less(a.project, b.project)
            <==> text_less(a.project.project, b.project.project)),
        project_key_less(a.project, b.project) ==> task_key_less(a, b),
        a.project == b.project ==> (task_key_less(a, b) <==> text_less(a.task, b.task)),
{
    text_less_irreflexive(a.project.source);
    text_less_irreflexive(a.project.project);
}

/// Text is ordered by the first character that differs, and a text comes before what it begins.
pub proof fn texts_are_ordered_by_what_differs_first(
    front: Seq<char>,
    a: char,
    b: char,
    tail: Seq<char>,
    other: Seq<char>,
)
    requires
        a < b,
    ensures
        text_less(front + seq![a] + tail, front + seq![b] + other),
        text_less(front, front + seq![b] + other),
    decreases front.len(),
{
    let x = front + seq![a] + tail;
    let y = front + seq![b] + other;
    if front.len() == 0 {
        assert(x[0] == a && y[0] == b);
    } else {
        texts_are_ordered_by_what_differs_first(front.drop_first(), a, b, tail, other);
        assert(x.drop_first() =~= front.drop_first() + seq![a] + tail);
        assert(y.drop_first() =~= front.drop_first() + seq![b] + other);
    }
}

/// A number is written by its digits: that of its tens in front of its last one.
pub proof fn numbers_are_written_by_their_digits(n: nat, digit: nat)
    requires
        digit < 10,
        n > 0,
    ensures
        decimal(n * 10 + digit) == decimal(n) + decimal(digit),
        decimal(digit).len() == 1,
        decimal(digit)[0] as int == '0' as int + digit,
{
    assert((n * 10 + digit) / 10 == n);
    assert((n * 10 + digit) % 10 == digit);
    assert(decimal(n * 10 + digit) =~= decimal(n) + decimal(digit));
}

} // verus!
