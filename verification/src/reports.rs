//! The tables and documents in which projects, tasks and source roots are reported.

use crate::affected_tracker::AggregateAffected;
use crate::config::{key_of_project, Project, ProjectView};
use crate::id::{valid_id, Id};
use crate::keys::{
    parse_project_key, project_key_less, project_key_less_total, project_key_less_transitive,
    project_key_text, task_key_less, task_key_text, KeyError, KeyFault, ProjectKey, ProjectKeyView,
    TaskKey, TaskKeyView,
};
use crate::order::{ranked, ranked_is_permutation, sort_ranked, view_of, views, Ranked};
use crate::source::source_separator;
use crate::table::Key;
use crate::task::{target_text, Task, TaskView};
use crate::text::{
    contains_text, has_text, join_all, join_texts, text_before, text_less, text_less_irreflexive,
    text_less_total, text_less_transitive,
};
use vstd::prelude::*;
use vstd::utf8::encode_utf8;

verus! {

broadcast use crate::order::group_views;

/// A table: how wide its first columns are, and its rows.
pub struct ListingView {
    pub widths: Seq<nat>,
    pub rows: Seq<Seq<Seq<char>>>,
}

/// A row of a table.
#[derive(Debug)]
pub struct Row {
    pub cells: Vec<String>,
}

impl View for Row {
    type V = Seq<Seq<char>>;

    open spec fn view(&self) -> Seq<Seq<char>> {
        views(self.cells@)
    }
}

/// A table: how wide its first columns are, and its rows.
#[derive(Debug)]
pub struct Listing {
    pub widths: Vec<usize>,
    pub rows: Vec<Row>,
}

/// How many bytes a text takes.
pub open spec fn text_width(text: Seq<char>) -> nat {
    encode_utf8(text).len()
}

/// The width of the widest of several texts, and not less than a floor.
pub open spec fn widest_text(texts: Seq<Seq<char>>, floor: nat) -> nat
    decreases texts.len(),
{
    if texts.len() == 0 {
        floor
    } else {
        let rest = widest_text(texts.drop_last(), floor);
        if text_width(texts.last()) > rest {
            text_width(texts.last())
        } else {
            rest
        }
    }
}

/// A width with room for spaces, as far as a number can say.
pub open spec fn padded(width: nat) -> nat {
    if width + 5 <= usize::MAX {
        width + 5
    } else {
        usize::MAX as nat
    }
}

/// The width of the widest of several texts, and not less than a floor.
pub fn find_widest(texts: &Vec<String>, floor: usize) -> (width: usize)
    ensures
        width == widest_text(views(texts@), floor as nat),
{
    let ghost all = views(texts@);
    let mut width = floor;
    let mut i: usize = 0;
    assert(all.take(0) =~= Seq::empty());
    while i < texts.len()
        invariant
            i <= texts@.len(),
            all == views(texts@),
            width == widest_text(all.take(i as int), floor as nat),
        decreases texts.len() - i,
    {
        proof {
            assert(all.take(i + 1).drop_last() =~= all.take(i as int));
            assert(all.take(i + 1).last() == texts@[i as int]@);
        }
        let own = texts[i].as_str().as_bytes().len();
        if own > width {
            width = own;
        }
        i = i + 1;
    }
    assert(all.take(i as int) =~= all);
    width
}

impl Ranked for Project {
    open spec fn before(a: ProjectView, b: ProjectView) -> bool {
        project_key_less(key_of_project(a), key_of_project(b))
    }

    proof fn before_irreflexive(a: ProjectView) {
        text_less_irreflexive(a.source_id);
        text_less_irreflexive(a.id);
    }

    proof fn before_transitive(a: ProjectView, b: ProjectView, c: ProjectView) {
        project_key_less_transitive(key_of_project(a), key_of_project(b), key_of_project(c));
    }

    proof fn before_total(a: ProjectView, b: ProjectView, c: ProjectView) {
        let (x, y, z) = (key_of_project(a), key_of_project(b), key_of_project(c));
        project_key_less_total(x, z);
        project_key_less_total(z, y);
        if !project_key_less(x, z) && !project_key_less(z, y) {
            if project_key_less(z, x) {
                project_key_less_transitive(z, x, y);
            }
        }
    }

    fn is_before(&self, other: &Self) -> bool {
        project_before(self, other)
    }
}

fn project_before(a: &Project, b: &Project) -> (before: bool)
    ensures
        before == project_key_less(key_of_project(a@), key_of_project(b@)),
{
    text_before(a.source_id.as_str(), b.source_id.as_str()) || (a.source_id.same_key(&b.source_id)
        && text_before(a.id.as_str(), b.id.as_str()))
}

/// How often a project has an identifier, among some.
pub open spec fn projects_named(projects: Seq<ProjectView>, id: Seq<char>) -> nat
    decreases projects.len(),
{
    if projects.len() == 0 {
        0
    } else {
        projects_named(projects.drop_last(), id) + if projects.last().id == id {
            1nat
        } else {
            0nat
        }
    }
}

/// How a project is shown among others: by its key where several have its identifier.
pub open spec fn shown_project(projects: Seq<ProjectView>, project: ProjectView) -> Seq<char> {
    if projects_named(projects, project.id) > 1 {
        project_key_text(key_of_project(project))
    } else {
        project.id
    }
}

/// A text that may be missing, or nothing.
pub open spec fn text_or_empty(text: Option<Seq<char>>) -> Seq<char> {
    match text {
        Some(text) => text,
        None => Seq::empty(),
    }
}

/// The row of a project.
pub open spec fn project_row(projects: Seq<ProjectView>, project: ProjectView) -> Seq<Seq<char>> {
    seq![
        shown_project(projects, project),
        project.source,
        project.stack.name_spec(),
        project.layer.name_spec(),
        join_texts(project.toolchains, ", "@),
        text_or_empty(project.description),
    ]
}

/// The rows of projects.
pub open spec fn project_rows(projects: Seq<ProjectView>) -> Seq<Seq<Seq<char>>> {
    projects.map_values(|project: ProjectView| project_row(projects, project))
}

/// The texts in one column.
pub open spec fn column(rows: Seq<Seq<Seq<char>>>, at: int) -> Seq<Seq<char>> {
    rows.map_values(|row: Seq<Seq<char>>| row[at])
}

/// The larger of two widths.
pub open spec fn at_least(width: nat, floor: nat) -> nat {
    if width > floor {
        width
    } else {
        floor
    }
}

fn count_named(projects: &Vec<Project>, id: &Id) -> (count: usize)
    ensures
        count == projects_named(views(projects@), id@),
{
    let ghost all = views(projects@);
    let mut count: usize = 0;
    let mut i: usize = 0;
    assert(all.take(0) =~= Seq::empty());
    while i < projects.len()
        invariant
            i <= projects@.len(),
            count <= i,
            all == views(projects@),
            count == projects_named(all.take(i as int), id@),
        decreases projects.len() - i,
    {
        proof {
            assert(all.take(i + 1).drop_last() =~= all.take(i as int));
            assert(all.take(i + 1).last() == projects@[i as int]@);
        }
        if projects[i].id.same_key(id) {
            count = count + 1;
        }
        i = i + 1;
    }
    assert(all.take(i as int) =~= all);
    count
}

/// The texts of identifiers, joined by commas.
fn join_ids(ids: &Vec<Id>) -> (joined: String)
    ensures
        joined@ == join_texts(views(ids@), ", "@),
{
    let mut texts: Vec<String> = Vec::new();
    let mut i: usize = 0;
    while i < ids.len()
        invariant
            i <= ids@.len(),
            views(texts@) =~= views(ids@).take(i as int),
        decreases ids.len() - i,
    {
        texts.push(ids[i].as_str().to_owned());
        i = i + 1;
    }
    assert(views(texts@) =~= views(ids@));
    assert(texts@.map_values(|p: String| p@) =~= views(texts@));
    join_all(&texts, ", ")
}

fn text_or_nothing(text: &Option<String>) -> (shown: String)
    ensures
        shown@ == text_or_empty(view_of(*text)),
{
    match text {
        Some(text) => text.clone(),
        None => {
            let shown = String::new();
            assert(shown@ =~= Seq::empty());
            shown
        },
    }
}

/// The table of projects, in the order of their keys. Where there are none, there is no table.
pub fn list_projects(projects: Vec<Project>) -> (listing: Option<Listing>)
    requires
        forall|i: int| 0 <= i < projects@.len() ==> valid_id((#[trigger] projects@[i])@.id),
    ensures
        match listing {
            None => projects@.len() == 0,
            Some(listing) => {
                let sorted = ranked::<Project>(views(projects@));
                &&& projects@.len() > 0
                &&& views(listing.rows@) == project_rows(sorted)
                &&& listing.widths@.len() == 2
                &&& listing.widths@[0] == at_least(
                    padded(widest_text(column(project_rows(sorted), 0), 3)),
                    10,
                )
                &&& listing.widths@[1] == padded(widest_text(column(project_rows(sorted), 1), 3))
            },
        },
{
    if projects.len() == 0 {
        return None;
    }
    let ghost given = views(projects@);
    let sorted = sort_ranked(projects);
    let ghost all = views(sorted@);
    proof {
        ranked_is_permutation::<Project>(given);
        assert forall|i: int| 0 <= i < sorted@.len() implies valid_id((#[trigger] sorted@[i])@.id) by {
            crate::order::ranked_same_items::<Project>(given, all[i]);
            assert(all.contains(all[i]));
            let j = choose|j: int| 0 <= j < given.len() && given[j] == all[i];
            assert(given[j] == projects@[j]@);
        }
    }
    let mut rows: Vec<Row> = Vec::new();
    let mut ids: Vec<String> = Vec::new();
    let mut sources: Vec<String> = Vec::new();
    let mut i: usize = 0;
    while i < sorted.len()
        invariant
            i <= sorted@.len(),
            all == views(sorted@),
            forall|j: int| 0 <= j < sorted@.len() ==> valid_id((#[trigger] sorted@[j])@.id),
            views(rows@) =~= project_rows(all).take(i as int),
            views(ids@) =~= column(project_rows(all), 0).take(i as int),
            views(sources@) =~= column(project_rows(all), 1).take(i as int),
        decreases sorted.len() - i,
    {
        let project = &sorted[i];
        let shown = if count_named(&sorted, &project.id) > 1 {
            project.key().to_text()
        } else {
            project.id.as_str().to_owned()
        };
        let mut cells: Vec<String> = Vec::new();
        cells.push(shown.clone());
        cells.push(project.source.clone());
        cells.push(project.stack.name().to_owned());
        cells.push(project.layer.name().to_owned());
        cells.push(join_ids(&project.toolchains));
        cells.push(text_or_nothing(&project.description));
        assert(views(cells@) =~= project_row(all, all[i as int]));
        rows.push(Row { cells });
        ids.push(shown);
        sources.push(project.source.clone());
        i = i + 1;
    }
    assert(views(rows@) =~= project_rows(all));
    assert(views(ids@) =~= column(project_rows(all), 0));
    assert(views(sources@) =~= column(project_rows(all), 1));
    let wide = find_widest(&ids, 3).saturating_add(5);
    let mut widths: Vec<usize> = Vec::new();
    widths.push(
        if wide > 10 {
            wide
        } else {
            10
        },
    );
    widths.push(find_widest(&sources, 3).saturating_add(5));
    Some(Listing { widths, rows })
}

/// A task with its key.
pub struct KeyedView {
    pub key: TaskKeyView,
    pub task: TaskView,
}

/// A task with its key.
#[derive(Debug)]
pub struct KeyedTask {
    pub key: TaskKey,
    pub task: Task,
}

impl View for KeyedTask {
    type V = KeyedView;

    open spec fn view(&self) -> KeyedView {
        KeyedView { key: self.key@, task: self.task@ }
    }
}

impl Ranked for KeyedTask {
    open spec fn before(a: KeyedView, b: KeyedView) -> bool {
        task_key_less(a.key, b.key)
    }

    proof fn before_irreflexive(a: KeyedView) {
        TaskKey::before_irreflexive(a.key);
    }

    proof fn before_transitive(a: KeyedView, b: KeyedView, c: KeyedView) {
        TaskKey::before_transitive(a.key, b.key, c.key);
    }

    proof fn before_total(a: KeyedView, b: KeyedView, c: KeyedView) {
        TaskKey::before_total(a.key, b.key, c.key);
    }

    fn is_before(&self, other: &Self) -> bool {
        self.key.is_before(&other.key)
    }
}

impl Ranked for Task {
    open spec fn before(a: TaskView, b: TaskView) -> bool {
        text_less(target_text(a.target), target_text(b.target))
    }

    proof fn before_irreflexive(a: TaskView) {
        text_less_irreflexive(target_text(a.target));
    }

    proof fn before_transitive(a: TaskView, b: TaskView, c: TaskView) {
        text_less_transitive(target_text(a.target), target_text(b.target), target_text(c.target));
    }

    proof fn before_total(a: TaskView, b: TaskView, c: TaskView) {
        let (x, y, z) = (target_text(a.target), target_text(b.target), target_text(c.target));
        text_less_total(x, z);
        text_less_total(z, y);
        if !text_less(x, z) && !text_less(z, y) {
            if text_less(z, x) {
                text_less_transitive(z, x, y);
            }
        }
    }

    fn is_before(&self, other: &Self) -> bool {
        task_before(self, other)
    }
}

fn task_before(a: &Task, b: &Task) -> (before: bool)
    ensures
        before == text_less(target_text(a@.target), target_text(b@.target)),
{
    text_before(a.target.to_text().as_str(), b.target.to_text().as_str())
}

/// The row of a task.
pub open spec fn task_row(shown: Seq<char>, task: TaskView) -> Seq<Seq<char>> {
    seq![
        shown,
        if task.script is Some {
            "(script)"@
        } else {
            task.command
        },
        task.type_of.name_spec(),
        text_or_empty(task.preset),
        join_texts(task.toolchains, ", "@),
        text_or_empty(task.description),
    ]
}

/// How a task with a key is shown: by the key where there are several source roots.
pub open spec fn shown_task(entry: KeyedView, sources: nat) -> Seq<char> {
    if sources > 1 {
        task_key_text(entry.key)
    } else {
        target_text(entry.task.target)
    }
}

/// The names and the commands of tasks.
pub open spec fn is_task_table(
    listing: Listing,
    shown: Seq<Seq<char>>,
    tasks: Seq<TaskView>,
) -> bool {
    &&& shown.len() == tasks.len()
    &&& views(listing.rows@) == Seq::new(tasks.len(), |i: int| task_row(shown[i], tasks[i]))
    &&& listing.widths@.len() == 2
    &&& listing.widths@[0] == at_least(padded(widest_text(shown, 3)), 10)
    &&& listing.widths@[1] == padded(
        widest_text(tasks.map_values(|task: TaskView| task.command), 3),
    )
}

fn make_task_row(shown: &str, task: &Task) -> (row: Row)
    ensures
        row@ == task_row(shown@, task@),
{
    let mut cells: Vec<String> = Vec::new();
    cells.push(shown.to_owned());
    cells.push(
        if task.script.is_some() {
            "(script)".to_owned()
        } else {
            task.command.clone()
        },
    );
    cells.push(task.type_of.name().to_owned());
    cells.push(text_or_nothing(&task.preset));
    cells.push(join_ids(&task.toolchains));
    cells.push(text_or_nothing(&task.description));
    assert(views(cells@) =~= task_row(shown@, task@));
    Row { cells }
}

fn task_widths(shown: &Vec<String>, commands: &Vec<String>) -> (widths: Vec<usize>)
    ensures
        widths@.len() == 2,
        widths@[0] == at_least(padded(widest_text(views(shown@), 3)), 10),
        widths@[1] == padded(widest_text(views(commands@), 3)),
{
    let wide = find_widest(shown, 3).saturating_add(5);
    let mut widths: Vec<usize> = Vec::new();
    widths.push(
        if wide > 10 {
            wide
        } else {
            10
        },
    );
    widths.push(find_widest(commands, 3).saturating_add(5));
    widths
}

/// The tasks of one project, in the order in which they stand.
pub fn tasks_of_project(tasks: Vec<KeyedTask>, project: &ProjectKey) -> (own: Vec<KeyedTask>)
    ensures
        views(own@) == views(tasks@).filter(|entry: KeyedView| entry.key.project == project@),
{
    let ghost all = views(tasks@);
    let ghost is_own = |entry: KeyedView| entry.key.project == project@;
    let mut own: Vec<KeyedTask> = Vec::new();
    proof {
        reveal(Seq::filter);
    }
    for entry in it: tasks
        invariant
            it.seq() == tasks@,
            all == views(tasks@),
            is_own == (|entry: KeyedView| entry.key.project == project@),
            views(own@) == all.take(it.index() as int).filter(is_own),
    {
        proof {
            reveal(Seq::filter);
            let now = all.take(it.index() + 1);
            assert(now.drop_last() =~= all.take(it.index() as int));
            assert(now.last() == entry@);
        }
        if entry.key.project_key().same_key(project) {
            own.push(entry);
        }
    }
    assert(all.take(tasks@.len() as int) =~= all);
    own
}

/// The table of all tasks, in the order of their keys. Where there are none, there is no table.
pub fn list_all_tasks(tasks: Vec<KeyedTask>, sources: usize) -> (listing: Option<Listing>)
    ensures
        match listing {
            None => tasks@.len() == 0,
            Some(listing) => {
                let sorted = ranked::<KeyedTask>(views(tasks@));
                tasks@.len() > 0 && is_task_table(
                    listing,
                    sorted.map_values(|entry: KeyedView| shown_task(entry, sources as nat)),
                    sorted.map_values(|entry: KeyedView| entry.task),
                )
            },
        },
{
    if tasks.len() == 0 {
        return None;
    }
    let sorted = sort_ranked(tasks);
    let ghost all = views(sorted@);
    let ghost names = all.map_values(|entry: KeyedView| shown_task(entry, sources as nat));
    let ghost bare = all.map_values(|entry: KeyedView| entry.task);
    let ghost table = Seq::new(bare.len(), |i: int| task_row(names[i], bare[i]));
    let mut rows: Vec<Row> = Vec::new();
    let mut shown: Vec<String> = Vec::new();
    let mut commands: Vec<String> = Vec::new();
    let mut i: usize = 0;
    while i < sorted.len()
        invariant
            i <= sorted@.len(),
            all == views(sorted@),
            names == all.map_values(|entry: KeyedView| shown_task(entry, sources as nat)),
            bare == all.map_values(|entry: KeyedView| entry.task),
            table == Seq::new(bare.len(), |i: int| task_row(names[i], bare[i])),
            views(rows@) =~= table.take(i as int),
            views(shown@) =~= names.take(i as int),
            views(commands@) =~= bare.map_values(|task: TaskView| task.command).take(i as int),
        decreases sorted.len() - i,
    {
        let entry = &sorted[i];
        let name = if sources > 1 {
            entry.key.to_text()
        } else {
            entry.task.target.to_text()
        };
        assert(names[i as int] == name@);
        assert(bare[i as int] == entry.task@);
        rows.push(make_task_row(name.as_str(), &entry.task));
        shown.push(name);
        commands.push(entry.task.command.clone());
        i = i + 1;
    }
    assert(views(rows@) =~= table);
    assert(views(shown@) =~= names);
    assert(views(commands@) =~= bare.map_values(|task: TaskView| task.command));
    Some(Listing { widths: task_widths(&shown, &commands), rows })
}

/// The table of the tasks of one project, in the order of their targets. Where there are
/// none, there is no table.
pub fn list_project_tasks(tasks: Vec<Task>) -> (listing: Option<Listing>)
    ensures
        match listing {
            None => tasks@.len() == 0,
            Some(listing) => {
                let sorted = ranked::<Task>(views(tasks@));
                tasks@.len() > 0 && is_task_table(
                    listing,
                    sorted.map_values(|task: TaskView| target_text(task.target)),
                    sorted,
                )
            },
        },
{
    if tasks.len() == 0 {
        return None;
    }
    let sorted = sort_ranked(tasks);
    let ghost all = views(sorted@);
    let ghost names = all.map_values(|task: TaskView| target_text(task.target));
    let ghost table = Seq::new(all.len(), |i: int| task_row(names[i], all[i]));
    let mut rows: Vec<Row> = Vec::new();
    let mut shown: Vec<String> = Vec::new();
    let mut commands: Vec<String> = Vec::new();
    let mut i: usize = 0;
    while i < sorted.len()
        invariant
            i <= sorted@.len(),
            all == views(sorted@),
            names == all.map_values(|task: TaskView| target_text(task.target)),
            table == Seq::new(all.len(), |i: int| task_row(names[i], all[i])),
            views(rows@) =~= table.take(i as int),
            views(shown@) =~= names.take(i as int),
            views(commands@) =~= all.map_values(|task: TaskView| task.command).take(i as int),
        decreases sorted.len() - i,
    {
        let task = &sorted[i];
        let name = task.target.to_text();
        assert(names[i as int] == name@);
        assert(all[i as int] == task@);
        rows.push(make_task_row(name.as_str(), task));
        shown.push(name);
        commands.push(task.command.clone());
        i = i + 1;
    }
    assert(views(rows@) =~= table);
    assert(views(shown@) =~= names);
    assert(views(commands@) =~= all.map_values(|task: TaskView| task.command));
    Some(Listing { widths: task_widths(&shown, &commands), rows })
}

/// Whether the items of several source roots are written under their keys.
pub fn writes_keys(aggregate: bool, sources: usize) -> (r: bool)
    ensures
        r == (aggregate && sources > 1),
{
    aggregate && sources > 1
}

/// What a project graph is to be limited to.
pub enum FocusView {
    Primary(Seq<char>),
    Qualified(ProjectKeyView),
}

/// What a project graph is to be limited to.
#[derive(Debug)]
pub enum ProjectGraphFocus {
    /// A project of the primary source root.
    Primary(Id),
    /// A project of any source root.
    Qualified(ProjectKey),
}

impl View for ProjectGraphFocus {
    type V = FocusView;

    open spec fn view(&self) -> FocusView {
        match self {
            ProjectGraphFocus::Primary(id) => FocusView::Primary(id@),
            ProjectGraphFocus::Qualified(key) => FocusView::Qualified(key@),
        }
    }
}

/// The focus that a text names: a key where it holds the separator of keys, and an
/// identifier otherwise.
pub open spec fn parse_focus(text: Seq<char>) -> Result<FocusView, KeyFault> {
    if has_text(text, source_separator()) {
        match parse_project_key(text) {
            Ok(key) => Ok(FocusView::Qualified(key)),
            Err(fault) => Err(fault),
        }
    } else if valid_id(text) {
        Ok(FocusView::Primary(text))
    } else {
        Err(KeyFault::InvalidId(text))
    }
}

impl ProjectGraphFocus {
    /// The focus that a text names.
    pub fn parse(value: &str) -> (focus: Result<Self, KeyError>)
        ensures
            crate::order::outcome(focus) == parse_focus(value@),
    {
        proof {
            reveal_strlit("::");
            assert("::"@ =~= source_separator());
        }
        if contains_text(value, "::") {
            match ProjectKey::parse(value) {
                Ok(key) => Ok(ProjectGraphFocus::Qualified(key)),
                Err(error) => Err(error),
            }
        } else {
            match Id::new(value) {
                Ok(id) => Ok(ProjectGraphFocus::Primary(id)),
                Err(error) => Err(KeyError::InvalidId(error)),
            }
        }
    }
}

impl std::str::FromStr for ProjectGraphFocus {
    type Err = KeyError;

    fn from_str(value: &str) -> (focus: Result<Self, KeyError>)
        ensures
            crate::order::outcome(focus) == parse_focus(value@),
    {
        ProjectGraphFocus::parse(value)
    }
}

/// The projects among some that are affected.
pub open spec fn affected_projects(
    keys: Seq<ProjectKeyView>,
    affected: Set<ProjectKeyView>,
) -> Seq<ProjectKeyView>
    decreases keys.len(),
{
    if keys.len() == 0 {
        keys
    } else {
        let rest = affected_projects(keys.drop_last(), affected);
        if affected.contains(keys.last()) {
            rest.push(keys.last())
        } else {
            rest
        }
    }
}

/// The projects among some that are affected.
pub fn keep_affected(keys: &Vec<ProjectKey>, affected: &AggregateAffected) -> (kept: Vec<ProjectKey>)
    ensures
        views(kept@) == affected_projects(
            views(keys@),
            if affected@.should_check {
                affected@.projects.dom()
            } else {
                Set::empty()
            },
        ),
{
    let ghost all = views(keys@);
    let ghost marked = if affected@.should_check {
        affected@.projects.dom()
    } else {
        Set::empty()
    };
    let mut kept: Vec<ProjectKey> = Vec::new();
    let mut i: usize = 0;
    proof {
        assert(all.take(0) =~= Seq::empty());
        assert(views(kept@) =~= Seq::empty());
    }
    while i < keys.len()
        invariant
            i <= keys@.len(),
            all == views(keys@),
            marked == if affected@.should_check {
                affected@.projects.dom()
            } else {
                Set::empty()
            },
            views(kept@) == affected_projects(all.take(i as int), marked),
        decreases keys.len() - i,
    {
        proof {
            assert(all.take(i + 1).drop_last() =~= all.take(i as int));
            assert(all.take(i + 1).last() == keys@[i as int]@);
        }
        if affected.is_project_affected(&keys[i]) {
            kept.push(keys[i].copy_key());
        }
        i = i + 1;
    }
    assert(all.take(i as int) =~= all);
    kept
}

} // verus!
