//! Which tasks are meant by the targets and patterns that a run is asked for.

use crate::action_context::{LocatorView, TargetLocator};
use crate::action_scene::{ready_task, scene_valid, ActionScene, SceneView};
use crate::action_state::{ActionGraphError, ActionGraphFault};
use crate::config::{key_of_project, ProjectView};
use crate::id::Id;
use crate::keys::{ProjectKey, ProjectKeyView, TaskKey, TaskKeyView};
use crate::order::{outcome, views};
use crate::project_graph::{get_project, ProjectGraph, ProjectGraphView};
use crate::project_queries::graph_valid;
use crate::table::Key;
use crate::task::{
    key_of_task, parse_scopes, ProjectSelector, Target, TargetProjectScope,
    TargetTaskScope, TargetView, TaskSelector,
};
use crate::task_graph::{TaskGraph, TaskGraphError, TaskGraphFault, TaskGraphView};
use crate::text::{join_all, join_texts, text_begins_with};
use vstd::prelude::*;

verus! {

broadcast use crate::order::group_views;

/// The projects whose tasks are meant.
pub enum RequestView {
    All,
    One(Seq<char>),
    Query(Seq<char>),
}

/// The projects whose tasks are meant.
#[derive(Debug)]
pub enum ProjectRequest {
    /// All projects, or those that the query of the run selects.
    All,
    /// One project. A task that it lacks is an error.
    One(Id),
    /// The projects that a query selects.
    Query(String),
}

impl View for ProjectRequest {
    type V = RequestView;

    open spec fn view(&self) -> RequestView {
        match self {
            ProjectRequest::All => RequestView::All,
            ProjectRequest::One(id) => RequestView::One(id@),
            ProjectRequest::Query(query) => RequestView::Query(query@),
        }
    }
}

/// The projects that a target means. Scopes that need a project around them mean nothing
/// in a run.
pub open spec fn projects_meant(target: TargetView) -> Result<RequestView, ActionGraphFault> {
    match target.project {
        ProjectSelector::All => Ok(RequestView::All),
        ProjectSelector::Id(id) => Ok(RequestView::One(id)),
        ProjectSelector::Tag(tag) => Ok(RequestView::Query("projectTag="@ + tag)),
        ProjectSelector::Deps => Err(ActionGraphFault::NoDepsInRunContext),
        ProjectSelector::DepsOf(_) => Err(ActionGraphFault::NoDepsInRunContext),
        ProjectSelector::OwnSelf => Err(ActionGraphFault::NoSelfInRunContext),
    }
}

fn prefixed(prefix: &str, text: &str) -> (joined: String)
    ensures
        joined@ == prefix@ + text@,
{
    let mut joined = prefix.to_owned();
    joined.append(text);
    joined
}

/// The projects that a target means.
pub fn project_request(target: &Target) -> (request: Result<ProjectRequest, ActionGraphError>)
    ensures
        outcome(request) == projects_meant(target@),
{
    match &target.project {
        TargetProjectScope::All => Ok(ProjectRequest::All),
        TargetProjectScope::Id(id) => Ok(ProjectRequest::One(id.copy_key())),
        TargetProjectScope::Tag(tag) => Ok(
            ProjectRequest::Query(prefixed("projectTag=", tag.as_str())),
        ),
        TargetProjectScope::Deps | TargetProjectScope::DepsOf(_) => Err(
            ActionGraphError::NoDepsInRunContext,
        ),
        TargetProjectScope::OwnSelf => Err(ActionGraphError::NoSelfInRunContext),
    }
}

/// The tasks of a project that have a tag, among some. All tasks of the project must be ready.
pub open spec fn tagged_among(
    scene: SceneView,
    keys: Seq<TaskKeyView>,
    project: ProjectKeyView,
    tag: Seq<char>,
) -> Result<Seq<TaskKeyView>, ActionGraphFault>
    decreases keys.len(),
{
    if keys.len() == 0 {
        Ok(keys)
    } else {
        match tagged_among(scene, keys.drop_last(), project, tag) {
            Err(fault) => Err(fault),
            Ok(rest) => if keys.last().project != project {
                Ok(rest)
            } else {
                match ready_task(scene, keys.last()) {
                    Err(fault) => Err(fault),
                    Ok(task) => if task.tags.contains(tag) {
                        Ok(rest.push(keys.last()))
                    } else {
                        Ok(rest)
                    },
                }
            },
        }
    }
}

/// The tasks among some that may be run from outside. Where the project was named, an
/// internal task counts as unknown.
pub open spec fn without_internal(
    graph: TaskGraphView,
    keys: Seq<TaskKeyView>,
    allow_internal: bool,
    named: bool,
) -> Result<Seq<TaskKeyView>, ActionGraphFault>
    decreases keys.len(),
{
    if keys.len() == 0 {
        Ok(keys)
    } else {
        match without_internal(graph, keys.drop_last(), allow_internal, named) {
            Err(fault) => Err(fault),
            Ok(rest) => if !allow_internal && graph.nodes[keys.last()].task.options.internal {
                if named {
                    Err(unknown_task(keys.last()))
                } else {
                    Ok(rest)
                }
            } else {
                Ok(rest.push(keys.last()))
            },
        }
    }
}

/// The report of a task that is not known.
pub open spec fn unknown_task(key: TaskKeyView) -> ActionGraphFault {
    ActionGraphFault::Task(
        TaskGraphFault::UnknownTask { task_id: key.task, project_id: key.project.project },
    )
}

/// The tasks of a project that a target selects. Where the project was named, a task that it
/// lacks or that is not ready is an error.
pub open spec fn selected_tasks(
    scene: SceneView,
    project: ProjectKeyView,
    selector: TaskSelector,
    named: bool,
) -> Result<Seq<TaskKeyView>, ActionGraphFault> {
    match selector {
        TaskSelector::Id(task) => match ready_task(scene, TaskKeyView { project, task }) {
            Ok(_) => Ok(seq![TaskKeyView { project, task }]),
            Err(fault) => if named {
                Err(fault)
            } else {
                Ok(Seq::empty())
            },
        },
        TaskSelector::Tag(tag) => tagged_among(scene, scene.tasks.indexes, project, tag),
    }
}

/// The tasks of a project that a target means.
pub open spec fn tasks_of_project(
    scene: SceneView,
    project: ProjectKeyView,
    selector: TaskSelector,
    allow_internal: bool,
    named: bool,
) -> Result<Seq<TaskKeyView>, ActionGraphFault> {
    match selected_tasks(scene, project, selector, named) {
        Err(fault) => Err(fault),
        Ok(found) => without_internal(scene.tasks, found, allow_internal, named),
    }
}

/// The tasks of several projects that a target means.
pub open spec fn tasks_of_projects(
    scene: SceneView,
    projects: Seq<ProjectKeyView>,
    selector: TaskSelector,
    allow_internal: bool,
    named: bool,
) -> Result<Seq<TaskKeyView>, ActionGraphFault>
    decreases projects.len(),
{
    if projects.len() == 0 {
        Ok(Seq::empty())
    } else {
        match tasks_of_projects(scene, projects.drop_last(), selector, allow_internal, named) {
            Err(fault) => Err(fault),
            Ok(rest) => match tasks_of_project(
                scene,
                projects.last(),
                selector,
                allow_internal,
                named,
            ) {
                Err(fault) => Err(fault),
                Ok(found) => Ok(rest + found),
            },
        }
    }
}

proof fn tasks_of_projects_stops(
    scene: SceneView,
    projects: Seq<ProjectKeyView>,
    selector: TaskSelector,
    allow_internal: bool,
    named: bool,
    n: int,
)
    requires
        0 <= n <= projects.len(),
        tasks_of_projects(scene, projects.take(n), selector, allow_internal, named) is Err,
    ensures
        tasks_of_projects(scene, projects, selector, allow_internal, named) == tasks_of_projects(
            scene,
            projects.take(n),
            selector,
            allow_internal,
            named,
        ),
    decreases projects.len(),
{
    if n == projects.len() {
        assert(projects.take(n) =~= projects);
    } else {
        assert(projects.drop_last().take(n) =~= projects.take(n));
        tasks_of_projects_stops(scene, projects.drop_last(), selector, allow_internal, named, n);
    }
}

proof fn without_internal_stops(
    graph: TaskGraphView,
    keys: Seq<TaskKeyView>,
    allow_internal: bool,
    named: bool,
    n: int,
)
    requires
        0 <= n <= keys.len(),
        without_internal(graph, keys.take(n), allow_internal, named) is Err,
    ensures
        without_internal(graph, keys, allow_internal, named) == without_internal(
            graph,
            keys.take(n),
            allow_internal,
            named,
        ),
    decreases keys.len(),
{
    if n == keys.len() {
        assert(keys.take(n) =~= keys);
    } else {
        assert(keys.drop_last().take(n) =~= keys.take(n));
        without_internal_stops(graph, keys.drop_last(), allow_internal, named, n);
    }
}

proof fn tagged_among_stops(
    scene: SceneView,
    keys: Seq<TaskKeyView>,
    project: ProjectKeyView,
    tag: Seq<char>,
    n: int,
)
    requires
        0 <= n <= keys.len(),
        tagged_among(scene, keys.take(n), project, tag) is Err,
    ensures
        tagged_among(scene, keys, project, tag) == tagged_among(scene, keys.take(n), project, tag),
    decreases keys.len(),
{
    if n == keys.len() {
        assert(keys.take(n) =~= keys);
    } else {
        assert(keys.drop_last().take(n) =~= keys.take(n));
        tagged_among_stops(scene, keys.drop_last(), project, tag, n);
    }
}

/// Some tasks are tasks of a graph.
pub open spec fn tasks_known(graph: TaskGraphView, keys: Seq<TaskKeyView>) -> bool {
    forall|i: int| 0 <= i < keys.len() ==> graph.nodes.dom().contains(#[trigger] keys[i])
}

/// The tasks of a project that have a tag.
fn select_tagged(scene: &ActionScene, project: &ProjectKey, tag: &Id) -> (found: Result<
    Vec<TaskKey>,
    ActionGraphError,
>)
    ensures
        tasks_outcome(found) == tagged_among(scene@, scene@.tasks.indexes, project@, tag@),
        found is Ok ==> tasks_known(scene@.tasks, views(found->Ok_0@)),
{
    let ghost all = scene@.tasks.indexes;
    let mut found: Vec<TaskKey> = Vec::new();
    let mut i: usize = 0;
    proof {
        assert(all.take(0) =~= Seq::empty());
        assert(views(found@) =~= Seq::empty());
    }
    while i < scene.tasks.indexes.len()
        invariant
            i <= scene.tasks.indexes@.len(),
            all == views(scene.tasks.indexes@),
            all == scene@.tasks.indexes,
            tagged_among(scene@, all.take(i as int), project@, tag@) == Ok::<
                Seq<TaskKeyView>,
                ActionGraphFault,
            >(views(found@)),
            tasks_known(scene@.tasks, views(found@)),
        decreases scene.tasks.indexes.len() - i,
    {
        let key = &scene.tasks.indexes[i];
        proof {
            assert(all.take(i + 1).drop_last() =~= all.take(i as int));
            assert(all.take(i + 1).last() == key@);
        }
        if key.project_key().same_key(project) {
            match scene.ready_task(key) {
                Err(error) => {
                    proof {
                        tagged_among_stops(scene@, all, project@, tag@, i + 1);
                    }
                    return Err(error);
                },
                Ok(task) => {
                    if task.has_tag(tag) {
                        found.push(key.copy_key());
                    }
                },
            }
        }
        i = i + 1;
    }
    assert(all.take(i as int) =~= all);
    Ok(found)
}

/// The tasks of a project that a target selects.
fn select_tasks(
    scene: &ActionScene,
    project: &ProjectKey,
    selector: &TargetTaskScope,
    named: bool,
) -> (found: Result<Vec<TaskKey>, ActionGraphError>)
    requires
        scene_valid(scene@),
    ensures
        tasks_outcome(found) == selected_tasks(scene@, project@, selector@, named),
        found is Ok ==> tasks_known(scene@.tasks, views(found->Ok_0@)),
{
    match selector {
        TargetTaskScope::Tag(tag) => select_tagged(scene, project, tag),
        TargetTaskScope::Id(id) => {
            let mut found: Vec<TaskKey> = Vec::new();
            assert(views(found@) =~= Seq::empty());
            let key = match TaskKey::new(project.copy_key(), id.copy_key()) {
                Ok(key) => key,
                Err(error) => {
                    proof {
                        let key = TaskKeyView { project: project@, task: id@ };
                        if scene@.tasks.nodes.dom().contains(key) {
                            assert(key_of_task(scene@.tasks.nodes[key].task) == Some(key));
                            assert(false);
                        }
                    }
                    if named {
                        return Err(unknown(project, id));
                    }
                    return Ok(found);
                },
            };
            match scene.ready_task(&key) {
                Err(error) => {
                    if named {
                        return Err(error);
                    }
                },
                Ok(_) => {
                    found.push(key);
                    assert(views(found@) =~= seq![TaskKeyView { project: project@, task: id@ }]);
                },
            }
            Ok(found)
        },
    }
}

fn unknown(project: &ProjectKey, task: &Id) -> (error: ActionGraphError)
    ensures
        error@ == unknown_task(TaskKeyView { project: project@, task: task@ }),
{
    ActionGraphError::Task(
        TaskGraphError::UnknownTask {
            task_id: task.as_str().to_owned(),
            project_id: project.project_id().as_str().to_owned(),
        },
    )
}

/// The tasks of several projects that a target means.
pub fn select_from_projects(
    scene: &ActionScene,
    projects: &Vec<ProjectKey>,
    selector: &TargetTaskScope,
    allow_internal: bool,
    named: bool,
) -> (tasks: Result<Vec<TaskKey>, ActionGraphError>)
    requires
        scene_valid(scene@),
    ensures
        tasks_outcome(tasks) == tasks_of_projects(
            scene@,
            views(projects@),
            selector@,
            allow_internal,
            named,
        ),
{
    let ghost all = views(projects@);
    let mut tasks: Vec<TaskKey> = Vec::new();
    let mut i: usize = 0;
    proof {
        assert(all.take(0) =~= Seq::empty());
        assert(views(tasks@) =~= Seq::empty());
    }
    while i < projects.len()
        invariant
            i <= projects@.len(),
            scene_valid(scene@),
            all == views(projects@),
            tasks_of_projects(scene@, all.take(i as int), selector@, allow_internal, named) == Ok::<
                Seq<TaskKeyView>,
                ActionGraphFault,
            >(views(tasks@)),
        decreases projects.len() - i,
    {
        let project = &projects[i];
        proof {
            assert(all.take(i + 1).drop_last() =~= all.take(i as int));
            assert(all.take(i + 1).last() == project@);
        }
        let found = match select_tasks(scene, project, selector, named) {
            Ok(found) => found,
            Err(error) => {
                proof {
                    tasks_of_projects_stops(scene@, all, selector@, allow_internal, named, i + 1);
                }
                return Err(error);
            },
        };
        let ghost list = views(found@);
        let ghost before = views(tasks@);
        let ghost mut kept: Seq<TaskKeyView> = Seq::empty();
        let mut j: usize = 0;
        proof {
            assert(list.take(0) =~= Seq::empty());
            assert(before + kept =~= before);
        }
        while j < found.len()
            invariant
                i < projects@.len(),
                project@ == all[i as int],
                all == views(projects@),
                all.take(i + 1).drop_last() == all.take(i as int),
                all.take(i + 1).last() == project@,
                j <= found@.len(),
                list == views(found@),
                selected_tasks(scene@, project@, selector@, named) == Ok::<
                    Seq<TaskKeyView>,
                    ActionGraphFault,
                >(list),
                tasks_known(scene@.tasks, list),
                without_internal(scene@.tasks, list.take(j as int), allow_internal, named) == Ok::<
                    Seq<TaskKeyView>,
                    ActionGraphFault,
                >(kept),
                views(tasks@) == before + kept,
                tasks_of_projects(scene@, all.take(i as int), selector@, allow_internal, named)
                    == Ok::<Seq<TaskKeyView>, ActionGraphFault>(before),
            decreases found.len() - j,
        {
            let key = &found[j];
            proof {
                assert(list.take(j + 1).drop_last() =~= list.take(j as int));
                assert(list.take(j + 1).last() == key@);
                assert(scene@.tasks.nodes.dom().contains(list[j as int]));
            }
            let internal = match scene.tasks.nodes.get(key) {
                Some(node) => node.task.options.internal,
                None => false,
            };
            if !allow_internal && internal {
                if named {
                    proof {
                        without_internal_stops(scene@.tasks, list, allow_internal, named, j + 1);
                        tasks_of_projects_stops(
                            scene@,
                            all,
                            selector@,
                            allow_internal,
                            named,
                            i + 1,
                        );
                    }
                    return Err(unknown(key.project_key(), key.task_id()));
                }
            } else {
                proof {
                    assert(before + kept.push(key@) =~= (before + kept).push(key@));
                    kept = kept.push(key@);
                }
                tasks.push(key.copy_key());
            }
            j = j + 1;
        }
        assert(list.take(j as int) =~= list);
        i = i + 1;
    }
    assert(all.take(i as int) =~= all);
    Ok(tasks)
}

/// The query for the projects that a pattern selects. A pattern behind `#` is one for tags.
pub open spec fn project_glob_query(glob: Seq<char>) -> Seq<char> {
    if glob.len() > 0 && glob[0] == '#' {
        "projectTag~"@ + glob.skip(1)
    } else {
        "project~"@ + glob
    }
}

/// The query for the tasks that a pattern selects. A pattern behind `#` is one for tags.
pub open spec fn task_glob_query(glob: Seq<char>) -> Seq<char> {
    if glob.len() > 0 && glob[0] == '#' {
        "taskTag~"@ + glob.skip(1)
    } else {
        "task~"@ + glob
    }
}

/// The query for the tasks that a pattern selects, in some projects or in all.
pub open spec fn task_query(glob: Seq<char>, projects: Option<Seq<Seq<char>>>) -> Seq<char> {
    match projects {
        None => task_glob_query(glob),
        Some(ids) => "project=["@ + join_texts(ids, ","@) + "] && "@ + task_glob_query(glob),
    }
}

fn glob_query(glob: &str, tag: &str, name: &str) -> (query: String)
    ensures
        query@ == if glob@.len() > 0 && glob@[0] == '#' {
            tag@ + glob@.skip(1)
        } else {
            name@ + glob@
        },
{
    proof {
        reveal_strlit("#");
    }
    if text_begins_with(glob, "#") {
        assert(glob@[0] == "#"@[0]);
        let rest = crate::task::behind_first(glob);
        prefixed(tag, rest.as_str())
    } else {
        assert(!(glob@.len() > 0 && glob@[0] == '#')) by {
            if glob@.len() > 0 && glob@[0] == '#' {
                assert(glob@.subrange(0, 1) =~= "#"@);
            }
        }
        prefixed(name, glob)
    }
}

/// The query for the projects that a pattern selects.
pub fn query_for_projects(glob: &str) -> (query: String)
    ensures
        query@ == project_glob_query(glob@),
{
    glob_query(glob, "projectTag~", "project~")
}

/// The query for the tasks that a pattern selects, in some projects or in all.
pub fn query_for_tasks(glob: &str, projects: Option<&Vec<String>>) -> (query: String)
    ensures
        query@ == task_query(
            glob@,
            match projects {
                Some(ids) => Some(views(ids@)),
                None => None,
            },
        ),
{
    let tasks = glob_query(glob, "taskTag~", "task~");
    match projects {
        None => tasks,
        Some(ids) => {
            let list = join_all(ids, ",");
            assert(ids@.map_values(|p: String| p@) =~= views(ids@));
            let mut query = "project=[".to_owned();
            query.append(list.as_str());
            query.append("] && ");
            query.append(tasks.as_str());
            query
        },
    }
}

/// What has to be asked for before the tasks that a locator means are known.
pub enum PlanView {
    Nothing,
    Tasks { query: Seq<char> },
    TasksOfProjects { projects: Seq<char>, tasks: Seq<char> },
    Target(TargetView),
    OwnTarget(TaskSelector),
    DefaultTarget(Seq<char>),
}

/// What has to be asked for before the tasks that a locator means are known.
#[derive(Debug)]
pub enum LocatorPlan {
    /// It means no task.
    Nothing,
    /// The tasks that a query selects.
    Tasks { query: String },
    /// The tasks that a pattern selects in the projects that a query selects.
    TasksOfProjects { projects: String, tasks: String },
    /// The tasks of a target.
    Target(Target),
    /// A task of the project at the current path.
    OwnTarget(TargetTaskScope),
    /// A task of the default project.
    DefaultTarget(Id),
}

impl View for LocatorPlan {
    type V = PlanView;

    open spec fn view(&self) -> PlanView {
        match self {
            LocatorPlan::Nothing => PlanView::Nothing,
            LocatorPlan::Tasks { query } => PlanView::Tasks { query: query@ },
            LocatorPlan::TasksOfProjects { projects, tasks } => PlanView::TasksOfProjects {
                projects: projects@,
                tasks: tasks@,
            },
            LocatorPlan::Target(target) => PlanView::Target(target@),
            LocatorPlan::OwnTarget(task) => PlanView::OwnTarget(task@),
            LocatorPlan::DefaultTarget(task) => PlanView::DefaultTarget(task@),
        }
    }
}

/// What a locator means. Patterns without one for projects mean the tasks of all projects,
/// or nothing where they are limited otherwise.
pub open spec fn locator_plan(locator: LocatorView) -> PlanView {
    match locator {
        LocatorView::GlobMatch { project, project_glob, task_glob } => match project_glob {
            Some(glob) => PlanView::TasksOfProjects {
                projects: project_glob_query(glob),
                tasks: task_glob,
            },
            None => if project == Some(ProjectSelector::All) {
                PlanView::Tasks { query: task_query(task_glob, None) }
            } else {
                PlanView::Nothing
            },
        },
        LocatorView::Qualified(target) => if target.project is OwnSelf {
            PlanView::OwnTarget(target.task)
        } else {
            PlanView::Target(target)
        },
        LocatorView::DefaultProject(task) => PlanView::DefaultTarget(task),
    }
}

/// What has to be asked for before the tasks that a locator means are known.
pub fn plan_locator(locator: &TargetLocator) -> (plan: LocatorPlan)
    ensures
        plan@ == locator_plan(locator@),
{
    match locator {
        TargetLocator::GlobMatch { project, project_glob, task_glob } => match project_glob {
            Some(glob) => LocatorPlan::TasksOfProjects {
                projects: query_for_projects(glob.as_str()),
                tasks: task_glob.clone(),
            },
            None => match project {
                Some(TargetProjectScope::All) => LocatorPlan::Tasks {
                    query: query_for_tasks(task_glob.as_str(), None),
                },
                _ => LocatorPlan::Nothing,
            },
        },
        TargetLocator::Qualified(target) => match &target.project {
            TargetProjectScope::OwnSelf => LocatorPlan::OwnTarget(target.task.clone()),
            _ => LocatorPlan::Target(target.clone()),
        },
        TargetLocator::DefaultProject(task) => LocatorPlan::DefaultTarget(task.copy_key()),
    }
}

/// The target of a task in a project.
pub open spec fn target_in_project(project: Seq<char>, task: Seq<char>) -> Result<
    TargetView,
    ActionGraphFault,
> {
    match parse_scopes(project, task) {
        Some(target) => Ok(target),
        None => Err(ActionGraphFault::InvalidTarget { target: project + ":"@ + task }),
    }
}

/// The target of a task in a project.
pub fn target_for_project(project: &Id, task: &Id) -> (target: Result<Target, ActionGraphError>)
    ensures
        outcome(target) == target_in_project(project@, task@),
{
    match Target::new(project.as_str(), task.as_str()) {
        Ok(target) => Ok(target),
        Err(error) => Err(ActionGraphError::InvalidTarget { target: error.target }),
    }
}

/// The target of a task in the project at the current path. A tag names no single task.
pub fn own_target(project: &Id, task: &TargetTaskScope) -> (target: Result<Target, ActionGraphError>)
    ensures
        outcome(target) == match task@ {
            TaskSelector::Id(id) => target_in_project(project@, id),
            TaskSelector::Tag(_) => Err(ActionGraphFault::UnqualifiedTask),
        },
{
    match task {
        TargetTaskScope::Id(id) => target_for_project(project, id),
        TargetTaskScope::Tag(_) => Err(ActionGraphError::UnqualifiedTask),
    }
}

/// What was found outside the graphs for a locator.
pub struct AnswerView {
    pub all: Option<Seq<ProjectKeyView>>,
    pub projects: Seq<ProjectKeyView>,
    pub tasks: Seq<TaskKeyView>,
}

/// What was found outside the graphs for a locator.
#[derive(Debug)]
pub struct LocatorAnswer {
    /// The projects that the query of the run selects, where it has one.
    pub all: Option<Vec<ProjectKey>>,
    /// The projects that the query of the locator selects, or the project at the current path.
    pub projects: Vec<ProjectKey>,
    /// The tasks that the patterns of the locator select.
    pub tasks: Vec<TaskKey>,
}

impl View for LocatorAnswer {
    type V = AnswerView;

    open spec fn view(&self) -> AnswerView {
        AnswerView {
            all: match self.all {
                Some(keys) => Some(views(keys@)),
                None => None,
            },
            projects: views(self.projects@),
            tasks: views(self.tasks@),
        }
    }
}

/// The keys among some that belong to a source root.
pub open spec fn keys_of_source(keys: Seq<ProjectKeyView>, source: Seq<char>) -> Seq<ProjectKeyView>
    decreases keys.len(),
{
    if keys.len() == 0 {
        keys
    } else {
        let rest = keys_of_source(keys.drop_last(), source);
        if keys.last().source == source {
            rest.push(keys.last())
        } else {
            rest
        }
    }
}

/// The projects whose tasks a target means: all of the primary source root, or those that the
/// query of the run selects; the one that is named; or those that a query selects.
pub open spec fn target_projects(
    graph: ProjectGraphView,
    target: TargetView,
    answer: AnswerView,
) -> Result<Seq<ProjectKeyView>, ActionGraphFault> {
    match projects_meant(target) {
        Err(fault) => Err(fault),
        Ok(RequestView::All) => match answer.all {
            Some(keys) => Ok(keys),
            None => Ok(keys_of_source(graph.indexes, graph.context.registry.primary)),
        },
        Ok(RequestView::One(id)) => match get_project(graph, id) {
            Err(fault) => Err(ActionGraphFault::Project(fault)),
            Ok(project) => Ok(seq![key_of_project(project)]),
        },
        Ok(RequestView::Query(_)) => Ok(answer.projects),
    }
}

/// The tasks that a target means. A project that is named must have them.
pub open spec fn target_tasks(scene: SceneView, target: TargetView, answer: AnswerView) -> Result<
    Seq<TaskKeyView>,
    ActionGraphFault,
> {
    match target_projects(scene.projects, target, answer) {
        Err(fault) => Err(fault),
        Ok(projects) => tasks_of_projects(
            scene,
            projects,
            target.task,
            false,
            target.project is Id,
        ),
    }
}

/// The tasks that a task of a project of the primary source root means.
pub open spec fn task_in_project(
    scene: SceneView,
    project: Seq<char>,
    task: Seq<char>,
    answer: AnswerView,
) -> Result<Seq<TaskKeyView>, ActionGraphFault> {
    match target_in_project(project, task) {
        Err(fault) => Err(fault),
        Ok(target) => target_tasks(scene, target, answer),
    }
}

/// The default project.
pub open spec fn default_project(graph: ProjectGraphView) -> Option<ProjectView> {
    match graph.default_key {
        Some(key) => match get_project(graph, key.project) {
            Ok(project) => Some(project),
            Err(_) => None,
        },
        None => None,
    }
}

/// The tasks that a locator means, given what was found for it. Internal tasks are left out of
/// what patterns select, and where a pattern selects no project it selects no task.
pub open spec fn locator_tasks(scene: SceneView, locator: LocatorView, answer: AnswerView) -> Result<
    Seq<TaskKeyView>,
    ActionGraphFault,
> {
    match locator_plan(locator) {
        PlanView::Nothing => Ok(Seq::empty()),
        PlanView::Tasks { .. } => without_internal(scene.tasks, answer.tasks, false, false),
        PlanView::TasksOfProjects { .. } => if answer.projects.len() == 0 {
            Ok(Seq::empty())
        } else {
            without_internal(scene.tasks, answer.tasks, false, false)
        },
        PlanView::Target(target) => target_tasks(scene, target, answer),
        PlanView::OwnTarget(selector) => if answer.projects.len() == 0 {
            Err(ActionGraphFault::NoProjectAtPath)
        } else {
            match selector {
                TaskSelector::Tag(_) => Err(ActionGraphFault::UnqualifiedTask),
                TaskSelector::Id(task) => task_in_project(
                    scene,
                    answer.projects[0].project,
                    task,
                    answer,
                ),
            }
        },
        PlanView::DefaultTarget(task) => match default_project(scene.projects) {
            None => Err(ActionGraphFault::NoDefaultProjectForTask { task_id: task }),
            Some(project) => task_in_project(scene, project.id, task, answer),
        },
    }
}

/// The tasks that were found are tasks of the graph.
pub open spec fn answer_known(graph: TaskGraphView, answer: AnswerView) -> bool {
    tasks_known(graph, answer.tasks)
}

/// The tasks that several locators mean, given what was found for each.
pub open spec fn all_locator_tasks(
    scene: SceneView,
    locators: Seq<LocatorView>,
    answers: Seq<AnswerView>,
) -> Result<Seq<TaskKeyView>, ActionGraphFault>
    decreases locators.len(),
{
    if locators.len() == 0 {
        Ok(Seq::empty())
    } else {
        match all_locator_tasks(scene, locators.drop_last(), answers.drop_last()) {
            Err(fault) => Err(fault),
            Ok(rest) => match locator_tasks(scene, locators.last(), answers.last()) {
                Err(fault) => Err(fault),
                Ok(found) => Ok(rest + found),
            },
        }
    }
}

proof fn all_locator_tasks_stops(
    scene: SceneView,
    locators: Seq<LocatorView>,
    answers: Seq<AnswerView>,
    n: int,
)
    requires
        0 <= n <= locators.len(),
        locators.len() == answers.len(),
        all_locator_tasks(scene, locators.take(n), answers.take(n)) is Err,
    ensures
        all_locator_tasks(scene, locators, answers) == all_locator_tasks(
            scene,
            locators.take(n),
            answers.take(n),
        ),
    decreases locators.len(),
{
    if n == locators.len() {
        assert(locators.take(n) =~= locators);
        assert(answers.take(n) =~= answers);
    } else {
        assert(locators.drop_last().take(n) =~= locators.take(n));
        assert(answers.drop_last().take(n) =~= answers.take(n));
        all_locator_tasks_stops(scene, locators.drop_last(), answers.drop_last(), n);
    }
}

/// The tasks among some that may be run from outside.
fn leave_out_internal(graph: &TaskGraph, tasks: &Vec<TaskKey>) -> (kept: Vec<TaskKey>)
    requires
        tasks_known(graph@, views(tasks@)),
    ensures
        without_internal(graph@, views(tasks@), false, false) == Ok::<
            Seq<TaskKeyView>,
            ActionGraphFault,
        >(views(kept@)),
{
    let ghost all = views(tasks@);
    let mut kept: Vec<TaskKey> = Vec::new();
    let mut i: usize = 0;
    proof {
        assert(all.take(0) =~= Seq::empty());
        assert(views(kept@) =~= Seq::empty());
    }
    while i < tasks.len()
        invariant
            i <= tasks@.len(),
            all == views(tasks@),
            tasks_known(graph@, all),
            without_internal(graph@, all.take(i as int), false, false) == Ok::<
                Seq<TaskKeyView>,
                ActionGraphFault,
            >(views(kept@)),
        decreases tasks.len() - i,
    {
        let key = &tasks[i];
        proof {
            assert(all.take(i + 1).drop_last() =~= all.take(i as int));
            assert(all.take(i + 1).last() == key@);
            assert(graph@.nodes.dom().contains(all[i as int]));
        }
        let internal = match graph.nodes.get(key) {
            Some(node) => node.task.options.internal,
            None => false,
        };
        if !internal {
            kept.push(key.copy_key());
        }
        i = i + 1;
    }
    assert(all.take(i as int) =~= all);
    kept
}

/// The keys of the projects of the primary source root.
fn primary_projects(graph: &ProjectGraph) -> (keys: Vec<ProjectKey>)
    ensures
        views(keys@) == keys_of_source(graph@.indexes, graph@.context.registry.primary),
{
    let ghost all = graph@.indexes;
    let ghost source = graph@.context.registry.primary;
    let mut keys: Vec<ProjectKey> = Vec::new();
    let mut i: usize = 0;
    proof {
        assert(all.take(0) =~= Seq::empty());
        assert(views(keys@) =~= Seq::empty());
    }
    while i < graph.indexes.len()
        invariant
            i <= graph.indexes@.len(),
            all == views(graph.indexes@),
            source == graph@.context.registry.primary,
            views(keys@) == keys_of_source(all.take(i as int), source),
        decreases graph.indexes.len() - i,
    {
        let key = &graph.indexes[i];
        proof {
            assert(all.take(i + 1).drop_last() =~= all.take(i as int));
            assert(all.take(i + 1).last() == key@);
        }
        if key.source_id().same_key(graph.context.sources.primary_id()) {
            keys.push(key.copy_key());
        }
        i = i + 1;
    }
    assert(all.take(i as int) =~= all);
    keys
}

/// The project that is named, in the primary source root.
fn named_project(graph: &ProjectGraph, id: &Id) -> (keys: Result<Vec<ProjectKey>, ActionGraphError>)
    requires
        graph_valid(graph@),
    ensures
        match keys {
            Ok(keys) => get_project(graph@, id@) is Ok && views(keys@) == seq![
                key_of_project(get_project(graph@, id@)->Ok_0),
            ],
            Err(error) => get_project(graph@, id@) is Err && error@ == ActionGraphFault::Project(
                get_project(graph@, id@)->Err_0,
            ),
        },
{
    match graph.get(id.as_str()) {
        Err(error) => Err(ActionGraphError::Project(error)),
        Ok(project) => {
            let mut keys: Vec<ProjectKey> = Vec::new();
            keys.push(project.key());
            assert(views(keys@) =~= seq![key_of_project(project@)]);
            Ok(keys)
        },
    }
}

/// The tasks that a target means.
pub fn select_target(scene: &ActionScene, target: &Target, answer: &LocatorAnswer) -> (tasks: Result<
    Vec<TaskKey>,
    ActionGraphError,
>)
    requires
        scene_valid(scene@),
    ensures
        tasks_outcome(tasks) == target_tasks(scene@, target@, answer@),
{
    match project_request(target) {
        Err(error) => Err(error),
        Ok(ProjectRequest::All) => match &answer.all {
            Some(keys) => select_from_projects(scene, keys, &target.task, false, false),
            None => select_from_projects(
                scene,
                &primary_projects(&scene.projects),
                &target.task,
                false,
                false,
            ),
        },
        Ok(ProjectRequest::One(id)) => match named_project(&scene.projects, &id) {
            Err(error) => Err(error),
            Ok(keys) => select_from_projects(scene, &keys, &target.task, false, true),
        },
        Ok(ProjectRequest::Query(_)) => select_from_projects(
            scene,
            &answer.projects,
            &target.task,
            false,
            false,
        ),
    }
}

/// What a selection of tasks shows.
pub open spec fn tasks_outcome(tasks: Result<Vec<TaskKey>, ActionGraphError>) -> Result<
    Seq<TaskKeyView>,
    ActionGraphFault,
> {
    match tasks {
        Ok(tasks) => Ok(views(tasks@)),
        Err(error) => Err(error@),
    }
}

fn select_in_project(scene: &ActionScene, project: &Id, task: &Id, answer: &LocatorAnswer) -> (tasks:
    Result<Vec<TaskKey>, ActionGraphError>)
    requires
        scene_valid(scene@),
    ensures
        tasks_outcome(tasks) == task_in_project(scene@, project@, task@, answer@),
{
    match target_for_project(project, task) {
        Err(error) => Err(error),
        Ok(target) => select_target(scene, &target, answer),
    }
}

/// The tasks that a locator means, given what was found for it.
pub fn select_located(scene: &ActionScene, locator: &TargetLocator, answer: &LocatorAnswer) -> (tasks:
    Result<Vec<TaskKey>, ActionGraphError>)
    requires
        scene_valid(scene@),
        answer_known(scene@.tasks, answer@),
    ensures
        tasks_outcome(tasks) == locator_tasks(scene@, locator@, answer@),
{
    let nothing: Vec<TaskKey> = Vec::new();
    assert(views(nothing@) =~= Seq::empty());
    match plan_locator(locator) {
        LocatorPlan::Nothing => Ok(nothing),
        LocatorPlan::Tasks { .. } => Ok(leave_out_internal(&scene.tasks, &answer.tasks)),
        LocatorPlan::TasksOfProjects { .. } => if answer.projects.len() == 0 {
            Ok(nothing)
        } else {
            Ok(leave_out_internal(&scene.tasks, &answer.tasks))
        },
        LocatorPlan::Target(target) => select_target(scene, &target, answer),
        LocatorPlan::OwnTarget(selector) => {
            if answer.projects.len() == 0 {
                return Err(ActionGraphError::NoProjectAtPath);
            }
            match selector {
                TargetTaskScope::Tag(_) => Err(ActionGraphError::UnqualifiedTask),
                TargetTaskScope::Id(task) => select_in_project(
                    scene,
                    answer.projects[0].project_id(),
                    &task,
                    answer,
                ),
            }
        },
        LocatorPlan::DefaultTarget(task) => match scene.projects.get_default() {
            Err(_) => Err(
                ActionGraphError::NoDefaultProjectForTask { task_id: task.as_str().to_owned() },
            ),
            Ok(project) => select_in_project(scene, &project.id, &task, answer),
        },
    }
}

/// The tasks that several locators mean, given what was found for each.
pub fn select_all_located(
    scene: &ActionScene,
    locators: &Vec<TargetLocator>,
    answers: &Vec<LocatorAnswer>,
) -> (tasks: Result<Vec<TaskKey>, ActionGraphError>)
    requires
        scene_valid(scene@),
        locators@.len() == answers@.len(),
        forall|i: int|
            0 <= i < answers@.len() ==> answer_known(scene@.tasks, #[trigger] views(answers@)[i]),
    ensures
        tasks_outcome(tasks) == all_locator_tasks(scene@, views(locators@), views(answers@)),
{
    let ghost all = views(locators@);
    let ghost found_for = views(answers@);
    let mut tasks: Vec<TaskKey> = Vec::new();
    let mut i: usize = 0;
    proof {
        assert(all.take(0) =~= Seq::empty());
        assert(views(tasks@) =~= Seq::empty());
    }
    while i < locators.len()
        invariant
            i <= locators@.len(),
            locators@.len() == answers@.len(),
            scene_valid(scene@),
            all == views(locators@),
            found_for == views(answers@),
            forall|i: int|
                0 <= i < found_for.len() ==> answer_known(scene@.tasks, #[trigger] found_for[i]),
            all_locator_tasks(scene@, all.take(i as int), found_for.take(i as int)) == Ok::<
                Seq<TaskKeyView>,
                ActionGraphFault,
            >(views(tasks@)),
        decreases locators.len() - i,
    {
        proof {
            assert(all.take(i + 1).drop_last() =~= all.take(i as int));
            assert(all.take(i + 1).last() == locators@[i as int]@);
            assert(found_for.take(i + 1).drop_last() =~= found_for.take(i as int));
            assert(found_for.take(i + 1).last() == answers@[i as int]@);
            assert(answer_known(scene@.tasks, found_for[i as int]));
        }
        let found = match select_located(scene, &locators[i], &answers[i]) {
            Err(error) => {
                proof {
                    all_locator_tasks_stops(scene@, all, found_for, i + 1);
                }
                return Err(error);
            },
            Ok(found) => found,
        };
        let ghost before = views(tasks@);
        let mut j: usize = 0;
        while j < found.len()
            invariant
                j <= found@.len(),
                views(tasks@) =~= before + views(found@).take(j as int),
            decreases found.len() - j,
        {
            tasks.push(found[j].copy_key());
            j = j + 1;
        }
        assert(views(found@).take(j as int) =~= views(found@));
        i = i + 1;
    }
    proof {
        assert(all.take(i as int) =~= all);
        assert(found_for.take(i as int) =~= found_for);
    }
    Ok(tasks)
}

} // verus!
