//! The actions that run tasks, and those that tasks wait for.

use crate::action_node::{ActionNode, NodeView, SyncProjectNode};
use crate::action_scene::{scene_valid, switched_on, ActionScene, SceneView};
use crate::action_setup::{
    edges_stay_known, settles_all, sync_workspace_for, sync_workspace_step, told_all, Step, Steps,
};
use crate::action_state::{
    edges_known, link_all, place_of_node, required, settles, state_valid, told, with_node,
    ActionGraphError, ActionGraphFault, ActionGraphState, StateView,
};
use crate::affected::{DownstreamScope, RelationScope, UpstreamScope};
use crate::config::{key_of_project, Project};
use crate::graph::{neighbors, Direction};
use crate::keys::{ProjectKey, ProjectKeyView, TaskKey, TaskKeyView};
use crate::keyset::KeySet;
use crate::order::views;
use crate::project_graph::unexpanded;
use crate::project_queries::keys_at;
use crate::runtime::runtime_of;
use crate::table::{Duplicate, Key};
use vstd::prelude::*;

verus! {

broadcast use {crate::order::group_views, crate::table::value_views_insert};

/// How tasks are to run.
#[derive(Clone, Copy, PartialEq, Eq, Structural, Debug)]
pub struct RunRequirements {
    /// The run is in a CI environment.
    pub ci: bool,
    /// Tasks may choose not to run in CI.
    pub ci_check: bool,
    /// How far dependencies are run.
    pub dependencies: UpstreamScope,
    /// How far dependents are run.
    pub dependents: DownstreamScope,
    /// What is affected by relation only counts as affected.
    pub include_relations: bool,
    /// The whole run is interactive.
    pub interactive: bool,
    /// The number of this job.
    pub job: Option<usize>,
    /// The number of jobs.
    pub job_total: Option<usize>,
    /// What is not affected runs too.
    pub skip_affected: bool,
}

impl RunRequirements {
    /// All dependencies of what is affected run, and nothing else.
    pub open spec fn defaults(ci: bool) -> RunRequirements {
        RunRequirements {
            ci,
            ci_check: false,
            dependencies: RelationScope::Deep,
            dependents: RelationScope::Nothing,
            include_relations: false,
            interactive: false,
            job: None,
            job_total: None,
            skip_affected: false,
        }
    }

    /// All dependencies of what is affected run, and nothing else.
    pub fn new(ci: bool) -> (reqs: Self)
        ensures
            reqs == Self::defaults(ci),
    {
        RunRequirements {
            ci,
            ci_check: false,
            dependencies: RelationScope::Deep,
            dependents: RelationScope::Nothing,
            include_relations: false,
            interactive: false,
            job: None,
            job_total: None,
            skip_affected: false,
        }
    }
}

/// Whether relations are followed from a task that is some steps away.
pub open spec fn in_scope(scope: RelationScope, depth: nat) -> bool {
    match scope {
        RelationScope::Nothing => false,
        RelationScope::Direct => depth == 0,
        RelationScope::Deep => true,
    }
}

/// Whether a project counts as affected.
pub open spec fn project_affected(
    scene: SceneView,
    reqs: RunRequirements,
    key: ProjectKeyView,
) -> bool {
    match scene.affected {
        Some(marks) => reqs.skip_affected || if reqs.include_relations {
            marks.projects.contains(key)
        } else {
            marks.projects_alone.contains(key)
        },
        None => true,
    }
}

/// Whether a task counts as affected.
pub open spec fn task_affected(scene: SceneView, reqs: RunRequirements, key: TaskKeyView) -> bool {
    match scene.affected {
        Some(marks) => reqs.skip_affected || if reqs.include_relations {
            marks.tasks.contains(key)
        } else {
            marks.tasks_alone.contains(key)
        },
        None => true,
    }
}

/// How many projects are outside a set.
pub open spec fn open_projects(keys: Seq<ProjectKeyView>, cycle: Set<ProjectKeyView>) -> nat
    decreases keys.len(),
{
    if keys.len() == 0 {
        0
    } else if cycle.contains(keys.last()) {
        open_projects(keys.drop_last(), cycle)
    } else {
        open_projects(keys.drop_last(), cycle) + 1
    }
}

/// A set that takes in more leaves no more projects outside, and less where it takes in one
/// that was outside.
pub proof fn open_projects_shrink(
    keys: Seq<ProjectKeyView>,
    cycle: Set<ProjectKeyView>,
    key: ProjectKeyView,
)
    ensures
        open_projects(keys, cycle.insert(key)) <= open_projects(keys, cycle),
        keys.contains(key) && !cycle.contains(key) ==> open_projects(keys, cycle.insert(key))
            < open_projects(keys, cycle),
    decreases keys.len(),
{
    if keys.len() > 0 {
        open_projects_shrink(keys.drop_last(), cycle, key);
        if keys.contains(key) && keys.last() != key {
            let i = choose|i: int| 0 <= i < keys.len() && keys[i] == key;
            assert(keys.drop_last()[i] == key);
        }
    }
}

/// The keys of the projects that a project depends on.
pub open spec fn project_dependencies(scene: SceneView, key: ProjectKeyView) -> Seq<ProjectKeyView> {
    keys_at(
        scene.projects,
        neighbors(
            scene.projects.graph.edges,
            scene.projects.nodes[key].index,
            Direction::Outgoing,
        ),
    )
}

/// The synchronisation of a project, behind that of its workspace and of the projects that
/// it depends on. Projects that are being synchronised further out are passed over.
pub open spec fn sync_project_step(
    scene: SceneView,
    state: StateView,
    key: ProjectKeyView,
    reqs: RunRequirements,
    cycle: Set<ProjectKeyView>,
) -> Step
    decreases open_projects(scene.projects.indexes, cycle), 0nat, 0nat,
{
    if !switched_on(scene.options.sync_projects, key.project) || cycle.contains(key) {
        (state, Ok(None))
    } else {
        match runtime_of(scene.runtimes.entries, key.source) {
            Err(fault) => (state, Err(ActionGraphFault::Runtime(fault))),
            Ok(_) => if !project_affected(scene, reqs, key) {
                (state, Ok(None))
            } else {
                let (synced, workspace) = sync_workspace_step(scene, state, key.source);
                let node = NodeView::SyncProject { key };
                match workspace {
                    Err(fault) => (synced, Err(fault)),
                    Ok(workspace) => match place_of_node(synced.nodes, node) {
                        Some(index) => (synced, Ok(Some(index))),
                        None => {
                            let (added, index) = with_node(synced, node);
                            match index {
                                Ok(Some(index)) => {
                                    let (before, edges) =
                                        if scene.options.sync_project_dependencies
                                        && scene.projects.indexes.contains(key) {
                                        proof {
                                            open_projects_shrink(
                                                scene.projects.indexes,
                                                cycle,
                                                key,
                                            );
                                        }
                                        sync_dependencies(
                                            scene,
                                            added,
                                            index,
                                            project_dependencies(scene, key),
                                            reqs,
                                            cycle.insert(key),
                                        )
                                    } else {
                                        (added, Ok(Seq::empty()))
                                    };
                                    match edges {
                                        Err(fault) => (before, Err(fault)),
                                        Ok(edges) => {
                                            let (after, done) = link_all(
                                                before,
                                                index,
                                                required(seq![workspace] + edges),
                                            );
                                            match done {
                                                Ok(_) => (after, Ok(Some(index))),
                                                Err(fault) => (after, Err(fault)),
                                            }
                                        },
                                    }
                                },
                                _ => (added, index),
                            }
                        },
                    },
                }
            },
        }
    }
}

/// The synchronisation of the projects that another depends on, one after the other.
pub open spec fn sync_dependencies(
    scene: SceneView,
    state: StateView,
    index: usize,
    keys: Seq<ProjectKeyView>,
    reqs: RunRequirements,
    cycle: Set<ProjectKeyView>,
) -> Steps
    decreases open_projects(scene.projects.indexes, cycle), 1nat, keys.len(),
{
    if keys.len() == 0 {
        (state, Ok(Seq::empty()))
    } else {
        let (before, edges) = sync_dependencies(
            scene,
            state,
            index,
            keys.drop_last(),
            reqs,
            cycle,
        );
        match edges {
            Err(fault) => (before, Err(fault)),
            Ok(edges) => if cycle.contains(keys.last()) {
                (before, Ok(edges))
            } else {
                match unexpanded(scene.projects, keys.last()) {
                    Err(fault) => (before, Err(ActionGraphFault::Project(fault))),
                    Ok(project) => {
                        let (after, found) = sync_project_step(
                            scene,
                            before,
                            key_of_project(project),
                            reqs,
                            cycle,
                        );
                        match found {
                            Err(fault) => (after, Err(fault)),
                            Ok(found) => if found is Some && found->0 != index {
                                (after, Ok(edges.push(found)))
                            } else {
                                (after, Ok(edges))
                            },
                        }
                    },
                }
            },
        }
    }
}

proof fn sync_dependencies_stops(
    scene: SceneView,
    state: StateView,
    index: usize,
    keys: Seq<ProjectKeyView>,
    reqs: RunRequirements,
    cycle: Set<ProjectKeyView>,
    n: int,
)
    requires
        0 <= n <= keys.len(),
        sync_dependencies(scene, state, index, keys.take(n), reqs, cycle).1 is Err,
    ensures
        sync_dependencies(scene, state, index, keys, reqs, cycle) == sync_dependencies(
            scene,
            state,
            index,
            keys.take(n),
            reqs,
            cycle,
        ),
    decreases keys.len(),
{
    if n == keys.len() {
        assert(keys.take(n) =~= keys);
    } else {
        assert(keys.drop_last().take(n) =~= keys.take(n));
        sync_dependencies_stops(scene, state, index, keys.drop_last(), reqs, cycle, n);
    }
}

/// Whether a project counts as affected.
fn is_project_affected(scene: &ActionScene, reqs: &RunRequirements, key: &ProjectKey) -> (r: bool)
    ensures
        r == project_affected(scene@, *reqs, key@),
{
    match &scene.affected {
        Some(marks) => reqs.skip_affected || if reqs.include_relations {
            marks.projects.contains(key)
        } else {
            marks.projects_alone.contains(key)
        },
        None => true,
    }
}

/// Whether a task counts as affected.
pub fn is_task_affected(scene: &ActionScene, reqs: &RunRequirements, key: &TaskKey) -> (r: bool)
    ensures
        r == task_affected(scene@, *reqs, key@),
{
    match &scene.affected {
        Some(marks) => reqs.skip_affected || if reqs.include_relations {
            marks.tasks.contains(key)
        } else {
            marks.tasks_alone.contains(key)
        },
        None => true,
    }
}

/// Adds the synchronisation of a project.
pub fn internal_sync_project(
    scene: &ActionScene,
    state: &mut ActionGraphState,
    project: &Project,
    reqs: &RunRequirements,
    cycle: &KeySet<ProjectKey>,
) -> (index: Result<Option<usize>, ActionGraphError>)
    requires
        state_valid(old(state)@),
        scene_valid(scene@),
        scene@.projects.nodes.dom().contains(key_of_project(project@)),
    ensures
        (final(state)@, told(index)) == sync_project_step(
            scene@,
            old(state)@,
            key_of_project(project@),
            *reqs,
            cycle@,
        ),
        settles(old(state)@, final(state)@, told(index)),
    decreases open_projects(scene@.projects.indexes, cycle@), 0nat, 0nat,
{
    let key = project.key();
    if !scene.options.sync_projects.is_enabled(key.project_id()) || cycle.contains(&key) {
        return Ok(None);
    }
    if let Err(error) = scene.runtimes.get(key.source_id()) {
        return Err(ActionGraphError::Runtime(error));
    }
    if !is_project_affected(scene, reqs, &key) {
        return Ok(None);
    }
    let workspace: Option<usize> = match sync_workspace_for(scene, state, key.source_id()) {
        Err(error) => {
            return Err(error);
        },
        Ok(workspace) => workspace,
    };
    let node = ActionNode::sync_project(SyncProjectNode { project_key: key.copy_key() });
    if let Some(index) = state.get_index_from_node(&node) {
        return Ok(Some(index));
    }
    let inserted = state.insert_node(node);
    let index: usize = match inserted {
        Ok(Some(index)) => index,
        _ => {
            return inserted;
        },
    };
    let mut edges: Vec<Option<usize>> = Vec::new();
    edges.push(workspace);
    let ghost added = state@;
    if scene.options.sync_project_dependencies {
        let mut inner = cycle.duplicate();
        inner.insert(key.copy_key());
        proof {
            open_projects_shrink(scene@.projects.indexes, cycle@, key@);
        }
        let keys = scene.projects.dependencies_of(project);
        match sync_all(scene, state, index, &keys, reqs, &inner) {
            Err(error) => {
                return Err(error);
            },
            Ok(found) => {
                let mut i: usize = 0;
                while i < found.len()
                    invariant
                        i <= found@.len(),
                        edges@ =~= seq![workspace] + found@.take(i as int),
                    decreases found.len() - i,
                {
                    edges.push(found[i]);
                    i = i + 1;
                }
                assert(found@.take(i as int) =~= found@);
                proof {
                    assert(edges@ =~= seq![workspace] + found@);
                    assert forall|j: int| 0 <= j < edges@.len() && (#[trigger] edges@[j]) is Some implies
                        edges@[j]->0 < state@.nodes.len() by {
                        if j > 0 {
                            assert(edges@[j] == found@[j - 1]);
                        }
                    }
                }
            },
        }
    } else {
        assert(edges@ =~= seq![workspace] + Seq::<Option<usize>>::empty());
    }
    if let Err(error) = state.link_optional_requirements(index, edges) {
        return Err(error);
    }
    Ok(Some(index))
}

/// Adds the synchronisation of the projects that another depends on.
fn sync_all(
    scene: &ActionScene,
    state: &mut ActionGraphState,
    index: usize,
    keys: &Vec<ProjectKey>,
    reqs: &RunRequirements,
    cycle: &KeySet<ProjectKey>,
) -> (edges: Result<Vec<Option<usize>>, ActionGraphError>)
    requires
        state_valid(old(state)@),
        scene_valid(scene@),
    ensures
        (final(state)@, told_all(edges)) == sync_dependencies(
            scene@,
            old(state)@,
            index,
            views(keys@),
            *reqs,
            cycle@,
        ),
        settles_all(old(state)@, final(state)@, told_all(edges)),
    decreases open_projects(scene@.projects.indexes, cycle@), 1nat, keys@.len(),
{
    let ghost start = state@;
    let ghost list = views(keys@);
    let mut edges: Vec<Option<usize>> = Vec::new();
    let mut i: usize = 0;
    proof {
        assert(list.take(0) =~= Seq::empty());
        assert(edges@ =~= Seq::empty());
    }
    while i < keys.len()
        invariant
            i <= keys@.len(),
            start == old(state)@,
            scene_valid(scene@),
            list == views(keys@),
            state_valid(state@),
            start.nodes.is_prefix_of(state@.nodes),
            start.graph.edges.is_prefix_of(state@.graph.edges),
            edges_known(edges@, state@.nodes.len()),
            (state@, Ok::<Seq<Option<usize>>, ActionGraphFault>(edges@)) == sync_dependencies(
                scene@,
                start,
                index,
                list.take(i as int),
                *reqs,
                cycle@,
            ),
        decreases keys.len() - i,
    {
        proof {
            assert(list.take(i + 1).drop_last() =~= list.take(i as int));
            assert(list.take(i + 1).last() == keys@[i as int]@);
        }
        if !cycle.contains(&keys[i]) {
            match scene.projects.get_unexpanded_by_key(&keys[i]) {
                Err(error) => {
                    proof {
                        sync_dependencies_stops(scene@, start, index, list, *reqs, cycle@, i + 1);
                    }
                    return Err(ActionGraphError::Project(error));
                },
                Ok(project) => {
                    let ghost before = state@;
                    match internal_sync_project(scene, state, project, reqs, cycle) {
                        Err(error) => {
                            proof {
                                sync_dependencies_stops(
                                    scene@,
                                    start,
                                    index,
                                    list,
                                    *reqs,
                                    cycle@,
                                    i + 1,
                                );
                            }
                            return Err(error);
                        },
                        Ok(found) => {
                            proof {
                                edges_stay_known(
                                    edges@,
                                    before.nodes.len(),
                                    state@.nodes.len(),
                                    found,
                                );
                            }
                            if let Some(other) = found {
                                if other != index {
                                    edges.push(found);
                                }
                            }
                        },
                    }
                },
            }
        }
        i = i + 1;
    }
    assert(list.take(i as int) =~= list);
    Ok(edges)
}

/// Adds the synchronisation of a project.
pub fn sync_project(
    scene: &ActionScene,
    state: &mut ActionGraphState,
    project: &Project,
    reqs: &RunRequirements,
) -> (index: Result<Option<usize>, ActionGraphError>)
    requires
        state_valid(old(state)@),
        scene_valid(scene@),
        scene@.projects.nodes.dom().contains(key_of_project(project@)),
    ensures
        (final(state)@, told(index)) == sync_project_step(
            scene@,
            old(state)@,
            key_of_project(project@),
            *reqs,
            Set::empty(),
        ),
        settles(old(state)@, final(state)@, told(index)),
{
    internal_sync_project(scene, state, project, reqs, &KeySet::new())
}

} // verus!
