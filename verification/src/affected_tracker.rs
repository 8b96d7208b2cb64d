//! Tracking of what changed files affect across source roots.

use crate::affected::{
    is_related, linked_by, pair_views, relate_all, relate_pairs, related_pairs, state_of,
    take_state, AffectedState, Causes, DownstreamScope, RelationScope, StateView, UpstreamScope,
};
use crate::changed_files::{
    source_paths_rank, unknown_changes, ChangedFilesObservation, ImpactCompleteness,
    ObservationView,
};
use crate::changed_files_query::source_diagnostic;
use crate::fold::{fold, fold_end, fold_step};
use crate::graph::Direction;
use crate::keys::{ProjectKey, ProjectKeyView, TaskKey, TaskKeyView};
use crate::keyset::{sort_distinct, KeySet};
use crate::order::{arranged, ranked_arranges, sort_ranked, view_of, views};
use crate::path::{relative_components, RelativePath};
use crate::project_compose::{keys_in_order, ordered_keys};
use crate::project_graph::{ProjectGraph, ProjectGraphView};
use crate::project_queries::graph_valid;
use crate::source::{SourcePathBuf, SourcePathView, SourceRegistry, SourceRootId};
use crate::table::{value_views, Duplicate, Table};
use crate::task::{TaskOptionRunInCI, TaskView};
use crate::task_compose::ordered_task_keys;
use crate::task_graph::{task_graph_valid, TaskGraph, TaskGraphView};
use crate::text::join_two;
use std::sync::Arc;
use vstd::prelude::*;
use vstd::seq_lib::lemma_seq_contains_after_push;

verus! {

broadcast use {crate::order::group_views, crate::table::value_views_insert};

/// Why a project is affected by itself.
pub struct ProjectCausesView {
    pub files: Set<SourcePathView>,
    pub tasks: Set<TaskKeyView>,
    pub other: bool,
}

/// Why a project is affected by itself.
#[derive(Debug)]
pub struct ProjectCauses {
    pub files: KeySet<SourcePathBuf>,
    pub tasks: KeySet<TaskKey>,
    pub other: bool,
}

impl View for ProjectCauses {
    type V = ProjectCausesView;

    open spec fn view(&self) -> ProjectCausesView {
        ProjectCausesView { files: self.files@, tasks: self.tasks@, other: self.other }
    }
}

impl Causes for ProjectCauses {
    open spec fn none() -> ProjectCausesView {
        ProjectCausesView { files: Set::empty(), tasks: Set::empty(), other: false }
    }

    fn empty() -> Self {
        ProjectCauses { files: KeySet::new(), tasks: KeySet::new(), other: false }
    }
}

impl Duplicate for ProjectCauses {
    fn duplicate(&self) -> Self {
        ProjectCauses {
            files: self.files.duplicate(),
            tasks: self.tasks.duplicate(),
            other: self.other,
        }
    }
}

/// Why a task is affected by itself.
pub struct TaskCausesView {
    pub env: Set<Seq<char>>,
    pub files: Set<SourcePathView>,
    pub other: bool,
}

/// Why a task is affected by itself.
#[derive(Debug)]
pub struct TaskCauses {
    pub env: KeySet<String>,
    pub files: KeySet<SourcePathBuf>,
    pub other: bool,
}

impl View for TaskCauses {
    type V = TaskCausesView;

    open spec fn view(&self) -> TaskCausesView {
        TaskCausesView { env: self.env@, files: self.files@, other: self.other }
    }
}

impl Causes for TaskCauses {
    open spec fn none() -> TaskCausesView {
        TaskCausesView { env: Set::empty(), files: Set::empty(), other: false }
    }

    fn empty() -> Self {
        TaskCauses { env: KeySet::new(), files: KeySet::new(), other: false }
    }
}

impl Duplicate for TaskCauses {
    fn duplicate(&self) -> Self {
        TaskCauses {
            env: self.env.duplicate(),
            files: self.files.duplicate(),
            other: self.other,
        }
    }
}

/// Why a project is affected.
pub type AggregateAffectedProjectState = AffectedState<ProjectKey, ProjectCauses>;

/// Why a task is affected.
pub type AggregateAffectedTaskState = AffectedState<TaskKey, TaskCauses>;

/// The states of projects.
pub type ProjectStates = Map<ProjectKeyView, StateView<ProjectKeyView, ProjectCausesView>>;

/// The states of tasks.
pub type TaskStates = Map<TaskKeyView, StateView<TaskKeyView, TaskCausesView>>;

/// What is affected across all source roots.
pub struct AffectedView {
    pub completeness: ImpactCompleteness,
    pub diagnostics: Seq<Seq<char>>,
    pub projects: ProjectStates,
    pub should_check: bool,
    pub tasks: TaskStates,
}

/// What is affected across all source roots.
#[derive(Debug)]
pub struct AggregateAffected {
    pub completeness: ImpactCompleteness,
    pub diagnostics: Vec<String>,
    pub projects: Table<ProjectKey, AggregateAffectedProjectState>,
    pub should_check: bool,
    pub tasks: Table<TaskKey, AggregateAffectedTaskState>,
}

impl View for AggregateAffected {
    type V = AffectedView;

    open spec fn view(&self) -> AffectedView {
        AffectedView {
            completeness: self.completeness,
            diagnostics: views(self.diagnostics@),
            projects: value_views(self.projects@),
            should_check: self.should_check,
            tasks: value_views(self.tasks@),
        }
    }
}

impl AggregateAffected {
    /// Whether a project is affected.
    pub fn is_project_affected(&self, key: &ProjectKey) -> (r: bool)
        ensures
            r == (self@.should_check && self@.projects.dom().contains(key@)),
    {
        self.should_check && self.projects.contains(key)
    }

    /// Whether a task is affected.
    pub fn is_task_affected(&self, key: &TaskKey) -> (r: bool)
        ensures
            r == (self@.should_check && self@.tasks.dom().contains(key@)),
    {
        self.should_check && self.tasks.contains(key)
    }
}

/// The graphs of a workspace: of one source root, or of all of them.
pub struct WorkspaceGraph {
    pub projects: Arc<ProjectGraph>,
    pub tasks: Arc<TaskGraph>,
    pub sources: SourceRegistry,
    pub aggregate: bool,
}

/// What is known of the changes of each source root.
pub type Observations = Map<Seq<char>, ObservationView<SourcePathView>>;

/// The reason where nothing was reported of a source root.
pub open spec fn missing_reason() -> Seq<char> {
    "No changed-file observation was returned."@
}

/// What is known of every source root; where nothing was reported, nothing is known.
pub open spec fn complete_observations(known: Observations, sources: Set<Seq<char>>) -> Observations {
    Map::new(
        |id: Seq<char>| known.dom().contains(id) || sources.contains(id),
        |id: Seq<char>|
            if known.dom().contains(id) {
                known[id]
            } else {
                unknown_changes(missing_reason())
            },
    )
}

/// Some source root is known this well.
pub open spec fn some_source_is(known: Observations, completeness: ImpactCompleteness) -> bool {
    exists|id: Seq<char>| #[trigger]
        known.dom().contains(id) && known[id].completeness == completeness
}

/// How well the changes are known in the source root where they are known worst.
pub open spec fn worst_known(known: Observations) -> ImpactCompleteness {
    if some_source_is(known, ImpactCompleteness::Unavailable) {
        ImpactCompleteness::Unavailable
    } else if some_source_is(known, ImpactCompleteness::Conservative) {
        ImpactCompleteness::Conservative
    } else {
        ImpactCompleteness::Exact
    }
}

/// A text is a diagnostic of a source root.
pub open spec fn is_diagnostic(known: Observations, text: Seq<char>) -> bool {
    exists|id: Seq<char>, i: int|
        known.dom().contains(id) && 0 <= i < known[id].diagnostics.len() && text
            == #[trigger] source_diagnostic(id, known[id].diagnostics[i])
}

/// All diagnostics, in order and each once.
pub open spec fn all_diagnostics(known: Observations) -> Seq<Seq<char>> {
    arranged::<String>(Set::new(|text: Seq<char>| is_diagnostic(known, text)))
}

/// What a tracker holds.
pub struct TrackerView {
    pub ci: bool,
    pub projects: ProjectGraphView,
    pub tasks: TaskGraphView,
    pub observations: Observations,
    pub affected: AffectedView,
    pub project_downstream: DownstreamScope,
    pub project_upstream: UpstreamScope,
    pub task_downstream: DownstreamScope,
    pub task_upstream: UpstreamScope,
}

/// Tracks what changed files affect across source roots.
pub struct AggregateAffectedTracker {
    pub ci: bool,
    pub projects: Arc<ProjectGraph>,
    pub tasks: Arc<TaskGraph>,
    pub observations: Table<SourceRootId, ChangedFilesObservation<SourcePathBuf>>,
    pub affected: AggregateAffected,
    pub project_downstream: DownstreamScope,
    pub project_upstream: UpstreamScope,
    pub task_downstream: DownstreamScope,
    pub task_upstream: UpstreamScope,
}

impl View for AggregateAffectedTracker {
    type V = TrackerView;

    open spec fn view(&self) -> TrackerView {
        TrackerView {
            ci: self.ci,
            projects: self.projects@,
            tasks: self.tasks@,
            observations: value_views(self.observations@),
            affected: self.affected@,
            project_downstream: self.project_downstream,
            project_upstream: self.project_upstream,
            task_downstream: self.task_downstream,
            task_upstream: self.task_upstream,
        }
    }
}

/// The graphs of one source root were given where those of all are needed.
#[derive(Debug)]
pub struct NotAggregate;

/// Puts together what is known of all source roots.
fn fill_observations(
    observations: &mut Table<SourceRootId, ChangedFilesObservation<SourcePathBuf>>,
    sources: &SourceRegistry,
)
    ensures
        value_views(final(observations)@) == complete_observations(
            value_views(old(observations)@),
            sources@.roots.dom(),
        ),
{
    let n: usize = sources.len();
    let ghost ids = sources.ids();
    let ghost before = value_views(observations@);
    let mut i: usize = 0;
    assert(complete_observations(before, ids.take(0).to_set()) =~= before);
    while i < n
        invariant
            n == sources.ids().len(),
            ids == sources.ids(),
            i <= n,
            value_views(observations@) == complete_observations(
                before,
                ids.take(i as int).to_set(),
            ),
        decreases n - i,
    {
        let id = sources.id_at(i);
        let ghost taken = ids.take(i as int);
        let ghost known = value_views(observations@);
        proof {
            assert(ids.take(i + 1) =~= taken.push(id@));
            assert forall|x: Seq<char>| #[trigger] ids.take(i + 1).to_set().contains(x)
                <==> taken.to_set().contains(x) || x == id@ by {
                lemma_seq_contains_after_push(taken, id@, x);
            }
        }
        if !observations.contains(id) {
            observations.insert(
                id.clone(),
                ChangedFilesObservation::unavailable("No changed-file observation was returned."),
            );
        }
        proof {
            let expected = complete_observations(before, ids.take(i + 1).to_set());
            let after = value_views(observations@);
            assert forall|x: Seq<char>| after.dom().contains(x) <==> expected.dom().contains(x) by {
                assert(ids.take(i + 1).to_set().contains(x) <==> taken.to_set().contains(x) || x
                    == id@);
                assert(known.dom().contains(x) <==> before.dom().contains(x)
                    || taken.to_set().contains(x));
                assert(known.dom().contains(id@) <==> before.dom().contains(id@)
                    || taken.to_set().contains(id@));
            }
            assert forall|x: Seq<char>| after.dom().contains(x) implies #[trigger] after[x]
                == expected[x] by {
                if known.dom().contains(x) {
                    assert(after[x] == known[x]);
                    assert(known[x] == complete_observations(before, taken.to_set())[x]);
                } else {
                    assert(x == id@);
                    assert(!before.dom().contains(x));
                }
            }
            assert(after =~= expected);
        }
        i = i + 1;
    }
    proof {
        assert(ids.take(i as int) =~= ids);
        assert(ids.to_set() =~= sources@.roots.dom());
    }
}

/// How well the changes are known, and all diagnostics.
fn summarize(observations: &Table<SourceRootId, ChangedFilesObservation<SourcePathBuf>>) -> (summary: (
    ImpactCompleteness,
    Vec<String>,
))
    ensures
        summary.0 == worst_known(value_views(observations@)),
        views((summary.1)@) == all_diagnostics(value_views(observations@)),
{
    let n: usize = observations.len();
    let ghost ids = observations.keys();
    let ghost known = value_views(observations@);
    let mut unavailable = false;
    let mut conservative = false;
    let mut texts: Vec<String> = Vec::new();
    let mut i: usize = 0;
    while i < n
        invariant
            n == observations.keys().len(),
            ids == observations.keys(),
            known == value_views(observations@),
            i <= n,
            unavailable == (exists|j: int|
                0 <= j < i && known[#[trigger] ids[j]].completeness
                    == ImpactCompleteness::Unavailable),
            conservative == (exists|j: int|
                0 <= j < i && known[#[trigger] ids[j]].completeness
                    == ImpactCompleteness::Conservative),
            forall|text: Seq<char>| #[trigger]
                views(texts@).contains(text) <==> exists|j: int, k: int|
                    0 <= j < i && 0 <= k < known[ids[j]].diagnostics.len() && text
                        == #[trigger] source_diagnostic(ids[j], known[ids[j]].diagnostics[k]),
        decreases n - i,
    {
        let id = observations.key_at(i);
        let observation = observations.value_at(i);
        assert(known[ids[i as int]] == observation@);
        if observation.completeness == ImpactCompleteness::Unavailable {
            unavailable = true;
        }
        if observation.completeness == ImpactCompleteness::Conservative {
            conservative = true;
        }
        let ghost diagnostics = observation@.diagnostics;
        let ghost before = views(texts@);
        let mut k: usize = 0;
        while k < observation.diagnostics.len()
            invariant
                k <= observation.diagnostics@.len(),
                diagnostics == views(observation.diagnostics@),
                forall|text: Seq<char>| #[trigger]
                    views(texts@).contains(text) <==> before.contains(text) || exists|m: int|
                        0 <= m < k && text == #[trigger] source_diagnostic(id@, diagnostics[m]),
            decreases observation.diagnostics.len() - k,
        {
            let text = join_two(id.as_str(), ": ", observation.diagnostics[k].as_str());
            let ghost inner = views(texts@);
            let ghost added = text@;
            assert(added == source_diagnostic(id@, diagnostics[k as int]));
            texts.push(text);
            proof {
                assert forall|x: Seq<char>| #[trigger] views(texts@).contains(x)
                    <==> before.contains(x) || exists|m: int|
                    0 <= m < k + 1 && x == #[trigger] source_diagnostic(id@, diagnostics[m]) by {
                    lemma_seq_contains_after_push(inner, added, x);
                    if inner.contains(x) && !before.contains(x) {
                        let m = choose|m: int|
                            0 <= m < k && x == #[trigger] source_diagnostic(id@, diagnostics[m]);
                        assert(x == source_diagnostic(id@, diagnostics[m]));
                    }
                }
            }
            k = k + 1;
        }
        proof {
            assert forall|text: Seq<char>| #[trigger] views(texts@).contains(text) <==> exists|
                j: int,
                m: int,
            |
                0 <= j < i + 1 && 0 <= m < known[ids[j]].diagnostics.len() && text
                    == #[trigger] source_diagnostic(ids[j], known[ids[j]].diagnostics[m]) by {
                if before.contains(text) {
                    let (j, m) = choose|j: int, m: int|
                        0 <= j < i && 0 <= m < known[ids[j]].diagnostics.len() && text
                            == #[trigger] source_diagnostic(ids[j], known[ids[j]].diagnostics[m]);
                    assert(text == source_diagnostic(ids[j], known[ids[j]].diagnostics[m]));
                } else if views(texts@).contains(text) {
                    let m = choose|m: int|
                        0 <= m < k && text == #[trigger] source_diagnostic(id@, diagnostics[m]);
                    assert(text == source_diagnostic(
                        ids[i as int],
                        known[ids[i as int]].diagnostics[m],
                    ));
                }
                if exists|j: int, m: int|
                    0 <= j < i + 1 && 0 <= m < known[ids[j]].diagnostics.len() && text
                        == #[trigger] source_diagnostic(ids[j], known[ids[j]].diagnostics[m]) {
                    let (j, m) = choose|j: int, m: int|
                        0 <= j < i + 1 && 0 <= m < known[ids[j]].diagnostics.len() && text
                            == #[trigger] source_diagnostic(ids[j], known[ids[j]].diagnostics[m]);
                    if j == i {
                        assert(text == source_diagnostic(id@, diagnostics[m]));
                    }
                }
            }
        }
        i = i + 1;
    }
    proof {
        assert forall|c: ImpactCompleteness|
            (exists|j: int| 0 <= j < i && known[#[trigger] ids[j]].completeness == c)
                <==> some_source_is(known, c) by {
            if exists|j: int| 0 <= j < i && known[#[trigger] ids[j]].completeness == c {
                let j = choose|j: int| 0 <= j < i && known[#[trigger] ids[j]].completeness == c;
                assert(observations@.dom().contains(ids[j]));
                assert(known.dom().contains(ids[j]));
            }
            if some_source_is(known, c) {
                let id = choose|id: Seq<char>| #[trigger]
                    known.dom().contains(id) && known[id].completeness == c;
                assert(observations@.dom().contains(id));
                assert(ids.contains(id));
                let j = choose|j: int| 0 <= j < ids.len() && ids[j] == id;
                assert(known[ids[j]].completeness == c);
            }
        }
        let set = Set::new(|text: Seq<char>| is_diagnostic(known, text));
        assert forall|text: Seq<char>| views(texts@).to_set().contains(text)
            <==> set.contains(text) by {
            assert(views(texts@).to_set().contains(text) <==> views(texts@).contains(text));
            if views(texts@).contains(text) {
                let (j, m) = choose|j: int, m: int|
                    0 <= j < i && 0 <= m < known[ids[j]].diagnostics.len() && text
                        == #[trigger] source_diagnostic(ids[j], known[ids[j]].diagnostics[m]);
                assert(observations@.dom().contains(ids[j]));
                assert(text == source_diagnostic(ids[j], known[ids[j]].diagnostics[m]));
            }
            if is_diagnostic(known, text) {
                let (id, m) = choose|id: Seq<char>, m: int|
                    known.dom().contains(id) && 0 <= m < known[id].diagnostics.len() && text
                        == #[trigger] source_diagnostic(id, known[id].diagnostics[m]);
                assert(observations@.dom().contains(id));
                assert(ids.contains(id));
                let j = choose|j: int| 0 <= j < ids.len() && ids[j] == id;
                assert(text == source_diagnostic(ids[j], known[ids[j]].diagnostics[m]));
            }
        }
        assert(views(texts@).to_set() =~= set);
    }
    let completeness = if unavailable {
        ImpactCompleteness::Unavailable
    } else if conservative {
        ImpactCompleteness::Conservative
    } else {
        ImpactCompleteness::Exact
    };
    (completeness, sort_distinct(&texts))
}

/// A tracker that has looked at nothing yet.
pub open spec fn fresh_tracker(
    projects: ProjectGraphView,
    tasks: TaskGraphView,
    observations: Observations,
    roots: Set<Seq<char>>,
) -> TrackerView {
    let known = complete_observations(observations, roots);
    TrackerView {
        ci: false,
        projects,
        tasks,
        observations: known,
        affected: AffectedView {
            completeness: worst_known(known),
            diagnostics: all_diagnostics(known),
            projects: Map::empty(),
            should_check: false,
            tasks: Map::empty(),
        },
        project_downstream: RelationScope::Nothing,
        project_upstream: RelationScope::Deep,
        task_downstream: RelationScope::Nothing,
        task_upstream: RelationScope::Deep,
    }
}

impl AggregateAffectedTracker {
    /// A tracker for what is known of the changes of the source roots. It needs the
    /// graphs of all source roots.
    pub fn new(
        workspace_graph: &WorkspaceGraph,
        observations: Table<SourceRootId, ChangedFilesObservation<SourcePathBuf>>,
    ) -> (tracker: Result<Self, NotAggregate>)
        ensures
            match tracker {
                Err(_) => !workspace_graph.aggregate,
                Ok(tracker) => {
                    &&& workspace_graph.aggregate
                    &&& tracker@ == fresh_tracker(
                        workspace_graph.projects@,
                        workspace_graph.tasks@,
                        value_views(observations@),
                        workspace_graph.sources@.roots.dom(),
                    )
                },
            },
    {
        if !workspace_graph.aggregate {
            return Err(NotAggregate);
        }
        let mut observations = observations;
        fill_observations(&mut observations, &workspace_graph.sources);
        let (completeness, diagnostics) = summarize(&observations);
        proof {
            crate::table::value_views_empty::<ProjectKeyView, AggregateAffectedProjectState>();
            crate::table::value_views_empty::<TaskKeyView, AggregateAffectedTaskState>();
        }
        Ok(
            AggregateAffectedTracker {
                ci: false,
                projects: Arc::clone(&workspace_graph.projects),
                tasks: Arc::clone(&workspace_graph.tasks),
                observations,
                affected: AggregateAffected {
                    completeness,
                    diagnostics,
                    projects: Table::new(),
                    should_check: false,
                    tasks: Table::new(),
                },
                project_downstream: RelationScope::Nothing,
                project_upstream: RelationScope::Deep,
                task_downstream: RelationScope::Nothing,
                task_upstream: RelationScope::Deep,
            },
        )
    }

    /// Sets whether tasks are looked at as in continuous integration.
    pub fn set_ci_check(&mut self, ci: bool)
        ensures
            final(self)@ == (TrackerView { ci, ..old(self)@ }),
    {
        self.ci = ci;
    }

    /// Sets how far the relations of projects are followed.
    pub fn set_project_scopes(&mut self, upstream: UpstreamScope, downstream: DownstreamScope)
        ensures
            final(self)@ == (TrackerView {
                project_upstream: upstream,
                project_downstream: downstream,
                ..old(self)@
            }),
    {
        self.project_upstream = upstream;
        self.project_downstream = downstream;
    }

    /// Sets how far the relations of tasks are followed.
    pub fn set_task_scopes(&mut self, upstream: UpstreamScope, downstream: DownstreamScope)
        ensures
            final(self)@ == (TrackerView {
                task_upstream: upstream,
                task_downstream: downstream,
                ..old(self)@
            }),
    {
        self.task_upstream = upstream;
        self.task_downstream = downstream;
    }

    /// Sets how far the relations of projects and tasks are followed.
    pub fn set_scopes(&mut self, upstream: UpstreamScope, downstream: DownstreamScope)
        ensures
            final(self)@ == (TrackerView {
                project_upstream: upstream,
                project_downstream: downstream,
                task_upstream: upstream,
                task_downstream: downstream,
                ..old(self)@
            }),
    {
        self.set_project_scopes(upstream, downstream);
        self.set_task_scopes(upstream, downstream);
    }
}

/// Some source root has changes, or they are not known exactly.
pub open spec fn has_changes(known: Observations) -> bool {
    exists|id: Seq<char>| #[trigger]
        known.dom().contains(id) && (known[id].completeness != ImpactCompleteness::Exact
            || known[id].files.dom().len() > 0)
}

/// What a tracker found so far. Nothing needs to be checked where no source root has changes.
pub open spec fn affected_so_far(tracker: TrackerView) -> AffectedView {
    AffectedView { should_check: has_changes(tracker.observations), ..tracker.affected }
}

impl AggregateAffectedTracker {
    /// Whether some source root has changes, or they are not known exactly.
    pub fn needs_check(&self) -> (check: bool)
        ensures
            check == has_changes(self@.observations),
    {
        let n: usize = self.observations.len();
        let ghost ids = self.observations.keys();
        let ghost known = self@.observations;
        let mut check = false;
        let mut i: usize = 0;
        while i < n
            invariant
                n == self.observations.keys().len(),
                ids == self.observations.keys(),
                known == value_views(self.observations@),
                forall|id: Seq<char>|
                    self.observations@.dom().contains(id) <==> #[trigger] ids.contains(id),
                i <= n,
                check == (exists|j: int|
                    0 <= j < i && (known[#[trigger] ids[j]].completeness
                        != ImpactCompleteness::Exact || known[ids[j]].files.dom().len() > 0)),
            decreases n - i,
        {
            let observation = self.observations.value_at(i);
            assert(known[ids[i as int]] == observation@);
            assert(observation@.files.dom() =~= observation.files@.dom());
            if observation.completeness != ImpactCompleteness::Exact || observation.files.len() > 0 {
                check = true;
            }
            i = i + 1;
        }
        proof {
            if check {
                let j = choose|j: int|
                    0 <= j < i && (known[#[trigger] ids[j]].completeness
                        != ImpactCompleteness::Exact || known[ids[j]].files.dom().len() > 0);
                assert(ids.contains(ids[j]));
                assert(self.observations@.dom().contains(ids[j]));
                assert(known.dom().contains(ids[j]));
            }
            if has_changes(known) {
                let id = choose|id: Seq<char>| #[trigger]
                    known.dom().contains(id) && (known[id].completeness
                        != ImpactCompleteness::Exact || known[id].files.dom().len() > 0);
                assert(self.observations@.dom().contains(id));
                assert(ids.contains(id));
                let j = choose|j: int| 0 <= j < ids.len() && ids[j] == id;
                assert(known[ids[j]] == known[id]);
            }
        }
        check
    }

    /// What is affected. Nothing needs to be checked where no source root has changes.
    pub fn build(self) -> (affected: AggregateAffected)
        ensures
            affected@ == affected_so_far(self@),
    {
        let check = self.needs_check();
        let mut affected = self.affected;
        affected.should_check = check;
        affected
    }
}

/// Why a project is affected by itself.
pub enum ProjectCause {
    File(SourcePathView),
    Unavailable,
}

/// Why a project is affected by itself.
#[derive(Debug)]
enum ProjectReason {
    File(SourcePathBuf),
    Unavailable,
}

impl View for ProjectReason {
    type V = ProjectCause;

    closed spec fn view(&self) -> ProjectCause {
        match self {
            ProjectReason::File(file) => ProjectCause::File(file@),
            ProjectReason::Unavailable => ProjectCause::Unavailable,
        }
    }
}

/// Why a task is affected by itself.
pub enum TaskCause {
    Env(Seq<char>),
    File(SourcePathView),
    Unavailable,
}

/// Why a task is affected by itself.
#[derive(Debug)]
enum TaskReason {
    Env(String),
    File(SourcePathBuf),
    Unavailable,
}

impl View for TaskReason {
    type V = TaskCause;

    closed spec fn view(&self) -> TaskCause {
        match self {
            TaskReason::Env(name) => TaskCause::Env(name@),
            TaskReason::File(file) => TaskCause::File(file@),
            TaskReason::Unavailable => TaskCause::Unavailable,
        }
    }
}

/// The first item that has a property.
pub open spec fn first_where<T>(items: Seq<T>, holds: spec_fn(T) -> bool) -> Option<T>
    decreases items.len(),
{
    if items.len() == 0 {
        None
    } else if holds(items[0]) {
        Some(items[0])
    } else {
        first_where(items.skip(1), holds)
    }
}

/// The first changed file, in order, that has a property.
pub open spec fn first_file<S>(
    files: Map<SourcePathView, S>,
    holds: spec_fn(SourcePathView) -> bool,
) -> Option<SourcePathView> {
    first_where(arranged::<SourcePathBuf>(files.dom()), holds)
}

/// The project is at the root of its source root.
pub open spec fn is_root_level(source: Seq<char>) -> bool {
    source.len() == 0 || source == "."@
}

/// A changed file belongs to a project: any file that is not hidden where the project
/// is at the root of its source root, and the files below it otherwise.
pub open spec fn belongs_to(source: Seq<char>) -> spec_fn(SourcePathView) -> bool {
    |file: SourcePathView|
        if is_root_level(source) {
            !(file.path.len() > 0 && file.path[0] == '.')
        } else {
            relative_components(source).is_prefix_of(relative_components(file.path))
        }
}

/// Why a project is affected by itself, if it is.
pub open spec fn project_cause(
    projects: ProjectGraphView,
    observations: Observations,
    key: ProjectKeyView,
) -> Option<ProjectCause> {
    if !observations.dom().contains(key.source) {
        None
    } else if observations[key.source].completeness == ImpactCompleteness::Unavailable {
        Some(ProjectCause::Unavailable)
    } else {
        match first_file(
            observations[key.source].files,
            belongs_to(projects.nodes[key].project.source),
        ) {
            Some(file) => Some(ProjectCause::File(file)),
            None => None,
        }
    }
}

/// Two projects are related along a direction from a project.
pub open spec fn projects_linked(
    projects: ProjectGraphView,
    key: ProjectKeyView,
    direction: Direction,
    scope: RelationScope,
) -> spec_fn(ProjectKeyView, ProjectKeyView) -> bool {
    |from: ProjectKeyView, to: ProjectKeyView|
        exists|a: usize, b: usize|
            a < projects.indexes.len() && b < projects.indexes.len() && #[trigger] is_related(
                projects.graph.edges,
                projects.nodes[key].index,
                direction,
                scope,
                a,
                b,
            ) && projects.indexes[a as int] == from && projects.indexes[b as int] == to
}

/// The states with a project that is affected by itself, before its relations.
pub open spec fn cause_project(
    states: ProjectStates,
    key: ProjectKeyView,
    cause: ProjectCause,
) -> ProjectStates {
    let state = state_of::<ProjectKey, ProjectCauses>(states, key);
    states.insert(
        key,
        StateView {
            causes: match cause {
                ProjectCause::File(file) => ProjectCausesView {
                    files: state.causes.files.insert(file),
                    ..state.causes
                },
                ProjectCause::Unavailable => ProjectCausesView { other: true, ..state.causes },
            },
            ..state
        },
    )
}

/// The states with the projects that a project is related to.
pub open spec fn relate_project(
    tracker: TrackerView,
    states: ProjectStates,
    key: ProjectKeyView,
) -> ProjectStates {
    relate_all::<ProjectKey, ProjectCauses>(
        relate_all::<ProjectKey, ProjectCauses>(
            states,
            true,
            projects_linked(
                tracker.projects,
                key,
                Direction::Outgoing,
                tracker.project_upstream,
            ),
        ),
        false,
        projects_linked(tracker.projects, key, Direction::Incoming, tracker.project_downstream),
    )
}

/// One more project that is looked at.
pub open spec fn track_project(tracker: TrackerView) -> spec_fn(
    ProjectStates,
    ProjectKeyView,
) -> ProjectStates {
    |states: ProjectStates, key: ProjectKeyView|
        match project_cause(tracker.projects, tracker.observations, key) {
            None => states,
            Some(cause) => relate_project(tracker, cause_project(states, key, cause), key),
        }
}

/// The changed files in order.
fn sorted_files(observation: &ChangedFilesObservation<SourcePathBuf>) -> (files: Vec<SourcePathBuf>)
    ensures
        views(files@) == arranged::<SourcePathBuf>(observation@.files.dom()),
{
    let n: usize = observation.files.len();
    let ghost keys = observation.files.keys();
    let mut files: Vec<SourcePathBuf> = Vec::new();
    let mut i: usize = 0;
    while i < n
        invariant
            n == observation.files.keys().len(),
            keys == observation.files.keys(),
            i <= n,
            views(files@) == keys.take(i as int),
        decreases n - i,
    {
        files.push(observation.files.key_at(i).clone());
        assert(views(files@) =~= keys.take(i + 1));
        i = i + 1;
    }
    proof {
        assert(keys.take(i as int) =~= keys);
        source_paths_rank();
        ranked_arranges::<SourcePathBuf>(keys);
        assert(observation@.files.dom() =~= observation.files@.dom());
        assert forall|file: SourcePathView| keys.to_set().contains(file)
            <==> observation.files@.dom().contains(file) by {
            assert(observation.files@.dom().contains(file) <==> keys.contains(file));
        }
        assert(keys.to_set() =~= observation.files@.dom());
    }
    sort_ranked(files)
}

/// The changed file in order that is the first to belong to a project.
fn find_project_file(files: &Vec<SourcePathBuf>, source: &str) -> (found: Option<SourcePathBuf>)
    ensures
        view_of(found) == first_where(views(files@), belongs_to(source@)),
{
    let root = source.is_empty() || crate::text::same_text(source, ".");
    let base = RelativePath::parse(source);
    let ghost all = views(files@);
    let ghost holds = belongs_to(source@);
    let mut i: usize = 0;
    assert(all.skip(0) =~= all);
    while i < files.len()
        invariant
            i <= files@.len(),
            all == views(files@),
            holds == belongs_to(source@),
            root == is_root_level(source@),
            base@ == relative_components(source@),
            first_where(all, holds) == first_where(all.skip(i as int), holds),
        decreases files.len() - i,
    {
        let file = &files[i];
        proof {
            assert(all.skip(i as int)[0] == file@);
            assert(all.skip(i as int).skip(1) =~= all.skip(i + 1));
        }
        let belongs = if root {
            !(!file.path.as_str().is_empty() && file.path.as_str().get_char(0) == '.')
        } else {
            RelativePath::parse(file.path.as_str()).starts_with(&base)
        };
        if belongs {
            return Some(file.clone());
        }
        i = i + 1;
    }
    None
}

impl AggregateAffectedTracker {
    /// Why a project is affected by itself, if it is.
    fn find_project_cause(&self, key: &ProjectKey) -> (cause: Option<ProjectReason>)
        requires
            self@.projects.nodes.dom().contains(key@),
        ensures
            view_of(cause) == project_cause(self@.projects, self@.observations, key@),
    {
        let observation = match self.observations.get(key.source_id()) {
            Some(observation) => observation,
            None => {
                return None;
            },
        };
        if observation.completeness == ImpactCompleteness::Unavailable {
            return Some(ProjectReason::Unavailable);
        }
        let files = sorted_files(observation);
        match self.projects.nodes.get(key) {
            Some(node) => match find_project_file(&files, node.project.source.as_str()) {
                Some(file) => Some(ProjectReason::File(file)),
                None => None,
            },
            None => {
                assert(false);
                None
            },
        }
    }

    /// Tells the projects that a project is related to along a direction.
    fn track_project_relations(&mut self, key: &ProjectKey, upstream: bool)
        requires
            graph_valid(old(self)@.projects),
            old(self)@.projects.nodes.dom().contains(key@),
        ensures
            final(self)@ == (TrackerView {
                affected: AffectedView {
                    projects: relate_all::<ProjectKey, ProjectCauses>(
                        old(self)@.affected.projects,
                        upstream,
                        projects_linked(
                            old(self)@.projects,
                            key@,
                            if upstream {
                                Direction::Outgoing
                            } else {
                                Direction::Incoming
                            },
                            if upstream {
                                old(self)@.project_upstream
                            } else {
                                old(self)@.project_downstream
                            },
                        ),
                    ),
                    ..old(self)@.affected
                },
                ..old(self)@
            }),
    {
        let start: usize = match self.projects.nodes.get(key) {
            Some(node) => node.index,
            None => {
                assert(false);
                0
            },
        };
        let direction = if upstream {
            Direction::Outgoing
        } else {
            Direction::Incoming
        };
        let scope = if upstream {
            self.project_upstream
        } else {
            self.project_downstream
        };
        let ghost graph = self@.projects;
        let numbers = related_pairs(self.projects.get_graph(), start, direction, scope);
        let mut pairs: Vec<(ProjectKey, ProjectKey)> = Vec::new();
        let mut i: usize = 0;
        while i < numbers.len()
            invariant
                i <= numbers@.len(),
                graph == self.projects@,
                forall|j: int|
                    0 <= j < numbers@.len() ==> (#[trigger] numbers@[j]).0 < graph.indexes.len()
                        && numbers@[j].1 < graph.indexes.len(),
                pairs@.len() == i,
                forall|j: int|
                    0 <= j < i ==> (#[trigger] pairs@[j]).0@ == graph.indexes[numbers@[j].0 as int]
                        && pairs@[j].1@ == graph.indexes[numbers@[j].1 as int],
            decreases numbers.len() - i,
        {
            let pair = numbers[i];
            assert(numbers@[i as int].0 < graph.indexes.len());
            pairs.push((self.projects.indexes[pair.0].clone(), self.projects.indexes[pair.1].clone()));
            i = i + 1;
        }
        relate_pairs(&mut self.affected.projects, upstream, &pairs);
        proof {
            let keys = pair_views(pairs@);
            let expected = projects_linked(graph, key@, direction, scope);
            let found = linked_by(keys);
            assert forall|from: ProjectKeyView, to: ProjectKeyView|
                #[trigger] found(from, to) == expected(from, to) by {
                if keys.contains((from, to)) {
                    let j = choose|j: int| 0 <= j < keys.len() && keys[j] == (from, to);
                    assert(pairs@[j].0@ == from);
                    let a = numbers@[j].0;
                    let b = numbers@[j].1;
                    assert(numbers@.contains((a, b))) by {
                        assert(numbers@[j] == (a, b));
                    }
                    assert(is_related(graph.graph.edges, start, direction, scope, a, b));
                }
                if expected(from, to) {
                    let (a, b) = choose|a: usize, b: usize|
                        a < graph.indexes.len() && b < graph.indexes.len()
                            && #[trigger] is_related(
                            graph.graph.edges,
                            start,
                            direction,
                            scope,
                            a,
                            b,
                        ) && graph.indexes[a as int] == from && graph.indexes[b as int] == to;
                    assert(numbers@.contains((a, b)));
                    let j = choose|j: int| 0 <= j < numbers@.len() && numbers@[j] == (a, b);
                    assert(keys[j] == (from, to));
                }
            }
            assert(found =~= expected);
        }
    }

    /// Marks a project as affected by itself.
    fn mark_project(&mut self, key: &ProjectKey, cause: ProjectReason)
        requires
            graph_valid(old(self)@.projects),
            old(self)@.projects.nodes.dom().contains(key@),
        ensures
            final(self)@ == (TrackerView {
                affected: AffectedView {
                    projects: relate_project(
                        old(self)@,
                        cause_project(old(self)@.affected.projects, key@, cause@),
                        key@,
                    ),
                    ..old(self)@.affected
                },
                ..old(self)@
            }),
    {
        let mut state = take_state(&self.affected.projects, key);
        match cause {
            ProjectReason::File(file) => {
                state.causes.files.insert(file);
            },
            ProjectReason::Unavailable => {
                state.causes.other = true;
            },
        }
        self.affected.projects.insert(key.clone(), state);
        self.track_project_relations(key, true);
        self.track_project_relations(key, false);
    }

    /// Looks at all projects in order.
    pub fn track_projects(&mut self)
        requires
            graph_valid(old(self)@.projects),
        ensures
            final(self)@ == (TrackerView {
                affected: AffectedView {
                    projects: fold(
                        keys_in_order(old(self)@.projects.nodes),
                        old(self)@.affected.projects,
                        track_project(old(self)@),
                    ),
                    ..old(self)@.affected
                },
                ..old(self)@
            }),
    {
        let ghost before = self@;
        let keys = ordered_keys(&self.projects.nodes);
        let ghost all = views(keys@);
        let ghost start = before.affected.projects;
        let ghost step = track_project(before);
        assert(before.projects.nodes.dom() =~= self.projects.nodes@.dom());
        assert(all.take(0) =~= Seq::empty());
        let mut i: usize = 0;
        while i < keys.len()
            invariant
                i <= keys@.len(),
                all == views(keys@),
                graph_valid(before.projects),
                forall|key: ProjectKeyView|
                    before.projects.nodes.dom().contains(key) <==> #[trigger] all.contains(key),
                start == before.affected.projects,
                step == track_project(before),
                self@ == (TrackerView {
                    affected: AffectedView {
                        projects: fold(all.take(i as int), start, step),
                        ..before.affected
                    },
                    ..before
                }),
            decreases keys.len() - i,
        {
            let key = &keys[i];
            proof {
                fold_step(all, start, step, i as int);
                assert(all[i as int] == key@);
                assert(all.contains(key@));
            }
            if let Some(cause) = self.find_project_cause(key) {
                self.mark_project(key, cause);
            }
            i = i + 1;
        }
        proof {
            fold_end(all, start, step);
        }
    }
}

/// A changed file is an input of a task: a file that the task lists counts always, or
/// where its content matches; other files count where they match a pattern.
pub open spec fn is_touched(listed: bool, content: Option<bool>, matches_pattern: bool) -> bool {
    if listed {
        match content {
            Some(matches) => matches,
            None => true,
        }
    } else {
        matches_pattern
    }
}

/// Whether a changed file is an input of a task.
pub fn touches_input(listed: bool, content: Option<bool>, matches_pattern: bool) -> (r: bool)
    ensures
        r == is_touched(listed, content, matches_pattern),
{
    if listed {
        match content {
            Some(matches) => matches,
            None => true,
        }
    } else {
        matches_pattern
    }
}

/// What is known of the world around the tasks: the variables that have a value, for each
/// task the files that it lists with whether their content matches where it has to, and the
/// changed files that the patterns of each task match.
pub struct InputsView {
    pub env: Set<Seq<char>>,
    pub listed: Map<TaskKeyView, Map<Seq<char>, Option<bool>>>,
    pub matched: Map<TaskKeyView, Set<Seq<char>>>,
}

/// What is known of the world around the tasks.
#[derive(Debug)]
pub struct TaskInputs {
    /// The variables that have a value.
    pub env: KeySet<String>,
    /// The files that each task lists. Where the content of one has to match, it is said
    /// whether it does.
    pub listed: Table<TaskKey, Table<String, Option<bool>>>,
    /// The changed files that the patterns of each task match.
    pub matched: Table<TaskKey, KeySet<String>>,
}

impl View for TaskInputs {
    type V = InputsView;

    open spec fn view(&self) -> InputsView {
        InputsView {
            env: self.env@,
            listed: value_views(self.listed@),
            matched: value_views(self.matched@),
        }
    }
}

/// The content of a file that a task lists, if it lists the file.
pub open spec fn listed_content(inputs: InputsView, key: TaskKeyView, path: Seq<char>) -> Option<
    Option<bool>,
> {
    if inputs.listed.dom().contains(key) && inputs.listed[key].dom().contains(path) {
        Some(inputs.listed[key][path])
    } else {
        None
    }
}

/// A changed file is an input of a task.
pub open spec fn touches(inputs: InputsView, key: TaskKeyView) -> spec_fn(SourcePathView) -> bool {
    |file: SourcePathView|
        {
            let content = listed_content(inputs, key, file.path);
            is_touched(
                content is Some,
                if content is Some {
                    content->0
                } else {
                    None
                },
                inputs.matched.dom().contains(key) && inputs.matched[key].contains(file.path),
            )
        }
}

/// A variable has a value.
pub open spec fn is_set(inputs: InputsView) -> spec_fn(Seq<char>) -> bool {
    |name: Seq<char>| inputs.env.contains(name)
}

/// A task is not looked at: by what it says of continuous integration, or for want of
/// inputs.
pub open spec fn is_left_out(task: TaskView, ci: bool) -> bool {
    ||| ci && (task.options.run_in_ci == TaskOptionRunInCI::Enabled(false)
        || task.options.run_in_ci == TaskOptionRunInCI::Skip)
    ||| !ci && task.options.run_in_ci == TaskOptionRunInCI::Only
    ||| task.empty_inputs
}

/// Why a task is affected by itself, if it is.
pub open spec fn task_cause(
    tasks: TaskGraphView,
    observations: Observations,
    ci: bool,
    inputs: InputsView,
    key: TaskKeyView,
) -> Option<TaskCause> {
    let task = tasks.nodes[key].task;
    let source = key.project.source;
    if !observations.dom().contains(source) {
        None
    } else if observations[source].completeness == ImpactCompleteness::Unavailable || (ci
        && task.options.run_in_ci == TaskOptionRunInCI::Always) {
        Some(TaskCause::Unavailable)
    } else if is_left_out(task, ci) {
        None
    } else {
        match first_where(task.input_env, is_set(inputs)) {
            Some(name) => Some(TaskCause::Env(name)),
            None => match first_file(observations[source].files, touches(inputs, key)) {
                Some(file) => Some(TaskCause::File(file)),
                None => None,
            },
        }
    }
}

/// Two tasks are related along a direction from a task.
pub open spec fn tasks_linked(
    tasks: TaskGraphView,
    key: TaskKeyView,
    direction: Direction,
    scope: RelationScope,
) -> spec_fn(TaskKeyView, TaskKeyView) -> bool {
    |from: TaskKeyView, to: TaskKeyView|
        exists|a: usize, b: usize|
            a < tasks.indexes.len() && b < tasks.indexes.len() && #[trigger] is_related(
                tasks.graph.edges,
                tasks.nodes[key].index,
                direction,
                scope,
                a,
                b,
            ) && tasks.indexes[a as int] == from && tasks.indexes[b as int] == to
}

/// The states with a task that is affected by itself, before its relations.
pub open spec fn cause_task(states: TaskStates, key: TaskKeyView, cause: TaskCause) -> TaskStates {
    let state = state_of::<TaskKey, TaskCauses>(states, key);
    states.insert(
        key,
        StateView {
            causes: match cause {
                TaskCause::Env(name) => TaskCausesView {
                    env: state.causes.env.insert(name),
                    ..state.causes
                },
                TaskCause::File(file) => TaskCausesView {
                    files: state.causes.files.insert(file),
                    ..state.causes
                },
                TaskCause::Unavailable => TaskCausesView { other: true, ..state.causes },
            },
            ..state
        },
    )
}

/// The states with the project that an affected task belongs to.
pub open spec fn task_in_project(states: ProjectStates, key: TaskKeyView) -> ProjectStates {
    let state = state_of::<ProjectKey, ProjectCauses>(states, key.project);
    states.insert(
        key.project,
        StateView {
            causes: ProjectCausesView { tasks: state.causes.tasks.insert(key), ..state.causes },
            ..state
        },
    )
}

/// The states with the tasks that a task is related to.
pub open spec fn relate_task(tracker: TrackerView, states: TaskStates, key: TaskKeyView) -> TaskStates {
    relate_all::<TaskKey, TaskCauses>(
        relate_all::<TaskKey, TaskCauses>(
            states,
            true,
            tasks_linked(tracker.tasks, key, Direction::Outgoing, tracker.task_upstream),
        ),
        false,
        tasks_linked(tracker.tasks, key, Direction::Incoming, tracker.task_downstream),
    )
}

/// One more task that is looked at.
pub open spec fn track_task(tracker: TrackerView, inputs: InputsView) -> spec_fn(
    (ProjectStates, TaskStates),
    TaskKeyView,
) -> (ProjectStates, TaskStates) {
    |states: (ProjectStates, TaskStates), key: TaskKeyView|
        match task_cause(tracker.tasks, tracker.observations, tracker.ci, inputs, key) {
            None => states,
            Some(cause) => (
                task_in_project(states.0, key),
                relate_task(tracker, cause_task(states.1, key, cause), key),
            ),
        }
}

/// The first variable that has a value.
fn find_variable(names: &Vec<String>, inputs: &TaskInputs) -> (found: Option<String>)
    ensures
        view_of(found) == first_where(views(names@), is_set(inputs@)),
{
    let ghost all = views(names@);
    let ghost holds = is_set(inputs@);
    let mut i: usize = 0;
    assert(all.skip(0) =~= all);
    while i < names.len()
        invariant
            i <= names@.len(),
            all == views(names@),
            holds == is_set(inputs@),
            first_where(all, holds) == first_where(all.skip(i as int), holds),
        decreases names.len() - i,
    {
        proof {
            assert(all.skip(i as int)[0] == names[i as int]@);
            assert(all.skip(i as int).skip(1) =~= all.skip(i + 1));
        }
        if inputs.env.contains(&names[i]) {
            return Some(names[i].clone());
        }
        i = i + 1;
    }
    None
}

/// The first changed file that is an input of a task.
fn find_task_file(files: &Vec<SourcePathBuf>, inputs: &TaskInputs, key: &TaskKey) -> (found: Option<
    SourcePathBuf,
>)
    ensures
        view_of(found) == first_where(views(files@), touches(inputs@, key@)),
{
    let ghost all = views(files@);
    let ghost holds = touches(inputs@, key@);
    let listed = inputs.listed.get(key);
    let matched = inputs.matched.get(key);
    let mut i: usize = 0;
    assert(all.skip(0) =~= all);
    while i < files.len()
        invariant
            i <= files@.len(),
            all == views(files@),
            holds == touches(inputs@, key@),
            match listed {
                Some(known) => inputs@.listed.dom().contains(key@) && inputs@.listed[key@]
                    == known@,
                None => !inputs@.listed.dom().contains(key@),
            },
            match matched {
                Some(paths) => inputs@.matched.dom().contains(key@) && inputs@.matched[key@]
                    == paths@,
                None => !inputs@.matched.dom().contains(key@),
            },
            first_where(all, holds) == first_where(all.skip(i as int), holds),
        decreases files.len() - i,
    {
        let file = &files[i];
        proof {
            assert(all.skip(i as int)[0] == file@);
            assert(all.skip(i as int).skip(1) =~= all.skip(i + 1));
        }
        let content: Option<&Option<bool>> = match listed {
            Some(known) => known.get(&file.path),
            None => None,
        };
        let matches_pattern = match matched {
            Some(paths) => paths.contains(&file.path),
            None => false,
        };
        let hit = match content {
            Some(content) => touches_input(true, *content, matches_pattern),
            None => touches_input(false, None, matches_pattern),
        };
        if hit {
            return Some(file.clone());
        }
        i = i + 1;
    }
    None
}

impl AggregateAffectedTracker {
    /// Why a task is affected by itself, if it is.
    fn find_task_cause(&self, inputs: &TaskInputs, key: &TaskKey) -> (cause: Option<TaskReason>)
        requires
            self@.tasks.nodes.dom().contains(key@),
        ensures
            view_of(cause) == task_cause(
                self@.tasks,
                self@.observations,
                self@.ci,
                inputs@,
                key@,
            ),
    {
        let task = match self.tasks.nodes.get(key) {
            Some(node) => &node.task,
            None => {
                assert(false);
                return None;
            },
        };
        let observation = match self.observations.get(key.project_key().source_id()) {
            Some(observation) => observation,
            None => {
                return None;
            },
        };
        let run_in_ci = task.options.run_in_ci;
        if observation.completeness == ImpactCompleteness::Unavailable || (self.ci && run_in_ci
            == TaskOptionRunInCI::Always) {
            return Some(TaskReason::Unavailable);
        }
        if (self.ci && (run_in_ci == TaskOptionRunInCI::Enabled(false) || run_in_ci
            == TaskOptionRunInCI::Skip)) || (!self.ci && run_in_ci == TaskOptionRunInCI::Only)
            || task.empty_inputs {
            return None;
        }
        if let Some(name) = find_variable(&task.input_env, inputs) {
            return Some(TaskReason::Env(name));
        }
        let files = sorted_files(observation);
        match find_task_file(&files, inputs, key) {
            Some(file) => Some(TaskReason::File(file)),
            None => None,
        }
    }

    /// Tells the tasks that a task is related to along a direction.
    fn track_task_relations(&mut self, key: &TaskKey, upstream: bool)
        requires
            task_graph_valid(old(self)@.tasks),
            old(self)@.tasks.nodes.dom().contains(key@),
        ensures
            final(self)@ == (TrackerView {
                affected: AffectedView {
                    tasks: relate_all::<TaskKey, TaskCauses>(
                        old(self)@.affected.tasks,
                        upstream,
                        tasks_linked(
                            old(self)@.tasks,
                            key@,
                            if upstream {
                                Direction::Outgoing
                            } else {
                                Direction::Incoming
                            },
                            if upstream {
                                old(self)@.task_upstream
                            } else {
                                old(self)@.task_downstream
                            },
                        ),
                    ),
                    ..old(self)@.affected
                },
                ..old(self)@
            }),
    {
        let start: usize = match self.tasks.nodes.get(key) {
            Some(node) => node.index,
            None => {
                assert(false);
                0
            },
        };
        let direction = if upstream {
            Direction::Outgoing
        } else {
            Direction::Incoming
        };
        let scope = if upstream {
            self.task_upstream
        } else {
            self.task_downstream
        };
        let ghost graph = self@.tasks;
        let numbers = related_pairs(self.tasks.graph.graph(), start, direction, scope);
        let mut pairs: Vec<(TaskKey, TaskKey)> = Vec::new();
        let mut i: usize = 0;
        while i < numbers.len()
            invariant
                i <= numbers@.len(),
                graph == self.tasks@,
                forall|j: int|
                    0 <= j < numbers@.len() ==> (#[trigger] numbers@[j]).0 < graph.indexes.len()
                        && numbers@[j].1 < graph.indexes.len(),
                pairs@.len() == i,
                forall|j: int|
                    0 <= j < i ==> (#[trigger] pairs@[j]).0@ == graph.indexes[numbers@[j].0 as int]
                        && pairs@[j].1@ == graph.indexes[numbers@[j].1 as int],
            decreases numbers.len() - i,
        {
            let pair = numbers[i];
            assert(numbers@[i as int].0 < graph.indexes.len());
            pairs.push((self.tasks.indexes[pair.0].clone(), self.tasks.indexes[pair.1].clone()));
            i = i + 1;
        }
        relate_pairs(&mut self.affected.tasks, upstream, &pairs);
        proof {
            let keys = pair_views(pairs@);
            let expected = tasks_linked(graph, key@, direction, scope);
            let found = linked_by(keys);
            assert forall|from: TaskKeyView, to: TaskKeyView|
                #[trigger] found(from, to) == expected(from, to) by {
                if keys.contains((from, to)) {
                    let j = choose|j: int| 0 <= j < keys.len() && keys[j] == (from, to);
                    assert(pairs@[j].0@ == from);
                    let a = numbers@[j].0;
                    let b = numbers@[j].1;
                    assert(numbers@.contains((a, b))) by {
                        assert(numbers@[j] == (a, b));
                    }
                    assert(is_related(graph.graph.edges, start, direction, scope, a, b));
                }
                if expected(from, to) {
                    let (a, b) = choose|a: usize, b: usize|
                        a < graph.indexes.len() && b < graph.indexes.len()
                            && #[trigger] is_related(
                            graph.graph.edges,
                            start,
                            direction,
                            scope,
                            a,
                            b,
                        ) && graph.indexes[a as int] == from && graph.indexes[b as int] == to;
                    assert(numbers@.contains((a, b)));
                    let j = choose|j: int| 0 <= j < numbers@.len() && numbers@[j] == (a, b);
                    assert(keys[j] == (from, to));
                }
            }
            assert(found =~= expected);
        }
    }

    /// Marks a task as affected by itself.
    fn mark_task(&mut self, key: &TaskKey, cause: TaskReason)
        requires
            task_graph_valid(old(self)@.tasks),
            old(self)@.tasks.nodes.dom().contains(key@),
        ensures
            final(self)@ == (TrackerView {
                affected: AffectedView {
                    projects: task_in_project(old(self)@.affected.projects, key@),
                    tasks: relate_task(
                        old(self)@,
                        cause_task(old(self)@.affected.tasks, key@, cause@),
                        key@,
                    ),
                    ..old(self)@.affected
                },
                ..old(self)@
            }),
    {
        let mut state = take_state(&self.affected.tasks, key);
        match cause {
            TaskReason::Env(name) => {
                state.causes.env.insert(name);
            },
            TaskReason::File(file) => {
                state.causes.files.insert(file);
            },
            TaskReason::Unavailable => {
                state.causes.other = true;
            },
        }
        self.affected.tasks.insert(key.clone(), state);
        let mut project = take_state(&self.affected.projects, key.project_key());
        project.causes.tasks.insert(key.clone());
        self.affected.projects.insert(key.project_key().clone(), project);
        self.track_task_relations(key, true);
        self.track_task_relations(key, false);
    }

    /// Looks at all tasks in order.
    pub fn track_tasks(&mut self, inputs: &TaskInputs)
        requires
            task_graph_valid(old(self)@.tasks),
        ensures
            ({
                let states = fold(
                    arranged::<TaskKey>(old(self)@.tasks.nodes.dom()),
                    (old(self)@.affected.projects, old(self)@.affected.tasks),
                    track_task(old(self)@, inputs@),
                );
                final(self)@ == (TrackerView {
                    affected: AffectedView {
                        projects: states.0,
                        tasks: states.1,
                        ..old(self)@.affected
                    },
                    ..old(self)@
                })
            }),
    {
        let ghost before = self@;
        let keys = ordered_task_keys(&self.tasks.nodes);
        let ghost all = views(keys@);
        let ghost start = (before.affected.projects, before.affected.tasks);
        let ghost step = track_task(before, inputs@);
        assert(before.tasks.nodes.dom() =~= self.tasks.nodes@.dom());
        assert(all.take(0) =~= Seq::empty());
        let mut i: usize = 0;
        while i < keys.len()
            invariant
                i <= keys@.len(),
                all == views(keys@),
                task_graph_valid(before.tasks),
                forall|key: TaskKeyView|
                    before.tasks.nodes.dom().contains(key) <==> #[trigger] all.contains(key),
                start == (before.affected.projects, before.affected.tasks),
                step == track_task(before, inputs@),
                self@ == (TrackerView {
                    affected: AffectedView {
                        projects: fold(all.take(i as int), start, step).0,
                        tasks: fold(all.take(i as int), start, step).1,
                        ..before.affected
                    },
                    ..before
                }),
            decreases keys.len() - i,
        {
            let key = &keys[i];
            proof {
                fold_step(all, start, step, i as int);
                assert(all[i as int] == key@);
                assert(all.contains(key@));
            }
            if let Some(cause) = self.find_task_cause(inputs, key) {
                self.mark_task(key, cause);
            }
            i = i + 1;
        }
        proof {
            fold_end(all, start, step);
        }
    }
}

} // verus!
