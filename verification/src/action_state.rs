//! The graph of actions while it is built, and the ways in which actions are linked.

use crate::action_node::{node_label, ActionNode, NodeView};
use crate::dag::{dag_valid, DagView, DependencyDag};
use crate::fold::{fold, fold_end, fold_step};
use crate::graph::{connected, edges_within, has_edge};
use crate::invocation::{InvocationView, TaskInvocationKey};
use crate::keys::{TaskKey, TaskKeyView};
use crate::keyset::KeySet;
use crate::order::views;
use crate::project_graph::{ProjectGraphError, ProjectGraphFault};
use crate::runtime::{RuntimeFault, SourceContext, SourceContextView, SourceRuntimeRegistryError};
use crate::source::SourceRootId;
use crate::table::{value_views, Key, Table};
use crate::task_graph::{TaskGraphError, TaskGraphFault};
use vstd::prelude::*;

verus! {

broadcast use {crate::order::group_views, crate::table::value_views_insert};

/// Why a graph of actions cannot be built.
pub enum ActionGraphFault {
    InvalidJobIndex { index: usize, total: usize },
    InvalidPlanJobs,
    MismatchedPlanJobTotals { plan_total: usize, total: usize },
    MissingToolchainRequirement { id: Seq<char>, dep_id: Seq<char> },
    WouldCycle { source_action: Seq<char>, target_action: Seq<char> },
    UnknownToolchain { id: Seq<char> },
    InvalidId { id: Seq<char> },
    DepthExceeded,
    TooLarge,
    Runtime(RuntimeFault),
    Project(ProjectGraphFault),
    Task(TaskGraphFault),
    Expansion { reason: Seq<char> },
    UnqualifiedTask,
    NoDepsInRunContext,
    NoSelfInRunContext,
    NoDefaultProjectForTask { task_id: Seq<char> },
    InvalidTarget { target: Seq<char> },
    InvalidQuery { query: Seq<char> },
    NoProjectAtPath,
}

/// Why a graph of actions cannot be built.
#[derive(Debug)]
pub enum ActionGraphError {
    /// There are fewer jobs than the number of the job says.
    InvalidJobIndex { index: usize, total: usize },
    /// A plan with jobs was given no job.
    InvalidPlanJobs,
    /// A plan has another number of jobs.
    MismatchedPlanJobTotals { plan_total: usize, total: usize },
    /// A toolchain requires another that is not configured.
    MissingToolchainRequirement { id: String, dep_id: String },
    /// An action would have to wait for itself.
    WouldCycle { source_action: String, target_action: String },
    /// Nothing is known of a toolchain.
    UnknownToolchain { id: String },
    /// A toolchain requires another by a text that is no identifier.
    InvalidId { id: String },
    /// Tasks depend on each other over too many steps.
    DepthExceeded,
    /// There are more actions, or more links between them, than can be numbered.
    TooLarge,
    /// A source root has no services.
    Runtime(SourceRuntimeRegistryError),
    /// A project cannot be found.
    Project(ProjectGraphError),
    /// A task cannot be found.
    Task(TaskGraphError),
    /// A task cannot be expanded.
    Expansion { reason: String },
    /// The target of a task does not name one project and one task.
    UnqualifiedTask,
    /// The dependencies of a project were asked for where there is no project.
    NoDepsInRunContext,
    /// The own project was asked for where there is no project.
    NoSelfInRunContext,
    /// A task of the default project was asked for, and there is no such project.
    NoDefaultProjectForTask { task_id: String },
    /// A text is no target.
    InvalidTarget { target: String },
    /// A query could not be answered.
    InvalidQuery { query: String },
    /// No project is at the path that was given.
    NoProjectAtPath,
}

impl View for ActionGraphError {
    type V = ActionGraphFault;

    open spec fn view(&self) -> ActionGraphFault {
        match self {
            ActionGraphError::InvalidJobIndex { index, total } =>
                ActionGraphFault::InvalidJobIndex { index: *index, total: *total },
            ActionGraphError::InvalidPlanJobs => ActionGraphFault::InvalidPlanJobs,
            ActionGraphError::MismatchedPlanJobTotals { plan_total, total } =>
                ActionGraphFault::MismatchedPlanJobTotals {
                plan_total: *plan_total,
                total: *total,
            },
            ActionGraphError::MissingToolchainRequirement { id, dep_id } =>
                ActionGraphFault::MissingToolchainRequirement { id: id@, dep_id: dep_id@ },
            ActionGraphError::WouldCycle { source_action, target_action } =>
                ActionGraphFault::WouldCycle {
                source_action: source_action@,
                target_action: target_action@,
            },
            ActionGraphError::UnknownToolchain { id } => ActionGraphFault::UnknownToolchain {
                id: id@,
            },
            ActionGraphError::InvalidId { id } => ActionGraphFault::InvalidId { id: id@ },
            ActionGraphError::DepthExceeded => ActionGraphFault::DepthExceeded,
            ActionGraphError::TooLarge => ActionGraphFault::TooLarge,
            ActionGraphError::Runtime(error) => ActionGraphFault::Runtime(error@),
            ActionGraphError::Project(error) => ActionGraphFault::Project(error@),
            ActionGraphError::Task(error) => ActionGraphFault::Task(error@),
            ActionGraphError::Expansion { reason } => ActionGraphFault::Expansion {
                reason: reason@,
            },
            ActionGraphError::UnqualifiedTask => ActionGraphFault::UnqualifiedTask,
            ActionGraphError::NoDepsInRunContext => ActionGraphFault::NoDepsInRunContext,
            ActionGraphError::NoSelfInRunContext => ActionGraphFault::NoSelfInRunContext,
            ActionGraphError::NoDefaultProjectForTask { task_id } =>
                ActionGraphFault::NoDefaultProjectForTask { task_id: task_id@ },
            ActionGraphError::InvalidTarget { target } => ActionGraphFault::InvalidTarget {
                target: target@,
            },
            ActionGraphError::InvalidQuery { query } => ActionGraphFault::InvalidQuery {
                query: query@,
            },
            ActionGraphError::NoProjectAtPath => ActionGraphFault::NoProjectAtPath,
        }
    }
}

/// The value that an operation gives, or what it reports.
pub open spec fn told<T>(result: Result<T, ActionGraphError>) -> Result<T, ActionGraphFault> {
    match result {
        Ok(value) => Ok(value),
        Err(error) => Err(error@),
    }
}

/// The last setup in a store, and the source root that it belongs to.
pub struct TailView {
    pub source: Seq<char>,
    pub index: usize,
}

/// The last setup in a store, and the source root that it belongs to.
#[derive(Debug)]
pub struct SetupTail {
    pub source: SourceRootId,
    pub index: usize,
}

impl View for SetupTail {
    type V = TailView;

    open spec fn view(&self) -> TailView {
        TailView { source: self.source@, index: self.index }
    }
}

/// The graph of actions while it is built.
pub struct StateView {
    pub nodes: Seq<NodeView>,
    pub graph: DagView,
    pub serial: Seq<bool>,
    pub ignored_dependencies: Map<TaskKeyView, Set<TaskKeyView>>,
    pub ignored_dependents: Set<TaskKeyView>,
    pub passthrough: Set<InvocationView>,
    pub primary: Set<TaskKeyView>,
    pub tails: Map<Seq<char>, TailView>,
}

/// The graph of actions while it is built.
pub struct ActionGraphState {
    /// The actions, by their numbers.
    pub nodes: Vec<ActionNode>,
    /// What each action waits for.
    pub graph: DependencyDag,
    /// Whether the edge with each number only keeps dependencies apart in time.
    pub serial: Vec<bool>,
    /// Dependencies of tasks that were left out.
    pub ignored_dependencies: Table<TaskKey, KeySet<TaskKey>>,
    /// Tasks whose dependents were left out when they were added.
    pub ignored_dependents: KeySet<TaskKey>,
    /// Invocations that are not to run.
    pub passthrough_targets: KeySet<TaskInvocationKey>,
    /// The tasks that were asked for.
    pub primary_targets: KeySet<TaskKey>,
    /// The last setup in every store.
    pub setup_tails: Table<String, SetupTail>,
}

impl View for ActionGraphState {
    type V = StateView;

    open spec fn view(&self) -> StateView {
        StateView {
            nodes: views(self.nodes@),
            graph: self.graph@,
            serial: self.serial@,
            ignored_dependencies: value_views(self.ignored_dependencies@),
            ignored_dependents: self.ignored_dependents@,
            passthrough: self.passthrough_targets@,
            primary: self.primary_targets@,
            tails: value_views(self.setup_tails@),
        }
    }
}

/// What holds of the graph at any time: every action has a node, every edge is either
/// serial or not, the last setups are actions, and no synchronisation of a workspace waits
/// for anything.
pub open spec fn state_valid(state: StateView) -> bool {
    &&& state.graph.nodes == state.nodes.len()
    &&& state.serial.len() == state.graph.edges.len()
    &&& dag_valid(state.graph)
    &&& forall|store: Seq<char>| #[trigger]
        state.tails.dom().contains(store) ==> state.tails[store].index < state.nodes.len()
    &&& forall|i: int|
        0 <= i < state.graph.edges.len() ==> may_wait(state.nodes, (#[trigger] state.graph.edges[i]).0)
}

/// The synchronisation of a workspace comes before everything else: it waits for nothing.
pub open spec fn may_wait(nodes: Seq<NodeView>, index: usize) -> bool {
    nodes[index as int] !is SyncWorkspace
}

/// What every operation keeps: the graph stays sound, no action and no edge is lost, and an
/// action that is given is one of the graph.
pub open spec fn settles(
    before: StateView,
    after: StateView,
    result: Result<Option<usize>, ActionGraphFault>,
) -> bool {
    &&& state_valid(after)
    &&& before.nodes.is_prefix_of(after.nodes)
    &&& before.graph.edges.is_prefix_of(after.graph.edges)
    &&& result matches Ok(Some(index)) ==> index < after.nodes.len()
}

/// No action and no edge is lost.
pub open spec fn grows(before: StateView, after: StateView) -> bool {
    &&& before.nodes.is_prefix_of(after.nodes)
    &&& before.graph.edges.is_prefix_of(after.graph.edges)
}

/// What is not lost in two steps is not lost.
pub proof fn grows_on(first: StateView, second: StateView, third: StateView)
    requires
        grows(first, second),
        grows(second, third),
    ensures
        grows(first, third),
{
    assert(first.nodes =~= third.nodes.subrange(0, first.nodes.len() as int)) by {
        assert forall|i: int| 0 <= i < first.nodes.len() implies first.nodes[i] == third.nodes[i] by {
            assert(first.nodes[i] == second.nodes[i]);
            assert(second.nodes[i] == third.nodes[i]);
        }
    }
    assert(first.graph.edges =~= third.graph.edges.subrange(0, first.graph.edges.len() as int)) by {
        assert forall|i: int| 0 <= i < first.graph.edges.len() implies first.graph.edges[i]
            == third.graph.edges[i] by {
            assert(first.graph.edges[i] == second.graph.edges[i]);
            assert(second.graph.edges[i] == third.graph.edges[i]);
        }
    }
}

/// The graph without actions.
pub open spec fn empty_state() -> StateView {
    StateView {
        nodes: Seq::empty(),
        graph: DagView { nodes: 0, edges: Seq::empty() },
        serial: Seq::empty(),
        ignored_dependencies: Map::empty(),
        ignored_dependents: Set::empty(),
        passthrough: Set::empty(),
        primary: Set::empty(),
        tails: Map::empty(),
    }
}

/// An action takes the first place that it occurs at.
pub open spec fn place_of_node(nodes: Seq<NodeView>, node: NodeView) -> Option<usize>
    decreases nodes.len(),
{
    if nodes.len() == 0 {
        None
    } else {
        match place_of_node(nodes.drop_last(), node) {
            Some(i) => Some(i),
            None => if nodes.last() == node {
                Some((nodes.len() - 1) as usize)
            } else {
                None
            },
        }
    }
}

/// The graph with one more action.
pub open spec fn with_node(state: StateView, node: NodeView) -> (StateView, Result<
    Option<usize>,
    ActionGraphFault,
>) {
    if state.nodes.len() >= u32::MAX {
        (state, Err(ActionGraphFault::TooLarge))
    } else {
        (
            StateView {
                nodes: state.nodes.push(node),
                graph: DagView { nodes: state.graph.nodes + 1, ..state.graph },
                ..state
            },
            Ok(Some(state.nodes.len() as usize)),
        )
    }
}

/// The graph with an action that is added where it is missing.
pub open spec fn with_node_if_missing(state: StateView, node: NodeView) -> (StateView, Result<
    Option<usize>,
    ActionGraphFault,
>) {
    match place_of_node(state.nodes, node) {
        Some(index) => (state, Ok(Some(index))),
        None => with_node(state, node),
    }
}

/// The graph with one more edge.
pub open spec fn with_edge(
    state: StateView,
    from: usize,
    to: usize,
    label: u8,
    serial: bool,
) -> StateView {
    StateView {
        graph: DagView { edges: state.graph.edges.push((from, to, label)), ..state.graph },
        serial: state.serial.push(serial),
        ..state
    }
}

/// One action waits for another, unless it does already. It must not wait for itself.
pub open spec fn link_one(state: StateView, index: usize, to: usize, label: u8) -> (
    StateView,
    Result<(), ActionGraphFault>,
) {
    if has_edge(state.graph.edges, index, to) {
        (state, Ok(()))
    } else if state.graph.edges.len() >= u32::MAX {
        (state, Err(ActionGraphFault::TooLarge))
    } else if connected(state.graph.edges, to, index) {
        (
            state,
            Err(
                ActionGraphFault::WouldCycle {
                    source_action: node_label(state.nodes[index as int]),
                    target_action: node_label(state.nodes[to as int]),
                },
            ),
        )
    } else {
        (with_edge(state, index, to, label, false), Ok(()))
    }
}

/// An action waits for others, one after the other, up to the first that it cannot wait
/// for. Others that are missing are passed over.
pub open spec fn link_all(state: StateView, index: usize, edges: Seq<(Option<usize>, u8)>) -> (
    StateView,
    Result<(), ActionGraphFault>,
)
    decreases edges.len(),
{
    if edges.len() == 0 {
        (state, Ok(()))
    } else {
        let (before, done) = link_all(state, index, edges.drop_last());
        match (done, edges.last().0) {
            (Err(fault), _) => (before, Err(fault)),
            (Ok(_), None) => (before, Ok(())),
            (Ok(_), Some(to)) => link_one(before, index, to, edges.last().1),
        }
    }
}

/// Others that an action cannot do without.
pub open spec fn required(edges: Seq<Option<usize>>) -> Seq<(Option<usize>, u8)> {
    edges.map_values(|edge: Option<usize>| (edge, 1u8))
}

/// The first of several that is not missing.
pub open spec fn first_some(edges: Seq<Option<usize>>) -> Option<usize>
    decreases edges.len(),
{
    if edges.len() == 0 {
        None
    } else {
        match first_some(edges.drop_last()) {
            Some(edge) => Some(edge),
            None => edges.last(),
        }
    }
}

/// All that are not missing are actions.
pub open spec fn edges_known(edges: Seq<Option<usize>>, n: nat) -> bool {
    forall|i: int| 0 <= i < edges.len() && (#[trigger] edges[i]) is Some ==> edges[i]->0 < n
}

/// All that are not missing are actions.
pub open spec fn targets_known(edges: Seq<(Option<usize>, u8)>, n: nat) -> bool {
    forall|i: int| 0 <= i < edges.len() && (#[trigger] edges[i]).0 is Some ==> edges[i].0->0 < n
}

proof fn with_edge_keeps(state: StateView, from: usize, to: usize, label: u8, serial: bool)
    requires
        state_valid(state),
        from < state.nodes.len(),
        to < state.nodes.len(),
        !connected(state.graph.edges, to, from),
        may_wait(state.nodes, from),
    ensures
        state_valid(with_edge(state, from, to, label, serial)),
{
    crate::graph::acyclic_push(state.graph.edges, (from, to, label));
    let after = with_edge(state, from, to, label, serial);
    assert forall|i: int| 0 <= i < after.graph.edges.len() implies may_wait(
        after.nodes,
        (#[trigger] after.graph.edges[i]).0,
    ) by {
        if i < state.graph.edges.len() {
            assert(after.graph.edges[i] == state.graph.edges[i]);
            assert(may_wait(state.nodes, state.graph.edges[i].0));
        }
    }
}

proof fn link_one_keeps(state: StateView, index: usize, to: usize, label: u8)
    requires
        state_valid(state),
        index < state.nodes.len(),
        to < state.nodes.len(),
        may_wait(state.nodes, index),
    ensures
        state_valid(link_one(state, index, to, label).0),
        link_one(state, index, to, label).0.nodes == state.nodes,
{
    if !has_edge(state.graph.edges, index, to) && state.graph.edges.len() < u32::MAX && !connected(
        state.graph.edges,
        to,
        index,
    ) {
        with_edge_keeps(state, index, to, label, false);
    }
}

/// Linking keeps the graph sound and its actions as they are.
pub proof fn link_all_keeps(state: StateView, index: usize, edges: Seq<(Option<usize>, u8)>)
    requires
        state_valid(state),
        index < state.nodes.len(),
        may_wait(state.nodes, index),
        targets_known(edges, state.nodes.len()),
    ensures
        state_valid(link_all(state, index, edges).0),
        link_all(state, index, edges).0.nodes == state.nodes,
    decreases edges.len(),
{
    if edges.len() > 0 {
        let rest = edges.drop_last();
        assert forall|i: int| 0 <= i < rest.len() && (#[trigger] rest[i]).0 is Some implies rest[i].0->0
            < state.nodes.len() by {
            assert(rest[i] == edges[i]);
        }
        link_all_keeps(state, index, rest);
        assert(edges.last() == edges[edges.len() - 1]);
        if edges.last().0 is Some {
            link_one_keeps(link_all(state, index, rest).0, index, edges.last().0->0, edges.last().1);
        }
    }
}

/// An action waits for all of others that are not missing.
pub open spec fn waits_for(state: StateView, index: usize, edges: Seq<(Option<usize>, u8)>) -> bool {
    forall|j: int|
        0 <= j < edges.len() && (#[trigger] edges[j]).0 is Some ==> has_edge(
            state.graph.edges,
            index,
            edges[j].0->0,
        )
}

/// An action waits for others as long as no edge is lost.
pub proof fn waits_still(
    before: StateView,
    after: StateView,
    index: usize,
    edges: Seq<(Option<usize>, u8)>,
)
    requires
        waits_for(before, index, edges),
        before.graph.edges.is_prefix_of(after.graph.edges),
    ensures
        waits_for(after, index, edges),
{
    assert forall|j: int| 0 <= j < edges.len() && (#[trigger] edges[j]).0 is Some implies has_edge(
        after.graph.edges,
        index,
        edges[j].0->0,
    ) by {
        assert(has_edge(before.graph.edges, index, edges[j].0->0));
        let old_edges = before.graph.edges;
        let i = choose|i: int|
            0 <= i < old_edges.len() && (#[trigger] old_edges[i]).0 == index && old_edges[i].1
                == edges[j].0->0;
        assert(after.graph.edges[i] == old_edges[i]);
    }
}

/// An action that was linked to others waits for them.
pub proof fn link_all_waits(state: StateView, index: usize, edges: Seq<(Option<usize>, u8)>)
    requires
        link_all(state, index, edges).1 is Ok,
    ensures
        waits_for(link_all(state, index, edges).0, index, edges),
        state.graph.edges.is_prefix_of(link_all(state, index, edges).0.graph.edges),
    decreases edges.len(),
{
    if edges.len() > 0 {
        let rest = edges.drop_last();
        let before = link_all(state, index, rest).0;
        let after = link_all(state, index, edges).0;
        link_all_waits(state, index, rest);
        waits_still(before, after, index, rest);
        assert forall|j: int| 0 <= j < edges.len() && (#[trigger] edges[j]).0 is Some implies has_edge(
            after.graph.edges,
            index,
            edges[j].0->0,
        ) by {
            if j < rest.len() {
                assert(rest[j] == edges[j]);
            } else if !has_edge(before.graph.edges, index, edges[j].0->0) {
                assert(after.graph.edges.last() == (index, edges[j].0->0, edges[j].1));
            }
        }
    }
}

impl ActionGraphState {
    /// The graph without actions.
    pub fn new() -> (state: Self)
        ensures
            state@ == empty_state(),
            state_valid(state@),
    {
        let state = ActionGraphState {
            nodes: Vec::new(),
            graph: DependencyDag::empty(),
            serial: Vec::new(),
            ignored_dependencies: Table::new(),
            ignored_dependents: KeySet::new(),
            passthrough_targets: KeySet::new(),
            primary_targets: KeySet::new(),
            setup_tails: Table::new(),
        };
        proof {
            crate::graph::acyclic_empty();
            assert(state@.nodes =~= Seq::empty());
            assert(state@.ignored_dependencies =~= Map::empty());
            assert(state@.tails =~= Map::empty());
        }
        state
    }

    /// The number of an action, where it has one.
    pub fn get_index_from_node(&self, node: &ActionNode) -> (index: Option<usize>)
        ensures
            index == place_of_node(self@.nodes, node@),
            index is Some ==> index->0 < self@.nodes.len() && self@.nodes[index->0 as int] == node@,
    {
        let ghost all = self@.nodes;
        let mut i: usize = 0;
        proof {
            assert(all.take(0) =~= Seq::empty());
        }
        while i < self.nodes.len()
            invariant
                i <= self.nodes@.len(),
                all == views(self.nodes@),
                place_of_node(all.take(i as int), node@) is None,
            decreases self.nodes.len() - i,
        {
            proof {
                assert(all.take(i + 1).drop_last() =~= all.take(i as int));
                assert(all.take(i + 1).last() == self.nodes@[i as int]@);
            }
            if self.nodes[i].same_key(node) {
                proof {
                    assert(place_of_node(all.take(i + 1), node@) == Some(i));
                    place_stays(all, node@, i + 1);
                }
                return Some(i);
            }
            i = i + 1;
        }
        assert(all.take(i as int) =~= all);
        None
    }

    /// Adds an action.
    pub fn insert_node(&mut self, node: ActionNode) -> (index: Result<Option<usize>, ActionGraphError>)
        requires
            state_valid(old(self)@),
        ensures
            (final(self)@, told(index)) == with_node(old(self)@, node@),
            settles(old(self)@, final(self)@, told(index)),
            index matches Ok(Some(i)) ==> final(self)@.nodes[i as int] == node@,
    {
        if self.nodes.len() >= u32::MAX as usize {
            return Err(ActionGraphError::TooLarge);
        }
        let ghost before = self@;
        let index = self.graph.add_node();
        self.nodes.push(node);
        proof {
            assert forall|i: int| 0 <= i < self@.graph.edges.len() implies may_wait(
                self@.nodes,
                (#[trigger] self@.graph.edges[i]).0,
            ) by {
                assert(may_wait(before.nodes, before.graph.edges[i].0));
            }
        }
        Ok(Some(index))
    }

    /// Adds an action where it is missing.
    pub fn insert_node_if_missing(&mut self, node: ActionNode) -> (index: Result<
        Option<usize>,
        ActionGraphError,
    >)
        requires
            state_valid(old(self)@),
        ensures
            (final(self)@, told(index)) == with_node_if_missing(old(self)@, node@),
            settles(old(self)@, final(self)@, told(index)),
            index matches Ok(Some(i)) ==> final(self)@.nodes[i as int] == node@,
    {
        match self.get_index_from_node(&node) {
            Some(index) => Ok(Some(index)),
            None => self.insert_node(node),
        }
    }

    /// Makes one action wait for another.
    fn link(&mut self, index: usize, to: usize, label: u8) -> (done: Result<(), ActionGraphError>)
        requires
            state_valid(old(self)@),
            index < old(self)@.nodes.len(),
            may_wait(old(self)@.nodes, index),
            to < old(self)@.nodes.len(),
        ensures
            (final(self)@, told(done)) == link_one(old(self)@, index, to, label),
            state_valid(final(self)@),
            final(self)@.nodes == old(self)@.nodes,
            old(self)@.graph.edges.is_prefix_of(final(self)@.graph.edges),
    {
        proof {
            link_one_keeps(self@, index, to, label);
        }
        if self.graph.find_edge(index, to).is_some() {
            return Ok(());
        }
        if self.graph.edge_count() >= u32::MAX as usize {
            return Err(ActionGraphError::TooLarge);
        }
        if self.graph.add_edge(index, to, label) {
            self.serial.push(false);
            Ok(())
        } else {
            Err(
                ActionGraphError::WouldCycle {
                    source_action: self.nodes[index].label(),
                    target_action: self.nodes[to].label(),
                },
            )
        }
    }

    /// Makes an action wait for others, each in its own way.
    pub fn link_task_requirements(
        &mut self,
        index: usize,
        edges: Vec<(Option<usize>, u8)>,
    ) -> (done: Result<(), ActionGraphError>)
        requires
            state_valid(old(self)@),
            index < old(self)@.nodes.len(),
            may_wait(old(self)@.nodes, index),
            targets_known(edges@, old(self)@.nodes.len()),
        ensures
            (final(self)@, told(done)) == link_all(old(self)@, index, edges@),
            state_valid(final(self)@),
            final(self)@.nodes == old(self)@.nodes,
            old(self)@.graph.edges.is_prefix_of(final(self)@.graph.edges),
    {
        let ghost start = self@;
        let ghost n = start.nodes.len();
        let mut i: usize = 0;
        proof {
            assert(edges@.take(0) =~= Seq::empty());
        }
        while i < edges.len()
            invariant
                i <= edges@.len(),
                state_valid(self@),
                start == old(self)@,
                self@.nodes == start.nodes,
                start.graph.edges.is_prefix_of(self@.graph.edges),
                n == start.nodes.len(),
                index < n,
                may_wait(start.nodes, index),
                targets_known(edges@, n),
                (self@, Ok::<(), ActionGraphFault>(())) == link_all(
                    start,
                    index,
                    edges@.take(i as int),
                ),
            decreases edges.len() - i,
        {
            proof {
                assert(edges@.take(i + 1).drop_last() =~= edges@.take(i as int));
                assert(edges@.take(i + 1).last() == edges@[i as int]);
            }
            if let Some(to) = edges[i].0 {
                assert(edges@[i as int].0 is Some);
                let done = self.link(index, to, edges[i].1);
                if done.is_err() {
                    proof {
                        link_all_stops(start, index, edges@, i + 1);
                    }
                    return done;
                }
            }
            i = i + 1;
        }
        assert(edges@.take(i as int) =~= edges@);
        Ok(())
    }

    /// Makes an action wait for others, as far as they are there.
    pub fn link_optional_requirements(&mut self, index: usize, edges: Vec<Option<usize>>) -> (done:
        Result<(), ActionGraphError>)
        requires
            state_valid(old(self)@),
            index < old(self)@.nodes.len(),
            may_wait(old(self)@.nodes, index),
            edges_known(edges@, old(self)@.nodes.len()),
        ensures
            (final(self)@, told(done)) == link_all(old(self)@, index, required(edges@)),
            state_valid(final(self)@),
            final(self)@.nodes == old(self)@.nodes,
            old(self)@.graph.edges.is_prefix_of(final(self)@.graph.edges),
    {
        let mut targets: Vec<(Option<usize>, u8)> = Vec::new();
        let mut i: usize = 0;
        while i < edges.len()
            invariant
                i <= edges@.len(),
                targets@ =~= required(edges@.take(i as int)),
            decreases edges.len() - i,
        {
            targets.push((edges[i], 1));
            i = i + 1;
        }
        proof {
            assert(edges@.take(i as int) =~= edges@);
            assert forall|j: int| 0 <= j < targets@.len() && (#[trigger] targets@[j]).0 is Some implies
                targets@[j].0->0 < self@.nodes.len() by {
                assert(targets@[j].0 == edges@[j]);
            }
        }
        self.link_task_requirements(index, targets)
    }

    /// Makes an action wait for the first of others that is there.
    pub fn link_first_requirement(&mut self, index: usize, edges: Vec<Option<usize>>) -> (done:
        Result<(), ActionGraphError>)
        requires
            state_valid(old(self)@),
            index < old(self)@.nodes.len(),
            may_wait(old(self)@.nodes, index),
            edges_known(edges@, old(self)@.nodes.len()),
        ensures
            (final(self)@, told(done)) == link_first(old(self)@, index, edges@),
            state_valid(final(self)@),
            final(self)@.nodes == old(self)@.nodes,
            old(self)@.graph.edges.is_prefix_of(final(self)@.graph.edges),
    {
        let mut i: usize = 0;
        proof {
            assert(edges@.take(0) =~= Seq::empty());
        }
        let ghost start = self@;
        while i < edges.len()
            invariant
                i <= edges@.len(),
                start == old(self)@,
                self@ == start,
                state_valid(self@),
                index < self@.nodes.len(),
                may_wait(self@.nodes, index),
                edges_known(edges@, self@.nodes.len()),
                first_some(edges@.take(i as int)) is None,
            decreases edges.len() - i,
        {
            proof {
                assert(edges@.take(i + 1).drop_last() =~= edges@.take(i as int));
                assert(edges@.take(i + 1).last() == edges@[i as int]);
            }
            if let Some(to) = edges[i] {
                assert(edges@[i as int] is Some);
                proof {
                    first_some_stays(edges@, i + 1);
                }
                return self.link(index, to, 1);
            }
            i = i + 1;
        }
        assert(edges@.take(i as int) =~= edges@);
        Ok(())
    }

    /// Makes an action and all tasks below it wait in time for another.
    pub fn link_serial_requirements(&mut self, index: usize, previous: usize)
        requires
            state_valid(old(self)@),
            index < old(self)@.nodes.len(),
            old(self)@.nodes[index as int] is RunTask,
            previous < old(self)@.nodes.len(),
        ensures
            final(self)@ == link_serial(old(self)@, index, previous),
            state_valid(final(self)@),
            final(self)@.nodes == old(self)@.nodes,
            old(self)@.graph.edges.is_prefix_of(final(self)@.graph.edges),
    {
        let ordered = self.tasks_below(index);
        let ghost start = self@;
        let ghost step = try_link(previous);
        let mut i: usize = 0;
        proof {
            assert(ordered@.take(0) =~= Seq::empty());
        }
        while i < ordered.len()
            invariant
                i <= ordered@.len(),
                start == old(self)@,
                state_valid(self@),
                self@.nodes == start.nodes,
                start.graph.edges.is_prefix_of(self@.graph.edges),
                previous < start.nodes.len(),
                forall|j: int|
                    0 <= j < ordered@.len() ==> (#[trigger] ordered@[j]) < start.nodes.len()
                        && start.nodes[ordered@[j] as int] is RunTask,
                step == try_link(previous),
                self@ == fold(ordered@.take(i as int), start, step),
            decreases ordered.len() - i,
        {
            proof {
                fold_step(ordered@, start, step, i as int);
            }
            assert(ordered@[i as int] < start.nodes.len());
            self.try_link_requirements(ordered[i], previous);
            i = i + 1;
        }
        proof {
            fold_end(ordered@, start, step);
        }
    }

    /// Makes an action wait in time for another, where nothing speaks against it.
    fn try_link_requirements(&mut self, index: usize, previous: usize)
        requires
            state_valid(old(self)@),
            index < old(self)@.nodes.len(),
            may_wait(old(self)@.nodes, index),
            previous < old(self)@.nodes.len(),
        ensures
            final(self)@ == try_link(previous)(old(self)@, index),
            state_valid(final(self)@),
            final(self)@.nodes == old(self)@.nodes,
            old(self)@.graph.edges.is_prefix_of(final(self)@.graph.edges),
    {
        let ghost before = self@;
        if self.graph.find_edge(index, previous).is_none() && self.graph.edge_count()
            < u32::MAX as usize {
            if self.graph.add_edge(index, previous, 1) {
                self.serial.push(true);
                proof {
                    with_edge_keeps(before, index, previous, 1, true);
                    assert(self@ == with_edge(before, index, previous, 1, true));
                }
            }
        }
    }

    /// The action and the tasks below it, in the order of a walk.
    fn tasks_below(&self, index: usize) -> (ordered: Vec<usize>)
        requires
            state_valid(self@),
            index < self@.nodes.len(),
            self@.nodes[index as int] is RunTask,
        ensures
            ordered@ == serial_walk(self@, seq![index], Seq::empty()),
            forall|j: int|
                0 <= j < ordered@.len() ==> (#[trigger] ordered@[j]) < self@.nodes.len()
                    && self@.nodes[ordered@[j] as int] is RunTask,
    {
        let edges = self.graph.edges();
        let n = self.nodes.len();
        let ghost state = self@;
        let mut ordered: Vec<usize> = Vec::new();
        let mut stack: Vec<usize> = Vec::new();
        stack.push(index);
        proof {
            assert(stack@ =~= seq![index]);
        }
        while stack.len() > 0 && ordered.len() < n
            invariant
                state == self@,
                state_valid(state),
                n == state.nodes.len(),
                edges@ == state.graph.edges,
                forall|j: int|
                    0 <= j < ordered@.len() ==> (#[trigger] ordered@[j]) < n
                        && state.nodes[ordered@[j] as int] is RunTask,
                forall|j: int|
                    0 <= j < stack@.len() ==> (#[trigger] stack@[j]) < n
                        && state.nodes[stack@[j] as int] is RunTask,
                serial_walk(state, stack@, ordered@) == serial_walk(
                    state,
                    seq![index],
                    Seq::empty(),
                ),
            decreases n - ordered.len(), stack.len(),
        {
            let ghost before = stack@;
            let node: usize = match stack.pop() {
                Some(node) => node,
                None => vstd::pervasive::unreached(),
            };
            assert(before.last() == node);
            assert(stack@ =~= before.drop_last());
            if !has_number(&ordered, node) {
                ordered.push(node);
                let ghost base = stack@;
                let mut i: usize = edges.len();
                assert(base + Seq::<usize>::empty() =~= base);
                while i > 0
                    invariant
                        i <= edges@.len(),
                        state == self@,
                        state_valid(state),
                        edges@ == state.graph.edges,
                        n == state.nodes.len(),
                        forall|j: int|
                            0 <= j < stack@.len() ==> (#[trigger] stack@[j]) < n
                                && state.nodes[stack@[j] as int] is RunTask,
                        stack@ + task_children(state, node, i as int) == base + task_children(
                            state,
                            node,
                            edges@.len() as int,
                        ),
                    decreases i,
                {
                    i = i - 1;
                    let edge = edges[i];
                    assert(edges_within(edges@, state.graph.nodes));
                    assert(edges@[i as int].1 < n);
                    assert(views(self.nodes@)[edge.1 as int] == self.nodes@[edge.1 as int]@);
                    if edge.0 == node && !self.serial[i] && matches!(self.nodes[edge.1], ActionNode::RunTask(_)) {
                        let ghost held = stack@;
                        stack.push(edge.1);
                        assert(stack@ + task_children(state, node, i as int) =~= held + (
                        seq![edge.1] + task_children(state, node, i as int)));
                    }
                }
                assert(stack@ + Seq::<usize>::empty() =~= stack@);
            }
        }
        ordered
    }

    /// Makes a setup wait for the one before it in the same store, where that belongs to
    /// another source root. Setups of one source root are ordered by their own links.
    pub fn order_shared_setup(&mut self, index: usize, context: &SourceContext) -> (done: Result<
        (),
        ActionGraphError,
    >)
        requires
            state_valid(old(self)@),
            index < old(self)@.nodes.len(),
            may_wait(old(self)@.nodes, index),
        ensures
            (final(self)@, told(done)) == order_setup(old(self)@, index, context@),
            state_valid(final(self)@),
            final(self)@.nodes == old(self)@.nodes,
            old(self)@.graph.edges.is_prefix_of(final(self)@.graph.edges),
    {
        let previous: Option<usize> = match self.setup_tails.get(&context.store) {
            Some(tail) => if !tail.source.same_key(&context.source_id) {
                Some(tail.index)
            } else {
                None
            },
            None => None,
        };
        assert(previous is Some ==> previous->0 < self@.nodes.len()) by {
            if previous is Some {
                assert(self@.tails.dom().contains(context@.store));
            }
        }
        self.setup_tails.insert(
            context.store.clone(),
            SetupTail { source: context.source_id.copy_key(), index },
        );
        match previous {
            Some(to) => self.link(index, to, 1),
            None => Ok(()),
        }
    }
}

/// The tasks that an action waits for by edges that are not serial; the edge that was added
/// last comes first.
pub open spec fn task_children(state: StateView, node: usize, n: int) -> Seq<usize>
    decreases n,
{
    if n <= 0 {
        Seq::empty()
    } else {
        let edge = state.graph.edges[n - 1];
        let rest = task_children(state, node, n - 1);
        if edge.0 == node && !state.serial[n - 1] && state.nodes[edge.1 as int] is RunTask {
            seq![edge.1] + rest
        } else {
            rest
        }
    }
}

/// The actions that a walk over the tasks below comes by, in the order in which it comes by
/// them, when some are still to be seen and others have been seen.
pub open spec fn serial_walk(state: StateView, stack: Seq<usize>, seen: Seq<usize>) -> Seq<usize>
    decreases state.nodes.len() - seen.len(), stack.len(),
{
    if stack.len() == 0 || seen.len() >= state.nodes.len() {
        seen
    } else if seen.contains(stack.last()) {
        serial_walk(state, stack.drop_last(), seen)
    } else {
        serial_walk(
            state,
            stack.drop_last() + task_children(
                state,
                stack.last(),
                state.graph.edges.len() as int,
            ),
            seen.push(stack.last()),
        )
    }
}

/// One action waits for another in time only. That is left out where the action does so
/// already, or where it would wait for itself.
pub open spec fn try_link(previous: usize) -> spec_fn(StateView, usize) -> StateView {
    |state: StateView, index: usize|
        if has_edge(state.graph.edges, index, previous) || state.graph.edges.len() >= u32::MAX
            || connected(state.graph.edges, previous, index) {
            state
        } else {
            with_edge(state, index, previous, 1, true)
        }
}

/// An action and all tasks below it wait in time for another.
pub open spec fn link_serial(state: StateView, index: usize, previous: usize) -> StateView {
    fold(serial_walk(state, seq![index], Seq::empty()), state, try_link(previous))
}

/// An action waits for the first of others that is there.
pub open spec fn link_first(state: StateView, index: usize, edges: Seq<Option<usize>>) -> (
    StateView,
    Result<(), ActionGraphFault>,
) {
    match first_some(edges) {
        Some(to) => link_one(state, index, to, 1),
        None => (state, Ok(())),
    }
}

/// A setup becomes the last in its store, and waits for the one before it where that
/// belongs to another source root.
pub open spec fn order_setup(state: StateView, index: usize, context: SourceContextView) -> (
    StateView,
    Result<(), ActionGraphFault>,
) {
    let after = StateView {
        tails: state.tails.insert(context.store, TailView { source: context.source_id, index }),
        ..state
    };
    if state.tails.dom().contains(context.store) && state.tails[context.store].source
        != context.source_id {
        link_one(after, index, state.tails[context.store].index, 1)
    } else {
        (after, Ok(()))
    }
}

/// The first failure ends linking.
proof fn link_all_stops(state: StateView, index: usize, edges: Seq<(Option<usize>, u8)>, n: int)
    requires
        0 <= n <= edges.len(),
        link_all(state, index, edges.take(n)).1 is Err,
    ensures
        link_all(state, index, edges) == link_all(state, index, edges.take(n)),
    decreases edges.len(),
{
    if n == edges.len() {
        assert(edges.take(n) =~= edges);
    } else {
        assert(edges.drop_last().take(n) =~= edges.take(n));
        link_all_stops(state, index, edges.drop_last(), n);
    }
}

/// The first that is there stays the first.
proof fn first_some_stays(edges: Seq<Option<usize>>, n: int)
    requires
        0 <= n <= edges.len(),
        first_some(edges.take(n)) is Some,
    ensures
        first_some(edges) == first_some(edges.take(n)),
    decreases edges.len(),
{
    if n == edges.len() {
        assert(edges.take(n) =~= edges);
    } else {
        assert(edges.drop_last().take(n) =~= edges.take(n));
        first_some_stays(edges.drop_last(), n);
    }
}

/// Whether a number is among others.
pub fn has_number(numbers: &Vec<usize>, number: usize) -> (found: bool)
    ensures
        found == numbers@.contains(number),
{
    let mut i: usize = 0;
    while i < numbers.len()
        invariant
            i <= numbers@.len(),
            forall|j: int| 0 <= j < i ==> #[trigger] numbers@[j] != number,
        decreases numbers.len() - i,
    {
        if numbers[i] == number {
            return true;
        }
        i = i + 1;
    }
    false
}

/// An action keeps its place when others follow.
pub proof fn place_stays(nodes: Seq<NodeView>, node: NodeView, n: int)
    requires
        0 <= n <= nodes.len(),
        place_of_node(nodes.take(n), node) is Some,
    ensures
        place_of_node(nodes, node) == place_of_node(nodes.take(n), node),
    decreases nodes.len(),
{
    if n == nodes.len() {
        assert(nodes.take(n) =~= nodes);
    } else {
        assert(nodes.drop_last().take(n) =~= nodes.take(n));
        place_stays(nodes.drop_last(), node, n);
    }
}

} // verus!
