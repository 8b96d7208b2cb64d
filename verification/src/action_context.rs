//! What the actions of a run share.

use crate::affected_tracker::AggregateAffected;
use crate::invocation::{InvocationView, TaskInvocationKey};
use crate::keys::{TaskKey, TaskKeyView};
use crate::keyset::KeySet;
use crate::order::{view_of, views};
use crate::reports::text_width;
use crate::source::SourceRootId;
use crate::table::{value_views, Duplicate, Key, Table};
use crate::task::{
    ProjectSelector, Target, TargetProjectScope, TargetTaskScope, TargetView, TaskSelector,
};
use vstd::prelude::*;

verus! {

broadcast use {crate::order::group_views, crate::table::value_views_insert};

/// What became of a task.
pub enum TargetStateView {
    Passed(Seq<char>),
    Passthrough,
    Failed,
    Skipped,
    SkippedConditional(Seq<char>),
}

/// What became of a task.
#[derive(Debug, PartialEq, Eq)]
pub enum TargetState {
    /// It passed, with this hash.
    Passed(String),
    /// It passed, without a hash.
    Passthrough,
    /// It failed.
    Failed,
    /// It was skipped, because a dependency failed.
    Skipped,
    /// It was skipped, because its conditions did not ask for it.
    SkippedConditional(String),
}

impl View for TargetState {
    type V = TargetStateView;

    open spec fn view(&self) -> TargetStateView {
        match self {
            TargetState::Passed(hash) => TargetStateView::Passed(hash@),
            TargetState::Passthrough => TargetStateView::Passthrough,
            TargetState::Failed => TargetStateView::Failed,
            TargetState::Skipped => TargetStateView::Skipped,
            TargetState::SkippedConditional(hash) => TargetStateView::SkippedConditional(hash@),
        }
    }
}

impl Duplicate for TargetState {
    fn duplicate(&self) -> Self {
        match self {
            TargetState::Passed(hash) => TargetState::Passed(hash.clone()),
            TargetState::Passthrough => TargetState::Passthrough,
            TargetState::Failed => TargetState::Failed,
            TargetState::Skipped => TargetState::Skipped,
            TargetState::SkippedConditional(hash) => TargetState::SkippedConditional(hash.clone()),
        }
    }
}

impl TargetState {
    /// The state of a task that passed.
    pub fn from_hash(hash: Option<&str>) -> (state: Self)
        ensures
            state@ == (match hash {
                Some(hash) => TargetStateView::Passed(hash@),
                None => TargetStateView::Passthrough,
            }),
    {
        match hash {
            Some(hash) => TargetState::Passed(hash.to_owned()),
            None => TargetState::Passthrough,
        }
    }

    /// Whether the task needs nothing more for others to go on.
    pub fn is_complete(&self) -> (r: bool)
        ensures
            r == (self@ is Passed || self@ is Passthrough || self@ is SkippedConditional),
    {
        match self {
            TargetState::Passed(_) | TargetState::Passthrough
            | TargetState::SkippedConditional(_) => true,
            _ => false,
        }
    }

    /// Whether the task was skipped.
    pub fn is_skipped(&self) -> (r: bool)
        ensures
            r == (self@ is Skipped || self@ is SkippedConditional),
    {
        match self {
            TargetState::Skipped | TargetState::SkippedConditional(_) => true,
            _ => false,
        }
    }
}

/// `scc::HashMap`, values by key that several threads can share.
#[verifier::external_type_specification]
#[verifier::external_body]
#[verifier::reject_recursive_types(K)]
#[verifier::reject_recursive_types(V)]
#[verifier::reject_recursive_types(H)]
pub struct ExSharedMap<K, V, H: std::hash::BuildHasher>(scc::HashMap<K, V, H>);

/// What became of tasks, by task.
pub type TaskStates = scc::HashMap<TaskKey, TargetState, std::hash::RandomState>;

/// What became of the tasks that a map knows of.
pub uninterp spec fn held_states(
    states: scc::HashMap<TaskKey, TargetState, std::hash::RandomState>,
) -> Map<TaskKeyView, TargetStateView>;

/// What is known once the state of a task was noted. What was known before stands.
pub open spec fn noted(
    states: Map<TaskKeyView, TargetStateView>,
    key: TaskKeyView,
    state: TargetStateView,
) -> Map<TaskKeyView, TargetStateView> {
    if states.dom().contains(key) {
        states
    } else {
        states.insert(key, state)
    }
}

/// A list holds what a map holds.
pub open spec fn lists_states(
    list: Seq<(TaskKey, TargetState)>,
    states: Map<TaskKeyView, TargetStateView>,
) -> bool {
    &&& forall|i: int|
        0 <= i < list.len() ==> states.dom().contains((#[trigger] list[i]).0@)
            && states[list[i].0@] == list[i].1@
    &&& forall|key: TaskKeyView| #[trigger]
        states.dom().contains(key) ==> exists|i: int|
            0 <= i < list.len() && (#[trigger] list[i]).0@ == key
}

/// `scc::HashMap::new` gives a map that holds nothing.
#[verifier::external_body]
fn new_states() -> (states: TaskStates)
    ensures
        held_states(states).dom() == Set::<TaskKeyView>::empty(),
{
    scc::HashMap::new()
}

/// `scc::HashMap::insert_sync` puts in a value, unless the map holds one for the key. Keys
/// are equal where their fields are.
#[verifier::external_body]
fn insert_state(states: &mut TaskStates, key: TaskKey, state: TargetState)
    ensures
        held_states(*final(states)) == noted(held_states(*old(states)), key@, state@),
{
    let _ = states.insert_sync(key, state);
}

/// `scc::HashMap::iter_sync` walks over what the map holds, in an order of its own. What a
/// map holds that other threads change meanwhile is left unsaid: here nobody else has it.
#[verifier::external_body]
fn list_states(states: &TaskStates) -> (list: Vec<(TaskKey, TargetState)>)
    ensures
        lists_states(list@, held_states(*states)),
{
    let mut list = Vec::new();
    states.iter_sync(|key, state| {
        list.push((key.copy_key(), state.duplicate()));
        true
    });
    list
}

/// How tasks are asked for.
pub enum LocatorView {
    GlobMatch {
        project: Option<ProjectSelector>,
        project_glob: Option<Seq<char>>,
        task_glob: Seq<char>,
    },
    Qualified(TargetView),
    DefaultProject(Seq<char>),
}

/// How tasks are asked for.
#[derive(Debug)]
pub enum TargetLocator {
    /// By patterns.
    GlobMatch {
        project: Option<TargetProjectScope>,
        project_glob: Option<String>,
        task_glob: String,
    },
    /// By a target.
    Qualified(Target),
    /// By the identifier of a task of the default project.
    DefaultProject(crate::id::Id),
}

impl View for TargetLocator {
    type V = LocatorView;

    open spec fn view(&self) -> LocatorView {
        match self {
            TargetLocator::GlobMatch { project, project_glob, task_glob } =>
                LocatorView::GlobMatch {
                project: view_of(*project),
                project_glob: view_of(*project_glob),
                task_glob: task_glob@,
            },
            TargetLocator::Qualified(target) => LocatorView::Qualified(target@),
            TargetLocator::DefaultProject(task) => LocatorView::DefaultProject(task@),
        }
    }
}

/// What the actions of a run share.
#[derive(Debug)]
pub struct ActionContext {
    /// What is affected, where that was found out.
    pub aggregate_affected: Option<AggregateAffected>,
    /// How tasks were asked for.
    pub initial_targets: Vec<TargetLocator>,
    /// Dependencies that were left out of the run.
    pub ignored_dependencies: Table<TaskKey, KeySet<TaskKey>>,
    /// Arguments for the tasks that were asked for.
    pub passthrough_args: Vec<String>,
    /// The tasks that were asked for.
    pub primary_targets: KeySet<TaskKey>,
    /// The source root that the run was asked for in.
    pub primary_source_id: SourceRootId,
    /// What became of the tasks.
    pub target_states: TaskStates,
    /// What became of invocations of tasks.
    pub invocation_states: Table<TaskInvocationKey, TargetState>,
    /// The files that changed in the primary source root.
    pub changed_files: KeySet<String>,
    /// The files that changed in every source root.
    pub source_changed_files: Table<SourceRootId, KeySet<String>>,
}

/// A target asks for the tasks with an identifier in all projects.
pub open spec fn asks_all(locator: LocatorView, task: Seq<char>) -> bool {
    match locator {
        LocatorView::Qualified(target) => target.project is All && target.task == TaskSelector::Id(
            task,
        ),
        _ => false,
    }
}

/// A task gets the arguments of the run: where it was asked for, by itself or with the
/// tasks of all projects.
pub open spec fn inherits_args(
    args: nat,
    primary: Set<TaskKeyView>,
    initial: Seq<LocatorView>,
    key: TaskKeyView,
    target: TargetView,
) -> bool {
    args > 0 && (primary.contains(key) || (target.task is Id && exists|i: int|
        0 <= i < initial.len() && asks_all(#[trigger] initial[i], target.task->Id_0)))
}

/// How wide the name of a task is in bytes, without its source root, as far as a number can
/// say.
pub open spec fn name_width(key: TaskKeyView) -> usize {
    let width = text_width(key.project.project) + text_width(key.task) + 1;
    if width <= usize::MAX {
        width as usize
    } else {
        usize::MAX
    }
}

impl ActionContext {
    /// A context where nothing was asked for yet.
    pub fn new(primary_source_id: SourceRootId) -> (context: Self)
        ensures
            context.primary_source_id@ == primary_source_id@,
            context.aggregate_affected is None,
            context.invocation_states@ == Map::<InvocationView, TargetState>::empty(),
            context.changed_files@ == Set::<Seq<char>>::empty(),
            context.source_changed_files@ == Map::<Seq<char>, KeySet<String>>::empty(),
            views(context.initial_targets@) == Seq::<LocatorView>::empty(),
            context.ignored_dependencies@ == Map::<TaskKeyView, KeySet<TaskKey>>::empty(),
            views(context.passthrough_args@) == Seq::<Seq<char>>::empty(),
            context.primary_targets@ == Set::<TaskKeyView>::empty(),
            held_states(context.target_states) == Map::<TaskKeyView, TargetStateView>::empty(),
    {
        let context = ActionContext {
            aggregate_affected: None,
            initial_targets: Vec::new(),
            ignored_dependencies: Table::new(),
            passthrough_args: Vec::new(),
            primary_targets: KeySet::new(),
            primary_source_id,
            target_states: new_states(),
            invocation_states: Table::new(),
            changed_files: KeySet::new(),
            source_changed_files: Table::new(),
        };
        assert(held_states(context.target_states) =~= Map::empty());
        assert(views(context.initial_targets@) =~= Seq::empty());
        assert(views(context.passthrough_args@) =~= Seq::empty());
        context
    }

    /// What became of every task.
    pub fn get_target_states(&self) -> (states: Table<TaskKey, TargetState>)
        ensures
            value_views(states@) == held_states(self.target_states),
    {
        let list = list_states(&self.target_states);
        let ghost held = held_states(self.target_states);
        let mut states: Table<TaskKey, TargetState> = Table::new();
        let mut i: usize = 0;
        while i < list.len()
            invariant
                i <= list@.len(),
                lists_states(list@, held),
                forall|key: TaskKeyView| #[trigger]
                    states@.dom().contains(key) ==> held.dom().contains(key) && states@[key]@
                        == held[key],
                forall|j: int| 0 <= j < i ==> states@.dom().contains((#[trigger] list@[j]).0@),
            decreases list.len() - i,
        {
            let entry = &list[i];
            states.insert(entry.0.copy_key(), entry.1.duplicate());
            i = i + 1;
        }
        assert forall|key: TaskKeyView| #[trigger] held.dom().contains(key) implies
            states@.dom().contains(key) by {
            let j = choose|j: int| 0 <= j < list@.len() && (#[trigger] list@[j]).0@ == key;
            assert(states@.dom().contains(list@[j].0@));
        }
        assert(value_views(states@) =~= held);
        states
    }

    /// Whether a task was asked for.
    pub fn is_primary_task(&self, key: &TaskKey) -> (r: bool)
        ensures
            r == self.primary_targets@.contains(key@),
    {
        self.primary_targets.contains(key)
    }

    /// Whether a dependency was left out of the run.
    pub fn is_dependency_ignored(&self, key: &TaskKey, dependency: &TaskKey) -> (r: bool)
        ensures
            r == (self.ignored_dependencies@.dom().contains(key@)
                && self.ignored_dependencies@[key@]@.contains(dependency@)),
    {
        match self.ignored_dependencies.get(key) {
            Some(dependencies) => dependencies.contains(dependency),
            None => false,
        }
    }

    /// Notes what became of a task, unless that was noted before.
    pub fn set_task_state(&mut self, key: TaskKey, state: TargetState)
        ensures
            held_states(final(self).target_states) == noted(
                held_states(old(self).target_states),
                key@,
                state@,
            ),
            final(self).aggregate_affected == old(self).aggregate_affected,
            final(self).initial_targets == old(self).initial_targets,
            final(self).ignored_dependencies == old(self).ignored_dependencies,
            final(self).passthrough_args == old(self).passthrough_args,
            final(self).primary_targets == old(self).primary_targets,
            final(self).primary_source_id == old(self).primary_source_id,
            final(self).invocation_states == old(self).invocation_states,
            final(self).changed_files == old(self).changed_files,
            final(self).source_changed_files == old(self).source_changed_files,
    {
        insert_state(&mut self.target_states, key, state);
    }

    /// Notes what became of an invocation, unless that was noted before.
    pub fn set_invocation_state(&mut self, key: TaskInvocationKey, state: TargetState)
        ensures
            final(self).invocation_states@ == if old(self).invocation_states@.dom().contains(key@) {
                old(self).invocation_states@
            } else {
                old(self).invocation_states@.insert(key@, state)
            },
            final(self).aggregate_affected == old(self).aggregate_affected,
            final(self).initial_targets == old(self).initial_targets,
            final(self).ignored_dependencies == old(self).ignored_dependencies,
            final(self).passthrough_args == old(self).passthrough_args,
            final(self).primary_targets == old(self).primary_targets,
            final(self).primary_source_id == old(self).primary_source_id,
            final(self).target_states == old(self).target_states,
            final(self).changed_files == old(self).changed_files,
            final(self).source_changed_files == old(self).source_changed_files,
    {
        if !self.invocation_states.contains(&key) {
            self.invocation_states.insert(key, state);
        }
    }

    /// How wide the widest name of a task that was asked for is, where one was.
    pub fn prefix_width(&self) -> (width: Option<usize>)
        ensures
            match width {
                None => self.primary_targets@ == Set::<TaskKeyView>::empty(),
                Some(width) => {
                    &&& forall|key: TaskKeyView| #[trigger]
                        self.primary_targets@.contains(key) ==> name_width(key) <= width
                    &&& exists|key: TaskKeyView| #[trigger]
                        self.primary_targets@.contains(key) && name_width(key) == width
                },
            },
    {
        let n = self.primary_targets.len();
        let ghost keys = self.primary_targets.keys();
        let mut width: Option<usize> = None;
        let mut i: usize = 0;
        while i < n
            invariant
                i <= n,
                n == keys.len(),
                keys == self.primary_targets.keys(),
                forall|key: TaskKeyView|
                    self.primary_targets@.contains(key) <==> #[trigger] keys.contains(key),
                match width {
                    None => i == 0,
                    Some(width) => {
                        &&& forall|j: int| 0 <= j < i ==> name_width(#[trigger] keys[j]) <= width
                        &&& exists|j: int| 0 <= j < i && name_width(#[trigger] keys[j]) == width
                    },
                },
            decreases n - i,
        {
            let key = self.primary_targets.key_at(i);
            let own = key.project_key().project_id().as_str().as_bytes().len().saturating_add(
                key.task_id().as_str().as_bytes().len(),
            ).saturating_add(1);
            assert(own == name_width(keys[i as int]));
            width = match width {
                Some(w) => if own > w {
                    Some(own)
                } else {
                    Some(w)
                },
                None => Some(own),
            };
            i = i + 1;
        }
        proof {
            if width is None {
                assert forall|key: TaskKeyView| !self.primary_targets@.contains(key) by {
                    assert(!keys.contains(key));
                }
                assert(self.primary_targets@ =~= Set::empty());
            } else {
                let j = choose|j: int| 0 <= j < n && name_width(#[trigger] keys[j]) == width->0;
                assert(keys.contains(keys[j]));
                assert(self.primary_targets@.contains(keys[j]));
                assert forall|key: TaskKeyView| #[trigger]
                    self.primary_targets@.contains(key) implies name_width(key) <= width->0 by {
                    assert(keys.contains(key));
                    let k = choose|k: int| 0 <= k < keys.len() && keys[k] == key;
                    assert(name_width(keys[k]) <= width->0);
                }
            }
        }
        width
    }

    /// Whether a task gets the arguments of the run.
    pub fn should_inherit_args(&self, key: &TaskKey, target: &Target) -> (r: bool)
        ensures
            r == inherits_args(
                self.passthrough_args@.len(),
                self.primary_targets@,
                views(self.initial_targets@),
                key@,
                target@,
            ),
    {
        if self.passthrough_args.len() == 0 {
            return false;
        }
        if self.primary_targets.contains(key) {
            return true;
        }
        let task = match &target.task {
            TargetTaskScope::Id(task) => task,
            TargetTaskScope::Tag(_) => {
                return false;
            },
        };
        let ghost all = views(self.initial_targets@);
        let mut i: usize = 0;
        while i < self.initial_targets.len()
            invariant
                i <= self.initial_targets@.len(),
                all == views(self.initial_targets@),
                target@.task == TaskSelector::Id(task@),
                self.passthrough_args@.len() > 0,
                forall|j: int| 0 <= j < i ==> !asks_all(#[trigger] all[j], task@),
            decreases self.initial_targets.len() - i,
        {
            assert(all[i as int] == self.initial_targets[i as int]@);
            if let TargetLocator::Qualified(other) = &self.initial_targets[i] {
                if let (TargetProjectScope::All, TargetTaskScope::Id(id)) = (
                    &other.project,
                    &other.task,
                ) {
                    if id.same_key(task) {
                        return true;
                    }
                }
            }
            i = i + 1;
        }
        false
    }
}

} // verus!
