//! The plugins of one type: which are loaded, and how loads that run together settle.

use crate::id::Id;
use crate::keyset::KeySet;
use crate::order::views;
use crate::plugin_host::PluginType;
use crate::table::Key;
use vstd::prelude::*;

verus! {

broadcast use crate::order::group_views;

/// The time that a version control plugin may take, in milliseconds.
pub const VCS_PLUGIN_TIMEOUT_MS: u64 = 120_000;

/// Why a plugin is not loaded.
pub enum PluginFault {
    UnknownId { id: Seq<char>, ty: PluginType },
    ExistingId { id: Seq<char>, ty: PluginType },
    PolicyChanged,
}

/// Why a plugin is not loaded.
#[derive(Debug)]
pub enum PluginError {
    /// Nothing says where the plugin is.
    UnknownId { id: Id, ty: PluginType },
    /// A plugin with this identifier is registered already.
    ExistingId { id: Id, ty: PluginType },
    /// What a version control plugin may do is for the host to say.
    PolicyChanged,
}

impl View for PluginError {
    type V = PluginFault;

    open spec fn view(&self) -> PluginFault {
        match self {
            PluginError::UnknownId { id, ty } => PluginFault::UnknownId { id: id@, ty: *ty },
            PluginError::ExistingId { id, ty } => PluginFault::ExistingId { id: id@, ty: *ty },
            PluginError::PolicyChanged => PluginFault::PolicyChanged,
        }
    }
}

/// The number of the instance of every plugin that is loaded, by identifier.
pub type Instances = scc::HashMap<String, usize, std::hash::RandomState>;

/// The instances that a map holds.
pub uninterp spec fn held_instances(
    instances: scc::HashMap<String, usize, std::hash::RandomState>,
) -> Map<Seq<char>, usize>;

/// `scc::HashMap::new` gives a map that holds nothing.
#[verifier::external_body]
fn new_instances() -> (instances: Instances)
    ensures
        held_instances(instances).dom() == Set::<Seq<char>>::empty(),
{
    scc::HashMap::new()
}

/// The instance that is known for an identifier, where one is.
pub open spec fn instance_of(instances: Map<Seq<char>, usize>, id: Seq<char>) -> Option<usize> {
    if instances.dom().contains(id) {
        Some(instances[id])
    } else {
        None
    }
}

/// `scc::HashMap::read_sync` hands out what the map holds for a key, where it holds
/// something. What a map holds that other threads change meanwhile is left unsaid: here
/// nobody else has it.
#[verifier::external_body]
fn find_instance(instances: &Instances, id: &str) -> (instance: Option<usize>)
    ensures
        instance == instance_of(held_instances(*instances), id@),
{
    instances.read_sync(id, |_, instance| *instance)
}

/// The instances after one was put in. One that was known before stays.
pub open spec fn with_instance(
    instances: Map<Seq<char>, usize>,
    id: Seq<char>,
    instance: usize,
) -> Map<Seq<char>, usize> {
    if instances.dom().contains(id) {
        instances
    } else {
        instances.insert(id, instance)
    }
}

/// `scc::HashMap::insert_sync` puts in a value, unless the map holds one for the key.
#[verifier::external_body]
fn insert_instance(instances: &mut Instances, id: String, instance: usize)
    ensures
        held_instances(*final(instances)) == with_instance(
            held_instances(*old(instances)),
            id@,
            instance,
        ),
{
    let _ = instances.insert_sync(id, instance);
}

/// The plugins of one type.
pub struct RegistryView {
    pub type_of: PluginType,
    pub locators: Set<Seq<char>>,
    pub plugins: Map<Seq<char>, usize>,
}

/// The plugins of one type: for which ones a place is configured, and the instances of those
/// that are loaded.
#[derive(Debug)]
pub struct PluginRegistry {
    type_of: PluginType,
    locators: KeySet<Id>,
    plugins: Instances,
}

impl View for PluginRegistry {
    type V = RegistryView;

    closed spec fn view(&self) -> RegistryView {
        RegistryView {
            type_of: self.type_of,
            locators: self.locators@,
            plugins: held_instances(self.plugins),
        }
    }
}

/// How a plugin is had.
#[derive(Clone, Copy, PartialEq, Eq, Structural, Debug)]
pub enum LoadStep {
    /// An instance is registered.
    UseExisting(usize),
    /// The plugin has to be loaded.
    Acquire,
}

/// How several plugins are had.
pub enum LoadPlan {
    Registered(Seq<usize>),
    Load(Seq<Seq<char>>),
}

/// How several plugins are had.
#[derive(Debug)]
pub enum LoadManyPlan {
    /// All are registered: their instances, in order.
    Registered(Vec<usize>),
    /// These have to be loaded, in order.
    Load(Vec<Id>),
}

impl View for LoadManyPlan {
    type V = LoadPlan;

    open spec fn view(&self) -> LoadPlan {
        match self {
            LoadManyPlan::Registered(instances) => LoadPlan::Registered(instances@),
            LoadManyPlan::Load(ids) => LoadPlan::Load(views(ids@)),
        }
    }
}

/// How a plugin is had, where it is known.
pub open spec fn load_step(registry: RegistryView, id: Seq<char>) -> Result<LoadStep, PluginFault> {
    if registry.plugins.dom().contains(id) {
        Ok(LoadStep::UseExisting(registry.plugins[id]))
    } else if registry.locators.contains(id) {
        Ok(LoadStep::Acquire)
    } else {
        Err(PluginFault::UnknownId { id, ty: registry.type_of })
    }
}

/// Whether all plugins are registered.
pub open spec fn all_registered(registry: RegistryView, ids: Seq<Seq<char>>) -> bool {
    forall|i: int| 0 <= i < ids.len() ==> registry.plugins.dom().contains(#[trigger] ids[i])
}

/// How several plugins are had. Where one is missing, all are loaded that have a place.
pub open spec fn load_plan(registry: RegistryView, ids: Seq<Seq<char>>) -> LoadPlan {
    if all_registered(registry, ids) {
        LoadPlan::Registered(ids.map_values(|id: Seq<char>| registry.plugins[id]))
    } else {
        LoadPlan::Load(ids.filter(|id: Seq<char>| registry.locators.contains(id)))
    }
}

/// What comes of a plugin that was loaded. One that was registered meanwhile stays, and a load
/// that was to be verified does not take another's instance.
pub open spec fn settled(
    registry: RegistryView,
    id: Seq<char>,
    instance: usize,
    verified: bool,
) -> (RegistryView, Result<usize, PluginFault>) {
    if !registry.plugins.dom().contains(id) {
        (
            RegistryView { plugins: registry.plugins.insert(id, instance), ..registry },
            Ok(instance),
        )
    } else if verified {
        (registry, Err(PluginFault::ExistingId { id, ty: registry.type_of }))
    } else {
        (registry, Ok(registry.plugins[id]))
    }
}

/// What an instance or an error shows.
pub open spec fn instance_outcome(result: Result<usize, PluginError>) -> Result<
    usize,
    PluginFault,
> {
    match result {
        Ok(instance) => Ok(instance),
        Err(error) => Err(error@),
    }
}

impl PluginRegistry {
    /// A registry without plugins.
    pub fn new(type_of: PluginType, locators: KeySet<Id>) -> (registry: Self)
        ensures
            registry@ == (RegistryView { type_of, locators: locators@, plugins: Map::empty() }),
    {
        let registry = PluginRegistry { type_of, locators, plugins: new_instances() };
        assert(registry@.plugins =~= Map::empty());
        registry
    }

    /// Whether a plugin is loaded.
    pub fn is_registered(&self, id: &Id) -> (registered: bool)
        ensures
            registered == self@.plugins.dom().contains(id@),
    {
        find_instance(&self.plugins, id.as_str()).is_some()
    }

    /// The instance of a plugin that is loaded.
    pub fn get_instance(&self, id: &Id) -> (instance: Result<usize, PluginError>)
        ensures
            instance_outcome(instance) == if self@.plugins.dom().contains(id@) {
                Ok::<usize, PluginFault>(self@.plugins[id@])
            } else {
                Err(PluginFault::UnknownId { id: id@, ty: self@.type_of })
            },
    {
        match find_instance(&self.plugins, id.as_str()) {
            Some(instance) => Ok(instance),
            None => Err(PluginError::UnknownId { id: id.copy_key(), ty: self.type_of }),
        }
    }

    /// How a plugin is had, where it is known.
    pub fn load(&self, id: &Id) -> (step: Result<LoadStep, PluginError>)
        ensures
            match step {
                Ok(step) => load_step(self@, id@) == Ok::<LoadStep, PluginFault>(step),
                Err(error) => load_step(self@, id@) == Err::<LoadStep, PluginFault>(error@),
            },
    {
        match find_instance(&self.plugins, id.as_str()) {
            Some(instance) => Ok(LoadStep::UseExisting(instance)),
            None => if self.locators.contains(id) {
                Ok(LoadStep::Acquire)
            } else {
                Err(PluginError::UnknownId { id: id.copy_key(), ty: self.type_of })
            },
        }
    }

    /// How several plugins are had.
    pub fn load_many(&self, ids: &Vec<Id>) -> (plan: LoadManyPlan)
        ensures
            plan@ == load_plan(self@, views(ids@)),
    {
        let ghost all = views(ids@);
        let ghost located = |id: Seq<char>| self@.locators.contains(id);
        let mut instances: Vec<usize> = Vec::new();
        let mut missing: Vec<Id> = Vec::new();
        let mut complete = true;
        let mut i: usize = 0;
        proof {
            assert(all.take(0) =~= Seq::empty());
            reveal(Seq::filter);
        }
        while i < ids.len()
            invariant
                i <= ids@.len(),
                all == views(ids@),
                located == (|id: Seq<char>| self@.locators.contains(id)),
                complete == all_registered(self@, all.take(i as int)),
                complete ==> instances@ =~= all.take(i as int).map_values(
                    |id: Seq<char>| self@.plugins[id],
                ),
                views(missing@) == all.take(i as int).filter(located),
            decreases ids.len() - i,
        {
            let id = &ids[i];
            proof {
                reveal(Seq::filter);
                assert(all.take(i + 1).drop_last() =~= all.take(i as int));
                assert(all.take(i + 1).last() == id@);
                let now = all.take(i + 1);
                assert forall|k: int| 0 <= k < i implies #[trigger] now[k] == all.take(
                    i as int,
                )[k] by {}
                if all_registered(self@, now) {
                    assert forall|k: int| 0 <= k < i implies self@.plugins.dom().contains(
                        #[trigger] all.take(i as int)[k],
                    ) by {
                        assert(now[k] == all.take(i as int)[k]);
                    }
                    assert(now[i as int] == id@);
                }
                if all_registered(self@, all.take(i as int)) && self@.plugins.dom().contains(id@) {
                    assert forall|k: int| 0 <= k < now.len() implies self@.plugins.dom().contains(
                        #[trigger] now[k],
                    ) by {
                        if k < i {
                            assert(now[k] == all.take(i as int)[k]);
                        }
                    }
                }
            }
            match find_instance(&self.plugins, id.as_str()) {
                Some(instance) => {
                    instances.push(instance);
                },
                None => {
                    complete = false;
                },
            }
            if self.locators.contains(id) {
                missing.push(id.copy_key());
            }
            i = i + 1;
        }
        assert(all.take(i as int) =~= all);
        if complete {
            LoadManyPlan::Registered(instances)
        } else {
            LoadManyPlan::Load(missing)
        }
    }

    /// Begins a load. One that is to be verified acquires the plugin even where one is
    /// registered.
    pub fn begin_load(&self, id: &Id, verified: bool) -> (start: LoadStart)
        ensures
            start@ == begun(self@, id@, verified),
    {
        let found = find_instance(&self.plugins, id.as_str());
        if !verified {
            if let Some(instance) = found {
                return LoadStart::UseExisting(instance);
            }
        }
        LoadStart::Acquire(
            PluginLoad {
                type_of: self.type_of,
                id: id.copy_key(),
                verified,
                existing: found.is_some(),
                stage: LoadStage::Acquiring,
            },
        )
    }

    /// Registers an instance, unless another load was first.
    fn finish_load(&mut self, id: &Id, instance: usize, verified: bool) -> (loaded: Result<
        usize,
        PluginError,
    >)
        ensures
            (final(self)@, instance_outcome(loaded)) == settled(
                old(self)@,
                id@,
                instance,
                verified,
            ),
    {
        match find_instance(&self.plugins, id.as_str()) {
            Some(existing) => if verified {
                Err(PluginError::ExistingId { id: id.copy_key(), ty: self.type_of })
            } else {
                Ok(existing)
            },
            None => {
                insert_instance(&mut self.plugins, id.as_str().to_owned(), instance);
                Ok(instance)
            },
        }
    }

    /// Goes on with a load after something happened, and says what is to be done next.
    pub fn continue_load(&mut self, load: &mut PluginLoad, event: LoadEvent) -> (action: Result<
        LoadAction,
        PluginError,
    >)
        ensures
            (final(self)@, final(load)@, action_outcome(action)) == load_next(
                old(self)@,
                old(load)@,
                event@,
            ),
    {
        if load.type_of != self.type_of {
            return Ok(LoadAction::Ignore);
        }
        match (load.stage, event) {
            (LoadStage::Acquiring, LoadEvent::Acquired) => if load.verified {
                load.stage = LoadStage::Verifying;
                Ok(LoadAction::Verify)
            } else {
                load.leave_existing()
            },
            (LoadStage::Verifying, LoadEvent::Verified) => load.leave_existing(),
            (LoadStage::Preparing, LoadEvent::Prepared(policy)) => {
                load.stage = LoadStage::Configuring;
                Ok(LoadAction::Configure(impose_policy(self.type_of, policy)))
            },
            (LoadStage::Configuring, LoadEvent::Configured(policy)) => {
                match check_policy(self.type_of, &policy) {
                    Ok(()) => {
                        load.stage = LoadStage::Creating;
                        Ok(LoadAction::Create)
                    },
                    Err(error) => {
                        load.stage = LoadStage::Over;
                        Err(error)
                    },
                }
            },
            (LoadStage::Creating, LoadEvent::Created(instance)) => {
                load.stage = LoadStage::Over;
                match self.finish_load(&load.id, instance, load.verified) {
                    Ok(instance) => Ok(LoadAction::Use(instance)),
                    Err(error) => Err(error),
                }
            },
            _ => Ok(LoadAction::Ignore),
        }
    }
}

/// How far a load has come.
#[derive(Clone, Copy, PartialEq, Eq, Structural, Debug)]
pub enum LoadStage {
    /// The file of the plugin is being had.
    Acquiring,
    /// The file is being verified.
    Verifying,
    /// What the plugin may reach is being written down.
    Preparing,
    /// The plugin is being configured.
    Configuring,
    /// The instance is being made.
    Creating,
    /// The load has ended.
    Over,
}

/// A load that runs.
pub struct LoadView {
    pub type_of: PluginType,
    pub id: Seq<char>,
    pub verified: bool,
    pub existing: bool,
    pub stage: LoadStage,
}

/// A load that runs.
#[derive(Debug)]
pub struct PluginLoad {
    type_of: PluginType,
    id: Id,
    verified: bool,
    existing: bool,
    stage: LoadStage,
}

impl View for PluginLoad {
    type V = LoadView;

    closed spec fn view(&self) -> LoadView {
        LoadView {
            type_of: self.type_of,
            id: self.id@,
            verified: self.verified,
            existing: self.existing,
            stage: self.stage,
        }
    }
}

/// How a load begins.
pub enum StartView {
    UseExisting(usize),
    Acquire(LoadView),
}

/// How a load begins.
#[derive(Debug)]
pub enum LoadStart {
    /// An instance is registered.
    UseExisting(usize),
    /// The file of the plugin is to be had.
    Acquire(PluginLoad),
}

impl View for LoadStart {
    type V = StartView;

    open spec fn view(&self) -> StartView {
        match self {
            LoadStart::UseExisting(instance) => StartView::UseExisting(*instance),
            LoadStart::Acquire(load) => StartView::Acquire(load@),
        }
    }
}

/// What happened to a load.
pub enum EventView {
    Acquired,
    Verified,
    Prepared(PolicyView),
    Configured(PolicyView),
    Created(usize),
}

/// What happened to a load.
#[derive(Debug)]
pub enum LoadEvent {
    /// The file of the plugin is there.
    Acquired,
    /// The file is the one that was asked for.
    Verified,
    /// What the plugin may reach was written down.
    Prepared(PluginPolicy),
    /// The plugin was configured, and may reach this.
    Configured(PluginPolicy),
    /// The instance was made.
    Created(usize),
}

impl View for LoadEvent {
    type V = EventView;

    open spec fn view(&self) -> EventView {
        match self {
            LoadEvent::Acquired => EventView::Acquired,
            LoadEvent::Verified => EventView::Verified,
            LoadEvent::Prepared(policy) => EventView::Prepared(policy@),
            LoadEvent::Configured(policy) => EventView::Configured(policy@),
            LoadEvent::Created(instance) => EventView::Created(*instance),
        }
    }
}

/// What is to be done for a load.
pub enum ActionView {
    Verify,
    Prepare,
    Configure(PolicyView),
    Create,
    Use(usize),
    Ignore,
}

/// What is to be done for a load.
#[derive(Debug)]
pub enum LoadAction {
    /// Verify the file.
    Verify,
    /// Write down what the plugin may reach.
    Prepare,
    /// Configure the plugin, which may reach this.
    Configure(PluginPolicy),
    /// Make the instance.
    Create,
    /// The load has ended with this instance.
    Use(usize),
    /// Nothing: what happened does not belong to this stage of the load.
    Ignore,
}

impl View for LoadAction {
    type V = ActionView;

    open spec fn view(&self) -> ActionView {
        match self {
            LoadAction::Verify => ActionView::Verify,
            LoadAction::Prepare => ActionView::Prepare,
            LoadAction::Configure(policy) => ActionView::Configure(policy@),
            LoadAction::Create => ActionView::Create,
            LoadAction::Use(instance) => ActionView::Use(*instance),
            LoadAction::Ignore => ActionView::Ignore,
        }
    }
}

/// What an action or an error shows.
pub open spec fn action_outcome(result: Result<LoadAction, PluginError>) -> Result<
    ActionView,
    PluginFault,
> {
    match result {
        Ok(action) => Ok(action@),
        Err(error) => Err(error@),
    }
}

/// How a load begins.
pub open spec fn begun(registry: RegistryView, id: Seq<char>, verified: bool) -> StartView {
    if !verified && registry.plugins.dom().contains(id) {
        StartView::UseExisting(registry.plugins[id])
    } else {
        StartView::Acquire(
            LoadView {
                type_of: registry.type_of,
                id,
                verified,
                existing: registry.plugins.dom().contains(id),
                stage: LoadStage::Acquiring,
            },
        )
    }
}

/// A load whose file is there and, where that was asked for, verified. A plugin that was
/// registered before is not replaced.
pub open spec fn existing_left(load: LoadView) -> (LoadView, Result<ActionView, PluginFault>) {
    if load.existing {
        (
            LoadView { stage: LoadStage::Over, ..load },
            Err(PluginFault::ExistingId { id: load.id, ty: load.type_of }),
        )
    } else {
        (LoadView { stage: LoadStage::Preparing, ..load }, Ok(ActionView::Prepare))
    }
}

/// What a plugin may reach before its configuration: for version control the host decides.
pub open spec fn imposed_policy(type_of: PluginType, policy: PolicyView) -> PolicyView {
    if type_of == PluginType::Vcs {
        vcs_policy()
    } else {
        policy
    }
}

/// Whether a plugin may reach what its type allows.
pub open spec fn keeps_policy(type_of: PluginType, policy: PolicyView) -> bool {
    type_of == PluginType::Vcs ==> policy == vcs_policy()
}

/// What comes of a registry and of a load when something happens to the load, and what is to
/// be done next.
pub open spec fn load_next(registry: RegistryView, load: LoadView, event: EventView) -> (
    RegistryView,
    LoadView,
    Result<ActionView, PluginFault>,
) {
    if load.type_of != registry.type_of {
        (registry, load, Ok(ActionView::Ignore))
    } else {
        match (load.stage, event) {
            (LoadStage::Acquiring, EventView::Acquired) => if load.verified {
                (registry, LoadView { stage: LoadStage::Verifying, ..load }, Ok(ActionView::Verify))
            } else {
                (registry, existing_left(load).0, existing_left(load).1)
            },
            (LoadStage::Verifying, EventView::Verified) => {
                (registry, existing_left(load).0, existing_left(load).1)
            },
            (LoadStage::Preparing, EventView::Prepared(policy)) => {
                (
                    registry,
                    LoadView { stage: LoadStage::Configuring, ..load },
                    Ok(ActionView::Configure(imposed_policy(load.type_of, policy))),
                )
            },
            (LoadStage::Configuring, EventView::Configured(policy)) => {
                if keeps_policy(load.type_of, policy) {
                    (
                        registry,
                        LoadView { stage: LoadStage::Creating, ..load },
                        Ok(ActionView::Create),
                    )
                } else {
                    (
                        registry,
                        LoadView { stage: LoadStage::Over, ..load },
                        Err(PluginFault::PolicyChanged),
                    )
                }
            },
            (LoadStage::Creating, EventView::Created(instance)) => {
                let (after, loaded) = settled(registry, load.id, instance, load.verified);
                (
                    after,
                    LoadView { stage: LoadStage::Over, ..load },
                    match loaded {
                        Ok(used) => Ok(ActionView::Use(used)),
                        Err(fault) => Err(fault),
                    },
                )
            },
            _ => (registry, load, Ok(ActionView::Ignore)),
        }
    }
}

impl PluginLoad {
    /// Goes on once the file is there and verified, unless a plugin was registered before.
    fn leave_existing(&mut self) -> (action: Result<LoadAction, PluginError>)
        ensures
            (final(self)@, action_outcome(action)) == existing_left(old(self)@),
    {
        if self.existing {
            self.stage = LoadStage::Over;
            Err(PluginError::ExistingId { id: self.id.copy_key(), ty: self.type_of })
        } else {
            self.stage = LoadStage::Preparing;
            Ok(LoadAction::Prepare)
        }
    }
}

/// Of two loads of one plugin that run together, both get the instance of the first, and it
/// stays registered.
pub proof fn loads_agree(
    registry: RegistryView,
    id: Seq<char>,
    first: usize,
    second: usize,
)
    requires
        !registry.plugins.dom().contains(id),
    ensures
        ({
            let (after, loaded) = settled(registry, id, first, false);
            let (last, again) = settled(after, id, second, false);
            &&& loaded == Ok::<usize, PluginFault>(first)
            &&& again == loaded
            &&& last == after
        }),
{
}

/// What a plugin may reach.
pub struct PolicyView {
    pub allowed_hosts: Option<Seq<Seq<char>>>,
    pub allowed_paths: Option<Seq<(Seq<char>, Seq<char>)>>,
    pub timeout_ms: Option<u64>,
}

/// What a plugin may reach: hosts, directories with the paths under which it sees them, and
/// how long it may take. What is missing is not limited.
#[derive(Debug)]
pub struct PluginPolicy {
    pub allowed_hosts: Option<Vec<String>>,
    pub allowed_paths: Option<Vec<(String, String)>>,
    pub timeout_ms: Option<u64>,
}

impl View for PluginPolicy {
    type V = PolicyView;

    open spec fn view(&self) -> PolicyView {
        PolicyView {
            allowed_hosts: match self.allowed_hosts {
                Some(hosts) => Some(views(hosts@)),
                None => None,
            },
            allowed_paths: match self.allowed_paths {
                Some(paths) => Some(
                    paths@.map_values(|path: (String, String)| (path.0@, path.1@)),
                ),
                None => None,
            },
            timeout_ms: self.timeout_ms,
        }
    }
}

/// What a version control plugin may reach: no host and no directory.
pub open spec fn vcs_policy() -> PolicyView {
    PolicyView {
        allowed_hosts: Some(Seq::empty()),
        allowed_paths: Some(Seq::empty()),
        timeout_ms: Some(VCS_PLUGIN_TIMEOUT_MS),
    }
}

/// What a plugin may reach before its configuration: for version control the host decides.
fn impose_policy(type_of: PluginType, policy: PluginPolicy) -> (imposed: PluginPolicy)
    ensures
        imposed@ == imposed_policy(type_of, policy@),
{
    match type_of {
        PluginType::Vcs => {
            let imposed = PluginPolicy {
                allowed_hosts: Some(Vec::new()),
                allowed_paths: Some(Vec::new()),
                timeout_ms: Some(VCS_PLUGIN_TIMEOUT_MS),
            };
            proof {
                assert(imposed@.allowed_hosts->0 =~= Seq::empty());
                assert(imposed@.allowed_paths->0 =~= Seq::empty());
            }
            imposed
        },
        _ => policy,
    }
}

/// What a plugin may reach after its configuration: for version control it is as before.
fn check_policy(type_of: PluginType, policy: &PluginPolicy) -> (kept: Result<(), PluginError>)
    ensures
        match kept {
            Ok(()) => keeps_policy(type_of, policy@),
            Err(error) => !keeps_policy(type_of, policy@) && error@ is PolicyChanged,
        },
{
    match type_of {
        PluginType::Vcs => {
            let no_hosts = match &policy.allowed_hosts {
                Some(hosts) => hosts.len() == 0,
                None => false,
            };
            let no_paths = match &policy.allowed_paths {
                Some(paths) => paths.len() == 0,
                None => false,
            };
            let same_timeout = match policy.timeout_ms {
                Some(timeout) => timeout == VCS_PLUGIN_TIMEOUT_MS,
                None => false,
            };
            if no_hosts && no_paths && same_timeout {
                proof {
                    assert(policy@.allowed_hosts->0 =~= vcs_policy().allowed_hosts->0);
                    assert(policy@.allowed_paths->0 =~= vcs_policy().allowed_paths->0);
                }
                Ok(())
            } else {
                proof {
                    if policy@ == vcs_policy() {
                        assert(policy@.allowed_hosts->0.len() == 0);
                        assert(policy@.allowed_paths->0.len() == 0);
                    }
                }
                Err(PluginError::PolicyChanged)
            }
        },
        _ => Ok(()),
    }
}

/// A load after things happened to it, each at a time when the registry was in some state:
/// other loads change it meanwhile.
pub open spec fn load_after(load: LoadView, steps: Seq<(RegistryView, EventView)>) -> LoadView
    decreases steps.len(),
{
    if steps.len() == 0 {
        load
    } else {
        let (registry, event) = steps.last();
        load_next(registry, load_after(load, steps.drop_last()), event).1
    }
}

/// Of the things that happened to a load, those that belonged to the stage it was at.
pub open spec fn heeded(load: LoadView, steps: Seq<(RegistryView, EventView)>) -> Seq<EventView>
    decreases steps.len(),
{
    if steps.len() == 0 {
        Seq::empty()
    } else {
        let (registry, event) = steps.last();
        let before = heeded(load, steps.drop_last());
        if load_next(registry, load_after(load, steps.drop_last()), event).2
            == Ok::<ActionView, PluginFault>(ActionView::Ignore) {
            before
        } else {
            before.push(event)
        }
    }
}

/// What has to happen before a plugin is looked into.
pub open spec fn checks(verified: bool) -> Seq<EventView> {
    if verified {
        seq![EventView::Acquired, EventView::Verified]
    } else {
        seq![EventView::Acquired]
    }
}

/// What has to happen before the instance of a plugin is made.
pub open spec fn configuration(prepared: PolicyView, configured: PolicyView) -> Seq<EventView> {
    seq![EventView::Prepared(prepared), EventView::Configured(configured)]
}

/// What has to happen before a plugin is configured.
spec fn preparation(prepared: PolicyView) -> Seq<EventView> {
    seq![EventView::Prepared(prepared)]
}

/// What has happened to a load that has come to a stage.
spec fn came_to(load: LoadView, events: Seq<EventView>) -> bool {
    match load.stage {
        LoadStage::Acquiring => events == Seq::<EventView>::empty(),
        LoadStage::Verifying => load.verified && events == seq![EventView::Acquired],
        LoadStage::Preparing => !load.existing && events == checks(load.verified),
        LoadStage::Configuring => !load.existing && exists|prepared: PolicyView|
            events == checks(load.verified) + #[trigger] preparation(prepared),
        LoadStage::Creating => !load.existing && exists|
            prepared: PolicyView,
            configured: PolicyView,
        |
            events == checks(load.verified) + #[trigger] configuration(prepared, configured)
                && keeps_policy(load.type_of, configured),
        LoadStage::Over => true,
    }
}

proof fn loads_come_in_order(load: LoadView, steps: Seq<(RegistryView, EventView)>)
    requires
        load.stage == LoadStage::Acquiring,
    ensures
        came_to(load_after(load, steps), heeded(load, steps)),
        load_after(load, steps) == (LoadView { stage: load_after(load, steps).stage, ..load }),
    decreases steps.len(),
{
    if steps.len() > 0 {
        let rest = steps.drop_last();
        loads_come_in_order(load, rest);
        let (registry, event) = steps.last();
        let before = load_after(load, rest);
        let events = heeded(load, rest);
        let after = load_after(load, steps);
        if load_next(registry, before, event).2 != Ok::<ActionView, PluginFault>(
            ActionView::Ignore,
        ) {
            assert(heeded(load, steps) == events.push(event));
            match (before.stage, event) {
                (LoadStage::Acquiring, EventView::Acquired) => {
                    assert(events.push(event) =~= seq![EventView::Acquired]);
                },
                (LoadStage::Verifying, EventView::Verified) => {
                    assert(events.push(event) =~= checks(true));
                },
                (LoadStage::Preparing, EventView::Prepared(prepared)) => {
                    assert(events.push(event) =~= checks(load.verified) + preparation(prepared));
                },
                (LoadStage::Configuring, EventView::Configured(configured)) => {
                    let prepared = choose|prepared: PolicyView|
                        events == checks(load.verified) + #[trigger] preparation(prepared);
                    assert(events.push(event) =~= checks(load.verified) + configuration(
                        prepared,
                        configured,
                    ));
                },
                _ => {},
            }
        }
    }
}

/// Whatever happens to a load and in whatever order, and whatever other loads do to the
/// registry meanwhile: it registers something only where nothing was registered when it began
/// nor since, once its file was had and, where that was asked for, verified, and once it was
/// configured. It is then the instance that was made, and a version control plugin may reach
/// no host and no directory.
pub proof fn only_checked_plugins_are_registered(
    begin: RegistryView,
    id: Seq<char>,
    verified: bool,
    load: LoadView,
    steps: Seq<(RegistryView, EventView)>,
    registry: RegistryView,
    event: EventView,
)
    requires
        begun(begin, id, verified) == StartView::Acquire(load),
        load_next(registry, load_after(load, steps), event).0 != registry,
    ensures
        registry.type_of == begin.type_of,
        !begin.plugins.dom().contains(id),
        !registry.plugins.dom().contains(id),
        event matches EventView::Created(instance) && load_next(
            registry,
            load_after(load, steps),
            event,
        ).0 == (RegistryView { plugins: registry.plugins.insert(id, instance), ..registry }),
        exists|prepared: PolicyView, configured: PolicyView|
            heeded(load, steps) == checks(verified) + #[trigger] configuration(
                prepared,
                configured,
            ) && keeps_policy(begin.type_of, configured),
{
    loads_come_in_order(load, steps);
}

/// A load that has ended does nothing more.
pub proof fn loads_end(registry: RegistryView, load: LoadView, event: EventView)
    requires
        load.stage == LoadStage::Over,
    ensures
        load_next(registry, load, event) == (
            registry,
            load,
            Ok::<ActionView, PluginFault>(ActionView::Ignore),
        ),
{
}

/// A load to which everything happens in order, in a registry that nothing else changes,
/// registers its instance where none was registered, and says to use it.
pub proof fn loads_in_order_register(
    registry: RegistryView,
    id: Seq<char>,
    verified: bool,
    prepared: PolicyView,
    configured: PolicyView,
    instance: usize,
)
    requires
        !registry.plugins.dom().contains(id),
        keeps_policy(registry.type_of, configured),
    ensures
        begun(registry, id, verified) matches StartView::Acquire(load) && load_next(
            registry,
            load_after(
                load,
                (checks(verified) + configuration(prepared, configured)).map_values(
                    |event: EventView| (registry, event),
                ),
            ),
            EventView::Created(instance),
        ) == (
            RegistryView { plugins: registry.plugins.insert(id, instance), ..registry },
            LoadView { stage: LoadStage::Over, ..load },
            Ok::<ActionView, PluginFault>(ActionView::Use(instance)),
        ),
{
    let load = begun(registry, id, verified)->Acquire_0;
    let with = |event: EventView| (registry, event);
    let steps = (checks(verified) + configuration(prepared, configured)).map_values(with);
    let configuring = steps.drop_last();
    let preparing = configuring.drop_last();
    assert(steps.last() == (registry, EventView::Configured(configured)));
    assert(configuring.last() == (registry, EventView::Prepared(prepared)));
    let first = if verified {
        preparing.drop_last()
    } else {
        preparing
    };
    assert(first.len() == 1 && first[0] == (registry, EventView::Acquired));
    assert(load_after(load, first.drop_last()) == load);
    assert(load_after(load, first) == load_next(registry, load, EventView::Acquired).1);
    assert(load_after(load, preparing).stage == LoadStage::Preparing);
    assert(load_after(load, configuring).stage == LoadStage::Configuring);
    assert(load_after(load, steps) == (LoadView { stage: LoadStage::Creating, ..load }));
}

} // verus!
