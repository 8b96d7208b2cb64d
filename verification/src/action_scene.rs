//! What a graph of actions is built from.

use crate::action_node::{SpecView, ToolchainSpec};
use crate::action_state::{ActionGraphError, ActionGraphFault};
use crate::config::contains_id;
use crate::id::Id;
use crate::environment::{copy_env, env_views, EnvMap};
use crate::invocation::EnvView;
use crate::keys::{ProjectKey, ProjectKeyView, TaskKey, TaskKeyView};
use crate::keyset::KeySet;
use crate::order::{ranked, sort_ranked, view_of, views, Ranked};
use crate::project_graph::{ProjectGraph, ProjectGraphView};
use crate::project_queries::graph_valid;
use crate::runtime::{RuntimesView, SourceRuntimeRegistry};
use crate::source::SourceRootId;
use crate::table::{value_views, Key, Table};
use crate::task::{
    copy_texts, key_of_task, Task, TaskDependencyCacheStrategy, TaskDependencyType, TaskView,
};
use crate::task_graph::{task_graph_valid, unexpanded_task, TaskGraph, TaskGraphView};
use std::sync::Arc;
use vstd::prelude::*;

verus! {

broadcast use crate::order::group_views;

/// Whether a kind of action is part of a run.
pub enum SwitchView {
    Default,
    Enabled(bool),
    Only(Seq<Seq<char>>),
}

/// Whether a kind of action is part of a run.
#[derive(Debug)]
pub enum PipelineActionSwitch {
    /// Nothing was said: it is.
    Default,
    /// It is, or it is not.
    Enabled(bool),
    /// It is for these only.
    Only(Vec<Id>),
}

impl View for PipelineActionSwitch {
    type V = SwitchView;

    open spec fn view(&self) -> SwitchView {
        match self {
            PipelineActionSwitch::Default => SwitchView::Default,
            PipelineActionSwitch::Enabled(on) => SwitchView::Enabled(*on),
            PipelineActionSwitch::Only(ids) => SwitchView::Only(views(ids@)),
        }
    }
}

/// Whether a kind of action is part of a run for one toolchain or project.
pub open spec fn switched_on(switch: SwitchView, id: Seq<char>) -> bool {
    match switch {
        SwitchView::Default => true,
        SwitchView::Enabled(on) => on,
        SwitchView::Only(ids) => ids.contains(id),
    }
}

impl PipelineActionSwitch {
    /// Whether the kind of action is part of a run for one toolchain or project.
    pub fn is_enabled(&self, id: &Id) -> (r: bool)
        ensures
            r == switched_on(self@, id@),
    {
        match self {
            PipelineActionSwitch::Default => true,
            PipelineActionSwitch::Enabled(on) => *on,
            PipelineActionSwitch::Only(ids) => contains_id(ids, id),
        }
    }
}

/// Which actions are part of a run.
pub struct OptionsView {
    pub install_dependencies: SwitchView,
    pub setup_environment: SwitchView,
    pub setup_toolchains: SwitchView,
    pub sync_projects: SwitchView,
    pub sync_project_dependencies: bool,
    pub sync_workspace: bool,
}

/// Which actions are part of a run.
#[derive(Debug)]
pub struct ActionGraphBuilderOptions {
    pub install_dependencies: PipelineActionSwitch,
    pub setup_environment: PipelineActionSwitch,
    pub setup_toolchains: PipelineActionSwitch,
    pub sync_projects: PipelineActionSwitch,
    pub sync_project_dependencies: bool,
    pub sync_workspace: bool,
}

impl View for ActionGraphBuilderOptions {
    type V = OptionsView;

    open spec fn view(&self) -> OptionsView {
        OptionsView {
            install_dependencies: self.install_dependencies@,
            setup_environment: self.setup_environment@,
            setup_toolchains: self.setup_toolchains@,
            sync_projects: self.sync_projects@,
            sync_project_dependencies: self.sync_project_dependencies,
            sync_workspace: self.sync_workspace,
        }
    }
}

/// All kinds of actions, or none.
pub open spec fn all_options(on: bool) -> OptionsView {
    OptionsView {
        install_dependencies: SwitchView::Enabled(on),
        setup_environment: SwitchView::Enabled(on),
        setup_toolchains: SwitchView::Enabled(on),
        sync_projects: SwitchView::Enabled(on),
        sync_project_dependencies: on,
        sync_workspace: on,
    }
}

impl ActionGraphBuilderOptions {
    /// All kinds of actions, or none.
    pub fn new(state: bool) -> (options: Self)
        ensures
            options@ == all_options(state),
    {
        ActionGraphBuilderOptions {
            install_dependencies: PipelineActionSwitch::Enabled(state),
            setup_environment: PipelineActionSwitch::Enabled(state),
            setup_toolchains: PipelineActionSwitch::Enabled(state),
            sync_projects: PipelineActionSwitch::Enabled(state),
            sync_project_dependencies: state,
            sync_workspace: state,
        }
    }
}

impl Default for ActionGraphBuilderOptions {
    fn default() -> (options: Self)
        ensures
            options@ == all_options(true),
    {
        Self::new(true)
    }
}

/// How a workspace configures a toolchain.
pub struct PluginView {
    pub version: Option<Seq<char>>,
    pub install_dependencies: bool,
}

/// How a workspace configures a toolchain.
#[derive(Debug)]
pub struct ToolchainPluginConfig {
    pub version: Option<String>,
    pub install_dependencies: bool,
}

impl View for ToolchainPluginConfig {
    type V = PluginView;

    open spec fn view(&self) -> PluginView {
        PluginView {
            version: view_of(self.version),
            install_dependencies: self.install_dependencies,
        }
    }
}

/// How a source root configures its toolchains.
pub struct ToolchainsView {
    pub plugins: Map<Seq<char>, PluginView>,
    pub proto_version: Seq<char>,
    pub requires_proto: bool,
}

/// How a source root configures its toolchains.
#[derive(Debug)]
pub struct ToolchainsConfig {
    pub plugins: Table<Id, ToolchainPluginConfig>,
    pub proto_version: String,
    pub requires_proto: bool,
}

impl View for ToolchainsConfig {
    type V = ToolchainsView;

    open spec fn view(&self) -> ToolchainsView {
        ToolchainsView {
            plugins: value_views(self.plugins@),
            proto_version: self.proto_version@,
            requires_proto: self.requires_proto,
        }
    }
}

/// How a project configures a toolchain.
pub struct ProjectToolchainView {
    pub enabled: bool,
    pub version: Option<Seq<char>>,
}

/// How a project configures a toolchain.
#[derive(Debug)]
pub struct ProjectToolchainConfig {
    pub enabled: bool,
    pub version: Option<String>,
}

impl View for ProjectToolchainConfig {
    type V = ProjectToolchainView;

    open spec fn view(&self) -> ProjectToolchainView {
        ProjectToolchainView { enabled: self.enabled, version: view_of(self.version) }
    }
}

/// A configuration of a toolchain in a project.
pub struct ProjectSettingView {
    pub project: ProjectKeyView,
    pub toolchain: Seq<char>,
    pub config: ProjectToolchainView,
}

/// A configuration of a toolchain in a project.
#[derive(Debug)]
pub struct ProjectSetting {
    pub project: ProjectKey,
    pub toolchain: Id,
    pub config: ProjectToolchainConfig,
}

impl View for ProjectSetting {
    type V = ProjectSettingView;

    open spec fn view(&self) -> ProjectSettingView {
        ProjectSettingView {
            project: self.project@,
            toolchain: self.toolchain@,
            config: self.config@,
        }
    }
}

/// What a project or directory is to the root that declares its dependencies.
#[derive(Clone, Copy, PartialEq, Eq, Structural, Debug)]
pub enum DependenciesWorkspaceRole {
    /// The root is the only package.
    PackageRoot,
    /// It is the root of a workspace.
    WorkspaceRoot,
    /// It is a member of a workspace.
    WorkspaceMember,
}

/// The root that declares dependencies.
pub struct RootView {
    pub root: Seq<char>,
    pub is_workspace_root: bool,
    pub members: Option<Seq<Seq<char>>>,
    pub role: Option<DependenciesWorkspaceRole>,
}

/// The root that declares dependencies: where it is in the workspace, whether it is the
/// workspace itself, its members, and what the project or directory that was started from
/// is to it.
#[derive(Debug)]
pub struct DependenciesRoot {
    pub root: String,
    pub is_workspace_root: bool,
    pub members: Option<Vec<String>>,
    pub role: Option<DependenciesWorkspaceRole>,
}

impl View for DependenciesRoot {
    type V = RootView;

    open spec fn view(&self) -> RootView {
        RootView {
            root: self.root@,
            is_workspace_root: self.is_workspace_root,
            members: crate::action_node::member_views(self.members),
            role: self.role,
        }
    }
}

/// What the plugin of a toolchain says for a source root, or for a project in it.
pub struct FactsView {
    pub source: Seq<char>,
    pub project: Option<ProjectKeyView>,
    pub toolchain: Seq<char>,
    pub tier_2: bool,
    pub tier_3: bool,
    pub has_setup_environment: bool,
    pub has_install_dependencies: bool,
    pub requires: Seq<Seq<char>>,
    pub for_setup_environment: bool,
    pub for_setup_toolchain: bool,
    pub root: Option<RootView>,
}

/// What the plugin of a toolchain says for a source root, or for a project in it.
#[derive(Debug)]
pub struct ToolchainFacts {
    pub source: SourceRootId,
    pub project: Option<ProjectKey>,
    pub toolchain: Id,
    pub tier_2: bool,
    pub tier_3: bool,
    pub has_setup_environment: bool,
    pub has_install_dependencies: bool,
    pub requires: Vec<String>,
    pub for_setup_environment: bool,
    pub for_setup_toolchain: bool,
    pub root: Option<DependenciesRoot>,
}

impl View for ToolchainFacts {
    type V = FactsView;

    open spec fn view(&self) -> FactsView {
        FactsView {
            source: self.source@,
            project: view_of(self.project),
            toolchain: self.toolchain@,
            tier_2: self.tier_2,
            tier_3: self.tier_3,
            has_setup_environment: self.has_setup_environment,
            has_install_dependencies: self.has_install_dependencies,
            requires: views(self.requires@),
            for_setup_environment: self.for_setup_environment,
            for_setup_toolchain: self.for_setup_toolchain,
            root: view_of(self.root),
        }
    }
}

/// A dependency of a task, once it is known which task it means.
pub struct ResolvedView {
    pub ordinal: usize,
    pub key: TaskKeyView,
    pub args: Seq<Seq<char>>,
    pub env: Seq<EnvView>,
    pub dependency_type: TaskDependencyType,
    pub cache_strategy: TaskDependencyCacheStrategy,
}

/// A dependency of a task, once it is known which task it means.
#[derive(Debug)]
pub struct ResolvedTaskDependency {
    /// Its place among the dependencies that the task declares.
    pub declaration_ordinal: usize,
    pub task_key: TaskKey,
    pub args: Vec<String>,
    pub env: EnvMap,
    pub dependency_type: TaskDependencyType,
    pub cache_strategy: TaskDependencyCacheStrategy,
}

impl View for ResolvedTaskDependency {
    type V = ResolvedView;

    open spec fn view(&self) -> ResolvedView {
        ResolvedView {
            ordinal: self.declaration_ordinal,
            key: self.task_key@,
            args: views(self.args@),
            env: env_views(self.env),
            dependency_type: self.dependency_type,
            cache_strategy: self.cache_strategy,
        }
    }
}

impl Ranked for ResolvedTaskDependency {
    open spec fn before(a: ResolvedView, b: ResolvedView) -> bool {
        a.ordinal < b.ordinal
    }

    proof fn before_irreflexive(a: ResolvedView) {
    }

    proof fn before_transitive(a: ResolvedView, b: ResolvedView, c: ResolvedView) {
    }

    proof fn before_total(a: ResolvedView, b: ResolvedView, c: ResolvedView) {
    }

    fn is_before(&self, other: &Self) -> bool {
        self.declaration_ordinal < other.declaration_ordinal
    }
}

impl Clone for ResolvedTaskDependency {
    fn clone(&self) -> (copy: Self)
        ensures
            copy@ == self@,
    {
        ResolvedTaskDependency {
            declaration_ordinal: self.declaration_ordinal,
            task_key: self.task_key.clone(),
            args: copy_texts(&self.args),
            env: copy_env(&self.env),
            dependency_type: self.dependency_type,
            cache_strategy: self.cache_strategy,
        }
    }
}

/// What is affected, with and without what is affected by relation only.
pub struct MarksView {
    pub projects: Set<ProjectKeyView>,
    pub projects_alone: Set<ProjectKeyView>,
    pub tasks: Set<TaskKeyView>,
    pub tasks_alone: Set<TaskKeyView>,
}

/// What is affected, with and without what is affected by relation only.
#[derive(Debug)]
pub struct AffectedMarks {
    pub projects: KeySet<ProjectKey>,
    pub projects_alone: KeySet<ProjectKey>,
    pub tasks: KeySet<TaskKey>,
    pub tasks_alone: KeySet<TaskKey>,
}

impl View for AffectedMarks {
    type V = MarksView;

    open spec fn view(&self) -> MarksView {
        MarksView {
            projects: self.projects@,
            projects_alone: self.projects_alone@,
            tasks: self.tasks@,
            tasks_alone: self.tasks_alone@,
        }
    }
}

/// What a graph of actions is built from.
pub struct SceneView {
    pub options: OptionsView,
    pub primary: Seq<char>,
    pub runtimes: RuntimesView,
    pub configs: Map<Seq<char>, ToolchainsView>,
    pub settings: Seq<ProjectSettingView>,
    pub facts: Seq<FactsView>,
    pub projects: ProjectGraphView,
    pub tasks: TaskGraphView,
    pub resolved: Map<TaskKeyView, Seq<ResolvedView>>,
    pub unready: Map<TaskKeyView, Seq<char>>,
    pub affected: Option<MarksView>,
}

/// The dependencies of a task.
#[derive(Debug)]
pub struct ResolvedDependencies {
    pub items: Vec<ResolvedTaskDependency>,
}

impl View for ResolvedDependencies {
    type V = Seq<ResolvedView>;

    open spec fn view(&self) -> Seq<ResolvedView> {
        views(self.items@)
    }
}

/// What a graph of actions is built from: which actions are wanted, the source roots and
/// their configuration, what the plugins of the toolchains say, the graphs of projects and
/// tasks, and what is affected.
pub struct ActionScene {
    pub options: ActionGraphBuilderOptions,
    pub primary: SourceRootId,
    pub runtimes: SourceRuntimeRegistry,
    pub configs: Table<SourceRootId, ToolchainsConfig>,
    pub settings: Vec<ProjectSetting>,
    pub facts: Vec<ToolchainFacts>,
    pub projects: Arc<ProjectGraph>,
    pub tasks: Arc<TaskGraph>,
    pub resolved: Table<TaskKey, ResolvedDependencies>,
    /// The tasks that cannot be expanded, and why.
    pub unready: Table<TaskKey, String>,
    pub affected: Option<AffectedMarks>,
}

impl View for ActionScene {
    type V = SceneView;

    open spec fn view(&self) -> SceneView {
        SceneView {
            options: self.options@,
            primary: self.primary@,
            runtimes: self.runtimes@,
            configs: value_views(self.configs@),
            settings: views(self.settings@),
            facts: views(self.facts@),
            projects: self.projects@,
            tasks: self.tasks@,
            resolved: value_views(self.resolved@),
            unready: value_views(self.unready@),
            affected: view_of(self.affected),
        }
    }
}

/// The graphs are sound, and every project and task stands under its own key.
pub open spec fn scene_valid(scene: SceneView) -> bool {
    &&& graph_valid(scene.projects)
    &&& task_graph_valid(scene.tasks)
    &&& forall|key: ProjectKeyView| #[trigger]
        scene.projects.nodes.dom().contains(key) ==> crate::config::key_of_project(
            scene.projects.nodes[key].project,
        ) == key && scene.projects.indexes.contains(key)
    &&& forall|key: TaskKeyView| #[trigger]
        scene.tasks.nodes.dom().contains(key) ==> key_of_task(scene.tasks.nodes[key].task) == Some(
            key,
        )
}

/// The task with a key, where it can be expanded.
pub open spec fn ready_task(scene: SceneView, key: TaskKeyView) -> Result<
    TaskView,
    ActionGraphFault,
> {
    match unexpanded_task(scene.tasks, key) {
        Err(fault) => Err(ActionGraphFault::Task(fault)),
        Ok(task) => if scene.unready.dom().contains(key) {
            Err(ActionGraphFault::Expansion { reason: scene.unready[key] })
        } else {
            Ok(task)
        },
    }
}

/// The source root that an action for a project belongs to. Without a project it is the
/// primary one.
pub open spec fn owner_source(scene: SceneView, project: Option<ProjectKeyView>) -> Seq<char> {
    match project {
        Some(key) => key.source,
        None => scene.primary,
    }
}

/// How a workspace configures a toolchain.
pub open spec fn plugin_of(scene: SceneView, source: Seq<char>, id: Seq<char>) -> Option<PluginView> {
    if scene.configs.dom().contains(source) && scene.configs[source].plugins.dom().contains(id) {
        Some(scene.configs[source].plugins[id])
    } else {
        None
    }
}

/// The toolchain as a workspace configures it.
pub open spec fn workspace_spec(scene: SceneView, source: Seq<char>, id: Seq<char>) -> Option<
    SpecView,
> {
    match plugin_of(scene, source, id) {
        Some(plugin) => Some(SpecView { id, req: plugin.version }),
        None => None,
    }
}

/// How a project configures a toolchain: the first setting counts.
pub open spec fn setting_of(
    settings: Seq<ProjectSettingView>,
    project: ProjectKeyView,
    id: Seq<char>,
) -> Option<ProjectToolchainView>
    decreases settings.len(),
{
    if settings.len() == 0 {
        None
    } else {
        match setting_of(settings.drop_last(), project, id) {
            Some(config) => Some(config),
            None => if settings.last().project == project && settings.last().toolchain == id {
                Some(settings.last().config)
            } else {
                None
            },
        }
    }
}

/// The toolchain as a project configures it: not at all where it disables it, in its own
/// version where it names one, and as the workspace configures it otherwise.
pub open spec fn project_spec(scene: SceneView, project: ProjectKeyView, id: Seq<char>) -> Option<
    SpecView,
> {
    match setting_of(scene.settings, project, id) {
        Some(config) => if !config.enabled {
            None
        } else if config.version is Some {
            Some(SpecView { id, req: config.version })
        } else {
            workspace_spec(scene, project.source, id)
        },
        None => workspace_spec(scene, project.source, id),
    }
}

/// The toolchain as it is configured for a project, or for the workspace.
pub open spec fn spec_for(
    scene: SceneView,
    project: Option<ProjectKeyView>,
    id: Seq<char>,
) -> Option<SpecView> {
    match project {
        Some(key) => project_spec(scene, key, id),
        None => workspace_spec(scene, scene.primary, id),
    }
}

/// The dependencies of a task, in the order in which they are declared.
pub open spec fn resolved_for(scene: SceneView, key: TaskKeyView) -> Seq<ResolvedView> {
    if scene.resolved.dom().contains(key) {
        ranked::<ResolvedTaskDependency>(scene.resolved[key])
    } else {
        Seq::empty()
    }
}

/// What the plugin of a toolchain says: the first entry counts.
pub open spec fn facts_of(
    facts: Seq<FactsView>,
    source: Seq<char>,
    project: Option<ProjectKeyView>,
    id: Seq<char>,
) -> Option<FactsView>
    decreases facts.len(),
{
    if facts.len() == 0 {
        None
    } else {
        match facts_of(facts.drop_last(), source, project, id) {
            Some(found) => Some(found),
            None => if facts.last().source == source && facts.last().project == project
                && facts.last().toolchain == id {
                Some(facts.last())
            } else {
                None
            },
        }
    }
}

/// How many of the entries are about toolchains outside a set.
pub open spec fn open_count(facts: Seq<FactsView>, cycle: Set<Seq<char>>) -> nat
    decreases facts.len(),
{
    if facts.len() == 0 {
        0
    } else if cycle.contains(facts.last().toolchain) {
        open_count(facts.drop_last(), cycle)
    } else {
        open_count(facts.drop_last(), cycle) + 1
    }
}

/// A set that takes in more leaves no more outside.
pub proof fn open_count_shrinks(facts: Seq<FactsView>, cycle: Set<Seq<char>>, id: Seq<char>)
    ensures
        open_count(facts, cycle.insert(id)) <= open_count(facts, cycle),
    decreases facts.len(),
{
    if facts.len() > 0 {
        open_count_shrinks(facts.drop_last(), cycle, id);
    }
}

/// A set that takes in a toolchain that something is known of leaves less outside.
pub proof fn open_count_drops(
    facts: Seq<FactsView>,
    source: Seq<char>,
    project: Option<ProjectKeyView>,
    cycle: Set<Seq<char>>,
    id: Seq<char>,
)
    requires
        facts_of(facts, source, project, id) is Some,
        !cycle.contains(id),
    ensures
        open_count(facts, cycle.insert(id)) < open_count(facts, cycle),
    decreases facts.len(),
{
    if facts_of(facts.drop_last(), source, project, id) is Some {
        open_count_drops(facts.drop_last(), source, project, cycle, id);
    } else {
        open_count_shrinks(facts.drop_last(), cycle, id);
    }
}

/// The entry that counts is one that stays the first.
proof fn facts_stay(
    facts: Seq<FactsView>,
    source: Seq<char>,
    project: Option<ProjectKeyView>,
    id: Seq<char>,
    n: int,
)
    requires
        0 <= n <= facts.len(),
        facts_of(facts.take(n), source, project, id) is Some,
    ensures
        facts_of(facts, source, project, id) == facts_of(facts.take(n), source, project, id),
    decreases facts.len(),
{
    if n == facts.len() {
        assert(facts.take(n) =~= facts);
    } else {
        assert(facts.drop_last().take(n) =~= facts.take(n));
        facts_stay(facts.drop_last(), source, project, id, n);
    }
}

proof fn setting_stays(
    settings: Seq<ProjectSettingView>,
    project: ProjectKeyView,
    id: Seq<char>,
    n: int,
)
    requires
        0 <= n <= settings.len(),
        setting_of(settings.take(n), project, id) is Some,
    ensures
        setting_of(settings, project, id) == setting_of(settings.take(n), project, id),
    decreases settings.len(),
{
    if n == settings.len() {
        assert(settings.take(n) =~= settings);
    } else {
        assert(settings.drop_last().take(n) =~= settings.take(n));
        setting_stays(settings.drop_last(), project, id, n);
    }
}

/// Whether two keys are the same, or both missing.
pub fn same_owner(a: &Option<ProjectKey>, b: Option<&ProjectKey>) -> (same: bool)
    ensures
        same == (view_of(*a) == key_view(b)),
{
    match (a, b) {
        (Some(a), Some(b)) => a.same_key(b),
        (None, None) => true,
        _ => false,
    }
}

/// The view of a key that may be missing.
pub open spec fn key_view(key: Option<&ProjectKey>) -> Option<ProjectKeyView> {
    match key {
        Some(key) => Some(key@),
        None => None,
    }
}

impl ActionScene {
    /// The source root that an action for a project belongs to.
    pub fn owner_source<'a>(&'a self, project: Option<&'a ProjectKey>) -> (source: &'a SourceRootId)
        ensures
            source@ == owner_source(self@, key_view(project)),
    {
        match project {
            Some(key) => key.source_id(),
            None => &self.primary,
        }
    }

    /// How a workspace configures a toolchain.
    pub fn plugin(&self, source: &SourceRootId, id: &Id) -> (plugin: Option<&ToolchainPluginConfig>)
        ensures
            match plugin {
                Some(plugin) => plugin_of(self@, source@, id@) == Some(plugin@),
                None => plugin_of(self@, source@, id@) is None,
            },
    {
        match self.configs.get(source) {
            Some(config) => config.plugins.get(id),
            None => None,
        }
    }

    /// The toolchain as a source root configures it.
    pub fn workspace_spec(&self, source: &SourceRootId, id: &Id) -> (spec: Option<ToolchainSpec>)
        ensures
            view_of(spec) == workspace_spec(self@, source@, id@),
    {
        match self.plugin(source, id) {
            Some(plugin) => Some(
                match &plugin.version {
                    Some(version) => ToolchainSpec::new(id.copy_key(), version.clone()),
                    None => ToolchainSpec::new_global(id.copy_key()),
                },
            ),
            None => None,
        }
    }

    fn setting(&self, project: &ProjectKey, id: &Id) -> (config: Option<&ProjectToolchainConfig>)
        ensures
            match config {
                Some(config) => setting_of(self@.settings, project@, id@) == Some(config@),
                None => setting_of(self@.settings, project@, id@) is None,
            },
    {
        let ghost all = self@.settings;
        let mut i: usize = 0;
        assert(all.take(0) =~= Seq::empty());
        while i < self.settings.len()
            invariant
                i <= self.settings@.len(),
                all == views(self.settings@),
                setting_of(all.take(i as int), project@, id@) is None,
            decreases self.settings.len() - i,
        {
            proof {
                assert(all.take(i + 1).drop_last() =~= all.take(i as int));
                assert(all.take(i + 1).last() == self.settings@[i as int]@);
            }
            if self.settings[i].project.same_key(project) && self.settings[i].toolchain.same_key(
                id,
            ) {
                proof {
                    setting_stays(all, project@, id@, i + 1);
                }
                return Some(&self.settings[i].config);
            }
            i = i + 1;
        }
        assert(all.take(i as int) =~= all);
        None
    }

    /// The toolchain as a project configures it.
    pub fn project_spec(&self, project: &ProjectKey, id: &Id) -> (spec: Option<ToolchainSpec>)
        ensures
            view_of(spec) == project_spec(self@, project@, id@),
    {
        if let Some(config) = self.setting(project, id) {
            if !config.enabled {
                return None;
            }
            if let Some(version) = &config.version {
                return Some(ToolchainSpec::new(id.copy_key(), version.clone()));
            }
        }
        self.workspace_spec(project.source_id(), id)
    }

    /// The toolchain as it is configured for a project, or for the workspace.
    pub fn spec_for(&self, project: Option<&ProjectKey>, id: &Id) -> (spec: Option<ToolchainSpec>)
        ensures
            view_of(spec) == spec_for(self@, key_view(project), id@),
    {
        match project {
            Some(key) => self.project_spec(key, id),
            None => self.workspace_spec(&self.primary, id),
        }
    }

    /// The task with a key, where it can be expanded.
    pub fn ready_task(&self, key: &TaskKey) -> (task: Result<&Task, ActionGraphError>)
        ensures
            match task {
                Ok(task) => ready_task(self@, key@) == Ok::<TaskView, ActionGraphFault>(task@)
                    && self@.tasks.nodes.dom().contains(key@) && task@
                    == self@.tasks.nodes[key@].task,
                Err(error) => ready_task(self@, key@) == Err::<TaskView, ActionGraphFault>(error@),
            },
    {
        match self.tasks.get_unexpanded_by_key(key) {
            Err(error) => Err(ActionGraphError::Task(error)),
            Ok(task) => match self.unready.get(key) {
                Some(reason) => Err(ActionGraphError::Expansion { reason: reason.clone() }),
                None => Ok(task),
            },
        }
    }

    /// The dependencies of a task, in the order in which they are declared.
    pub fn resolved_dependencies_for(&self, key: &TaskKey) -> (dependencies: Vec<
        ResolvedTaskDependency,
    >)
        ensures
            views(dependencies@) == resolved_for(self@, key@),
    {
        match self.resolved.get(key) {
            Some(known) => {
                let ghost all = views(known.items@);
                let mut items: Vec<ResolvedTaskDependency> = Vec::new();
                let mut i: usize = 0;
                while i < known.items.len()
                    invariant
                        i <= known.items@.len(),
                        all == views(known.items@),
                        views(items@) =~= all.take(i as int),
                    decreases known.items.len() - i,
                {
                    items.push(known.items[i].clone());
                    i = i + 1;
                }
                assert(all.take(i as int) =~= all);
                sort_ranked(items)
            },
            None => {
                let items: Vec<ResolvedTaskDependency> = Vec::new();
                assert(views(items@) =~= Seq::empty());
                items
            },
        }
    }

    /// What the plugin of a toolchain says.
    pub fn facts_for(&self, project: Option<&ProjectKey>, id: &Id) -> (facts: Option<
        &ToolchainFacts,
    >)
        ensures
            match facts {
                Some(facts) => facts_of(
                    self@.facts,
                    owner_source(self@, key_view(project)),
                    key_view(project),
                    id@,
                ) == Some(facts@),
                None => facts_of(
                    self@.facts,
                    owner_source(self@, key_view(project)),
                    key_view(project),
                    id@,
                ) is None,
            },
    {
        let source = self.owner_source(project);
        let ghost owner = key_view(project);
        let ghost all = self@.facts;
        let mut i: usize = 0;
        assert(all.take(0) =~= Seq::empty());
        while i < self.facts.len()
            invariant
                i <= self.facts@.len(),
                all == views(self.facts@),
                owner == key_view(project),
                source@ == owner_source(self@, owner),
                facts_of(all.take(i as int), source@, owner, id@) is None,
            decreases self.facts.len() - i,
        {
            proof {
                assert(all.take(i + 1).drop_last() =~= all.take(i as int));
                assert(all.take(i + 1).last() == self.facts@[i as int]@);
            }
            let facts = &self.facts[i];
            if facts.source.same_key(source) && same_owner(&facts.project, project)
                && facts.toolchain.same_key(id) {
                proof {
                    facts_stay(all, source@, owner, id@, i + 1);
                }
                return Some(facts);
            }
            i = i + 1;
        }
        assert(all.take(i as int) =~= all);
        None
    }
}

} // verus!
