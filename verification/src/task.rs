//! Tasks, the targets that select them, and which tasks may depend on which.

use crate::config::{contains_id, copy_ids, DependencyScope};
use crate::id::{valid_id, Id};
use crate::environment::{copy_env, env_views, new_env, EnvMap};
use crate::invocation::EnvView;
use crate::keys::{ProjectKey, ProjectKeyView, TaskKey, TaskKeyView};
use crate::order::{view_of, views};
use crate::source::SourceRootId;
use crate::text::{join_two, same_text, split_at_first, split_first};
use vstd::prelude::*;

verus! {

broadcast use crate::order::group_views;

/// Whether a task runs in continuous integration.
#[derive(Clone, Copy, PartialEq, Eq, Structural, Debug, Hash)]
pub enum TaskOptionRunInCI {
    /// Always, affected or not.
    Always,
    /// When it is affected.
    Affected,
    /// When it is affected, or never.
    Enabled(bool),
    /// Nowhere else.
    Only,
    /// Never, though tasks that run there may depend on it.
    Skip,
}

impl TaskOptionRunInCI {
    /// The task may run in continuous integration.
    pub open spec fn enabled_spec(self) -> bool {
        self != TaskOptionRunInCI::Enabled(false) && self != TaskOptionRunInCI::Skip
    }

    /// Whether the task may run in continuous integration.
    pub fn is_enabled(&self) -> (r: bool)
        ensures
            r == self.enabled_spec(),
    {
        match self {
            TaskOptionRunInCI::Enabled(enabled) => *enabled,
            TaskOptionRunInCI::Skip => false,
            _ => true,
        }
    }
}

/// What a task is configured to do besides running its command.
#[derive(Clone, Copy, PartialEq, Eq, Structural, Debug)]
pub struct TaskOptions {
    pub allow_failure: bool,
    pub run_in_ci: TaskOptionRunInCI,
    pub persistent: bool,
    pub interactive: bool,
    pub internal: bool,
    pub run_deps_in_parallel: bool,
    pub priority: u8,
}

impl TaskOptions {
    /// The options of a task that configures none.
    pub open spec fn defaults() -> TaskOptions {
        TaskOptions {
            allow_failure: false,
            run_in_ci: TaskOptionRunInCI::Enabled(true),
            persistent: false,
            interactive: false,
            internal: false,
            run_deps_in_parallel: true,
            priority: 2,
        }
    }
}

impl Default for TaskOptions {
    fn default() -> (options: Self)
        ensures
            options == TaskOptions::defaults(),
    {
        TaskOptions {
            allow_failure: false,
            run_in_ci: TaskOptionRunInCI::Enabled(true),
            persistent: false,
            interactive: false,
            internal: false,
            run_deps_in_parallel: true,
            priority: 2,
        }
    }
}

/// Why a task may not depend on another.
#[derive(Clone, Copy, PartialEq, Eq, Structural, Debug)]
pub enum TaskDependencyValidationError {
    /// The dependency is allowed to fail.
    AllowFailure,
    /// The task runs in continuous integration, and the dependency does not.
    RunInCi,
    /// The dependency never ends, and the task does.
    Persistent,
}

/// The first reason why a task may not depend on another.
pub open spec fn dependency_fault(task: TaskOptions, dependency: TaskOptions) -> Option<
    TaskDependencyValidationError,
> {
    if dependency.allow_failure {
        Some(TaskDependencyValidationError::AllowFailure)
    } else if dependency.run_in_ci == TaskOptionRunInCI::Enabled(false)
        && task.run_in_ci.enabled_spec() {
        Some(TaskDependencyValidationError::RunInCi)
    } else if dependency.persistent && !task.persistent {
        Some(TaskDependencyValidationError::Persistent)
    } else {
        None
    }
}

/// Checks that a task may depend on another.
pub fn validate_task_dependency(task: &TaskOptions, dependency: &TaskOptions) -> (valid: Result<
    (),
    TaskDependencyValidationError,
>)
    ensures
        match valid {
            Ok(()) => dependency_fault(*task, *dependency) is None,
            Err(error) => dependency_fault(*task, *dependency) == Some(error),
        },
{
    if dependency.allow_failure {
        return Err(TaskDependencyValidationError::AllowFailure);
    }
    if !dependency.run_in_ci.is_enabled() && task.run_in_ci.is_enabled() && dependency.run_in_ci
        != TaskOptionRunInCI::Skip && task.run_in_ci != TaskOptionRunInCI::Skip {
        return Err(TaskDependencyValidationError::RunInCi);
    }
    if dependency.persistent && !task.persistent {
        return Err(TaskDependencyValidationError::Persistent);
    }
    Ok(())
}

/// A task runs, by what it says of continuous integration.
pub open spec fn runs_in(options: TaskOptions, ci: bool) -> bool {
    if ci {
        options.run_in_ci.enabled_spec()
    } else {
        options.run_in_ci != TaskOptionRunInCI::Only
    }
}

/// How a task needs another task.
#[derive(Clone, Copy, PartialEq, Eq, Structural, Debug, Hash)]
pub enum TaskDependencyType {
    /// The task runs whether or not the other task does.
    Optional,
    /// The task needs the other task.
    Required,
}

/// The way of needing that a label stands for.
pub open spec fn type_of_label(label: u8) -> TaskDependencyType {
    if label == 0 {
        TaskDependencyType::Optional
    } else {
        TaskDependencyType::Required
    }
}

impl TaskDependencyType {
    /// The number that labels edges of this type.
    pub open spec fn label_spec(self) -> u8 {
        match self {
            TaskDependencyType::Optional => 0,
            TaskDependencyType::Required => 1,
        }
    }

    /// The number that labels edges of this type.
    pub fn label(self) -> (label: u8)
        ensures
            label == self.label_spec(),
            type_of_label(label) == self,
    {
        match self {
            TaskDependencyType::Optional => 0,
            TaskDependencyType::Required => 1,
        }
    }

    /// The type that a label stands for.
    pub fn from_label(label: u8) -> (dependency: Self)
        ensures
            dependency == type_of_label(label),
    {
        if label == 0 {
            TaskDependencyType::Optional
        } else {
            TaskDependencyType::Required
        }
    }
}

/// The projects that a target selects.
pub enum ProjectSelector {
    All,
    Deps,
    DepsOf(DependencyScope),
    Id(Seq<char>),
    OwnSelf,
    Tag(Seq<char>),
}

/// The projects that a target selects.
#[derive(Debug)]
pub enum TargetProjectScope {
    /// All projects: `:task`.
    All,
    /// The dependencies of the project: `^:task`.
    Deps,
    /// The dependencies of the project in one scope: `^build:task`.
    DepsOf(DependencyScope),
    /// One project: `project:task`.
    Id(Id),
    /// The project itself: `~:task`.
    OwnSelf,
    /// The projects with a tag: `#tag:task`.
    Tag(Id),
}

impl View for TargetProjectScope {
    type V = ProjectSelector;

    open spec fn view(&self) -> ProjectSelector {
        match self {
            TargetProjectScope::All => ProjectSelector::All,
            TargetProjectScope::Deps => ProjectSelector::Deps,
            TargetProjectScope::DepsOf(scope) => ProjectSelector::DepsOf(*scope),
            TargetProjectScope::Id(id) => ProjectSelector::Id(id@),
            TargetProjectScope::OwnSelf => ProjectSelector::OwnSelf,
            TargetProjectScope::Tag(tag) => ProjectSelector::Tag(tag@),
        }
    }
}

impl Clone for TargetProjectScope {
    fn clone(&self) -> (copy: Self)
        ensures
            copy@ == self@,
    {
        match self {
            TargetProjectScope::All => TargetProjectScope::All,
            TargetProjectScope::Deps => TargetProjectScope::Deps,
            TargetProjectScope::DepsOf(scope) => TargetProjectScope::DepsOf(*scope),
            TargetProjectScope::Id(id) => TargetProjectScope::Id(id.clone()),
            TargetProjectScope::OwnSelf => TargetProjectScope::OwnSelf,
            TargetProjectScope::Tag(tag) => TargetProjectScope::Tag(tag.clone()),
        }
    }
}

/// The tasks of the projects that a target selects.
pub enum TaskSelector {
    Id(Seq<char>),
    Tag(Seq<char>),
}

/// The tasks of the projects that a target selects.
#[derive(Debug)]
pub enum TargetTaskScope {
    /// The task with an identifier.
    Id(Id),
    /// The tasks with a tag.
    Tag(Id),
}

impl View for TargetTaskScope {
    type V = TaskSelector;

    open spec fn view(&self) -> TaskSelector {
        match self {
            TargetTaskScope::Id(id) => TaskSelector::Id(id@),
            TargetTaskScope::Tag(tag) => TaskSelector::Tag(tag@),
        }
    }
}

impl Clone for TargetTaskScope {
    fn clone(&self) -> (copy: Self)
        ensures
            copy@ == self@,
    {
        match self {
            TargetTaskScope::Id(id) => TargetTaskScope::Id(id.clone()),
            TargetTaskScope::Tag(tag) => TargetTaskScope::Tag(tag.clone()),
        }
    }
}

/// A selection of tasks.
pub struct TargetView {
    pub project: ProjectSelector,
    pub task: TaskSelector,
}

/// A selection of tasks.
#[derive(Debug)]
pub struct Target {
    pub project: TargetProjectScope,
    pub task: TargetTaskScope,
}

impl View for Target {
    type V = TargetView;

    open spec fn view(&self) -> TargetView {
        TargetView { project: self.project@, task: self.task@ }
    }
}

impl Clone for Target {
    fn clone(&self) -> (copy: Self)
        ensures
            copy@ == self@,
    {
        Target { project: self.project.clone(), task: self.task.clone() }
    }
}

/// The text of a selection of projects.
pub open spec fn project_selector_text(selector: ProjectSelector) -> Seq<char> {
    match selector {
        ProjectSelector::All => Seq::empty(),
        ProjectSelector::Deps => "^"@,
        ProjectSelector::DepsOf(scope) => "^"@ + scope.name_spec(),
        ProjectSelector::Id(id) => id,
        ProjectSelector::OwnSelf => "~"@,
        ProjectSelector::Tag(tag) => "#"@ + tag,
    }
}

/// The text of a selection of tasks of projects.
pub open spec fn task_selector_text(selector: TaskSelector) -> Seq<char> {
    match selector {
        TaskSelector::Id(id) => id,
        TaskSelector::Tag(tag) => "#"@ + tag,
    }
}

/// The text of a target.
pub open spec fn target_text(target: TargetView) -> Seq<char> {
    project_selector_text(target.project) + ":"@ + task_selector_text(target.task)
}

/// What a text says as a selection of projects.
pub open spec fn parse_project_selector(text: Seq<char>) -> Option<ProjectSelector> {
    if text.len() == 0 {
        Some(ProjectSelector::All)
    } else if text == "^"@ {
        Some(ProjectSelector::Deps)
    } else if text == "^build"@ {
        Some(ProjectSelector::DepsOf(DependencyScope::Build))
    } else if text == "^development"@ {
        Some(ProjectSelector::DepsOf(DependencyScope::Development))
    } else if text == "^peer"@ {
        Some(ProjectSelector::DepsOf(DependencyScope::Peer))
    } else if text == "^production"@ {
        Some(ProjectSelector::DepsOf(DependencyScope::Production))
    } else if text == "~"@ {
        Some(ProjectSelector::OwnSelf)
    } else if text[0] == '#' {
        if valid_id(text.skip(1)) {
            Some(ProjectSelector::Tag(text.skip(1)))
        } else {
            None
        }
    } else if valid_id(text) {
        Some(ProjectSelector::Id(text))
    } else {
        None
    }
}

/// What a text says as a selection of tasks of projects.
pub open spec fn parse_task_selector(text: Seq<char>) -> Option<TaskSelector> {
    if text.len() > 0 && text[0] == '#' {
        if valid_id(text.skip(1)) {
            Some(TaskSelector::Tag(text.skip(1)))
        } else {
            None
        }
    } else if valid_id(text) {
        Some(TaskSelector::Id(text))
    } else {
        None
    }
}

/// What two texts say as a target.
pub open spec fn parse_scopes(scope: Seq<char>, task: Seq<char>) -> Option<TargetView> {
    match (parse_project_selector(scope), parse_task_selector(task)) {
        (Some(project), Some(task)) => Some(TargetView { project, task }),
        _ => None,
    }
}

/// What a text says as a target.
pub open spec fn parse_target(text: Seq<char>) -> Option<TargetView> {
    match split_first(text, ":"@) {
        Some(halves) => parse_scopes(halves.0, halves.1),
        None => None,
    }
}

/// A text that is not a target.
#[derive(Debug)]
pub struct TargetError {
    pub target: String,
}

/// The text behind its first character.
pub fn behind_first(text: &str) -> (rest: String)
    requires
        text@.len() > 0,
    ensures
        rest@ == text@.skip(1),
{
    let chars = crate::text::chars_of(text);
    let mut rest = String::new();
    let mut i: usize = 1;
    while i < chars.len()
        invariant
            1 <= i <= chars@.len(),
            rest@ == chars@.subrange(1, i as int),
        decreases chars.len() - i,
    {
        rest.push(chars[i]);
        assert(rest@ =~= chars@.subrange(1, i + 1));
        i = i + 1;
    }
    assert(rest@ =~= text@.skip(1));
    rest
}

/// The selection of projects that a text names.
fn read_project_scope(text: &str) -> (scope: Option<TargetProjectScope>)
    ensures
        view_of(scope) == parse_project_selector(text@),
{
    if text.is_empty() {
        return Some(TargetProjectScope::All);
    }
    if same_text(text, "^") {
        return Some(TargetProjectScope::Deps);
    }
    if same_text(text, "^build") {
        return Some(TargetProjectScope::DepsOf(DependencyScope::Build));
    }
    if same_text(text, "^development") {
        return Some(TargetProjectScope::DepsOf(DependencyScope::Development));
    }
    if same_text(text, "^peer") {
        return Some(TargetProjectScope::DepsOf(DependencyScope::Peer));
    }
    if same_text(text, "^production") {
        return Some(TargetProjectScope::DepsOf(DependencyScope::Production));
    }
    if same_text(text, "~") {
        return Some(TargetProjectScope::OwnSelf);
    }
    if text.get_char(0) == '#' {
        return match Id::new(behind_first(text).as_str()) {
            Ok(tag) => Some(TargetProjectScope::Tag(tag)),
            Err(_) => None,
        };
    }
    match Id::new(text) {
        Ok(id) => Some(TargetProjectScope::Id(id)),
        Err(_) => None,
    }
}

/// The selection of tasks of projects that a text names.
fn read_task_scope(text: &str) -> (scope: Option<TargetTaskScope>)
    ensures
        view_of(scope) == parse_task_selector(text@),
{
    if !text.is_empty() && text.get_char(0) == '#' {
        return match Id::new(behind_first(text).as_str()) {
            Ok(tag) => Some(TargetTaskScope::Tag(tag)),
            Err(_) => None,
        };
    }
    match Id::new(text) {
        Ok(id) => Some(TargetTaskScope::Id(id)),
        Err(_) => None,
    }
}

impl Target {
    /// The target that selects tasks of projects.
    pub fn new(scope: &str, task: &str) -> (target: Result<Self, TargetError>)
        ensures
            match target {
                Ok(target) => parse_scopes(scope@, task@) == Some(target@),
                Err(error) => parse_scopes(scope@, task@) is None && error.target@ == scope@ + ":"@
                    + task@,
            },
    {
        match (read_project_scope(scope), read_task_scope(task)) {
            (Some(project), Some(task)) => Ok(Target { project, task }),
            _ => Err(TargetError { target: join_two(scope, ":", task) }),
        }
    }

    /// The target that a text names.
    pub fn parse(text: &str) -> (target: Result<Self, TargetError>)
        ensures
            match target {
                Ok(target) => parse_target(text@) == Some(target@),
                Err(error) => parse_target(text@) is None && error.target@ == text@,
            },
    {
        match split_at_first(text, ":") {
            Some((scope, task)) => match Target::new(scope.as_str(), task.as_str()) {
                Ok(target) => Ok(target),
                Err(_) => Err(TargetError { target: text.to_owned() }),
            },
            None => Err(TargetError { target: text.to_owned() }),
        }
    }

    /// The text of the target.
    pub fn to_text(&self) -> (text: String)
        ensures
            text@ == target_text(self@),
    {
        let scope = match &self.project {
            TargetProjectScope::All => String::new(),
            TargetProjectScope::Deps => "^".to_owned(),
            TargetProjectScope::DepsOf(scope) => join_two("^", "", scope.name()),
            TargetProjectScope::Id(id) => id.as_str().to_owned(),
            TargetProjectScope::OwnSelf => "~".to_owned(),
            TargetProjectScope::Tag(tag) => join_two("#", "", tag.as_str()),
        };
        let task = match &self.task {
            TargetTaskScope::Id(id) => id.as_str().to_owned(),
            TargetTaskScope::Tag(tag) => join_two("#", "", tag.as_str()),
        };
        proof {
            reveal_strlit("");
            assert(scope@ =~= project_selector_text(self@.project));
            assert(task@ =~= task_selector_text(self@.task));
        }
        join_two(scope.as_str(), ":", task.as_str())
    }
}

/// How much a dependency counts for the cache of a task.
#[derive(Clone, Copy, PartialEq, Eq, Structural, Debug, Hash)]
pub enum TaskDependencyCacheStrategy {
    /// The hash of the dependency.
    Hash,
    /// Nothing.
    Ignored,
    /// The outputs of the dependency.
    Outputs,
}

/// A dependency of a task as it is configured.
pub struct TaskDependencyView {
    pub args: Seq<Seq<char>>,
    pub env: Seq<EnvView>,
    pub target: TargetView,
    pub optional: Option<bool>,
    pub cache_strategy: Option<TaskDependencyCacheStrategy>,
}

/// A dependency of a task as it is configured.
#[derive(Debug)]
pub struct TaskDependencyConfig {
    pub args: Vec<String>,
    pub env: EnvMap,
    pub target: Target,
    pub optional: Option<bool>,
    pub cache_strategy: Option<TaskDependencyCacheStrategy>,
}

impl View for TaskDependencyConfig {
    type V = TaskDependencyView;

    open spec fn view(&self) -> TaskDependencyView {
        TaskDependencyView {
            args: views(self.args@),
            env: env_views(self.env),
            target: self.target@,
            optional: self.optional,
            cache_strategy: self.cache_strategy,
        }
    }
}

/// Copies of texts.
pub fn copy_texts(items: &Vec<String>) -> (copies: Vec<String>)
    ensures
        views(copies@) == views(items@),
{
    let mut copies: Vec<String> = Vec::new();
    let mut i: usize = 0;
    assert(views(copies@) =~= views(items@).take(0));
    while i < items.len()
        invariant
            i <= items@.len(),
            views(copies@) == views(items@).take(i as int),
        decreases items.len() - i,
    {
        copies.push(items[i].clone());
        assert(views(copies@) =~= views(items@).take(i + 1));
        i = i + 1;
    }
    assert(views(items@).take(i as int) =~= views(items@));
    copies
}

impl Clone for TaskDependencyConfig {
    fn clone(&self) -> (copy: Self)
        ensures
            copy@ == self@,
    {
        TaskDependencyConfig {
            args: copy_texts(&self.args),
            env: copy_env(&self.env),
            target: self.target.clone(),
            optional: self.optional,
            cache_strategy: self.cache_strategy,
        }
    }
}

impl TaskDependencyConfig {
    /// A dependency on what a target selects, without further configuration.
    pub fn new(target: Target) -> (config: Self)
        ensures
            config@ == (TaskDependencyView {
                args: Seq::empty(),
                env: Seq::empty(),
                target: target@,
                optional: None,
                cache_strategy: None,
            }),
    {
        let config = TaskDependencyConfig {
            args: Vec::new(),
            env: new_env(),
            target,
            optional: None,
            cache_strategy: None,
        };
        assert(config@.args =~= Seq::empty());
        assert(config@.env =~= Seq::empty());
        config
    }
}

/// What kind of work a task does.
#[derive(Clone, Copy, PartialEq, Eq, Structural, Debug, Hash)]
pub enum TaskType {
    Build,
    Run,
    Test,
}

impl TaskType {
    /// The name of the kind.
    pub open spec fn name_spec(self) -> Seq<char> {
        match self {
            TaskType::Build => "build"@,
            TaskType::Run => "run"@,
            TaskType::Test => "test"@,
        }
    }

    /// The name of the kind.
    pub fn name(self) -> (name: &'static str)
        ensures
            name@ == self.name_spec(),
    {
        match self {
            TaskType::Build => "build",
            TaskType::Run => "run",
            TaskType::Test => "test",
        }
    }
}

/// A task.
pub struct TaskView {
    pub id: Seq<char>,
    pub source_id: Seq<char>,
    pub target: TargetView,
    pub command: Seq<char>,
    pub args: Seq<Seq<char>>,
    pub env: Seq<EnvView>,
    pub outputs: Seq<Seq<char>>,
    pub cache_key: Option<Seq<char>>,
    pub script: Option<Seq<char>>,
    pub tags: Seq<Seq<char>>,
    pub toolchains: Seq<Seq<char>>,
    pub description: Option<Seq<char>>,
    pub preset: Option<Seq<char>>,
    pub type_of: TaskType,
    pub options: TaskOptions,
    pub configured_deps: Seq<TaskDependencyView>,
    pub empty_inputs: bool,
    pub input_env: Seq<Seq<char>>,
}

/// A task: its identity, what it runs, and what it depends on.
#[derive(Debug)]
pub struct Task {
    pub id: Id,
    pub source_id: SourceRootId,
    pub target: Target,
    pub command: String,
    pub args: Vec<String>,
    pub env: EnvMap,
    pub outputs: Vec<String>,
    /// What makes the hash of the task another one.
    pub cache_key: Option<String>,
    pub script: Option<String>,
    pub tags: Vec<Id>,
    pub toolchains: Vec<Id>,
    pub description: Option<String>,
    pub preset: Option<String>,
    pub type_of: TaskType,
    pub options: TaskOptions,
    pub configured_deps: Vec<TaskDependencyConfig>,
    /// Whether the task is configured to have no inputs.
    pub empty_inputs: bool,
    pub input_env: Vec<String>,
}

impl View for Task {
    type V = TaskView;

    open spec fn view(&self) -> TaskView {
        TaskView {
            id: self.id@,
            source_id: self.source_id@,
            target: self.target@,
            command: self.command@,
            args: views(self.args@),
            env: env_views(self.env),
            outputs: views(self.outputs@),
            cache_key: view_of(self.cache_key),
            script: view_of(self.script),
            tags: views(self.tags@),
            toolchains: views(self.toolchains@),
            description: view_of(self.description),
            preset: view_of(self.preset),
            type_of: self.type_of,
            options: self.options,
            configured_deps: views(self.configured_deps@),
            empty_inputs: self.empty_inputs,
            input_env: views(self.input_env@),
        }
    }
}

/// A copy of a text that may be missing.
pub fn copy_option(item: &Option<String>) -> (copy: Option<String>)
    ensures
        view_of(copy) == view_of(*item),
{
    match item {
        Some(text) => Some(text.clone()),
        None => None,
    }
}

impl Clone for Task {
    fn clone(&self) -> (copy: Self)
        ensures
            copy@ == self@,
    {
        let mut deps: Vec<TaskDependencyConfig> = Vec::new();
        let mut i: usize = 0;
        assert(views(deps@) =~= views(self.configured_deps@).take(0));
        while i < self.configured_deps.len()
            invariant
                i <= self.configured_deps@.len(),
                views(deps@) == views(self.configured_deps@).take(i as int),
            decreases self.configured_deps.len() - i,
        {
            deps.push(self.configured_deps[i].clone());
            assert(views(deps@) =~= views(self.configured_deps@).take(i + 1));
            i = i + 1;
        }
        assert(views(self.configured_deps@).take(i as int) =~= views(self.configured_deps@));
        Task {
            id: self.id.clone(),
            source_id: self.source_id.clone(),
            target: self.target.clone(),
            command: self.command.clone(),
            args: copy_texts(&self.args),
            env: copy_env(&self.env),
            outputs: copy_texts(&self.outputs),
            cache_key: copy_option(&self.cache_key),
            script: copy_option(&self.script),
            tags: copy_ids(&self.tags),
            toolchains: copy_ids(&self.toolchains),
            description: copy_option(&self.description),
            preset: copy_option(&self.preset),
            type_of: self.type_of,
            options: self.options,
            configured_deps: deps,
            empty_inputs: self.empty_inputs,
            input_env: copy_texts(&self.input_env),
        }
    }
}

/// The key of the task that a target names in a source root.
pub open spec fn key_of_target(source: Seq<char>, target: TargetView) -> Option<TaskKeyView> {
    match (target.project, target.task) {
        (ProjectSelector::Id(project), TaskSelector::Id(task)) => if valid_id(project) && valid_id(
            task,
        ) {
            Some(TaskKeyView { project: ProjectKeyView { source, project }, task })
        } else {
            None
        },
        _ => None,
    }
}

impl TaskKey {
    /// The key of the task that a target names in a source root, if it names one.
    pub fn from_target(source: SourceRootId, target: &Target) -> (key: Option<TaskKey>)
        ensures
            view_of(key) == key_of_target(source@, target@),
    {
        match (&target.project, &target.task) {
            (TargetProjectScope::Id(project), TargetTaskScope::Id(task)) => {
                match ProjectKey::new(source, project.clone()) {
                    Ok(project) => match TaskKey::new(project, task.clone()) {
                        Ok(key) => Some(key),
                        Err(_) => None,
                    },
                    Err(_) => None,
                }
            },
            _ => None,
        }
    }
}

/// The key of a task.
pub open spec fn key_of_task(task: TaskView) -> Option<TaskKeyView> {
    key_of_target(task.source_id, task.target)
}

impl Task {
    /// A task without further configuration.
    pub fn new(source_id: SourceRootId, id: Id, target: Target) -> (task: Self)
        ensures
            task@ == (TaskView {
                id: id@,
                source_id: source_id@,
                target: target@,
                command: Seq::empty(),
                args: Seq::empty(),
                env: Seq::empty(),
                outputs: Seq::empty(),
                cache_key: None,
                script: None,
                tags: Seq::empty(),
                toolchains: Seq::empty(),
                description: None,
                preset: None,
                type_of: TaskType::Test,
                options: TaskOptions::defaults(),
                configured_deps: Seq::empty(),
                empty_inputs: false,
                input_env: Seq::empty(),
            }),
    {
        let task = Task {
            id,
            source_id,
            target,
            command: String::new(),
            args: Vec::new(),
            env: new_env(),
            outputs: Vec::new(),
            cache_key: None,
            script: None,
            tags: Vec::new(),
            toolchains: Vec::new(),
            description: None,
            preset: None,
            type_of: TaskType::Test,
            options: TaskOptions::default(),
            configured_deps: Vec::new(),
            empty_inputs: false,
            input_env: Vec::new(),
        };
        assert(task@.args =~= Seq::empty());
        assert(task@.env =~= Seq::empty());
        assert(task@.outputs =~= Seq::empty());
        assert(task@.tags =~= Seq::empty());
        assert(task@.toolchains =~= Seq::empty());
        assert(task@.configured_deps =~= Seq::empty());
        assert(task@.input_env =~= Seq::empty());
        task
    }

    /// The key of the task, whose target must name it.
    pub fn key(&self) -> (key: TaskKey)
        requires
            key_of_task(self@) is Some,
        ensures
            Some(key@) == key_of_task(self@),
    {
        match TaskKey::from_target(self.source_id.clone(), &self.target) {
            Some(key) => key,
            None => {
                assert(false);
                vstd::pervasive::unreached()
            },
        }
    }

    /// Whether the task runs, by what it says of continuous integration.
    pub fn should_run(&self, ci: bool) -> (r: bool)
        ensures
            r == runs_in(self@.options, ci),
    {
        if ci {
            self.options.run_in_ci.is_enabled()
        } else {
            self.options.run_in_ci != TaskOptionRunInCI::Only
        }
    }

    /// Whether the task has a tag.
    pub fn has_tag(&self, tag: &Id) -> (r: bool)
        ensures
            r == self@.tags.contains(tag@),
    {
        contains_id(&self.tags, tag)
    }
}

} // verus!
