//! The actions that a run is made of.

use crate::environment::{copy_env, env_views, list_env, new_env, same_env, EnvMap};
use crate::id::Id;
use crate::invocation::{invocation_variant, EnvView, InvocationView, TaskInvocationKey};
use crate::keys::{ProjectKey, ProjectKeyView, TaskKey, TaskKeyView};
use crate::order::{view_of, views};
use crate::source::SourceRootId;
use crate::table::Key;
use crate::task::{
    copy_option, copy_texts, key_of_target, target_text, Target, TargetProjectScope,
    TargetTaskScope, TargetView,
};
use crate::text::{join_two, same_text};
use std::hash::{Hash, Hasher};
use vstd::prelude::*;

verus! {

broadcast use crate::order::group_views;

/// A toolchain, and the version of it that is asked for.
pub struct SpecView {
    pub id: Seq<char>,
    pub req: Option<Seq<char>>,
}

/// A toolchain, and the version of it that is asked for. Without a version it is the one
/// that is found on the machine.
#[derive(Debug)]
pub struct ToolchainSpec {
    pub id: Id,
    pub req: Option<String>,
}

impl View for ToolchainSpec {
    type V = SpecView;

    open spec fn view(&self) -> SpecView {
        SpecView { id: self.id@, req: view_of(self.req) }
    }
}

/// How a toolchain is written.
pub open spec fn spec_text(spec: SpecView) -> Seq<char> {
    match spec.req {
        Some(version) => spec.id + ":"@ + version,
        None => spec.id,
    }
}

/// The toolchain that stands for the machine itself.
pub open spec fn is_system_spec(spec: SpecView) -> bool {
    spec.id == "system"@
}

impl ToolchainSpec {
    /// A toolchain in a version.
    pub fn new(id: Id, version: String) -> (spec: Self)
        ensures
            spec@ == (SpecView { id: id@, req: Some(version@) }),
    {
        ToolchainSpec { id, req: Some(version) }
    }

    /// A toolchain as it is found on the machine.
    pub fn new_global(id: Id) -> (spec: Self)
        ensures
            spec@ == (SpecView { id: id@, req: None }),
    {
        ToolchainSpec { id, req: None }
    }

    /// Whether this stands for the machine itself.
    pub fn is_system(&self) -> (r: bool)
        ensures
            r == is_system_spec(self@),
    {
        same_text(self.id.as_str(), "system")
    }

    /// How the toolchain is written.
    pub fn target(&self) -> (text: String)
        ensures
            text@ == spec_text(self@),
    {
        match &self.req {
            Some(version) => join_two(self.id.as_str(), ":", version.as_str()),
            None => self.id.as_str().to_owned(),
        }
    }
}

impl Clone for ToolchainSpec {
    fn clone(&self) -> (copy: Self)
        ensures
            copy@ == self@,
    {
        ToolchainSpec { id: self.id.copy_key(), req: copy_option(&self.req) }
    }
}

/// An action.
pub enum NodeView {
    Nothing,
    InstallDependencies {
        members: Option<Seq<Seq<char>>>,
        project: Option<ProjectKeyView>,
        root: Seq<char>,
        source: Seq<char>,
        toolchain: Seq<char>,
    },
    RunTask(RunTaskView),
    SetupEnvironment {
        project: Option<ProjectKeyView>,
        root: Seq<char>,
        source: Seq<char>,
        toolchain: Seq<char>,
    },
    SetupProto { source: Seq<char>, version: Seq<char> },
    SetupToolchain { source: Seq<char>, spec: SpecView },
    SyncProject { key: ProjectKeyView },
    SyncWorkspace { source: Seq<char> },
}

/// The run of a task. The order of the environment does not matter, and of the number that is
/// derived from the run only whether it was.
pub struct RunTaskView {
    pub args: Seq<Seq<char>>,
    pub env: Set<EnvView>,
    pub interactive: bool,
    pub persistent: bool,
    pub priority: u8,
    pub key: TaskKeyView,
    pub target: TargetView,
    pub numbered: bool,
}

/// The installation of the dependencies that a root declares.
#[derive(Debug)]
pub struct InstallDependenciesNode {
    pub members: Option<Vec<String>>,
    pub project_key: Option<ProjectKey>,
    pub root: String,
    pub source_id: SourceRootId,
    pub toolchain_id: Id,
}

/// The setup of the environment of a toolchain.
#[derive(Debug)]
pub struct SetupEnvironmentNode {
    pub project_key: Option<ProjectKey>,
    pub root: String,
    pub source_id: SourceRootId,
    pub toolchain_id: Id,
}

/// The setup of proto.
#[derive(Debug)]
pub struct SetupProtoNode {
    pub source_id: SourceRootId,
    pub version: String,
}

/// The setup of a toolchain.
#[derive(Debug)]
pub struct SetupToolchainNode {
    pub source_id: SourceRootId,
    pub toolchain: ToolchainSpec,
}

/// The synchronisation of a project.
#[derive(Debug)]
pub struct SyncProjectNode {
    pub project_key: ProjectKey,
}

/// The synchronisation of a workspace.
#[derive(Debug)]
pub struct SyncWorkspaceNode {
    pub source_id: SourceRootId,
}

/// The run of a task.
#[derive(Debug)]
pub struct RunTaskNode {
    pub args: Vec<String>,
    pub env: EnvMap,
    pub interactive: bool,
    pub persistent: bool,
    pub priority: u8,
    pub key: TaskKey,
    pub target: Target,
    /// A number that is derived from the other fields.
    pub id: Option<u64>,
}

impl View for RunTaskNode {
    type V = RunTaskView;

    open spec fn view(&self) -> RunTaskView {
        RunTaskView {
            args: views(self.args@),
            env: env_views(self.env).to_set(),
            interactive: self.interactive,
            persistent: self.persistent,
            priority: self.priority,
            key: self.key@,
            target: self.target@,
            numbered: self.id is Some,
        }
    }
}

/// An action.
#[derive(Debug)]
pub enum ActionNode {
    /// No action.
    Nothing,
    /// Install the dependencies of a toolchain in the closest root.
    InstallDependencies(Box<InstallDependenciesNode>),
    /// Run a task of a project.
    RunTask(Box<RunTaskNode>),
    /// Set up the environment of a toolchain.
    SetupEnvironment(Box<SetupEnvironmentNode>),
    /// Set up and install proto.
    SetupProto(Box<SetupProtoNode>),
    /// Set up and install a toolchain.
    SetupToolchain(Box<SetupToolchainNode>),
    /// Bring a project up to date with its configuration.
    SyncProject(Box<SyncProjectNode>),
    /// Bring the workspace up to date with its configuration.
    SyncWorkspace(Box<SyncWorkspaceNode>),
}

/// The views of the members of a workspace, where it lists some.
pub open spec fn member_views(members: Option<Vec<String>>) -> Option<Seq<Seq<char>>> {
    match members {
        Some(members) => Some(views(members@)),
        None => None,
    }
}

impl View for ActionNode {
    type V = NodeView;

    open spec fn view(&self) -> NodeView {
        match self {
            ActionNode::Nothing => NodeView::Nothing,
            ActionNode::InstallDependencies(node) => NodeView::InstallDependencies {
                members: member_views(node.members),
                project: view_of(node.project_key),
                root: node.root@,
                source: node.source_id@,
                toolchain: node.toolchain_id@,
            },
            ActionNode::RunTask(node) => NodeView::RunTask((*node)@),
            ActionNode::SetupEnvironment(node) => NodeView::SetupEnvironment {
                project: view_of(node.project_key),
                root: node.root@,
                source: node.source_id@,
                toolchain: node.toolchain_id@,
            },
            ActionNode::SetupProto(node) => NodeView::SetupProto {
                source: node.source_id@,
                version: node.version@,
            },
            ActionNode::SetupToolchain(node) => NodeView::SetupToolchain {
                source: node.source_id@,
                spec: node.toolchain@,
            },
            ActionNode::SyncProject(node) => NodeView::SyncProject { key: node.project_key@ },
            ActionNode::SyncWorkspace(node) => NodeView::SyncWorkspace { source: node.source_id@ },
        }
    }
}

/// How an action with a root is written.
pub open spec fn rooted_label(name: Seq<char>, toolchain: Seq<char>, root: Seq<char>) -> Seq<char> {
    if root.len() == 0 {
        name + "("@ + toolchain + ")"@
    } else {
        name + "("@ + toolchain + ", "@ + root + ")"@
    }
}

/// How an action is written.
pub open spec fn node_label(node: NodeView) -> Seq<char> {
    match node {
        NodeView::Nothing => "None"@,
        NodeView::InstallDependencies { toolchain, root, .. } => rooted_label(
            "InstallDependencies"@,
            toolchain,
            root,
        ),
        NodeView::RunTask(run) => (if run.persistent {
            "RunPersistentTask"@
        } else if run.interactive {
            "RunInteractiveTask"@
        } else {
            "RunTask"@
        }) + "("@ + target_text(run.target) + ")"@,
        NodeView::SetupEnvironment { toolchain, root, .. } => rooted_label(
            "SetupEnvironment"@,
            toolchain,
            root,
        ),
        NodeView::SetupProto { version, .. } => "SetupProto"@ + "("@ + version + ")"@,
        NodeView::SetupToolchain { spec, .. } => "SetupToolchain"@ + "("@ + spec_text(spec) + ")"@,
        NodeView::SyncProject { key } => "SyncProject"@ + "("@ + key.project + ")"@,
        NodeView::SyncWorkspace { .. } => "SyncWorkspace"@,
    }
}

/// The source root that an action belongs to.
pub open spec fn node_source(node: NodeView) -> Option<Seq<char>> {
    match node {
        NodeView::Nothing => None,
        NodeView::InstallDependencies { source, .. } => Some(source),
        NodeView::RunTask(run) => Some(run.key.project.source),
        NodeView::SetupEnvironment { source, .. } => Some(source),
        NodeView::SetupProto { source, .. } => Some(source),
        NodeView::SetupToolchain { source, .. } => Some(source),
        NodeView::SyncProject { key } => Some(key.source),
        NodeView::SyncWorkspace { source } => Some(source),
    }
}

fn in_brackets(name: &str, inner: &str) -> (text: String)
    ensures
        text@ == name@ + "("@ + inner@ + ")"@,
{
    let mut text = name.to_owned();
    text.append("(");
    text.append(inner);
    text.append(")");
    text
}

fn with_root(name: &str, toolchain: &str, root: &str) -> (text: String)
    ensures
        text@ == rooted_label(name@, toolchain@, root@),
{
    if root.is_empty() {
        in_brackets(name, toolchain)
    } else {
        let mut text = name.to_owned();
        text.append("(");
        text.append(toolchain);
        text.append(", ");
        text.append(root);
        text.append(")");
        text
    }
}

/// `rustc_hash::FxHasher`, a hasher without a seed.
#[verifier::external_type_specification]
#[verifier::external_body]
pub struct ExFxHasher(rustc_hash::FxHasher);

/// `rustc_hash::FxHasher::default` gives a hasher that took in nothing. What its numbers
/// are depends on the width of the machine's words and is left unsaid.
#[verifier::external_body]
fn new_hasher() -> (hasher: rustc_hash::FxHasher)
{
    rustc_hash::FxHasher::default()
}

/// `std::hash::Hash::hash` hands the fields of a key to `rustc_hash::FxHasher`. What the
/// hasher makes of them depends on the width of the machine's words and is left unsaid.
#[verifier::external_body]
fn hash_key(hasher: &mut rustc_hash::FxHasher, key: &TaskKey)
{
    key.hash(hasher);
}

/// `rustc_hash::FxHasher::write_u8` takes in one byte. What the hasher makes of it
/// depends on the width of the machine's words and is left unsaid.
#[verifier::external_body]
fn hash_byte(hasher: &mut rustc_hash::FxHasher, byte: u8)
{
    hasher.write_u8(byte);
}

/// `rustc_hash::FxHasher::finish` gives the number of what was taken in. It depends on
/// the width of the machine's words and is left unsaid.
#[verifier::external_body]
fn hash_number(hasher: &rustc_hash::FxHasher) -> (number: u64)
{
    hasher.finish()
}

impl RunTaskNode {
    /// The run of a task of the primary source root, without arguments. The target
    /// must name a project and a task.
    pub fn new(target: Target) -> (node: Self)
        requires
            key_of_target(crate::source::primary_text(), target@) is Some,
        ensures
            Some(node@.key) == key_of_target(crate::source::primary_text(), target@),
            node@ == (RunTaskView {
                args: Seq::empty(),
                env: Set::empty(),
                interactive: false,
                persistent: false,
                priority: 2,
                key: node@.key,
                target: target@,
                numbered: false,
            }),
    {
        let key = match TaskKey::from_target(SourceRootId::primary(), &target) {
            Some(key) => key,
            None => vstd::pervasive::unreached(),
        };
        Self::new_with_key(key, target)
    }

    /// The run of a task, without arguments.
    pub fn new_with_key(key: TaskKey, target: Target) -> (node: Self)
        ensures
            node@ == (RunTaskView {
                args: Seq::empty(),
                env: Set::empty(),
                interactive: false,
                persistent: false,
                priority: 2,
                key: key@,
                target: target@,
                numbered: false,
            }),
    {
        let node = RunTaskNode {
            args: Vec::new(),
            env: new_env(),
            interactive: false,
            persistent: false,
            priority: 2,
            key,
            target,
            id: None,
        };
        assert(node@.args =~= Seq::empty());
        assert(node@.env =~= Set::empty());
        node
    }

    /// The identity of the invocation.
    pub fn invocation_key(&self) -> (key: TaskInvocationKey)
        ensures
            key@ == (InvocationView {
                task: self@.key,
                variant: invocation_variant(self@.args, env_views(self.env)),
            }),
    {
        TaskInvocationKey::new(self.key.clone(), copy_texts(&self.args), list_env(&self.env))
    }

    /// What the number of the run is derived from.
    pub fn hash_input(&self) -> (input: HashInput)
        ensures
            input.key@ == self@.key,
            input.bytes@ == hashed_bytes(self@),
    {
        let mut bytes: Vec<u8> = Vec::new();
        if self.persistent {
            bytes.push(100);
        }
        if self.interactive {
            bytes.push(50);
        }
        assert(bytes@ =~= hashed_bytes(self@));
        HashInput { key: self.key.clone(), bytes }
    }

    /// Derives the number from the task and from how it runs.
    fn calculate_id(&mut self)
        ensures
            final(self)@ == (RunTaskView { numbered: true, ..old(self)@ }),
            final(self).env == old(self).env,
    {
        self.id = Some(hash_run(&self.hash_input()));
    }
}

/// What the number of a run is derived from: the key of the task, and then some bytes.
#[derive(Debug)]
pub struct HashInput {
    pub key: TaskKey,
    pub bytes: Vec<u8>,
}

/// The bytes that say how a task runs.
pub open spec fn hashed_bytes(run: RunTaskView) -> Seq<u8> {
    let persistent: Seq<u8> = if run.persistent {
        seq![100u8]
    } else {
        Seq::empty()
    };
    let interactive: Seq<u8> = if run.interactive {
        seq![50u8]
    } else {
        Seq::empty()
    };
    persistent + interactive
}

/// The number that is derived from a key and bytes. Which one it is depends on the width of
/// the machine's words.
fn hash_run(input: &HashInput) -> (number: u64)
{
    let mut hasher = new_hasher();
    hash_key(&mut hasher, &input.key);
    let mut i: usize = 0;
    while i < input.bytes.len()
        invariant
            i <= input.bytes@.len(),
        decreases input.bytes.len() - i,
    {
        hash_byte(&mut hasher, input.bytes[i]);
        i = i + 1;
    }
    hash_number(&hasher)
}

impl ActionNode {
    /// The installation of dependencies.
    pub fn install_dependencies(node: InstallDependenciesNode) -> (action: Self)
        ensures
            action == ActionNode::InstallDependencies(Box::new(node)),
    {
        ActionNode::InstallDependencies(Box::new(node))
    }

    /// The run of a task, with the number derived from it.
    pub fn run_task(node: RunTaskNode) -> (action: Self)
        ensures
            action@ == NodeView::RunTask(RunTaskView { numbered: true, ..node@ }),
    {
        let mut node = node;
        node.calculate_id();
        ActionNode::RunTask(Box::new(node))
    }

    /// The setup of an environment.
    pub fn setup_environment(node: SetupEnvironmentNode) -> (action: Self)
        ensures
            action == ActionNode::SetupEnvironment(Box::new(node)),
    {
        ActionNode::SetupEnvironment(Box::new(node))
    }

    /// The setup of proto.
    pub fn setup_proto(source_id: SourceRootId, version: String) -> (action: Self)
        ensures
            action@ == (NodeView::SetupProto { source: source_id@, version: version@ }),
    {
        ActionNode::SetupProto(Box::new(SetupProtoNode { source_id, version }))
    }

    /// The setup of a toolchain.
    pub fn setup_toolchain(node: SetupToolchainNode) -> (action: Self)
        ensures
            action == ActionNode::SetupToolchain(Box::new(node)),
    {
        ActionNode::SetupToolchain(Box::new(node))
    }

    /// The synchronisation of a project.
    pub fn sync_project(node: SyncProjectNode) -> (action: Self)
        ensures
            action == ActionNode::SyncProject(Box::new(node)),
    {
        ActionNode::SyncProject(Box::new(node))
    }

    /// The synchronisation of a workspace.
    pub fn sync_workspace(source_id: SourceRootId) -> (action: Self)
        ensures
            action@ == (NodeView::SyncWorkspace { source: source_id@ }),
    {
        ActionNode::SyncWorkspace(Box::new(SyncWorkspaceNode { source_id }))
    }

    /// The source root that the action belongs to.
    pub fn source_id(&self) -> (id: Option<&SourceRootId>)
        ensures
            match id {
                Some(id) => node_source(self@) == Some(id@),
                None => node_source(self@) is None,
            },
    {
        match self {
            ActionNode::Nothing => None,
            ActionNode::InstallDependencies(node) => Some(&node.source_id),
            ActionNode::RunTask(node) => Some(node.key.project_key().source_id()),
            ActionNode::SetupEnvironment(node) => Some(&node.source_id),
            ActionNode::SetupProto(node) => Some(&node.source_id),
            ActionNode::SetupToolchain(node) => Some(&node.source_id),
            ActionNode::SyncProject(node) => Some(node.project_key.source_id()),
            ActionNode::SyncWorkspace(node) => Some(&node.source_id),
        }
    }

    /// The number of the run of a task, once it was derived.
    pub fn get_id(&self) -> (id: u64)
        ensures
            id == (match self {
                ActionNode::RunTask(node) => match node.id {
                    Some(id) => id,
                    None => 0,
                },
                _ => 0,
            }),
    {
        match self {
            ActionNode::RunTask(node) => match node.id {
                Some(id) => id,
                None => 0,
            },
            _ => 0,
        }
    }

    /// The toolchain that is set up.
    pub fn get_spec(&self) -> (spec: Option<&ToolchainSpec>)
        ensures
            match (spec, self@) {
                (Some(found), NodeView::SetupToolchain { spec, .. }) => found@ == spec,
                (None, NodeView::SetupToolchain { .. }) => false,
                (Some(_), _) => false,
                (None, _) => true,
            },
    {
        match self {
            ActionNode::SetupToolchain(node) => Some(&node.toolchain),
            _ => None,
        }
    }

    /// How urgent the action is.
    pub fn get_priority(&self) -> (priority: u8)
        ensures
            priority == (match self@ {
                NodeView::RunTask(run) => run.priority,
                _ => 0,
            }),
    {
        match self {
            ActionNode::RunTask(node) => node.priority,
            _ => 0,
        }
    }

    /// Whether the action talks with the user.
    pub fn is_interactive(&self) -> (r: bool)
        ensures
            r == (self@ is RunTask && self@->RunTask_0.interactive),
    {
        match self {
            ActionNode::RunTask(node) => node.interactive,
            _ => false,
        }
    }

    /// Whether the action never ends.
    pub fn is_persistent(&self) -> (r: bool)
        ensures
            r == (self@ is RunTask && self@->RunTask_0.persistent),
    {
        match self {
            ActionNode::RunTask(node) => node.persistent,
            _ => false,
        }
    }

    /// Whether the action ends by itself, without the user.
    pub fn is_standard(&self) -> (r: bool)
        ensures
            r == !(self@ is RunTask && (self@->RunTask_0.interactive
                || self@->RunTask_0.persistent)),
    {
        match self {
            ActionNode::RunTask(node) => !node.interactive && !node.persistent,
            _ => true,
        }
    }

    /// How the action is written.
    pub fn label(&self) -> (text: String)
        ensures
            text@ == node_label(self@),
    {
        match self {
            ActionNode::Nothing => "None".to_owned(),
            ActionNode::InstallDependencies(node) => with_root(
                "InstallDependencies",
                node.toolchain_id.as_str(),
                node.root.as_str(),
            ),
            ActionNode::RunTask(node) => {
                let name = if node.persistent {
                    "RunPersistentTask"
                } else if node.interactive {
                    "RunInteractiveTask"
                } else {
                    "RunTask"
                };
                in_brackets(name, node.target.to_text().as_str())
            },
            ActionNode::SetupEnvironment(node) => with_root(
                "SetupEnvironment",
                node.toolchain_id.as_str(),
                node.root.as_str(),
            ),
            ActionNode::SetupProto(node) => in_brackets("SetupProto", node.version.as_str()),
            ActionNode::SetupToolchain(node) => in_brackets(
                "SetupToolchain",
                node.toolchain.target().as_str(),
            ),
            ActionNode::SyncProject(node) => in_brackets(
                "SyncProject",
                node.project_key.project_id().as_str(),
            ),
            ActionNode::SyncWorkspace(_) => "SyncWorkspace".to_owned(),
        }
    }
}

/// Whether two lists hold the same texts.
pub fn same_texts(a: &Vec<String>, b: &Vec<String>) -> (same: bool)
    ensures
        same == (views(a@) == views(b@)),
{
    if a.len() != b.len() {
        assert(views(a@).len() != views(b@).len());
        return false;
    }
    let mut i: usize = 0;
    while i < a.len()
        invariant
            i <= a@.len(),
            a@.len() == b@.len(),
            forall|j: int| 0 <= j < i ==> views(a@)[j] == #[trigger] views(b@)[j],
        decreases a.len() - i,
    {
        if !same_text(a[i].as_str(), b[i].as_str()) {
            assert(views(a@)[i as int] != views(b@)[i as int]);
            return false;
        }
        i = i + 1;
    }
    assert(views(a@) =~= views(b@));
    true
}

/// Whether two values are the same, or both missing.
fn same_option(a: &Option<String>, b: &Option<String>) -> (same: bool)
    ensures
        same == (view_of(*a) == view_of(*b)),
{
    match (a, b) {
        (Some(a), Some(b)) => same_text(a.as_str(), b.as_str()),
        (None, None) => true,
        _ => false,
    }
}

fn same_project(a: &Option<ProjectKey>, b: &Option<ProjectKey>) -> (same: bool)
    ensures
        same == (view_of(*a) == view_of(*b)),
{
    match (a, b) {
        (Some(a), Some(b)) => a.same_key(b),
        (None, None) => true,
        _ => false,
    }
}

fn same_members(a: &Option<Vec<String>>, b: &Option<Vec<String>>) -> (same: bool)
    ensures
        same == (member_views(*a) == member_views(*b)),
{
    match (a, b) {
        (Some(a), Some(b)) => same_texts(a, b),
        (None, None) => true,
        _ => false,
    }
}

fn same_project_scope(a: &TargetProjectScope, b: &TargetProjectScope) -> (same: bool)
    ensures
        same == (a@ == b@),
{
    match (a, b) {
        (TargetProjectScope::All, TargetProjectScope::All) => true,
        (TargetProjectScope::Deps, TargetProjectScope::Deps) => true,
        (TargetProjectScope::DepsOf(a), TargetProjectScope::DepsOf(b)) => *a == *b,
        (TargetProjectScope::Id(a), TargetProjectScope::Id(b)) => a.same_key(b),
        (TargetProjectScope::OwnSelf, TargetProjectScope::OwnSelf) => true,
        (TargetProjectScope::Tag(a), TargetProjectScope::Tag(b)) => a.same_key(b),
        _ => false,
    }
}

fn same_target(a: &Target, b: &Target) -> (same: bool)
    ensures
        same == (a@ == b@),
{
    same_project_scope(&a.project, &b.project) && match (&a.task, &b.task) {
        (TargetTaskScope::Id(a), TargetTaskScope::Id(b)) => a.same_key(b),
        (TargetTaskScope::Tag(a), TargetTaskScope::Tag(b)) => a.same_key(b),
        _ => false,
    }
}

fn same_run(a: &RunTaskNode, b: &RunTaskNode) -> (same: bool)
    ensures
        same == (a@ == b@),
{
    a.interactive == b.interactive && a.persistent == b.persistent && a.priority == b.priority
        && a.key.same_key(&b.key) && same_target(&a.target, &b.target) && same_texts(
        &a.args,
        &b.args,
    ) && same_env(&a.env, &b.env) && a.id.is_some() == b.id.is_some()
}

impl Key for ActionNode {
    fn same_key(&self, other: &Self) -> bool {
        match (self, other) {
            (ActionNode::Nothing, ActionNode::Nothing) => true,
            (ActionNode::InstallDependencies(a), ActionNode::InstallDependencies(b)) => same_members(
                &a.members,
                &b.members,
            ) && same_project(&a.project_key, &b.project_key) && same_text(
                a.root.as_str(),
                b.root.as_str(),
            ) && a.source_id.same_key(&b.source_id) && a.toolchain_id.same_key(&b.toolchain_id),
            (ActionNode::RunTask(a), ActionNode::RunTask(b)) => same_run(a, b),
            (ActionNode::SetupEnvironment(a), ActionNode::SetupEnvironment(b)) => same_project(
                &a.project_key,
                &b.project_key,
            ) && same_text(a.root.as_str(), b.root.as_str()) && a.source_id.same_key(&b.source_id)
                && a.toolchain_id.same_key(&b.toolchain_id),
            (ActionNode::SetupProto(a), ActionNode::SetupProto(b)) => a.source_id.same_key(
                &b.source_id,
            ) && same_text(a.version.as_str(), b.version.as_str()),
            (ActionNode::SetupToolchain(a), ActionNode::SetupToolchain(b)) => a.source_id.same_key(
                &b.source_id,
            ) && a.toolchain.id.same_key(&b.toolchain.id) && same_option(
                &a.toolchain.req,
                &b.toolchain.req,
            ),
            (ActionNode::SyncProject(a), ActionNode::SyncProject(b)) => a.project_key.same_key(
                &b.project_key,
            ),
            (ActionNode::SyncWorkspace(a), ActionNode::SyncWorkspace(b)) => a.source_id.same_key(
                &b.source_id,
            ),
            _ => false,
        }
    }

    fn copy_key(&self) -> Self {
        match self {
            ActionNode::Nothing => ActionNode::Nothing,
            ActionNode::InstallDependencies(node) => ActionNode::InstallDependencies(
                Box::new(
                    InstallDependenciesNode {
                        members: match &node.members {
                            Some(members) => Some(copy_texts(members)),
                            None => None,
                        },
                        project_key: copy_project(&node.project_key),
                        root: node.root.clone(),
                        source_id: node.source_id.copy_key(),
                        toolchain_id: node.toolchain_id.copy_key(),
                    },
                ),
            ),
            ActionNode::RunTask(node) => ActionNode::RunTask(
                Box::new(
                    RunTaskNode {
                        args: copy_texts(&node.args),
                        env: copy_env(&node.env),
                        interactive: node.interactive,
                        persistent: node.persistent,
                        priority: node.priority,
                        key: node.key.copy_key(),
                        target: node.target.clone(),
                        id: node.id,
                    },
                ),
            ),
            ActionNode::SetupEnvironment(node) => ActionNode::SetupEnvironment(
                Box::new(
                    SetupEnvironmentNode {
                        project_key: copy_project(&node.project_key),
                        root: node.root.clone(),
                        source_id: node.source_id.copy_key(),
                        toolchain_id: node.toolchain_id.copy_key(),
                    },
                ),
            ),
            ActionNode::SetupProto(node) => ActionNode::SetupProto(
                Box::new(
                    SetupProtoNode {
                        source_id: node.source_id.copy_key(),
                        version: node.version.clone(),
                    },
                ),
            ),
            ActionNode::SetupToolchain(node) => ActionNode::SetupToolchain(
                Box::new(
                    SetupToolchainNode {
                        source_id: node.source_id.copy_key(),
                        toolchain: node.toolchain.clone(),
                    },
                ),
            ),
            ActionNode::SyncProject(node) => ActionNode::SyncProject(
                Box::new(SyncProjectNode { project_key: node.project_key.copy_key() }),
            ),
            ActionNode::SyncWorkspace(node) => ActionNode::SyncWorkspace(
                Box::new(SyncWorkspaceNode { source_id: node.source_id.copy_key() }),
            ),
        }
    }
}

/// A copy of a key that may be missing.
pub fn copy_project(key: &Option<ProjectKey>) -> (copy: Option<ProjectKey>)
    ensures
        view_of(copy) == view_of(*key),
{
    match key {
        Some(key) => Some(key.copy_key()),
        None => None,
    }
}

/// Runs of tasks in different source roots are different actions, however alike their
/// targets are.
pub proof fn runs_keep_sources_apart(a: RunTaskView, b: RunTaskView)
    requires
        a.key.project.source != b.key.project.source,
    ensures
        NodeView::RunTask(a) != NodeView::RunTask(b),
        node_source(NodeView::RunTask(a)) != node_source(NodeView::RunTask(b)),
{
}

/// The order in which an environment is listed does not make another action.
pub proof fn runs_ignore_environment_order(first: RunTaskNode, second: RunTaskNode)
    requires
        env_views(first.env).to_multiset() == env_views(second.env).to_multiset(),
        first@ == (RunTaskView { env: first@.env, ..second@ }),
    ensures
        NodeView::RunTask(first@) == NodeView::RunTask(second@),
{
    let a = env_views(first.env);
    let b = env_views(second.env);
    assert forall|entry: EnvView| a.to_set().contains(entry) == b.to_set().contains(entry) by {
        a.to_multiset_ensures();
        b.to_multiset_ensures();
        assert(a.contains(entry) <==> a.to_multiset().count(entry) > 0);
        assert(b.contains(entry) <==> b.to_multiset().count(entry) > 0);
    }
    assert(a.to_set() =~= b.to_set());
}

} // verus!
