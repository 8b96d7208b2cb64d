//! The discovery of the workspaces that a primary workspace declares.

use crate::id::{valid_id, IdError};
use crate::order::{ranked, sort_ranked, view_of, views, Ranked};
use crate::path::{
    clean_path, components, is_absolute_path, join_path, parent_of, render_path, LogicalPath,
};
use crate::source::{
    canonical, normal_root, primary_text, registry_valid, show_path, shown_path, RegistryView,
    SourceAlias, SourceRegistry, SourceRegistryError, SourceRootId,
};
use crate::table::{value_views, Key, Table};
use crate::text::{
    text_before, text_less, text_less_irreflexive, text_less_total, text_less_transitive,
};
use vstd::prelude::*;
use vstd::seq_lib::lemma_seq_contains_after_push;

verus! {

broadcast use {crate::order::group_views, crate::table::value_views_insert};

/// Why a workspace could not be taken in.
pub enum DiscoveryFault {
    InvalidId { id: Seq<char> },
    Unresolved { alias: Seq<char>, root: Seq<Seq<char>> },
    Unloaded { alias: Seq<char>, root: Seq<Seq<char>> },
    IdRequired { alias: Seq<char>, root: Seq<Seq<char>> },
    IdMismatch { actual: Seq<char>, alias: Seq<char>, expected: Seq<char>, root: Seq<Seq<char>> },
    IdConflict {
        alias: Seq<char>,
        existing_root: Seq<Seq<char>>,
        id: Seq<char>,
        root: Seq<Seq<char>>,
    },
    RootConflict { alias: Seq<char>, existing_id: Seq<char>, id: Seq<char>, root: Seq<Seq<char>> },
    Reserved { id: Seq<char> },
    Registered { id: Seq<char> },
    RootRegistered { id: Seq<char>, root: Seq<Seq<char>> },
}

/// Why a workspace could not be taken in.
#[derive(Debug)]
pub enum DiscoveryError {
    /// A text is no identifier.
    InvalidId { text: String },
    /// The path of the workspace does not lead anywhere.
    Unresolved { alias: SourceAlias, root: LogicalPath },
    /// The configuration of the workspace could not be loaded.
    Unloaded { alias: SourceAlias, root: LogicalPath },
    /// The workspace does not say who it is.
    IdRequired { alias: SourceAlias, root: LogicalPath },
    /// The workspace is another than the one that was expected.
    IdMismatch {
        actual: SourceRootId,
        alias: SourceAlias,
        expected: SourceRootId,
        root: LogicalPath,
    },
    /// Another workspace has the same identifier.
    IdConflict {
        alias: SourceAlias,
        existing_root: LogicalPath,
        id: SourceRootId,
        root: LogicalPath,
    },
    /// The same workspace has another identifier.
    RootConflict { alias: SourceAlias, existing_id: SourceRootId, id: SourceRootId, root: LogicalPath },
    /// The identifier stands for the primary workspace.
    Reserved { id: SourceRootId },
    /// The identifier was registered before.
    Registered { id: SourceRootId },
    /// The root was registered before.
    RootRegistered { id: SourceRootId, root: LogicalPath },
}

impl View for DiscoveryError {
    type V = DiscoveryFault;

    open spec fn view(&self) -> DiscoveryFault {
        match self {
            DiscoveryError::InvalidId { text } => DiscoveryFault::InvalidId { id: text@ },
            DiscoveryError::Unresolved { alias, root } => DiscoveryFault::Unresolved {
                alias: alias@,
                root: root@,
            },
            DiscoveryError::Unloaded { alias, root } => DiscoveryFault::Unloaded {
                alias: alias@,
                root: root@,
            },
            DiscoveryError::IdRequired { alias, root } => DiscoveryFault::IdRequired {
                alias: alias@,
                root: root@,
            },
            DiscoveryError::IdMismatch { actual, alias, expected, root } =>
                DiscoveryFault::IdMismatch {
                actual: actual@,
                alias: alias@,
                expected: expected@,
                root: root@,
            },
            DiscoveryError::IdConflict { alias, existing_root, id, root } =>
                DiscoveryFault::IdConflict {
                alias: alias@,
                existing_root: existing_root@,
                id: id@,
                root: root@,
            },
            DiscoveryError::RootConflict { alias, existing_id, id, root } =>
                DiscoveryFault::RootConflict {
                alias: alias@,
                existing_id: existing_id@,
                id: id@,
                root: root@,
            },
            DiscoveryError::Reserved { id } => DiscoveryFault::Reserved { id: id@ },
            DiscoveryError::Registered { id } => DiscoveryFault::Registered { id: id@ },
            DiscoveryError::RootRegistered { id, root } => DiscoveryFault::RootRegistered {
                id: id@,
                root: root@,
            },
        }
    }
}

/// The text that each fault reports to users.
pub open spec fn discovery_message(fault: DiscoveryFault) -> Seq<char> {
    match fault {
        DiscoveryFault::InvalidId { id } => crate::keys::key_message(
            crate::keys::KeyFault::InvalidId(id),
        ),
        DiscoveryFault::Unresolved { alias, root } => "Failed to resolve discovered workspace "@
            + alias + " at "@ + shown_path(render_path(root)),
        DiscoveryFault::Unloaded { alias, root } => "Failed to load discovered workspace "@ + alias
            + " at "@ + shown_path(render_path(root)),
        DiscoveryFault::IdRequired { alias, root } => "Discovered workspace "@ + alias + " at "@
            + render_path(root) + " must declare a canonical `id`."@,
        DiscoveryFault::IdMismatch { actual, alias, expected, root } => "Discovered workspace "@
            + alias + " at "@ + render_path(root) + " declares the id "@ + actual + ", but "@
            + expected + " is expected."@,
        DiscoveryFault::IdConflict { alias, existing_root, id, root } => "Discovered workspace "@
            + alias + " at "@ + render_path(root) + " declares the id "@ + id
            + ", which is already registered at "@ + render_path(existing_root) + "."@,
        DiscoveryFault::RootConflict { alias, existing_id, id, root } => "Discovered workspace "@
            + alias + " at "@ + render_path(root) + " declares the id "@ + id
            + ", but its root is already registered as "@ + existing_id + "."@,
        DiscoveryFault::Reserved { id } => "Source root ID "@ + id
            + " is reserved for primary-workspace compatibility."@,
        DiscoveryFault::Registered { id } => "Source root "@ + id
            + " has already been registered."@,
        DiscoveryFault::RootRegistered { id, root } => "Source root path "@ + shown_path(
            render_path(root),
        ) + " has already been registered as "@ + id + "."@,
    }
}

fn about_workspace(alias: &SourceAlias, root: &LogicalPath) -> (text: String)
    ensures
        text@ == "Discovered workspace "@ + alias@ + " at "@ + render_path(root@),
{
    let mut text = "Discovered workspace ".to_owned();
    text.append(alias.as_str());
    text.append(" at ");
    text.append(root.to_text().as_str());
    text
}

impl DiscoveryError {
    /// What the error reports to users.
    pub fn message(&self) -> (text: String)
        ensures
            text@ == discovery_message(self@),
    {
        match self {
            DiscoveryError::InvalidId { text } => (IdError { id: text.clone() }).message(),
            DiscoveryError::Unresolved { alias, root } => {
                let mut text = "Failed to resolve discovered workspace ".to_owned();
                text.append(alias.as_str());
                text.append(" at ");
                text.append(show_path(root.to_text().as_str()).as_str());
                text
            },
            DiscoveryError::Unloaded { alias, root } => {
                let mut text = "Failed to load discovered workspace ".to_owned();
                text.append(alias.as_str());
                text.append(" at ");
                text.append(show_path(root.to_text().as_str()).as_str());
                text
            },
            DiscoveryError::IdRequired { alias, root } => {
                let mut text = about_workspace(alias, root);
                text.append(" must declare a canonical `id`.");
                text
            },
            DiscoveryError::IdMismatch { actual, alias, expected, root } => {
                let mut text = about_workspace(alias, root);
                text.append(" declares the id ");
                text.append(actual.as_str());
                text.append(", but ");
                text.append(expected.as_str());
                text.append(" is expected.");
                text
            },
            DiscoveryError::IdConflict { alias, existing_root, id, root } => {
                let mut text = about_workspace(alias, root);
                text.append(" declares the id ");
                text.append(id.as_str());
                text.append(", which is already registered at ");
                text.append(existing_root.to_text().as_str());
                text.append(".");
                text
            },
            DiscoveryError::RootConflict { alias, existing_id, id, root } => {
                let mut text = about_workspace(alias, root);
                text.append(" declares the id ");
                text.append(id.as_str());
                text.append(", but its root is already registered as ");
                text.append(existing_id.as_str());
                text.append(".");
                text
            },
            DiscoveryError::Reserved { id } => {
                let mut text = "Source root ID ".to_owned();
                text.append(id.as_str());
                text.append(" is reserved for primary-workspace compatibility.");
                text
            },
            DiscoveryError::Registered { id } => {
                let mut text = "Source root ".to_owned();
                text.append(id.as_str());
                text.append(" has already been registered.");
                text
            },
            DiscoveryError::RootRegistered { id, root } => {
                let mut text = "Source root path ".to_owned();
                text.append(show_path(root.to_text().as_str()).as_str());
                text.append(" has already been registered as ");
                text.append(id.as_str());
                text.append(".");
                text
            },
        }
    }
}

/// A declaration of a workspace.
pub struct DeclarationView {
    pub alias: Seq<char>,
    pub path: Seq<char>,
    pub id: Option<Seq<char>>,
}

/// A declaration of a workspace: the name that it is given, where it is, and who it must be.
#[derive(Debug)]
pub struct WorkspaceDeclaration {
    pub alias: String,
    pub path: String,
    pub id: Option<String>,
}

impl View for WorkspaceDeclaration {
    type V = DeclarationView;

    open spec fn view(&self) -> DeclarationView {
        DeclarationView { alias: self.alias@, path: self.path@, id: view_of(self.id) }
    }
}

impl Ranked for WorkspaceDeclaration {
    open spec fn before(a: DeclarationView, b: DeclarationView) -> bool {
        text_less(a.alias, b.alias)
    }

    proof fn before_irreflexive(a: DeclarationView) {
        text_less_irreflexive(a.alias);
    }

    proof fn before_transitive(a: DeclarationView, b: DeclarationView, c: DeclarationView) {
        text_less_transitive(a.alias, b.alias, c.alias);
    }

    proof fn before_total(a: DeclarationView, b: DeclarationView, c: DeclarationView) {
        text_less_total(a.alias, c.alias);
        text_less_total(c.alias, b.alias);
        if !text_less(a.alias, c.alias) && !text_less(c.alias, b.alias) {
            if text_less(c.alias, a.alias) {
                text_less_transitive(c.alias, a.alias, b.alias);
            }
        }
    }

    fn is_before(&self, other: &Self) -> bool {
        text_before(self.alias.as_str(), other.alias.as_str())
    }
}

/// The declarations in the order in which their workspaces are looked for.
pub fn order_declarations(declarations: Vec<WorkspaceDeclaration>) -> (ordered: Vec<
    WorkspaceDeclaration,
>)
    ensures
        views(ordered@) == ranked::<WorkspaceDeclaration>(views(declarations@)),
{
    sort_ranked(declarations)
}

/// What was found where a workspace is declared.
pub enum FoundView {
    Unresolved,
    Unloaded,
    Loaded { physical_root: Seq<Seq<char>>, id: Option<Seq<char>> },
}

/// What was found where a workspace is declared.
#[derive(Debug)]
pub enum FoundWorkspace {
    /// The path does not lead anywhere.
    Unresolved,
    /// The configuration could not be loaded.
    Unloaded,
    /// A workspace, with its root behind all links, and the identifier that it declares.
    Loaded { physical_root: LogicalPath, id: Option<String> },
}

impl View for FoundWorkspace {
    type V = FoundView;

    open spec fn view(&self) -> FoundView {
        match self {
            FoundWorkspace::Unresolved => FoundView::Unresolved,
            FoundWorkspace::Unloaded => FoundView::Unloaded,
            FoundWorkspace::Loaded { physical_root, id } => FoundView::Loaded {
                physical_root: physical_root@,
                id: view_of(*id),
            },
        }
    }
}

/// A workspace that could not be taken in.
pub struct FailureView {
    pub alias: Seq<char>,
    pub message: Seq<char>,
    pub root: Seq<Seq<char>>,
    pub stage: Seq<char>,
}

/// A workspace that could not be taken in: its name and root, at which stage, and why.
#[derive(Debug)]
pub struct DiscoveredWorkspaceFailure {
    pub alias: SourceAlias,
    pub message: String,
    pub root: LogicalPath,
    pub stage: String,
}

impl View for DiscoveredWorkspaceFailure {
    type V = FailureView;

    open spec fn view(&self) -> FailureView {
        FailureView {
            alias: self.alias@,
            message: self.message@,
            root: self.root@,
            stage: self.stage@,
        }
    }
}

/// What a source root could not load.
pub struct LoadFailureView {
    pub message: Seq<char>,
    pub stage: Seq<char>,
}

/// What a source root could not load: at which stage, and why.
#[derive(Debug)]
pub struct SourceLoadFailure {
    pub message: String,
    pub stage: String,
}

impl View for SourceLoadFailure {
    type V = LoadFailureView;

    open spec fn view(&self) -> LoadFailureView {
        LoadFailureView { message: self.message@, stage: self.stage@ }
    }
}

/// The failures so far and one more, where there is one. Unless failures are retained, the
/// first one is reported.
pub open spec fn with_load_failure(
    failures: Result<Seq<LoadFailureView>, Seq<char>>,
    stage: Seq<char>,
    message: Option<Seq<char>>,
    retain: bool,
) -> Result<Seq<LoadFailureView>, Seq<char>> {
    match (failures, message) {
        (Ok(failures), Some(message)) => if retain {
            Ok(failures.push(LoadFailureView { message, stage }))
        } else {
            Err(message)
        },
        _ => failures,
    }
}

/// What a source root could not load, stage by stage.
pub open spec fn load_failures(
    tasks: Option<Seq<char>>,
    extensions: Option<Seq<char>>,
    toolchains: Option<Seq<char>>,
    retain: bool,
) -> Result<Seq<LoadFailureView>, Seq<char>> {
    with_load_failure(
        with_load_failure(
            with_load_failure(Ok(Seq::empty()), "tasks-config"@, tasks, retain),
            "extensions-config"@,
            extensions,
            retain,
        ),
        "toolchains-config"@,
        toolchains,
        retain,
    )
}

/// What a source root could not load, stage by stage. Unless failures are retained, the
/// first one is the error.
pub fn collect_load_failures(
    tasks: Option<String>,
    extensions: Option<String>,
    toolchains: Option<String>,
    retain: bool,
) -> (failures: Result<Vec<SourceLoadFailure>, String>)
    ensures
        match failures {
            Ok(failures) => load_failures(
                view_of(tasks),
                view_of(extensions),
                view_of(toolchains),
                retain,
            ) == Ok::<Seq<LoadFailureView>, Seq<char>>(views(failures@)),
            Err(message) => load_failures(
                view_of(tasks),
                view_of(extensions),
                view_of(toolchains),
                retain,
            ) == Err::<Seq<LoadFailureView>, Seq<char>>(message@),
        },
{
    let mut failures: Vec<SourceLoadFailure> = Vec::new();
    assert(views(failures@) =~= Seq::empty());
    if let Some(message) = tasks {
        if !retain {
            return Err(message);
        }
        failures.push(SourceLoadFailure { message, stage: "tasks-config".to_owned() });
    }
    if let Some(message) = extensions {
        if !retain {
            return Err(message);
        }
        failures.push(SourceLoadFailure { message, stage: "extensions-config".to_owned() });
    }
    if let Some(message) = toolchains {
        if !retain {
            return Err(message);
        }
        failures.push(SourceLoadFailure { message, stage: "toolchains-config".to_owned() });
    }
    Ok(failures)
}

/// Why no workspace can be worked in.
#[derive(Clone, Copy, PartialEq, Eq, Structural, Debug)]
pub enum WorkspaceRootError {
    /// No directory holds the configuration of a workspace.
    MissingConfigDir,
    /// The home directory is not known.
    MissingHomeDir,
}

/// A directory and all directories around it, from the inside out.
pub open spec fn ancestors(dir: Seq<Seq<char>>) -> Seq<Seq<Seq<char>>>
    decreases dir.len(),
{
    match parent_of(dir) {
        Some(parent) => if parent.len() < dir.len() {
            seq![dir] + ancestors(parent)
        } else {
            seq![dir]
        },
        None => seq![dir],
    }
}

/// Where the root of the workspace may be: where the user says, or in the working directory
/// or around it.
pub open spec fn root_candidates(named: Option<Seq<char>>, working_dir: Seq<Seq<char>>) -> Seq<
    Seq<Seq<char>>,
> {
    match named {
        Some(text) => seq![
            if is_absolute_path(components(text)) {
                clean_path(components(text))
            } else {
                clean_path(join_path(working_dir, components(text)))
            },
        ],
        None => ancestors(working_dir),
    }
}

/// Where the root of the workspace may be.
pub fn workspace_root_candidates(named: Option<&str>, working_dir: &LogicalPath) -> (candidates: Vec<
    LogicalPath,
>)
    ensures
        views(candidates@) == root_candidates(
            match named {
                Some(text) => Some(text@),
                None => None,
            },
            working_dir@,
        ),
{
    let mut candidates: Vec<LogicalPath> = Vec::new();
    if let Some(text) = named {
        let path = LogicalPath::parse(text);
        if path.is_absolute() {
            candidates.push(path.clean());
        } else {
            candidates.push(working_dir.join(&path).clean());
        }
        assert(views(candidates@) =~= root_candidates(Some(text@), working_dir@));
        return candidates;
    }
    let mut dir = working_dir.clone();
    let mut more = true;
    let ghost all = ancestors(working_dir@);
    assert(views(candidates@) + ancestors(dir@) =~= all);
    while more
        invariant
            all == ancestors(working_dir@),
            more ==> views(candidates@) + ancestors(dir@) == all,
            !more ==> views(candidates@) == all,
        decreases
                if more {
                    dir@.len() + 1
                } else {
                    0
                },
    {
        let ghost before = views(candidates@);
        let ghost own = dir@;
        let parent = dir.parent();
        let n = dir.count();
        candidates.push(dir);
        match parent {
            Some(parent) => {
                if parent.count() < n {
                    assert(before + (seq![own] + ancestors(parent@)) =~= views(candidates@)
                        + ancestors(parent@));
                    dir = parent;
                } else {
                    assert(before + seq![own] =~= views(candidates@));
                    dir = LogicalPath::empty();
                    more = false;
                }
            },
            None => {
                assert(before + seq![own] =~= views(candidates@));
                dir = LogicalPath::empty();
                more = false;
            },
        }
    }
    candidates
}

/// The root of the workspace is the first candidate that holds a configuration, unless that
/// is the home directory.
pub open spec fn chosen_root(found: Option<Seq<Seq<char>>>, home: Option<Seq<Seq<char>>>) -> Result<
    Seq<Seq<char>>,
    WorkspaceRootError,
> {
    match (found, home) {
        (None, _) => Err(WorkspaceRootError::MissingConfigDir),
        (Some(_), None) => Err(WorkspaceRootError::MissingHomeDir),
        (Some(root), Some(home)) => if root == home {
            Err(WorkspaceRootError::MissingConfigDir)
        } else {
            Ok(root)
        },
    }
}

/// The root of the workspace, given the first candidate that holds a configuration.
pub fn choose_workspace_root(found: Option<LogicalPath>, home: Option<&LogicalPath>) -> (root: Result<
    LogicalPath,
    WorkspaceRootError,
>)
    ensures
        (match root {
            Ok(root) => Ok(root@),
            Err(error) => Err(error),
        }) == chosen_root(
            view_of(found),
            match home {
                Some(home) => Some(home@),
                None => None,
            },
        ),
{
    let root = match found {
        Some(root) => root,
        None => {
            return Err(WorkspaceRootError::MissingConfigDir);
        },
    };
    match home {
        None => Err(WorkspaceRootError::MissingHomeDir),
        Some(home) => if root.same_key(home) {
            Err(WorkspaceRootError::MissingConfigDir)
        } else {
            Ok(root)
        },
    }
}

/// The workspaces that were found.
pub struct DiscoveryView {
    pub sources: RegistryView,
    pub aliases: Map<Seq<char>, Seq<char>>,
    pub failures: Seq<FailureView>,
    pub physical_roots: Map<Seq<Seq<char>>, Seq<char>>,
    pub identity_roots: Map<Seq<char>, Seq<Seq<char>>>,
    pub workspaces: Map<Seq<char>, Seq<Seq<char>>>,
}

/// The workspaces that were found: their names and identifiers, and where they are.
#[derive(Debug)]
pub struct WorkspaceDiscovery {
    pub aliases: Table<SourceAlias, SourceRootId>,
    pub failures: Vec<DiscoveredWorkspaceFailure>,
    pub sources: SourceRegistry,
    pub workspaces: Table<SourceRootId, LogicalPath>,
    pub physical_roots: Table<LogicalPath, SourceRootId>,
    pub identity_roots: Table<SourceRootId, LogicalPath>,
}

impl View for WorkspaceDiscovery {
    type V = DiscoveryView;

    open spec fn view(&self) -> DiscoveryView {
        DiscoveryView {
            sources: self.sources@,
            aliases: value_views(self.aliases@),
            failures: views(self.failures@),
            physical_roots: value_views(self.physical_roots@),
            identity_roots: value_views(self.identity_roots@),
            workspaces: value_views(self.workspaces@),
        }
    }
}

/// What holds of the workspaces at any time: those with an identity are those that are
/// registered, every name stands for one of them, and no two are at one place.
pub open spec fn discovery_valid(discovery: DiscoveryView) -> bool {
    &&& registry_valid(discovery.sources)
    &&& discovery.identity_roots.dom() == discovery.sources.roots.dom()
    &&& discovery.workspaces.dom() == discovery.sources.roots.dom()
    &&& forall|alias: Seq<char>| #[trigger]
        discovery.aliases.dom().contains(alias) ==> discovery.sources.roots.dom().contains(
            discovery.aliases[alias],
        )
    &&& forall|root: Seq<Seq<char>>| #[trigger]
        discovery.physical_roots.dom().contains(root) ==> discovery.identity_roots.dom().contains(
            discovery.physical_roots[root],
        ) && discovery.identity_roots[discovery.physical_roots[root]] == root
    &&& forall|id: Seq<char>| #[trigger]
        discovery.identity_roots.dom().contains(id) ==> discovery.physical_roots.dom().contains(
            discovery.identity_roots[id],
        ) && discovery.physical_roots[discovery.identity_roots[id]] == id
}

/// The primary workspace alone.
pub open spec fn primary_discovery(
    id: Seq<char>,
    root: Seq<Seq<char>>,
    physical_root: Seq<Seq<char>>,
) -> DiscoveryView {
    DiscoveryView {
        sources: RegistryView { primary: id, roots: Map::empty().insert(id, normal_root(root)) },
        aliases: Map::empty(),
        failures: Seq::empty(),
        physical_roots: Map::empty().insert(physical_root, id),
        identity_roots: Map::empty().insert(id, physical_root),
        workspaces: Map::empty().insert(id, root),
    }
}

/// Where a workspace is declared to be.
pub open spec fn declared_root(primary: Seq<Seq<char>>, path: Seq<char>) -> Seq<Seq<char>> {
    clean_path(join_path(primary, components(path)))
}

/// Where a workspace is declared to be.
pub fn workspace_root(primary: &LogicalPath, path: &str) -> (root: LogicalPath)
    ensures
        root@ == declared_root(primary@, path@),
{
    primary.join(&LogicalPath::parse(path)).clean()
}

/// A workspace that could not be taken in is remembered, or ends the discovery.
pub open spec fn fail(
    discovery: DiscoveryView,
    retain: bool,
    alias: Seq<char>,
    root: Seq<Seq<char>>,
    stage: Seq<char>,
    fault: DiscoveryFault,
) -> (DiscoveryView, Result<(), DiscoveryFault>) {
    if retain {
        (
            DiscoveryView {
                failures: discovery.failures.push(
                    FailureView { alias, message: discovery_message(fault), root, stage },
                ),
                ..discovery
            },
            Ok(()),
        )
    } else {
        (discovery, Err(fault))
    }
}

/// Why a source root cannot be registered.
pub open spec fn register_fault(registry: RegistryView, id: Seq<char>, root: Seq<Seq<char>>) -> Option<
    DiscoveryFault,
> {
    if id == primary_text() && id != registry.primary {
        Some(DiscoveryFault::Reserved { id })
    } else if registry.roots.dom().contains(id) {
        Some(DiscoveryFault::Registered { id })
    } else if exists|other: Seq<char>| #[trigger] root_taken(registry, other, normal_root(root)) {
        let known = choose|other: Seq<char>| #[trigger]
            root_taken(registry, other, normal_root(root));
        Some(DiscoveryFault::RootRegistered { id: known, root: normal_root(root) })
    } else {
        None
    }
}

/// A source root is at a place.
pub open spec fn root_taken(registry: RegistryView, id: Seq<char>, root: Seq<Seq<char>>) -> bool {
    registry.roots.dom().contains(id) && registry.roots[id] == root
}

/// A workspace that says who it is. The same workspace under another name is not taken in
/// twice. No two workspaces share an identifier, and none has two.
pub open spec fn identified(
    discovery: DiscoveryView,
    alias: Seq<char>,
    root: Seq<Seq<char>>,
    physical_root: Seq<Seq<char>>,
    id: Seq<char>,
    retain: bool,
) -> (DiscoveryView, Result<(), DiscoveryFault>) {
    let stage = "workspace-identity"@;
    if discovery.identity_roots.dom().contains(id) {
        if discovery.identity_roots[id] == physical_root {
            (DiscoveryView { aliases: discovery.aliases.insert(alias, id), ..discovery }, Ok(()))
        } else {
            fail(
                discovery,
                retain,
                alias,
                root,
                stage,
                DiscoveryFault::IdConflict {
                    alias,
                    existing_root: discovery.sources.roots[canonical(discovery.sources, id)],
                    id,
                    root,
                },
            )
        }
    } else if discovery.physical_roots.dom().contains(physical_root) {
        fail(
            discovery,
            retain,
            alias,
            root,
            stage,
            DiscoveryFault::RootConflict {
                alias,
                existing_id: discovery.physical_roots[physical_root],
                id,
                root,
            },
        )
    } else {
        match register_fault(discovery.sources, id, root) {
            Some(fault) => fail(discovery, retain, alias, root, stage, fault),
            None => (
                DiscoveryView {
                    sources: RegistryView {
                        roots: discovery.sources.roots.insert(id, normal_root(root)),
                        ..discovery.sources
                    },
                    aliases: discovery.aliases.insert(alias, id),
                    physical_roots: discovery.physical_roots.insert(physical_root, id),
                    identity_roots: discovery.identity_roots.insert(id, physical_root),
                    workspaces: discovery.workspaces.insert(id, root),
                    ..discovery
                },
                Ok(()),
            ),
        }
    }
}

/// What one declaration makes of the workspaces that were found so far.
pub open spec fn discovered(
    discovery: DiscoveryView,
    primary_root: Seq<Seq<char>>,
    declaration: DeclarationView,
    found: FoundView,
    retain: bool,
) -> (DiscoveryView, Result<(), DiscoveryFault>) {
    let alias = declaration.alias;
    let root = declared_root(primary_root, declaration.path);
    if !valid_id(alias) {
        (discovery, Err(DiscoveryFault::InvalidId { id: alias }))
    } else {
        match found {
            FoundView::Unresolved => fail(
                discovery,
                retain,
                alias,
                root,
                "resolve-path"@,
                DiscoveryFault::Unresolved { alias, root },
            ),
            FoundView::Unloaded => fail(
                discovery,
                retain,
                alias,
                root,
                "workspace-config"@,
                DiscoveryFault::Unloaded { alias, root },
            ),
            FoundView::Loaded { physical_root, id: None } => fail(
                discovery,
                retain,
                alias,
                root,
                "workspace-identity"@,
                DiscoveryFault::IdRequired { alias, root },
            ),
            FoundView::Loaded { physical_root, id: Some(id) } => if !valid_id(id) {
                (discovery, Err(DiscoveryFault::InvalidId { id }))
            } else if declaration.id is Some && !valid_id(declaration.id->0) {
                (discovery, Err(DiscoveryFault::InvalidId { id: declaration.id->0 }))
            } else if declaration.id is Some && declaration.id->0 != id {
                fail(
                    discovery,
                    retain,
                    alias,
                    root,
                    "workspace-identity"@,
                    DiscoveryFault::IdMismatch {
                        actual: id,
                        alias,
                        expected: declaration.id->0,
                        root,
                    },
                )
            } else {
                identified(discovery, alias, root, physical_root, id, retain)
            },
        }
    }
}

/// What all declarations make of the workspaces that were found so far, one after the other.
/// The first that ends the discovery is the last that is looked at.
pub open spec fn discovered_all(
    discovery: DiscoveryView,
    primary_root: Seq<Seq<char>>,
    declarations: Seq<DeclarationView>,
    found: Seq<FoundView>,
    retain: bool,
) -> (DiscoveryView, Result<(), DiscoveryFault>)
    decreases declarations.len(),
{
    if declarations.len() == 0 {
        (discovery, Ok(()))
    } else {
        let (before, done) = discovered_all(
            discovery,
            primary_root,
            declarations.drop_last(),
            found.drop_last(),
            retain,
        );
        match done {
            Err(fault) => (before, Err(fault)),
            Ok(()) => discovered(before, primary_root, declarations.last(), found.last(), retain),
        }
    }
}

proof fn discovered_all_stops(
    discovery: DiscoveryView,
    primary_root: Seq<Seq<char>>,
    declarations: Seq<DeclarationView>,
    found: Seq<FoundView>,
    retain: bool,
    n: int,
)
    requires
        0 <= n <= declarations.len(),
        declarations.len() == found.len(),
        discovered_all(discovery, primary_root, declarations.take(n), found.take(n), retain).1 is Err,
    ensures
        discovered_all(discovery, primary_root, declarations, found, retain) == discovered_all(
            discovery,
            primary_root,
            declarations.take(n),
            found.take(n),
            retain,
        ),
    decreases declarations.len(),
{
    if n == declarations.len() {
        assert(declarations.take(n) =~= declarations);
        assert(found.take(n) =~= found);
    } else {
        assert(declarations.drop_last().take(n) =~= declarations.take(n));
        assert(found.drop_last().take(n) =~= found.take(n));
        discovered_all_stops(
            discovery,
            primary_root,
            declarations.drop_last(),
            found.drop_last(),
            retain,
            n,
        );
    }
}

/// A workspace is declared under a name.
pub open spec fn is_declared(declarations: Seq<DeclarationView>, alias: Seq<char>) -> bool {
    exists|i: int| 0 <= i < declarations.len() && (#[trigger] declarations[i]).alias == alias
}

/// The workspace with a name could not be taken in.
pub open spec fn has_failed(failures: Seq<FailureView>, alias: Seq<char>) -> bool {
    exists|i: int| 0 <= i < failures.len() && (#[trigger] failures[i]).alias == alias
}

/// No two workspaces are declared under one name.
pub open spec fn aliases_apart(declarations: Seq<DeclarationView>) -> bool {
    forall|i: int, j: int|
        0 <= i < j < declarations.len() ==> (#[trigger] declarations[i]).alias != (
        #[trigger] declarations[j]).alias
}

/// A discovery that is not ended by a failure leaves every name that was declared, and no
/// other, either among the workspaces or among the failures, and never in both. There are as
/// many of them as declarations. Without failures being retained there are none.
pub proof fn every_alias_is_found_or_fails(
    discovery: DiscoveryView,
    primary_root: Seq<Seq<char>>,
    declarations: Seq<DeclarationView>,
    found: Seq<FoundView>,
    retain: bool,
)
    requires
        discovery.aliases == Map::<Seq<char>, Seq<char>>::empty(),
        discovery.failures == Seq::<FailureView>::empty(),
        aliases_apart(declarations),
        declarations.len() == found.len(),
        discovered_all(discovery, primary_root, declarations, found, retain).1 is Ok,
    ensures
        ({
            let after = discovered_all(discovery, primary_root, declarations, found, retain).0;
            &&& forall|alias: Seq<char>| #[trigger]
                is_declared(declarations, alias) <==> after.aliases.dom().contains(alias)
                    || has_failed(after.failures, alias)
            &&& forall|alias: Seq<char>| #[trigger]
                has_failed(after.failures, alias) ==> !after.aliases.dom().contains(alias)
            &&& after.aliases.dom().finite()
            &&& after.aliases.len() + after.failures.len() == declarations.len()
            &&& !retain ==> after.failures == Seq::<FailureView>::empty()
        }),
    decreases declarations.len(),
{
    let (after, done) = discovered_all(discovery, primary_root, declarations, found, retain);
    if declarations.len() == 0 {
        assert forall|alias: Seq<char>| !has_failed(after.failures, alias) by {}
    } else {
        let rest = declarations.drop_last();
        let last = declarations.last();
        let before = discovered_all(discovery, primary_root, rest, found.drop_last(), retain).0;
        assert forall|i: int, j: int| 0 <= i < j < rest.len() implies (#[trigger] rest[i]).alias
            != (#[trigger] rest[j]).alias by {
            assert(declarations[i].alias != declarations[j].alias);
        }
        every_alias_is_found_or_fails(discovery, primary_root, rest, found.drop_last(), retain);
        assert(!is_declared(rest, last.alias)) by {
            if is_declared(rest, last.alias) {
                let i = choose|i: int| 0 <= i < rest.len() && (#[trigger] rest[i]).alias == last.alias;
                assert(declarations[i].alias != declarations[declarations.len() - 1].alias);
            }
        }
        assert(discovered(before, primary_root, last, found.last(), retain).0 == after);
        let failure = after.failures.last();
        let taken = after.aliases.dom() =~= before.aliases.dom().insert(last.alias)
            && after.failures == before.failures;
        let failed = after.aliases == before.aliases && after.failures == before.failures.push(
            failure,
        ) && failure.alias == last.alias && retain;
        assert(taken || failed);
        assert forall|alias: Seq<char>| #[trigger]
            is_declared(declarations, alias) <==> is_declared(rest, alias) || alias
            == last.alias by {
            if is_declared(rest, alias) {
                let i = choose|i: int| 0 <= i < rest.len() && (#[trigger] rest[i]).alias == alias;
                assert(declarations[i].alias == alias);
            }
            if alias == last.alias {
                assert(declarations[declarations.len() - 1].alias == alias);
            }
            if is_declared(declarations, alias) && alias != last.alias {
                let i = choose|i: int|
                    0 <= i < declarations.len() && (#[trigger] declarations[i]).alias == alias;
                assert(rest[i].alias == alias);
            }
        }
        assert forall|alias: Seq<char>| #[trigger]
            has_failed(after.failures, alias) <==> has_failed(before.failures, alias) || (failed
            && alias == last.alias) by {
            if has_failed(before.failures, alias) {
                let i = choose|i: int|
                    0 <= i < before.failures.len() && (#[trigger] before.failures[i]).alias == alias;
                assert(after.failures[i].alias == alias);
            }
            if failed && alias == last.alias {
                assert(after.failures[after.failures.len() - 1].alias == alias);
            }
            if has_failed(after.failures, alias) && !has_failed(before.failures, alias) {
                let i = choose|i: int|
                    0 <= i < after.failures.len() && (#[trigger] after.failures[i]).alias == alias;
                if i < before.failures.len() {
                    assert(before.failures[i].alias == alias);
                }
            }
        }
        assert forall|alias: Seq<char>| #[trigger]
            is_declared(declarations, alias) <==> after.aliases.dom().contains(alias)
            || has_failed(after.failures, alias) by {
            assert(is_declared(rest, alias) <==> before.aliases.dom().contains(alias)
                || has_failed(before.failures, alias));
        }
        assert forall|alias: Seq<char>| #[trigger]
            has_failed(after.failures, alias) implies !after.aliases.dom().contains(alias) by {
            assert(is_declared(rest, alias) <==> before.aliases.dom().contains(alias)
                || has_failed(before.failures, alias));
            assert(has_failed(before.failures, alias) ==> !before.aliases.dom().contains(alias));
        }
        assert(is_declared(rest, last.alias) <==> before.aliases.dom().contains(last.alias)
            || has_failed(before.failures, last.alias));
    }
}

/// What an operation reports.
pub open spec fn told_discovery(result: Result<(), DiscoveryError>) -> Result<(), DiscoveryFault> {
    match result {
        Ok(()) => Ok(()),
        Err(error) => Err(error@),
    }
}

impl WorkspaceDiscovery {
    /// The primary workspace alone. Without an identifier of its own it has the one that
    /// stands for any primary workspace.
    pub fn new(id: Option<&str>, root: LogicalPath, physical_root: LogicalPath) -> (discovery: Result<
        Self,
        DiscoveryError,
    >)
        ensures
            match discovery {
                Ok(discovery) => {
                    &&& id is Some ==> valid_id(id->0@)
                    &&& discovery@ == primary_discovery(
                        match id {
                            Some(id) => id@,
                            None => primary_text(),
                        },
                        root@,
                        physical_root@,
                    )
                    &&& discovery_valid(discovery@)
                },
                Err(error) => id is Some && !valid_id(id->0@) && error@ == (
                DiscoveryFault::InvalidId { id: id->0@ }),
            },
    {
        let id = match id {
            Some(text) => match SourceRootId::new(text) {
                Ok(id) => id,
                Err(error) => {
                    return Err(DiscoveryError::InvalidId { text: error.id });
                },
            },
            None => SourceRootId::primary(),
        };
        let mut physical_roots: Table<LogicalPath, SourceRootId> = Table::new();
        physical_roots.insert(physical_root.copy_key(), id.copy_key());
        let mut identity_roots: Table<SourceRootId, LogicalPath> = Table::new();
        identity_roots.insert(id.copy_key(), physical_root);
        let mut workspaces: Table<SourceRootId, LogicalPath> = Table::new();
        workspaces.insert(id.copy_key(), root.clone());
        let discovery = WorkspaceDiscovery {
            aliases: Table::new(),
            failures: Vec::new(),
            sources: SourceRegistry::new(id, root),
            workspaces,
            physical_roots,
            identity_roots,
        };
        proof {
            let made = discovery@;
            assert(made.aliases =~= Map::empty());
            assert(made.failures =~= Seq::empty());
            assert(made.physical_roots =~= Map::empty().insert(physical_root@, id@));
            assert(made.identity_roots =~= Map::empty().insert(id@, physical_root@));
            assert(made.workspaces =~= Map::empty().insert(id@, root@));
            assert(made.identity_roots.dom() =~= made.sources.roots.dom());
            assert(made.workspaces.dom() =~= made.sources.roots.dom());
        }
        Ok(discovery)
    }

    fn remember(
        &mut self,
        retain: bool,
        alias: SourceAlias,
        root: LogicalPath,
        stage: &str,
        error: DiscoveryError,
    ) -> (done: Result<(), DiscoveryError>)
        requires
            discovery_valid(old(self)@),
        ensures
            (final(self)@, told_discovery(done)) == fail(
                old(self)@,
                retain,
                alias@,
                root@,
                stage@,
                error@,
            ),
            discovery_valid(final(self)@),
    {
        if !retain {
            return Err(error);
        }
        self.failures.push(
            DiscoveredWorkspaceFailure {
                alias,
                message: error.message(),
                root,
                stage: stage.to_owned(),
            },
        );
        Ok(())
    }

    fn identify(
        &mut self,
        alias: SourceAlias,
        root: LogicalPath,
        physical_root: LogicalPath,
        id: SourceRootId,
        retain: bool,
    ) -> (done: Result<(), DiscoveryError>)
        requires
            discovery_valid(old(self)@),
        ensures
            (final(self)@, told_discovery(done)) == identified(
                old(self)@,
                alias@,
                root@,
                physical_root@,
                id@,
                retain,
            ),
            discovery_valid(final(self)@),
    {
        let ghost before = self@;
        if let Some(known) = self.identity_roots.get(&id) {
            if known.same_key(&physical_root) {
                assert(self@.sources.roots.dom().contains(id@)) by {
                    assert(self@.identity_roots.dom().contains(id@));
                }
                self.aliases.insert(alias, id);
                return Ok(());
            }
            let existing_root = match self.sources.get(&id) {
                Ok(root) => root.clone(),
                Err(_) => {
                    proof {
                        let _ = canonical(before.sources, id@);
                        assert(before.identity_roots.dom().contains(id@));
                        assert(before.sources.roots.dom().contains(id@));
                        assert(before.sources.roots.dom().contains(canonical(before.sources, id@)));
                    }
                    vstd::pervasive::unreached()
                },
            };
            let error = DiscoveryError::IdConflict {
                alias: alias.copy_key(),
                existing_root,
                id,
                root: root.clone(),
            };
            return self.remember(retain, alias, root, "workspace-identity", error);
        }
        if let Some(existing) = self.physical_roots.get(&physical_root) {
            let error = DiscoveryError::RootConflict {
                alias: alias.copy_key(),
                existing_id: existing.copy_key(),
                id,
                root: root.clone(),
            };
            return self.remember(retain, alias, root, "workspace-identity", error);
        }
        match self.sources.register(id.copy_key(), root.clone()) {
            Err(error) => {
                proof {
                    assert(self@ == before);
                }
                let fault = match error {
                    SourceRegistryError::ReservedSourceRoot { id } => DiscoveryError::Reserved { id },
                    SourceRegistryError::DuplicateSourceRoot { id } => DiscoveryError::Registered {
                        id,
                    },
                    SourceRegistryError::DuplicateSourceRootPath { id: known, root: same } => {
                        proof {
                            let chosen = choose|other: Seq<char>| #[trigger]
                                root_taken(before.sources, other, normal_root(root@));
                            assert(root_taken(before.sources, known@, normal_root(root@)));
                            assert(root_taken(before.sources, chosen, normal_root(root@)));
                            assert(before.sources.roots[chosen] == before.sources.roots[known@]);
                        }
                        DiscoveryError::RootRegistered { id: known, root: same }
                    },
                    _ => vstd::pervasive::unreached(),
                };
                assert(register_fault(before.sources, id@, root@) == Some(fault@));
                self.remember(retain, alias, root, "workspace-identity", fault)
            },
            Ok(()) => {
                proof {
                    assert(register_fault(before.sources, id@, root@) is None) by {
                        assert forall|other: Seq<char>| !#[trigger] root_taken(
                            before.sources,
                            other,
                            normal_root(root@),
                        ) by {
                            if before.sources.roots.dom().contains(other) {
                                assert(before.sources.roots[other] != normal_root(root@));
                            }
                        }
                    }
                }
                self.aliases.insert(alias, id.copy_key());
                self.identity_roots.insert(id.copy_key(), physical_root.copy_key());
                self.physical_roots.insert(physical_root, id.copy_key());
                self.workspaces.insert(id, root);
                proof {
                    let after = self@;
                    assert(after.identity_roots.dom() =~= after.sources.roots.dom());
                    assert(after.workspaces.dom() =~= after.sources.roots.dom());
                    assert forall|other: Seq<char>| #[trigger]
                        after.identity_roots.dom().contains(other) implies after.physical_roots.dom().contains(
                    after.identity_roots[other]) && after.physical_roots[after.identity_roots[other]]
                        == other by {
                        if other != id@ {
                            assert(before.identity_roots.dom().contains(other));
                        }
                    }
                }
                Ok(())
            },
        }
    }

    /// The workspaces besides the primary one, in the order of their identifiers.
    pub fn child_sources(&self) -> (ids: Vec<SourceRootId>)
        ensures
            exists|listed: Seq<Seq<char>>|
                listed.no_duplicates() && (forall|id: Seq<char>| #[trigger]
                    listed.contains(id) <==> self@.workspaces.dom().contains(id) && id
                        != self@.sources.primary) && views(ids@) == ranked::<SourceRootId>(listed),
    {
        let n = self.workspaces.len();
        let ghost keys = self.workspaces.keys();
        let mut ids: Vec<SourceRootId> = Vec::new();
        let mut i: usize = 0;
        while i < n
            invariant
                i <= n,
                n == keys.len(),
                keys == self.workspaces.keys(),
                keys.no_duplicates(),
                views(ids@).no_duplicates(),
                forall|id: Seq<char>| #[trigger]
                    views(ids@).contains(id) <==> keys.take(i as int).contains(id) && id
                        != self@.sources.primary,
            decreases n - i,
        {
            let id = self.workspaces.key_at(i);
            let ghost before = views(ids@);
            proof {
                assert(keys.take(i + 1) =~= keys.take(i as int).push(keys[i as int]));
                assert forall|other: Seq<char>| keys.take(i + 1).contains(other) <==> (other
                    == keys[i as int] || keys.take(i as int).contains(other)) by {
                    lemma_seq_contains_after_push(keys.take(i as int), keys[i as int], other);
                }
                assert(!keys.take(i as int).contains(keys[i as int])) by {
                    if keys.take(i as int).contains(keys[i as int]) {
                        let j = choose|j: int|
                            0 <= j < i && keys.take(i as int)[j] == keys[i as int];
                        assert(keys[j] == keys[i as int]);
                    }
                }
            }
            if !id.same_key(self.sources.primary_id()) {
                ids.push(id.copy_key());
                proof {
                    assert forall|other: Seq<char>| views(ids@).contains(other) <==> (other == id@
                        || before.contains(other)) by {
                        lemma_seq_contains_after_push(before, id@, other);
                    }
                    assert(!before.contains(id@));
                }
            }
            proof {
                assert forall|other: Seq<char>| #[trigger]
                    views(ids@).contains(other) <==> keys.take(i + 1).contains(other) && other
                        != self@.sources.primary by {
                    assert(before.contains(other) <==> keys.take(i as int).contains(other) && other
                        != self@.sources.primary);
                }
            }
            i = i + 1;
        }
        proof {
            assert(keys.take(i as int) =~= keys);
            let listed = views(ids@);
            assert forall|id: Seq<char>| #[trigger]
                listed.contains(id) <==> self@.workspaces.dom().contains(id) && id
                    != self@.sources.primary by {
                assert(self.workspaces@.dom().contains(id) <==> keys.contains(id));
            }
        }
        sort_ranked(ids)
    }

    /// Takes in what was found where a workspace is declared. A workspace that cannot be
    /// taken in is remembered where failures are to be retained, and ends the discovery
    /// otherwise.
    pub fn take_in(
        &mut self,
        primary_root: &LogicalPath,
        declaration: &WorkspaceDeclaration,
        found: FoundWorkspace,
        retain: bool,
    ) -> (done: Result<(), DiscoveryError>)
        requires
            discovery_valid(old(self)@),
        ensures
            (final(self)@, told_discovery(done)) == discovered(
                old(self)@,
                primary_root@,
                declaration@,
                found@,
                retain,
            ),
            discovery_valid(final(self)@),
    {
        let alias = match SourceAlias::new(declaration.alias.as_str()) {
            Ok(alias) => alias,
            Err(error) => {
                return Err(DiscoveryError::InvalidId { text: error.id });
            },
        };
        let root = workspace_root(primary_root, declaration.path.as_str());
        match found {
            FoundWorkspace::Unresolved => {
                let error = DiscoveryError::Unresolved {
                    alias: alias.copy_key(),
                    root: root.clone(),
                };
                self.remember(retain, alias, root, "resolve-path", error)
            },
            FoundWorkspace::Unloaded => {
                let error = DiscoveryError::Unloaded {
                    alias: alias.copy_key(),
                    root: root.clone(),
                };
                self.remember(retain, alias, root, "workspace-config", error)
            },
            FoundWorkspace::Loaded { physical_root, id } => {
                let text = match id {
                    Some(text) => text,
                    None => {
                        let error = DiscoveryError::IdRequired {
                            alias: alias.copy_key(),
                            root: root.clone(),
                        };
                        return self.remember(retain, alias, root, "workspace-identity", error);
                    },
                };
                let id = match SourceRootId::new(text.as_str()) {
                    Ok(id) => id,
                    Err(error) => {
                        return Err(DiscoveryError::InvalidId { text: error.id });
                    },
                };
                if let Some(expected) = &declaration.id {
                    let expected = match SourceRootId::new(expected.as_str()) {
                        Ok(expected) => expected,
                        Err(error) => {
                            return Err(DiscoveryError::InvalidId { text: error.id });
                        },
                    };
                    if !expected.same_key(&id) {
                        let error = DiscoveryError::IdMismatch {
                            actual: id,
                            alias: alias.copy_key(),
                            expected,
                            root: root.clone(),
                        };
                        return self.remember(retain, alias, root, "workspace-identity", error);
                    }
                }
                self.identify(alias, root, physical_root, id, retain)
            },
        }
    }

    /// Takes in what was found where each of several workspaces is declared, one after the
    /// other.
    pub fn take_in_all(
        &mut self,
        primary_root: &LogicalPath,
        declarations: &Vec<WorkspaceDeclaration>,
        found: Vec<FoundWorkspace>,
        retain: bool,
    ) -> (done: Result<(), DiscoveryError>)
        requires
            discovery_valid(old(self)@),
            declarations@.len() == found@.len(),
        ensures
            (final(self)@, told_discovery(done)) == discovered_all(
                old(self)@,
                primary_root@,
                views(declarations@),
                views(found@),
                retain,
            ),
            discovery_valid(final(self)@),
    {
        let ghost start = self@;
        let ghost declared = views(declarations@);
        let ghost all = views(found@);
        let n: usize = declarations.len();
        let mut i: usize = 0;
        proof {
            assert(declared.take(0) =~= Seq::empty());
        }
        for one in it: found
            invariant
                it.seq() == found@,
                i == it.index(),
                n == declarations@.len(),
                n == found@.len(),
                start == old(self)@,
                declared == views(declarations@),
                all == views(found@),
                discovery_valid(self@),
                discovered_all(
                    start,
                    primary_root@,
                    declared.take(i as int),
                    all.take(i as int),
                    retain,
                ) == (self@, Ok::<(), DiscoveryFault>(())),
        {
            proof {
                assert(all[i as int] == one@);
                assert(declared.take(i + 1).drop_last() =~= declared.take(i as int));
                assert(all.take(i + 1).drop_last() =~= all.take(i as int));
                assert(declared.take(i + 1).last() == declarations@[i as int]@);
                assert(all.take(i + 1).last() == one@);
            }
            if let Err(error) = self.take_in(primary_root, &declarations[i], one, retain) {
                proof {
                    discovered_all_stops(start, primary_root@, declared, all, retain, i + 1);
                }
                return Err(error);
            }
            i = i + 1;
        }
        proof {
            assert(declared.take(i as int) =~= declared);
            assert(all.take(i as int) =~= all);
        }
        Ok(())
    }
}

/// A workspace that is declared under two names is found once.
pub proof fn aliases_share_a_workspace(
    discovery: DiscoveryView,
    first: Seq<char>,
    second: Seq<char>,
    root: Seq<Seq<char>>,
    other_root: Seq<Seq<char>>,
    physical_root: Seq<Seq<char>>,
    id: Seq<char>,
    retain: bool,
)
    requires
        identified(discovery, first, root, physical_root, id, false).1 is Ok,
    ensures
        ({
            let once = identified(discovery, first, root, physical_root, id, retain).0;
            let (twice, done) = identified(once, second, other_root, physical_root, id, retain);
            done is Ok && twice == (DiscoveryView {
                aliases: once.aliases.insert(second, id),
                ..once
            })
        }),
{
}

} // verus!
