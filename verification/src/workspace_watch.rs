//! What a change of a file means for a running session.

use crate::order::{view_of, views};
use crate::path::{relative_components, RelativePath};
use crate::source::SourceRootId;
use crate::table::Key;
use crate::text::{join_all, join_texts, same_text};
use crate::watch::{is_directory_mutation, is_mutation, is_root_gone, EventKind, FileEvent};
use vstd::prelude::*;

verus! {

broadcast use crate::order::group_views;

/// Whether a pattern of the `regex` crate matches somewhere in a text, where it is a
/// pattern at all.
pub uninterp spec fn pattern_matches(pattern: Seq<char>, text: Seq<char>) -> Option<bool>;

/// What the group with a name took in where a pattern of the `regex` crate first matches in
/// a text.
pub uninterp spec fn pattern_capture(
    pattern: Seq<char>,
    text: Seq<char>,
    name: Seq<char>,
) -> Option<Seq<char>>;

/// `regex::Regex::is_match` says whether a pattern matches somewhere in a text. A pattern
/// that `regex::Regex::new` refuses gives nothing.
#[verifier::external_body]
fn matches_pattern(pattern: &str, text: &str) -> (found: Option<bool>)
    ensures
        found == pattern_matches(pattern@, text@),
{
    regex::Regex::new(pattern).ok().map(|regex| regex.is_match(text))
}

/// `regex::Captures::name` gives what a group took in where `regex::Regex::captures` found
/// the first match. A group that took no part gives nothing.
#[verifier::external_body]
fn capture_of_pattern(pattern: &str, text: &str, name: &str) -> (captured: Option<String>)
    ensures
        view_of(captured) == pattern_capture(pattern@, text@, name@),
{
    let regex = regex::Regex::new(pattern).ok()?;
    let captures = regex.captures(text)?;
    captures.name(name).map(|group| group.as_str().to_owned())
}

/// `starbase_utils::glob::GlobSet::matches` says whether patterns select a path. What they
/// select depends on patterns that the process excludes everywhere, and is left unsaid.
/// Patterns that `starbase_utils::glob::GlobSet::new` refuses give nothing.
#[verifier::external_body]
fn globs_match(globs: &Vec<String>, path: &str) -> (found: Option<bool>)
{
    starbase_utils::glob::GlobSet::new(globs).ok().map(|set| set.matches(path))
}

/// The patterns of configuration files.
pub struct PatternsView {
    pub project: Seq<char>,
    pub tasks: Seq<char>,
    pub workspace: Seq<char>,
}

/// The patterns of configuration files: of projects, of tasks, and of the workspace.
#[derive(Debug)]
pub struct ConfigPatterns {
    pub project: String,
    pub tasks: String,
    pub workspace: String,
}

impl View for ConfigPatterns {
    type V = PatternsView;

    open spec fn view(&self) -> PatternsView {
        PatternsView { project: self.project@, tasks: self.tasks@, workspace: self.workspace@ }
    }
}

/// The patterns of configuration files with some extensions.
pub open spec fn config_patterns(extensions: Seq<Seq<char>>) -> PatternsView {
    let group = "("@ + join_texts(extensions, "|"@) + ")"@;
    PatternsView {
        project: "(^|/)moon\\."@ + group + "$"@,
        tasks: "^(\\.moon|\\.config/moon)/.*\\."@ + group + "$"@,
        workspace: "^(\\.moon|\\.config/moon)/(?<name>\\w+)\\."@ + group + "$"@,
    }
}

fn enclosed(front: &str, middle: &str, back: &str) -> (text: String)
    ensures
        text@ == front@ + middle@ + back@,
{
    let mut text = front.to_owned();
    text.append(middle);
    text.append(back);
    text
}

/// All of them are patterns.
pub open spec fn are_patterns(patterns: PatternsView) -> bool {
    &&& pattern_matches(patterns.project, ""@) is Some
    &&& pattern_matches(patterns.tasks, ""@) is Some
    &&& pattern_matches(patterns.workspace, ""@) is Some
}

impl ConfigPatterns {
    /// The patterns of configuration files with some extensions. Extensions may be such that
    /// they make no patterns.
    pub fn new(extensions: &Vec<String>) -> (patterns: Option<Self>)
        ensures
            view_of(patterns) == if are_patterns(config_patterns(views(extensions@))) {
                Some(config_patterns(views(extensions@)))
            } else {
                None
            },
    {
        assert(extensions@.map_values(|p: String| p@) =~= views(extensions@));
        let group = enclosed("(", join_all(extensions, "|").as_str(), ")");
        let project = enclosed("(^|/)moon\\.", group.as_str(), "$");
        let tasks = enclosed("^(\\.moon|\\.config/moon)/.*\\.", group.as_str(), "$");
        let workspace = enclosed(
            "^(\\.moon|\\.config/moon)/(?<name>\\w+)\\.",
            group.as_str(),
            "$",
        );
        if matches_pattern(project.as_str(), "").is_none() || matches_pattern(
            tasks.as_str(),
            "",
        ).is_none() || matches_pattern(workspace.as_str(), "").is_none() {
            return None;
        }
        Some(ConfigPatterns { project, tasks, workspace })
    }
}

/// What a path is.
pub struct FactsView {
    pub prototools: bool,
    pub workspace_config: bool,
    pub config_name: Option<Seq<char>>,
    pub tasks_config: bool,
    pub project_config: bool,
}

/// What a path is: the configuration of proto, of the workspace, of tasks, or of a project.
#[derive(Debug)]
pub struct PathFacts {
    pub prototools: bool,
    pub workspace_config: bool,
    /// Which configuration of the workspace it is.
    pub config_name: Option<String>,
    pub tasks_config: bool,
    pub project_config: bool,
}

impl View for PathFacts {
    type V = FactsView;

    open spec fn view(&self) -> FactsView {
        FactsView {
            prototools: self.prototools,
            workspace_config: self.workspace_config,
            config_name: view_of(self.config_name),
            tasks_config: self.tasks_config,
            project_config: self.project_config,
        }
    }
}

/// The last part of a path is a name.
pub open spec fn ends_in(path: Seq<char>, name: Seq<char>) -> bool {
    relative_components(path).len() > 0 && relative_components(path).last() == name
}

/// What a path is, by the patterns of configuration files.
pub open spec fn path_facts(patterns: PatternsView, path: Seq<char>) -> FactsView {
    FactsView {
        prototools: ends_in(path, ".prototools"@),
        workspace_config: pattern_matches(patterns.workspace, path) == Some(true),
        config_name: pattern_capture(patterns.workspace, path, "name"@),
        tasks_config: pattern_matches(patterns.tasks, path) == Some(true),
        project_config: pattern_matches(patterns.project, path) == Some(true),
    }
}

fn is_true(found: Option<bool>) -> (r: bool)
    ensures
        r == (found == Some(true)),
{
    match found {
        Some(found) => found,
        None => false,
    }
}

/// What a path is, by the patterns of configuration files.
pub fn classify_path(patterns: &ConfigPatterns, path: &str) -> (facts: PathFacts)
    ensures
        facts@ == path_facts(patterns@, path@),
{
    let prototools = RelativePath::parse(path).ends_in(".prototools");
    PathFacts {
        prototools,
        workspace_config: is_true(matches_pattern(patterns.workspace.as_str(), path)),
        config_name: capture_of_pattern(patterns.workspace.as_str(), path, "name"),
        tasks_config: is_true(matches_pattern(patterns.tasks.as_str(), path)),
        project_config: is_true(matches_pattern(patterns.project.as_str(), path)),
    }
}

/// Two paths have the same parts.
pub open spec fn same_path(a: Seq<char>, b: Seq<char>) -> bool {
    relative_components(a) == relative_components(b)
}

/// A directory is the root of a project: one that is listed, or else one that the patterns
/// select, where there are patterns.
pub open spec fn is_listed(path: Seq<char>, sources: Seq<Seq<char>>) -> bool {
    exists|i: int| 0 <= i < sources.len() && same_path(path, #[trigger] sources[i])
}

/// Whether a directory is the root of a project, given what the patterns select. Patterns
/// that cannot be read are an error.
pub fn decide_project_root(path: &str, sources: &Vec<String>, selected: Option<bool>) -> (r: Option<
    bool,
>)
    ensures
        r == if is_listed(path@, views(sources@)) {
            Some(true)
        } else {
            selected
        },
{
    let parsed = RelativePath::parse(path);
    let ghost all = views(sources@);
    let mut i: usize = 0;
    while i < sources.len()
        invariant
            i <= sources@.len(),
            all == views(sources@),
            parsed@ == relative_components(path@),
            forall|j: int| 0 <= j < i ==> !same_path(path@, #[trigger] all[j]),
        decreases sources.len() - i,
    {
        assert(all[i as int] == sources@[i as int]@);
        if parsed.same_as(&RelativePath::parse(sources[i].as_str())) {
            return Some(true);
        }
        i = i + 1;
    }
    selected
}

/// Whether a directory is the root of a project. Patterns that cannot be read are an error.
pub fn is_a_project_root(path: &str, sources: &Vec<String>, globs: &Vec<String>) -> (r: Option<bool>)
    ensures
        is_listed(path@, views(sources@)) ==> r == Some(true),
        !is_listed(path@, views(sources@)) && globs@.len() == 0 ==> r == Some(false),
{
    let selected = if globs.len() > 0 {
        globs_match(globs, path)
    } else {
        Some(false)
    };
    decide_project_root(path, sources, selected)
}

/// What a change of a file asks for.
#[derive(Clone, Copy, PartialEq, Eq, Structural, Debug)]
pub enum WatchAction {
    /// Nothing.
    Ignore,
    /// End the session: the source roots are others now.
    Retire,
    /// Load the environment of proto again.
    ResetProto,
    /// Load the configuration of extensions again.
    ResetExtensions,
    /// Load the configuration of toolchains again.
    ResetToolchains,
    /// Load the configuration of the workspace again.
    ResetWorkspace,
    /// Load the configuration of inherited tasks again.
    ResetTasks,
    /// Build the graphs again.
    ResetProjects,
    /// Load a source root besides the primary one again.
    ReloadChild,
}

/// What a change of a configuration of the workspace asks for.
pub open spec fn config_action(name: Option<Seq<char>>) -> WatchAction {
    match name {
        Some(name) => if name == "extensions"@ {
            WatchAction::ResetExtensions
        } else if name == "toolchains"@ {
            WatchAction::ResetToolchains
        } else if name == "workspace"@ {
            WatchAction::ResetWorkspace
        } else {
            WatchAction::Ignore
        },
        None => WatchAction::Ignore,
    }
}

/// What a change of a file asks for. A source root that is gone ends the session, and so
/// does a change in one that the session does not know.
pub open spec fn event_action(
    path: Seq<char>,
    kind: EventKind,
    in_primary: bool,
    source_known: bool,
    facts: FactsView,
    project_root: bool,
) -> WatchAction {
    let project_change = facts.project_config || (is_directory_mutation(kind) && project_root);
    if is_root_gone(path, kind) {
        WatchAction::Retire
    } else if !is_mutation(kind) {
        WatchAction::Ignore
    } else if !in_primary {
        if !source_known {
            WatchAction::Retire
        } else if facts.prototools || facts.workspace_config || facts.tasks_config
            || project_change {
            WatchAction::ReloadChild
        } else {
            WatchAction::Ignore
        }
    } else if facts.prototools {
        WatchAction::ResetProto
    } else if facts.workspace_config {
        config_action(facts.config_name)
    } else if facts.tasks_config {
        WatchAction::ResetTasks
    } else if project_change {
        WatchAction::ResetProjects
    } else {
        WatchAction::Ignore
    }
}

/// What a change of a file asks for.
pub fn decide_event(
    event: &FileEvent,
    primary: &SourceRootId,
    source_known: bool,
    facts: &PathFacts,
    project_root: bool,
) -> (action: WatchAction)
    ensures
        action == event_action(
            event.path@,
            event.kind,
            event.source_id@ == primary@,
            source_known,
            facts@,
            project_root,
        ),
{
    if should_retire_for_event(event) {
        return WatchAction::Retire;
    }
    if !event.is_mutated() {
        return WatchAction::Ignore;
    }
    let project_change = facts.project_config || (event.is_mutated_directory() && project_root);
    if !event.source_id.same_key(primary) {
        return if !source_known {
            WatchAction::Retire
        } else if facts.prototools || facts.workspace_config || facts.tasks_config
            || project_change {
            WatchAction::ReloadChild
        } else {
            WatchAction::Ignore
        };
    }
    if facts.prototools {
        return WatchAction::ResetProto;
    }
    if facts.workspace_config {
        return match &facts.config_name {
            Some(name) => if same_text(name.as_str(), "extensions") {
                WatchAction::ResetExtensions
            } else if same_text(name.as_str(), "toolchains") {
                WatchAction::ResetToolchains
            } else if same_text(name.as_str(), "workspace") {
                WatchAction::ResetWorkspace
            } else {
                WatchAction::Ignore
            },
            None => WatchAction::Ignore,
        };
    }
    if facts.tasks_config {
        return WatchAction::ResetTasks;
    }
    if project_change {
        return WatchAction::ResetProjects;
    }
    WatchAction::Ignore
}

/// Whether what a change of a file asks for depends on whether its path is the root of a
/// project.
pub fn needs_project_root(
    event: &FileEvent,
    primary: &SourceRootId,
    source_known: bool,
    facts: &PathFacts,
) -> (needed: bool)
    ensures
        needed == (event_action(
            event.path@,
            event.kind,
            event.source_id@ == primary@,
            source_known,
            facts@,
            true,
        ) != event_action(
            event.path@,
            event.kind,
            event.source_id@ == primary@,
            source_known,
            facts@,
            false,
        )),
{
    if should_retire_for_event(event) || !event.is_mutated() || !event.is_mutated_directory() {
        return false;
    }
    if !event.source_id.same_key(primary) && !source_known {
        return false;
    }
    !facts.prototools && !facts.workspace_config && !facts.tasks_config && !facts.project_config
}

/// Whether an event ends the session.
pub fn should_retire_for_event(event: &FileEvent) -> (r: bool)
    ensures
        r == is_root_gone(event.path@, event.kind),
{
    event.is_source_root_removed_or_renamed()
}

/// What is built again.
#[derive(Clone, Copy, PartialEq, Eq, Structural, Debug)]
pub enum Rebuild {
    /// The services of the source roots.
    Context,
    /// The graphs of projects and tasks.
    Graphs,
}

/// What changed in the configuration of a workspace.
#[derive(Clone, Copy, PartialEq, Eq, Structural, Debug)]
pub struct WorkspaceChange {
    pub id: bool,
    pub workspaces: bool,
    pub vcs: bool,
    pub projects: bool,
    pub default_project: bool,
    /// Whether the daemon is still wanted.
    pub daemon: bool,
}

/// What a new configuration of a workspace asks for.
#[derive(Clone, Copy, PartialEq, Eq, Structural, Debug)]
pub enum WorkspaceReset {
    /// End the session: the source roots are others now.
    Retire,
    /// Take in the configuration.
    Apply { reset_vcs: bool, reset_components: bool, stop_daemon: bool, rebuild: Rebuild },
}

/// What a new configuration of a workspace asks for.
pub open spec fn workspace_reset(change: WorkspaceChange) -> WorkspaceReset {
    if change.id || change.workspaces {
        WorkspaceReset::Retire
    } else {
        let rebuild = change.projects || change.default_project;
        WorkspaceReset::Apply {
            reset_vcs: change.vcs,
            reset_components: rebuild,
            stop_daemon: !change.daemon,
            rebuild: if rebuild {
                Rebuild::Graphs
            } else {
                Rebuild::Context
            },
        }
    }
}

/// What a new configuration of a workspace asks for.
pub fn plan_workspace_reset(change: WorkspaceChange) -> (reset: WorkspaceReset)
    ensures
        reset == workspace_reset(change),
{
    if change.id || change.workspaces {
        return WorkspaceReset::Retire;
    }
    let rebuild = change.projects || change.default_project;
    WorkspaceReset::Apply {
        reset_vcs: change.vcs,
        reset_components: rebuild,
        stop_daemon: !change.daemon,
        rebuild: if rebuild {
            Rebuild::Graphs
        } else {
            Rebuild::Context
        },
    }
}

/// What new inherited tasks ask for: the graphs where what is inherited changed.
pub fn plan_tasks_reset(invalidate: bool) -> (rebuild: Rebuild)
    ensures
        rebuild == if invalidate {
            Rebuild::Graphs
        } else {
            Rebuild::Context
        },
{
    if invalidate {
        Rebuild::Graphs
    } else {
        Rebuild::Context
    }
}

/// Whether a source root is still the one that it was: it declares the same identifier.
pub fn same_identity(declared: Option<&str>, source: &SourceRootId) -> (same: bool)
    ensures
        same == (declared is Some && declared->0@ == source@),
{
    match declared {
        Some(id) => same_text(id, source.as_str()),
        None => false,
    }
}

/// Which build is the latest. Each build that is started makes all earlier ones obsolete.
#[derive(Debug)]
pub struct RebuildGeneration {
    pub latest: u64,
}

impl RebuildGeneration {
    /// Starts a build; gives its number.
    pub fn start(&mut self) -> (generation: u64)
        ensures
            generation == final(self).latest,
            final(self).latest == old(self).latest.wrapping_add(1),
    {
        self.latest = self.latest.wrapping_add(1);
        self.latest
    }

    /// Whether what a build made may be published.
    pub fn is_latest(&self, generation: u64) -> (r: bool)
        ensures
            r == (generation == self.latest),
    {
        generation == self.latest
    }
}

/// A build that was started before another is not the latest, so what it made is not
/// published.
pub proof fn older_builds_are_stale(generation: u64)
    ensures
        generation != generation.wrapping_add(1),
        generation != generation.wrapping_add(1).wrapping_add(1),
{
}

} // verus!
