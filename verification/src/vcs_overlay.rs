//! A version control overlay over Git: what it shows, and what is asked of whom.

use crate::changed_files::ChangedStatus;
use crate::order::{view_of, views};
use crate::table::{value_views, Table};
use crate::text::same_text;
use crate::vcs::{
    summarize, summary, ChangedFileView, QueryView, RevisionView, VcsChangeQuery, VcsChangedFile,
    VcsConsistency, VcsRevision,
};
use vstd::prelude::*;

verus! {

broadcast use crate::order::group_views;

/// The state of version control.
pub struct AdapterStateView {
    pub adapter: Seq<char>,
    pub current_label: Seq<char>,
    pub current_revision: Seq<char>,
    pub default_label: Seq<char>,
    pub default_revision: Seq<char>,
    pub is_default: bool,
    pub repository_root: Seq<char>,
    pub working_root: Seq<char>,
}

/// The state of version control.
#[derive(Debug)]
pub struct AdapterState {
    pub adapter: String,
    pub current_label: String,
    pub current_revision: String,
    pub default_label: String,
    pub default_revision: String,
    pub is_default: bool,
    pub repository_root: String,
    pub working_root: String,
}

impl View for AdapterState {
    type V = AdapterStateView;

    open spec fn view(&self) -> AdapterStateView {
        AdapterStateView {
            adapter: self.adapter@,
            current_label: self.current_label@,
            current_revision: self.current_revision@,
            default_label: self.default_label@,
            default_revision: self.default_revision@,
            is_default: self.is_default,
            repository_root: self.repository_root@,
            working_root: self.working_root@,
        }
    }
}

/// What an overlay knows of the state; what is missing is left to Git.
pub struct StatePatchView {
    pub adapter: Option<Seq<char>>,
    pub current_label: Option<Seq<char>>,
    pub current_revision: Option<Seq<char>>,
    pub is_default: Option<bool>,
    pub repository_root: Option<Seq<char>>,
    pub working_root: Option<Seq<char>>,
}

/// What an overlay knows of the state; what is missing is left to Git.
#[derive(Debug)]
pub struct VcsStatePatch {
    pub adapter: Option<String>,
    pub current_label: Option<String>,
    pub current_revision: Option<String>,
    pub is_default: Option<bool>,
    pub repository_root: Option<String>,
    pub working_root: Option<String>,
}

impl View for VcsStatePatch {
    type V = StatePatchView;

    open spec fn view(&self) -> StatePatchView {
        StatePatchView {
            adapter: view_of(self.adapter),
            current_label: view_of(self.current_label),
            current_revision: view_of(self.current_revision),
            is_default: self.is_default,
            repository_root: view_of(self.repository_root),
            working_root: view_of(self.working_root),
        }
    }
}

/// A fact of the overlay, or that of Git.
pub open spec fn prefer<A>(overlay: Option<A>, base: A) -> A {
    match overlay {
        Some(value) => value,
        None => base,
    }
}

/// The state with what an overlay knows put over it.
pub open spec fn composed_state(
    base: AdapterStateView,
    overlay: Option<StatePatchView>,
) -> AdapterStateView {
    match overlay {
        None => base,
        Some(patch) => AdapterStateView {
            adapter: prefer(patch.adapter, base.adapter),
            current_label: prefer(patch.current_label, base.current_label),
            current_revision: prefer(patch.current_revision, base.current_revision),
            default_label: base.default_label,
            default_revision: base.default_revision,
            is_default: prefer(patch.is_default, base.is_default),
            repository_root: prefer(patch.repository_root, base.repository_root),
            working_root: prefer(patch.working_root, base.working_root),
        },
    }
}

/// A text of the overlay, or that of Git.
fn prefer_text(overlay: &Option<String>, base: &String) -> (text: String)
    ensures
        text@ == prefer(view_of(*overlay), base@),
{
    match overlay {
        Some(text) => text.clone(),
        None => base.clone(),
    }
}

/// A copy of a state.
pub fn copy_state(state: &AdapterState) -> (copy: AdapterState)
    ensures
        copy@ == state@,
{
    AdapterState {
        adapter: state.adapter.clone(),
        current_label: state.current_label.clone(),
        current_revision: state.current_revision.clone(),
        default_label: state.default_label.clone(),
        default_revision: state.default_revision.clone(),
        is_default: state.is_default,
        repository_root: state.repository_root.clone(),
        working_root: state.working_root.clone(),
    }
}

/// The state with what an overlay knows put over it.
pub fn compose_state(base: &AdapterState, overlay: Option<&VcsStatePatch>) -> (state: AdapterState)
    ensures
        state@ == composed_state(base@, view_of(overlay)),
{
    match overlay {
        None => copy_state(base),
        Some(patch) => AdapterState {
            adapter: prefer_text(&patch.adapter, &base.adapter),
            current_label: prefer_text(&patch.current_label, &base.current_label),
            current_revision: prefer_text(&patch.current_revision, &base.current_revision),
            default_label: base.default_label.clone(),
            default_revision: base.default_revision.clone(),
            is_default: match patch.is_default {
                Some(is_default) => is_default,
                None => base.is_default,
            },
            repository_root: prefer_text(&patch.repository_root, &base.repository_root),
            working_root: prefer_text(&patch.working_root, &base.working_root),
        },
    }
}

/// The changes that Git reports, file by file.
pub open spec fn listed_changes(
    paths: Seq<Seq<char>>,
    files: Map<Seq<char>, Seq<ChangedStatus>>,
) -> Seq<ChangedFileView> {
    paths.map_values(
        |path: Seq<char>| ChangedFileView { path, status: summary(files[path], false) },
    )
}

/// The changes that Git reports, file by file.
pub fn list_git_changes(files: &Table<String, Vec<ChangedStatus>>) -> (changes: Vec<VcsChangedFile>)
    ensures
        views(changes@) == listed_changes(files.keys(), value_views(files@)),
{
    let mut changes: Vec<VcsChangedFile> = Vec::new();
    let mut i: usize = 0;
    let count = files.len();
    while i < count
        invariant
            i <= count,
            count == files.keys().len(),
            views(changes@) =~= listed_changes(files.keys(), value_views(files@)).take(i as int),
        decreases count - i,
    {
        changes.push(
            VcsChangedFile {
                path: files.key_at(i).clone(),
                status: summarize(files.value_at(i), false),
            },
        );
        i = i + 1;
    }
    assert(listed_changes(files.keys(), value_views(files@)).take(i as int) =~= listed_changes(
        files.keys(),
        value_views(files@),
    ));
    changes
}

/// What a user asks of the screen.
#[derive(Clone, Copy, PartialEq, Eq, Structural, Debug)]
pub enum ScreenCommand {
    Detect,
    ToggleFallback,
    Prepare(VcsConsistency),
    LoadState,
    WorkingChanges,
    PreviousChanges,
    BaseChanges,
    Quit,
    Unknown,
}

/// What a line asks of the screen.
pub open spec fn command_of(line: Seq<char>) -> ScreenCommand {
    if line == "d"@ {
        ScreenCommand::Detect
    } else if line == "f"@ {
        ScreenCommand::ToggleFallback
    } else if line == "e"@ {
        ScreenCommand::Prepare(VcsConsistency::ExistingSnapshot)
    } else if line == "n"@ {
        ScreenCommand::Prepare(VcsConsistency::FreshSnapshot)
    } else if line == "s"@ {
        ScreenCommand::LoadState
    } else if line == "w"@ {
        ScreenCommand::WorkingChanges
    } else if line == "p"@ {
        ScreenCommand::PreviousChanges
    } else if line == "b"@ {
        ScreenCommand::BaseChanges
    } else if line == "q"@ {
        ScreenCommand::Quit
    } else {
        ScreenCommand::Unknown
    }
}

/// What a line asks of the screen.
pub fn parse_command(line: &str) -> (command: ScreenCommand)
    ensures
        command == command_of(line@),
{
    if same_text(line, "d") {
        ScreenCommand::Detect
    } else if same_text(line, "f") {
        ScreenCommand::ToggleFallback
    } else if same_text(line, "e") {
        ScreenCommand::Prepare(VcsConsistency::ExistingSnapshot)
    } else if same_text(line, "n") {
        ScreenCommand::Prepare(VcsConsistency::FreshSnapshot)
    } else if same_text(line, "s") {
        ScreenCommand::LoadState
    } else if same_text(line, "w") {
        ScreenCommand::WorkingChanges
    } else if same_text(line, "p") {
        ScreenCommand::PreviousChanges
    } else if same_text(line, "b") {
        ScreenCommand::BaseChanges
    } else if same_text(line, "q") {
        ScreenCommand::Quit
    } else {
        ScreenCommand::Unknown
    }
}

/// What the screen shows.
pub struct ScreenView {
    pub detected: bool,
    pub forced_fallback: bool,
    pub prepared: Option<Seq<char>>,
    pub prepared_consistency: Option<VcsConsistency>,
    pub base: AdapterStateView,
    pub overlay: Option<StatePatchView>,
    pub effective: AdapterStateView,
    pub last_query: Option<QueryView>,
    pub change_source: Option<Seq<char>>,
    pub changed_files: Seq<ChangedFileView>,
}

/// What the screen shows: whether the overlay was found, the snapshot that is pinned, the state
/// of Git with the overlay over it, and the changes that were asked for last.
#[derive(Debug)]
pub struct ScreenState {
    pub detected: bool,
    pub forced_fallback: bool,
    pub prepared: Option<String>,
    pub prepared_consistency: Option<VcsConsistency>,
    pub base: AdapterState,
    pub overlay: Option<VcsStatePatch>,
    pub effective: AdapterState,
    pub last_query: Option<VcsChangeQuery>,
    pub change_source: Option<String>,
    pub changed_files: Vec<VcsChangedFile>,
}

impl View for ScreenState {
    type V = ScreenView;

    open spec fn view(&self) -> ScreenView {
        ScreenView {
            detected: self.detected,
            forced_fallback: self.forced_fallback,
            prepared: view_of(self.prepared),
            prepared_consistency: self.prepared_consistency,
            base: self.base@,
            overlay: view_of(self.overlay),
            effective: self.effective@,
            last_query: view_of(self.last_query),
            change_source: view_of(self.change_source),
            changed_files: views(self.changed_files@),
        }
    }
}

/// Whether the overlay is asked.
pub open spec fn overlay_active(screen: ScreenView) -> bool {
    screen.detected && !screen.forced_fallback
}

/// What the screen shows is the state of Git, with the overlay over it where it is asked.
pub open spec fn screen_consistent(screen: ScreenView) -> bool {
    &&& screen.overlay is Some ==> screen.detected
    &&& screen.effective == composed_state(
        screen.base,
        if overlay_active(screen) {
            screen.overlay
        } else {
            None
        },
    )
}

/// What has to be done for a command.
pub enum RequestView {
    Nothing,
    Detect,
    Prepare(VcsConsistency),
    LoadState { snapshot: Seq<char> },
    PluginChanges { query: QueryView, snapshot: Seq<char> },
    GitChanges { query: QueryView },
    Quit,
}

/// What has to be done for a command.
#[derive(Debug)]
pub enum ScreenRequest {
    Nothing,
    Detect,
    Prepare(VcsConsistency),
    LoadState { snapshot: String },
    PluginChanges { query: VcsChangeQuery, snapshot: String },
    GitChanges { query: VcsChangeQuery },
    Quit,
}

impl View for ScreenRequest {
    type V = RequestView;

    open spec fn view(&self) -> RequestView {
        match self {
            ScreenRequest::Nothing => RequestView::Nothing,
            ScreenRequest::Detect => RequestView::Detect,
            ScreenRequest::Prepare(consistency) => RequestView::Prepare(*consistency),
            ScreenRequest::LoadState { snapshot } => RequestView::LoadState {
                snapshot: snapshot@,
            },
            ScreenRequest::PluginChanges { query, snapshot } => RequestView::PluginChanges {
                query: query@,
                snapshot: snapshot@,
            },
            ScreenRequest::GitChanges { query } => RequestView::GitChanges { query: query@ },
            ScreenRequest::Quit => RequestView::Quit,
        }
    }
}

/// The query of a command that asks for changes.
pub open spec fn query_of(command: ScreenCommand) -> QueryView {
    match command {
        ScreenCommand::PreviousChanges => QueryView::Previous { revision: RevisionView::Current },
        ScreenCommand::BaseChanges => QueryView::Between {
            base: RevisionView::Default,
            head: RevisionView::Current,
        },
        _ => QueryView::WorkingCopy,
    }
}

/// Whom a query goes to: the overlay where it is asked and pinned, and else Git.
pub open spec fn changes_request(screen: ScreenView, query: QueryView) -> RequestView {
    if overlay_active(screen) && screen.prepared is Some {
        RequestView::PluginChanges { query, snapshot: screen.prepared->0 }
    } else {
        RequestView::GitChanges { query }
    }
}

/// What has to be done for a command before the screen can change.
pub open spec fn request_of(screen: ScreenView, command: ScreenCommand) -> RequestView {
    match command {
        ScreenCommand::Detect => RequestView::Detect,
        ScreenCommand::ToggleFallback => RequestView::Nothing,
        ScreenCommand::Prepare(consistency) => if overlay_active(screen) {
            RequestView::Prepare(consistency)
        } else {
            RequestView::Nothing
        },
        ScreenCommand::LoadState => if overlay_active(screen) && screen.prepared is Some {
            RequestView::LoadState { snapshot: screen.prepared->0 }
        } else {
            RequestView::Nothing
        },
        ScreenCommand::WorkingChanges | ScreenCommand::PreviousChanges
        | ScreenCommand::BaseChanges => changes_request(screen, query_of(command)),
        ScreenCommand::Quit => RequestView::Quit,
        ScreenCommand::Unknown => RequestView::Nothing,
    }
}

impl ScreenState {
    /// The screen at the start: with the overlay pinned where it was found.
    pub fn new(base: AdapterState, prepared: Option<String>, detected: bool) -> (screen: Self)
        ensures
            screen@ == (ScreenView {
                detected,
                forced_fallback: false,
                prepared: if detected {
                    view_of(prepared)
                } else {
                    None
                },
                prepared_consistency: if detected {
                    Some(VcsConsistency::ExistingSnapshot)
                } else {
                    None
                },
                base: base@,
                overlay: None,
                effective: base@,
                last_query: None,
                change_source: None,
                changed_files: Seq::empty(),
            }),
            screen_consistent(screen@),
    {
        let effective = copy_state(&base);
        let screen = ScreenState {
            detected,
            forced_fallback: false,
            prepared: if detected {
                prepared
            } else {
                None
            },
            prepared_consistency: if detected {
                Some(VcsConsistency::ExistingSnapshot)
            } else {
                None
            },
            base,
            overlay: None,
            effective,
            last_query: None,
            change_source: None,
            changed_files: Vec::new(),
        };
        assert(screen@.changed_files =~= Seq::empty());
        screen
    }

    /// Whether the overlay is asked.
    pub fn active(&self) -> (active: bool)
        ensures
            active == overlay_active(self@),
    {
        self.detected && !self.forced_fallback
    }

    /// What has to be done for a command before the screen can change.
    pub fn request(&self, command: ScreenCommand) -> (request: ScreenRequest)
        ensures
            request@ == request_of(self@, command),
    {
        match command {
            ScreenCommand::Detect => ScreenRequest::Detect,
            ScreenCommand::ToggleFallback => ScreenRequest::Nothing,
            ScreenCommand::Prepare(consistency) => if self.active() {
                ScreenRequest::Prepare(consistency)
            } else {
                ScreenRequest::Nothing
            },
            ScreenCommand::LoadState => {
                if self.active() {
                    if let Some(snapshot) = &self.prepared {
                        return ScreenRequest::LoadState { snapshot: snapshot.clone() };
                    }
                }
                ScreenRequest::Nothing
            },
            ScreenCommand::WorkingChanges => self.request_changes(VcsChangeQuery::WorkingCopy),
            ScreenCommand::PreviousChanges => self.request_changes(
                VcsChangeQuery::Previous { revision: VcsRevision::Current },
            ),
            ScreenCommand::BaseChanges => self.request_changes(
                VcsChangeQuery::Between { base: VcsRevision::Default, head: VcsRevision::Current },
            ),
            ScreenCommand::Quit => ScreenRequest::Quit,
            ScreenCommand::Unknown => ScreenRequest::Nothing,
        }
    }

    /// Whom a query goes to.
    fn request_changes(&self, query: VcsChangeQuery) -> (request: ScreenRequest)
        ensures
            request@ == changes_request(self@, query@),
    {
        if self.active() {
            if let Some(snapshot) = &self.prepared {
                return ScreenRequest::PluginChanges { query, snapshot: snapshot.clone() };
            }
        }
        ScreenRequest::GitChanges { query }
    }

    /// The overlay was looked for. Where it is gone, nothing of it stays.
    pub fn detect(&mut self, detected: bool)
        requires
            screen_consistent(old(self)@),
        ensures
            final(self)@ == if detected {
                ScreenView { detected, ..old(self)@ }
            } else {
                ScreenView {
                    detected,
                    prepared: None,
                    prepared_consistency: None,
                    overlay: None,
                    effective: old(self)@.base,
                    ..old(self)@
                }
            },
            screen_consistent(final(self)@),
    {
        self.detected = detected;
        if !detected {
            self.prepared = None;
            self.prepared_consistency = None;
            self.overlay = None;
            self.effective = copy_state(&self.base);
        }
    }

    /// Turns the overlay off, or on again.
    pub fn toggle_fallback(&mut self)
        requires
            screen_consistent(old(self)@),
        ensures
            ({
                let forced_fallback = !old(self)@.forced_fallback;
                let shown = if old(self)@.detected && !forced_fallback {
                    old(self)@.overlay
                } else {
                    None
                };
                final(self)@ == (ScreenView {
                    forced_fallback,
                    effective: composed_state(old(self)@.base, shown),
                    ..old(self)@
                })
            }),
            screen_consistent(final(self)@),
    {
        self.forced_fallback = !self.forced_fallback;
        let overlay = if self.active() {
            self.overlay.as_ref()
        } else {
            None
        };
        self.effective = compose_state(&self.base, overlay);
    }

    /// A snapshot was pinned, or none where the overlay is not asked.
    pub fn prepare(&mut self, prepared: Option<String>, consistency: VcsConsistency)
        requires
            screen_consistent(old(self)@),
        ensures
            final(self)@ == (ScreenView {
                prepared: view_of(prepared),
                prepared_consistency: if prepared is Some {
                    Some(consistency)
                } else {
                    None
                },
                overlay: None,
                effective: old(self)@.base,
                changed_files: Seq::empty(),
                last_query: None,
                change_source: None,
                ..old(self)@
            }),
            screen_consistent(final(self)@),
    {
        self.prepared_consistency = if prepared.is_some() {
            Some(consistency)
        } else {
            None
        };
        self.prepared = prepared;
        self.overlay = None;
        self.effective = copy_state(&self.base);
        self.changed_files = Vec::new();
        self.last_query = None;
        self.change_source = None;
        assert(self@.changed_files =~= Seq::empty());
    }

    /// The state of the overlay was loaded, or none where it is not asked or not pinned.
    pub fn show_state(&mut self, overlay: Option<VcsStatePatch>)
        requires
            screen_consistent(old(self)@),
            overlay is Some ==> overlay_active(old(self)@),
        ensures
            final(self)@ == (ScreenView {
                overlay: view_of(overlay),
                effective: composed_state(old(self)@.base, view_of(overlay)),
                ..old(self)@
            }),
            screen_consistent(final(self)@),
    {
        self.effective = compose_state(&self.base, overlay.as_ref());
        self.overlay = overlay;
    }

    /// The changes of a query were loaded: from the overlay where it is asked and pinned, and
    /// else from Git.
    pub fn show_changes(&mut self, query: VcsChangeQuery, files: Vec<VcsChangedFile>)
        requires
            screen_consistent(old(self)@),
        ensures
            final(self)@ == (ScreenView {
                last_query: Some(query@),
                change_source: Some(
                    if overlay_active(old(self)@) && old(self)@.prepared is Some {
                        "jj WASM overlay"@
                    } else {
                        "Git fallback"@
                    },
                ),
                changed_files: views(files@),
                ..old(self)@
            }),
            screen_consistent(final(self)@),
    {
        self.change_source = if self.active() && self.prepared.is_some() {
            Some("jj WASM overlay".to_owned())
        } else {
            Some("Git fallback".to_owned())
        };
        self.changed_files = files;
        self.last_query = Some(query);
    }
}

/// Turning the overlay off and on again shows what was shown before.
pub proof fn fallback_is_undone(screen: ScreenView)
    requires
        screen_consistent(screen),
        overlay_active(screen),
    ensures
        composed_state(screen.base, screen.overlay) == screen.effective,
        composed_state(screen.base, None) == screen.base,
{
}

} // verus!
