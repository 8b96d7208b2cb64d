//! The services of every source root, as far as they could be loaded.

use crate::changed_files::{unknown_changes, ChangedFilesObservation};
use crate::changed_files_query::{
    changed_files_observation_from_stdin, stdin_observation, SourceReport, SourceReportView,
};
use crate::fold::{try_fold, try_fold_end, try_fold_fails, try_fold_step};
use crate::keyset::KeySet;
use crate::order::{
    arranged, arranged_holds, outcome, ranked_arranges, sort_ranked, total_rank, view_of, views,
    Ranked,
};
use crate::path::LogicalPath;
use crate::source::SourceRootId;
use crate::table::{value_views, Key, Table};
use crate::text::{join_two, text_less_total};
use vstd::prelude::*;

verus! {

broadcast use {crate::order::group_views, crate::table::value_views_insert};

/// What is known of a source root whose services were loaded.
pub struct SourceContextView {
    pub source_id: Seq<char>,
    pub workspace_root: Seq<Seq<char>>,
    pub store: Seq<char>,
    pub vcs_enabled: bool,
}

/// What is known of a source root whose services were loaded: its identity, where it
/// is, where its tools are stored, and whether version control is enabled.
#[derive(Debug)]
pub struct SourceContext {
    pub source_id: SourceRootId,
    pub workspace_root: LogicalPath,
    pub store: String,
    pub vcs_enabled: bool,
}

impl View for SourceContext {
    type V = SourceContextView;

    open spec fn view(&self) -> SourceContextView {
        SourceContextView {
            source_id: self.source_id@,
            workspace_root: self.workspace_root@,
            store: self.store@,
            vcs_enabled: self.vcs_enabled,
        }
    }
}

impl Clone for SourceContext {
    fn clone(&self) -> (copy: Self)
        ensures
            copy@ == self@,
    {
        SourceContext {
            source_id: self.source_id.clone(),
            workspace_root: self.workspace_root.clone(),
            store: self.store.clone(),
            vcs_enabled: self.vcs_enabled,
        }
    }
}

/// The services of a source root, or why they could not be loaded.
pub enum RuntimeView {
    Available(SourceContextView),
    Unavailable(Seq<char>),
}

/// The services of a source root, or why they could not be loaded.
#[derive(Debug)]
pub enum SourceRuntime {
    Available(SourceContext),
    Unavailable(String),
}

impl View for SourceRuntime {
    type V = RuntimeView;

    open spec fn view(&self) -> RuntimeView {
        match self {
            SourceRuntime::Available(context) => RuntimeView::Available(context@),
            SourceRuntime::Unavailable(reason) => RuntimeView::Unavailable(reason@),
        }
    }
}

/// Why a source root has no services.
pub enum RuntimeFault {
    DuplicateSource { id: Seq<char> },
    IdentityMismatch { id: Seq<char>, context_id: Seq<char> },
    UnknownSource { id: Seq<char> },
    UnavailableSource { id: Seq<char>, reason: Seq<char> },
}

/// Why a source root has no services.
#[derive(Debug)]
pub enum SourceRuntimeRegistryError {
    /// The source root was registered before.
    DuplicateSource { id: SourceRootId },
    /// The services belong to another source root.
    IdentityMismatch { id: SourceRootId, context_id: SourceRootId },
    /// The source root is not registered.
    UnknownSource { id: SourceRootId },
    /// The services could not be loaded.
    UnavailableSource { id: SourceRootId, reason: String },
}

impl View for SourceRuntimeRegistryError {
    type V = RuntimeFault;

    open spec fn view(&self) -> RuntimeFault {
        match self {
            SourceRuntimeRegistryError::DuplicateSource { id } => RuntimeFault::DuplicateSource {
                id: id@,
            },
            SourceRuntimeRegistryError::IdentityMismatch { id, context_id } =>
                RuntimeFault::IdentityMismatch { id: id@, context_id: context_id@ },
            SourceRuntimeRegistryError::UnknownSource { id } => RuntimeFault::UnknownSource {
                id: id@,
            },
            SourceRuntimeRegistryError::UnavailableSource { id, reason } =>
                RuntimeFault::UnavailableSource { id: id@, reason: reason@ },
        }
    }
}

/// The text that each fault reports to users.
pub open spec fn runtime_message(fault: RuntimeFault) -> Seq<char> {
    match fault {
        RuntimeFault::DuplicateSource { id } => "Source runtime "@ + id
            + " has already been registered."@,
        RuntimeFault::IdentityMismatch { id, context_id } => "Source runtime "@ + id
            + " contains a context for "@ + context_id + "."@,
        RuntimeFault::UnknownSource { id } => "Source runtime "@ + id + " is not registered."@,
        RuntimeFault::UnavailableSource { id, reason } => "Source runtime "@ + id
            + " is unavailable: "@ + reason,
    }
}

impl SourceRuntimeRegistryError {
    /// What the error reports to users.
    pub fn message(&self) -> (text: String)
        ensures
            text@ == runtime_message(self@),
    {
        match self {
            SourceRuntimeRegistryError::DuplicateSource { id } => join_two(
                "Source runtime ",
                id.as_str(),
                " has already been registered.",
            ),
            SourceRuntimeRegistryError::IdentityMismatch { id, context_id } => {
                let front = join_two("Source runtime ", id.as_str(), " contains a context for ");
                join_two(front.as_str(), context_id.as_str(), ".")
            },
            SourceRuntimeRegistryError::UnknownSource { id } => join_two(
                "Source runtime ",
                id.as_str(),
                " is not registered.",
            ),
            SourceRuntimeRegistryError::UnavailableSource { id, reason } => {
                let front = join_two("Source runtime ", id.as_str(), " is unavailable: ");
                let text = join_two(front.as_str(), "", reason.as_str());
                proof {
                    reveal_strlit("");
                    assert(text@ =~= front@ + reason@);
                }
                text
            },
        }
    }
}

/// One more source root. None comes twice, and services belong to their own.
pub open spec fn add_runtime() -> spec_fn(
    Map<Seq<char>, RuntimeView>,
    (Seq<char>, RuntimeView),
) -> Result<Map<Seq<char>, RuntimeView>, RuntimeFault> {
    |known: Map<Seq<char>, RuntimeView>, entry: (Seq<char>, RuntimeView)|
        if known.dom().contains(entry.0) {
            Err(RuntimeFault::DuplicateSource { id: entry.0 })
        } else {
            match entry.1 {
                RuntimeView::Available(context) => if context.source_id != entry.0 {
                    Err(
                        RuntimeFault::IdentityMismatch {
                            id: entry.0,
                            context_id: context.source_id,
                        },
                    )
                } else {
                    Ok(known.insert(entry.0, entry.1))
                },
                RuntimeView::Unavailable(_) => Ok(known.insert(entry.0, entry.1)),
            }
        }
}

/// The services that a source root has.
pub open spec fn runtime_of(known: Map<Seq<char>, RuntimeView>, id: Seq<char>) -> Result<
    SourceContextView,
    RuntimeFault,
> {
    if !known.dom().contains(id) {
        Err(RuntimeFault::UnknownSource { id })
    } else {
        match known[id] {
            RuntimeView::Available(context) => Ok(context),
            RuntimeView::Unavailable(reason) => Err(RuntimeFault::UnavailableSource { id, reason }),
        }
    }
}

/// The services of all source roots.
pub struct RuntimesView {
    pub entries: Map<Seq<char>, RuntimeView>,
    pub primary: Seq<char>,
}

/// The services of all source roots.
#[derive(Debug)]
pub struct SourceRuntimeRegistry {
    entries: Table<SourceRootId, SourceRuntime>,
    /// The identifiers of the source roots in order.
    order: Vec<SourceRootId>,
    primary_id: SourceRootId,
}

impl View for SourceRuntimeRegistry {
    type V = RuntimesView;

    closed spec fn view(&self) -> RuntimesView {
        RuntimesView { entries: value_views(self.entries@), primary: self.primary_id@ }
    }
}

/// The views of entries.
pub open spec fn entry_views(items: Seq<(SourceRootId, SourceRuntime)>) -> Seq<
    (Seq<char>, RuntimeView),
> {
    items.map_values(|item: (SourceRootId, SourceRuntime)| (item.0@, item.1@))
}

/// What registering source roots gives.
pub open spec fn registered(primary: Seq<char>, items: Seq<(Seq<char>, RuntimeView)>) -> Result<
    RuntimesView,
    RuntimeFault,
> {
    match try_fold(items, Map::empty(), add_runtime()) {
        Ok(entries) => Ok(RuntimesView { entries, primary }),
        Err(fault) => Err(fault),
    }
}

/// Any two identifiers of source roots are ordered.
proof fn source_ids_rank()
    ensures
        total_rank::<SourceRootId>(),
{
    assert forall|a: Seq<char>, b: Seq<char>| a != b implies #[trigger] SourceRootId::before(a, b)
        || SourceRootId::before(b, a) by {
        text_less_total(a, b);
    }
}

/// The identifiers of the source roots in order.
fn ordered_ids(entries: &Table<SourceRootId, SourceRuntime>) -> (ids: Vec<SourceRootId>)
    ensures
        views(ids@) == arranged::<SourceRootId>(entries@.dom()),
        entries@.dom().finite(),
{
    let n: usize = entries.len();
    let mut ids: Vec<SourceRootId> = Vec::new();
    let mut i: usize = 0;
    assert(views(ids@) =~= entries.keys().take(0));
    while i < n
        invariant
            n == entries.keys().len(),
            i <= n,
            views(ids@) == entries.keys().take(i as int),
        decreases n - i,
    {
        ids.push(entries.key_at(i).clone());
        assert(views(ids@) =~= entries.keys().take(i + 1));
        i = i + 1;
    }
    let ids = sort_ranked(ids);
    proof {
        assert(entries.keys().take(i as int) =~= entries.keys());
        source_ids_rank();
        ranked_arranges::<SourceRootId>(entries.keys());
        assert forall|id: Seq<char>| entries.keys().to_set().contains(id)
            <==> entries@.dom().contains(id) by {
            assert(entries@.dom().contains(id) <==> entries.keys().contains(id));
        }
        assert(entries.keys().to_set() =~= entries@.dom());
    }
    ids
}

impl SourceRuntimeRegistry {
    #[verifier::type_invariant]
    spec fn valid(self) -> bool {
        &&& self.entries@.dom().finite()
        &&& views(self.order@) == arranged::<SourceRootId>(self.entries@.dom())
        &&& runtime_of(value_views(self.entries@), self.primary_id@) is Ok
    }

    /// The identifiers of the source roots in order.
    pub open spec fn ids(&self) -> Seq<Seq<char>> {
        arranged::<SourceRootId>(self@.entries.dom())
    }

    /// The services of some source roots, of which the primary one is available.
    fn from_table(primary_id: SourceRootId, entries: Table<SourceRootId, SourceRuntime>) -> (registry:
        Self)
        requires
            runtime_of(value_views(entries@), primary_id@) is Ok,
        ensures
            registry@ == (RuntimesView { entries: value_views(entries@), primary: primary_id@ }),
    {
        let order = ordered_ids(&entries);
        SourceRuntimeRegistry { entries, order, primary_id }
    }

    /// The services of a single source root.
    pub fn single(primary: SourceContext) -> (registry: Self)
        ensures
            registry@ == (RuntimesView {
                entries: Map::empty().insert(
                    primary@.source_id,
                    RuntimeView::Available(primary@),
                ),
                primary: primary@.source_id,
            }),
    {
        proof {
            crate::table::value_views_empty::<Seq<char>, SourceRuntime>();
        }
        let primary_id = primary.source_id.clone();
        let mut entries: Table<SourceRootId, SourceRuntime> = Table::new();
        entries.insert(primary_id.clone(), SourceRuntime::Available(primary));
        Self::from_table(primary_id, entries)
    }

    /// The services of the primary source root and of others.
    pub fn new(primary: SourceContext, runtimes: Vec<(SourceRootId, SourceRuntime)>) -> (registry:
        Result<Self, SourceRuntimeRegistryError>)
        ensures
            outcome(registry) == registered(
                primary@.source_id,
                seq![(primary@.source_id, RuntimeView::Available(primary@))] + entry_views(
                    runtimes@,
                ),
            ),
    {
        let primary_id = primary.source_id.clone();
        let ghost first = (primary@.source_id, RuntimeView::Available(primary@));
        let ghost given = entry_views(runtimes@);
        let mut items: Vec<(SourceRootId, SourceRuntime)> = Vec::new();
        items.push((primary_id.clone(), SourceRuntime::Available(primary)));
        assert(entry_views(items@) =~= seq![first] + given.take(0));
        for entry in it: runtimes
            invariant
                it.seq() == runtimes@,
                given == entry_views(runtimes@),
                entry_views(items@) == seq![first] + given.take(it.index() as int),
        {
            let ghost before = items@;
            let ghost i = it.index() as int;
            assert(given[i] == (entry.0@, entry.1@));
            items.push(entry);
            assert(entry_views(items@) =~= entry_views(before).push(given[i]));
            assert(entry_views(items@) =~= seq![first] + given.take(i + 1));
        }
        proof {
            assert(given.take(given.len() as int) =~= given);
            assert(entry_views(items@)[0] == first);
            assert(entry_views(items@)[0] == (items@[0].0@, items@[0].1@));
        }
        Self::from_entries(primary_id, items)
    }

    /// The services of source roots, of which the first is the primary one.
    fn from_entries(
        primary_id: SourceRootId,
        runtimes: Vec<(SourceRootId, SourceRuntime)>,
    ) -> (registry: Result<Self, SourceRuntimeRegistryError>)
        requires
            runtimes@.len() > 0,
            runtimes@[0].0@ == primary_id@,
            runtimes@[0].1 is Available,
        ensures
            outcome(registry) == registered(primary_id@, entry_views(runtimes@)),
    {
        let ghost all = entry_views(runtimes@);
        let ghost start = Map::<Seq<char>, RuntimeView>::empty();
        let ghost step = add_runtime();
        let mut entries: Table<SourceRootId, SourceRuntime> = Table::new();
        proof {
            crate::table::value_views_empty::<Seq<char>, SourceRuntime>();
            assert(all.take(0) =~= Seq::empty());
        }
        for entry in it: runtimes
            invariant
                it.seq() == runtimes@,
                all == entry_views(runtimes@),
                start == Map::<Seq<char>, RuntimeView>::empty(),
                step == add_runtime(),
                try_fold(all.take(it.index() as int), start, step) == Ok::<
                    Map<Seq<char>, RuntimeView>,
                    RuntimeFault,
                >(value_views(entries@)),
        {
            let ghost i = it.index() as int;
            proof {
                assert(all[i] == (entry.0@, entry.1@));
                try_fold_step(all, start, step, i);
            }
            let (id, runtime) = entry;
            if entries.contains(&id) {
                let error = SourceRuntimeRegistryError::DuplicateSource { id };
                proof {
                    try_fold_fails(all, start, step, i + 1, error@);
                }
                return Err(error);
            }
            if let SourceRuntime::Available(context) = &runtime {
                if !context.source_id.same_key(&id) {
                    let error = SourceRuntimeRegistryError::IdentityMismatch {
                        id,
                        context_id: context.source_id.clone(),
                    };
                    proof {
                        try_fold_fails(all, start, step, i + 1, error@);
                    }
                    return Err(error);
                }
            }
            entries.insert(id, runtime);
        }
        proof {
            try_fold_end(all, start, step);
            first_stays(all, value_views(entries@));
            assert(all[0] == (runtimes@[0].0@, runtimes@[0].1@));
        }
        Ok(Self::from_table(primary_id, entries))
    }

    /// The services of a source root.
    pub fn get(&self, id: &SourceRootId) -> (context: Result<
        &SourceContext,
        SourceRuntimeRegistryError,
    >)
        ensures
            outcome(context) == runtime_of(self@.entries, id@),
    {
        match self.entries.get(id) {
            Some(SourceRuntime::Available(context)) => Ok(context),
            Some(SourceRuntime::Unavailable(reason)) => Err(
                SourceRuntimeRegistryError::UnavailableSource {
                    id: id.clone(),
                    reason: reason.clone(),
                },
            ),
            None => Err(SourceRuntimeRegistryError::UnknownSource { id: id.clone() }),
        }
    }

    /// The services of the primary source root, which are always available.
    pub fn get_primary(&self) -> (context: &SourceContext)
        ensures
            runtime_of(self@.entries, self@.primary) == Ok::<SourceContextView, RuntimeFault>(
                context@,
            ),
    {
        proof {
            use_type_invariant(self);
        }
        match self.get(&self.primary_id) {
            Ok(context) => context,
            Err(_) => {
                assert(false);
                vstd::pervasive::unreached()
            },
        }
    }

    /// How many source roots there are.
    pub fn len(&self) -> (n: usize)
        ensures
            n == self@.entries.len(),
            n == self.ids().len(),
            self.ids().no_duplicates(),
            forall|id: Seq<char>|
                self@.entries.dom().contains(id) <==> #[trigger] self.ids().contains(id),
    {
        let n: usize = self.order.len();
        proof {
            use_type_invariant(self);
            assert(self@.entries.dom() =~= self.entries@.dom());
            source_ids_rank();
            arranged_holds::<SourceRootId>(self@.entries.dom());
            assert(self.ids().to_set() =~= self@.entries.dom());
            self.ids().unique_seq_to_set();
        }
        n
    }

    /// Whether there is no source root.
    pub fn is_empty(&self) -> (r: bool)
        ensures
            r == (self@.entries.len() == 0),
    {
        self.len() == 0
    }

    /// The identifier and the services of the source root at one place.
    pub fn entry_at(&self, i: usize) -> (entry: (&SourceRootId, &SourceRuntime))
        requires
            i < self.ids().len(),
        ensures
            (entry.0)@ == self.ids()[i as int],
            self@.entries.dom().contains((entry.0)@),
            self@.entries[(entry.0)@] == (entry.1)@,
    {
        proof {
            use_type_invariant(self);
            assert(self@.entries.dom() =~= self.entries@.dom());
            source_ids_rank();
            arranged_holds::<SourceRootId>(self@.entries.dom());
            assert(self.ids().contains(self.ids()[i as int]));
        }
        let id = &self.order[i];
        match self.entries.get(id) {
            Some(runtime) => (id, runtime),
            None => {
                assert(false);
                vstd::pervasive::unreached()
            },
        }
    }
}

/// The reason why the changes are not known without version control.
pub open spec fn no_vcs_reason() -> Seq<char> {
    "Source control is not enabled for this source."@
}

/// What is known of the changes of a source root without asking version control, if
/// anything is: standard input comes first, then the state of the services.
pub open spec fn known_report(
    source: Seq<char>,
    primary: Seq<char>,
    stdin: Option<Set<Seq<char>>>,
    runtime: RuntimeView,
) -> Option<SourceReportView> {
    match stdin {
        Some(files) => Some(
            SourceReportView {
                source,
                observation: stdin_observation(source, primary, files),
                vcs_unavailable: false,
            },
        ),
        None => match runtime {
            RuntimeView::Available(context) => if context.vcs_enabled {
                None
            } else {
                Some(
                    SourceReportView {
                        source,
                        observation: unknown_changes(no_vcs_reason()),
                        vcs_unavailable: true,
                    },
                )
            },
            RuntimeView::Unavailable(reason) => Some(
                SourceReportView {
                    source,
                    observation: unknown_changes(reason),
                    vcs_unavailable: false,
                },
            ),
        },
    }
}

/// What is known of the changes of a source root without asking version control, if
/// anything is.
pub fn report_without_vcs(
    source_id: &SourceRootId,
    primary_id: &SourceRootId,
    stdin: Option<&KeySet<String>>,
    runtime: &SourceRuntime,
) -> (report: Option<SourceReport>)
    ensures
        view_of(report) == known_report(
            source_id@,
            primary_id@,
            match stdin {
                Some(files) => Some(files@),
                None => None,
            },
            runtime@,
        ),
{
    if let Some(files) = stdin {
        return Some(
            SourceReport {
                source: source_id.clone(),
                observation: changed_files_observation_from_stdin(source_id, primary_id, files),
                vcs_unavailable: false,
            },
        );
    }
    match runtime {
        SourceRuntime::Available(context) => {
            if context.vcs_enabled {
                None
            } else {
                Some(
                    SourceReport {
                        source: source_id.clone(),
                        observation: ChangedFilesObservation::unavailable(
                            "Source control is not enabled for this source.",
                        ),
                        vcs_unavailable: true,
                    },
                )
            }
        },
        SourceRuntime::Unavailable(reason) => Some(
            SourceReport {
                source: source_id.clone(),
                observation: ChangedFilesObservation::unavailable(reason.as_str()),
                vcs_unavailable: false,
            },
        ),
    }
}

/// What was registered first stays.
proof fn first_stays(items: Seq<(Seq<char>, RuntimeView)>, entries: Map<Seq<char>, RuntimeView>)
    requires
        items.len() > 0,
        try_fold(items, Map::empty(), add_runtime()) == Ok::<
            Map<Seq<char>, RuntimeView>,
            RuntimeFault,
        >(entries),
    ensures
        entries.dom().contains(items[0].0),
        entries[items[0].0] == items[0].1,
    decreases items.len(),
{
    let rest = items.drop_last();
    if rest.len() == 0 {
        assert(rest =~= Seq::empty());
    } else {
        let before = try_fold(
            rest,
            Map::<Seq<char>, RuntimeView>::empty(),
            add_runtime(),
        )->Ok_0;
        first_stays(rest, before);
        assert(rest[0] == items[0]);
    }
}

/// Why the source root at one place among several cannot be registered: it comes twice, or
/// its services belong to another.
pub open spec fn entry_fault(items: Seq<(Seq<char>, RuntimeView)>, i: int) -> Option<RuntimeFault> {
    if exists|j: int| 0 <= j < i && (#[trigger] items[j]).0 == items[i].0 {
        Some(RuntimeFault::DuplicateSource { id: items[i].0 })
    } else {
        match items[i].1 {
            RuntimeView::Available(context) => if context.source_id != items[i].0 {
                Some(
                    RuntimeFault::IdentityMismatch {
                        id: items[i].0,
                        context_id: context.source_id,
                    },
                )
            } else {
                None
            },
            RuntimeView::Unavailable(_) => None,
        }
    }
}

/// The source root at one place is the first that cannot be registered.
pub open spec fn first_fault(items: Seq<(Seq<char>, RuntimeView)>, i: int) -> bool {
    &&& 0 <= i < items.len()
    &&& entry_fault(items, i) is Some
    &&& forall|j: int| 0 <= j < i ==> (#[trigger] entry_fault(items, j)) is None
}

/// Registering source roots fails exactly where one comes twice or has the services of
/// another, and reports the first such. Otherwise every source root that was given is there,
/// with what it was given, and no other: each answers with its services or with why it has
/// none, and any other is unknown.
pub proof fn registries_hold_what_they_are_given(
    primary: Seq<char>,
    items: Seq<(Seq<char>, RuntimeView)>,
)
    ensures
        match registered(primary, items) {
            Err(fault) => exists|i: int| #[trigger]
                first_fault(items, i) && entry_fault(items, i) == Some(fault),
            Ok(registry) => {
                &&& registry.primary == primary
                &&& forall|i: int| 0 <= i < items.len() ==> (#[trigger] entry_fault(items, i)) is None
                &&& registry.entries.dom().finite()
                &&& registry.entries.len() == items.len()
                &&& forall|i: int|
                    0 <= i < items.len() ==> registry.entries.dom().contains(
                        (#[trigger] items[i]).0,
                    ) && registry.entries[items[i].0] == items[i].1
                &&& forall|i: int|
                    0 <= i < items.len() ==> runtime_of(registry.entries, (#[trigger] items[i]).0)
                        == (match items[i].1 {
                        RuntimeView::Available(context) => Ok::<
                            SourceContextView,
                            RuntimeFault,
                        >(context),
                        RuntimeView::Unavailable(reason) => Err(
                            RuntimeFault::UnavailableSource { id: items[i].0, reason },
                        ),
                    })
                &&& forall|id: Seq<char>|
                    (forall|i: int| 0 <= i < items.len() ==> (#[trigger] items[i]).0 != id)
                        ==> #[trigger] runtime_of(registry.entries, id) == Err::<
                        SourceContextView,
                        RuntimeFault,
                    >(RuntimeFault::UnknownSource { id })
            },
        },
    decreases items.len(),
{
    if items.len() > 0 {
        let rest = items.drop_last();
        let last = items.last();
        let n = rest.len() as int;
        registries_hold_what_they_are_given(primary, rest);
        assert forall|i: int| 0 <= i < n implies #[trigger] entry_fault(items, i) == entry_fault(
            rest,
            i,
        ) by {
            assert(rest[i] == items[i]);
            assert forall|j: int| 0 <= j < i implies #[trigger] items[j] == rest[j] by {}
            if exists|j: int| 0 <= j < i && (#[trigger] items[j]).0 == items[i].0 {
                let j = choose|j: int| 0 <= j < i && (#[trigger] items[j]).0 == items[i].0;
                assert(rest[j].0 == rest[i].0);
            }
        }
        match registered(primary, rest) {
            Err(fault) => {
                let i = choose|i: int| #[trigger]
                    first_fault(rest, i) && entry_fault(rest, i) == Some(fault);
                assert(first_fault(items, i));
            },
            Ok(before) => {
                let known = before.entries.dom().contains(last.0);
                if known {
                    if forall|i: int| 0 <= i < n ==> (#[trigger] rest[i]).0 != last.0 {
                        assert(runtime_of(before.entries, last.0) == Err::<
                            SourceContextView,
                            RuntimeFault,
                        >(RuntimeFault::UnknownSource { id: last.0 }));
                        assert(false);
                    }
                    let j = choose|j: int| 0 <= j < n && (#[trigger] rest[j]).0 == last.0;
                    assert(items[j].0 == items[n].0);
                } else {
                    assert forall|j: int| 0 <= j < n implies (#[trigger] items[j]).0 != last.0 by {
                        assert(before.entries.dom().contains(rest[j].0));
                    }
                }
                match registered(primary, items) {
                    Err(fault) => {
                        assert(entry_fault(items, n) == Some(fault));
                        assert(first_fault(items, n));
                    },
                    Ok(registry) => {
                        assert(entry_fault(items, n) is None);
                        assert(registry.entries.dom() =~= before.entries.dom().insert(last.0));
                        assert forall|i: int| 0 <= i < items.len() implies (
                        registry.entries.dom().contains((#[trigger] items[i]).0)
                            && registry.entries[items[i].0] == items[i].1) by {
                            if i < n {
                                assert(rest[i] == items[i]);
                            }
                        }
                        assert forall|id: Seq<char>|
                            (forall|i: int|
                                0 <= i < items.len() ==> (#[trigger] items[i]).0
                                    != id) implies #[trigger] runtime_of(registry.entries, id)
                            == Err::<SourceContextView, RuntimeFault>(
                            RuntimeFault::UnknownSource { id },
                        ) by {
                            assert(items[n].0 != id);
                            assert forall|i: int| 0 <= i < n implies (#[trigger] rest[i]).0
                                != id by {
                                assert(items[i].0 != id);
                            }
                            assert(runtime_of(before.entries, id) == Err::<
                                SourceContextView,
                                RuntimeFault,
                            >(RuntimeFault::UnknownSource { id }));
                        }
                    },
                }
            },
        }
    }
}

/// The services of the primary source root are always available once a registry was
/// made with them.
pub proof fn primary_is_available(
    primary: SourceContextView,
    others: Seq<(Seq<char>, RuntimeView)>,
)
    ensures
        ({
            let items = seq![(primary.source_id, RuntimeView::Available(primary))] + others;
            let registry = registered(primary.source_id, items);
            registry is Ok ==> runtime_of(registry->Ok_0.entries, registry->Ok_0.primary) == Ok::<
                SourceContextView,
                RuntimeFault,
            >(primary)
        }),
{
    let items = seq![(primary.source_id, RuntimeView::Available(primary))] + others;
    let registry = registered(primary.source_id, items);
    if registry is Ok {
        assert(items[0] == (primary.source_id, RuntimeView::Available(primary)));
        first_stays(items, registry->Ok_0.entries);
    }
}

} // verus!
