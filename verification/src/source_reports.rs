//! The report on source roots: who they are, and what could not be loaded of them.

use crate::discovery::{
    DiscoveredWorkspaceFailure, FailureView, LoadFailureView, SourceLoadFailure,
};
use crate::keyset::sort_distinct;
use crate::order::{arranged, ranked, sort_ranked, view_of, views, Ranked};
use crate::path::render_path;
use crate::reports::{find_widest, padded, widest_text, Listing, Row};
use crate::source::{SourceAlias, SourceRootId};
use crate::table::{value_views, Key, Table};
use crate::task::copy_option;
use crate::text::{
    join_all, join_texts, join_two, text_before, text_less, text_less_irreflexive,
    text_less_total, text_less_transitive,
};
use vstd::prelude::*;
use vstd::seq_lib::lemma_seq_contains_after_push;

verus! {

broadcast use crate::order::group_views;

/// What is known of the version control of a source root.
pub enum ProviderView {
    Ready { version: Option<Seq<char>> },
    Failed { message: Seq<char> },
    Pending,
}

/// What is known of the version control of a source root.
#[derive(Debug)]
pub enum ProviderState {
    /// It is there, and has a version where it says so.
    Ready { version: Option<String> },
    /// It could not be loaded.
    Failed { message: String },
    /// Nobody asked for it yet.
    Pending,
}

impl View for ProviderState {
    type V = ProviderView;

    open spec fn view(&self) -> ProviderView {
        match self {
            ProviderState::Ready { version } => ProviderView::Ready { version: view_of(*version) },
            ProviderState::Failed { message } => ProviderView::Failed { message: message@ },
            ProviderState::Pending => ProviderView::Pending,
        }
    }
}

/// The report on the version control of a source root.
pub struct ProviderDiagnosticView {
    pub message: Option<Seq<char>>,
    pub status: Seq<char>,
    pub version: Option<Seq<char>>,
}

/// The report on the version control of a source root.
#[derive(Debug)]
pub struct ProviderDiagnostic {
    pub message: Option<String>,
    pub status: String,
    pub version: Option<String>,
}

impl View for ProviderDiagnostic {
    type V = ProviderDiagnosticView;

    open spec fn view(&self) -> ProviderDiagnosticView {
        ProviderDiagnosticView {
            message: view_of(self.message),
            status: self.status@,
            version: view_of(self.version),
        }
    }
}

/// The report on the version control of a source root.
pub open spec fn provider_report(provider: ProviderView) -> ProviderDiagnosticView {
    match provider {
        ProviderView::Ready { version } => ProviderDiagnosticView {
            message: None,
            status: "ready"@,
            version,
        },
        ProviderView::Failed { message } => ProviderDiagnosticView {
            message: Some(message),
            status: "failed"@,
            version: None,
        },
        ProviderView::Pending => ProviderDiagnosticView {
            message: None,
            status: "pending"@,
            version: None,
        },
    }
}

fn report_provider(provider: &ProviderState) -> (report: ProviderDiagnostic)
    ensures
        report@ == provider_report(provider@),
{
    match provider {
        ProviderState::Ready { version } => ProviderDiagnostic {
            message: None,
            status: "ready".to_owned(),
            version: copy_option(version),
        },
        ProviderState::Failed { message } => ProviderDiagnostic {
            message: Some(message.clone()),
            status: "failed".to_owned(),
            version: None,
        },
        ProviderState::Pending => ProviderDiagnostic {
            message: None,
            status: "pending".to_owned(),
            version: None,
        },
    }
}

/// A source root that was found.
pub struct EntryView {
    pub id: Seq<char>,
    pub path: Seq<char>,
    pub provider: ProviderView,
    pub failures: Seq<LoadFailureView>,
}

/// A source root that was found: who it is, where it is, and what could not be loaded of it.
#[derive(Debug)]
pub struct SourceEntry {
    pub id: SourceRootId,
    pub path: String,
    pub provider: ProviderState,
    pub failures: Vec<SourceLoadFailure>,
}

impl View for SourceEntry {
    type V = EntryView;

    open spec fn view(&self) -> EntryView {
        EntryView {
            id: self.id@,
            path: self.path@,
            provider: self.provider@,
            failures: views(self.failures@),
        }
    }
}

/// The report on a source root.
pub struct DiagnosticView {
    pub aliases: Seq<Seq<char>>,
    pub failures: Seq<LoadFailureView>,
    pub id: Option<Seq<char>>,
    pub path: Seq<char>,
    pub primary: bool,
    pub provider: ProviderDiagnosticView,
}

/// The report on a source root.
#[derive(Debug)]
pub struct SourceDiagnostic {
    pub aliases: Vec<String>,
    pub failures: Vec<SourceLoadFailure>,
    pub id: Option<String>,
    pub path: String,
    pub primary: bool,
    pub provider: ProviderDiagnostic,
}

impl View for SourceDiagnostic {
    type V = DiagnosticView;

    open spec fn view(&self) -> DiagnosticView {
        DiagnosticView {
            aliases: views(self.aliases@),
            failures: views(self.failures@),
            id: view_of(self.id),
            path: self.path@,
            primary: self.primary,
            provider: self.provider@,
        }
    }
}

/// What a report is sorted by: the identifier, or the first name of a source root without one.
pub open spec fn sort_text(report: DiagnosticView) -> Seq<char> {
    match report.id {
        Some(id) => id,
        None => if report.aliases.len() > 0 {
            report.aliases[0]
        } else {
            Seq::empty()
        },
    }
}

impl Ranked for SourceDiagnostic {
    open spec fn before(a: DiagnosticView, b: DiagnosticView) -> bool {
        text_less(sort_text(a), sort_text(b))
    }

    proof fn before_irreflexive(a: DiagnosticView) {
        text_less_irreflexive(sort_text(a));
    }

    proof fn before_transitive(a: DiagnosticView, b: DiagnosticView, c: DiagnosticView) {
        text_less_transitive(sort_text(a), sort_text(b), sort_text(c));
    }

    proof fn before_total(a: DiagnosticView, b: DiagnosticView, c: DiagnosticView) {
        let (x, y, z) = (sort_text(a), sort_text(b), sort_text(c));
        text_less_total(x, z);
        text_less_total(z, y);
        if !text_less(x, z) && !text_less(z, y) {
            if text_less(z, x) {
                text_less_transitive(z, x, y);
            }
        }
    }

    fn is_before(&self, other: &Self) -> bool {
        report_before(self, other)
    }
}

fn text_for_sorting(report: &SourceDiagnostic) -> (text: String)
    ensures
        text@ == sort_text(report@),
{
    match &report.id {
        Some(id) => id.clone(),
        None => if report.aliases.len() > 0 {
            report.aliases[0].clone()
        } else {
            let text = String::new();
            assert(text@ =~= Seq::empty());
            text
        },
    }
}

fn report_before(a: &SourceDiagnostic, b: &SourceDiagnostic) -> (before: bool)
    ensures
        before == text_less(sort_text(a@), sort_text(b@)),
{
    text_before(text_for_sorting(a).as_str(), text_for_sorting(b).as_str())
}

/// The names of a source root, in order.
pub open spec fn names_of(aliases: Map<Seq<char>, Seq<char>>, id: Seq<char>) -> Seq<Seq<char>> {
    arranged::<String>(
        Set::new(|alias: Seq<char>| aliases.dom().contains(alias) && aliases[alias] == id),
    )
}

/// The report on a source root that was found. What the primary one could not load ends the
/// program before any report, so it has no failures.
pub open spec fn entry_report(
    aliases: Map<Seq<char>, Seq<char>>,
    primary: Seq<char>,
    entry: EntryView,
) -> DiagnosticView {
    DiagnosticView {
        aliases: names_of(aliases, entry.id),
        failures: if entry.id == primary {
            Seq::empty()
        } else {
            entry.failures
        },
        id: Some(entry.id),
        path: entry.path,
        primary: entry.id == primary,
        provider: provider_report(entry.provider),
    }
}

/// The report on a source root that could not be taken in.
pub open spec fn failure_report(failure: FailureView) -> DiagnosticView {
    DiagnosticView {
        aliases: seq![failure.alias],
        failures: seq![LoadFailureView { message: failure.message, stage: failure.stage }],
        id: None,
        path: render_path(failure.root),
        primary: false,
        provider: ProviderDiagnosticView { message: None, status: "unavailable"@, version: None },
    }
}

/// The reports on all source roots, in order.
pub open spec fn source_reports(
    entries: Seq<EntryView>,
    aliases: Map<Seq<char>, Seq<char>>,
    primary: Seq<char>,
    failures: Seq<FailureView>,
) -> Seq<DiagnosticView> {
    ranked::<SourceDiagnostic>(
        entries.map_values(|entry: EntryView| entry_report(aliases, primary, entry))
            + failures.map_values(|failure: FailureView| failure_report(failure)),
    )
}

fn list_names(aliases: &Table<SourceAlias, SourceRootId>, id: &SourceRootId) -> (names: Vec<String>)
    ensures
        views(names@) == names_of(value_views(aliases@), id@),
{
    let ghost known = value_views(aliases@);
    let ghost wanted = Set::new(
        |alias: Seq<char>| known.dom().contains(alias) && known[alias] == id@,
    );
    let n = aliases.len();
    let ghost keys = aliases.keys();
    let mut names: Vec<String> = Vec::new();
    let mut i: usize = 0;
    while i < n
        invariant
            i <= n,
            n == keys.len(),
            keys == aliases.keys(),
            known == value_views(aliases@),
            forall|key: Seq<char>|
                aliases@.dom().contains(key) <==> #[trigger] keys.contains(key),
            forall|name: Seq<char>| #[trigger]
                views(names@).contains(name) <==> keys.take(i as int).contains(name) && known[name]
                    == id@,
        decreases n - i,
    {
        let alias = aliases.key_at(i);
        let ghost before = views(names@);
        proof {
            assert(keys.take(i + 1) =~= keys.take(i as int).push(keys[i as int]));
            assert forall|other: Seq<char>| keys.take(i + 1).contains(other) <==> (other
                == keys[i as int] || keys.take(i as int).contains(other)) by {
                lemma_seq_contains_after_push(keys.take(i as int), keys[i as int], other);
            }
        }
        if aliases.value_at(i).same_key(id) {
            names.push(alias.as_str().to_owned());
            proof {
                assert forall|other: Seq<char>| views(names@).contains(other) <==> (other == alias@
                    || before.contains(other)) by {
                    lemma_seq_contains_after_push(before, alias@, other);
                }
            }
        }
        proof {
            assert forall|name: Seq<char>| #[trigger]
                views(names@).contains(name) <==> keys.take(i + 1).contains(name) && known[name]
                    == id@ by {
                assert(before.contains(name) <==> keys.take(i as int).contains(name) && known[name]
                    == id@);
            }
        }
        i = i + 1;
    }
    proof {
        assert(keys.take(i as int) =~= keys);
        assert forall|name: Seq<char>| views(names@).to_set().contains(name) <==> wanted.contains(
            name,
        ) by {
            assert(views(names@).contains(name) <==> keys.contains(name) && known[name] == id@);
        }
        assert(views(names@).to_set() =~= wanted);
    }
    sort_distinct(&names)
}

fn copy_failures(failures: &Vec<SourceLoadFailure>) -> (copies: Vec<SourceLoadFailure>)
    ensures
        views(copies@) == views(failures@),
{
    let mut copies: Vec<SourceLoadFailure> = Vec::new();
    let mut i: usize = 0;
    while i < failures.len()
        invariant
            i <= failures@.len(),
            views(copies@) =~= views(failures@).take(i as int),
        decreases failures.len() - i,
    {
        copies.push(
            SourceLoadFailure {
                message: failures[i].message.clone(),
                stage: failures[i].stage.clone(),
            },
        );
        i = i + 1;
    }
    assert(views(copies@) =~= views(failures@));
    copies
}

/// The reports on all source roots, in order.
pub fn diagnose_sources(
    entries: &Vec<SourceEntry>,
    aliases: &Table<SourceAlias, SourceRootId>,
    primary: &SourceRootId,
    failures: &Vec<DiscoveredWorkspaceFailure>,
) -> (reports: Vec<SourceDiagnostic>)
    ensures
        views(reports@) == source_reports(
            views(entries@),
            value_views(aliases@),
            primary@,
            views(failures@),
        ),
{
    let ghost names = value_views(aliases@);
    let ghost first = views(entries@).map_values(
        |entry: EntryView| entry_report(names, primary@, entry),
    );
    let ghost second = views(failures@).map_values(|failure: FailureView| failure_report(failure));
    let mut reports: Vec<SourceDiagnostic> = Vec::new();
    let mut i: usize = 0;
    while i < entries.len()
        invariant
            i <= entries@.len(),
            names == value_views(aliases@),
            first == views(entries@).map_values(
                |entry: EntryView| entry_report(names, primary@, entry),
            ),
            views(reports@) =~= first.take(i as int),
        decreases entries.len() - i,
    {
        let entry = &entries[i];
        let is_primary = entry.id.same_key(primary);
        let own: Vec<SourceLoadFailure> = if is_primary {
            let own: Vec<SourceLoadFailure> = Vec::new();
            assert(views(own@) =~= Seq::empty());
            own
        } else {
            copy_failures(&entry.failures)
        };
        let report = SourceDiagnostic {
            aliases: list_names(aliases, &entry.id),
            failures: own,
            id: Some(entry.id.as_str().to_owned()),
            path: entry.path.clone(),
            primary: is_primary,
            provider: report_provider(&entry.provider),
        };
        assert(report@ == first[i as int]);
        reports.push(report);
        i = i + 1;
    }
    assert(first.take(i as int) =~= first);
    let mut j: usize = 0;
    assert(first + second.take(0) =~= first);
    while j < failures.len()
        invariant
            j <= failures@.len(),
            second == views(failures@).map_values(|failure: FailureView| failure_report(failure)),
            views(reports@) =~= first + second.take(j as int),
        decreases failures.len() - j,
    {
        let failure = &failures[j];
        let mut own: Vec<SourceLoadFailure> = Vec::new();
        own.push(
            SourceLoadFailure { message: failure.message.clone(), stage: failure.stage.clone() },
        );
        let mut own_names: Vec<String> = Vec::new();
        own_names.push(failure.alias.as_str().to_owned());
        let report = SourceDiagnostic {
            aliases: own_names,
            failures: own,
            id: None,
            path: failure.root.to_text(),
            primary: false,
            provider: ProviderDiagnostic {
                message: None,
                status: "unavailable".to_owned(),
                version: None,
            },
        };
        proof {
            assert(report@.aliases =~= second[j as int].aliases);
            assert(report@.failures =~= second[j as int].failures);
        }
        reports.push(report);
        j = j + 1;
    }
    assert(second.take(j as int) =~= second);
    sort_ranked(reports)
}

/// How a source root is shown.
pub open spec fn shown_source(report: DiagnosticView) -> Seq<char> {
    match report.id {
        Some(id) => id,
        None => "(unidentified)"@,
    }
}

/// What could not be loaded, in a few words.
pub open spec fn shown_failure(failure: LoadFailureView) -> Seq<char> {
    failure.stage + ": "@ + failure.message
}

/// All that is wrong with a source root, in a few words.
pub open spec fn shown_details(report: DiagnosticView) -> Seq<char> {
    let failures = report.failures.map_values(|failure: LoadFailureView| shown_failure(failure));
    join_texts(
        match report.provider.message {
            Some(message) => failures.push("provider: "@ + message),
            None => failures,
        },
        "; "@,
    )
}

/// The row of a source root.
pub open spec fn source_row(report: DiagnosticView) -> Seq<Seq<char>> {
    seq![
        shown_source(report),
        join_texts(report.aliases, ", "@),
        report.provider.status,
        report.path,
        shown_details(report),
    ]
}

/// All that is wrong with a source root, in a few words.
fn describe(report: &SourceDiagnostic) -> (details: String)
    ensures
        details@ == shown_details(report@),
{
    let ghost all = report@.failures.map_values(
        |failure: LoadFailureView| shown_failure(failure),
    );
    let mut texts: Vec<String> = Vec::new();
    let mut i: usize = 0;
    while i < report.failures.len()
        invariant
            i <= report.failures@.len(),
            all == views(report.failures@).map_values(
                |failure: LoadFailureView| shown_failure(failure),
            ),
            views(texts@) =~= all.take(i as int),
        decreases report.failures.len() - i,
    {
        texts.push(
            join_two(
                report.failures[i].stage.as_str(),
                ": ",
                report.failures[i].message.as_str(),
            ),
        );
        i = i + 1;
    }
    assert(all.take(i as int) =~= all);
    if let Some(message) = &report.provider.message {
        let mut text = "provider: ".to_owned();
        text.append(message.as_str());
        texts.push(text);
    }
    assert(texts@.map_values(|p: String| p@) =~= views(texts@));
    join_all(&texts, "; ")
}

/// The table of source roots.
pub fn list_sources(reports: &Vec<SourceDiagnostic>) -> (listing: Listing)
    ensures
        views(listing.rows@) == views(reports@).map_values(
            |report: DiagnosticView| source_row(report),
        ),
        listing.widths@.len() == 2,
        listing.widths@[0] == padded(
            widest_text(
                views(reports@).map_values(|report: DiagnosticView| shown_source(report)),
                6,
            ),
        ),
        listing.widths@[1] == padded(
            widest_text(
                views(reports@).map_values(
                    |report: DiagnosticView| join_texts(report.aliases, ", "@),
                ),
                7,
            ),
        ),
{
    let ghost all = views(reports@);
    let ghost table = all.map_values(|report: DiagnosticView| source_row(report));
    let ghost first = all.map_values(|report: DiagnosticView| shown_source(report));
    let ghost second = all.map_values(|report: DiagnosticView| join_texts(report.aliases, ", "@));
    let mut rows: Vec<Row> = Vec::new();
    let mut ids: Vec<String> = Vec::new();
    let mut names: Vec<String> = Vec::new();
    let mut i: usize = 0;
    while i < reports.len()
        invariant
            i <= reports@.len(),
            all == views(reports@),
            table == all.map_values(|report: DiagnosticView| source_row(report)),
            first == all.map_values(|report: DiagnosticView| shown_source(report)),
            second == all.map_values(
                |report: DiagnosticView| join_texts(report.aliases, ", "@),
            ),
            views(rows@) =~= table.take(i as int),
            views(ids@) =~= first.take(i as int),
            views(names@) =~= second.take(i as int),
        decreases reports.len() - i,
    {
        let report = &reports[i];
        let id = match &report.id {
            Some(id) => id.clone(),
            None => "(unidentified)".to_owned(),
        };
        assert(report.aliases@.map_values(|p: String| p@) =~= views(report.aliases@));
        let aliases = join_all(&report.aliases, ", ");
        let mut cells: Vec<String> = Vec::new();
        cells.push(id.clone());
        cells.push(aliases.clone());
        cells.push(report.provider.status.clone());
        cells.push(report.path.clone());
        cells.push(describe(report));
        assert(views(cells@) =~= source_row(all[i as int]));
        rows.push(Row { cells });
        ids.push(id);
        names.push(aliases);
        i = i + 1;
    }
    assert(table.take(i as int) =~= table);
    assert(first.take(i as int) =~= first);
    assert(second.take(i as int) =~= second);
    let mut widths: Vec<usize> = Vec::new();
    widths.push(find_widest(&ids, 6).saturating_add(5));
    widths.push(find_widest(&names, 7).saturating_add(5));
    Listing { widths, rows }
}

} // verus!
