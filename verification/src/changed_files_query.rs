//! How the changed files of source roots are asked for, and what the answers mean.

use crate::changed_files::{
    no_changes, qualified, qualify_changed_files_observation, unknown_changes,
    ChangedFilesObservation, ChangedStatus, ImpactCompleteness, ObservationView,
};
use crate::fold::{fold, fold_end, fold_step};
use crate::keyset::{sort_distinct, KeySet};
use crate::order::{arranged, view_of, views};
use crate::source::{SourcePathBuf, SourcePathView, SourceRootId};
use crate::table::{value_views, Key, Table};
use crate::task::copy_option;
use crate::text::{chars_of, join_two};
use vstd::prelude::*;
use vstd::seq_lib::lemma_seq_contains_after_push;

verus! {

broadcast use {crate::order::group_views, crate::table::value_views_insert};

/// What changed files are asked for.
pub struct QueryView {
    pub base: Option<Seq<char>>,
    pub default_branch: bool,
    pub head: Option<Seq<char>>,
    pub local: bool,
    pub status: Seq<ChangedStatus>,
    pub stdin: bool,
}

/// What changed files are asked for.
#[derive(Debug)]
pub struct QueryChangedFilesOptions {
    pub base: Option<String>,
    pub default_branch: bool,
    pub head: Option<String>,
    pub local: bool,
    pub status: Vec<ChangedStatus>,
    pub stdin: bool,
}

impl View for QueryChangedFilesOptions {
    type V = QueryView;

    open spec fn view(&self) -> QueryView {
        QueryView {
            base: view_of(self.base),
            default_branch: self.default_branch,
            head: view_of(self.head),
            local: self.local,
            status: self.status@,
            stdin: self.stdin,
        }
    }
}

/// What `--affected` asks for: local changes, or changes between revisions.
#[derive(Debug)]
pub struct AffectedOption {
    pub local: bool,
    pub base: Option<String>,
    pub head: Option<String>,
}

impl QueryChangedFilesOptions {
    /// What is asked for unless something else is said: in continuous integration the
    /// changes since the default branch, elsewhere the local ones.
    pub fn for_affected(ci: bool) -> (options: Self)
        ensures
            options@ == (QueryView {
                base: None,
                default_branch: ci,
                head: None,
                local: !ci,
                status: Seq::empty(),
                stdin: true,
            }),
    {
        QueryChangedFilesOptions {
            base: None,
            default_branch: ci,
            head: None,
            local: !ci,
            status: Vec::new(),
            stdin: true,
        }
    }

    /// Takes over what `--affected` asks for. Revisions that were given stay.
    pub fn apply_affected(&mut self, by: &AffectedOption)
        ensures
            final(self)@ == (QueryView {
                base: if old(self)@.base is None {
                    view_of(by.base)
                } else {
                    old(self)@.base
                },
                head: if old(self)@.head is None {
                    view_of(by.head)
                } else {
                    old(self)@.head
                },
                default_branch: !by.local,
                local: by.local,
                ..old(self)@
            }),
    {
        if self.base.is_none() {
            self.base = copy_option(&by.base);
        }
        if self.head.is_none() {
            self.head = copy_option(&by.head);
        }
        self.default_branch = !by.local;
        self.local = by.local;
    }
}

/// A value from the environment, or else one that was given. Empty values do not count.
pub open spec fn chosen_value(environment: Option<Seq<char>>, given: Option<Seq<char>>) -> Option<
    Seq<char>,
> {
    if environment is Some && environment->0.len() > 0 {
        environment
    } else if given is Some && given->0.len() > 0 {
        given
    } else {
        None
    }
}

/// A value from the environment, or else one that was given.
fn choose_value(environment: &Option<String>, given: &Option<String>) -> (value: Option<String>)
    ensures
        view_of(value) == chosen_value(view_of(*environment), view_of(*given)),
{
    if let Some(value) = environment {
        if !value.as_str().is_empty() {
            return Some(value.clone());
        }
    }
    if let Some(value) = given {
        if !value.as_str().is_empty() {
            return Some(value.clone());
        }
    }
    None
}

/// A question to version control.
pub enum VcsQueryView {
    Previous { branch: Seq<char> },
    Between { base: Seq<char>, head: Seq<char> },
    WorkingCopy,
}

/// A question to version control.
#[derive(Debug)]
pub enum VcsQuery {
    /// The changes since the revision before the default branch.
    Previous { branch: String },
    /// The changes between two revisions.
    Between { base: String, head: String },
    /// The changes of the working copy.
    WorkingCopy,
}

impl View for VcsQuery {
    type V = VcsQueryView;

    open spec fn view(&self) -> VcsQueryView {
        match self {
            VcsQuery::Previous { branch } => VcsQueryView::Previous { branch: branch@ },
            VcsQuery::Between { base, head } => VcsQueryView::Between { base: base@, head: head@ },
            VcsQuery::WorkingCopy => VcsQueryView::WorkingCopy,
        }
    }
}

/// What is known of the repository and the environment.
#[derive(Debug)]
pub struct RepositoryState {
    pub base_variable: Option<String>,
    pub head_variable: Option<String>,
    pub default_branch: String,
    pub on_default_branch: bool,
    pub shallow: bool,
}

/// What is known of the repository and the environment.
pub struct RepositoryView {
    pub base_variable: Option<Seq<char>>,
    pub head_variable: Option<Seq<char>>,
    pub default_branch: Seq<char>,
    pub on_default_branch: bool,
    pub shallow: bool,
}

impl View for RepositoryState {
    type V = RepositoryView;

    open spec fn view(&self) -> RepositoryView {
        RepositoryView {
            base_variable: view_of(self.base_variable),
            head_variable: view_of(self.head_variable),
            default_branch: self.default_branch@,
            on_default_branch: self.on_default_branch,
            shallow: self.shallow,
        }
    }
}

/// The comparison of revisions that is asked for, if any: with the previous revision
/// on the default branch, and between two revisions otherwise. Only local changes ask
/// for none, unless a revision was given.
pub open spec fn revision_query(options: QueryView, state: RepositoryView) -> Option<VcsQueryView> {
    let base = chosen_value(state.base_variable, options.base);
    let head = chosen_value(state.head_variable, options.head);
    if options.local && base is None && head is None {
        None
    } else if base is None && head is None && state.on_default_branch && options.default_branch {
        Some(VcsQueryView::Previous { branch: state.default_branch })
    } else {
        Some(
            VcsQueryView::Between {
                base: if base is Some {
                    base->0
                } else {
                    state.default_branch
                },
                head: if head is Some {
                    head->0
                } else {
                    "HEAD"@
                },
            },
        )
    }
}

/// The questions that version control is asked, in order. Without a base they need the
/// full history. The working copy counts unless a head was given.
pub open spec fn planned_queries(options: QueryView, state: RepositoryView) -> Option<
    Seq<VcsQueryView>,
> {
    if chosen_value(state.base_variable, options.base) is None && state.shallow {
        None
    } else {
        let first = match revision_query(options, state) {
            Some(query) => seq![query],
            None => Seq::empty(),
        };
        Some(
            if chosen_value(state.head_variable, options.head) is None {
                first.push(VcsQueryView::WorkingCopy)
            } else {
                first
            },
        )
    }
}

/// Plans the questions to version control. There are none where the history is too
/// shallow for them.
pub fn plan_queries(options: &QueryChangedFilesOptions, state: &RepositoryState) -> (queries: Option<
    Vec<VcsQuery>,
>)
    ensures
        match queries {
            Some(queries) => planned_queries(options@, state@) == Some(views(queries@)),
            None => planned_queries(options@, state@) is None,
        },
{
    let base = choose_value(&state.base_variable, &options.base);
    let head = choose_value(&state.head_variable, &options.head);
    if base.is_none() && state.shallow {
        return None;
    }
    let unset = base.is_none() && head.is_none();
    let working_copy = head.is_none();
    let mut queries: Vec<VcsQuery> = Vec::new();
    assert(views(queries@) =~= Seq::empty());
    if !(options.local && unset) {
        if unset && state.on_default_branch && options.default_branch {
            queries.push(VcsQuery::Previous { branch: state.default_branch.clone() });
        } else {
            queries.push(
                VcsQuery::Between {
                    base: match base {
                        Some(base) => base,
                        None => state.default_branch.clone(),
                    },
                    head: match head {
                        Some(head) => head,
                        None => "HEAD".to_owned(),
                    },
                },
            );
        }
        assert(views(queries@) =~= seq![revision_query(options@, state@)->0]);
    }
    if working_copy {
        queries.push(VcsQuery::WorkingCopy);
    }
    Some(queries)
}

/// A path with forward separators only.
pub open spec fn standardized(path: Seq<char>) -> Seq<char> {
    path.map_values(
        |c: char|
            if c == '\\' {
                '/'
            } else {
                c
            },
    )
}

/// A path with forward separators only.
pub fn standardize_separators(path: &str) -> (out: String)
    ensures
        out@ == standardized(path@),
{
    let chars = chars_of(path);
    let mut out = String::new();
    let mut i: usize = 0;
    assert(out@ =~= standardized(path@).take(0));
    while i < chars.len()
        invariant
            i <= chars@.len(),
            chars@ == path@,
            out@ == standardized(path@).take(i as int),
        decreases chars.len() - i,
    {
        if chars[i] == '\\' {
            out.push('/');
        } else {
            out.push(chars[i]);
        }
        assert(out@ =~= standardized(path@).take(i + 1));
        i = i + 1;
    }
    assert(standardized(path@).take(i as int) =~= standardized(path@));
    out
}

/// Statuses that are asked for; without any, all are.
pub open spec fn wanted(asked: Seq<ChangedStatus>, statuses: Seq<ChangedStatus>) -> bool {
    asked.len() == 0 || exists|i: int|
        0 <= i < asked.len() && statuses.contains(#[trigger] asked[i])
}

/// Whether statuses are asked for.
fn is_wanted(asked: &Vec<ChangedStatus>, statuses: &Vec<ChangedStatus>) -> (r: bool)
    ensures
        r == wanted(asked@, statuses@),
{
    if asked.len() == 0 {
        return true;
    }
    let mut i: usize = 0;
    while i < asked.len()
        invariant
            i <= asked@.len(),
            asked@.len() > 0,
            forall|j: int| 0 <= j < i ==> !statuses@.contains(#[trigger] asked@[j]),
        decreases asked.len() - i,
    {
        let mut k: usize = 0;
        while k < statuses.len()
            invariant
                i < asked@.len(),
                k <= statuses@.len(),
                forall|j: int| 0 <= j < k ==> statuses@[j] != asked@[i as int],
            decreases statuses.len() - k,
        {
            if statuses[k] == asked[i] {
                assert(statuses@.contains(asked@[i as int]));
                return true;
            }
            k = k + 1;
        }
        i = i + 1;
    }
    false
}

/// One more file that was asked for, under its standard path.
pub open spec fn keep_file(
    asked: Seq<ChangedStatus>,
    files: Map<Seq<char>, Seq<ChangedStatus>>,
) -> spec_fn(Map<Seq<char>, Seq<ChangedStatus>>, Seq<char>) -> Map<Seq<char>, Seq<ChangedStatus>> {
    |kept: Map<Seq<char>, Seq<ChangedStatus>>, file: Seq<char>|
        if wanted(asked, files[file]) {
            kept.insert(standardized(file), files[file])
        } else {
            kept
        }
}

/// Keeps the files that were asked for, under their standard paths.
pub fn filter_observation(
    observation: ChangedFilesObservation<String>,
    asked: &Vec<ChangedStatus>,
) -> (out: ChangedFilesObservation<String>)
    ensures
        out@ == (ObservationView {
            files: fold(
                observation.files.keys(),
                Map::empty(),
                keep_file(asked@, observation@.files),
            ),
            ..observation@
        }),
{
    let mut files: Table<String, Vec<ChangedStatus>> = Table::new();
    let n: usize = observation.files.len();
    let ghost keys = observation.files.keys();
    let ghost all = observation@.files;
    let ghost start = Map::<Seq<char>, Seq<ChangedStatus>>::empty();
    let ghost step = keep_file(asked@, all);
    let mut i: usize = 0;
    proof {
        crate::table::value_views_empty::<Seq<char>, Vec<ChangedStatus>>();
        assert(keys.take(0) =~= Seq::empty());
    }
    while i < n
        invariant
            n == observation.files.keys().len(),
            keys == observation.files.keys(),
            all == value_views(observation.files@),
            step == keep_file(asked@, all),
            i <= n,
            value_views(files@) == fold(keys.take(i as int), start, step),
        decreases n - i,
    {
        let path = observation.files.key_at(i);
        let statuses = observation.files.value_at(i);
        proof {
            fold_step(keys, start, step, i as int);
        }
        if is_wanted(asked, statuses) {
            let mut copy: Vec<ChangedStatus> = Vec::new();
            let mut j: usize = 0;
            while j < statuses.len()
                invariant
                    j <= statuses@.len(),
                    copy@ == statuses@.take(j as int),
                decreases statuses.len() - j,
            {
                copy.push(statuses[j]);
                assert(copy@ =~= statuses@.take(j + 1));
                j = j + 1;
            }
            assert(copy@ =~= statuses@);
            files.insert(standardize_separators(path.as_str()), copy);
        }
        i = i + 1;
    }
    proof {
        fold_end(keys, start, step);
    }
    ChangedFilesObservation {
        files,
        completeness: observation.completeness,
        diagnostics: observation.diagnostics,
    }
}

/// The reason why the changes are not known where the history is too shallow.
pub open spec fn shallow_reason() -> Seq<char> {
    "A full source-control history is required to determine affected files."@
}

/// What is known where the history is too shallow.
pub fn shallow_observation() -> (observation: ChangedFilesObservation<String>)
    ensures
        observation@ == unknown_changes::<Seq<char>>(shallow_reason()),
{
    ChangedFilesObservation::unavailable(
        "A full source-control history is required to determine affected files.",
    )
}

/// The parts of a text between line ends.
pub open spec fn lines_of(text: Seq<char>) -> Seq<Seq<char>>
    decreases text.len(),
{
    if text.len() == 0 {
        seq![Seq::empty()]
    } else {
        let front = lines_of(text.drop_last());
        if text.last() == '\n' {
            front.push(Seq::empty())
        } else {
            front.update(front.len() - 1, front.last().push(text.last()))
        }
    }
}

/// The lines of a text.
pub fn split_lines(text: &str) -> (lines: Vec<String>)
    ensures
        views(lines@) == lines_of(text@),
{
    let chars = chars_of(text);
    let mut done: Vec<String> = Vec::new();
    let mut open = String::new();
    let mut i: usize = 0;
    assert(chars@.take(0) =~= Seq::empty());
    assert(views(done@).push(open@) =~= seq![Seq::empty()]);
    while i < chars.len()
        invariant
            i <= chars@.len(),
            views(done@).push(open@) == lines_of(chars@.take(i as int)),
        decreases chars.len() - i,
    {
        let c = chars[i];
        let ghost front = lines_of(chars@.take(i as int));
        proof {
            let next = chars@.take(i + 1);
            assert(next.drop_last() =~= chars@.take(i as int));
            assert(next.last() == c);
        }
        if c == '\n' {
            done.push(open);
            open = String::new();
            assert(views(done@).push(open@) =~= front.push(Seq::empty()));
        } else {
            open.push(c);
            assert(views(done@).push(open@) =~= front.update(
                front.len() - 1,
                front.last().push(c),
            ));
        }
        i = i + 1;
    }
    assert(chars@.take(i as int) =~= text@);
    done.push(open);
    done
}

/// What standard input says of the changed files.
#[derive(Debug)]
pub enum StdinFiles {
    /// Nothing.
    Missing,
    /// A document that holds the changed files.
    Json,
    /// One changed file on each line.
    Lines(KeySet<String>),
}

/// Reads the changed files from standard input: a document where it begins with a
/// brace, and lines otherwise.
pub fn read_stdin_files(buffer: &str) -> (files: StdinFiles)
    ensures
        match files {
            StdinFiles::Missing => buffer@.len() == 0,
            StdinFiles::Json => buffer@.len() > 0 && buffer@[0] == '{',
            StdinFiles::Lines(files) => buffer@.len() > 0 && buffer@[0] != '{' && files@
                == lines_of(buffer@).to_set(),
        },
{
    if buffer.is_empty() {
        return StdinFiles::Missing;
    }
    if buffer.get_char(0) == '{' {
        return StdinFiles::Json;
    }
    let lines = split_lines(buffer);
    let mut files: KeySet<String> = KeySet::new();
    let ghost all = views(lines@);
    let mut i: usize = 0;
    while i < lines.len()
        invariant
            i <= lines@.len(),
            all == views(lines@),
            forall|x: Seq<char>| #[trigger] files@.contains(x) <==> all.take(i as int).contains(x),
        decreases lines.len() - i,
    {
        let ghost taken = all.take(i as int);
        let ghost before = files@;
        files.insert(lines[i].clone());
        proof {
            assert(all.take(i + 1) =~= taken.push(all[i as int]));
            assert forall|x: Seq<char>| #[trigger] files@.contains(x) <==> all.take(i + 1).contains(
                x,
            ) by {
                lemma_seq_contains_after_push(taken, all[i as int], x);
                assert(before.contains(x) <==> taken.contains(x));
            }
        }
        i = i + 1;
    }
    assert(all.take(i as int) =~= all);
    assert(files@ =~= all.to_set());
    StdinFiles::Lines(files)
}

/// The reason why standard input says nothing of other source roots.
pub open spec fn stdin_reason() -> Seq<char> {
    "Changed files supplied through stdin are scoped to the primary source; changed files for this source are unavailable."@
}

/// What standard input says of a source root: the primary one has exactly these files,
/// and of others nothing is known.
pub open spec fn stdin_observation(
    source: Seq<char>,
    primary: Seq<char>,
    files: Set<Seq<char>>,
) -> ObservationView<Seq<char>> {
    if source != primary {
        unknown_changes(stdin_reason())
    } else {
        ObservationView {
            files: Map::new(
                |file: Seq<char>| files.contains(file),
                |file: Seq<char>| seq![ChangedStatus::All],
            ),
            ..no_changes()
        }
    }
}

/// What standard input says of a source root.
pub fn changed_files_observation_from_stdin(
    source_id: &SourceRootId,
    primary_id: &SourceRootId,
    files: &KeySet<String>,
) -> (observation: ChangedFilesObservation<String>)
    ensures
        observation@ == stdin_observation(source_id@, primary_id@, files@),
{
    if !source_id.same_key(primary_id) {
        return ChangedFilesObservation::unavailable(
            "Changed files supplied through stdin are scoped to the primary source; changed files for this source are unavailable.",
        );
    }
    let mut table: Table<String, Vec<ChangedStatus>> = Table::new();
    let n: usize = files.len();
    let ghost keys = files.keys();
    let mut i: usize = 0;
    while i < n
        invariant
            n == files.keys().len(),
            keys == files.keys(),
            i <= n,
            forall|x: Seq<char>| #[trigger]
                table@.dom().contains(x) <==> keys.take(i as int).contains(x),
            forall|x: Seq<char>| #[trigger]
                table@.dom().contains(x) ==> table@[x]@ == seq![ChangedStatus::All],
        decreases n - i,
    {
        let file = files.key_at(i);
        let ghost taken = keys.take(i as int);
        let ghost before = table@;
        let mut statuses: Vec<ChangedStatus> = Vec::new();
        statuses.push(ChangedStatus::All);
        assert(statuses@ =~= seq![ChangedStatus::All]);
        table.insert(file.clone(), statuses);
        proof {
            assert(keys.take(i + 1) =~= taken.push(file@));
            assert forall|x: Seq<char>| #[trigger] table@.dom().contains(x) <==> keys.take(
                i + 1,
            ).contains(x) by {
                lemma_seq_contains_after_push(taken, file@, x);
                assert(before.dom().contains(x) <==> taken.contains(x));
            }
        }
        i = i + 1;
    }
    proof {
        assert(keys.take(i as int) =~= keys);
        let expected = stdin_observation(source_id@, primary_id@, files@).files;
        assert forall|x: Seq<char>| value_views(table@).dom().contains(x)
            <==> expected.dom().contains(x) by {
            assert(files@.contains(x) <==> keys.contains(x));
            assert(table@.dom().contains(x) <==> keys.contains(x));
        }
        assert(value_views(table@) =~= expected);
    }
    ChangedFilesObservation::exact(table)
}

/// Affected checks are disabled only for a single source root without version control.
pub open spec fn disables_affected(
    source_count: nat,
    source: Seq<char>,
    primary: Seq<char>,
    vcs_unavailable: bool,
) -> bool {
    source_count == 1 && source == primary && vcs_unavailable
}

/// Whether affected checks are disabled for want of version control.
pub fn should_use_legacy_affected_fallback(
    source_count: usize,
    source_id: &SourceRootId,
    primary_id: &SourceRootId,
    vcs_unavailable: bool,
) -> (r: bool)
    ensures
        r == disables_affected(source_count as nat, source_id@, primary_id@, vcs_unavailable),
{
    source_count == 1 && source_id.same_key(primary_id) && vcs_unavailable
}

/// What is known of one source root, and whether version control is missing there.
pub struct SourceReportView {
    pub source: Seq<char>,
    pub observation: ObservationView<Seq<char>>,
    pub vcs_unavailable: bool,
}

/// What is known of one source root, and whether version control is missing there.
#[derive(Debug)]
pub struct SourceReport {
    pub source: SourceRootId,
    pub observation: ChangedFilesObservation<String>,
    pub vcs_unavailable: bool,
}

impl View for SourceReport {
    type V = SourceReportView;

    open spec fn view(&self) -> SourceReportView {
        SourceReportView {
            source: self.source@,
            observation: self.observation@,
            vcs_unavailable: self.vcs_unavailable,
        }
    }
}

/// What is known of all source roots.
#[derive(Debug)]
pub struct SourceChangedFilesQuery {
    pub observations: Table<SourceRootId, ChangedFilesObservation<SourcePathBuf>>,
    pub completeness: ImpactCompleteness,
    pub diagnostics: Vec<String>,
    pub legacy_affected_fallback: bool,
}

/// One more source root.
pub open spec fn add_report() -> spec_fn(
    Map<Seq<char>, ObservationView<SourcePathView>>,
    SourceReportView,
) -> Map<Seq<char>, ObservationView<SourcePathView>> {
    |known: Map<Seq<char>, ObservationView<SourcePathView>>, report: SourceReportView|
        known.insert(report.source, qualified(report.source, report.observation))
}

/// The worst of what is known.
pub open spec fn worst_of() -> spec_fn(ImpactCompleteness, SourceReportView) -> ImpactCompleteness {
    |worst: ImpactCompleteness, report: SourceReportView|
        worst.worse_spec(report.observation.completeness)
}

/// A diagnostic with the source root that it is about.
pub open spec fn source_diagnostic(source: Seq<char>, diagnostic: Seq<char>) -> Seq<char> {
    source + ": "@ + diagnostic
}

/// The diagnostics of one source root behind others.
pub open spec fn add_diagnostics() -> spec_fn(Seq<Seq<char>>, SourceReportView) -> Seq<Seq<char>> {
    |known: Seq<Seq<char>>, report: SourceReportView|
        known + report.observation.diagnostics.map_values(
            |diagnostic: Seq<char>| source_diagnostic(report.source, diagnostic),
        )
}

/// Some source root disables affected checks.
pub open spec fn any_disables(reports: Seq<SourceReportView>, primary: Seq<char>, count: nat) -> bool {
    exists|i: int|
        0 <= i < reports.len() && disables_affected(
            count,
            (#[trigger] reports[i]).source,
            primary,
            reports[i].vcs_unavailable,
        )
}

/// Puts together what is known of all source roots.
pub fn combine_reports(primary_id: &SourceRootId, reports: Vec<SourceReport>) -> (query:
    SourceChangedFilesQuery)
    ensures
        value_views(query.observations@) == fold(
            views(reports@),
            Map::empty(),
            add_report(),
        ),
        query.completeness == fold(views(reports@), ImpactCompleteness::Exact, worst_of()),
        views(query.diagnostics@) == arranged::<String>(
            fold(views(reports@), Seq::empty(), add_diagnostics()).to_set(),
        ),
        query.legacy_affected_fallback == any_disables(
            views(reports@),
            primary_id@,
            reports@.len(),
        ),
{
    let ghost all = views(reports@);
    let count: usize = reports.len();
    let mut observations: Table<SourceRootId, ChangedFilesObservation<SourcePathBuf>> = Table::new();
    let mut completeness = ImpactCompleteness::Exact;
    let mut diagnostics: Vec<String> = Vec::new();
    let mut fallback = false;
    proof {
        crate::table::value_views_empty::<Seq<char>, ChangedFilesObservation<SourcePathBuf>>();
        assert(all.take(0) =~= Seq::empty());
        assert(views(diagnostics@) =~= Seq::empty());
    }
    for report in it: reports
        invariant
            it.seq() == reports@,
            all == views(reports@),
            count == reports@.len(),
            value_views(observations@) == fold(
                all.take(it.index() as int),
                Map::empty(),
                add_report(),
            ),
            completeness == fold(
                all.take(it.index() as int),
                ImpactCompleteness::Exact,
                worst_of(),
            ),
            views(diagnostics@) == fold(
                all.take(it.index() as int),
                Seq::empty(),
                add_diagnostics(),
            ),
            fallback == any_disables(
                all.take(it.index() as int),
                primary_id@,
                count as nat,
            ),
    {
        let ghost i = it.index() as int;
        let ghost view = report@;
        let ghost known = views(diagnostics@);
        proof {
            assert(all[i] == report@);
            fold_step(
                all,
                Map::<Seq<char>, ObservationView<SourcePathView>>::empty(),
                add_report(),
                i,
            );
            fold_step(all, ImpactCompleteness::Exact, worst_of(), i);
            fold_step(all, Seq::<Seq<char>>::empty(), add_diagnostics(), i);
            let taken = all.take(i);
            let next = all.take(i + 1);
            if any_disables(taken, primary_id@, count as nat) {
                let j = choose|j: int|
                    0 <= j < taken.len() && disables_affected(
                        count as nat,
                        (#[trigger] taken[j]).source,
                        primary_id@,
                        taken[j].vcs_unavailable,
                    );
                assert(next[j] == taken[j]);
            }
            if disables_affected(count as nat, view.source, primary_id@, view.vcs_unavailable) {
                assert(next[i] == view);
            }
            if any_disables(next, primary_id@, count as nat) && !disables_affected(
                count as nat,
                view.source,
                primary_id@,
                view.vcs_unavailable,
            ) {
                let j = choose|j: int|
                    0 <= j < next.len() && disables_affected(
                        count as nat,
                        (#[trigger] next[j]).source,
                        primary_id@,
                        next[j].vcs_unavailable,
                    );
                assert(taken[j] == next[j]);
            }
        }
        if should_use_legacy_affected_fallback(
            count,
            &report.source,
            primary_id,
            report.vcs_unavailable,
        ) {
            fallback = true;
        }
        completeness = completeness.worse(report.observation.completeness);
        let ghost mapped = view.observation.diagnostics.map_values(
            |diagnostic: Seq<char>| source_diagnostic(view.source, diagnostic),
        );
        let mut j: usize = 0;
        assert(known + mapped.take(0) =~= known);
        while j < report.observation.diagnostics.len()
            invariant
                j <= report.observation.diagnostics@.len(),
                report@ == view,
                mapped == view.observation.diagnostics.map_values(
                    |diagnostic: Seq<char>| source_diagnostic(view.source, diagnostic),
                ),
                views(diagnostics@) == known + mapped.take(j as int),
            decreases report.observation.diagnostics.len() - j,
        {
            diagnostics.push(
                join_two(report.source.as_str(), ": ", report.observation.diagnostics[j].as_str()),
            );
            assert(views(diagnostics@) =~= known + mapped.take(j + 1));
            j = j + 1;
        }
        assert(mapped.take(j as int) =~= mapped);
        let source = report.source.clone();
        observations.insert(
            source,
            qualify_changed_files_observation(&report.source, report.observation),
        );
    }
    proof {
        assert(all.take(all.len() as int) =~= all);
    }
    let diagnostics = sort_distinct(&diagnostics);
    SourceChangedFilesQuery {
        observations,
        completeness,
        diagnostics,
        legacy_affected_fallback: fallback,
    }
}

} // verus!
