//! Which files changed in which source root, and how well that is known.

use crate::order::{total_rank, views, Ranked};
use crate::path::{
    parts_less, parts_less_irreflexive, parts_less_total, parts_less_transitive,
    relative_components, RelativePath,
};
use crate::source::{SourcePathBuf, SourcePathView, SourceRootId};
use crate::table::{value_views, Key, Table};
use crate::text::{
    text_before, text_less, text_less_irreflexive, text_less_total,
    text_less_transitive,
};
use vstd::prelude::*;
use vstd::seq_lib::lemma_seq_contains_after_push;

verus! {

broadcast use {crate::order::group_views, crate::table::value_views_insert};

/// How a file changed.
#[derive(Clone, Copy, PartialEq, Eq, Structural, Debug, Hash)]
pub enum ChangedStatus {
    Added,
    All,
    Deleted,
    Modified,
    Staged,
    Unstaged,
    Untracked,
}

/// How well the changes are known, the best first.
#[derive(Clone, Copy, PartialEq, Eq, Structural, Debug, Hash)]
pub enum ImpactCompleteness {
    /// All changes are known, and nothing else.
    Exact,
    /// All changes are known, and maybe more.
    Conservative,
    /// The changes are not known.
    Unavailable,
}

impl ImpactCompleteness {
    /// The worse of two.
    pub open spec fn worse_spec(self, other: Self) -> Self {
        if self == ImpactCompleteness::Unavailable || other == ImpactCompleteness::Unavailable {
            ImpactCompleteness::Unavailable
        } else if self == ImpactCompleteness::Conservative || other
            == ImpactCompleteness::Conservative {
            ImpactCompleteness::Conservative
        } else {
            ImpactCompleteness::Exact
        }
    }

    /// The worse of two.
    pub fn worse(self, other: Self) -> (worse: Self)
        ensures
            worse == self.worse_spec(other),
    {
        if self == ImpactCompleteness::Unavailable || other == ImpactCompleteness::Unavailable {
            ImpactCompleteness::Unavailable
        } else if self == ImpactCompleteness::Conservative || other
            == ImpactCompleteness::Conservative {
            ImpactCompleteness::Conservative
        } else {
            ImpactCompleteness::Exact
        }
    }
}

/// Paths are ordered by their components, and as text where these are the same.
pub open spec fn path_text_less(a: Seq<char>, b: Seq<char>) -> bool {
    let (x, y) = (relative_components(a), relative_components(b));
    parts_less(x, y) || (x == y && text_less(a, b))
}

/// The order on paths is transitive.
proof fn path_text_less_transitive(a: Seq<char>, b: Seq<char>, c: Seq<char>)
    requires
        path_text_less(a, b),
        path_text_less(b, c),
    ensures
        path_text_less(a, c),
{
    let (x, y, z) = (relative_components(a), relative_components(b), relative_components(c));
    if parts_less(x, y) && parts_less(y, z) {
        parts_less_transitive(x, y, z);
    } else if x == y && y == z {
        if text_less(a, b) && text_less(b, c) {
            text_less_transitive(a, b, c);
        }
        parts_less_irreflexive(x);
    }
}

/// Files of source roots are ordered by source root, then by path.
pub open spec fn source_path_less(a: SourcePathView, b: SourcePathView) -> bool {
    text_less(a.source, b.source) || (a.source == b.source && path_text_less(a.path, b.path))
}

/// The order on files is transitive.
proof fn source_path_less_transitive(a: SourcePathView, b: SourcePathView, c: SourcePathView)
    requires
        source_path_less(a, b),
        source_path_less(b, c),
    ensures
        source_path_less(a, c),
{
    text_less_irreflexive(a.source);
    if text_less(a.source, b.source) && text_less(b.source, c.source) {
        text_less_transitive(a.source, b.source, c.source);
    } else if a.source == b.source && b.source == c.source {
        path_text_less_transitive(a.path, b.path, c.path);
    }
}

/// Two files are the same or one precedes the other.
pub proof fn source_path_less_total(a: SourcePathView, b: SourcePathView)
    ensures
        source_path_less(a, b) || a == b || source_path_less(b, a),
{
    text_less_total(a.source, b.source);
    text_less_total(a.path, b.path);
    parts_less_total(relative_components(a.path), relative_components(b.path));
}

/// Any two files are ordered.
pub proof fn source_paths_rank()
    ensures
        total_rank::<SourcePathBuf>(),
{
    assert forall|a: SourcePathView, b: SourcePathView|
        a != b implies #[trigger] SourcePathBuf::before(a, b) || SourcePathBuf::before(b, a) by {
        source_path_less_total(a, b);
    }
}

impl Ranked for SourcePathBuf {
    open spec fn before(a: SourcePathView, b: SourcePathView) -> bool {
        source_path_less(a, b)
    }

    proof fn before_irreflexive(a: SourcePathView) {
        text_less_irreflexive(a.source);
        text_less_irreflexive(a.path);
        parts_less_irreflexive(relative_components(a.path));
    }

    proof fn before_transitive(a: SourcePathView, b: SourcePathView, c: SourcePathView) {
        source_path_less_transitive(a, b, c);
    }

    proof fn before_total(a: SourcePathView, b: SourcePathView, c: SourcePathView) {
        source_path_less_total(a, c);
        if source_path_less(c, a) {
            source_path_less_transitive(c, a, b);
        }
    }

    fn is_before(&self, other: &Self) -> bool {
        if text_before(self.source.as_str(), other.source.as_str()) {
            return true;
        }
        if !self.source.same_key(&other.source) {
            return false;
        }
        let here = RelativePath::parse(self.path.as_str());
        let there = RelativePath::parse(other.path.as_str());
        here.precedes(&there) || (here.same_as(&there) && text_before(
            self.path.as_str(),
            other.path.as_str(),
        ))
    }
}

/// What is known of the changes: the files with how they changed, how well they are
/// known, and why.
#[verifier::reject_recursive_types(P)]
pub struct ObservationView<P> {
    pub files: Map<P, Seq<ChangedStatus>>,
    pub completeness: ImpactCompleteness,
    pub diagnostics: Seq<Seq<char>>,
}

/// What is known of the changes: the files with how they changed, how well they are
/// known, and why.
#[derive(Debug)]
pub struct ChangedFilesObservation<P: Key> {
    pub files: Table<P, Vec<ChangedStatus>>,
    pub completeness: ImpactCompleteness,
    pub diagnostics: Vec<String>,
}

impl<P: Key> View for ChangedFilesObservation<P> {
    type V = ObservationView<P::V>;

    open spec fn view(&self) -> ObservationView<P::V> {
        ObservationView {
            files: value_views(self.files@),
            completeness: self.completeness,
            diagnostics: views(self.diagnostics@),
        }
    }
}

/// No changes.
pub open spec fn no_changes<P>() -> ObservationView<P> {
    ObservationView {
        files: Map::empty(),
        completeness: ImpactCompleteness::Exact,
        diagnostics: Seq::empty(),
    }
}

/// Changes that are not known, and why.
pub open spec fn unknown_changes<P>(reason: Seq<char>) -> ObservationView<P> {
    ObservationView {
        files: Map::empty(),
        completeness: ImpactCompleteness::Unavailable,
        diagnostics: seq![reason],
    }
}

/// How a file changed; a file that is not known did not.
pub open spec fn statuses_of<P>(files: Map<P, Seq<ChangedStatus>>, file: P) -> Seq<ChangedStatus> {
    if files.dom().contains(file) {
        files[file]
    } else {
        Seq::empty()
    }
}

/// The changes of both.
pub open spec fn merged_files<P>(
    a: Map<P, Seq<ChangedStatus>>,
    b: Map<P, Seq<ChangedStatus>>,
) -> Map<P, Seq<ChangedStatus>> {
    Map::new(
        |file: P| a.dom().contains(file) || b.dom().contains(file),
        |file: P| statuses_of(a, file) + statuses_of(b, file),
    )
}

/// What two observations say together.
pub open spec fn merged<P>(a: ObservationView<P>, b: ObservationView<P>) -> ObservationView<P> {
    ObservationView {
        files: merged_files(a.files, b.files),
        completeness: a.completeness.worse_spec(b.completeness),
        diagnostics: a.diagnostics + b.diagnostics,
    }
}

/// Copies of statuses.
fn copy_statuses(items: &Vec<ChangedStatus>) -> (copies: Vec<ChangedStatus>)
    ensures
        copies@ == items@,
{
    let mut copies: Vec<ChangedStatus> = Vec::new();
    let mut i: usize = 0;
    while i < items.len()
        invariant
            i <= items@.len(),
            copies@ == items@.take(i as int),
        decreases items.len() - i,
    {
        copies.push(items[i]);
        assert(copies@ =~= items@.take(i + 1));
        i = i + 1;
    }
    assert(items@.take(i as int) =~= items@);
    copies
}

/// Whether a status is among others.
pub fn contains_status(items: &Vec<ChangedStatus>, status: ChangedStatus) -> (found: bool)
    ensures
        found == items@.contains(status),
{
    let mut i: usize = 0;
    while i < items.len()
        invariant
            i <= items@.len(),
            forall|j: int| 0 <= j < i ==> items@[j] != status,
        decreases items.len() - i,
    {
        if items[i] == status {
            return true;
        }
        i = i + 1;
    }
    false
}

impl<P: Key> ChangedFilesObservation<P> {
    /// No changes.
    pub fn none() -> (observation: Self)
        ensures
            observation@ == no_changes::<P::V>(),
            observation.files.keys() == Seq::<P::V>::empty(),
    {
        proof {
            crate::table::value_views_empty::<P::V, Vec<ChangedStatus>>();
        }
        let observation = ChangedFilesObservation {
            files: Table::new(),
            completeness: ImpactCompleteness::Exact,
            diagnostics: Vec::new(),
        };
        assert(observation@.diagnostics =~= Seq::empty());
        observation
    }

    /// Changes that are all known.
    pub fn exact(files: Table<P, Vec<ChangedStatus>>) -> (observation: Self)
        ensures
            observation@ == (ObservationView { files: value_views(files@), ..no_changes::<P::V>() }),
    {
        let mut observation = ChangedFilesObservation::none();
        observation.files = files;
        observation
    }

    /// Changes that are not known.
    pub fn unavailable(reason: &str) -> (observation: Self)
        ensures
            observation@ == unknown_changes::<P::V>(reason@),
    {
        let mut observation = ChangedFilesObservation::none();
        observation.completeness = ImpactCompleteness::Unavailable;
        observation.diagnostics.push(reason.to_owned());
        assert(observation@.diagnostics =~= seq![reason@]);
        observation
    }

    /// Adds the changes of another observation.
    pub fn merge(&mut self, other: &ChangedFilesObservation<P>)
        ensures
            final(self)@ == merged(old(self)@, other@),
    {
        let ghost a = self@;
        let ghost b = other@;
        let n: usize = other.files.len();
        let ghost keys = other.files.keys();
        let mut i: usize = 0;
        assert(self@.files =~= merged_files(a.files, b.files.restrict(keys.take(0).to_set())));
        while i < n
            invariant
                n == other.files.keys().len(),
                keys == other.files.keys(),
                keys.no_duplicates(),
                b == other@,
                i <= n,
                self.completeness == a.completeness,
                views(self.diagnostics@) == a.diagnostics,
                self@.files == merged_files(
                    a.files,
                    b.files.restrict(keys.take(i as int).to_set()),
                ),
            decreases n - i,
        {
            let file = other.files.key_at(i);
            let added = other.files.value_at(i);
            let ghost taken = keys.take(i as int);
            let ghost before = self@.files;
            proof {
                assert(!taken.contains(file@)) by {
                    if taken.contains(file@) {
                        let j = choose|j: int| 0 <= j < taken.len() && taken[j] == file@;
                        assert(keys[j] == keys[i as int]);
                    }
                }
            }
            let mut statuses = match self.files.get(file) {
                Some(known) => copy_statuses(known),
                None => Vec::new(),
            };
            proof {
                let less = b.files.restrict(taken.to_set());
                assert(!less.dom().contains(file@));
                assert(statuses_of(less, file@) =~= Seq::empty());
                assert(before.dom().contains(file@) == a.files.dom().contains(file@));
                if before.dom().contains(file@) {
                    assert(before[file@] == statuses_of(a.files, file@) + statuses_of(less, file@));
                }
                assert(statuses@ =~= statuses_of(a.files, file@));
            }
            let mut j: usize = 0;
            let ghost start = statuses@;
            assert(start + added@.take(0) =~= start);
            while j < added.len()
                invariant
                    j <= added@.len(),
                    statuses@ == start + added@.take(j as int),
                decreases added.len() - j,
            {
                statuses.push(added[j]);
                assert(statuses@ =~= start + added@.take(j + 1));
                j = j + 1;
            }
            assert(added@.take(j as int) =~= added@);
            self.files.insert(file.copy_key(), statuses);
            proof {
                let next = keys.take(i + 1);
                assert(next =~= taken.push(file@));
                let less = b.files.restrict(taken.to_set());
                let more = b.files.restrict(next.to_set());
                assert forall|x: P::V| #[trigger] next.contains(x) <==> taken.contains(x) || x
                    == file@ by {
                    lemma_seq_contains_after_push(taken, file@, x);
                }
                assert(more =~= less.insert(file@, added@));
                assert(self@.files =~= merged_files(a.files, more));
            }
            i = i + 1;
        }
        proof {
            assert(keys.take(i as int) =~= keys);
            assert forall|x: P::V| b.files.dom().contains(x) implies keys.to_set().contains(x) by {
                assert(other.files@.dom().contains(x));
                assert(keys.contains(x));
            }
            assert(b.files.restrict(keys.to_set()) =~= b.files);
        }
        self.completeness = self.completeness.worse(other.completeness);
        let mut k: usize = 0;
        let ghost known = views(self.diagnostics@);
        assert(known + views(other.diagnostics@).take(0) =~= known);
        while k < other.diagnostics.len()
            invariant
                k <= other.diagnostics@.len(),
                known == a.diagnostics,
                self@.files == merged_files(a.files, b.files),
                self.completeness == a.completeness.worse_spec(b.completeness),
                views(self.diagnostics@) == known + views(other.diagnostics@).take(k as int),
            decreases other.diagnostics.len() - k,
        {
            self.diagnostics.push(other.diagnostics[k].clone());
            assert(views(self.diagnostics@) =~= known + views(other.diagnostics@).take(k + 1));
            k = k + 1;
        }
        assert(views(other.diagnostics@).take(k as int) =~= views(other.diagnostics@));
    }
}

/// The files below a source root.
pub open spec fn qualified_files(
    source: Seq<char>,
    files: Map<Seq<char>, Seq<ChangedStatus>>,
) -> Map<SourcePathView, Seq<ChangedStatus>> {
    Map::new(
        |file: SourcePathView| file.source == source && files.dom().contains(file.path),
        |file: SourcePathView| files[file.path],
    )
}

/// An observation of the files below a source root.
pub open spec fn qualified(source: Seq<char>, observation: ObservationView<Seq<char>>) -> ObservationView<
    SourcePathView,
> {
    ObservationView {
        files: qualified_files(source, observation.files),
        completeness: observation.completeness,
        diagnostics: observation.diagnostics,
    }
}

/// Says of every file which source root it is below.
pub fn qualify_changed_files_observation(
    source_id: &SourceRootId,
    observation: ChangedFilesObservation<String>,
) -> (out: ChangedFilesObservation<SourcePathBuf>)
    ensures
        out@ == qualified(source_id@, observation@),
{
    let mut files: Table<SourcePathBuf, Vec<ChangedStatus>> = Table::new();
    let n: usize = observation.files.len();
    let ghost keys = observation.files.keys();
    let ghost all = observation@.files;
    let mut i: usize = 0;
    while i < n
        invariant
            n == observation.files.keys().len(),
            keys == observation.files.keys(),
            all == value_views(observation.files@),
            i <= n,
            forall|file: SourcePathView| #[trigger]
                files@.dom().contains(file) <==> file.source == source_id@ && keys.take(
                    i as int,
                ).contains(file.path),
            forall|file: SourcePathView| #[trigger]
                files@.dom().contains(file) ==> files@[file]@ == all[file.path],
        decreases n - i,
    {
        let path = observation.files.key_at(i);
        let statuses = observation.files.value_at(i);
        let ghost taken = keys.take(i as int);
        let ghost before = files@;
        let file = SourcePathBuf::new(source_id.clone(), path.as_str());
        let ghost view = file@;
        files.insert(file, copy_statuses(statuses));
        proof {
            assert(keys.take(i + 1) =~= taken.push(path@));
            assert forall|x: SourcePathView| #[trigger] files@.dom().contains(x) <==> x.source
                == source_id@ && keys.take(i + 1).contains(x.path) by {
                lemma_seq_contains_after_push(taken, path@, x.path);
                assert(before.dom().contains(x) <==> x.source == source_id@ && taken.contains(
                    x.path,
                ));
                if x.source == source_id@ && x.path == path@ {
                    assert(x == view);
                }
            }
        }
        i = i + 1;
    }
    proof {
        assert(keys.take(i as int) =~= keys);
        let expected = qualified_files(source_id@, all);
        assert forall|x: SourcePathView| value_views(files@).dom().contains(x)
            <==> expected.dom().contains(x) by {
            assert(observation.files@.dom().contains(x.path) <==> keys.contains(x.path));
            assert(files@.dom().contains(x) <==> x.source == source_id@ && keys.contains(x.path));
        }
        assert(value_views(files@) =~= expected);
    }
    ChangedFilesObservation {
        files,
        completeness: observation.completeness,
        diagnostics: observation.diagnostics,
    }
}

} // verus!
