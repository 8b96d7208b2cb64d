//! Which changes of files matter, and to which source root they belong.

use crate::order::{ranked, sort_ranked, views, Ranked};
use crate::path::{
    clean_path, current_part, is_absolute_path, is_name, parent_part, parts_less, parts_less_irreflexive, parts_less_total,
    parts_less_transitive, LogicalPath,
};
use crate::source::{
    owner_is_unique, owns_path, qualifies, RegistryView, SourcePathView, SourceRegistry,
    SourceRegistryError, SourceRootId,
};
use crate::text::{contains_text, has_text, occurs_at, same_text};
use vstd::prelude::*;

verus! {

broadcast use crate::order::group_views;

/// What is removed.
#[derive(Clone, Copy, PartialEq, Eq, Structural, Debug)]
pub enum RemoveKind {
    Any,
    File,
    Folder,
    Other,
}

/// What is created.
#[derive(Clone, Copy, PartialEq, Eq, Structural, Debug)]
pub enum CreateKind {
    Any,
    File,
    Folder,
    Other,
}

/// Which side of a rename is reported.
#[derive(Clone, Copy, PartialEq, Eq, Structural, Debug)]
pub enum RenameMode {
    Any,
    To,
    From,
    Both,
    Other,
}

/// What is modified.
#[derive(Clone, Copy, PartialEq, Eq, Structural, Debug)]
pub enum ModifyKind {
    Any,
    Data,
    Metadata,
    Name(RenameMode),
    Other,
}

/// What happened to a path.
#[derive(Clone, Copy, PartialEq, Eq, Structural, Debug)]
pub enum EventKind {
    Any,
    Access,
    Create(CreateKind),
    Modify(ModifyKind),
    Remove(RemoveKind),
    Other,
}

/// Something happened to a path of a source root.
#[derive(Debug)]
pub struct FileEvent {
    pub source_id: SourceRootId,
    pub path_original: LogicalPath,
    pub path: String,
    pub kind: EventKind,
}

/// Something was created, modified or removed.
pub open spec fn is_mutation(kind: EventKind) -> bool {
    kind is Create || kind is Modify || kind is Remove
}

/// A directory was created, renamed or removed.
pub open spec fn is_directory_mutation(kind: EventKind) -> bool {
    kind == EventKind::Create(CreateKind::Folder) || kind == EventKind::Remove(RemoveKind::Folder)
        || (kind is Modify && kind->Modify_0 is Name)
}

/// A source root itself was removed or renamed.
pub open spec fn is_root_gone(path: Seq<char>, kind: EventKind) -> bool {
    path.len() == 0 && (kind is Remove || (kind is Modify && kind->Modify_0 is Name))
}

impl FileEvent {
    /// Whether something was created, modified or removed.
    pub fn is_mutated(&self) -> (r: bool)
        ensures
            r == is_mutation(self.kind),
    {
        match self.kind {
            EventKind::Create(_) | EventKind::Modify(_) | EventKind::Remove(_) => true,
            _ => false,
        }
    }

    /// Whether a directory was created, renamed or removed.
    pub fn is_mutated_directory(&self) -> (r: bool)
        ensures
            r == is_directory_mutation(self.kind),
    {
        match self.kind {
            EventKind::Create(CreateKind::Folder) => true,
            EventKind::Remove(RemoveKind::Folder) => true,
            EventKind::Modify(ModifyKind::Name(_)) => true,
            _ => false,
        }
    }

    /// Whether a source root itself was removed or renamed.
    pub fn is_source_root_removed_or_renamed(&self) -> (r: bool)
        ensures
            r == is_root_gone(self.path@, self.kind),
    {
        self.path.as_str().is_empty() && match self.kind {
            EventKind::Remove(_) => true,
            EventKind::Modify(ModifyKind::Name(_)) => true,
            _ => false,
        }
    }
}

/// The parts of a path that are names.
pub open spec fn names_in(parts: Seq<Seq<char>>) -> Seq<Seq<char>>
    decreases parts.len(),
{
    if parts.len() == 0 {
        parts
    } else if is_name(parts.last()) {
        names_in(parts.drop_last()).push(parts.last())
    } else {
        names_in(parts.drop_last())
    }
}

/// A directory that is never watched.
pub open spec fn is_ignored_name(name: Seq<char>) -> bool {
    name == ".git"@ || name == ".svn"@ || name == "node_modules"@
}

/// A directory in another that is never watched.
pub open spec fn is_ignored_pair(outer: Seq<char>, inner: Seq<char>) -> bool {
    outer == ".moon"@ && (inner == "cache"@ || inner == "docker"@)
}

/// A path that is never watched: one with such a directory anywhere in it.
pub open spec fn is_ignored_path(parts: Seq<Seq<char>>) -> bool {
    let names = names_in(parts);
    ||| exists|i: int| 0 <= i < names.len() && is_ignored_name(#[trigger] names[i])
    ||| exists|i: int, j: int|
        0 <= i < names.len() && j == i + 1 && j < names.len() && is_ignored_pair(
            #[trigger] names[i],
            #[trigger] names[j],
        )
}

fn list_names(path: &LogicalPath) -> (names: Vec<String>)
    ensures
        views(names@) == names_in(path@),
{
    let ghost all = path@;
    let n = path.count();
    let mut names: Vec<String> = Vec::new();
    let mut i: usize = 0;
    proof {
        assert(all.take(0) =~= Seq::empty());
        assert(views(names@) =~= Seq::empty());
    }
    while i < n
        invariant
            i <= n,
            all == path@,
            n == all.len(),
            views(names@) == names_in(all.take(i as int)),
        decreases n - i,
    {
        proof {
            assert(all.take(i + 1).drop_last() =~= all.take(i as int));
            assert(all.take(i + 1).last() == all[i as int]);
        }
        let part = path.part(i);
        if is_name_text(part) {
            names.push(part.to_owned());
        }
        i = i + 1;
    }
    assert(all.take(i as int) =~= all);
    names
}

fn is_name_text(part: &str) -> (r: bool)
    ensures
        r == is_name(part@),
{
    proof {
        reveal_strlit("/");
        reveal_strlit(".");
        reveal_strlit("..");
        assert("."@ =~= current_part());
        assert(".."@ =~= parent_part());
        if has_text(part@, "/"@) {
            let i = choose|i: int| occurs_at(part@, "/"@, i);
            assert(part@.subrange(i, i + 1)[0] == '/');
            assert(part@[i] == '/');
        }
        if part@.contains('/') {
            let i = choose|i: int| 0 <= i < part@.len() && part@[i] == '/';
            assert(part@.subrange(i, i + 1) =~= "/"@);
            assert(occurs_at(part@, "/"@, i));
        }
    }
    !part.is_empty() && !same_text(part, ".") && !same_text(part, "..") && !contains_text(part, "/")
}

/// Whether a path is never watched.
pub fn is_ignored(path: &LogicalPath) -> (r: bool)
    ensures
        r == is_ignored_path(path@),
{
    let names = list_names(path);
    let ghost all = views(names@);
    let mut i: usize = 0;
    while i < names.len()
        invariant
            i <= names@.len(),
            all == views(names@),
            all == names_in(path@),
            forall|j: int| 0 <= j < i ==> !is_ignored_name(#[trigger] all[j]),
        decreases names.len() - i,
    {
        let name = names[i].as_str();
        assert(all[i as int] == name@);
        if same_text(name, ".git") || same_text(name, ".svn") || same_text(name, "node_modules") {
            return true;
        }
        i = i + 1;
    }
    let mut k: usize = 1;
    while k < names.len()
        invariant
            1 <= k,
            all == views(names@),
            all == names_in(path@),
            forall|a: int, b: int|
                0 <= a < all.len() && b == a + 1 && b < k && b < all.len() ==> !is_ignored_pair(
                    #[trigger] all[a],
                    #[trigger] all[b],
                ),
        decreases names.len() - k,
    {
        let outer = names[k - 1].as_str();
        let inner = names[k].as_str();
        assert(all[k - 1] == outer@);
        assert(all[k as int] == inner@);
        if same_text(outer, ".moon") && (same_text(inner, "cache") || same_text(inner, "docker")) {
            assert(is_ignored_pair(all[k - 1], all[k as int]));
            return true;
        }
        k = k + 1;
    }
    false
}

/// A path belongs to a source root.
pub open spec fn belongs(registry: RegistryView, path: Seq<Seq<char>>) -> bool {
    exists|owned: SourcePathView| #[trigger] qualifies(registry, path, owned)
}

/// What happened to a path, where it is watched and belongs to a source root.
pub fn create_file_event(sources: &SourceRegistry, path: &LogicalPath, kind: EventKind) -> (event:
    Option<FileEvent>)
    ensures
        match event {
            Some(event) => {
                &&& !is_ignored_path(path@)
                &&& qualifies(
                    sources@,
                    path@,
                    SourcePathView { source: event.source_id@, path: event.path@ },
                )
                &&& event.path_original@ == path@
                &&& event.kind == kind
            },
            None => is_ignored_path(path@) || !belongs(sources@, path@),
        },
{
    if is_ignored(path) {
        return None;
    }
    let _ = sources.primary_id();
    match sources.qualify(path) {
        Ok(owned) => {
            assert(qualifies(
                sources@,
                path@,
                SourcePathView { source: owned.source@, path: owned.path@ },
            ));
            Some(
                FileEvent {
                    source_id: owned.source,
                    path_original: path.clone(),
                    path: owned.path,
                    kind,
                },
            )
        },
        Err(error) => {
            proof {
                assert forall|owned: SourcePathView| !#[trigger] qualifies(
                    sources@,
                    path@,
                    owned,
                ) by {
                    if qualifies(sources@, path@, owned) {
                        assert(owns_path(sources@, owned.source, clean_path(path@)));
                        match error {
                            SourceRegistryError::UnqualifiedPath { path: unknown } => {},
                            SourceRegistryError::NonRelativePath { path: outside } => {
                                let id = choose|id: Seq<char>|
                                    #[trigger] owns_path(sources@, id, outside@)
                                        && is_absolute_path(
                                        outside@.skip(sources@.roots[id].len() as int),
                                    );
                                owner_is_unique(sources@, clean_path(path@), id, owned.source);
                            },
                            _ => {},
                        }
                    }
                }
            }
            None
        },
    }
}

/// A directory that is watched with all that is in it.
#[derive(Debug)]
pub struct WatchRoot {
    pub path: LogicalPath,
}

impl View for WatchRoot {
    type V = Seq<Seq<char>>;

    open spec fn view(&self) -> Seq<Seq<char>> {
        self.path@
    }
}

/// Shorter paths come first.
pub open spec fn shorter(a: Seq<Seq<char>>, b: Seq<Seq<char>>) -> bool {
    a.len() < b.len() || (a.len() == b.len() && parts_less(a, b))
}

impl Ranked for WatchRoot {
    open spec fn before(a: Seq<Seq<char>>, b: Seq<Seq<char>>) -> bool {
        shorter(a, b)
    }

    proof fn before_irreflexive(a: Seq<Seq<char>>) {
        parts_less_irreflexive(a);
    }

    proof fn before_transitive(a: Seq<Seq<char>>, b: Seq<Seq<char>>, c: Seq<Seq<char>>) {
        if a.len() == b.len() && b.len() == c.len() {
            parts_less_transitive(a, b, c);
        }
    }

    proof fn before_total(a: Seq<Seq<char>>, b: Seq<Seq<char>>, c: Seq<Seq<char>>) {
        parts_less_total(a, c);
        parts_less_total(c, b);
        if a.len() == b.len() && b.len() == c.len() {
            if !parts_less(a, c) && !parts_less(c, b) {
                if parts_less(c, a) {
                    parts_less_transitive(c, a, b);
                }
            }
        }
    }

    fn is_before(&self, other: &Self) -> bool {
        root_before(&self.path, &other.path)
    }
}

fn root_before(a: &LogicalPath, b: &LogicalPath) -> (before: bool)
    ensures
        before == shorter(a@, b@),
{
    let m = a.count();
    let n = b.count();
    m < n || (m == n && crate::path::path_before(a, b))
}

/// A directory is watched already, or one around it is.
pub open spec fn is_covered(watched: Seq<Seq<Seq<char>>>, root: Seq<Seq<char>>) -> bool {
    exists|i: int| 0 <= i < watched.len() && (#[trigger] watched[i]).is_prefix_of(root)
}

/// The directories among some that no earlier one covers.
pub open spec fn uncovered(roots: Seq<Seq<Seq<char>>>) -> Seq<Seq<Seq<char>>>
    decreases roots.len(),
{
    if roots.len() == 0 {
        roots
    } else {
        let rest = uncovered(roots.drop_last());
        if is_covered(rest, roots.last()) {
            rest
        } else {
            rest.push(roots.last())
        }
    }
}

/// The roots of all source roots, in the order in which they were registered.
pub open spec fn roots_of(sources: SourceRegistry) -> Seq<Seq<Seq<char>>> {
    sources.ids().map_values(|id: Seq<char>| sources@.roots[id])
}

fn covers(watched: &Vec<LogicalPath>, root: &LogicalPath) -> (r: bool)
    ensures
        r == is_covered(views(watched@), root@),
{
    let ghost all = views(watched@);
    let mut i: usize = 0;
    while i < watched.len()
        invariant
            i <= watched@.len(),
            all == views(watched@),
            forall|j: int| 0 <= j < i ==> !(#[trigger] all[j]).is_prefix_of(root@),
        decreases watched.len() - i,
    {
        assert(all[i as int] == watched@[i as int]@);
        if root.starts_with(&watched[i]) {
            return true;
        }
        i = i + 1;
    }
    false
}

/// The directories to watch: the roots of all source roots, but for those inside others.
pub fn get_watch_roots(sources: &SourceRegistry) -> (watched: Vec<LogicalPath>)
    ensures
        views(watched@) == uncovered(ranked::<WatchRoot>(roots_of(*sources))),
{
    let n = sources.len();
    let ghost all = roots_of(*sources);
    let mut roots: Vec<WatchRoot> = Vec::new();
    let mut i: usize = 0;
    while i < n
        invariant
            i <= n,
            n == sources.ids().len(),
            all == roots_of(*sources),
            views(roots@) =~= all.take(i as int),
        decreases n - i,
    {
        roots.push(WatchRoot { path: sources.root_at(i).clone() });
        i = i + 1;
    }
    assert(all.take(i as int) =~= all);
    let sorted = sort_ranked(roots);
    let ghost list = views(sorted@);
    let mut watched: Vec<LogicalPath> = Vec::new();
    let mut j: usize = 0;
    proof {
        assert(list.take(0) =~= Seq::empty());
        assert(views(watched@) =~= Seq::empty());
    }
    while j < sorted.len()
        invariant
            j <= sorted@.len(),
            list == views(sorted@),
            views(watched@) == uncovered(list.take(j as int)),
        decreases sorted.len() - j,
    {
        proof {
            assert(list.take(j + 1).drop_last() =~= list.take(j as int));
            assert(list.take(j + 1).last() == sorted@[j as int]@);
        }
        if !covers(&watched, &sorted[j].path) {
            watched.push(sorted[j].path.clone());
        }
        j = j + 1;
    }
    assert(list.take(j as int) =~= list);
    watched
}

/// Every directory among some is watched, by itself or with one around it.
pub proof fn watching_misses_nothing(roots: Seq<Seq<Seq<char>>>, root: Seq<Seq<char>>)
    requires
        roots.contains(root),
    ensures
        is_covered(uncovered(roots), root),
    decreases roots.len(),
{
    let rest = uncovered(roots.drop_last());
    let at = choose|at: int| 0 <= at < roots.len() && roots[at] == root;
    if at < roots.len() - 1 {
        assert(roots.drop_last()[at] == root);
        watching_misses_nothing(roots.drop_last(), root);
        let i = choose|i: int| 0 <= i < rest.len() && (#[trigger] rest[i]).is_prefix_of(root);
        assert(uncovered(roots)[i] == rest[i]);
    } else if !is_covered(rest, roots.last()) {
        assert(uncovered(roots)[rest.len() as int] == root);
    }
}

/// Watching starts with the shortest paths, so no directory is watched twice.
pub proof fn watching_repeats_nothing(roots: Seq<Seq<Seq<char>>>, i: int, j: int)
    requires
        crate::order::in_order::<WatchRoot>(roots),
        roots.no_duplicates(),
        0 <= i < uncovered(roots).len(),
        0 <= j < uncovered(roots).len(),
        uncovered(roots)[i].is_prefix_of(uncovered(roots)[j]),
    ensures
        i == j,
    decreases roots.len(),
{
    let rest = uncovered(roots.drop_last());
    let last = roots.last();
    assert forall|a: int, b: int| 0 <= a < b < roots.drop_last().len() implies !WatchRoot::before(
        roots.drop_last()[b],
        roots.drop_last()[a],
    ) by {
        assert(!WatchRoot::before(roots[b], roots[a]));
    }
    assert(roots.drop_last().no_duplicates());
    if i < rest.len() && j < rest.len() {
        assert(uncovered(roots)[i] == rest[i]);
        assert(uncovered(roots)[j] == rest[j]);
        watching_repeats_nothing(roots.drop_last(), i, j);
    } else if i < rest.len() {
        assert(uncovered(roots)[i] == rest[i]);
        assert(is_covered(rest, last));
    } else if j < rest.len() {
        assert(uncovered(roots)[j] == rest[j]);
        assert(uncovered(roots)[i] == last);
        uncovered_from(roots.drop_last(), j);
        let k = choose|k: int| 0 <= k < roots.drop_last().len() && roots.drop_last()[k] == rest[j];
        assert(roots[k] == rest[j]);
        assert(roots[roots.len() - 1] == last);
        assert(!WatchRoot::before(last, roots[k]));
        assert(last.len() <= rest[j].len());
        if last.len() == rest[j].len() {
            assert(last =~= rest[j]);
        }
    }
}

/// What is watched is one of the directories.
proof fn uncovered_from(roots: Seq<Seq<Seq<char>>>, i: int)
    requires
        0 <= i < uncovered(roots).len(),
    ensures
        roots.contains(uncovered(roots)[i]),
    decreases roots.len(),
{
    let rest = uncovered(roots.drop_last());
    if i < rest.len() {
        uncovered_from(roots.drop_last(), i);
        let k = choose|k: int| 0 <= k < roots.drop_last().len() && roots.drop_last()[k] == rest[i];
        assert(roots[k] == rest[i]);
    } else {
        assert(roots[roots.len() - 1] == roots.last());
    }
}

} // verus!
