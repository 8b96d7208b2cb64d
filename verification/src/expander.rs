//! Expansion of projects: aliases are replaced by the projects that they name.

use crate::config::{DependencyView, Project, ProjectDependencyConfig, ProjectView};
use crate::keys::{ProjectKey, ProjectKeyView};
use crate::order::{ranked, sort_ranked, views, Ranked};
use crate::source::SourceRootId;
use crate::table::{Key, Table};
use crate::text::{
    text_before, text_less, text_less_irreflexive, text_less_total, text_less_transitive,
};
use vstd::prelude::*;

verus! {

broadcast use crate::order::group_views;

/// Dependencies are ordered by source root, then by project.
pub open spec fn dependency_less(a: DependencyView, b: DependencyView) -> bool {
    let x = root_text(a);
    let y = root_text(b);
    text_less(x, y) || (x == y && text_less(a.id, b.id))
}

/// The source root that a dependency names.
pub open spec fn root_text(dependency: DependencyView) -> Seq<char> {
    match dependency.source_root {
        Some(root) => root,
        None => Seq::empty(),
    }
}

/// The order on dependencies is transitive.
proof fn dependency_less_transitive(a: DependencyView, b: DependencyView, c: DependencyView)
    requires
        dependency_less(a, b),
        dependency_less(b, c),
    ensures
        dependency_less(a, c),
{
    let x = root_text(a);
    let y = root_text(b);
    let z = root_text(c);
    if text_less(x, y) && text_less(y, z) {
        text_less_transitive(x, y, z);
    } else if x == y && y == z {
        text_less_irreflexive(x);
        text_less_transitive(a.id, b.id, c.id);
    }
}

impl Ranked for ProjectDependencyConfig {
    open spec fn before(a: DependencyView, b: DependencyView) -> bool {
        dependency_less(a, b)
    }

    proof fn before_irreflexive(a: DependencyView) {
        text_less_irreflexive(root_text(a));
        text_less_irreflexive(a.id);
    }

    proof fn before_transitive(a: DependencyView, b: DependencyView, c: DependencyView) {
        dependency_less_transitive(a, b, c);
    }

    proof fn before_total(a: DependencyView, b: DependencyView, c: DependencyView) {
        text_less_total(root_text(a), root_text(c));
        text_less_total(a.id, c.id);
        if dependency_less(c, a) {
            dependency_less_transitive(c, a, b);
        } else if !dependency_less(a, c) {
            assert(root_text(a) == root_text(c) && a.id == c.id);
        }
    }

    fn is_before(&self, other: &Self) -> bool {
        let x = root_of(self);
        let y = root_of(other);
        text_before(x.as_str(), y.as_str()) || (x == y && text_before(
            self.id.as_str(),
            other.id.as_str(),
        ))
    }
}

/// The source root that a dependency names.
fn root_of(dependency: &ProjectDependencyConfig) -> (text: String)
    ensures
        text@ == root_text(dependency@),
{
    match &dependency.source_root {
        Some(root) => root.as_str().to_owned(),
        None => String::new(),
    }
}

/// Two dependencies are on the same project of the same source root.
pub open spec fn same_slot(a: DependencyView, b: DependencyView) -> bool {
    a.id == b.id && a.source_root == b.source_root
}

/// A dependency on the same project stands at a place.
pub open spec fn slot_at(items: Seq<DependencyView>, item: DependencyView, i: int) -> bool {
    0 <= i < items.len() && same_slot(items[i], item) && forall|j: int|
        0 <= j < i ==> !same_slot(#[trigger] items[j], item)
}

/// The dependencies with one more, which takes the place of one on the same project.
pub open spec fn upsert(items: Seq<DependencyView>, item: DependencyView) -> Seq<DependencyView> {
    if exists|i: int| slot_at(items, item, i) {
        items.update(choose|i: int| slot_at(items, item, i), item)
    } else {
        items.push(item)
    }
}

/// One dependency for every project, as it was declared last.
pub open spec fn upsert_all(items: Seq<DependencyView>) -> Seq<DependencyView>
    decreases items.len(),
{
    if items.len() == 0 {
        items
    } else {
        upsert(upsert_all(items.drop_last()), items.last())
    }
}

/// The dependency with an alias of its own source root replaced by the project that
/// it names. Dependencies on other source roots stay as they are.
pub open spec fn flatten(
    dependency: DependencyView,
    aliases: Map<Seq<char>, ProjectKeyView>,
    source: Seq<char>,
) -> DependencyView {
    if dependency.source_root is None && aliases.dom().contains(dependency.id)
        && aliases[dependency.id].source == source {
        DependencyView { id: aliases[dependency.id].project, ..dependency }
    } else {
        dependency
    }
}

/// All dependencies with their aliases replaced.
pub open spec fn flatten_all(
    dependencies: Seq<DependencyView>,
    aliases: Map<Seq<char>, ProjectKeyView>,
    source: Seq<char>,
) -> Seq<DependencyView> {
    dependencies.map_values(|dependency: DependencyView| flatten(dependency, aliases, source))
}

/// The dependencies of an expanded project: those on its own source root, then
/// those on other source roots in order, each project once.
pub open spec fn expand_dependencies(
    dependencies: Seq<DependencyView>,
    aliases: Map<Seq<char>, ProjectKeyView>,
    source: Seq<char>,
) -> Seq<DependencyView> {
    let kept = upsert_all(flatten_all(dependencies, aliases, source));
    kept.filter(|d: DependencyView| d.source_root is None) + ranked::<ProjectDependencyConfig>(
        kept.filter(|d: DependencyView| d.source_root is Some),
    )
}

/// The views of the keys that aliases stand for.
pub open spec fn alias_views(aliases: Map<Seq<char>, ProjectKey>) -> Map<
    Seq<char>,
    ProjectKeyView,
> {
    aliases.map_values(|key: ProjectKey| key@)
}

/// What the expansion of a project needs to know.
pub struct ProjectExpanderContext<'graph> {
    /// The aliases of the source root, and the projects that they name.
    pub aliases: Table<String, ProjectKey>,
    /// The source root of the project.
    pub source_id: &'graph SourceRootId,
}

/// Expands projects.
pub struct ProjectExpander<'graph> {
    pub context: ProjectExpanderContext<'graph>,
}

/// Adds a dependency, in place of one on the same project.
fn add_dependency(items: &mut Vec<ProjectDependencyConfig>, item: ProjectDependencyConfig)
    ensures
        views(final(items)@) == upsert(views(old(items)@), item@),
{
    let ghost all = views(items@);
    let mut i: usize = 0;
    while i < items.len()
        invariant
            i <= items@.len(),
            all == views(items@),
            views(items@) == views(old(items)@),
            forall|j: int| 0 <= j < i ==> !same_slot(#[trigger] all[j], item@),
        decreases items.len() - i,
    {
        let same_root = match (&items[i].source_root, &item.source_root) {
            (Some(a), Some(b)) => a.same_key(b),
            (None, None) => true,
            _ => false,
        };
        if same_root && items[i].id.same_key(&item.id) {
            proof {
                assert(slot_at(all, item@, i as int));
                let k = choose|k: int| slot_at(all, item@, k);
                assert(slot_at(all, item@, k));
                if k < i {
                    assert(!same_slot(all[k], item@));
                }
                if i < k {
                    assert(!same_slot(all[i as int], item@));
                }
                assert(k == i);
            }
            let ghost before = items@;
            items.set(i, item);
            assert(views(items@) =~= all.update(i as int, item@));
            return;
        }
        assert(!same_slot(all[i as int], item@));
        i = i + 1;
    }
    items.push(item);
}

impl<'graph> ProjectExpander<'graph> {
    /// An expander for the projects of one source root.
    pub fn new(context: ProjectExpanderContext<'graph>) -> (expander: Self)
        ensures
            expander.context == context,
    {
        ProjectExpander { context }
    }

    /// The project with its aliases replaced.
    pub fn expand(self, project: &Project) -> (expanded: Project)
        ensures
            expanded@ == (ProjectView {
                dependencies: expand_dependencies(
                    project@.dependencies,
                    alias_views(self.context.aliases@),
                    self.context.source_id@,
                ),
                ..project@
            }),
    {
        let mut project = project.clone();
        let dependencies = self.expand_deps(&project.dependencies);
        project.dependencies = dependencies;
        project
    }

    /// The dependencies with their aliases replaced.
    fn expand_deps(&self, dependencies: &Vec<ProjectDependencyConfig>) -> (expanded: Vec<
        ProjectDependencyConfig,
    >)
        ensures
            views(expanded@) == expand_dependencies(
                views(dependencies@),
                alias_views(self.context.aliases@),
                self.context.source_id@,
            ),
    {
        let ghost aliases = alias_views(self.context.aliases@);
        let ghost source = self.context.source_id@;
        let ghost flat = flatten_all(views(dependencies@), aliases, source);
        let mut kept: Vec<ProjectDependencyConfig> = Vec::new();
        let mut i: usize = 0;
        assert(views(kept@) =~= upsert_all(flat.take(0)));
        while i < dependencies.len()
            invariant
                i <= dependencies@.len(),
                aliases == alias_views(self.context.aliases@),
                source == self.context.source_id@,
                flat == flatten_all(views(dependencies@), aliases, source),
                views(kept@) == upsert_all(flat.take(i as int)),
            decreases dependencies.len() - i,
        {
            let mut dependency = dependencies[i].clone();
            if !dependency.is_cross_source() {
                let name = dependency.id.as_str().to_owned();
                if let Some(key) = self.context.aliases.get(&name) {
                    if key.source_id().same_key(self.context.source_id) {
                        dependency.id = key.project_id().clone();
                    }
                }
            }
            proof {
                let next = flat.take(i + 1);
                assert(next.drop_last() =~= flat.take(i as int));
                assert(next.last() == flatten(dependencies@[i as int]@, aliases, source));
                assert(dependency@ == flatten(dependencies@[i as int]@, aliases, source));
            }
            add_dependency(&mut kept, dependency);
            i = i + 1;
        }
        assert(flat.take(i as int) =~= flat);
        let ghost all = views(kept@);
        let mut local: Vec<ProjectDependencyConfig> = Vec::new();
        let mut cross: Vec<ProjectDependencyConfig> = Vec::new();
        let ghost is_local = |d: DependencyView| d.source_root is None;
        let ghost is_cross = |d: DependencyView| d.source_root is Some;
        proof {
            reveal(Seq::filter);
            assert(views(local@) =~= all.take(0).filter(is_local));
            assert(views(cross@) =~= all.take(0).filter(is_cross));
        }
        for item in it: kept
            invariant
                all == views(it.seq()),
                views(local@) == all.take(it.index() as int).filter(is_local),
                views(cross@) == all.take(it.index() as int).filter(is_cross),
                is_local == (|d: DependencyView| d.source_root is None),
                is_cross == (|d: DependencyView| d.source_root is Some),
        {
            proof {
                reveal(Seq::filter);
                let next = all.take(it.index() + 1);
                assert(next.drop_last() =~= all.take(it.index() as int));
                assert(next.last() == item@);
            }
            if item.is_cross_source() {
                cross.push(item);
            } else {
                local.push(item);
            }
        }
        assert(all.take(all.len() as int) =~= all);
        let mut cross = sort_ranked(cross);
        let ghost a = local@;
        let ghost b = cross@;
        local.append(&mut cross);
        assert(views(local@) =~= views(a) + views(b));
        local
    }
}

} // verus!
