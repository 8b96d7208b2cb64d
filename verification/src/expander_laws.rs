//! What an expanded project depends on.

use crate::config::{DependencyView, ProjectDependencyConfig};
use crate::expander::{
    expand_dependencies, flatten_all, same_slot, slot_at, upsert, upsert_all,
};
use crate::keys::ProjectKeyView;
use crate::order::{ranked, ranked_in_order, ranked_same_items, Ranked};
use crate::text::text_less;
use vstd::prelude::*;

verus! {

/// A dependency with a name of its own source root replaced by the project that it stands for.
pub open spec fn is_replaced(
    dependency: DependencyView,
    aliases: Map<Seq<char>, ProjectKeyView>,
    source: Seq<char>,
    result: DependencyView,
) -> bool {
    if dependency.source_root is None && aliases.dom().contains(dependency.id)
        && aliases[dependency.id].source == source {
        &&& result.id == aliases[dependency.id].project
        &&& result.scope == dependency.scope
        &&& result.via == dependency.via
        &&& result.source_root is None
    } else {
        result == dependency
    }
}

/// Two dependencies lead to the same project.
pub open spec fn lead_together(a: DependencyView, b: DependencyView) -> bool {
    a.id == b.id && a.source_root == b.source_root
}

/// A dependency stands at a place, and none behind it leads to the same project.
pub open spec fn is_last_of_its_kind(
    items: Seq<DependencyView>,
    at: int,
    item: DependencyView,
) -> bool {
    &&& 0 <= at < items.len()
    &&& items[at] == item
    &&& forall|later: int|
        at < later < items.len() ==> !lead_together(#[trigger] items[later], item)
}

/// A dependency on another source root comes before one on another: by source root, and where
/// that is the same by project.
pub open spec fn comes_first(a: DependencyView, b: DependencyView) -> bool {
    ||| text_less(a.source_root->0, b.source_root->0)
    ||| a.source_root == b.source_root && text_less(a.id, b.id)
}

/// No two dependencies lead to the same project.
pub open spec fn lead_apart(items: Seq<DependencyView>) -> bool {
    forall|i: int, j: int|
        0 <= i < j < items.len() ==> !lead_together(#[trigger] items[i], #[trigger] items[j])
}

proof fn first_slot(items: Seq<DependencyView>, item: DependencyView, i: int) -> (at: int)
    requires
        0 <= i < items.len(),
        same_slot(items[i], item),
    ensures
        slot_at(items, item, at),
    decreases i,
{
    if exists|j: int| 0 <= j < i && same_slot(#[trigger] items[j], item) {
        let j = choose|j: int| 0 <= j < i && same_slot(#[trigger] items[j], item);
        first_slot(items, item, j)
    } else {
        i
    }
}

proof fn taking_a_place_keeps_apart(items: Seq<DependencyView>, item: DependencyView)
    requires
        lead_apart(items),
    ensures
        lead_apart(upsert(items, item)),
        forall|other: DependencyView| #[trigger]
            upsert(items, item).contains(other) <==> other == item || (items.contains(other)
                && !lead_together(other, item)),
{
    let after = upsert(items, item);
    if exists|i: int| slot_at(items, item, i) {
        let at = choose|i: int| slot_at(items, item, i);
        assert forall|other: DependencyView| #[trigger] after.contains(other) <==> other == item
            || (items.contains(other) && !lead_together(other, item)) by {
            if after.contains(other) && other != item {
                let i = choose|i: int| 0 <= i < after.len() && after[i] == other;
                assert(items[i] == other);
                assert(i != at);
                if i < at {
                    assert(!lead_together(items[i], items[at]));
                } else {
                    assert(!lead_together(items[at], items[i]));
                }
            }
            assert(after[at] == item);
            if items.contains(other) && !lead_together(other, item) {
                let i = choose|i: int| 0 <= i < items.len() && items[i] == other;
                assert(after[i] == other);
            }
        }
        assert forall|i: int, j: int| 0 <= i < j < after.len() implies !lead_together(
            #[trigger] after[i],
            #[trigger] after[j],
        ) by {
            assert(!lead_together(items[i], items[j]));
        }
    } else {
        assert forall|i: int| 0 <= i < items.len() implies !lead_together(
            #[trigger] items[i],
            item,
        ) by {
            if same_slot(items[i], item) {
                let at = first_slot(items, item, i);
                assert(slot_at(items, item, at));
            }
        }
        assert forall|other: DependencyView| #[trigger] after.contains(other) <==> other == item
            || (items.contains(other) && !lead_together(other, item)) by {
            assert(after[items.len() as int] == item);
            if after.contains(other) && other != item {
                let i = choose|i: int| 0 <= i < after.len() && after[i] == other;
                assert(items[i] == other);
            }
            if items.contains(other) {
                let i = choose|i: int| 0 <= i < items.len() && items[i] == other;
                assert(after[i] == other);
            }
        }
        assert forall|i: int, j: int| 0 <= i < j < after.len() implies !lead_together(
            #[trigger] after[i],
            #[trigger] after[j],
        ) by {
            if j < items.len() {
                assert(!lead_together(items[i], items[j]));
            }
        }
    }
}

proof fn the_last_declaration_counts(items: Seq<DependencyView>)
    ensures
        lead_apart(upsert_all(items)),
        forall|item: DependencyView| #[trigger]
            upsert_all(items).contains(item) <==> exists|at: int| #[trigger]
                is_last_of_its_kind(items, at, item),
    decreases items.len(),
{
    if items.len() > 0 {
        let rest = items.drop_last();
        let last = items.last();
        the_last_declaration_counts(rest);
        taking_a_place_keeps_apart(upsert_all(rest), last);
        assert forall|item: DependencyView| #[trigger] upsert_all(items).contains(item) <==> exists|
            at: int,
        | #[trigger] is_last_of_its_kind(items, at, item) by {
            if upsert_all(items).contains(item) {
                if item == last {
                    assert(is_last_of_its_kind(items, items.len() - 1, item));
                } else {
                    assert(upsert_all(rest).contains(item));
                    let at = choose|at: int| #[trigger] is_last_of_its_kind(rest, at, item);
                    assert forall|later: int| at < later < items.len() implies !lead_together(
                        #[trigger] items[later],
                        item,
                    ) by {
                        if later < items.len() - 1 {
                            assert(rest[later] == items[later]);
                        }
                    }
                    assert(is_last_of_its_kind(items, at, item));
                }
            }
            if exists|at: int| #[trigger] is_last_of_its_kind(items, at, item) {
                let at = choose|at: int| #[trigger] is_last_of_its_kind(items, at, item);
                if at < items.len() - 1 {
                    assert(!lead_together(items[items.len() - 1], item));
                    assert forall|later: int| at < later < rest.len() implies !lead_together(
                        #[trigger] rest[later],
                        item,
                    ) by {
                        assert(rest[later] == items[later]);
                    }
                    assert(is_last_of_its_kind(rest, at, item));
                    assert(upsert_all(rest).contains(item));
                }
            }
        }
    } else {
        assert forall|item: DependencyView| !(#[trigger] upsert_all(items).contains(item)) by {}
        assert forall|at: int, item: DependencyView| !#[trigger] is_last_of_its_kind(
            items,
            at,
            item,
        ) by {}
    }
}

/// Names are replaced one for one, and only those of the own source root.
pub proof fn names_are_replaced_by_projects(
    dependencies: Seq<DependencyView>,
    aliases: Map<Seq<char>, ProjectKeyView>,
    source: Seq<char>,
)
    ensures
        flatten_all(dependencies, aliases, source).len() == dependencies.len(),
        forall|i: int|
            0 <= i < dependencies.len() ==> is_replaced(
                #[trigger] dependencies[i],
                aliases,
                source,
                flatten_all(dependencies, aliases, source)[i],
            ),
{
}

/// An expanded project depends once on every project that it declares, as it declares it last:
/// first on those of its own source root, then on those of others, in the order of source
/// roots and projects.
pub proof fn expanded_projects_depend_once(
    dependencies: Seq<DependencyView>,
    aliases: Map<Seq<char>, ProjectKeyView>,
    source: Seq<char>,
)
    ensures
        ({
            let replaced = flatten_all(dependencies, aliases, source);
            let expanded = expand_dependencies(dependencies, aliases, source);
            &&& forall|item: DependencyView| #[trigger]
                expanded.contains(item) <==> exists|at: int| #[trigger]
                    is_last_of_its_kind(replaced, at, item)
            &&& forall|i: int, j: int|
                0 <= i < j < expanded.len() && (#[trigger] expanded[i]).source_root is Some ==> (
                #[trigger] expanded[j]).source_root is Some
            &&& forall|i: int, j: int|
                0 <= i < j < expanded.len() && (#[trigger] expanded[i]).source_root is Some
                    ==> !comes_first(#[trigger] expanded[j], expanded[i])
        }),
{
    let replaced = flatten_all(dependencies, aliases, source);
    let kept = upsert_all(replaced);
    let own = kept.filter(|d: DependencyView| d.source_root is None);
    let foreign = kept.filter(|d: DependencyView| d.source_root is Some);
    let sorted = ranked::<ProjectDependencyConfig>(foreign);
    let expanded = expand_dependencies(dependencies, aliases, source);
    assert(expanded == own + sorted);
    the_last_declaration_counts(replaced);
    ranked_in_order::<ProjectDependencyConfig>(foreign);
    assert forall|item: DependencyView| #[trigger] expanded.contains(item) <==> exists|at: int|
        #[trigger] is_last_of_its_kind(replaced, at, item) by {
        filtered_are_kept(kept, |d: DependencyView| d.source_root is None, item);
        filtered_are_kept(kept, |d: DependencyView| d.source_root is Some, item);
        ranked_same_items::<ProjectDependencyConfig>(foreign, item);
        if own.contains(item) {
            let i = choose|i: int| 0 <= i < own.len() && own[i] == item;
            assert(expanded[i] == item);
        }
        if sorted.contains(item) {
            let i = choose|i: int| 0 <= i < sorted.len() && sorted[i] == item;
            assert(expanded[own.len() + i] == item);
        }
        if expanded.contains(item) {
            let i = choose|i: int| 0 <= i < expanded.len() && expanded[i] == item;
            if i < own.len() {
                assert(own[i] == item);
            } else {
                assert(sorted[i - own.len()] == item);
            }
        }
        assert(kept.contains(item) <==> exists|at: int| #[trigger]
            is_last_of_its_kind(replaced, at, item));
    }
    assert forall|i: int| 0 <= i < own.len() implies (#[trigger] own[i]).source_root is None by {
        assert(own.contains(own[i]));
        filtered_are_kept(kept, |d: DependencyView| d.source_root is None, own[i]);
    }
    assert forall|i: int| 0 <= i < sorted.len() implies (
    #[trigger] sorted[i]).source_root is Some by {
        assert(sorted.contains(sorted[i]));
        ranked_same_items::<ProjectDependencyConfig>(foreign, sorted[i]);
        filtered_are_kept(kept, |d: DependencyView| d.source_root is Some, sorted[i]);
    }
    assert forall|i: int, j: int|
        0 <= i < j < expanded.len() && (#[trigger] expanded[i]).source_root is Some implies (
    #[trigger] expanded[j]).source_root is Some by {
        if j >= own.len() {
            assert(expanded[j] == sorted[j - own.len()]);
        } else {
            assert(expanded[i] == own[i]);
        }
    }
    assert forall|i: int, j: int|
        0 <= i < j < expanded.len() && (
        #[trigger] expanded[i]).source_root is Some implies !comes_first(
        #[trigger] expanded[j],
        expanded[i],
    ) by {
        if i < own.len() {
            assert(expanded[i] == own[i]);
        } else {
            assert(expanded[i] == sorted[i - own.len()]);
            assert(expanded[j] == sorted[j - own.len()]);
            assert(!ProjectDependencyConfig::before(
                sorted[j - own.len()],
                sorted[i - own.len()],
            ));
        }
    }
}

proof fn filtered_are_kept(
    items: Seq<DependencyView>,
    keep: spec_fn(DependencyView) -> bool,
    item: DependencyView,
)
    ensures
        items.filter(keep).contains(item) <==> items.contains(item) && keep(item),
    decreases items.len(),
{
    reveal(Seq::filter);
    if items.len() > 0 {
        let rest = items.drop_last();
        let last = items.last();
        filtered_are_kept(rest, keep, item);
        let kept = rest.filter(keep);
        vstd::seq_lib::lemma_seq_contains_after_push(kept, last, item);
        if items.contains(item) && item != last {
            let i = choose|i: int| 0 <= i < items.len() && items[i] == item;
            assert(rest[i] == item);
        }
        if rest.contains(item) {
            let i = choose|i: int| 0 <= i < rest.len() && rest[i] == item;
            assert(items[i] == item);
        }
        assert(items[items.len() - 1] == last);
        if kept.push(last).contains(item) && item != last {
            let i = choose|i: int| 0 <= i < kept.push(last).len() && kept.push(last)[i] == item;
            assert(kept[i] == item);
        }
    }
}

} // verus!
