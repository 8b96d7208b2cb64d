//! What the discovery of workspaces takes in, and what it refuses.

use crate::discovery::{
    ancestors, chosen_root, declared_root, discovered, discovery_message, load_failures,
    register_fault, root_candidates, root_taken, DeclarationView, DiscoveryFault, DiscoveryView,
    FoundView, LoadFailureView, WorkspaceRootError,
};
use crate::id::valid_id;
use crate::path::{clean_path, components, is_absolute_path, join_path};
use crate::source::{normal_root, RegistryView};
use vstd::prelude::*;

verus! {

/// A source root may be registered: its identifier is not the one that stands for the primary
/// source root, unless it is that; and neither the identifier nor the place is taken.
pub open spec fn may_register(registry: RegistryView, id: Seq<char>, root: Seq<Seq<char>>) -> bool {
    &&& id == "workspace"@ ==> id == registry.primary
    &&& !registry.roots.dom().contains(id)
    &&& forall|other: Seq<char>| #[trigger]
        registry.roots.dom().contains(other) ==> registry.roots[other] != normal_root(root)
}

/// A workspace is taken in under its name: it was loaded and says who it is, that is who it
/// must be, and it is either known at the same place already, or new in every respect.
pub open spec fn is_taken_in(
    discovery: DiscoveryView,
    primary_root: Seq<Seq<char>>,
    declaration: DeclarationView,
    found: FoundView,
) -> bool {
    &&& valid_id(declaration.alias)
    &&& found matches FoundView::Loaded { physical_root, id: Some(id) } && {
        &&& valid_id(id)
        &&& declaration.id is Some ==> declaration.id->0 == id
        &&& if discovery.identity_roots.dom().contains(id) {
            discovery.identity_roots[id] == physical_root
        } else {
            &&& !discovery.physical_roots.dom().contains(physical_root)
            &&& may_register(
                discovery.sources,
                id,
                declared_root(primary_root, declaration.path),
            )
        }
    }
}

proof fn registrations_are_refused_for_a_reason(
    registry: RegistryView,
    id: Seq<char>,
    root: Seq<Seq<char>>,
)
    ensures
        register_fault(registry, id, root) is None <==> may_register(registry, id, root),
{
    if exists|other: Seq<char>| #[trigger] root_taken(registry, other, normal_root(root)) {
        let other = choose|other: Seq<char>| #[trigger]
            root_taken(registry, other, normal_root(root));
        assert(registry.roots.dom().contains(other));
    } else {
        assert forall|other: Seq<char>| #[trigger]
            registry.roots.dom().contains(other) implies registry.roots[other] != normal_root(
            root,
        ) by {
            assert(!root_taken(registry, other, normal_root(root)));
        }
    }
}

/// A workspace is taken in exactly where it may be: then its name stands for its identifier,
/// and where it was not known it is registered at its place. Otherwise no workspace and no
/// name changes.
pub proof fn workspaces_are_taken_in_where_they_may(
    discovery: DiscoveryView,
    primary_root: Seq<Seq<char>>,
    declaration: DeclarationView,
    found: FoundView,
    retain: bool,
)
    ensures
        ({
            let (after, done) = discovered(discovery, primary_root, declaration, found, retain);
            let root = declared_root(primary_root, declaration.path);
            if is_taken_in(discovery, primary_root, declaration, found) {
                let physical_root = found->physical_root;
                let id = found->id->0;
                &&& done is Ok
                &&& after.aliases == discovery.aliases.insert(declaration.alias, id)
                &&& after.failures == discovery.failures
                &&& if discovery.identity_roots.dom().contains(id) {
                    &&& after.sources == discovery.sources
                    &&& after.workspaces == discovery.workspaces
                    &&& after.physical_roots == discovery.physical_roots
                    &&& after.identity_roots == discovery.identity_roots
                } else {
                    &&& after.sources.primary == discovery.sources.primary
                    &&& after.sources.roots == discovery.sources.roots.insert(
                        id,
                        normal_root(root),
                    )
                    &&& after.workspaces == discovery.workspaces.insert(id, root)
                    &&& after.physical_roots == discovery.physical_roots.insert(physical_root, id)
                    &&& after.identity_roots == discovery.identity_roots.insert(id, physical_root)
                }
            } else {
                &&& after == (DiscoveryView { failures: after.failures, ..discovery })
                &&& done is Err ==> after == discovery
                &&& !retain ==> done is Err
            }
        }),
{
    if let FoundView::Loaded { physical_root, id: Some(id) } = found {
        registrations_are_refused_for_a_reason(
            discovery.sources,
            id,
            declared_root(primary_root, declaration.path),
        );
    }
}

/// At which stage a workspace that is not taken in fails.
pub open spec fn failed_stage(found: FoundView) -> Seq<char> {
    match found {
        FoundView::Unresolved => "resolve-path"@,
        FoundView::Unloaded => "workspace-config"@,
        FoundView::Loaded { .. } => "workspace-identity"@,
    }
}

/// A workspace that is not taken in is reported once where failures are retained: under its
/// name, with its place and the stage that failed. Only an invalid identifier ends the
/// discovery even then.
pub proof fn refused_workspaces_are_reported(
    discovery: DiscoveryView,
    primary_root: Seq<Seq<char>>,
    declaration: DeclarationView,
    found: FoundView,
)
    requires
        !is_taken_in(discovery, primary_root, declaration, found),
    ensures
        ({
            let (after, done) = discovered(discovery, primary_root, declaration, found, true);
            let alone = discovered(discovery, primary_root, declaration, found, false).1;
            match done {
                Ok(()) => {
                    &&& after.failures.len() == discovery.failures.len() + 1
                    &&& after.failures.drop_last() == discovery.failures
                    &&& after.failures.last().alias == declaration.alias
                    &&& after.failures.last().root == declared_root(
                        primary_root,
                        declaration.path,
                    )
                    &&& after.failures.last().stage == failed_stage(found)
                    &&& alone is Err
                    &&& after.failures.last().message == discovery_message(alone->Err_0)
                },
                Err(fault) => fault matches DiscoveryFault::InvalidId { id } && !valid_id(id),
            }
        }),
{
    if let FoundView::Loaded { physical_root, id: Some(id) } = found {
        registrations_are_refused_for_a_reason(
            discovery.sources,
            id,
            declared_root(primary_root, declaration.path),
        );
    }
    let (after, done) = discovered(discovery, primary_root, declaration, found, true);
    if done is Ok {
        assert(after.failures.drop_last() =~= discovery.failures);
    }
}

/// Why a workspace was refused is what is wrong with it.
pub proof fn refusals_say_what_is_wrong(
    discovery: DiscoveryView,
    primary_root: Seq<Seq<char>>,
    declaration: DeclarationView,
    found: FoundView,
)
    ensures
        match discovered(discovery, primary_root, declaration, found, false).1 {
            Ok(()) => true,
            Err(DiscoveryFault::InvalidId { id }) => !valid_id(id),
            Err(DiscoveryFault::Unresolved { alias, .. }) => found is Unresolved && alias
                == declaration.alias,
            Err(DiscoveryFault::Unloaded { alias, .. }) => found is Unloaded && alias
                == declaration.alias,
            Err(DiscoveryFault::IdRequired { alias, .. }) => found is Loaded && found->id is None
                && alias == declaration.alias,
            Err(DiscoveryFault::IdMismatch { actual, expected, .. }) => found is Loaded && found->id
                == Some(actual) && declaration.id == Some(expected) && actual != expected,
            Err(DiscoveryFault::IdConflict { id, .. }) => found is Loaded && found->id == Some(id)
                && discovery.identity_roots.dom().contains(id) && discovery.identity_roots[id]
                != found->physical_root,
            Err(DiscoveryFault::RootConflict { existing_id, id, .. }) => found is Loaded
                && found->id == Some(id) && !discovery.identity_roots.dom().contains(id)
                && discovery.physical_roots.dom().contains(found->physical_root)
                && discovery.physical_roots[found->physical_root] == existing_id,
            Err(DiscoveryFault::Reserved { id }) => found is Loaded && found->id == Some(id) && id
                == "workspace"@ && id != discovery.sources.primary,
            Err(DiscoveryFault::Registered { id }) => found is Loaded && found->id == Some(id)
                && discovery.sources.roots.dom().contains(id),
            Err(DiscoveryFault::RootRegistered { id, root }) => found is Loaded && root
                == normal_root(declared_root(primary_root, declaration.path))
                && discovery.sources.roots.dom().contains(id) && discovery.sources.roots[id]
                == root,
        },
{
}

/// The workspace is worked in where it holds a configuration, unless that is the home
/// directory or that is not known.
pub proof fn roots_are_chosen_outside_of_home(
    found: Option<Seq<Seq<char>>>,
    home: Option<Seq<Seq<char>>>,
)
    ensures
        match chosen_root(found, home) {
            Ok(root) => found == Some(root) && home is Some && home != Some(root),
            Err(WorkspaceRootError::MissingHomeDir) => found is Some && home is None,
            Err(WorkspaceRootError::MissingConfigDir) => found is None || (home is Some && found
                == home),
        },
{
}

/// The places where the root of a workspace may be are the working directory and those around
/// it, from the inside out: each is the one before without its last part, down to the top.
pub proof fn candidates_lead_outwards(dir: Seq<Seq<char>>)
    ensures
        ({
            let found = ancestors(dir);
            &&& 0 < found.len() <= dir.len() + 1
            &&& found[0] == dir
            &&& forall|i: int|
                0 <= i < found.len() ==> (#[trigger] found[i]) == dir.take(dir.len() - i)
            &&& found.last().len() == 0 || found.last() == seq!["/"@]
            &&& root_candidates(None, dir) == found
        }),
    decreases dir.len(),
{
    assert(dir.take(dir.len() as int) =~= dir);
    reveal_strlit("/");
    assert(crate::path::root_part() =~= "/"@);
    if dir.len() > 0 && dir != seq![crate::path::root_part()] {
        let parent = dir.drop_last();
        candidates_lead_outwards(parent);
        let found = ancestors(dir);
        assert(found == seq![dir] + ancestors(parent));
        assert forall|i: int| 0 <= i < found.len() implies (#[trigger] found[i]) == dir.take(
            dir.len() - i,
        ) by {
            if i > 0 {
                assert(found[i] == ancestors(parent)[i - 1]);
                assert(parent.take(parent.len() - (i - 1)) =~= dir.take(dir.len() - i));
            }
        }
        assert(found.last() == ancestors(parent).last());
    }
}

/// A root that the user names is the only candidate: as it is where it is absolute, and else
/// from the working directory.
pub proof fn named_roots_are_the_only_candidates(named: Seq<char>, dir: Seq<Seq<char>>)
    ensures
        root_candidates(Some(named), dir).len() == 1,
        is_absolute_path(components(named)) ==> root_candidates(Some(named), dir)[0] == clean_path(
            components(named),
        ),
        !is_absolute_path(components(named)) ==> root_candidates(Some(named), dir)[0] == clean_path(
            join_path(dir, components(named)),
        ),
{
}

/// The stages of a source root fail in order: retained, each that failed is reported; else the
/// first that failed ends the load.
pub proof fn stages_fail_in_order(
    tasks: Option<Seq<char>>,
    extensions: Option<Seq<char>>,
    toolchains: Option<Seq<char>>,
)
    ensures
        match load_failures(tasks, extensions, toolchains, false) {
            Ok(failures) => failures.len() == 0 && tasks is None && extensions is None
                && toolchains is None,
            Err(message) => tasks == Some(message) || (tasks is None && extensions == Some(message))
                || (tasks is None && extensions is None && toolchains == Some(message)),
        },
        ({
            let failures = load_failures(tasks, extensions, toolchains, true);
            &&& failures is Ok
            &&& forall|message: Seq<char>, stage: Seq<char>| #[trigger]
                failures->Ok_0.contains(LoadFailureView { message, stage }) <==> {
                    ||| stage == "tasks-config"@ && tasks == Some(message)
                    ||| stage == "extensions-config"@ && extensions == Some(message)
                    ||| stage == "toolchains-config"@ && toolchains == Some(message)
                }
            &&& failures->Ok_0.len() == (if tasks is Some { 1int } else { 0 }) + (
            if extensions is Some { 1int } else { 0 }) + (if toolchains is Some { 1int } else { 0 })
        }),
{
    let failures = load_failures(tasks, extensions, toolchains, true)->Ok_0;
    assert forall|message: Seq<char>, stage: Seq<char>| #[trigger]
        failures.contains(LoadFailureView { message, stage }) <==> {
        ||| stage == "tasks-config"@ && tasks == Some(message)
        ||| stage == "extensions-config"@ && extensions == Some(message)
        ||| stage == "toolchains-config"@ && toolchains == Some(message)
    } by {
        let failure = LoadFailureView { message, stage };
        let second: int = if tasks is Some { 1 } else { 0 };
        let third: int = second + if extensions is Some { 1int } else { 0 };
        if stage == "tasks-config"@ && tasks == Some(message) {
            assert(failures[0] == failure);
        }
        if stage == "extensions-config"@ && extensions == Some(message) {
            assert(failures[second] == failure);
        }
        if stage == "toolchains-config"@ && toolchains == Some(message) {
            assert(failures[third] == failure);
        }
    }
}

} // verus!
