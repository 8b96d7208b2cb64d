//! Which requests the daemon accepts.

use crate::daemon::{
    first_outside, refused_paths, requested_archive, requested_hydration, requested_outputs,
    requested_task, retirement, stays_below, ContentDigest, DigestSource, ManifestPaths,
    OutputsRequest, RequestFault, RequestPart, Retirement,
};
use crate::id::valid_id;
use crate::keys::{parse_task_key, TaskKeyView};
use crate::order::views;
use crate::path::components;
use crate::runtime::{runtime_of, RuntimeFault, RuntimeView};
use crate::text::has_text;
use vstd::prelude::*;

verus! {

/// A path leads nowhere outside of the directory that it is relative to: none of its parts is
/// the top or leads up.
pub open spec fn is_inside(path: Seq<char>) -> bool {
    forall|i: int|
        0 <= i < components(path).len() ==> #[trigger] components(path)[i] != ".."@
            && components(path)[i] != "/"@
}

/// All paths of a manifest stay inside.
pub open spec fn all_inside(paths: Seq<String>) -> bool {
    forall|i: int| 0 <= i < paths.len() ==> is_inside((#[trigger] paths[i])@)
}

proof fn inside_stays_below(path: Seq<char>)
    ensures
        stays_below(path) <==> is_inside(path),
{
    let parts = components(path);
    reveal_strlit("..");
    reveal_strlit("/");
    assert(crate::path::parent_part() =~= ".."@);
    assert(crate::path::root_part() =~= "/"@);
    if is_inside(path) {
        if parts.contains(crate::path::parent_part()) {
            let i = choose|i: int| 0 <= i < parts.len() && parts[i] == crate::path::parent_part();
            assert(parts[i] == ".."@);
        }
        if parts.contains(crate::path::root_part()) {
            let i = choose|i: int| 0 <= i < parts.len() && parts[i] == crate::path::root_part();
            assert(parts[i] == "/"@);
        }
    }
    if stays_below(path) {
        assert forall|i: int| 0 <= i < parts.len() implies #[trigger] parts[i] != ".."@ && parts[i]
            != "/"@ by {
            assert(parts.contains(parts[i]));
        }
    }
}

proof fn outside_paths_are_found(paths: Seq<Seq<char>>)
    ensures
        match first_outside(paths) {
            None => forall|i: int| 0 <= i < paths.len() ==> is_inside(#[trigger] paths[i]),
            Some(path) => exists|i: int|
                0 <= i < paths.len() && #[trigger] paths[i] == path && !is_inside(path)
                    && forall|j: int| 0 <= j < i ==> is_inside(#[trigger] paths[j]),
        },
    decreases paths.len(),
{
    if paths.len() > 0 {
        let rest = paths.drop_last();
        let last = paths.len() - 1;
        outside_paths_are_found(rest);
        inside_stays_below(paths.last());
        match first_outside(rest) {
            None => {
                assert forall|j: int| 0 <= j < last implies is_inside(#[trigger] paths[j]) by {
                    assert(rest[j] == paths[j]);
                }
                if first_outside(paths) is Some {
                    assert(paths[last] == paths.last());
                }
            },
            Some(path) => {
                let i = choose|i: int|
                    0 <= i < rest.len() && #[trigger] rest[i] == path && !is_inside(path)
                        && forall|j: int| 0 <= j < i ==> is_inside(#[trigger] rest[j]);
                assert(paths[i] == path);
                assert forall|j: int| 0 <= j < i implies is_inside(#[trigger] paths[j]) by {
                    assert(rest[j] == paths[j]);
                }
            },
        }
    }
}

proof fn manifests_are_refused_for_a_path(paths: ManifestPaths)
    ensures
        refused_paths(paths) is None <==> all_inside(paths.files@) && all_inside(paths.symlinks@),
        refused_paths(paths) matches Some(fault) ==> fault is InvalidArgument,
{
    let files = views(paths.files@);
    let symlinks = views(paths.symlinks@);
    outside_paths_are_found(files);
    outside_paths_are_found(symlinks);
    assert(files.len() == paths.files@.len() && symlinks.len() == paths.symlinks@.len());
    assert forall|i: int| 0 <= i < files.len() implies #[trigger] files[i]
        == paths.files@[i]@ by {}
    assert forall|i: int| 0 <= i < symlinks.len() implies #[trigger] symlinks[i]
        == paths.symlinks@[i]@ by {}
    if refused_paths(paths) is None {
        assert forall|i: int| 0 <= i < paths.files@.len() implies is_inside(
            (#[trigger] paths.files@[i])@,
        ) by {
            assert(is_inside(files[i]));
        }
        assert forall|i: int| 0 <= i < paths.symlinks@.len() implies is_inside(
            (#[trigger] paths.symlinks@[i])@,
        ) by {
            assert(is_inside(symlinks[i]));
        }
    }
}

/// A request for outputs is in order: its source root has services, its task belongs to that
/// source root, and its digest and its manifest can be read and stay inside.
pub open spec fn is_in_order(entries: Map<Seq<char>, RuntimeView>, request: OutputsRequest) -> bool {
    &&& valid_id(request.source_id@)
    &&& runtime_of(entries, request.source_id@) is Ok
    &&& parse_task_key(request.task_key@) is Ok
    &&& parse_task_key(request.task_key@)->Ok_0.project.source == request.source_id@
    &&& request.digest is Given
    &&& request.manifest matches RequestPart::Given(paths) && all_inside(paths.files@)
        && all_inside(paths.symlinks@)
}

/// A request for outputs is accepted exactly where it is in order, for the source root and the
/// task that it names.
pub proof fn requests_in_order_are_accepted(
    entries: Map<Seq<char>, RuntimeView>,
    request: OutputsRequest,
)
    ensures
        requested_outputs(entries, request) is Ok <==> is_in_order(entries, request),
        requested_outputs(entries, request) matches Ok((source, key)) ==> source
            == request.source_id@ && Ok::<TaskKeyView, crate::keys::KeyFault>(key)
            == parse_task_key(request.task_key@) && key.project.source == source,
{
    if let RequestPart::Given(paths) = request.manifest {
        manifests_are_refused_for_a_path(paths);
    }
}

/// A request that names an unknown source root is not found, one that names a source root that
/// could not be loaded fails, and whatever else is wrong is wrong with the request.
pub proof fn refused_requests_say_why(
    entries: Map<Seq<char>, RuntimeView>,
    request: OutputsRequest,
)
    requires
        !is_in_order(entries, request),
    ensures
        ({
            let id = request.source_id@;
            let fault = requested_outputs(entries, request)->Err_0;
            if !valid_id(id) {
                fault is InvalidArgument
            } else {
                match runtime_of(entries, id) {
                    Err(RuntimeFault::UnknownSource { .. }) => fault is NotFound,
                    Err(RuntimeFault::UnavailableSource { .. }) => fault is FailedPrecondition,
                    Err(_) => fault is Internal,
                    Ok(_) => {
                        ||| fault is InvalidArgument
                        ||| request.digest is Unreadable && fault == RequestFault::Unknown(
                            request.digest->Unreadable_0@,
                        )
                        ||| request.manifest is Unreadable && fault == RequestFault::Unknown(
                            request.manifest->Unreadable_0@,
                        )
                    },
                }
            }
        }),
{
    if let RequestPart::Given(paths) = request.manifest {
        manifests_are_refused_for_a_path(paths);
    }
}

/// What a digest was made from agrees with the digest of a request: it has the same digest, so
/// have its bytes, and its path stays inside.
pub open spec fn agrees(task: ContentDigest, source: DigestSource) -> bool {
    &&& source.digest matches RequestPart::Given(digest) && digest.hash@ == task.hash@
        && digest.size == task.size
    &&& source.of_bytes matches Ok(digest) && digest.hash@ == task.hash@ && digest.size
        == task.size
    &&& is_inside(source.path@)
}

/// A request to keep outputs is accepted exactly where it is in order and what its digest was
/// made from, where it says so, agrees with the digest.
pub proof fn archives_are_kept_where_all_agrees(
    entries: Map<Seq<char>, RuntimeView>,
    request: OutputsRequest,
    source: Option<DigestSource>,
)
    ensures
        requested_archive(entries, request, source) is Ok <==> is_in_order(entries, request) && (
        source matches Some(made_from) ==> agrees(request.digest->Given_0, made_from)),
        requested_archive(entries, request, source) is Ok ==> requested_archive(
            entries,
            request,
            source,
        ) == requested_outputs(entries, request),
        !is_in_order(entries, request) ==> requested_archive(entries, request, source)
            == requested_outputs(entries, request),
{
    requests_in_order_are_accepted(entries, request);
    if let Some(made_from) = source {
        inside_stays_below(made_from.path@);
    }
}

/// Outputs are restored from a storage backend that is there. It counts as local only where it
/// says so and does not say that it is remote.
pub proof fn outputs_are_restored_from_known_backends(
    entries: Map<Seq<char>, RuntimeView>,
    request: OutputsRequest,
    backends: Seq<Seq<char>>,
    backend: Seq<char>,
)
    ensures
        requested_hydration(entries, request, backends, backend) is Ok <==> is_in_order(
            entries,
            request,
        ) && backends.contains(backend),
        requested_hydration(entries, request, backends, backend) matches Ok((source, key, remote))
            ==> {
            &&& requested_outputs(entries, request) == Ok::<(Seq<char>, TaskKeyView), RequestFault>(
                (source, key),
            )
            &&& !remote <==> has_text(backend, "local"@) && !has_text(backend, "remote"@)
        },
{
    requests_in_order_are_accepted(entries, request);
}

/// A task of another source root than that of the request is refused.
pub proof fn tasks_belong_to_the_source_of_the_request(text: Seq<char>, source: Seq<char>)
    ensures
        match requested_task(text, source) {
            Ok(key) => Ok::<TaskKeyView, crate::keys::KeyFault>(key) == parse_task_key(text)
                && key.project.source == source,
            Err(fault) => fault is InvalidArgument && (parse_task_key(text) is Err
                || parse_task_key(text)->Ok_0.project.source != source),
        },
{
}

/// A daemon stays as long as its roots are there and it is asked now and then: it retires for
/// a missing root first, and where nobody asked it for four hours.
pub proof fn daemons_retire_when_they_are_not_needed(
    root_missing: bool,
    elapsed: nat,
    last_activity: nat,
)
    ensures
        root_missing ==> retirement(root_missing, elapsed, last_activity) == Some(
            Retirement::RootRemoved,
        ),
        !root_missing ==> (retirement(root_missing, elapsed, last_activity) == Some(
            Retirement::Idle,
        ) <==> elapsed >= last_activity + 4 * 60 * 60 * 1000),
        !root_missing ==> (retirement(root_missing, elapsed, last_activity) is None <==> elapsed
            < last_activity + 4 * 60 * 60 * 1000),
{
}

} // verus!
