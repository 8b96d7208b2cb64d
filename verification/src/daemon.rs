//! The checks that a daemon makes of requests, and when it retires.

use crate::id::valid_id;
use crate::keys::{key_message, parse_task_key, KeyFault, TaskKey, TaskKeyView};
use crate::order::views;
use crate::path::{components, parent_part, root_part, LogicalPath};
use crate::runtime::{
    runtime_message, runtime_of, RuntimeFault, RuntimeView, SourceContext, SourceContextView,
    SourceRuntimeRegistry, SourceRuntimeRegistryError,
};
use crate::source::{SourceRegistry, SourceRootId};
use crate::table::Key;
use crate::text::{contains_text, has_text, same_text};
use vstd::prelude::*;

verus! {

broadcast use crate::order::group_views;

/// Why a request is refused.
pub enum RequestFault {
    InvalidArgument(Seq<char>),
    NotFound(Seq<char>),
    FailedPrecondition(Seq<char>),
    Internal(Seq<char>),
    Unknown(Seq<char>),
}

/// Why a request is refused.
#[derive(Debug)]
pub enum RequestError {
    /// The request makes no sense.
    InvalidArgument(String),
    /// What it asks for does not exist.
    NotFound(String),
    /// What it asks for cannot be had now.
    FailedPrecondition(String),
    /// The daemon is at fault.
    Internal(String),
    /// A part of the request could not be read.
    Unknown(String),
}

impl View for RequestError {
    type V = RequestFault;

    open spec fn view(&self) -> RequestFault {
        match self {
            RequestError::InvalidArgument(text) => RequestFault::InvalidArgument(text@),
            RequestError::NotFound(text) => RequestFault::NotFound(text@),
            RequestError::FailedPrecondition(text) => RequestFault::FailedPrecondition(text@),
            RequestError::Internal(text) => RequestFault::Internal(text@),
            RequestError::Unknown(text) => RequestFault::Unknown(text@),
        }
    }
}

fn joined(front: &str, back: &str) -> (text: String)
    ensures
        text@ == front@ + back@,
{
    let mut text = front.to_owned();
    text.append(back);
    text
}

/// How a request for a source root without services is refused.
pub open spec fn refused_runtime(fault: RuntimeFault) -> RequestFault {
    match fault {
        RuntimeFault::UnknownSource { .. } => RequestFault::NotFound(runtime_message(fault)),
        RuntimeFault::UnavailableSource { .. } => RequestFault::FailedPrecondition(
            runtime_message(fault),
        ),
        _ => RequestFault::Internal(runtime_message(fault)),
    }
}

/// The source root that a request names, and its services.
pub open spec fn requested_source(entries: Map<Seq<char>, RuntimeView>, text: Seq<char>) -> Result<
    (Seq<char>, SourceContextView),
    RequestFault,
> {
    if !valid_id(text) {
        Err(
            RequestFault::InvalidArgument(
                "Invalid source ID: "@ + key_message(KeyFault::InvalidId(text)),
            ),
        )
    } else {
        match runtime_of(entries, text) {
            Ok(context) => Ok((text, context)),
            Err(fault) => Err(refused_runtime(fault)),
        }
    }
}

/// The source root that a request names, and its services.
pub fn parse_source_runtime<'a>(registry: &'a SourceRuntimeRegistry, source_id: &str) -> (source: Result<
    (SourceRootId, &'a SourceContext),
    RequestError,
>)
    ensures
        match source {
            Ok((id, context)) => requested_source(registry@.entries, source_id@) == Ok::<
                (Seq<char>, SourceContextView),
                RequestFault,
            >((id@, context@)),
            Err(error) => requested_source(registry@.entries, source_id@) == Err::<
                (Seq<char>, SourceContextView),
                RequestFault,
            >(error@),
        },
{
    let id = match SourceRootId::new(source_id) {
        Ok(id) => id,
        Err(error) => {
            return Err(
                RequestError::InvalidArgument(
                    joined("Invalid source ID: ", error.message().as_str()),
                ),
            );
        },
    };
    match registry.get(&id) {
        Ok(context) => Ok((id, context)),
        Err(error) => {
            let message = error.message();
            Err(
                match error {
                    SourceRuntimeRegistryError::UnknownSource { .. } => RequestError::NotFound(
                        message,
                    ),
                    SourceRuntimeRegistryError::UnavailableSource { .. } =>
                        RequestError::FailedPrecondition(message),
                    _ => RequestError::Internal(message),
                },
            )
        },
    }
}

/// The task that a request names. It must belong to the source root of the request.
pub open spec fn requested_task(text: Seq<char>, source: Seq<char>) -> Result<
    TaskKeyView,
    RequestFault,
> {
    match parse_task_key(text) {
        Err(fault) => Err(
            RequestFault::InvalidArgument("Invalid task key: "@ + key_message(fault)),
        ),
        Ok(key) => if key.project.source != source {
            Err(
                RequestFault::InvalidArgument(
                    "Task key source "@ + key.project.source + " does not match request source "@
                        + source + "."@,
                ),
            )
        } else {
            Ok(key)
        },
    }
}

/// The task that a request names.
pub fn parse_requested_task(task_key: &str, source_id: &SourceRootId) -> (key: Result<
    TaskKey,
    RequestError,
>)
    ensures
        crate::order::outcome(key) == requested_task(task_key@, source_id@),
{
    let key = match TaskKey::parse(task_key) {
        Ok(key) => key,
        Err(error) => {
            return Err(
                RequestError::InvalidArgument(
                    joined("Invalid task key: ", error.message().as_str()),
                ),
            );
        },
    };
    if !key.project_key().source_id().same_key(source_id) {
        let mut text = "Task key source ".to_owned();
        text.append(key.project_key().source_id().as_str());
        text.append(" does not match request source ");
        text.append(source_id.as_str());
        text.append(".");
        return Err(RequestError::InvalidArgument(text));
    }
    Ok(key)
}

/// A path stays below the root that it is relative to: no part of it leads up or to the top.
pub open spec fn stays_below(path: Seq<char>) -> bool {
    !components(path).contains(parent_part()) && !components(path).contains(root_part())
}

/// The report of a path that may lead outside.
pub open spec fn outside_message(path: Seq<char>) -> Seq<char> {
    "Manifest path must be source-root-relative: "@ + path
}

/// A path of a manifest, which must stay below the source root.
pub fn parse_manifest_path(path: &str) -> (parsed: Result<String, RequestError>)
    ensures
        match parsed {
            Ok(parsed) => stays_below(path@) && parsed@ == path@,
            Err(error) => !stays_below(path@) && error@ == RequestFault::InvalidArgument(
                outside_message(path@),
            ),
        },
{
    let parts = LogicalPath::parse(path);
    let n = parts.count();
    let ghost all = parts@;
    proof {
        reveal_strlit("/");
        reveal_strlit("..");
        assert("/"@ =~= root_part());
        assert(".."@ =~= parent_part());
    }
    let mut i: usize = 0;
    while i < n
        invariant
            i <= n,
            n == all.len(),
            all == parts@,
            all == components(path@),
            "/"@ == root_part(),
            ".."@ == parent_part(),
            forall|j: int|
                0 <= j < i ==> (#[trigger] all[j]) != parent_part() && all[j] != root_part(),
        decreases n - i,
    {
        let part = parts.part(i);
        if same_text(part, "..") || same_text(part, "/") {
            assert(all.contains(all[i as int]));
            return Err(
                RequestError::InvalidArgument(
                    joined("Manifest path must be source-root-relative: ", path),
                ),
            );
        }
        i = i + 1;
    }
    Ok(path.to_owned())
}

/// The first path among some that may lead outside.
pub open spec fn first_outside(paths: Seq<Seq<char>>) -> Option<Seq<char>>
    decreases paths.len(),
{
    if paths.len() == 0 {
        None
    } else {
        match first_outside(paths.drop_last()) {
            Some(path) => Some(path),
            None => if stays_below(paths.last()) {
                None
            } else {
                Some(paths.last())
            },
        }
    }
}

proof fn first_outside_stays(paths: Seq<Seq<char>>, n: int)
    requires
        0 <= n <= paths.len(),
        first_outside(paths.take(n)) is Some,
    ensures
        first_outside(paths) == first_outside(paths.take(n)),
    decreases paths.len(),
{
    if n == paths.len() {
        assert(paths.take(n) =~= paths);
    } else {
        assert(paths.drop_last().take(n) =~= paths.take(n));
        first_outside_stays(paths.drop_last(), n);
    }
}

/// All paths stay below the source root, or the first that may lead outside is reported.
pub fn validate_paths(paths: &Vec<String>) -> (valid: Result<(), RequestError>)
    ensures
        match valid {
            Ok(()) => first_outside(views(paths@)) is None,
            Err(error) => first_outside(views(paths@)) is Some && error@
                == RequestFault::InvalidArgument(outside_message(first_outside(views(paths@))->0)),
        },
{
    let ghost all = views(paths@);
    let mut i: usize = 0;
    assert(all.take(0) =~= Seq::empty());
    while i < paths.len()
        invariant
            i <= paths@.len(),
            all == views(paths@),
            first_outside(all.take(i as int)) is None,
        decreases paths.len() - i,
    {
        proof {
            assert(all.take(i + 1).drop_last() =~= all.take(i as int));
            assert(all.take(i + 1).last() == paths@[i as int]@);
        }
        if let Err(error) = parse_manifest_path(paths[i].as_str()) {
            proof {
                first_outside_stays(all, i + 1);
            }
            return Err(error);
        }
        i = i + 1;
    }
    assert(all.take(i as int) =~= all);
    Ok(())
}

/// The files and links of a manifest stay below the source root.
pub fn validate_manifest_paths(files: &Vec<String>, symlinks: &Vec<String>) -> (valid: Result<
    (),
    RequestError,
>)
    ensures
        match valid {
            Ok(()) => first_outside(views(files@)) is None && first_outside(views(symlinks@)) is None,
            Err(error) => match first_outside(views(files@)) {
                Some(path) => error@ == RequestFault::InvalidArgument(outside_message(path)),
                None => first_outside(views(symlinks@)) is Some && error@
                    == RequestFault::InvalidArgument(
                    outside_message(first_outside(views(symlinks@))->0),
                ),
            },
        },
{
    if let Err(error) = validate_paths(files) {
        return Err(error);
    }
    validate_paths(symlinks)
}

/// The hash of some content, and how long it is.
#[derive(Debug)]
pub struct ContentDigest {
    pub hash: String,
    pub size: u64,
}

/// Two digests are the same.
pub open spec fn same_content(a: ContentDigest, b: ContentDigest) -> bool {
    a.hash@ == b.hash@ && a.size == b.size
}

fn is_same_digest(a: &ContentDigest, b: &ContentDigest) -> (same: bool)
    ensures
        same == same_content(*a, *b),
{
    a.size == b.size && same_text(a.hash.as_str(), b.hash.as_str())
}

/// What a digest was made from must be what the digest of the task says, and its bytes must
/// have that digest.
pub fn check_digest_source(
    task: &ContentDigest,
    source: &ContentDigest,
    of_bytes: &ContentDigest,
) -> (checked: Result<(), RequestError>)
    ensures
        match checked {
            Ok(()) => same_content(*source, *task) && same_content(*of_bytes, *source),
            Err(error) => if !same_content(*source, *task) {
                error@ == RequestFault::InvalidArgument(
                    "Digest source does not match the task digest."@,
                )
            } else {
                !same_content(*of_bytes, *source) && error@ == RequestFault::InvalidArgument(
                    "Digest source bytes do not match its digest."@,
                )
            },
        },
{
    if !is_same_digest(source, task) {
        return Err(
            RequestError::InvalidArgument(
                "Digest source does not match the task digest.".to_owned(),
            ),
        );
    }
    if !is_same_digest(of_bytes, source) {
        return Err(
            RequestError::InvalidArgument(
                "Digest source bytes do not match its digest.".to_owned(),
            ),
        );
    }
    Ok(())
}

/// What a part of a request says: nothing where it is missing, and why where it could not be
/// read.
#[derive(Debug)]
pub enum RequestPart<T> {
    Missing,
    Unreadable(String),
    Given(T),
}

/// The paths that a manifest names.
#[derive(Debug)]
pub struct ManifestPaths {
    pub files: Vec<String>,
    pub symlinks: Vec<String>,
}

/// A request for the outputs of a task.
#[derive(Debug)]
pub struct OutputsRequest {
    pub source_id: String,
    pub task_key: String,
    pub digest: RequestPart<ContentDigest>,
    pub manifest: RequestPart<ManifestPaths>,
}

/// What the digest of a request was made from: its own digest, that of its bytes, and its path.
#[derive(Debug)]
pub struct DigestSource {
    pub digest: RequestPart<ContentDigest>,
    pub of_bytes: Result<ContentDigest, String>,
    pub path: String,
}

/// The report of paths of a manifest of which one may lead outside.
pub open spec fn refused_paths(paths: ManifestPaths) -> Option<RequestFault> {
    match first_outside(views(paths.files@)) {
        Some(path) => Some(RequestFault::InvalidArgument(outside_message(path))),
        None => match first_outside(views(paths.symlinks@)) {
            Some(path) => Some(RequestFault::InvalidArgument(outside_message(path))),
            None => None,
        },
    }
}

/// The source root and the task of a request for outputs, or the first thing that is wrong
/// with it: its source root, its task, its digest, its manifest, and the paths of that.
pub open spec fn requested_outputs(
    entries: Map<Seq<char>, RuntimeView>,
    request: OutputsRequest,
) -> Result<(Seq<char>, TaskKeyView), RequestFault> {
    match requested_source(entries, request.source_id@) {
        Err(fault) => Err(fault),
        Ok((source, _)) => match requested_task(request.task_key@, source) {
            Err(fault) => Err(fault),
            Ok(key) => match request.digest {
                RequestPart::Missing => Err(RequestFault::InvalidArgument("Missing digest"@)),
                RequestPart::Unreadable(text) => Err(RequestFault::Unknown(text@)),
                RequestPart::Given(_) => match request.manifest {
                    RequestPart::Missing => Err(RequestFault::InvalidArgument("Missing manifest"@)),
                    RequestPart::Unreadable(text) => Err(RequestFault::Unknown(text@)),
                    RequestPart::Given(paths) => match refused_paths(paths) {
                        Some(fault) => Err(fault),
                        None => Ok((source, key)),
                    },
                },
            },
        },
    }
}

/// What a check shows.
pub open spec fn outputs_outcome(checked: Result<(SourceRootId, TaskKey), RequestError>) -> Result<
    (Seq<char>, TaskKeyView),
    RequestFault,
> {
    match checked {
        Ok((source, key)) => Ok((source@, key@)),
        Err(error) => Err(error@),
    }
}

/// Checks a request for the outputs of a task.
pub fn check_outputs_request(registry: &SourceRuntimeRegistry, request: &OutputsRequest) -> (checked:
    Result<(SourceRootId, TaskKey), RequestError>)
    ensures
        outputs_outcome(checked) == requested_outputs(registry@.entries, *request),
{
    let source = match parse_source_runtime(registry, request.source_id.as_str()) {
        Ok((source, _)) => source,
        Err(error) => {
            return Err(error);
        },
    };
    let key = match parse_requested_task(request.task_key.as_str(), &source) {
        Ok(key) => key,
        Err(error) => {
            return Err(error);
        },
    };
    match &request.digest {
        RequestPart::Missing => {
            return Err(RequestError::InvalidArgument("Missing digest".to_owned()));
        },
        RequestPart::Unreadable(text) => {
            return Err(RequestError::Unknown(text.clone()));
        },
        RequestPart::Given(_) => {},
    }
    match &request.manifest {
        RequestPart::Missing => Err(RequestError::InvalidArgument("Missing manifest".to_owned())),
        RequestPart::Unreadable(text) => Err(RequestError::Unknown(text.clone())),
        RequestPart::Given(paths) => match validate_manifest_paths(&paths.files, &paths.symlinks) {
            Ok(()) => Ok((source, key)),
            Err(error) => Err(error),
        },
    }
}

/// What is wrong with what a digest was made from, if anything: first its digest, then its
/// bytes, then its path.
pub open spec fn refused_digest_source(task: ContentDigest, source: DigestSource) -> Option<
    RequestFault,
> {
    match source.digest {
        RequestPart::Missing => Some(
            RequestFault::InvalidArgument("Missing digest source digest"@),
        ),
        RequestPart::Unreadable(text) => Some(RequestFault::InvalidArgument(text@)),
        RequestPart::Given(digest) => if !same_content(digest, task) {
            Some(RequestFault::InvalidArgument("Digest source does not match the task digest."@))
        } else {
            match source.of_bytes {
                Err(text) => Some(RequestFault::InvalidArgument(text@)),
                Ok(of_bytes) => if !same_content(of_bytes, digest) {
                    Some(
                        RequestFault::InvalidArgument(
                            "Digest source bytes do not match its digest."@,
                        ),
                    )
                } else if !stays_below(source.path@) {
                    Some(RequestFault::InvalidArgument(outside_message(source.path@)))
                } else {
                    None
                },
            }
        },
    }
}

/// The source root and the task of a request to keep the outputs of a task, or the first thing
/// that is wrong with it.
pub open spec fn requested_archive(
    entries: Map<Seq<char>, RuntimeView>,
    request: OutputsRequest,
    source: Option<DigestSource>,
) -> Result<(Seq<char>, TaskKeyView), RequestFault> {
    match (requested_outputs(entries, request), request.digest, source) {
        (Ok(found), RequestPart::Given(digest), Some(source)) => match refused_digest_source(
            digest,
            source,
        ) {
            Some(fault) => Err(fault),
            None => Ok(found),
        },
        (found, _, _) => found,
    }
}

/// Checks a request to keep the outputs of a task.
pub fn check_archive_request(
    registry: &SourceRuntimeRegistry,
    request: &OutputsRequest,
    source: &Option<DigestSource>,
) -> (checked: Result<(SourceRootId, TaskKey), RequestError>)
    ensures
        outputs_outcome(checked) == requested_archive(registry@.entries, *request, *source),
{
    let found = match check_outputs_request(registry, request) {
        Ok(found) => found,
        Err(error) => {
            return Err(error);
        },
    };
    if let (RequestPart::Given(task), Some(source)) = (&request.digest, source) {
        let digest = match &source.digest {
            RequestPart::Missing => {
                return Err(
                    RequestError::InvalidArgument("Missing digest source digest".to_owned()),
                );
            },
            RequestPart::Unreadable(text) => {
                return Err(RequestError::InvalidArgument(text.clone()));
            },
            RequestPart::Given(digest) => digest,
        };
        match &source.of_bytes {
            Ok(of_bytes) => {
                if let Err(error) = check_digest_source(task, digest, of_bytes) {
                    return Err(error);
                }
            },
            Err(text) => {
                if is_same_digest(digest, task) {
                    return Err(RequestError::InvalidArgument(text.clone()));
                }
                return Err(
                    RequestError::InvalidArgument(
                        "Digest source does not match the task digest.".to_owned(),
                    ),
                );
            },
        }
        if let Err(error) = parse_manifest_path(source.path.as_str()) {
            return Err(error);
        }
    }
    Ok(found)
}

/// The source root and the task of a request to restore the outputs of a task from a storage
/// backend, and whether that is remote, or the first thing that is wrong with it.
pub open spec fn requested_hydration(
    entries: Map<Seq<char>, RuntimeView>,
    request: OutputsRequest,
    backends: Seq<Seq<char>>,
    backend: Seq<char>,
) -> Result<(Seq<char>, TaskKeyView, bool), RequestFault> {
    match requested_outputs(entries, request) {
        Err(fault) => Err(fault),
        Ok((source, key)) => if backends.contains(backend) {
            Ok((source, key, has_text(backend, "remote"@) || !has_text(backend, "local"@)))
        } else {
            Err(RequestFault::InvalidArgument("Missing storage backend"@))
        },
    }
}

/// Checks a request to restore the outputs of a task from one of the storage backends.
pub fn check_hydrate_request(
    registry: &SourceRuntimeRegistry,
    request: &OutputsRequest,
    backends: &Vec<String>,
    backend: &str,
) -> (checked: Result<(SourceRootId, TaskKey, bool), RequestError>)
    ensures
        (match checked {
            Ok((source, key, remote)) => Ok((source@, key@, remote)),
            Err(error) => Err(error@),
        }) == requested_hydration(registry@.entries, *request, views(backends@), backend@),
{
    let (source, key) = match check_outputs_request(registry, request) {
        Ok(found) => found,
        Err(error) => {
            return Err(error);
        },
    };
    let mut i: usize = 0;
    while i < backends.len()
        invariant
            i <= backends@.len(),
            outputs_outcome(Ok((source, key))) == requested_outputs(registry@.entries, *request),
            forall|j: int| 0 <= j < i ==> #[trigger] views(backends@)[j] != backend@,
        decreases backends.len() - i,
    {
        assert(views(backends@)[i as int] == backends@[i as int]@);
        if same_text(backends[i].as_str(), backend) {
            assert(views(backends@).contains(backend@));
            return Ok((source, key, is_remote_backend(backend)));
        }
        i = i + 1;
    }
    Err(RequestError::InvalidArgument("Missing storage backend".to_owned()))
}

/// Whether a storage backend is remote, by its name.
pub fn is_remote_backend(id: &str) -> (remote: bool)
    ensures
        remote == (has_text(id@, "remote"@) || !has_text(id@, "local"@)),
{
    contains_text(id, "remote") || !contains_text(id, "local")
}

/// How long a daemon may sit without a request, in milliseconds.
pub const IDLE_TTL_MILLIS: u64 = 14_400_000;

/// Why a daemon retires.
#[derive(Clone, Copy, PartialEq, Eq, Structural, Debug)]
pub enum Retirement {
    /// A source root was removed.
    RootRemoved,
    /// Nobody asked for anything in a long time.
    Idle,
}

/// Why a daemon retires, if it does.
pub open spec fn retirement(root_missing: bool, elapsed: nat, last_activity: nat) -> Option<
    Retirement,
> {
    if root_missing {
        Some(Retirement::RootRemoved)
    } else if elapsed >= last_activity && elapsed - last_activity >= IDLE_TTL_MILLIS {
        Some(Retirement::Idle)
    } else {
        None
    }
}

/// Why a daemon retires, if it does: how long it has run and when it was last asked, in
/// milliseconds since it started.
pub fn decide_retirement(root_missing: bool, elapsed: u64, last_activity: u64) -> (reason: Option<
    Retirement,
>)
    ensures
        reason == retirement(root_missing, elapsed as nat, last_activity as nat),
{
    let idle = elapsed.saturating_sub(last_activity);
    if root_missing {
        Some(Retirement::RootRemoved)
    } else if idle >= IDLE_TTL_MILLIS {
        Some(Retirement::Idle)
    } else {
        None
    }
}

/// The first source root that is missing, given which are present.
pub fn get_missing_source_root<'a>(sources: &'a SourceRegistry, present: &Vec<bool>) -> (missing: Option<
    &'a SourceRootId,
>)
    requires
        present@.len() == sources.ids().len(),
    ensures
        match missing {
            Some(id) => exists|i: int|
                0 <= i < present@.len() && !(#[trigger] present@[i]) && id@ == sources.ids()[i] && (
                forall|j: int| 0 <= j < i ==> #[trigger] present@[j]),
            None => forall|i: int| 0 <= i < present@.len() ==> #[trigger] present@[i],
        },
{
    let mut i: usize = 0;
    while i < present.len()
        invariant
            i <= present@.len(),
            present@.len() == sources.ids().len(),
            forall|j: int| 0 <= j < i ==> #[trigger] present@[j],
        decreases present.len() - i,
    {
        if !present[i] {
            return Some(sources.id_at(i));
        }
        i = i + 1;
    }
    None
}

/// A path that a request may use cannot lead out of the source root: joined to the root and
/// cleaned of detours it still begins with the root.
pub proof fn manifest_paths_stay_inside(root: Seq<Seq<char>>, path: Seq<char>)
    requires
        stays_below(path),
    ensures
        root.is_prefix_of(crate::path::logical_join(root, components(path))),
{
    join_stays_inside(root, components(path));
}

proof fn join_stays_inside(root: Seq<Seq<char>>, parts: Seq<Seq<char>>)
    requires
        !parts.contains(parent_part()),
        !parts.contains(root_part()),
    ensures
        root.is_prefix_of(crate::path::logical_join(root, parts)),
    decreases parts.len(),
{
    if parts.len() > 0 {
        let rest = parts.drop_last();
        assert(!rest.contains(parent_part())) by {
            if rest.contains(parent_part()) {
                let i = choose|i: int| 0 <= i < rest.len() && rest[i] == parent_part();
                assert(parts[i] == parent_part());
            }
        }
        assert(!rest.contains(root_part())) by {
            if rest.contains(root_part()) {
                let i = choose|i: int| 0 <= i < rest.len() && rest[i] == root_part();
                assert(parts[i] == root_part());
            }
        }
        join_stays_inside(root, rest);
        assert(parts[parts.len() - 1] == parts.last());
    }
}

} // verus!
