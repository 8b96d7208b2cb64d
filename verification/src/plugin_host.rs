//! What plugins may ask of their host: processes, their output, and items of the workspace.

use crate::id::Id;
use crate::order::{outcome, view_of, views};
use crate::path::{components, LogicalPath};
use crate::table::{value_views, Key, Table};
use crate::task::{parse_target, target_text, Target, TargetProjectScope, TargetView};
use crate::text::{decimal, join_two, same_text, to_decimal};
use vstd::prelude::*;

verus! {

broadcast use {crate::order::group_views, crate::table::value_views_insert};

/// `bytes::Bytes`, bytes that can be shared.
#[verifier::external_type_specification]
#[verifier::external_body]
pub struct ExBytes(bytes::Bytes);

/// The bytes that a `bytes::Bytes` holds.
pub uninterp spec fn held_bytes(bytes: bytes::Bytes) -> Seq<u8>;

/// `bytes::Bytes::from` takes over the bytes of a vector.
#[verifier::external_body]
pub(crate) fn share_bytes(bytes: Vec<u8>) -> (shared: bytes::Bytes)
    ensures
        held_bytes(shared) == bytes@,
{
    bytes::Bytes::from(bytes)
}

/// `bytes::Bytes::len` counts the bytes.
#[verifier::external_body]
fn count_bytes(bytes: &bytes::Bytes) -> (n: usize)
    ensures
        n == held_bytes(*bytes).len(),
{
    bytes.len()
}

/// `bytes::Bytes::slice` gives a range of the bytes. It panics where the range is not one
/// of the bytes.
#[verifier::external_body]
fn slice_bytes(bytes: &bytes::Bytes, from: usize, to: usize) -> (part: Vec<u8>)
    requires
        from <= to <= held_bytes(*bytes).len(),
    ensures
        part@ == held_bytes(*bytes).subrange(from as int, to as int),
{
    bytes.slice(from..to).to_vec()
}

/// The time that a command may take, in milliseconds.
pub const PROCESS_COMMAND_TIMEOUT_MILLIS: u64 = 120_000;

/// The time that is kept back for the answer to a plugin, in milliseconds.
pub const PROCESS_RESPONSE_RESERVE_MILLIS: u64 = 30_000;

/// The time in which the output of a command that ended must come in, in milliseconds.
pub const PROCESS_OUTPUT_DRAIN_TIMEOUT_MILLIS: u64 = 1_000;

/// How many bytes of output are read at once.
pub const PROCESS_OUTPUT_CHUNK_SIZE: u64 = 65_536;

/// How many bytes of output a command may make.
pub const PROCESS_OUTPUT_LIMIT: usize = 268_435_456;

/// Why a plugin is refused.
pub enum ProcessFault {
    AlreadyConfigured,
    NotAName { id: Seq<char> },
    Unresolved { executable: Seq<char>, id: Seq<char> },
    DeclaredTwice { id: Seq<char> },
    NotConfigured,
    Undeclared { id: Seq<char> },
    OffsetBeyondEnd { offset: u64, len: u64 },
    IdsExhausted,
    UnknownResult { result_id: u64 },
    OutsideWorkspace,
    NoProjectScope { target: Seq<char> },
    InvalidTarget { target: Seq<char> },
}

/// Why a plugin is refused.
#[derive(Debug)]
pub enum ProcessError {
    /// What the plugin may run was declared before.
    AlreadyConfigured,
    /// What is to be run is not the name of an executable.
    NotAName { id: Id },
    /// No executable has the name.
    Unresolved { executable: String, id: Id },
    /// What is to be run is declared twice.
    DeclaredTwice { id: Id },
    /// The plugin did not declare what it runs.
    NotConfigured,
    /// The plugin did not declare this.
    Undeclared { id: Id },
    /// The output has no such place.
    OffsetBeyondEnd { offset: u64, len: u64 },
    /// No number is left for another result.
    IdsExhausted,
    /// There is no such result.
    UnknownResult { result_id: u64 },
    /// The directory is outside the workspace.
    OutsideWorkspace,
    /// The target does not name a project.
    NoProjectScope { target: String },
    /// The text is no target.
    InvalidTarget { target: String },
}

impl View for ProcessError {
    type V = ProcessFault;

    open spec fn view(&self) -> ProcessFault {
        match self {
            ProcessError::AlreadyConfigured => ProcessFault::AlreadyConfigured,
            ProcessError::NotAName { id } => ProcessFault::NotAName { id: id@ },
            ProcessError::Unresolved { executable, id } => ProcessFault::Unresolved {
                executable: executable@,
                id: id@,
            },
            ProcessError::DeclaredTwice { id } => ProcessFault::DeclaredTwice { id: id@ },
            ProcessError::NotConfigured => ProcessFault::NotConfigured,
            ProcessError::Undeclared { id } => ProcessFault::Undeclared { id: id@ },
            ProcessError::OffsetBeyondEnd { offset, len } => ProcessFault::OffsetBeyondEnd {
                offset: *offset,
                len: *len,
            },
            ProcessError::IdsExhausted => ProcessFault::IdsExhausted,
            ProcessError::UnknownResult { result_id } => ProcessFault::UnknownResult {
                result_id: *result_id,
            },
            ProcessError::OutsideWorkspace => ProcessFault::OutsideWorkspace,
            ProcessError::NoProjectScope { target } => ProcessFault::NoProjectScope {
                target: target@,
            },
            ProcessError::InvalidTarget { target } => ProcessFault::InvalidTarget {
                target: target@,
            },
        }
    }
}

/// What a plugin is told when it is refused.
pub open spec fn process_message(fault: ProcessFault) -> Seq<char> {
    match fault {
        ProcessFault::AlreadyConfigured => "plugin process capabilities are already configured"@,
        ProcessFault::NotAName { id } => "process capability `"@ + id
            + "` must declare an executable name without a path"@,
        ProcessFault::Unresolved { executable, id } => "unable to resolve executable `"@
            + executable + "` for process capability `"@ + id + "`"@,
        ProcessFault::DeclaredTwice { id } => "process capability `"@ + id
            + "` is declared more than once"@,
        ProcessFault::NotConfigured => "plugin process capabilities are not configured"@,
        ProcessFault::Undeclared { id } => "plugin requested undeclared process capability `"@ + id
            + "`"@,
        ProcessFault::OffsetBeyondEnd { offset, len } => "process output offset "@ + decimal(
            offset as nat,
        ) + " exceeds stream length "@ + decimal(len as nat),
        ProcessFault::IdsExhausted => "process result IDs are exhausted"@,
        ProcessFault::UnknownResult { result_id } => "unknown process result `"@ + decimal(
            result_id as nat,
        ) + "`"@,
        ProcessFault::OutsideWorkspace =>
            "plugin process working directory must be inside the workspace"@,
        ProcessFault::NoProjectScope { target } => "Unable to load task "@ + target
            + ". Requires a fully-qualified target with a project scope."@,
        ProcessFault::InvalidTarget { target } => "Invalid target "@ + target + "."@,
    }
}

impl ProcessError {
    /// What the error reports to a plugin.
    pub fn message(&self) -> (text: String)
        ensures
            text@ == process_message(self@),
    {
        match self {
            ProcessError::AlreadyConfigured => {
                "plugin process capabilities are already configured".to_owned()
            },
            ProcessError::NotAName { id } => join_two(
                "process capability `",
                id.as_str(),
                "` must declare an executable name without a path",
            ),
            ProcessError::Unresolved { executable, id } => {
                let mut text = join_two(
                    "unable to resolve executable `",
                    executable.as_str(),
                    "` for process capability `",
                );
                text.append(id.as_str());
                text.append("`");
                text
            },
            ProcessError::DeclaredTwice { id } => join_two(
                "process capability `",
                id.as_str(),
                "` is declared more than once",
            ),
            ProcessError::NotConfigured => {
                "plugin process capabilities are not configured".to_owned()
            },
            ProcessError::Undeclared { id } => join_two(
                "plugin requested undeclared process capability `",
                id.as_str(),
                "`",
            ),
            ProcessError::OffsetBeyondEnd { offset, len } => {
                let mut text = join_two(
                    "process output offset ",
                    to_decimal(*offset).as_str(),
                    " exceeds stream length ",
                );
                text.append(to_decimal(*len).as_str());
                text
            },
            ProcessError::IdsExhausted => "process result IDs are exhausted".to_owned(),
            ProcessError::UnknownResult { result_id } => join_two(
                "unknown process result `",
                to_decimal(*result_id).as_str(),
                "`",
            ),
            ProcessError::OutsideWorkspace => {
                "plugin process working directory must be inside the workspace".to_owned()
            },
            ProcessError::NoProjectScope { target } => join_two(
                "Unable to load task ",
                target.as_str(),
                ". Requires a fully-qualified target with a project scope.",
            ),
            ProcessError::InvalidTarget { target } => join_two(
                "Invalid target ",
                target.as_str(),
                ".",
            ),
        }
    }
}

/// What a plugin declares that it runs.
pub struct CapabilityView {
    pub id: Seq<char>,
    pub executable: Seq<char>,
}

/// What a plugin declares that it runs: the name of an executable, under an identifier.
#[derive(Debug)]
pub struct ProcessCapabilityDeclaration {
    pub id: Id,
    pub executable: String,
}

impl View for ProcessCapabilityDeclaration {
    type V = CapabilityView;

    open spec fn view(&self) -> CapabilityView {
        CapabilityView { id: self.id@, executable: self.executable@ }
    }
}

/// Where executables are, by the identifiers under which a plugin declares them.
pub type Executables = Map<Seq<char>, Seq<Seq<char>>>;

/// One more declaration, with the place where the executable was found.
pub open spec fn with_capability(
    known: Executables,
    capability: CapabilityView,
    found: Option<Seq<Seq<char>>>,
) -> Result<Executables, ProcessFault> {
    if capability.executable.len() == 0 || components(capability.executable).len() != 1 {
        Err(ProcessFault::NotAName { id: capability.id })
    } else {
        match found {
            None => Err(
                ProcessFault::Unresolved {
                    executable: capability.executable,
                    id: capability.id,
                },
            ),
            Some(place) => if known.dom().contains(capability.id) {
                Err(ProcessFault::DeclaredTwice { id: capability.id })
            } else {
                Ok(known.insert(capability.id, place))
            },
        }
    }
}

/// All declarations, up to the first that is refused.
pub open spec fn with_capabilities(
    capabilities: Seq<CapabilityView>,
    found: Seq<Option<Seq<Seq<char>>>>,
) -> Result<Executables, ProcessFault>
    decreases capabilities.len(),
{
    if capabilities.len() == 0 {
        Ok(Map::empty())
    } else {
        match with_capabilities(capabilities.drop_last(), found) {
            Err(fault) => Err(fault),
            Ok(known) => with_capability(
                known,
                capabilities.last(),
                found[capabilities.len() - 1],
            ),
        }
    }
}

proof fn with_capabilities_stops(
    capabilities: Seq<CapabilityView>,
    found: Seq<Option<Seq<Seq<char>>>>,
    n: int,
)
    requires
        0 <= n <= capabilities.len(),
        with_capabilities(capabilities.take(n), found) is Err,
    ensures
        with_capabilities(capabilities, found) == with_capabilities(capabilities.take(n), found),
    decreases capabilities.len(),
{
    if n == capabilities.len() {
        assert(capabilities.take(n) =~= capabilities);
    } else {
        assert(capabilities.drop_last().take(n) =~= capabilities.take(n));
        with_capabilities_stops(capabilities.drop_last(), found, n);
    }
}

/// The views of places that may be missing.
pub open spec fn place_views(found: Seq<Option<LogicalPath>>) -> Seq<Option<Seq<Seq<char>>>> {
    found.map_values(|place: Option<LogicalPath>| view_of(place))
}

/// What a plugin may run. It declares that once.
#[derive(Debug)]
pub struct ProcessHostAccess {
    pub executables: Option<Table<Id, LogicalPath>>,
}

/// What a plugin may run, where it declared it.
pub open spec fn access_view(access: ProcessHostAccess) -> Option<Executables> {
    match access.executables {
        Some(executables) => Some(value_views(executables@)),
        None => None,
    }
}

impl ProcessHostAccess {
    /// Nothing is declared.
    pub fn new() -> (access: Self)
        ensures
            access_view(access) is None,
    {
        ProcessHostAccess { executables: None }
    }

    /// Takes in what a plugin declares, with the places where the executables were found.
    /// What is refused leaves nothing declared.
    pub fn configure(
        &mut self,
        capabilities: &Vec<ProcessCapabilityDeclaration>,
        found: &Vec<Option<LogicalPath>>,
    ) -> (done: Result<(), ProcessError>)
        requires
            capabilities@.len() == found@.len(),
        ensures
            match done {
                Ok(()) => {
                    &&& access_view(*old(self)) is None
                    &&& access_view(*final(self)) is Some
                    &&& with_capabilities(views(capabilities@), place_views(found@)) == Ok::<
                        Executables,
                        ProcessFault,
                    >(access_view(*final(self))->0)
                },
                Err(error) => {
                    &&& access_view(*final(self)) == access_view(*old(self))
                    &&& if access_view(*old(self)) is Some {
                        error@ is AlreadyConfigured
                    } else {
                        with_capabilities(views(capabilities@), place_views(found@)) == Err::<
                            Executables,
                            ProcessFault,
                        >(error@)
                    }
                },
            },
    {
        if self.executables.is_some() {
            return Err(ProcessError::AlreadyConfigured);
        }
        let ghost all = views(capabilities@);
        let ghost places = place_views(found@);
        let mut resolved: Table<Id, LogicalPath> = Table::new();
        let mut i: usize = 0;
        proof {
            assert(all.take(0) =~= Seq::empty());
            assert(value_views(resolved@) =~= Map::empty());
        }
        while i < capabilities.len()
            invariant
                i <= capabilities@.len(),
                capabilities@.len() == found@.len(),
                all == views(capabilities@),
                places == place_views(found@),
                access_view(*self) == access_view(*old(self)),
                access_view(*old(self)) is None,
                with_capabilities(all.take(i as int), places) == Ok::<Executables, ProcessFault>(
                    value_views(resolved@),
                ),
            decreases capabilities.len() - i,
        {
            let capability = &capabilities[i];
            proof {
                assert(all.take(i + 1).drop_last() =~= all.take(i as int));
                assert(all.take(i + 1).last() == capability@);
                assert(places[i as int] == view_of(found@[i as int]));
            }
            if capability.executable.as_str().is_empty() || LogicalPath::parse(
                capability.executable.as_str(),
            ).count() != 1 {
                proof {
                    with_capabilities_stops(all, places, i + 1);
                }
                return Err(ProcessError::NotAName { id: capability.id.copy_key() });
            }
            let place = match &found[i] {
                Some(place) => place.clone(),
                None => {
                    proof {
                        with_capabilities_stops(all, places, i + 1);
                    }
                    return Err(
                        ProcessError::Unresolved {
                            executable: capability.executable.clone(),
                            id: capability.id.copy_key(),
                        },
                    );
                },
            };
            if resolved.contains(&capability.id) {
                proof {
                    with_capabilities_stops(all, places, i + 1);
                }
                return Err(ProcessError::DeclaredTwice { id: capability.id.copy_key() });
            }
            resolved.insert(capability.id.copy_key(), place);
            i = i + 1;
        }
        assert(all.take(i as int) =~= all);
        self.executables = Some(resolved);
        Ok(())
    }

    /// Where the executable is that a plugin declared.
    pub fn executable(&self, capability: &Id) -> (place: Result<&LogicalPath, ProcessError>)
        ensures
            outcome(place) == match access_view(*self) {
                None => Err(ProcessFault::NotConfigured),
                Some(known) => if known.dom().contains(capability@) {
                    Ok(known[capability@])
                } else {
                    Err(ProcessFault::Undeclared { id: capability@ })
                },
            },
    {
        match &self.executables {
            None => Err(ProcessError::NotConfigured),
            Some(executables) => match executables.get(capability) {
                Some(place) => Ok(place),
                None => Err(ProcessError::Undeclared { id: capability.copy_key() }),
            },
        }
    }
}

/// A file that may be an executable.
pub struct CandidateView {
    pub path: Seq<Seq<char>>,
    pub is_file: bool,
    pub physical: Option<Seq<Seq<char>>>,
}

/// A file that may be an executable: where it is, and where it is behind all links.
#[derive(Debug)]
pub struct ExecutableCandidate {
    pub path: LogicalPath,
    pub is_file: bool,
    pub physical: Option<LogicalPath>,
}

impl View for ExecutableCandidate {
    type V = CandidateView;

    open spec fn view(&self) -> CandidateView {
        CandidateView {
            path: self.path@,
            is_file: self.is_file,
            physical: view_of(self.physical),
        }
    }
}

/// A file may be run: neither it nor what is behind it is in the workspace.
pub open spec fn may_run(candidate: CandidateView, workspace: Seq<Seq<char>>) -> bool {
    &&& !workspace.is_prefix_of(candidate.path)
    &&& candidate.is_file
    &&& candidate.physical is Some
    &&& !workspace.is_prefix_of(candidate.physical->0)
}

/// The first file that may be run.
pub open spec fn first_runnable(candidates: Seq<CandidateView>, workspace: Seq<Seq<char>>) -> Option<
    Seq<Seq<char>>,
>
    decreases candidates.len(),
{
    if candidates.len() == 0 {
        None
    } else {
        match first_runnable(candidates.drop_last(), workspace) {
            Some(place) => Some(place),
            None => if may_run(candidates.last(), workspace) {
                candidates.last().physical
            } else {
                None
            },
        }
    }
}

/// The first file that may be run. A workspace cannot slip in executables of its own.
pub fn choose_executable(candidates: &Vec<ExecutableCandidate>, workspace: &LogicalPath) -> (place: Option<
    LogicalPath,
>)
    ensures
        view_of(place) == first_runnable(views(candidates@), workspace@),
{
    let ghost all = views(candidates@);
    let mut place: Option<LogicalPath> = None;
    let mut i: usize = 0;
    assert(all.take(0) =~= Seq::empty());
    while i < candidates.len()
        invariant
            i <= candidates@.len(),
            all == views(candidates@),
            view_of(place) == first_runnable(all.take(i as int), workspace@),
        decreases candidates.len() - i,
    {
        let candidate = &candidates[i];
        proof {
            assert(all.take(i + 1).drop_last() =~= all.take(i as int));
            assert(all.take(i + 1).last() == candidate@);
        }
        if place.is_none() && !candidate.path.starts_with(workspace) && candidate.is_file {
            if let Some(physical) = &candidate.physical {
                if !physical.starts_with(workspace) {
                    place = Some(physical.clone());
                }
            }
        }
        i = i + 1;
    }
    assert(all.take(i as int) =~= all);
    place
}

/// Whatever is run is outside the workspace.
pub proof fn executables_are_outside(candidates: Seq<CandidateView>, workspace: Seq<Seq<char>>)
    ensures
        first_runnable(candidates, workspace) matches Some(place) ==> !workspace.is_prefix_of(place),
    decreases candidates.len(),
{
    if candidates.len() > 0 {
        executables_are_outside(candidates.drop_last(), workspace);
    }
}

/// A process works inside the workspace.
pub fn validate_process_cwd(cwd: &LogicalPath, workspace_root: &LogicalPath) -> (valid: Result<
    (),
    ProcessError,
>)
    ensures
        match valid {
            Ok(()) => workspace_root@.is_prefix_of(cwd@),
            Err(error) => !workspace_root@.is_prefix_of(cwd@) && error@ is OutsideWorkspace,
        },
{
    if cwd.starts_with(workspace_root) {
        Ok(())
    } else {
        Err(ProcessError::OutsideWorkspace)
    }
}

/// The time that a command may take: what the plugin has left without the reserve for the
/// answer, and not more than any command.
pub open spec fn command_timeout(remaining: Option<u64>) -> u64 {
    match remaining {
        None => PROCESS_COMMAND_TIMEOUT_MILLIS,
        Some(left) => if left < PROCESS_RESPONSE_RESERVE_MILLIS {
            0
        } else if left - PROCESS_RESPONSE_RESERVE_MILLIS < PROCESS_COMMAND_TIMEOUT_MILLIS {
            (left - PROCESS_RESPONSE_RESERVE_MILLIS) as u64
        } else {
            PROCESS_COMMAND_TIMEOUT_MILLIS
        },
    }
}

/// The time that a command may take, in milliseconds.
pub fn limit_command(remaining: Option<u64>) -> (timeout: u64)
    ensures
        timeout == command_timeout(remaining),
{
    match remaining {
        None => PROCESS_COMMAND_TIMEOUT_MILLIS,
        Some(left) => {
            let left = left.saturating_sub(PROCESS_RESPONSE_RESERVE_MILLIS);
            if left < PROCESS_COMMAND_TIMEOUT_MILLIS {
                left
            } else {
                PROCESS_COMMAND_TIMEOUT_MILLIS
            }
        },
    }
}

/// The limits of a command.
#[derive(Clone, Copy, PartialEq, Eq, Structural, Debug)]
pub struct CaptureLimits {
    pub timeout_millis: Option<u64>,
    pub output_limit: Option<usize>,
    pub output_drain_timeout_millis: Option<u64>,
}

/// The limits of a command that may take some time.
pub fn process_capture_options(timeout_millis: u64) -> (limits: CaptureLimits)
    ensures
        limits == (CaptureLimits {
            timeout_millis: Some(timeout_millis),
            output_limit: Some(PROCESS_OUTPUT_LIMIT),
            output_drain_timeout_millis: Some(PROCESS_OUTPUT_DRAIN_TIMEOUT_MILLIS),
        }),
{
    CaptureLimits {
        timeout_millis: Some(timeout_millis),
        output_limit: Some(PROCESS_OUTPUT_LIMIT),
        output_drain_timeout_millis: Some(PROCESS_OUTPUT_DRAIN_TIMEOUT_MILLIS),
    }
}

/// The code of a command: that with which it completed, where it did and has one.
pub fn exit_code(completed: Option<Option<i32>>) -> (code: i32)
    ensures
        code == (match completed {
            Some(Some(own)) => own as int,
            _ => -1,
        }),
{
    match completed {
        Some(Some(code)) => code,
        _ => -1,
    }
}

/// Which output of a command is read.
#[derive(Clone, Copy, PartialEq, Eq, Structural, Debug)]
pub enum ProcessOutputStream {
    Stderr,
    Stdout,
}

/// The output of a command.
pub struct OutputView {
    pub id: u64,
    pub stderr: Seq<u8>,
    pub stdout: Seq<u8>,
}

/// The output of a command.
pub struct ProcessOutput {
    pub id: u64,
    pub stderr: bytes::Bytes,
    pub stdout: bytes::Bytes,
}

impl View for ProcessOutput {
    type V = OutputView;

    open spec fn view(&self) -> OutputView {
        OutputView {
            id: self.id,
            stderr: held_bytes(self.stderr),
            stdout: held_bytes(self.stdout),
        }
    }
}

/// A part of an output, and whether nothing comes behind it.
#[derive(Debug)]
pub struct ProcessOutputChunk {
    pub bytes: Vec<u8>,
    pub eof: bool,
}

/// Where the part of an output that begins at a place ends.
pub open spec fn chunk_end(len: nat, offset: nat) -> nat {
    if offset + PROCESS_OUTPUT_CHUNK_SIZE < len {
        offset + PROCESS_OUTPUT_CHUNK_SIZE as nat
    } else {
        len
    }
}

/// The stream that is read.
pub open spec fn stream_of(output: OutputView, stream: ProcessOutputStream) -> Seq<u8> {
    match stream {
        ProcessOutputStream::Stderr => output.stderr,
        ProcessOutputStream::Stdout => output.stdout,
    }
}

impl ProcessOutput {
    /// The output of a command.
    pub fn new(id: u64, stdout: Vec<u8>, stderr: Vec<u8>) -> (output: Self)
        ensures
            output@ == (OutputView { id, stderr: stderr@, stdout: stdout@ }),
    {
        ProcessOutput { id, stderr: share_bytes(stderr), stdout: share_bytes(stdout) }
    }

    /// The part of an output that begins at a place.
    pub fn read(&self, stream: ProcessOutputStream, offset: u64) -> (chunk: Result<
        ProcessOutputChunk,
        ProcessError,
    >)
        ensures
            match chunk {
                Ok(chunk) => {
                    let all = stream_of(self@, stream);
                    let end = chunk_end(all.len(), offset as nat);
                    &&& offset <= all.len()
                    &&& chunk.bytes@ == all.subrange(offset as int, end as int)
                    &&& chunk.eof == (end == all.len())
                },
                Err(error) => offset > stream_of(self@, stream).len() && error@ == (
                ProcessFault::OffsetBeyondEnd {
                    offset,
                    len: stream_of(self@, stream).len() as u64,
                }),
            },
    {
        let output = match stream {
            ProcessOutputStream::Stderr => &self.stderr,
            ProcessOutputStream::Stdout => &self.stdout,
        };
        let len = count_bytes(output) as u64;
        if offset > len {
            return Err(ProcessError::OffsetBeyondEnd { offset, len });
        }
        let reach = offset.saturating_add(PROCESS_OUTPUT_CHUNK_SIZE);
        let end: u64 = if reach < len {
            reach
        } else {
            len
        };
        Ok(
            ProcessOutputChunk {
                bytes: slice_bytes(output, offset as usize, end as usize),
                eof: end >= len,
            },
        )
    }
}

/// An output is read whole by reading part after part: each part is what comes next, all but
/// the last hold something, and the last is marked.
pub proof fn chunks_make_the_output(all: Seq<u8>, offset: nat)
    requires
        offset <= all.len(),
    ensures
        all.skip(offset as int) == all.subrange(offset as int, chunk_end(all.len(), offset) as int)
            + all.skip(chunk_end(all.len(), offset) as int),
        offset < all.len() ==> chunk_end(all.len(), offset) > offset,
        chunk_end(all.len(), offset) == all.len() <==> all.skip(
            chunk_end(all.len(), offset) as int,
        ).len() == 0,
{
    let end = chunk_end(all.len(), offset) as int;
    assert(all.skip(offset as int) =~= all.subrange(offset as int, end) + all.skip(end));
}

/// The results of commands that a plugin has not closed: the last one at most.
pub struct OutputStateView {
    pub next_id: u64,
    pub output: Option<OutputView>,
}

/// The results of commands that a plugin has not closed: the last one at most.
pub struct ProcessOutputState {
    pub next_id: u64,
    pub output: Option<ProcessOutput>,
}

impl View for ProcessOutputState {
    type V = OutputStateView;

    open spec fn view(&self) -> OutputStateView {
        OutputStateView { next_id: self.next_id, output: view_of(self.output) }
    }
}

impl ProcessOutputState {
    /// No command was run.
    pub fn new() -> (state: Self)
        ensures
            state@ == (OutputStateView { next_id: 0, output: None }),
    {
        ProcessOutputState { next_id: 0, output: None }
    }

    /// Begins a command; gives the number of its result. The result before it is gone.
    pub fn begin(&mut self) -> (id: Result<u64, ProcessError>)
        ensures
            match id {
                Ok(id) => id == old(self)@.next_id + 1 && final(self)@ == (OutputStateView {
                    next_id: id,
                    output: None,
                }),
                Err(error) => old(self)@.next_id == u64::MAX && error@ is IdsExhausted
                    && final(self)@ == old(self)@,
            },
    {
        match self.next_id.checked_add(1) {
            None => Err(ProcessError::IdsExhausted),
            Some(id) => {
                self.next_id = id;
                self.output = None;
                Ok(id)
            },
        }
    }

    /// Keeps the output of a command.
    pub fn keep(&mut self, output: ProcessOutput)
        ensures
            final(self)@ == (OutputStateView { output: Some(output@), ..old(self)@ }),
    {
        self.output = Some(output);
    }

    /// The result with a number.
    pub fn find(&self, result_id: u64) -> (output: Result<&ProcessOutput, ProcessError>)
        ensures
            match output {
                Ok(output) => self@.output == Some(output@) && output@.id == result_id,
                Err(error) => error@ == (ProcessFault::UnknownResult { result_id }) && !(
                self@.output is Some && self@.output->0.id == result_id),
            },
    {
        match &self.output {
            Some(output) => if output.id == result_id {
                Ok(output)
            } else {
                Err(ProcessError::UnknownResult { result_id })
            },
            None => Err(ProcessError::UnknownResult { result_id }),
        }
    }

    /// Closes the result with a number.
    pub fn close(&mut self, result_id: u64) -> (done: Result<(), ProcessError>)
        ensures
            match done {
                Ok(()) => {
                    &&& old(self)@.output is Some && old(self)@.output->0.id == result_id
                    &&& final(self)@ == (OutputStateView { output: None, ..old(self)@ })
                },
                Err(error) => {
                    &&& !(old(self)@.output is Some && old(self)@.output->0.id == result_id)
                    &&& error@ == (ProcessFault::UnknownResult { result_id })
                    &&& final(self)@ == old(self)@
                },
            },
    {
        let known = match &self.output {
            Some(output) => output.id == result_id,
            None => false,
        };
        if !known {
            return Err(ProcessError::UnknownResult { result_id });
        }
        self.output = None;
        Ok(())
    }
}

/// What a plugin is for.
#[derive(Clone, Copy, PartialEq, Eq, Structural, Debug)]
pub enum PluginType {
    Extension,
    Toolchain,
    Vcs,
}

/// Whether a function that all plugins may have is kept for a plugin. Version control may
/// write to the log, and nothing else.
pub fn keeps_function(plugin_type: PluginType, name: &str) -> (kept: bool)
    ensures
        kept == (plugin_type == PluginType::Vcs ==> name@ == "host_log"@),
{
    match plugin_type {
        PluginType::Vcs => same_text(name, "host_log"),
        _ => true,
    }
}

/// The functions that a plugin has besides those of all plugins. Version control runs
/// processes, and others read the workspace.
pub fn own_functions(plugin_type: PluginType) -> (names: Vec<&'static str>)
    ensures
        names@ == if plugin_type == PluginType::Vcs {
            seq!["exec_process_command_v1", "read_process_output_v1", "close_process_output_v1"]
        } else {
            seq![
                "load_extension_config_by_id",
                "load_project_by_id",
                "load_projects_by_id",
                "load_task_by_target",
                "load_tasks_by_target",
                "load_toolchain_config_by_id",
            ]
        },
{
    let mut names: Vec<&'static str> = Vec::new();
    match plugin_type {
        PluginType::Vcs => {
            names.push("exec_process_command_v1");
            names.push("read_process_output_v1");
            names.push("close_process_output_v1");
        },
        _ => {
            names.push("load_extension_config_by_id");
            names.push("load_project_by_id");
            names.push("load_projects_by_id");
            names.push("load_task_by_target");
            names.push("load_tasks_by_target");
            names.push("load_toolchain_config_by_id");
        },
    }
    names
}

/// The task that a plugin asks for, which must name its project.
pub open spec fn wanted_target(text: Seq<char>) -> Result<TargetView, ProcessFault> {
    match parse_target(text) {
        None => Err(ProcessFault::InvalidTarget { target: text }),
        Some(target) => if target.project is Id {
            Ok(target)
        } else {
            Err(ProcessFault::NoProjectScope { target: target_text(target) })
        },
    }
}

/// The task that a plugin asks for.
pub fn parse_wanted_target(text: &str) -> (target: Result<Target, ProcessError>)
    ensures
        outcome(target) == wanted_target(text@),
{
    let target = match Target::parse(text) {
        Ok(target) => target,
        Err(error) => {
            return Err(ProcessError::InvalidTarget { target: error.target });
        },
    };
    match &target.project {
        TargetProjectScope::Id(_) => Ok(target),
        _ => Err(ProcessError::NoProjectScope { target: target.to_text() }),
    }
}

} // verus!
