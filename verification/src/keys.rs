//! Source-qualified identities of projects, tasks and task invocations.

use crate::id::{is_valid_id, valid_id, Id, IdError};
use crate::order::{outcome, Ranked};
use crate::source::{primary_text, separator_behind_id, source_separator, SourceRootId};
use crate::table::Key;
use crate::text::{
    is_last, join_two, occurs_at, split_at_first, split_at_last, split_first, split_first_at,
    split_last, split_last_at, text_before, text_less, text_less_irreflexive, text_less_total,
    text_less_transitive,
};
use vstd::prelude::*;

verus! {

/// Why a text is no qualified key.
pub enum KeyFault {
    ProjectFormat,
    TaskFormat,
    VariantFormat,
    InvalidId(Seq<char>),
}

/// Why a text is no qualified key.
#[derive(Debug)]
pub enum KeyError {
    /// The text does not use the format `<source>::<project>`.
    ProjectFormat,
    /// The text does not use the format `<source>::<project>:<task>`.
    TaskFormat,
    /// The variant is not made of 64 hexadecimal characters.
    VariantFormat,
    /// A part of the key is not an identifier.
    InvalidId(IdError),
}

impl View for KeyError {
    type V = KeyFault;

    open spec fn view(&self) -> KeyFault {
        match self {
            KeyError::ProjectFormat => KeyFault::ProjectFormat,
            KeyError::TaskFormat => KeyFault::TaskFormat,
            KeyError::VariantFormat => KeyFault::VariantFormat,
            KeyError::InvalidId(error) => KeyFault::InvalidId(error.id@),
        }
    }
}

/// The text that each fault reports to users.
pub open spec fn key_message(fault: KeyFault) -> Seq<char> {
    match fault {
        KeyFault::ProjectFormat =>
            "Qualified project key must use the format <source>::<project>."@,
        KeyFault::TaskFormat =>
            "Qualified task key must use the format <source>::<project>:<task>."@,
        KeyFault::VariantFormat => "Task invocation variants must be 64 hexadecimal characters."@,
        KeyFault::InvalidId(id) => "Invalid format for "@ + id
            + ", may only contain alpha-numeric characters, dashes (-), slashes (/), underscores (_), and periods (.)."@,
    }
}

impl KeyError {
    /// What the error reports to users.
    pub fn message(&self) -> (text: String)
        ensures
            text@ == key_message(self@),
    {
        match self {
            KeyError::ProjectFormat =>
                "Qualified project key must use the format <source>::<project>.".to_owned(),
            KeyError::TaskFormat =>
                "Qualified task key must use the format <source>::<project>:<task>.".to_owned(),
            KeyError::VariantFormat =>
                "Task invocation variants must be 64 hexadecimal characters.".to_owned(),
            KeyError::InvalidId(error) => error.message(),
        }
    }
}

/// The identity of a project.
pub struct ProjectKeyView {
    pub source: Seq<char>,
    pub project: Seq<char>,
}

/// Both parts of the key are identifiers.
pub open spec fn valid_project_key(key: ProjectKeyView) -> bool {
    valid_id(key.source) && valid_id(key.project)
}

/// The text of a project key.
pub open spec fn project_key_text(key: ProjectKeyView) -> Seq<char> {
    key.source + source_separator() + key.project
}

/// What a text says as a project key.
pub open spec fn parse_project_key(text: Seq<char>) -> Result<ProjectKeyView, KeyFault> {
    match split_first(text, source_separator()) {
        None => Err(KeyFault::ProjectFormat),
        Some(halves) => if !valid_id(halves.0) {
            Err(KeyFault::InvalidId(halves.0))
        } else if !valid_id(halves.1) {
            Err(KeyFault::InvalidId(halves.1))
        } else {
            Ok(ProjectKeyView { source: halves.0, project: halves.1 })
        },
    }
}

/// Projects are ordered by source, then by project.
pub open spec fn project_key_less(a: ProjectKeyView, b: ProjectKeyView) -> bool {
    text_less(a.source, b.source) || (a.source == b.source && text_less(a.project, b.project))
}

/// A project key reads back from its own text.
pub proof fn project_key_round_trip(key: ProjectKeyView)
    requires
        valid_project_key(key),
    ensures
        parse_project_key(project_key_text(key)) == Ok::<ProjectKeyView, KeyFault>(key),
{
    let sep = source_separator();
    let text = project_key_text(key);
    separator_behind_id(key.source, key.project);
    split_first_at(text, sep, key.source.len() as int);
    assert(text.subrange(0, key.source.len() as int) =~= key.source);
    assert(text.subrange((key.source.len() + sep.len()) as int, text.len() as int) =~= key.project);
}

/// The identity of a project: the source root that it belongs to, and its
/// identifier there.
#[derive(Debug, PartialEq, Eq, Hash)]
pub struct ProjectKey {
    source: SourceRootId,
    project: Id,
}

impl View for ProjectKey {
    type V = ProjectKeyView;

    closed spec fn view(&self) -> ProjectKeyView {
        ProjectKeyView { source: self.source@, project: self.project@ }
    }
}

impl ProjectKey {
    #[verifier::type_invariant]
    spec fn valid(self) -> bool {
        valid_id(self.project@)
    }

    /// The key of a project.
    pub fn new(source: SourceRootId, project: Id) -> (key: Result<Self, KeyError>)
        ensures
            outcome(key) == if valid_id(project@) {
                Ok::<ProjectKeyView, KeyFault>(
                    ProjectKeyView { source: source@, project: project@ },
                )
            } else {
                Err(KeyFault::InvalidId(project@))
            },
    {
        if is_valid_id(project.as_str()) {
            Ok(ProjectKey { source, project })
        } else {
            Err(KeyError::InvalidId(IdError { id: project.as_str().to_owned() }))
        }
    }

    /// The key of a project of the primary source root.
    pub fn primary(project: Id) -> (key: Result<Self, KeyError>)
        ensures
            outcome(key) == if valid_id(project@) {
                Ok::<ProjectKeyView, KeyFault>(
                    ProjectKeyView { source: primary_text(), project: project@ },
                )
            } else {
                Err(KeyFault::InvalidId(project@))
            },
    {
        ProjectKey::new(SourceRootId::primary(), project)
    }

    /// The identifier of the project in its source root.
    pub fn project_id(&self) -> (id: &Id)
        ensures
            id@ == self@.project,
            valid_project_key(self@),
    {
        proof {
            use_type_invariant(self);
        }
        let _ = self.source.as_str();
        &self.project
    }

    /// The source root that the project belongs to.
    pub fn source_id(&self) -> (id: &SourceRootId)
        ensures
            id@ == self@.source,
            valid_project_key(self@),
    {
        proof {
            use_type_invariant(self);
        }
        let _ = self.source.as_str();
        &self.source
    }

    /// The text of the key.
    pub fn to_text(&self) -> (text: String)
        ensures
            text@ == project_key_text(self@),
    {
        proof {
            reveal_strlit("::");
            assert("::"@ =~= source_separator());
        }
        join_two(self.source.as_str(), "::", self.project.as_str())
    }

    /// The key that a text names.
    pub fn parse(value: &str) -> (key: Result<Self, KeyError>)
        ensures
            outcome(key) == parse_project_key(value@),
    {
        proof {
            reveal_strlit("::");
            assert("::"@ =~= source_separator());
        }
        match split_at_first(value, "::") {
            None => Err(KeyError::ProjectFormat),
            Some((source, project)) => match SourceRootId::new(source.as_str()) {
                Err(error) => Err(KeyError::InvalidId(error)),
                Ok(source) => match Id::new(project.as_str()) {
                    Err(error) => Err(KeyError::InvalidId(error)),
                    Ok(project) => ProjectKey::new(source, project),
                },
            },
        }
    }
}

impl std::str::FromStr for ProjectKey {
    type Err = KeyError;

    fn from_str(value: &str) -> (key: Result<Self, KeyError>)
        ensures
            outcome(key) == parse_project_key(value@),
    {
        ProjectKey::parse(value)
    }
}

impl Clone for ProjectKey {
    fn clone(&self) -> (copy: Self)
        ensures
            copy == *self,
    {
        proof {
            use_type_invariant(self);
        }
        ProjectKey { source: self.source.clone(), project: self.project.clone() }
    }
}

impl Key for ProjectKey {
    fn same_key(&self, other: &Self) -> bool {
        self.source.same_key(&other.source) && self.project.same_key(&other.project)
    }

    fn copy_key(&self) -> Self {
        self.clone()
    }
}

impl Ranked for ProjectKey {
    open spec fn before(a: ProjectKeyView, b: ProjectKeyView) -> bool {
        project_key_less(a, b)
    }

    proof fn before_irreflexive(a: ProjectKeyView) {
        text_less_irreflexive(a.source);
        text_less_irreflexive(a.project);
    }

    proof fn before_transitive(a: ProjectKeyView, b: ProjectKeyView, c: ProjectKeyView) {
        project_key_less_transitive(a, b, c);
    }

    proof fn before_total(a: ProjectKeyView, b: ProjectKeyView, c: ProjectKeyView) {
        project_key_less_total(a, c);
        if project_key_less(c, a) {
            project_key_less_transitive(c, a, b);
        }
    }

    fn is_before(&self, other: &Self) -> bool {
        text_before(self.source.as_str(), other.source.as_str()) || (self.source.same_key(&other.source)
            && text_before(self.project.as_str(), other.project.as_str()))
    }
}

/// The order on project keys is transitive.
pub proof fn project_key_less_transitive(a: ProjectKeyView, b: ProjectKeyView, c: ProjectKeyView)
    requires
        project_key_less(a, b),
        project_key_less(b, c),
    ensures
        project_key_less(a, c),
{
    if text_less(a.source, b.source) && text_less(b.source, c.source) {
        text_less_transitive(a.source, b.source, c.source);
    } else if a.source == b.source && b.source == c.source {
        if text_less(a.project, b.project) && text_less(b.project, c.project) {
            text_less_transitive(a.project, b.project, c.project);
        } else {
            text_less_irreflexive(a.source);
        }
    }
}

/// Two project keys are equal or one precedes the other.
pub proof fn project_key_less_total(a: ProjectKeyView, b: ProjectKeyView)
    ensures
        project_key_less(a, b) || a == b || project_key_less(b, a),
{
    text_less_total(a.source, b.source);
    text_less_total(a.project, b.project);
}

/// The identity of a task.
pub struct TaskKeyView {
    pub project: ProjectKeyView,
    pub task: Seq<char>,
}

/// All parts of the key are identifiers.
pub open spec fn valid_task_key(key: TaskKeyView) -> bool {
    valid_project_key(key.project) && valid_id(key.task)
}

/// The text between a project and a task.
pub open spec fn task_separator() -> Seq<char> {
    seq![':']
}

/// The text of a task key.
pub open spec fn task_key_text(key: TaskKeyView) -> Seq<char> {
    project_key_text(key.project) + task_separator() + key.task
}

/// What a text says as a task key.
pub open spec fn parse_task_key(text: Seq<char>) -> Result<TaskKeyView, KeyFault> {
    match split_last(text, task_separator()) {
        None => Err(KeyFault::TaskFormat),
        Some(halves) => match parse_project_key(halves.0) {
            Err(fault) => Err(fault),
            Ok(project) => if valid_id(halves.1) {
                Ok(TaskKeyView { project, task: halves.1 })
            } else {
                Err(KeyFault::InvalidId(halves.1))
            },
        },
    }
}

/// Tasks are ordered by project, then by task.
pub open spec fn task_key_less(a: TaskKeyView, b: TaskKeyView) -> bool {
    project_key_less(a.project, b.project) || (a.project == b.project && text_less(a.task, b.task))
}

/// A single character that is not in the tail stands last in front of it.
pub proof fn last_before_tail(head: Seq<char>, c: char, tail: Seq<char>)
    requires
        !tail.contains(c),
    ensures
        is_last(head + seq![c] + tail, seq![c], head.len() as int),
{
    let sep = seq![c];
    let text = head + sep + tail;
    assert(text.subrange(head.len() as int, (head.len() + 1) as int) =~= sep);
    assert forall|j: int| head.len() < j implies !occurs_at(text, sep, j) by {
        if occurs_at(text, sep, j) {
            assert(text.subrange(j, j + 1)[0] == text[j]);
            assert(tail[j - head.len() - 1] == c);
        }
    }
}

/// A task key reads back from its own text.
pub proof fn task_key_round_trip(key: TaskKeyView)
    requires
        valid_task_key(key),
    ensures
        parse_task_key(task_key_text(key)) == Ok::<TaskKeyView, KeyFault>(key),
{
    let head = project_key_text(key.project);
    let text = task_key_text(key);
    assert(!key.task.contains(':')) by {
        if key.task.contains(':') {
            let i = choose|i: int| 0 <= i < key.task.len() && key.task[i] == ':';
            assert(i == 0 || id_part_at(key.task, i));
        }
    }
    last_before_tail(head, ':', key.task);
    split_last_at(text, task_separator(), head.len() as int);
    assert(text.subrange(0, head.len() as int) =~= head);
    assert(text.subrange((head.len() + 1) as int, text.len() as int) =~= key.task);
    project_key_round_trip(key.project);
}

/// What an identifier holds behind its first character.
spec fn id_part_at(text: Seq<char>, i: int) -> bool {
    crate::id::id_part(text[i])
}

/// The identity of a task: the project that it belongs to, and its identifier there.
#[derive(Debug, PartialEq, Eq, Hash)]
pub struct TaskKey {
    project: ProjectKey,
    task: Id,
}

impl View for TaskKey {
    type V = TaskKeyView;

    closed spec fn view(&self) -> TaskKeyView {
        TaskKeyView { project: self.project@, task: self.task@ }
    }
}

impl TaskKey {
    #[verifier::type_invariant]
    spec fn valid(self) -> bool {
        valid_id(self.task@)
    }

    /// The key of a task.
    pub fn new(project: ProjectKey, task: Id) -> (key: Result<Self, KeyError>)
        ensures
            outcome(key) == if valid_id(task@) {
                Ok::<TaskKeyView, KeyFault>(TaskKeyView { project: project@, task: task@ })
            } else {
                Err(KeyFault::InvalidId(task@))
            },
    {
        if is_valid_id(task.as_str()) {
            Ok(TaskKey { project, task })
        } else {
            Err(KeyError::InvalidId(IdError { id: task.as_str().to_owned() }))
        }
    }

    /// The key of a task in a project of the primary source root.
    pub fn primary(project: Id, task: Id) -> (key: Result<Self, KeyError>)
        ensures
            outcome(key) == if !valid_id(project@) {
                Err::<TaskKeyView, KeyFault>(KeyFault::InvalidId(project@))
            } else if !valid_id(task@) {
                Err(KeyFault::InvalidId(task@))
            } else {
                Ok(
                    TaskKeyView {
                        project: ProjectKeyView { source: primary_text(), project: project@ },
                        task: task@,
                    },
                )
            },
    {
        match ProjectKey::primary(project) {
            Ok(project) => TaskKey::new(project, task),
            Err(error) => Err(error),
        }
    }

    /// The project that the task belongs to.
    pub fn project_key(&self) -> (key: &ProjectKey)
        ensures
            key@ == self@.project,
            valid_task_key(self@),
    {
        proof {
            use_type_invariant(self);
        }
        let _ = self.project.source_id();
        &self.project
    }

    /// The identifier of the task in its project.
    pub fn task_id(&self) -> (id: &Id)
        ensures
            id@ == self@.task,
            valid_task_key(self@),
    {
        proof {
            use_type_invariant(self);
        }
        let _ = self.project.source_id();
        &self.task
    }

    /// The text of the key.
    pub fn to_text(&self) -> (text: String)
        ensures
            text@ == task_key_text(self@),
    {
        proof {
            reveal_strlit(":");
            assert(":"@ =~= task_separator());
        }
        join_two(self.project.to_text().as_str(), ":", self.task.as_str())
    }

    /// The key that a text names.
    pub fn parse(value: &str) -> (key: Result<Self, KeyError>)
        ensures
            outcome(key) == parse_task_key(value@),
    {
        proof {
            reveal_strlit(":");
            assert(":"@ =~= task_separator());
        }
        match split_at_last(value, ":") {
            None => Err(KeyError::TaskFormat),
            Some((project, task)) => match ProjectKey::parse(project.as_str()) {
                Err(error) => Err(error),
                Ok(project) => match Id::new(task.as_str()) {
                    Err(error) => Err(KeyError::InvalidId(error)),
                    Ok(task) => TaskKey::new(project, task),
                },
            },
        }
    }
}

impl std::str::FromStr for TaskKey {
    type Err = KeyError;

    fn from_str(value: &str) -> (key: Result<Self, KeyError>)
        ensures
            outcome(key) == parse_task_key(value@),
    {
        TaskKey::parse(value)
    }
}

impl Clone for TaskKey {
    fn clone(&self) -> (copy: Self)
        ensures
            copy == *self,
    {
        proof {
            use_type_invariant(self);
        }
        TaskKey { project: self.project.clone(), task: self.task.clone() }
    }
}

impl Key for TaskKey {
    fn same_key(&self, other: &Self) -> bool {
        self.project.same_key(&other.project) && self.task.same_key(&other.task)
    }

    fn copy_key(&self) -> Self {
        self.clone()
    }
}

impl Ranked for TaskKey {
    open spec fn before(a: TaskKeyView, b: TaskKeyView) -> bool {
        task_key_less(a, b)
    }

    proof fn before_irreflexive(a: TaskKeyView) {
        <ProjectKey as Ranked>::before_irreflexive(a.project);
        text_less_irreflexive(a.task);
    }

    proof fn before_transitive(a: TaskKeyView, b: TaskKeyView, c: TaskKeyView) {
        task_key_less_transitive(a, b, c);
    }

    proof fn before_total(a: TaskKeyView, b: TaskKeyView, c: TaskKeyView) {
        task_key_less_total(a, c);
        if task_key_less(c, a) {
            task_key_less_transitive(c, a, b);
        }
    }

    fn is_before(&self, other: &Self) -> bool {
        self.project.is_before(&other.project) || (self.project.same_key(&other.project) && text_before(
            self.task.as_str(),
            other.task.as_str(),
        ))
    }
}

/// The order on task keys is transitive.
pub proof fn task_key_less_transitive(a: TaskKeyView, b: TaskKeyView, c: TaskKeyView)
    requires
        task_key_less(a, b),
        task_key_less(b, c),
    ensures
        task_key_less(a, c),
{
    if project_key_less(a.project, b.project) && project_key_less(b.project, c.project) {
        project_key_less_transitive(a.project, b.project, c.project);
    } else if a.project == b.project && b.project == c.project {
        if text_less(a.task, b.task) && text_less(b.task, c.task) {
            text_less_transitive(a.task, b.task, c.task);
        } else {
            <ProjectKey as Ranked>::before_irreflexive(a.project);
        }
    }
}

/// Two task keys are equal or one precedes the other.
pub proof fn task_key_less_total(a: TaskKeyView, b: TaskKeyView)
    ensures
        task_key_less(a, b) || a == b || task_key_less(b, a),
{
    project_key_less_total(a.project, b.project);
    text_less_total(a.task, b.task);
}

} // verus!
