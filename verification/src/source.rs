//! Source roots: their identifiers, the paths below them, and the registry
//! that maps between file-system paths and source-qualified paths.

use crate::id::{valid_id, Id, IdError};
use crate::order::Ranked;
use crate::path::{
    are_components, clean_part, clean_path, clean_steps, clean_steps_clean, clean_steps_of_clean,
    components, components_of_names, current_part, is_absolute_path, is_clean, is_name,
    logical_join, logical_join_names, logical_step, parent_part, relative_parts, render_path,
    root_part, LogicalPath,
};
use crate::table::{value_views, Key, Table};
use crate::text::{
    join_texts, join_two, same_text, split_at_first, split_first, split_first_at, text_before,
    text_less, text_less_irreflexive, text_less_total, text_less_transitive, has_text, is_first,
    occurs_at,
};
use vstd::prelude::*;

verus! {

broadcast use crate::order::group_views;

/// The identifier that stands for the primary source root in every workspace.
pub open spec fn primary_text() -> Seq<char> {
    "workspace"@
}

/// The text between a source root and what it qualifies.
pub open spec fn source_separator() -> Seq<char> {
    seq![':', ':']
}

/// The identifier of the primary source root is valid.
pub proof fn primary_is_valid()
    ensures
        valid_id(primary_text()),
{
    reveal_strlit("workspace");
}

/// The separator as a text.
proof fn separator_text()
    ensures
        "::"@ == source_separator(),
{
    reveal_strlit("::");
    assert("::"@ =~= source_separator());
}

/// A name that the primary workspace gives to a source root.
#[derive(Debug, PartialEq, Eq, Hash)]
pub struct SourceAlias {
    id: Id,
}

impl View for SourceAlias {
    type V = Seq<char>;

    closed spec fn view(&self) -> Seq<char> {
        self.id@
    }
}

impl SourceAlias {
    #[verifier::type_invariant]
    spec fn valid(self) -> bool {
        valid_id(self.id@)
    }

    /// The alias with this text, if the text is an identifier.
    pub fn new(id: &str) -> (alias: Result<Self, IdError>)
        ensures
            match alias {
                Ok(alias) => valid_id(id@) && alias@ == id@,
                Err(error) => !valid_id(id@) && error.id@ == id@,
            },
    {
        match Id::new(id) {
            Ok(id) => Ok(SourceAlias { id }),
            Err(error) => Err(error),
        }
    }

    /// The text of the alias, which is an identifier.
    pub fn as_str(&self) -> (text: &str)
        ensures
            text@ == self@,
            valid_id(self@),
    {
        proof {
            use_type_invariant(self);
        }
        self.id.as_str()
    }
}

impl Clone for SourceAlias {
    fn clone(&self) -> (copy: Self)
        ensures
            copy == *self,
    {
        proof {
            use_type_invariant(self);
        }
        SourceAlias { id: self.id.clone() }
    }
}

impl Key for SourceAlias {
    fn same_key(&self, other: &Self) -> bool {
        self.id.same_key(&other.id)
    }

    fn copy_key(&self) -> Self {
        self.clone()
    }
}

impl Ranked for SourceAlias {
    open spec fn before(a: Seq<char>, b: Seq<char>) -> bool {
        text_less(a, b)
    }

    proof fn before_irreflexive(a: Seq<char>) {
        text_less_irreflexive(a);
    }

    proof fn before_transitive(a: Seq<char>, b: Seq<char>, c: Seq<char>) {
        text_less_transitive(a, b, c);
    }

    proof fn before_total(a: Seq<char>, b: Seq<char>, c: Seq<char>) {
        text_less_total(a, c);
        if text_less(c, a) {
            text_less_transitive(c, a, b);
        }
    }

    fn is_before(&self, other: &Self) -> bool {
        text_before(self.id.as_str(), other.id.as_str())
    }
}

/// The canonical identifier of a source root.
#[derive(Debug, PartialEq, Eq, Hash)]
pub struct SourceRootId {
    id: Id,
}

impl View for SourceRootId {
    type V = Seq<char>;

    closed spec fn view(&self) -> Seq<char> {
        self.id@
    }
}

impl SourceRootId {
    #[verifier::type_invariant]
    spec fn valid(self) -> bool {
        valid_id(self.id@)
    }

    /// The source root with this text, if the text is an identifier.
    pub fn new(id: &str) -> (source: Result<Self, IdError>)
        ensures
            match source {
                Ok(source) => valid_id(id@) && source@ == id@,
                Err(error) => !valid_id(id@) && error.id@ == id@,
            },
    {
        match Id::new(id) {
            Ok(id) => Ok(SourceRootId { id }),
            Err(error) => Err(error),
        }
    }

    /// The identifier that stands for the primary source root in every workspace.
    pub fn primary() -> (source: Self)
        ensures
            source@ == primary_text(),
    {
        proof {
            primary_is_valid();
        }
        SourceRootId { id: Id::raw("workspace") }
    }

    /// The text of the identifier.
    pub fn as_str(&self) -> (text: &str)
        ensures
            text@ == self@,
            valid_id(self@),
    {
        proof {
            use_type_invariant(self);
        }
        self.id.as_str()
    }

    /// Whether this is the identifier that stands for the primary source root.
    pub fn is_primary_alias(&self) -> (r: bool)
        ensures
            r == (self@ == primary_text()),
    {
        same_text(self.as_str(), "workspace")
    }
}

impl Clone for SourceRootId {
    fn clone(&self) -> (copy: Self)
        ensures
            copy == *self,
    {
        proof {
            use_type_invariant(self);
        }
        SourceRootId { id: self.id.clone() }
    }
}

impl Default for SourceRootId {
    fn default() -> (source: Self)
        ensures
            source@ == primary_text(),
    {
        SourceRootId::primary()
    }
}

impl std::str::FromStr for SourceRootId {
    type Err = IdError;

    fn from_str(value: &str) -> (source: Result<Self, IdError>)
        ensures
            match source {
                Ok(source) => valid_id(value@) && source@ == value@,
                Err(error) => !valid_id(value@) && error.id@ == value@,
            },
    {
        SourceRootId::new(value)
    }
}

impl From<SourceRootId> for Id {
    fn from(id: SourceRootId) -> (text: Self)
        ensures
            text@ == id@,
    {
        id.id
    }
}

impl vstd::std_specs::convert::FromSpecImpl<SourceRootId> for Id {
    open spec fn obeys_from_spec() -> bool {
        true
    }

    closed spec fn from_spec(id: SourceRootId) -> Self {
        id.id
    }
}

impl AsRef<str> for SourceRootId {
    fn as_ref(&self) -> (text: &str)
        ensures
            text@ == self@,
    {
        self.as_str()
    }
}

impl AsRef<str> for SourceAlias {
    fn as_ref(&self) -> (text: &str)
        ensures
            text@ == self@,
    {
        self.as_str()
    }
}

impl Key for SourceRootId {
    fn same_key(&self, other: &Self) -> bool {
        self.id.same_key(&other.id)
    }

    fn copy_key(&self) -> Self {
        self.clone()
    }
}

impl Ranked for SourceRootId {
    open spec fn before(a: Seq<char>, b: Seq<char>) -> bool {
        text_less(a, b)
    }

    proof fn before_irreflexive(a: Seq<char>) {
        text_less_irreflexive(a);
    }

    proof fn before_transitive(a: Seq<char>, b: Seq<char>, c: Seq<char>) {
        text_less_transitive(a, b, c);
    }

    proof fn before_total(a: Seq<char>, b: Seq<char>, c: Seq<char>) {
        text_less_total(a, c);
        if text_less(c, a) {
            text_less_transitive(c, a, b);
        }
    }

    fn is_before(&self, other: &Self) -> bool {
        text_before(self.id.as_str(), other.id.as_str())
    }
}

/// A path below a source root.
pub struct SourcePathView {
    pub source: Seq<char>,
    pub path: Seq<char>,
}

/// A path below a source root.
#[derive(Debug, PartialEq, Eq, Hash)]
pub struct SourcePathBuf {
    pub source: SourceRootId,
    pub path: String,
}

impl View for SourcePathBuf {
    type V = SourcePathView;

    open spec fn view(&self) -> SourcePathView {
        SourcePathView { source: self.source@, path: self.path@ }
    }
}

/// The text of a source-qualified path.
pub open spec fn source_path_text(path: SourcePathView) -> Seq<char> {
    path.source + source_separator() + path.path
}

/// A text that is no source-qualified path.
#[derive(Debug)]
pub enum SourcePathError {
    /// The text does not use the format `<source>::<path>`.
    MissingSeparator,
    /// The source is not an identifier.
    InvalidSource(IdError),
}

/// What a text says as a source-qualified path.
pub open spec fn parse_source_path(text: Seq<char>) -> Option<SourcePathView> {
    match split_first(text, source_separator()) {
        Some(halves) => if valid_id(halves.0) {
            Some(SourcePathView { source: halves.0, path: halves.1 })
        } else {
            None
        },
        None => None,
    }
}

impl Clone for SourcePathBuf {
    fn clone(&self) -> (copy: Self)
        ensures
            copy == *self,
    {
        SourcePathBuf { source: self.source.clone(), path: self.path.clone() }
    }
}

impl Key for SourcePathBuf {
    fn same_key(&self, other: &Self) -> bool {
        self.source.same_key(&other.source) && self.path == other.path
    }

    fn copy_key(&self) -> Self {
        self.clone()
    }
}

impl SourcePathBuf {
    /// A path below a source root.
    pub fn new(source: SourceRootId, path: &str) -> (out: Self)
        ensures
            out@ == (SourcePathView { source: source@, path: path@ }),
    {
        SourcePathBuf { source, path: path.to_owned() }
    }

    /// A path below the primary source root.
    pub fn primary(path: &str) -> (out: Self)
        ensures
            out@ == (SourcePathView { source: primary_text(), path: path@ }),
    {
        SourcePathBuf::new(SourceRootId::primary(), path)
    }

    /// The text of the path.
    pub fn to_text(&self) -> (text: String)
        ensures
            text@ == source_path_text(self@),
    {
        proof {
            separator_text();
        }
        join_two(self.source.as_str(), "::", self.path.as_str())
    }

    /// The path that a text names.
    pub fn parse(value: &str) -> (path: Result<Self, SourcePathError>)
        ensures
            match path {
                Ok(path) => parse_source_path(value@) == Some(path@),
                Err(SourcePathError::MissingSeparator) => !has_text(value@, source_separator()),
                Err(SourcePathError::InvalidSource(error)) => {
                    &&& split_first(value@, source_separator()) is Some
                    &&& error.id@ == (split_first(value@, source_separator())->0).0
                    &&& !valid_id(error.id@)
                },
            },
    {
        proof {
            separator_text();
        }
        match split_at_first(value, "::") {
            Some((source, path)) => match SourceRootId::new(source.as_str()) {
                Ok(source) => Ok(SourcePathBuf { source, path }),
                Err(error) => Err(SourcePathError::InvalidSource(error)),
            },
            None => Err(SourcePathError::MissingSeparator),
        }
    }
}

impl std::str::FromStr for SourcePathBuf {
    type Err = SourcePathError;

    fn from_str(value: &str) -> (path: Result<Self, SourcePathError>)
        ensures
            match path {
                Ok(path) => parse_source_path(value@) == Some(path@),
                Err(SourcePathError::MissingSeparator) => !has_text(value@, source_separator()),
                Err(SourcePathError::InvalidSource(error)) => {
                    &&& split_first(value@, source_separator()) is Some
                    &&& error.id@ == (split_first(value@, source_separator())->0).0
                    &&& !valid_id(error.id@)
                },
            },
    {
        SourcePathBuf::parse(value)
    }
}

/// An identifier holds no separator, and none begins at its end.
pub proof fn separator_behind_id(id: Seq<char>, tail: Seq<char>)
    requires
        valid_id(id),
    ensures
        is_first(id + source_separator() + tail, source_separator(), id.len() as int),
{
    let sep = source_separator();
    let text = id + sep + tail;
    assert(text.subrange(id.len() as int, (id.len() + sep.len()) as int) =~= sep);
    assert forall|j: int| 0 <= j < id.len() implies !occurs_at(text, sep, j) by {
        assert(text[j] == id[j]);
        assert(id[j] != ':');
        if occurs_at(text, sep, j) {
            assert(text.subrange(j, j + sep.len())[0] == text[j]);
        }
    }
}

/// A source-qualified path reads back from its own text.
pub proof fn source_path_round_trip(path: SourcePathView)
    requires
        valid_id(path.source),
    ensures
        parse_source_path(source_path_text(path)) == Some(path),
{
    let sep = source_separator();
    let text = source_path_text(path);
    separator_behind_id(path.source, path.path);
    split_first_at(text, sep, path.source.len() as int);
    assert(text.subrange(0, path.source.len() as int) =~= path.source);
    assert(text.subrange((path.source.len() + sep.len()) as int, text.len() as int) =~= path.path);
}

/// Why a registry turns a request down.
#[allow(inconsistent_fields)]
#[derive(Debug)]
pub enum SourceRegistryError {
    DuplicateSourceRoot { id: SourceRootId },
    DuplicateSourceRootPath { id: SourceRootId, root: LogicalPath },
    ReservedSourceRoot { id: SourceRootId },
    UnknownSourceRoot { id: SourceRootId },
    UnqualifiedPath { path: LogicalPath },
    PathEscapesSourceRoot { id: SourceRootId, path: String },
    /// The path is not relative to the source root that contains it.
    NonRelativePath { path: LogicalPath },
}

impl SourceRegistryError {
    /// What the error reports to users.
    pub fn message(&self) -> (text: String)
        ensures
            text@ == registry_message(*self),
    {
        match self {
            SourceRegistryError::DuplicateSourceRoot { id } => {
                let mut text = "Source root ".to_owned();
                text.append(id.as_str());
                text.append(" has already been registered.");
                text
            },
            SourceRegistryError::DuplicateSourceRootPath { id, root } => {
                let mut text = "Source root path ".to_owned();
                text.append(show_path(root.to_text().as_str()).as_str());
                text.append(" has already been registered as ");
                text.append(id.as_str());
                text.append(".");
                text
            },
            SourceRegistryError::ReservedSourceRoot { id } => {
                let mut text = "Source root ID ".to_owned();
                text.append(id.as_str());
                text.append(" is reserved for primary-workspace compatibility.");
                text
            },
            SourceRegistryError::UnknownSourceRoot { id } => {
                let mut text = "Source root ".to_owned();
                text.append(id.as_str());
                text.append(" has not been registered.");
                text
            },
            SourceRegistryError::UnqualifiedPath { path } => {
                let mut text = "Path ".to_owned();
                text.append(show_path(path.to_text().as_str()).as_str());
                text.append(" is not contained by a registered source root.");
                text
            },
            SourceRegistryError::PathEscapesSourceRoot { id, path } => {
                let mut text = "Path ".to_owned();
                text.append(path.as_str());
                text.append(" escapes source root ");
                text.append(id.as_str());
                text.append(".");
                text
            },
            SourceRegistryError::NonRelativePath { path } => {
                let mut text = "Path ".to_owned();
                text.append(show_path(path.to_text().as_str()).as_str());
                text.append(" is not relative to its source root.");
                text
            },
        }
    }
}

/// A path as `std::path::Path` shows it for debugging: between quotes, with quotes,
/// backslashes and characters that cannot be printed escaped.
pub uninterp spec fn shown_path(text: Seq<char>) -> Seq<char>;

/// `Debug` of `std::path::Path`: what is shown is fixed by the text of the path. How single
/// characters are escaped is left unsaid, since std does not lay it down.
#[verifier::external_body]
pub(crate) fn show_path(text: &str) -> (shown: String)
    ensures
        shown@ == shown_path(text@),
{
    format!("{:?}", std::path::Path::new(text))
}

/// The text that each error reports to users.
pub open spec fn registry_message(error: SourceRegistryError) -> Seq<char> {
    match error {
        SourceRegistryError::DuplicateSourceRoot { id } => "Source root "@ + id@
            + " has already been registered."@,
        SourceRegistryError::DuplicateSourceRootPath { id, root } => "Source root path "@
            + shown_path(render_path(root@)) + " has already been registered as "@ + id@ + "."@,
        SourceRegistryError::ReservedSourceRoot { id } => "Source root ID "@ + id@
            + " is reserved for primary-workspace compatibility."@,
        SourceRegistryError::UnknownSourceRoot { id } => "Source root "@ + id@
            + " has not been registered."@,
        SourceRegistryError::UnqualifiedPath { path } => "Path "@ + shown_path(
            render_path(path@),
        ) + " is not contained by a registered source root."@,
        SourceRegistryError::PathEscapesSourceRoot { id, path } => "Path "@ + path@
            + " escapes source root "@ + id@ + "."@,
        SourceRegistryError::NonRelativePath { path } => "Path "@ + shown_path(
            render_path(path@),
        ) + " is not relative to its source root."@,
    }
}

/// A root without needless components; the current directory is the empty path.
pub open spec fn normal_root(root: Seq<Seq<char>>) -> Seq<Seq<char>> {
    if clean_path(root) == seq![current_part()] {
        Seq::empty()
    } else {
        clean_path(root)
    }
}

/// A normal root is what the cleaning steps leave.
proof fn normal_root_steps(root: Seq<Seq<char>>)
    requires
        are_components(root),
    ensures
        normal_root(root) == clean_steps(root),
        is_clean(normal_root(root)),
{
    clean_steps_clean(root);
    let steps = clean_steps(root);
    assert(current_part() != parent_part()) by {
        assert(current_part().len() != parent_part().len());
    }
    assert(current_part() != root_part()) by {
        assert(current_part()[0] != root_part()[0]);
    }
    if steps.len() > 0 && steps == seq![current_part()] {
        assert(clean_part(steps, 0));
    }
    if steps.len() == 0 {
        assert(normal_root(root) =~= steps);
    }
}

/// A root without needless components; the current directory is the empty path.
pub fn normalize_root(root: &LogicalPath) -> (normal: LogicalPath)
    ensures
        normal@ == normal_root(root@),
        is_clean(normal@),
{
    let clean = root.clean();
    let _n: usize = root.count();
    proof {
        normal_root_steps(root@);
        reveal_strlit(".");
        assert("."@ =~= current_part());
        if clean@.len() == 1 {
            assert(clean@ =~= seq![clean@[0]]);
        }
    }
    if clean.count() == 1 && same_text(clean.part(0), ".") {
        LogicalPath::empty()
    } else {
        clean
    }
}

/// The registered source roots: their identifiers and where they are.
pub struct RegistryView {
    pub primary: Seq<char>,
    pub roots: Map<Seq<char>, Seq<Seq<char>>>,
}

/// The identifier under which a source root is registered.
pub open spec fn canonical(registry: RegistryView, id: Seq<char>) -> Seq<char> {
    if id == primary_text() {
        registry.primary
    } else {
        id
    }
}

/// The primary source root is registered, and only it can have the identifier
/// that stands for it in every workspace. Every root is normal, and no two
/// source roots are at the same path.
pub open spec fn registry_valid(registry: RegistryView) -> bool {
    &&& registry.roots.dom().contains(registry.primary)
    &&& registry.roots.dom().contains(primary_text()) ==> registry.primary == primary_text()
    &&& forall|id: Seq<char>| #[trigger] registry.roots.dom().contains(id) ==> valid_id(id)
    &&& forall|id: Seq<char>|
        registry.roots.dom().contains(id) ==> is_clean(#[trigger] registry.roots[id])
    &&& forall|a: Seq<char>, b: Seq<char>|
        registry.roots.dom().contains(a) && registry.roots.dom().contains(b)
            && #[trigger] registry.roots[a] == #[trigger] registry.roots[b] ==> a == b
}

/// The source root that contains a path: no registered root below it does.
pub open spec fn owns_path(registry: RegistryView, id: Seq<char>, path: Seq<Seq<char>>) -> bool {
    &&& registry.roots.dom().contains(id)
    &&& registry.roots[id].is_prefix_of(path)
    &&& forall|other: Seq<char>|
        registry.roots.dom().contains(other) && #[trigger] registry.roots[other].is_prefix_of(path)
            ==> registry.roots[other].len() <= registry.roots[id].len()
}

/// Where a source-qualified path leads, if it stays below its source root.
pub open spec fn resolve_path(registry: RegistryView, path: SourcePathView) -> Option<
    Seq<Seq<char>>,
> {
    let id = canonical(registry, path.source);
    if registry.roots.dom().contains(id) {
        let root = registry.roots[id];
        let resolved = clean_path(logical_join(root, relative_parts(components(path.path))));
        if root.is_prefix_of(resolved) {
            Some(resolved)
        } else {
            None
        }
    } else {
        None
    }
}

/// The source-qualified path of a file-system path below one of the source roots.
pub open spec fn qualifies(
    registry: RegistryView,
    path: Seq<Seq<char>>,
    qualified: SourcePathView,
) -> bool {
    let clean = clean_path(path);
    let rest = clean.skip(registry.roots[qualified.source].len() as int);
    &&& owns_path(registry, qualified.source, clean)
    &&& !is_absolute_path(rest)
    &&& qualified.path == join_texts(rest, root_part())
}

/// A path is below at most one source root.
pub proof fn owner_is_unique(registry: RegistryView, path: Seq<Seq<char>>, a: Seq<char>, b: Seq<char>)
    requires
        registry_valid(registry),
        owns_path(registry, a, path),
        owns_path(registry, b, path),
    ensures
        a == b,
{
    assert(registry.roots[a].len() == registry.roots[b].len());
    assert(registry.roots[a] =~= registry.roots[b]);
}

/// Resolving the source-qualified path of a file-system path leads back to
/// that path, for every path that does not climb above its starting point.
pub proof fn qualified_paths_resolve(
    registry: RegistryView,
    path: Seq<Seq<char>>,
    qualified: SourcePathView,
)
    requires
        registry_valid(registry),
        are_components(path),
        qualifies(registry, path, qualified),
        !clean_path(path).contains(parent_part()),
    ensures
        resolve_path(registry, qualified) == Some(clean_path(path)),
{
    let clean = clean_path(path);
    let root = registry.roots[qualified.source];
    let rest = clean.skip(root.len() as int);
    clean_steps_clean(path);
    assert(current_part() != root_part()) by {
        assert(current_part()[0] != root_part()[0]);
    }
    assert(root =~= clean.take(root.len() as int));
    assert(clean =~= root + rest);
    if clean_steps(path).len() == 0 {
        assert(is_clean(root));
        if root.len() == 1 {
            assert(clean_part(root, 0));
            assert(current_part() != parent_part()) by {
                assert(current_part().len() != parent_part().len());
            }
        }
        assert(root.len() == 0);
        assert(rest =~= seq![current_part()]);
        assert(join_texts(rest, root_part()) == current_part());
        let text = current_part();
        assert(text.drop_last() =~= Seq::<char>::empty());
        assert(crate::path::scan_path(text.drop_last()) == (
            Seq::<Seq<char>>::empty(),
            Seq::<char>::empty(),
        ));
        assert(crate::path::scan_path(text).1 =~= current_part());
        assert(components(text) =~= seq![current_part()]);
        assert(seq![current_part()].drop_last() =~= Seq::<Seq<char>>::empty());
        let dot = seq![current_part()];
        assert(dot.drop_last() =~= Seq::<Seq<char>>::empty());
        assert(logical_join(root, dot.drop_last()) == root);
        assert(dot.last() == current_part());
        assert(logical_join(root, dot) == logical_step(root, current_part()));
        assert(root =~= Seq::<Seq<char>>::empty());
    } else {
        assert forall|i: int| 0 <= i < rest.len() implies is_name(#[trigger] rest[i]) by {
            assert(clean_part(clean, root.len() + i));
            assert(clean.contains(clean[root.len() + i]));
            if root.len() + i == 0 {
                assert(clean[0] == rest[0]);
            }
        }
        components_of_names(rest);
        logical_join_names(root, rest);
        if rest.len() > 0 {
            assert(is_name(rest[0]));
            assert(rest[0] != root_part()) by {
                assert(root_part()[0] == '/');
                assert(root_part().contains('/'));
            }
        }
        clean_steps_of_clean(clean);
    }
    assert(canonical(registry, qualified.source) == qualified.source);
    assert(root.is_prefix_of(clean));
}

/// The source roots of a workspace.
#[derive(Debug)]
pub struct SourceRegistry {
    primary: SourceRootId,
    roots: Table<SourceRootId, LogicalPath>,
}

impl View for SourceRegistry {
    type V = RegistryView;

    closed spec fn view(&self) -> RegistryView {
        RegistryView {
            primary: self.primary@,
            roots: self.roots@.map_values(|path: LogicalPath| path@),
        }
    }
}

impl SourceRegistry {
    #[verifier::type_invariant]
    spec fn valid(self) -> bool {
        registry_valid(self@)
    }

    /// The identifiers, in the order in which they were registered.
    pub closed spec fn ids(&self) -> Seq<Seq<char>> {
        self.roots.keys()
    }

    /// A registry with a primary source root.
    pub fn new(primary: SourceRootId, root: LogicalPath) -> (registry: Self)
        ensures
            registry@ == (RegistryView {
                primary: primary@,
                roots: Map::empty().insert(primary@, normal_root(root@)),
            }),
            registry.ids() == seq![primary@],
            registry_valid(registry@),
    {
        let normal = normalize_root(&root);
        let _ = primary.as_str();
        let mut roots: Table<SourceRootId, LogicalPath> = Table::new();
        roots.insert(primary.clone(), normal);
        assert(roots@.map_values(|path: LogicalPath| path@) =~= Map::empty().insert(
            primary@,
            normal@,
        ));
        assert(roots.keys() =~= seq![primary@]);
        SourceRegistry { primary, roots }
    }

    /// A registry whose primary source root has no identifier of its own.
    pub fn single(root: LogicalPath) -> (registry: Self)
        ensures
            registry@ == (RegistryView {
                primary: primary_text(),
                roots: Map::empty().insert(primary_text(), normal_root(root@)),
            }),
            registry.ids() == seq![primary_text()],
            registry_valid(registry@),
    {
        SourceRegistry::new(SourceRootId::primary(), root)
    }

    /// Where a source root is.
    pub fn get(&self, id: &SourceRootId) -> (root: Result<&LogicalPath, SourceRegistryError>)
        ensures
            match root {
                Ok(root) => {
                    &&& self@.roots.dom().contains(canonical(self@, id@))
                    &&& root@ == self@.roots[canonical(self@, id@)]
                },
                Err(SourceRegistryError::UnknownSourceRoot { id: unknown }) => {
                    &&& unknown@ == canonical(self@, id@)
                    &&& !self@.roots.dom().contains(unknown@)
                },
                Err(_) => false,
            },
    {
        let id = if id.is_primary_alias() {
            &self.primary
        } else {
            id
        };
        match self.roots.get(id) {
            Some(root) => Ok(root),
            None => Err(SourceRegistryError::UnknownSourceRoot { id: id.clone() }),
        }
    }

    /// Where the primary source root is.
    pub fn get_primary(&self) -> (root: &LogicalPath)
        ensures
            root@ == self@.roots[self@.primary],
    {
        proof {
            use_type_invariant(self);
        }
        match self.roots.get(&self.primary) {
            Some(root) => root,
            None => {
                assert(self@.roots.dom().contains(self.primary@));
                &self.roots.value_at(0)
            },
        }
    }

    /// The identifier of the primary source root.
    pub fn primary_id(&self) -> (id: &SourceRootId)
        ensures
            id@ == self@.primary,
            registry_valid(self@),
    {
        proof {
            use_type_invariant(self);
        }
        &self.primary
    }

    /// How many source roots are registered.
    pub fn len(&self) -> (n: usize)
        ensures
            n == self@.roots.len(),
            n == self.ids().len(),
            self.ids().no_duplicates(),
            forall|id: Seq<char>|
                self@.roots.dom().contains(id) <==> #[trigger] self.ids().contains(id),
            registry_valid(self@),
    {
        proof {
            use_type_invariant(self);
            assert(self@.roots.dom() =~= self.roots@.dom());
        }
        self.roots.len()
    }

    /// Whether no source root is registered, which is never the case.
    pub fn is_empty(&self) -> (r: bool)
        ensures
            r == (self@.roots.len() == 0),
            !r,
    {
        let n: usize = self.len();
        proof {
            assert(self.ids().contains(self@.primary));
            assert(self.ids().len() > 0);
        }
        n == 0
    }

    /// The identifier at one place.
    pub fn id_at(&self, i: usize) -> (id: &SourceRootId)
        requires
            i < self.ids().len(),
        ensures
            id@ == self.ids()[i as int],
            self@.roots.dom().contains(id@),
    {
        self.roots.key_at(i)
    }

    /// The root at one place.
    pub fn root_at(&self, i: usize) -> (root: &LogicalPath)
        requires
            i < self.ids().len(),
        ensures
            root@ == self@.roots[self.ids()[i as int]],
            self@.roots.dom().contains(self.ids()[i as int]),
    {
        self.roots.value_at(i)
    }

    /// The source-qualified path of a file-system path.
    pub fn qualify(&self, path: &LogicalPath) -> (qualified: Result<
        SourcePathBuf,
        SourceRegistryError,
    >)
        ensures
            match qualified {
                Ok(qualified) => qualifies(self@, path@, qualified@),
                Err(SourceRegistryError::UnqualifiedPath { path: unknown }) => {
                    &&& unknown@ == clean_path(path@)
                    &&& forall|id: Seq<char>| !#[trigger] owns_path(self@, id, unknown@)
                },
                Err(SourceRegistryError::NonRelativePath { path: outside }) => {
                    &&& outside@ == clean_path(path@)
                    &&& exists|id: Seq<char>|
                        #[trigger] owns_path(self@, id, outside@) && is_absolute_path(
                            outside@.skip(self@.roots[id].len() as int),
                        )
                },
                Err(_) => false,
            },
    {
        let clean = path.clean();
        let n: usize = self.len();
        let mut best: Option<usize> = None;
        let mut i: usize = 0;
        while i < n
            invariant
                n == self.ids().len(),
                i <= n,
                self.ids().no_duplicates(),
                match best {
                    Some(b) => {
                        &&& b < i
                        &&& self@.roots[self.ids()[b as int]].is_prefix_of(clean@)
                        &&& forall|j: int|
                            0 <= j < i && self@.roots[#[trigger] self.ids()[j]].is_prefix_of(clean@)
                                ==> self@.roots[self.ids()[j]].len()
                                <= self@.roots[self.ids()[b as int]].len()
                    },
                    None => forall|j: int|
                        0 <= j < i ==> !self@.roots[#[trigger] self.ids()[j]].is_prefix_of(clean@),
                },
            decreases n - i,
        {
            let root = self.root_at(i);
            if clean.starts_with(root) {
                match best {
                    Some(b) => {
                        if self.root_at(b).count() <= root.count() {
                            best = Some(i);
                        }
                    },
                    None => {
                        best = Some(i);
                    },
                }
            }
            i = i + 1;
        }
        match best {
            None => {
                assert forall|id: Seq<char>| !#[trigger] owns_path(self@, id, clean@) by {
                    if owns_path(self@, id, clean@) {
                        assert(self.ids().contains(id));
                        let j = choose|j: int| 0 <= j < self.ids().len() && self.ids()[j] == id;
                        assert(!self@.roots[self.ids()[j]].is_prefix_of(clean@));
                    }
                }
                Err(SourceRegistryError::UnqualifiedPath { path: clean })
            },
            Some(b) => {
                let source = self.id_at(b).clone();
                let root = self.root_at(b);
                proof {
                    assert forall|other: Seq<char>|
                        self@.roots.dom().contains(other)
                            && #[trigger] self@.roots[other].is_prefix_of(clean@) implies self@.roots[other].len()
                        <= self@.roots[source@].len() by {
                        assert(self.ids().contains(other));
                        let j = choose|j: int| 0 <= j < self.ids().len() && self.ids()[j] == other;
                        assert(self@.roots[self.ids()[j]].is_prefix_of(clean@));
                    }
                    assert(owns_path(self@, source@, clean@));
                }
                let rest = clean.suffix(root.count());
                if rest.is_absolute() {
                    return Err(SourceRegistryError::NonRelativePath { path: clean });
                }
                assert(render_path(rest@) == join_texts(rest@, root_part()));
                Ok(SourcePathBuf { source, path: rest.to_text() })
            },
        }
    }

    /// Registers a source root.
    pub fn register(&mut self, id: SourceRootId, root: LogicalPath) -> (done: Result<
        (),
        SourceRegistryError,
    >)
        ensures
            match done {
                Ok(()) => {
                    &&& id@ != primary_text() || id@ == old(self)@.primary
                    &&& !old(self)@.roots.dom().contains(id@)
                    &&& forall|other: Seq<char>|
                        old(self)@.roots.dom().contains(other)
                            ==> #[trigger] old(self)@.roots[other] != normal_root(root@)
                    &&& final(self)@ == (RegistryView {
                        primary: old(self)@.primary,
                        roots: old(self)@.roots.insert(id@, normal_root(root@)),
                    })
                    &&& final(self).ids() == old(self).ids().push(id@)
                },
                Err(error) => final(self)@ == old(self)@ && final(self).ids() == old(self).ids()
                    && match error {
                    SourceRegistryError::ReservedSourceRoot { id: reserved } => reserved@ == id@
                        && id@ == primary_text() && id@ != old(self)@.primary,
                    SourceRegistryError::DuplicateSourceRoot { id: known } => {
                        &&& known@ == id@
                        &&& id@ != primary_text() || id@ == old(self)@.primary
                        &&& old(self)@.roots.dom().contains(id@)
                    },
                    SourceRegistryError::DuplicateSourceRootPath { id: known, root: same } => {
                        &&& id@ != primary_text() || id@ == old(self)@.primary
                        &&& !old(self)@.roots.dom().contains(id@)
                        &&& old(self)@.roots.dom().contains(known@)
                        &&& same@ == normal_root(root@)
                        &&& old(self)@.roots[known@] == same@
                    },
                    _ => false,
                },
            },
            registry_valid(final(self)@),
    {
        proof {
            use_type_invariant(&*self);
        }
        let ghost before = self@;
        if id.is_primary_alias() && !id.same_key(&self.primary) {
            return Err(SourceRegistryError::ReservedSourceRoot { id });
        }
        if self.roots.contains(&id) {
            return Err(SourceRegistryError::DuplicateSourceRoot { id });
        }
        let normal = normalize_root(&root);
        if let Some(known) = self.find_root(&normal) {
            return Err(SourceRegistryError::DuplicateSourceRootPath { id: known, root: normal });
        }
        let _ = id.as_str();
        let ghost fresh = RegistryView {
            primary: before.primary,
            roots: before.roots.insert(id@, normal@),
        };
        proof {
            assert forall|x: Seq<char>| #[trigger] fresh.roots.dom().contains(x) implies valid_id(
                x,
            ) by {
                if x != id@ {
                    assert(before.roots.dom().contains(x));
                }
            }
            assert forall|x: Seq<char>, y: Seq<char>|
                fresh.roots.dom().contains(x) && fresh.roots.dom().contains(y)
                    && #[trigger] fresh.roots[x] == #[trigger] fresh.roots[y] implies x == y by {
                if x != id@ && y != id@ {
                    assert(before.roots[x] == before.roots[y]);
                } else if x != id@ {
                    assert(before.roots[x] != normal@);
                } else if y != id@ {
                    assert(before.roots[y] != normal@);
                }
            }
        }
        Self::add(self, id, normal);
        assert(self@.roots =~= fresh.roots);
        Ok(())
    }

    /// The source root at a path.
    fn find_root(&self, root: &LogicalPath) -> (found: Option<SourceRootId>)
        ensures
            match found {
                Some(id) => self@.roots.dom().contains(id@) && self@.roots[id@] == root@,
                None => forall|other: Seq<char>|
                    self@.roots.dom().contains(other) ==> #[trigger] self@.roots[other] != root@,
            },
    {
        let n: usize = self.len();
        let mut i: usize = 0;
        while i < n
            invariant
                n == self.ids().len(),
                i <= n,
                forall|j: int| 0 <= j < i ==> self@.roots[#[trigger] self.ids()[j]] != root@,
            decreases n - i,
        {
            if self.root_at(i).same_key(root) {
                return Some(self.id_at(i).clone());
            }
            i = i + 1;
        }
        assert forall|other: Seq<char>|
            self@.roots.dom().contains(other) implies #[trigger] self@.roots[other] != root@ by {
            assert(self.ids().contains(other));
            let j = choose|j: int| 0 <= j < n && self.ids()[j] == other;
            assert(self@.roots[self.ids()[j]] != root@);
        }
        None
    }

    /// Adds a source root that is not registered yet.
    fn add(registry: &mut SourceRegistry, id: SourceRootId, root: LogicalPath)
        requires
            registry_valid(
                (RegistryView {
                    primary: old(registry)@.primary,
                    roots: old(registry)@.roots.insert(id@, root@),
                }),
            ),
            !old(registry)@.roots.dom().contains(id@),
        ensures
            final(registry)@ == (RegistryView {
                primary: old(registry)@.primary,
                roots: old(registry)@.roots.insert(id@, root@),
            }),
            final(registry).ids() == old(registry).ids().push(id@),
    {
        let primary = registry.primary.clone();
        let empty = SourceRegistry::new(primary.clone(), LogicalPath::empty());
        let mut taken = empty;
        std::mem::swap(registry, &mut taken);
        let SourceRegistry { primary, roots } = taken;
        let mut roots = roots;
        let ghost before = roots@;
        roots.insert(id, root);
        assert(roots@.map_values(|path: LogicalPath| path@) =~= before.map_values(
            |path: LogicalPath| path@,
        ).insert(id@, root@));
        *registry = SourceRegistry { primary, roots };
    }

    /// Where a source-qualified path leads.
    pub fn resolve(&self, path: &SourcePathBuf) -> (resolved: Result<
        LogicalPath,
        SourceRegistryError,
    >)
        ensures
            match resolved {
                Ok(resolved) => resolve_path(self@, path@) == Some(resolved@),
                Err(SourceRegistryError::UnknownSourceRoot { id }) => {
                    &&& id@ == canonical(self@, path.source@)
                    &&& !self@.roots.dom().contains(id@)
                },
                Err(SourceRegistryError::PathEscapesSourceRoot { id, path: escaping }) => {
                    &&& id@ == path.source@
                    &&& escaping@ == path.path@
                    &&& self@.roots.dom().contains(canonical(self@, path.source@))
                    &&& resolve_path(self@, path@) is None
                },
                Err(_) => false,
            },
    {
        let root = match self.get(&path.source) {
            Ok(root) => root,
            Err(error) => {
                return Err(error);
            },
        };
        let relative = LogicalPath::parse(path.path.as_str());
        let resolved = root.join_logical(&relative).clean();
        if !resolved.starts_with(root) {
            return Err(
                SourceRegistryError::PathEscapesSourceRoot {
                    id: path.source.clone(),
                    path: path.path.clone(),
                },
            );
        }
        Ok(resolved)
    }
}

impl Clone for SourceRegistry {
    fn clone(&self) -> (copy: Self)
        ensures
            copy@ == self@,
            copy.ids() == self.ids(),
    {
        let roots = self.roots.copy();
        proof {
            use_type_invariant(self);
            assert(roots@.map_values(|path: LogicalPath| path@) =~= value_views(roots@));
            assert(self.roots@.map_values(|path: LogicalPath| path@) =~= value_views(self.roots@));
        }
        SourceRegistry { primary: self.primary.clone(), roots }
    }
}

impl Default for SourceRegistry {
    fn default() -> (registry: Self)
        ensures
            registry@ == (RegistryView {
                primary: primary_text(),
                roots: Map::empty().insert(primary_text(), normal_root(Seq::empty())),
            }),
    {
        SourceRegistry::single(LogicalPath::empty())
    }
}

} // verus!
