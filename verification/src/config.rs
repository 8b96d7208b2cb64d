//! What the configuration of a workspace says of its projects.

use crate::id::{valid_id, Id};
use crate::keys::{ProjectKey, ProjectKeyView};
use crate::order::{view_of, views};
use crate::source::SourceRootId;
use crate::table::Key;
use vstd::prelude::*;

verus! {

broadcast use crate::order::group_views;

/// When a project needs another project.
#[derive(Clone, Copy, PartialEq, Eq, Structural, Debug, Hash)]
pub enum DependencyScope {
    Build,
    Development,
    Peer,
    Production,
    Root,
}

/// The scope that a label stands for.
pub open spec fn scope_of_label(label: u8) -> DependencyScope {
    if label == 0 {
        DependencyScope::Build
    } else if label == 1 {
        DependencyScope::Development
    } else if label == 2 {
        DependencyScope::Peer
    } else if label == 3 {
        DependencyScope::Production
    } else {
        DependencyScope::Root
    }
}

impl DependencyScope {
    /// The number that labels edges of this scope. Scopes are ordered by it.
    pub open spec fn label_spec(self) -> u8 {
        match self {
            DependencyScope::Build => 0,
            DependencyScope::Development => 1,
            DependencyScope::Peer => 2,
            DependencyScope::Production => 3,
            DependencyScope::Root => 4,
        }
    }

    /// The number that labels edges of this scope.
    pub fn label(self) -> (label: u8)
        ensures
            label == self.label_spec(),
            scope_of_label(label) == self,
    {
        match self {
            DependencyScope::Build => 0,
            DependencyScope::Development => 1,
            DependencyScope::Peer => 2,
            DependencyScope::Production => 3,
            DependencyScope::Root => 4,
        }
    }

    /// The scope that a label stands for.
    pub fn from_label(label: u8) -> (scope: Self)
        ensures
            scope == scope_of_label(label),
    {
        if label == 0 {
            DependencyScope::Build
        } else if label == 1 {
            DependencyScope::Development
        } else if label == 2 {
            DependencyScope::Peer
        } else if label == 3 {
            DependencyScope::Production
        } else {
            DependencyScope::Root
        }
    }

    /// The scopes that are needed in production.
    pub open spec fn production_spec(self) -> bool {
        self == DependencyScope::Production || self == DependencyScope::Peer
    }

    /// Whether the scope is needed in production.
    pub fn is_production_group(self) -> (r: bool)
        ensures
            r == self.production_spec(),
    {
        match self {
            DependencyScope::Production | DependencyScope::Peer => true,
            _ => false,
        }
    }

    /// The name of the scope.
    pub open spec fn name_spec(self) -> Seq<char> {
        match self {
            DependencyScope::Build => "build"@,
            DependencyScope::Development => "development"@,
            DependencyScope::Peer => "peer"@,
            DependencyScope::Production => "production"@,
            DependencyScope::Root => "root"@,
        }
    }

    /// The name of the scope.
    pub fn name(self) -> (name: &'static str)
        ensures
            name@ == self.name_spec(),
    {
        match self {
            DependencyScope::Build => "build",
            DependencyScope::Development => "development",
            DependencyScope::Peer => "peer",
            DependencyScope::Production => "production",
            DependencyScope::Root => "root",
        }
    }
}

/// The layer of a project in its workspace.
#[derive(Clone, Copy, PartialEq, Eq, Structural, Debug, Hash)]
pub enum LayerType {
    Application,
    Automation,
    Configuration,
    Library,
    Scaffolding,
    Tool,
    Unknown,
}

impl LayerType {
    /// The name of the layer.
    pub open spec fn name_spec(self) -> Seq<char> {
        match self {
            LayerType::Application => "application"@,
            LayerType::Automation => "automation"@,
            LayerType::Configuration => "configuration"@,
            LayerType::Library => "library"@,
            LayerType::Scaffolding => "scaffolding"@,
            LayerType::Tool => "tool"@,
            LayerType::Unknown => "unknown"@,
        }
    }

    /// The name of the layer.
    pub fn name(self) -> (name: &'static str)
        ensures
            name@ == self.name_spec(),
    {
        match self {
            LayerType::Application => "application",
            LayerType::Automation => "automation",
            LayerType::Configuration => "configuration",
            LayerType::Library => "library",
            LayerType::Scaffolding => "scaffolding",
            LayerType::Tool => "tool",
            LayerType::Unknown => "unknown",
        }
    }
}

/// The technology stack of a project.
#[derive(Clone, Copy, PartialEq, Eq, Structural, Debug, Hash)]
pub enum StackType {
    Backend,
    Data,
    Frontend,
    Infrastructure,
    Systems,
    Unknown,
}

impl StackType {
    /// The name of the stack.
    pub open spec fn name_spec(self) -> Seq<char> {
        match self {
            StackType::Backend => "backend"@,
            StackType::Data => "data"@,
            StackType::Frontend => "frontend"@,
            StackType::Infrastructure => "infrastructure"@,
            StackType::Systems => "systems"@,
            StackType::Unknown => "unknown"@,
        }
    }

    /// The name of the stack.
    pub fn name(self) -> (name: &'static str)
        ensures
            name@ == self.name_spec(),
    {
        match self {
            StackType::Backend => "backend",
            StackType::Data => "data",
            StackType::Frontend => "frontend",
            StackType::Infrastructure => "infrastructure",
            StackType::Systems => "systems",
            StackType::Unknown => "unknown",
        }
    }
}

/// A project that another project depends on.
pub struct DependencyView {
    pub id: Seq<char>,
    pub scope: DependencyScope,
    pub source_root: Option<Seq<char>>,
    pub via: Option<Seq<char>>,
}

/// A project that another project depends on. With a source root the project
/// belongs to that source root, and otherwise to the same one.
#[derive(Debug)]
pub struct ProjectDependencyConfig {
    pub id: Id,
    pub scope: DependencyScope,
    pub source_root: Option<SourceRootId>,
    pub via: Option<String>,
}

impl View for ProjectDependencyConfig {
    type V = DependencyView;

    open spec fn view(&self) -> DependencyView {
        DependencyView {
            id: self.id@,
            scope: self.scope,
            source_root: view_of(self.source_root),
            via: view_of(self.via),
        }
    }
}

impl Clone for ProjectDependencyConfig {
    fn clone(&self) -> (copy: Self)
        ensures
            copy@ == self@,
    {
        ProjectDependencyConfig {
            id: self.id.clone(),
            scope: self.scope,
            source_root: match &self.source_root {
                Some(source) => Some(source.clone()),
                None => None,
            },
            via: match &self.via {
                Some(via) => Some(via.clone()),
                None => None,
            },
        }
    }
}

impl ProjectDependencyConfig {
    /// A production dependency on a project of the same source root.
    pub fn new(id: Id) -> (config: Self)
        ensures
            config@ == (DependencyView {
                id: id@,
                scope: DependencyScope::Production,
                source_root: None,
                via: None,
            }),
    {
        ProjectDependencyConfig {
            id,
            scope: DependencyScope::Production,
            source_root: None,
            via: None,
        }
    }

    /// Whether the dependency names the source root that it belongs to.
    pub fn is_cross_source(&self) -> (r: bool)
        ensures
            r == (self@.source_root is Some),
    {
        self.source_root.is_some()
    }

    /// Whether the dependency is only that on the root of the workspace.
    pub fn is_root_scope(&self) -> (r: bool)
        ensures
            r == (self@.scope == DependencyScope::Root),
    {
        match self.scope {
            DependencyScope::Root => true,
            _ => false,
        }
    }
}

/// Copies of dependencies.
pub fn copy_dependencies(items: &Vec<ProjectDependencyConfig>) -> (copies: Vec<
    ProjectDependencyConfig,
>)
    ensures
        views(copies@) == views(items@),
{
    let mut out: Vec<ProjectDependencyConfig> = Vec::new();
    let mut i: usize = 0;
    while i < items.len()
        invariant
            i <= items@.len(),
            views(out@) == views(items@).take(i as int),
        decreases items.len() - i,
    {
        out.push(items[i].clone());
        assert(views(out@) =~= views(items@).take(i + 1));
        i = i + 1;
    }
    assert(views(items@).take(i as int) =~= views(items@));
    out
}

/// Copies of identifiers.
pub fn copy_ids(items: &Vec<Id>) -> (copies: Vec<Id>)
    ensures
        views(copies@) == views(items@),
{
    let mut out: Vec<Id> = Vec::new();
    let mut i: usize = 0;
    while i < items.len()
        invariant
            i <= items@.len(),
            views(out@) == views(items@).take(i as int),
        decreases items.len() - i,
    {
        out.push(items[i].clone());
        assert(views(out@) =~= views(items@).take(i + 1));
        i = i + 1;
    }
    assert(views(items@).take(i as int) =~= views(items@));
    out
}

/// Whether an identifier is among others.
pub fn contains_id(items: &Vec<Id>, id: &Id) -> (found: bool)
    ensures
        found == views(items@).contains(id@),
{
    let mut i: usize = 0;
    while i < items.len()
        invariant
            i <= items@.len(),
            forall|j: int| 0 <= j < i ==> views(items@)[j] != id@,
        decreases items.len() - i,
    {
        if items[i].same_key(id) {
            assert(views(items@)[i as int] == id@);
            return true;
        }
        i = i + 1;
    }
    false
}

/// A project.
pub struct ProjectView {
    pub id: Seq<char>,
    pub source_id: Seq<char>,
    pub source: Seq<char>,
    pub layer: LayerType,
    pub stack: StackType,
    pub tags: Seq<Seq<char>>,
    pub toolchains: Seq<Seq<char>>,
    pub description: Option<Seq<char>>,
    pub dependencies: Seq<DependencyView>,
    pub cross_source_dependencies: Seq<DependencyView>,
}

/// A project: its identity, where it is in its source root, what it is made
/// of, and the projects that it depends on. Dependencies on other source roots
/// are kept apart until they are resolved.
#[derive(Debug)]
pub struct Project {
    pub id: Id,
    pub source_id: SourceRootId,
    pub source: String,
    pub layer: LayerType,
    pub stack: StackType,
    pub tags: Vec<Id>,
    pub toolchains: Vec<Id>,
    pub description: Option<String>,
    pub dependencies: Vec<ProjectDependencyConfig>,
    pub cross_source_dependencies: Vec<ProjectDependencyConfig>,
}

impl View for Project {
    type V = ProjectView;

    open spec fn view(&self) -> ProjectView {
        ProjectView {
            id: self.id@,
            source_id: self.source_id@,
            source: self.source@,
            layer: self.layer,
            stack: self.stack,
            tags: views(self.tags@),
            toolchains: views(self.toolchains@),
            description: view_of(self.description),
            dependencies: views(self.dependencies@),
            cross_source_dependencies: views(self.cross_source_dependencies@),
        }
    }
}

/// The key of a project.
pub open spec fn key_of_project(project: ProjectView) -> ProjectKeyView {
    ProjectKeyView { source: project.source_id, project: project.id }
}

impl Clone for Project {
    fn clone(&self) -> (copy: Self)
        ensures
            copy@ == self@,
    {
        Project {
            id: self.id.clone(),
            source_id: self.source_id.clone(),
            source: self.source.clone(),
            layer: self.layer,
            stack: self.stack,
            tags: copy_ids(&self.tags),
            toolchains: copy_ids(&self.toolchains),
            description: match &self.description {
                Some(text) => Some(text.clone()),
                None => None,
            },
            dependencies: copy_dependencies(&self.dependencies),
            cross_source_dependencies: copy_dependencies(&self.cross_source_dependencies),
        }
    }
}

impl Project {
    /// A project without further configuration.
    pub fn new(source_id: SourceRootId, id: Id) -> (project: Self)
        ensures
            project@ == (ProjectView {
                id: id@,
                source_id: source_id@,
                source: Seq::empty(),
                layer: LayerType::Unknown,
                stack: StackType::Unknown,
                tags: Seq::empty(),
                toolchains: Seq::empty(),
                description: None,
                dependencies: Seq::empty(),
                cross_source_dependencies: Seq::empty(),
            }),
    {
        let project = Project {
            id,
            source_id,
            source: String::new(),
            layer: LayerType::Unknown,
            stack: StackType::Unknown,
            tags: Vec::new(),
            toolchains: Vec::new(),
            description: None,
            dependencies: Vec::new(),
            cross_source_dependencies: Vec::new(),
        };
        assert(project@.tags =~= Seq::empty());
        assert(project@.toolchains =~= Seq::empty());
        assert(project@.dependencies =~= Seq::empty());
        assert(project@.cross_source_dependencies =~= Seq::empty());
        project
    }

    /// The key of the project, whose identifier must be valid.
    pub fn key(&self) -> (key: ProjectKey)
        requires
            valid_id(self@.id),
        ensures
            key@ == key_of_project(self@),
    {
        match ProjectKey::new(self.source_id.clone(), self.id.clone()) {
            Ok(key) => key,
            Err(_) => {
                assert(false);
                vstd::pervasive::unreached()
            },
        }
    }
}

/// What the configuration of a source root asks of the dependencies of its projects, and
/// which dependencies were found not to keep it.
#[derive(Debug)]
pub struct Constraints {
    /// Whether the layers of projects are looked at.
    pub enforce_layer_relationships: bool,
    /// The dependencies that the layers of the projects do not allow.
    pub refused_layers: Vec<Refusal>,
    /// For a tag, the tags of which a dependency must have one.
    pub tag_relationships: Vec<TagRelationship>,
}

/// Projects with a tag may only depend on projects with certain tags.
#[derive(Debug)]
pub struct TagRelationship {
    pub tag: Id,
    pub required: Vec<Id>,
    /// The dependencies that do not have the tags that are asked for.
    pub refused: Vec<Refusal>,
}

/// A dependency that a constraint does not allow.
#[derive(Debug)]
pub struct Refusal {
    pub owner: ProjectKey,
    pub target: ProjectKey,
    pub scope: DependencyScope,
}

/// What the configuration of a source root asks of the dependencies of its projects, and
/// which dependencies were found not to keep it.
pub struct ConstraintsView {
    pub enforce_layer_relationships: bool,
    pub refused_layers: Seq<RefusalView>,
    pub tag_relationships: Seq<TagRelationshipView>,
}

/// Projects with a tag may only depend on projects with certain tags.
pub struct TagRelationshipView {
    pub tag: Seq<char>,
    pub required: Seq<Seq<char>>,
    pub refused: Seq<RefusalView>,
}

/// A dependency that a constraint does not allow.
pub struct RefusalView {
    pub owner: ProjectKeyView,
    pub target: ProjectKeyView,
    pub scope: DependencyScope,
}

impl View for Refusal {
    type V = RefusalView;

    open spec fn view(&self) -> RefusalView {
        RefusalView { owner: self.owner@, target: self.target@, scope: self.scope }
    }
}

impl View for TagRelationship {
    type V = TagRelationshipView;

    open spec fn view(&self) -> TagRelationshipView {
        TagRelationshipView {
            tag: self.tag@,
            required: views(self.required@),
            refused: views(self.refused@),
        }
    }
}

impl View for Constraints {
    type V = ConstraintsView;

    open spec fn view(&self) -> ConstraintsView {
        ConstraintsView {
            enforce_layer_relationships: self.enforce_layer_relationships,
            refused_layers: views(self.refused_layers@),
            tag_relationships: views(self.tag_relationships@),
        }
    }
}

/// A copy of refusals.
fn copy_refusals(items: &Vec<Refusal>) -> (copies: Vec<Refusal>)
    ensures
        views(copies@) == views(items@),
{
    let mut copies: Vec<Refusal> = Vec::new();
    let mut i: usize = 0;
    while i < items.len()
        invariant
            i <= items@.len(),
            views(copies@) == views(items@).take(i as int),
        decreases items.len() - i,
    {
        let item = &items[i];
        copies.push(
            Refusal { owner: item.owner.clone(), target: item.target.clone(), scope: item.scope },
        );
        assert(views(copies@) =~= views(items@).take(i + 1));
        i = i + 1;
    }
    assert(views(items@).take(i as int) =~= views(items@));
    copies
}

impl Clone for Constraints {
    fn clone(&self) -> (copy: Self)
        ensures
            copy@ == self@,
    {
        let mut out: Vec<TagRelationship> = Vec::new();
        let mut i: usize = 0;
        while i < self.tag_relationships.len()
            invariant
                i <= self.tag_relationships@.len(),
                views(out@) == views(self.tag_relationships@).take(i as int),
            decreases self.tag_relationships.len() - i,
        {
            let item = &self.tag_relationships[i];
            out.push(
                TagRelationship {
                    tag: item.tag.clone(),
                    required: copy_ids(&item.required),
                    refused: copy_refusals(&item.refused),
                },
            );
            assert(views(out@) =~= views(self.tag_relationships@).take(i + 1));
            i = i + 1;
        }
        assert(views(self.tag_relationships@).take(i as int) =~= views(self.tag_relationships@));
        Constraints {
            enforce_layer_relationships: self.enforce_layer_relationships,
            refused_layers: copy_refusals(&self.refused_layers),
            tag_relationships: out,
        }
    }
}

/// Why a project may not depend on another.
#[derive(Clone, Copy, PartialEq, Eq, Structural, Debug)]
pub enum ConstraintViolation {
    /// The dependency is in a layer that the project may not depend on.
    Layer,
    /// The dependency has none of the tags that a tag of the project asks for.
    Tag,
}

/// What the constraints say of a dependency. The layers are looked at first, where they are
/// looked at at all.
pub open spec fn constraint_violation(
    constraints: ConstraintsView,
    dependency: RefusalView,
) -> Option<ConstraintViolation> {
    if constraints.enforce_layer_relationships && constraints.refused_layers.contains(dependency) {
        Some(ConstraintViolation::Layer)
    } else if exists|i: int|
        0 <= i < constraints.tag_relationships.len() && (
        #[trigger] constraints.tag_relationships[i]).refused.contains(dependency) {
        Some(ConstraintViolation::Tag)
    } else {
        None
    }
}

/// Whether a dependency is among the refused ones.
fn is_refused(
    items: &Vec<Refusal>,
    owner: &ProjectKey,
    target: &ProjectKey,
    scope: DependencyScope,
) -> (r: bool)
    ensures
        r == views(items@).contains(RefusalView { owner: owner@, target: target@, scope }),
{
    let mut i: usize = 0;
    while i < items.len()
        invariant
            i <= items@.len(),
            forall|j: int|
                0 <= j < i ==> #[trigger] views(items@)[j] != (RefusalView {
                    owner: owner@,
                    target: target@,
                    scope,
                }),
        decreases items.len() - i,
    {
        let item = &items[i];
        assert(views(items@)[i as int] == item@);
        if item.owner.same_key(owner) && item.target.same_key(target) && item.scope == scope {
            return true;
        }
        i = i + 1;
    }
    false
}

impl Constraints {
    /// No constraints.
    pub fn none() -> (constraints: Self)
        ensures
            constraints@ == (ConstraintsView {
                enforce_layer_relationships: false,
                refused_layers: Seq::empty(),
                tag_relationships: Seq::empty(),
            }),
    {
        let out = Constraints {
            enforce_layer_relationships: false,
            refused_layers: Vec::new(),
            tag_relationships: Vec::new(),
        };
        assert(out@.refused_layers =~= Seq::empty());
        assert(out@.tag_relationships =~= Seq::empty());
        out
    }

    /// What the constraints say of a dependency.
    pub fn violation(&self, owner: &ProjectKey, target: &ProjectKey, scope: DependencyScope) -> (violation:
        Option<ConstraintViolation>)
        ensures
            violation == constraint_violation(
                self@,
                RefusalView { owner: owner@, target: target@, scope },
            ),
    {
        if self.enforce_layer_relationships && is_refused(
            &self.refused_layers,
            owner,
            target,
            scope,
        ) {
            return Some(ConstraintViolation::Layer);
        }
        let ghost dependency = RefusalView { owner: owner@, target: target@, scope };
        let mut i: usize = 0;
        while i < self.tag_relationships.len()
            invariant
                i <= self.tag_relationships@.len(),
                dependency == (RefusalView { owner: owner@, target: target@, scope }),
                !(self.enforce_layer_relationships && self@.refused_layers.contains(dependency)),
                forall|j: int|
                    0 <= j < i ==> !(#[trigger] self@.tag_relationships[j]).refused.contains(
                        dependency,
                    ),
            decreases self.tag_relationships.len() - i,
        {
            assert(self@.tag_relationships[i as int] == self.tag_relationships@[i as int]@);
            if is_refused(&self.tag_relationships[i].refused, owner, target, scope) {
                return Some(ConstraintViolation::Tag);
            }
            i = i + 1;
        }
        None
    }
}

} // verus!
