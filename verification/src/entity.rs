//! The declaration tree that a source parser hands over, as plain data.

use vstd::prelude::*;

verus! {

/// The category of a tree node. Only the categories that matter for finding
/// definitions are told apart; every other node is `Other`.
#[derive(Clone, Copy, Debug, PartialEq, Eq, Structural)]
pub enum EntityKind {
    FunctionDecl,
    FunctionTemplate,
    Method,
    ClassDecl,
    StructDecl,
    ClassTemplate,
    ClassTemplatePartialSpecialization,
    Namespace,
    Other,
}

/// A resolved place in a source file.
#[derive(Clone, Debug)]
pub struct Location {
    /// Path of the file, if the place lies in a file at all.
    pub file: Option<String>,
    pub line: u32,
    pub column: u32,
    /// Byte offset from the start of the file.
    pub offset: u32,
}

/// Mathematical value of a [`Location`].
pub struct LocationView {
    pub file: Option<Seq<char>>,
    pub line: nat,
    pub column: nat,
    pub offset: nat,
}

impl View for Location {
    type V = LocationView;

    open spec fn view(&self) -> LocationView {
        LocationView {
            file: match self.file {
                Some(f) => Some(f@),
                None => None,
            },
            line: self.line as nat,
            column: self.column as nat,
            offset: self.offset as nat,
        }
    }
}

/// The two resolutions of one source position.
#[derive(Clone, Debug)]
pub struct SourceLocation {
    /// Where the text was written, before macro expansion.
    pub file_location: Location,
    /// Where the text ends up after macro expansion.
    pub expansion_location: Location,
}

/// Mathematical value of a [`SourceLocation`].
pub struct SourceLocationView {
    pub file_location: LocationView,
    pub expansion_location: LocationView,
}

impl View for SourceLocation {
    type V = SourceLocationView;

    open spec fn view(&self) -> SourceLocationView {
        SourceLocationView {
            file_location: self.file_location@,
            expansion_location: self.expansion_location@,
        }
    }
}

/// Why a question about the place of a node could not be answered.
#[derive(Clone, Copy, Debug, PartialEq, Eq, Structural)]
pub enum LocateError {
    /// The node has no location, or the location that was asked for lies in
    /// no file.
    MissingLocation,
}

/// One node of the declaration tree.
#[derive(Debug)]
pub struct Entity {
    pub kind: EntityKind,
    /// Whether the node carries a body, as opposed to a bare declaration.
    pub is_definition: bool,
    pub name: String,
    pub location: Option<SourceLocation>,
    /// Child nodes, in the order the parser exposes them.
    pub children: Vec<Entity>,
}

/// Mathematical value of an [`Entity`]: a finite tree.
pub struct EntityView {
    pub kind: EntityKind,
    pub is_definition: bool,
    pub name: Seq<char>,
    pub location: Option<SourceLocationView>,
    pub children: Seq<EntityView>,
}

/// The views of the first `n` nodes of `nodes`, in order.
pub open spec fn views_of(nodes: Seq<Entity>, n: nat) -> Seq<EntityView>
    decreases nodes, n,
{
    if n == 0 || n > nodes.len() {
        Seq::empty()
    } else {
        views_of(nodes, (n - 1) as nat).push(nodes[n - 1]@)
    }
}

impl View for Entity {
    type V = EntityView;

    open spec fn view(&self) -> EntityView
        decreases self, 0nat,
    {
        EntityView {
            kind: self.kind,
            is_definition: self.is_definition,
            name: self.name@,
            location: match self.location {
                Some(l) => Some(l@),
                None => None,
            },
            children: views_of(self.children@, self.children@.len()),
        }
    }
}

impl DeepView for Entity {
    type V = EntityView;

    open spec fn deep_view(&self) -> EntityView {
        self@
    }
}

/// `views_of` keeps the length and the order of the nodes.
pub proof fn lemma_views_of(nodes: Seq<Entity>, n: nat)
    requires
        n <= nodes.len(),
    ensures
        views_of(nodes, n).len() == n,
        forall|i: int| 0 <= i < n ==> #[trigger] views_of(nodes, n)[i] == nodes[i]@,
    decreases n,
{
    if n > 0 {
        lemma_views_of(nodes, (n - 1) as nat);
        assert(views_of(nodes, n) == views_of(nodes, (n - 1) as nat).push(nodes[n - 1]@));
    } else {
        assert(views_of(nodes, n) == Seq::<EntityView>::empty());
    }
}

impl Entity {
    /// The view of a node holds the views of its children, in order.
    pub proof fn lemma_view_children(&self)
        ensures
            self@.children.len() == self.children@.len(),
            forall|i: int|
                0 <= i < self.children@.len() ==> #[trigger] self@.children[i]
                    == self.children@[i]@,
    {
        lemma_views_of(self.children@, self.children@.len());
    }
}

} // verus!
