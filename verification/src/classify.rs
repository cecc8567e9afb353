//! Deciding what a tree node is for the purpose of finding definitions.

use vstd::prelude::*;
use crate::entity::{Entity, EntityKind};

verus! {

/// What the collector does with a node.
#[derive(Clone, Copy, Debug, PartialEq, Eq, Structural)]
pub enum Classification {
    /// A function or method with a body: it is reported.
    Definition,
    /// A defined class, struct or namespace: its children are searched.
    Container,
    /// Anything else, bare declarations included: it is passed over.
    Ignore,
}

/// Whether nodes of this kind are functions or methods.
pub open spec fn is_function_kind(kind: EntityKind) -> bool {
    kind == EntityKind::FunctionDecl || kind == EntityKind::FunctionTemplate || kind
        == EntityKind::Method
}

/// Whether nodes of this kind can hold further definitions.
pub open spec fn is_container_kind(kind: EntityKind) -> bool {
    kind == EntityKind::ClassDecl || kind == EntityKind::StructDecl || kind
        == EntityKind::ClassTemplate || kind == EntityKind::ClassTemplatePartialSpecialization
        || kind == EntityKind::Namespace
}

/// The classification of a node with the given kind and definition flag.
pub open spec fn classification(kind: EntityKind, is_definition: bool) -> Classification {
    if is_definition && is_function_kind(kind) {
        Classification::Definition
    } else if is_definition && is_container_kind(kind) {
        Classification::Container
    } else {
        Classification::Ignore
    }
}

/// Classifies one node. Only its kind and its definition flag are read.
pub fn classify(entity: &Entity) -> (c: Classification)
    ensures
        c == classification(entity@.kind, entity@.is_definition),
{
    if !entity.is_definition {
        return Classification::Ignore;
    }
    match entity.kind {
        EntityKind::FunctionDecl | EntityKind::FunctionTemplate | EntityKind::Method => {
            Classification::Definition
        },
        EntityKind::ClassDecl
        | EntityKind::StructDecl
        | EntityKind::ClassTemplate
        | EntityKind::ClassTemplatePartialSpecialization
        | EntityKind::Namespace => Classification::Container,
        EntityKind::Other => Classification::Ignore,
    }
}

} // verus!
