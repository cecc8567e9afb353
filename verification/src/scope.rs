//! Deciding whether a node belongs to the files that are being instrumented.

use vstd::prelude::*;
use crate::classify::{classification, classify, Classification};
use crate::entity::{Entity, EntityView, LocateError};

verus! {

/// The file in which a node was written, before any macro expansion, if it
/// can be resolved.
pub open spec fn declaring_file(entity: EntityView) -> Option<Seq<char>> {
    match entity.location {
        Some(l) => l.file_location.file,
        None => None,
    }
}

/// Whether a node was written in one of `files`. For a node whose declaring
/// file cannot be resolved the question has no answer.
pub open spec fn declared_in(entity: EntityView, files: Seq<Seq<char>>) -> Result<
    bool,
    LocateError,
> {
    match declaring_file(entity) {
        Some(f) => Ok(files.contains(f)),
        None => Err(LocateError::MissingLocation),
    }
}

/// Whether the collector may look at a node: always when included files are
/// followed, otherwise only when the node was written in a target file.
/// When included files are not followed and the declaring file of the node
/// cannot be resolved, the question has no answer.
pub open spec fn within_scope(entity: EntityView, files: Seq<Seq<char>>, follow_inc: bool) -> Result<
    bool,
    LocateError,
> {
    if follow_inc {
        Ok(true)
    } else {
        declared_in(entity, files)
    }
}

/// Whether the collector looks below a node: it is in scope and it is a
/// container.
pub open spec fn is_searched(entity: EntityView, files: Seq<Seq<char>>, follow_inc: bool) -> bool {
    &&& within_scope(entity, files, follow_inc) == Ok::<bool, LocateError>(true)
    &&& classification(entity.kind, entity.is_definition) == Classification::Container
}

/// Tells whether `entity` was written in one of `files`. The test goes by
/// the place before macro expansion, never by the place of the expansion.
/// An entity without a location, or with a location in no file, is
/// answered with `MissingLocation`, never with `true` or `false`.
pub fn is_entity_from_files(entity: &Entity, files: &[String]) -> (found: Result<
    bool,
    LocateError,
>)
    ensures
        found == declared_in(entity@, files.deep_view()),
{
    let path = match &entity.location {
        Some(l) => match &l.file_location.file {
            Some(f) => f,
            None => {
                return Err(LocateError::MissingLocation);
            },
        },
        None => {
            return Err(LocateError::MissingLocation);
        },
    };
    let mut i: usize = 0;
    while i < files.len()
        invariant
            i <= files@.len(),
            declaring_file(entity@) == Some(path@),
            forall|k: int| 0 <= k < i ==> files.deep_view()[k] != path@,
        decreases files@.len() - i,
    {
        if files[i] == *path {
            assert(files.deep_view()[i as int] == path@);
            return Ok(true);
        }
        i += 1;
    }
    Ok(false)
}

/// Tells whether the collector may look at `entity`: always when
/// `follow_inc` is set, otherwise only when it was written in one of
/// `files`. The location of the entity is asked for only when `follow_inc`
/// is not set; `MissingLocation` is the answer when it is then missing.
pub fn in_scope(entity: &Entity, files: &[String], follow_inc: bool) -> (inside: Result<
    bool,
    LocateError,
>)
    ensures
        inside == within_scope(entity@, files.deep_view(), follow_inc),
{
    if follow_inc {
        Ok(true)
    } else {
        is_entity_from_files(entity, files)
    }
}

/// Tells whether the collector looks below `entity`: whether it is a
/// container in scope. What stands below any other node plays no part in
/// what the collector finds.
pub fn searches_below(entity: &Entity, files: &[String], follow_inc: bool) -> (searched: bool)
    ensures
        searched == is_searched(entity@, files.deep_view(), follow_inc),
{
    match in_scope(entity, files, follow_inc) {
        Ok(true) => classify(entity) == Classification::Container,
        _ => false,
    }
}

} // verus!
