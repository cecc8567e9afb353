//! The place of one function definition.

use vstd::prelude::*;
use crate::entity::{Entity, EntityView, LocateError};

verus! {

/// Where a function or method definition starts, resolved through macro
/// expansion.
#[derive(Clone, Debug, PartialEq, Eq)]
pub struct DefinitionSite {
    pub name: String,
    pub file_path: String,
    pub line: u32,
    pub column: u32,
    /// Byte offset of the definition in the unmodified file.
    pub byte_offset: u32,
}

/// Mathematical value of a [`DefinitionSite`].
pub struct DefinitionSiteView {
    pub name: Seq<char>,
    pub file_path: Seq<char>,
    pub line: nat,
    pub column: nat,
    pub byte_offset: nat,
}

impl View for DefinitionSite {
    type V = DefinitionSiteView;

    open spec fn view(&self) -> DefinitionSiteView {
        DefinitionSiteView {
            name: self.name@,
            file_path: self.file_path@,
            line: self.line as nat,
            column: self.column as nat,
            byte_offset: self.byte_offset as nat,
        }
    }
}

impl DeepView for DefinitionSite {
    type V = DefinitionSiteView;

    open spec fn deep_view(&self) -> DefinitionSiteView {
        self@
    }
}

/// The site of a node: its name at its expansion location. There is none
/// when the node has no location or the location lies in no file.
pub open spec fn site_of(entity: EntityView) -> Option<DefinitionSiteView> {
    match entity.location {
        Some(l) => match l.expansion_location.file {
            Some(f) => Some(
                DefinitionSiteView {
                    name: entity.name,
                    file_path: f,
                    line: l.expansion_location.line,
                    column: l.expansion_location.column,
                    byte_offset: l.expansion_location.offset,
                },
            ),
            None => None,
        },
        None => None,
    }
}

impl DefinitionSite {
    /// Resolves the site of `entity`. An entity without a location, or with
    /// an expansion location in no file, has no site and is answered with
    /// `MissingLocation`.
    pub fn resolve(entity: &Entity) -> (site: Result<DefinitionSite, LocateError>)
        ensures
            match site {
                Ok(s) => site_of(entity@) == Some(s@),
                Err(e) => e == LocateError::MissingLocation && site_of(entity@) is None,
            },
    {
        match &entity.location {
            Some(l) => match &l.expansion_location.file {
                Some(f) => Ok(
                    DefinitionSite {
                        name: entity.name.clone(),
                        file_path: f.clone(),
                        line: l.expansion_location.line,
                        column: l.expansion_location.column,
                        byte_offset: l.expansion_location.offset,
                    },
                ),
                None => Err(LocateError::MissingLocation),
            },
            None => Err(LocateError::MissingLocation),
        }
    }

    /// A copy of this site, equal to it field by field.
    pub fn duplicate(&self) -> (copy: DefinitionSite)
        ensures
            copy == *self,
    {
        DefinitionSite {
            name: self.name.clone(),
            file_path: self.file_path.clone(),
            line: self.line,
            column: self.column,
            byte_offset: self.byte_offset,
        }
    }
}

} // verus!
