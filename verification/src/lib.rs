//! Discovery of C/C++ function definitions in a declaration tree, and
//! offset-safe insertion of text snippets inside their bodies.
//!
//! A source parser hands over a tree of [`Entity`] nodes. The collector
//! ([`get_functions_from_entity`]) walks it and finds the functions and
//! methods that have a body, as [`DefinitionSite`]s; [`group_by_file`] puts
//! them together by file, as [`SourceFile`]s. An [`Injector`] then puts a
//! snippet behind the opening brace of each definition of one file, and
//! keeps the offsets of the later definitions right while the text grows.

pub mod classify;
pub mod cli;
pub mod collect;
pub mod drift;
pub mod entity;
pub mod files;
pub mod inject;
pub mod locate;
pub mod order;
pub mod reach;
pub mod report;
pub mod scope;
pub mod sequences;
pub mod site;
pub mod snippet;
pub mod source_file;

pub use crate::classify::{classify, Classification};
pub use crate::cli::{parse_args, CliError, Options};
pub use crate::collect::{get_functions_from_entity, get_functions_from_units, Discovery};
pub use crate::entity::{Entity, EntityKind, LocateError, Location, SourceLocation};
pub use crate::files::{contains_bytes, has_source_extension, skip_files};
pub use crate::inject::{inject_all, InjectError, Injection, Injector};
pub use crate::locate::{find_left_bracket, get_next_left_bracket};
pub use crate::order::have_increasing_offsets;
pub use crate::scope::{in_scope, is_entity_from_files, searches_below};
pub use crate::site::DefinitionSite;
pub use crate::snippet::{SnippetPart, SnippetTemplate};
pub use crate::source_file::{group_by_file, SourceFile};
