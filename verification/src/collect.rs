//! The walk over a declaration tree that finds the definitions to instrument.

use vstd::prelude::*;
use crate::classify::{classification, classify, Classification};
use crate::entity::{Entity, EntityView, LocateError};
use crate::scope::{declaring_file, in_scope, within_scope};
use crate::site::{site_of, DefinitionSite, DefinitionSiteView};

verus! {

/// What one walk over a tree found.
#[derive(Debug)]
pub struct Discovery {
    /// The definitions in scope, in the order the tree exposes them.
    pub sites: Vec<DefinitionSite>,
    /// Names of the nodes that were passed over because a location was
    /// missing, in the order the tree exposes them: nodes whose declaring
    /// file was needed to tell their scope and could not be resolved, and
    /// definitions in scope whose expansion location could not be resolved.
    /// None of them has a site, and nothing below them was looked at.
    pub unlocated: Vec<String>,
}

/// What a single node adds to the sites, given what its own children add.
pub open spec fn sites_at(
    node: EntityView,
    below: Seq<DefinitionSiteView>,
    files: Seq<Seq<char>>,
    follow_inc: bool,
) -> Seq<DefinitionSiteView> {
    match within_scope(node, files, follow_inc) {
        Ok(true) => match classification(node.kind, node.is_definition) {
            Classification::Definition => match site_of(node) {
                Some(s) => seq![s],
                None => Seq::empty(),
            },
            Classification::Container => below,
            Classification::Ignore => Seq::empty(),
        },
        _ => Seq::empty(),
    }
}

/// The sites found under the first `n` children of `parent`: a child out of
/// scope is passed over whole, a definition gives its site, a container
/// gives what is found under all its children, in that order.
pub open spec fn sites_from(
    parent: EntityView,
    n: nat,
    files: Seq<Seq<char>>,
    follow_inc: bool,
) -> Seq<DefinitionSiteView>
    decreases parent, n,
{
    if n == 0 || n > parent.children.len() {
        Seq::empty()
    } else {
        let child = parent.children[n - 1];
        sites_from(parent, (n - 1) as nat, files, follow_inc) + sites_at(
            child,
            sites_from(child, child.children.len(), files, follow_inc),
            files,
            follow_inc,
        )
    }
}

/// The sites of all definitions in scope under `root`, in traversal order.
pub open spec fn definition_sites(
    root: EntityView,
    files: Seq<Seq<char>>,
    follow_inc: bool,
) -> Seq<DefinitionSiteView> {
    sites_from(root, root.children.len(), files, follow_inc)
}

/// What a single node adds to the unlocated names, given what its own
/// children add: its own name when its scope cannot be told for want of a
/// declaring file, whatever kind of node it is, and when it is a definition
/// in scope without a site.
pub open spec fn unlocated_at(
    node: EntityView,
    below: Seq<Seq<char>>,
    files: Seq<Seq<char>>,
    follow_inc: bool,
) -> Seq<Seq<char>> {
    match within_scope(node, files, follow_inc) {
        Ok(true) => match classification(node.kind, node.is_definition) {
            Classification::Definition => match site_of(node) {
                Some(_) => Seq::empty(),
                None => seq![node.name],
            },
            Classification::Container => below,
            Classification::Ignore => Seq::empty(),
        },
        Ok(false) => Seq::empty(),
        Err(_) => seq![node.name],
    }
}

/// The names of the nodes passed over for want of a location under the
/// first `n` children of `parent`, found by the same walk as
/// [`sites_from`].
pub open spec fn unlocated_from(
    parent: EntityView,
    n: nat,
    files: Seq<Seq<char>>,
    follow_inc: bool,
) -> Seq<Seq<char>>
    decreases parent, n,
{
    if n == 0 || n > parent.children.len() {
        Seq::empty()
    } else {
        let child = parent.children[n - 1];
        unlocated_from(parent, (n - 1) as nat, files, follow_inc) + unlocated_at(
            child,
            unlocated_from(child, child.children.len(), files, follow_inc),
            files,
            follow_inc,
        )
    }
}

/// The names of all nodes under `root` that the walk passes over for want
/// of a location, in traversal order.
pub open spec fn unlocated_definitions(
    root: EntityView,
    files: Seq<Seq<char>>,
    follow_inc: bool,
) -> Seq<Seq<char>> {
    unlocated_from(root, root.children.len(), files, follow_inc)
}

/// Walks the children of `entity` and appends what it finds to the two
/// lists.
fn walk(
    entity: &Entity,
    follow_inc: bool,
    files: &[String],
    sites: &mut Vec<DefinitionSite>,
    unlocated: &mut Vec<String>,
)
    ensures
        final(sites).deep_view() == old(sites).deep_view() + definition_sites(
            entity@,
            files.deep_view(),
            follow_inc,
        ),
        final(unlocated).deep_view() == old(unlocated).deep_view() + unlocated_definitions(
            entity@,
            files.deep_view(),
            follow_inc,
        ),
    decreases entity,
{
    proof {
        entity.lemma_view_children();
    }
    let mut i: usize = 0;
    while i < entity.children.len()
        invariant
            i <= entity.children@.len(),
            entity@.children.len() == entity.children@.len(),
            forall|k: int|
                0 <= k < entity.children@.len() ==> #[trigger] entity@.children[k]
                    == entity.children@[k]@,
            sites.deep_view() == old(sites).deep_view() + sites_from(
                entity@,
                i as nat,
                files.deep_view(),
                follow_inc,
            ),
            unlocated.deep_view() == old(unlocated).deep_view() + unlocated_from(
                entity@,
                i as nat,
                files.deep_view(),
                follow_inc,
            ),
        decreases entity.children@.len() - i,
    {
        let child = &entity.children[i];
        let ghost sites_before = sites.deep_view();
        let ghost unlocated_before = unlocated.deep_view();
        assert(entity@.children[i as int] == child@);
        match in_scope(child, files, follow_inc) {
            Ok(true) => match classify(child) {
                Classification::Definition => match DefinitionSite::resolve(child) {
                    Ok(site) => {
                        sites.push(site);
                        assert(sites.deep_view() == sites_before + seq![site.deep_view()]);
                    },
                    Err(_) => {
                        unlocated.push(child.name.clone());
                        assert(unlocated.deep_view() == unlocated_before + seq![child@.name]);
                    },
                },
                Classification::Container => {
                    walk(child, follow_inc, files, sites, unlocated);
                },
                Classification::Ignore => {},
            },
            Ok(false) => {},
            Err(_) => {
                unlocated.push(child.name.clone());
                assert(unlocated.deep_view() == unlocated_before + seq![child@.name]);
            },
        }
        i += 1;
    }
}

/// Finds the function and method definitions under `entity`.
///
/// Each child is looked at in order. A child that is out of scope is passed
/// over together with everything below it; unless `follow_inc` is set, a
/// child is in scope only when it was written in one of `files`. A child
/// whose scope cannot be told, because `follow_inc` is not set and its
/// declaring file cannot be resolved, is passed over in the same way and
/// named among the unlocated. A definition in scope gives a site at its
/// expansion location, or its name among the unlocated when that location
/// cannot be resolved. A container in scope is searched in the same way.
/// Nothing else is found, and a missing location never stops the walk.
pub fn get_functions_from_entity(entity: &Entity, follow_inc: bool, files: &[String]) -> (found:
    Discovery)
    ensures
        found.sites.deep_view() == definition_sites(entity@, files.deep_view(), follow_inc),
        found.unlocated.deep_view() == unlocated_definitions(
            entity@,
            files.deep_view(),
            follow_inc,
        ),
{
    let mut sites: Vec<DefinitionSite> = Vec::new();
    let mut unlocated: Vec<String> = Vec::new();
    walk(entity, follow_inc, files, &mut sites, &mut unlocated);
    Discovery { sites, unlocated }
}

/// The sites found in the first `n` of `units`, those of one unit after
/// those of the unit before it.
pub open spec fn sites_of_units(
    units: Seq<EntityView>,
    n: nat,
    files: Seq<Seq<char>>,
    follow_inc: bool,
) -> Seq<DefinitionSiteView>
    decreases n,
{
    if n == 0 || n > units.len() {
        Seq::empty()
    } else {
        sites_of_units(units, (n - 1) as nat, files, follow_inc) + definition_sites(
            units[n - 1],
            files,
            follow_inc,
        )
    }
}

/// The unlocated names of the first `n` of `units`, those of one unit after
/// those of the unit before it.
pub open spec fn unlocated_of_units(
    units: Seq<EntityView>,
    n: nat,
    files: Seq<Seq<char>>,
    follow_inc: bool,
) -> Seq<Seq<char>>
    decreases n,
{
    if n == 0 || n > units.len() {
        Seq::empty()
    } else {
        unlocated_of_units(units, (n - 1) as nat, files, follow_inc) + unlocated_definitions(
            units[n - 1],
            files,
            follow_inc,
        )
    }
}

/// Finds the definitions of several translation units, each given by its
/// root. Every unit is walked by itself, as [`get_functions_from_entity`]
/// does, and what the units give is put one after the other in the order of
/// `units`. A definition that two units share is found twice.
pub fn get_functions_from_units(units: &[Entity], follow_inc: bool, files: &[String]) -> (found:
    Discovery)
    ensures
        found.sites.deep_view() == sites_of_units(
            units.deep_view(),
            units@.len(),
            files.deep_view(),
            follow_inc,
        ),
        found.unlocated.deep_view() == unlocated_of_units(
            units.deep_view(),
            units@.len(),
            files.deep_view(),
            follow_inc,
        ),
{
    let mut sites: Vec<DefinitionSite> = Vec::new();
    let mut unlocated: Vec<String> = Vec::new();
    let mut i: usize = 0;
    while i < units.len()
        invariant
            i <= units@.len(),
            units.deep_view().len() == units@.len(),
            sites.deep_view() == sites_of_units(
                units.deep_view(),
                i as nat,
                files.deep_view(),
                follow_inc,
            ),
            unlocated.deep_view() == unlocated_of_units(
                units.deep_view(),
                i as nat,
                files.deep_view(),
                follow_inc,
            ),
        decreases units@.len() - i,
    {
        assert(units.deep_view()[i as int] == units@[i as int]@);
        walk(&units[i], follow_inc, files, &mut sites, &mut unlocated);
        i += 1;
    }
    Discovery { sites, unlocated }
}

/// Discovery depends on nothing but its input: two walks over trees with
/// the same value, with the same target files and the same switch, find the
/// same sites and the same unlocated names, in the same order.
pub proof fn lemma_discovery_is_repeatable(
    first: Discovery,
    second: Discovery,
    tree: Entity,
    same_tree: Entity,
    files: Seq<Seq<char>>,
    follow_inc: bool,
)
    requires
        tree@ == same_tree@,
        first.sites.deep_view() == definition_sites(tree@, files, follow_inc),
        first.unlocated.deep_view() == unlocated_definitions(tree@, files, follow_inc),
        second.sites.deep_view() == definition_sites(same_tree@, files, follow_inc),
        second.unlocated.deep_view() == unlocated_definitions(same_tree@, files, follow_inc),
    ensures
        first.sites.deep_view() == second.sites.deep_view(),
        first.unlocated.deep_view() == second.unlocated.deep_view(),
{
}

/// When included files are not followed, a definition is found if and only
/// if the file it was written in is a target file, and it is named as
/// unlocated if and only if that file cannot be resolved. The file in which
/// its text ends up after macro expansion plays no part: two nodes that
/// were written in the same file are in scope together or not at all.
pub proof fn lemma_scope_goes_by_declaring_file(
    node: EntityView,
    other: EntityView,
    below: Seq<DefinitionSiteView>,
    names_below: Seq<Seq<char>>,
    files: Seq<Seq<char>>,
)
    requires
        classification(node.kind, node.is_definition) == Classification::Definition,
        site_of(node) is Some,
    ensures
        sites_at(node, below, files, false) == match declaring_file(node) {
            Some(f) => if files.contains(f) {
                seq![site_of(node).unwrap()]
            } else {
                Seq::empty()
            },
            None => Seq::empty(),
        },
        unlocated_at(node, names_below, files, false) == match declaring_file(node) {
            Some(_) => Seq::empty(),
            None => seq![node.name],
        },
        declaring_file(node) == declaring_file(other) ==> within_scope(node, files, false)
            == within_scope(other, files, false),
{
}

} // verus!
