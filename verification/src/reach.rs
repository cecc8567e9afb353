//! Which nodes of a tree the walk reports, said without the walk.

use vstd::prelude::*;
use crate::classify::{classification, Classification};
use crate::collect::{
    definition_sites, sites_at, sites_from, unlocated_at, unlocated_definitions, unlocated_from,
};
use crate::entity::{EntityView, LocateError};
use crate::scope::{is_searched, within_scope};
use crate::sequences::lemma_contains_concat;
use crate::site::{site_of, DefinitionSiteView};

verus! {

/// The node that is reached from `root` by going down to the child with
/// index `path[0]`, from there to its child with index `path[1]`, and so
/// on.
pub open spec fn node_at(root: EntityView, path: Seq<int>) -> EntityView
    decreases path.len(),
{
    if path.len() == 0 {
        root
    } else {
        node_at(root.children[path[0]], path.drop_first())
    }
}

/// The walk looks at the node at the end of `path`: the path leads from
/// `root` down to it, and every node on the way is a container in scope.
/// The root itself is not on the way.
pub open spec fn is_reached(
    root: EntityView,
    path: Seq<int>,
    files: Seq<Seq<char>>,
    follow_inc: bool,
) -> bool
    decreases path.len(),
{
    &&& path.len() > 0
    &&& 0 <= path[0] < root.children.len()
    &&& path.len() > 1 ==> {
        &&& is_searched(root.children[path[0]], files, follow_inc)
        &&& is_reached(root.children[path[0]], path.drop_first(), files, follow_inc)
    }
}

/// The site that the walk reports of a node it looks at: that of a
/// definition in scope, when it has one.
pub open spec fn reported_site(node: EntityView, files: Seq<Seq<char>>, follow_inc: bool) -> Option<
    DefinitionSiteView,
> {
    if within_scope(node, files, follow_inc) == Ok::<bool, LocateError>(true) && classification(
        node.kind,
        node.is_definition,
    ) == Classification::Definition {
        site_of(node)
    } else {
        None
    }
}

/// The walk names a node it looks at as unlocated: its scope cannot be told
/// for want of a declaring file, or it is a definition in scope without a
/// site.
pub open spec fn lacks_location(node: EntityView, files: Seq<Seq<char>>, follow_inc: bool) -> bool {
    match within_scope(node, files, follow_inc) {
        Ok(inside) => inside && classification(node.kind, node.is_definition)
            == Classification::Definition && site_of(node) is None,
        Err(_) => true,
    }
}

proof fn lemma_sites_from_grows(
    parent: EntityView,
    n: nat,
    m: nat,
    files: Seq<Seq<char>>,
    follow_inc: bool,
    s: DefinitionSiteView,
)
    requires
        n <= m <= parent.children.len(),
        sites_from(parent, n, files, follow_inc).contains(s),
    ensures
        sites_from(parent, m, files, follow_inc).contains(s),
    decreases m - n,
{
    if n < m {
        lemma_sites_from_grows(parent, n, (m - 1) as nat, files, follow_inc, s);
        let child = parent.children[m - 1];
        lemma_contains_concat(
            sites_from(parent, (m - 1) as nat, files, follow_inc),
            sites_at(
                child,
                sites_from(child, child.children.len(), files, follow_inc),
                files,
                follow_inc,
            ),
            s,
        );
    }
}

proof fn lemma_unlocated_from_grows(
    parent: EntityView,
    n: nat,
    m: nat,
    files: Seq<Seq<char>>,
    follow_inc: bool,
    name: Seq<char>,
)
    requires
        n <= m <= parent.children.len(),
        unlocated_from(parent, n, files, follow_inc).contains(name),
    ensures
        unlocated_from(parent, m, files, follow_inc).contains(name),
    decreases m - n,
{
    if n < m {
        lemma_unlocated_from_grows(parent, n, (m - 1) as nat, files, follow_inc, name);
        let child = parent.children[m - 1];
        lemma_contains_concat(
            unlocated_from(parent, (m - 1) as nat, files, follow_inc),
            unlocated_at(
                child,
                unlocated_from(child, child.children.len(), files, follow_inc),
                files,
                follow_inc,
            ),
            name,
        );
    }
}

/// Every node that the walk looks at is reported as it should be: a
/// definition in scope with its site, and a node that lacks a location with
/// its name among the unlocated.
pub proof fn lemma_reached_is_reported(
    root: EntityView,
    path: Seq<int>,
    files: Seq<Seq<char>>,
    follow_inc: bool,
)
    requires
        is_reached(root, path, files, follow_inc),
    ensures
        reported_site(node_at(root, path), files, follow_inc) matches Some(s)
            ==> definition_sites(root, files, follow_inc).contains(s),
        lacks_location(node_at(root, path), files, follow_inc) ==> unlocated_definitions(
            root,
            files,
            follow_inc,
        ).contains(node_at(root, path).name),
    decreases path.len(),
{
    let n = (path[0] + 1) as nat;
    let child = root.children[path[0]];
    let rest = path.drop_first();
    let node = node_at(root, path);
    let before = sites_from(root, (n - 1) as nat, files, follow_inc);
    let below = sites_from(child, child.children.len(), files, follow_inc);
    let here = sites_at(child, below, files, follow_inc);
    let names_before = unlocated_from(root, (n - 1) as nat, files, follow_inc);
    let names_below = unlocated_from(child, child.children.len(), files, follow_inc);
    let names_here = unlocated_at(child, names_below, files, follow_inc);
    assert(sites_from(root, n, files, follow_inc) == before + here);
    assert(unlocated_from(root, n, files, follow_inc) == names_before + names_here);
    assert(node == node_at(child, rest));
    if path.len() == 1 {
        assert(node_at(child, rest) == child);
    } else {
        lemma_reached_is_reported(child, rest, files, follow_inc);
    }
    if reported_site(node, files, follow_inc) is Some {
        let s = reported_site(node, files, follow_inc).unwrap();
        if path.len() == 1 {
            assert(here[0] == s);
        }
        lemma_contains_concat(before, here, s);
        lemma_sites_from_grows(root, n, root.children.len(), files, follow_inc, s);
    }
    if lacks_location(node, files, follow_inc) {
        if path.len() == 1 {
            assert(names_here[0] == node.name);
        }
        lemma_contains_concat(names_before, names_here, node.name);
        lemma_unlocated_from_grows(root, n, root.children.len(), files, follow_inc, node.name);
    }
}

proof fn lemma_site_below(
    parent: EntityView,
    n: nat,
    files: Seq<Seq<char>>,
    follow_inc: bool,
    s: DefinitionSiteView,
) -> (path: Seq<int>)
    requires
        sites_from(parent, n, files, follow_inc).contains(s),
    ensures
        is_reached(parent, path, files, follow_inc),
        reported_site(node_at(parent, path), files, follow_inc) == Some(s),
    decreases parent, n,
{
    if n == 0 || n > parent.children.len() {
        assert(sites_from(parent, n, files, follow_inc) == Seq::<DefinitionSiteView>::empty());
        assert(false);
        Seq::empty()
    } else {
        let child = parent.children[n - 1];
        let before = sites_from(parent, (n - 1) as nat, files, follow_inc);
        let below = sites_from(child, child.children.len(), files, follow_inc);
        let here = sites_at(child, below, files, follow_inc);
        assert(sites_from(parent, n, files, follow_inc) == before + here);
        lemma_contains_concat(before, here, s);
        if before.contains(s) {
            lemma_site_below(parent, (n - 1) as nat, files, follow_inc, s)
        } else if classification(child.kind, child.is_definition) == Classification::Definition {
            let path = seq![n - 1];
            assert(node_at(parent, path) == node_at(child, path.drop_first()));
            path
        } else {
            let rest = lemma_site_below(child, child.children.len(), files, follow_inc, s);
            let path = seq![n - 1] + rest;
            assert(path.drop_first() =~= rest);
            assert(node_at(parent, path) == node_at(child, path.drop_first()));
            path
        }
    }
}

proof fn lemma_unlocated_below(
    parent: EntityView,
    n: nat,
    files: Seq<Seq<char>>,
    follow_inc: bool,
    name: Seq<char>,
) -> (path: Seq<int>)
    requires
        unlocated_from(parent, n, files, follow_inc).contains(name),
    ensures
        is_reached(parent, path, files, follow_inc),
        lacks_location(node_at(parent, path), files, follow_inc),
        node_at(parent, path).name == name,
    decreases parent, n,
{
    if n == 0 || n > parent.children.len() {
        assert(unlocated_from(parent, n, files, follow_inc) == Seq::<Seq<char>>::empty());
        assert(false);
        Seq::empty()
    } else {
        let child = parent.children[n - 1];
        let before = unlocated_from(parent, (n - 1) as nat, files, follow_inc);
        let below = unlocated_from(child, child.children.len(), files, follow_inc);
        let here = unlocated_at(child, below, files, follow_inc);
        assert(unlocated_from(parent, n, files, follow_inc) == before + here);
        lemma_contains_concat(before, here, name);
        if before.contains(name) {
            lemma_unlocated_below(parent, (n - 1) as nat, files, follow_inc, name)
        } else if is_searched(child, files, follow_inc) {
            let rest = lemma_unlocated_below(child, child.children.len(), files, follow_inc, name);
            let path = seq![n - 1] + rest;
            assert(path.drop_first() =~= rest);
            assert(node_at(parent, path) == node_at(child, path.drop_first()));
            path
        } else {
            let path = seq![n - 1];
            assert(node_at(parent, path) == node_at(child, path.drop_first()));
            path
        }
    }
}

/// Every site that is reported is the site of a definition in scope that
/// the walk looks at; the path to it is returned.
pub proof fn lemma_site_is_reached(
    root: EntityView,
    files: Seq<Seq<char>>,
    follow_inc: bool,
    s: DefinitionSiteView,
) -> (path: Seq<int>)
    requires
        definition_sites(root, files, follow_inc).contains(s),
    ensures
        is_reached(root, path, files, follow_inc),
        reported_site(node_at(root, path), files, follow_inc) == Some(s),
{
    lemma_site_below(root, root.children.len(), files, follow_inc, s)
}

/// Every name that is reported as unlocated is the name of a node that the
/// walk looks at and that lacks a location; the path to it is returned.
pub proof fn lemma_unlocated_is_reached(
    root: EntityView,
    files: Seq<Seq<char>>,
    follow_inc: bool,
    name: Seq<char>,
) -> (path: Seq<int>)
    requires
        unlocated_definitions(root, files, follow_inc).contains(name),
    ensures
        is_reached(root, path, files, follow_inc),
        lacks_location(node_at(root, path), files, follow_inc),
        node_at(root, path).name == name,
{
    lemma_unlocated_below(root, root.children.len(), files, follow_inc, name)
}

/// Two trees are the same as far as the walk looks, for their first `n`
/// children: these agree in kind, definition flag, name and location, and
/// where one of them is a container in scope, the same holds below it.
/// What stands below any other node may differ.
pub open spec fn alike_upto(
    a: EntityView,
    b: EntityView,
    n: nat,
    files: Seq<Seq<char>>,
    follow_inc: bool,
) -> bool
    decreases a, n,
{
    if n == 0 {
        true
    } else if n > a.children.len() || n > b.children.len() {
        false
    } else {
        let x = a.children[n - 1];
        let y = b.children[n - 1];
        &&& alike_upto(a, b, (n - 1) as nat, files, follow_inc)
        &&& x.kind == y.kind
        &&& x.is_definition == y.is_definition
        &&& x.name == y.name
        &&& x.location == y.location
        &&& is_searched(x, files, follow_inc) ==> {
            &&& x.children.len() == y.children.len()
            &&& alike_upto(x, y, x.children.len(), files, follow_inc)
        }
    }
}

/// Two trees are the same as far as the walk looks.
pub open spec fn alike(a: EntityView, b: EntityView, files: Seq<Seq<char>>, follow_inc: bool) -> bool {
    a.children.len() == b.children.len() && alike_upto(a, b, a.children.len(), files, follow_inc)
}

proof fn lemma_alike_upto(
    a: EntityView,
    b: EntityView,
    n: nat,
    files: Seq<Seq<char>>,
    follow_inc: bool,
)
    requires
        alike_upto(a, b, n, files, follow_inc),
    ensures
        sites_from(a, n, files, follow_inc) == sites_from(b, n, files, follow_inc),
        unlocated_from(a, n, files, follow_inc) == unlocated_from(b, n, files, follow_inc),
    decreases a, n,
{
    if n > 0 {
        let x = a.children[n - 1];
        let y = b.children[n - 1];
        lemma_alike_upto(a, b, (n - 1) as nat, files, follow_inc);
        if is_searched(x, files, follow_inc) {
            lemma_alike_upto(x, y, x.children.len(), files, follow_inc);
        }
        assert(within_scope(x, files, follow_inc) == within_scope(y, files, follow_inc));
        assert(site_of(x) == site_of(y));
    }
}

/// The walk depends only on what it looks at: two trees that are the same
/// as far as the walk looks give the same sites and the same unlocated
/// names. So a tree may be handed over without what stands below the nodes
/// that are not containers in scope.
pub proof fn lemma_walk_looks_only_where_it_searches(
    a: EntityView,
    b: EntityView,
    files: Seq<Seq<char>>,
    follow_inc: bool,
)
    requires
        alike(a, b, files, follow_inc),
    ensures
        definition_sites(a, files, follow_inc) == definition_sites(b, files, follow_inc),
        unlocated_definitions(a, files, follow_inc) == unlocated_definitions(b, files, follow_inc),
{
    lemma_alike_upto(a, b, a.children.len(), files, follow_inc);
}

} // verus!
