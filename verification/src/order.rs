//! The order in which definitions are found is the order of the tree.

use vstd::prelude::*;
use crate::classify::{classification, Classification};
use crate::collect::{definition_sites, sites_at, sites_from};
use crate::entity::EntityView;
use crate::sequences::{embeds, lemma_embeds_concat, precedes};
use crate::site::{site_of, DefinitionSite, DefinitionSiteView};
use crate::source_file::{grouped, lemma_paths_upto, paths_upto, sites_in, SourceFileView};

verus! {

/// Within each file, the byte offsets of `sites` grow strictly from one
/// site to the next.
pub open spec fn offsets_increase(sites: Seq<DefinitionSiteView>) -> bool {
    forall|i: int, j: int|
        0 <= i < j < sites.len() && (#[trigger] sites[i]).file_path == (#[trigger] sites[
            j
        ]).file_path ==> sites[i].byte_offset < sites[j].byte_offset
}

/// Tells whether, within each file, the byte offsets of `sites` grow
/// strictly from one site to the next. Inserting snippets one after the
/// other relies on this order.
pub fn have_increasing_offsets(sites: &[DefinitionSite]) -> (ordered: bool)
    ensures
        ordered == offsets_increase(sites.deep_view()),
{
    let ghost all = sites.deep_view();
    let mut j: usize = 0;
    while j < sites.len()
        invariant
            j <= sites@.len(),
            all == sites.deep_view(),
            all.len() == sites@.len(),
            forall|a: int, b: int|
                0 <= a < b < j && (#[trigger] all[a]).file_path == (#[trigger] all[b]).file_path
                    ==> all[a].byte_offset < all[b].byte_offset,
        decreases sites@.len() - j,
    {
        let mut i: usize = 0;
        while i < j
            invariant
                i <= j < sites@.len(),
                all == sites.deep_view(),
                all.len() == sites@.len(),
                forall|a: int|
                    0 <= a < i && (#[trigger] all[a]).file_path == all[j as int].file_path
                        ==> all[a].byte_offset < all[j as int].byte_offset,
            decreases j - i,
        {
            assert(all[i as int] == sites@[i as int]@);
            assert(all[j as int] == sites@[j as int]@);
            if sites[i].file_path == sites[j].file_path && sites[i].byte_offset
                >= sites[j].byte_offset {
                return false;
            }
            i += 1;
        }
        j += 1;
    }
    true
}

/// What a single node adds to the definitions of the whole tree, given what
/// its own children add: its own site first, when it is a definition that
/// has one.
pub open spec fn every_site_at(node: EntityView, below: Seq<DefinitionSiteView>) -> Seq<
    DefinitionSiteView,
> {
    match (classification(node.kind, node.is_definition), site_of(node)) {
        (Classification::Definition, Some(s)) => seq![s] + below,
        _ => below,
    }
}

/// The sites of all definitions among the first `n` children of `parent`
/// and below them, whatever their scope and wherever they stand, parents
/// before children and children in order.
pub open spec fn every_site_from(parent: EntityView, n: nat) -> Seq<DefinitionSiteView>
    decreases parent, n,
{
    if n == 0 || n > parent.children.len() {
        Seq::empty()
    } else {
        let child = parent.children[n - 1];
        every_site_from(parent, (n - 1) as nat) + every_site_at(
            child,
            every_site_from(child, child.children.len()),
        )
    }
}

/// The sites of all definitions below `root`, in the order of the tree.
pub open spec fn every_site(root: EntityView) -> Seq<DefinitionSiteView> {
    every_site_from(root, root.children.len())
}

/// The tree exposes its definitions in the order of the source text: within
/// each file, a definition that comes later in the tree starts at a larger
/// byte offset.
pub open spec fn in_source_order(root: EntityView) -> bool {
    offsets_increase(every_site(root))
}

proof fn lemma_embeds_offsets(part: Seq<DefinitionSiteView>, whole: Seq<DefinitionSiteView>)
    requires
        embeds(part, whole),
        offsets_increase(whole),
    ensures
        offsets_increase(part),
{
    assert forall|i: int, j: int|
        0 <= i < j < part.len() && (#[trigger] part[i]).file_path == (#[trigger] part[
            j
        ]).file_path implies part[i].byte_offset < part[j].byte_offset by {
        assert(precedes(part, part[i], part[j]));
        assert(precedes(whole, part[i], part[j]));
    }
}

/// What the walk finds under the first `n` children of `parent` is found
/// among all definitions there, in the same order.
pub proof fn lemma_sites_embed(parent: EntityView, n: nat, files: Seq<Seq<char>>, follow_inc: bool)
    ensures
        embeds(sites_from(parent, n, files, follow_inc), every_site_from(parent, n)),
    decreases parent, n,
{
    if n == 0 || n > parent.children.len() {
        assert(sites_from(parent, n, files, follow_inc) == Seq::<DefinitionSiteView>::empty());
    } else {
        let child = parent.children[n - 1];
        let below = sites_from(child, child.children.len(), files, follow_inc);
        let every_below = every_site_from(child, child.children.len());
        lemma_sites_embed(parent, (n - 1) as nat, files, follow_inc);
        lemma_sites_embed(child, child.children.len(), files, follow_inc);
        let here = sites_at(child, below, files, follow_inc);
        let every_here = every_site_at(child, every_below);
        if here.len() == 0 {
        } else if classification(child.kind, child.is_definition) == Classification::Definition {
            let s = site_of(child).unwrap();
            assert(here == seq![s]);
            assert(every_here == seq![s] + every_below);
            assert(every_here[0] == s);
            assert forall|x: DefinitionSiteView| here.contains(x) implies every_here.contains(
                x,
            ) by {
                assert(x == s);
            }
        } else {
            assert(here == below);
            assert(every_here == every_below);
        }
        lemma_embeds_concat(
            sites_from(parent, (n - 1) as nat, files, follow_inc),
            every_site_from(parent, (n - 1) as nat),
            here,
            every_here,
        );
        assert(sites_from(parent, n, files, follow_inc) == sites_from(
            parent,
            (n - 1) as nat,
            files,
            follow_inc,
        ) + here);
        assert(every_site_from(parent, n) == every_site_from(parent, (n - 1) as nat)
            + every_here);
    }
}

/// The walk keeps the order of the source text: when the tree exposes its
/// definitions in that order, the byte offsets of the sites found grow
/// strictly within each file, whatever the target files are.
pub proof fn lemma_sites_in_source_order(root: EntityView, files: Seq<Seq<char>>, follow_inc: bool)
    requires
        in_source_order(root),
    ensures
        offsets_increase(definition_sites(root, files, follow_inc)),
{
    lemma_sites_embed(root, root.children.len(), files, follow_inc);
    lemma_embeds_offsets(definition_sites(root, files, follow_inc), every_site(root));
}

/// What the walk finds when it keeps to the target files is found, in the
/// same order, by the walk that follows included files.
pub proof fn lemma_scoped_sites_embed(
    parent: EntityView,
    n: nat,
    files: Seq<Seq<char>>,
    other_files: Seq<Seq<char>>,
)
    ensures
        embeds(sites_from(parent, n, files, false), sites_from(parent, n, other_files, true)),
    decreases parent, n,
{
    if n == 0 || n > parent.children.len() {
        assert(sites_from(parent, n, files, false) == Seq::<DefinitionSiteView>::empty());
    } else {
        let child = parent.children[n - 1];
        let below = sites_from(child, child.children.len(), files, false);
        let wide_below = sites_from(child, child.children.len(), other_files, true);
        lemma_scoped_sites_embed(parent, (n - 1) as nat, files, other_files);
        lemma_scoped_sites_embed(child, child.children.len(), files, other_files);
        let here = sites_at(child, below, files, false);
        let wide_here = sites_at(child, wide_below, other_files, true);
        assert(embeds(here, wide_here));
        lemma_embeds_concat(
            sites_from(parent, (n - 1) as nat, files, false),
            sites_from(parent, (n - 1) as nat, other_files, true),
            here,
            wide_here,
        );
        assert(sites_from(parent, n, files, false) == sites_from(
            parent,
            (n - 1) as nat,
            files,
            false,
        ) + here);
        assert(sites_from(parent, n, other_files, true) == sites_from(
            parent,
            (n - 1) as nat,
            other_files,
            true,
        ) + wide_here);
    }
}

/// Keeping to the target files cannot disturb the order: when the byte
/// offsets of the sites found with included files followed grow strictly
/// within each file, so do those of the sites found in any target files.
pub proof fn lemma_scope_keeps_order(
    root: EntityView,
    files: Seq<Seq<char>>,
    other_files: Seq<Seq<char>>,
)
    requires
        offsets_increase(definition_sites(root, other_files, true)),
    ensures
        offsets_increase(definition_sites(root, files, false)),
{
    lemma_scoped_sites_embed(root, root.children.len(), files, other_files);
    lemma_embeds_offsets(
        definition_sites(root, files, false),
        definition_sites(root, other_files, true),
    );
}

/// The sites of one file among the first `n` sites stand among those
/// sites, in the same order.
pub proof fn lemma_sites_in_embed(sites: Seq<DefinitionSiteView>, path: Seq<char>, n: nat)
    requires
        n <= sites.len(),
    ensures
        embeds(sites_in(sites, path, n), sites.take(n as int)),
    decreases n,
{
    if n > 0 {
        let m = (n - 1) as nat;
        lemma_sites_in_embed(sites, path, m);
        let last = seq![sites[m as int]];
        let here = if sites[m as int].file_path == path {
            last
        } else {
            Seq::empty()
        };
        assert(embeds(here, last));
        lemma_embeds_concat(sites_in(sites, path, m), sites.take(m as int), here, last);
        assert(sites.take(n as int) =~= sites.take(m as int) + last);
        assert(sites_in(sites, path, n) =~= sites_in(sites, path, m) + here);
    }
}

/// Grouping keeps the order of the source text: when the byte offsets of
/// `sites` grow strictly within each file, they grow strictly from each
/// definition of a group to the next.
pub proof fn lemma_group_offsets_increase(sites: Seq<DefinitionSiteView>, k: int)
    requires
        offsets_increase(sites),
        0 <= k < grouped(sites).len(),
    ensures
        forall|i: int, j: int|
            0 <= i < j < grouped(sites)[k].functions.len() ==> (#[trigger] grouped(
                sites,
            )[k].functions[i]).byte_offset < (#[trigger] grouped(sites)[k].functions[j]).byte_offset,
{
    let path = paths_upto(sites, sites.len())[k];
    let functions = sites_in(sites, path, sites.len());
    assert(grouped(sites)[k].functions == functions);
    lemma_sites_in_embed(sites, path, sites.len());
    assert(sites.take(sites.len() as int) =~= sites);
    lemma_embeds_offsets(functions, sites);
    lemma_paths_upto(sites, sites.len());
    assert((SourceFileView { path, functions }).wf());
}

} // verus!
