//! The definitions of one file, and the grouping of sites by file.

use vstd::prelude::*;
use vstd::string::*;
use crate::inject::{injected, injected_upto, target, target_of};
use crate::report::{append_listing_line, listing_line};
use crate::snippet::{rendered, SnippetPartView};
use crate::site::{DefinitionSite, DefinitionSiteView};

verus! {

/// The definitions found in one file, in the order in which they were found.
#[derive(Clone, Debug, PartialEq, Eq)]
pub struct SourceFile {
    pub path: String,
    pub functions: Vec<DefinitionSite>,
}

/// Mathematical value of a [`SourceFile`].
pub struct SourceFileView {
    pub path: Seq<char>,
    pub functions: Seq<DefinitionSiteView>,
}

impl View for SourceFile {
    type V = SourceFileView;

    open spec fn view(&self) -> SourceFileView {
        SourceFileView { path: self.path@, functions: self.functions.deep_view() }
    }
}

impl DeepView for SourceFile {
    type V = SourceFileView;

    open spec fn deep_view(&self) -> SourceFileView {
        self@
    }
}

impl SourceFileView {
    /// There is at least one definition, and every definition lies in the
    /// file at `path`.
    pub open spec fn wf(self) -> bool {
        &&& self.functions.len() > 0
        &&& forall|i: int|
            0 <= i < self.functions.len() ==> (#[trigger] self.functions[i]).file_path
                == self.path
    }
}

/// The lines that list the first `n` of `functions`, one after the other.
pub open spec fn listing_upto(functions: Seq<DefinitionSiteView>, n: nat) -> Seq<char>
    decreases n,
{
    if n == 0 || n > functions.len() {
        Seq::empty()
    } else {
        listing_upto(functions, (n - 1) as nat) + listing_line(functions[n - 1])
    }
}

/// The listing of one file: a head line with its path, then one line for
/// each definition, in order.
pub open spec fn listing(file: SourceFileView) -> Seq<char> {
    "source file: "@ + file.path + "\n"@ + listing_upto(file.functions, file.functions.len())
}

impl SourceFile {
    /// Makes the group of `functions`, under the path of the first of them.
    /// The group is well formed when all of them lie in that file.
    pub fn new(functions: Vec<DefinitionSite>) -> (file: SourceFile)
        requires
            functions@.len() > 0,
        ensures
            file@.path == functions.deep_view()[0].file_path,
            file@.functions == functions.deep_view(),
            file@.wf() <==> forall|i: int|
                0 <= i < functions@.len() ==> (#[trigger] functions.deep_view()[i]).file_path
                    == functions.deep_view()[0].file_path,
    {
        let path = functions[0].file_path.clone();
        SourceFile { path, functions }
    }

    /// Renders the listing of this file: what a run reports of it.
    pub fn print(&self) -> (text: String)
        ensures
            text@ == listing(self@),
    {
        let mut text = String::from_str("source file: ");
        text.append(self.path.as_str());
        text.append("\n");
        let ghost head = text@;
        let mut i: usize = 0;
        while i < self.functions.len()
            invariant
                i <= self.functions@.len(),
                self@.functions.len() == self.functions@.len(),
                text@ == head + listing_upto(self@.functions, i as nat),
            decreases self.functions@.len() - i,
        {
            assert(self@.functions[i as int] == self.functions@[i as int]@);
            append_listing_line(&mut text, &self.functions[i]);
            i += 1;
        }
        text
    }
}

/// The listing and the injection go through the same definitions in the
/// same order: the line at index `i` of the listing is that of the
/// definition at index `i`, and the insertion at index `i` is made for that
/// same definition, at its offset and with the snippet for its name.
pub proof fn lemma_listing_follows_injection(
    file: SourceFileView,
    text: Seq<u8>,
    parts: Seq<SnippetPartView>,
    i: int,
)
    requires
        0 <= i < file.functions.len(),
    ensures
        listing_upto(file.functions, (i + 1) as nat) == listing_upto(file.functions, i as nat)
            + listing_line(file.functions[i]),
        target_of(text, file.functions, parts, i) == target(
            injected_upto(text, file.functions, parts, i as nat),
            file.functions[i].byte_offset,
        ),
        injected_upto(text, file.functions, parts, (i + 1) as nat) == injected(
            injected_upto(text, file.functions, parts, i as nat),
            file.functions[i].byte_offset,
            rendered(parts, file.functions[i].name),
        ),
{
}

/// The paths of the first `n` sites, each once, in the order in which they
/// first occur.
pub open spec fn paths_upto(sites: Seq<DefinitionSiteView>, n: nat) -> Seq<Seq<char>>
    decreases n,
{
    if n == 0 || n > sites.len() {
        Seq::empty()
    } else {
        let before = paths_upto(sites, (n - 1) as nat);
        if before.contains(sites[n - 1].file_path) {
            before
        } else {
            before.push(sites[n - 1].file_path)
        }
    }
}

/// Those of the first `n` sites that lie in the file at `path`, in order.
pub open spec fn sites_in(sites: Seq<DefinitionSiteView>, path: Seq<char>, n: nat) -> Seq<
    DefinitionSiteView,
>
    decreases n,
{
    if n == 0 || n > sites.len() {
        Seq::empty()
    } else if sites[n - 1].file_path == path {
        sites_in(sites, path, (n - 1) as nat).push(sites[n - 1])
    } else {
        sites_in(sites, path, (n - 1) as nat)
    }
}

/// The first `n` sites grouped by file: one group for each path, in the
/// order in which the paths first occur, each with its sites in order.
pub open spec fn grouped_upto(sites: Seq<DefinitionSiteView>, n: nat) -> Seq<SourceFileView> {
    Seq::new(
        paths_upto(sites, n).len(),
        |k: int|
            SourceFileView {
                path: paths_upto(sites, n)[k],
                functions: sites_in(sites, paths_upto(sites, n)[k], n),
            },
    )
}

/// All of `sites` grouped by file.
pub open spec fn grouped(sites: Seq<DefinitionSiteView>) -> Seq<SourceFileView> {
    grouped_upto(sites, sites.len())
}

/// Every path among the first `n` sites is listed, no path is listed twice,
/// and a path that is not listed has no site.
pub proof fn lemma_paths_upto(sites: Seq<DefinitionSiteView>, n: nat)
    requires
        n <= sites.len(),
    ensures
        forall|j: int| 0 <= j < n ==> paths_upto(sites, n).contains((#[trigger] sites[j]).file_path),
        forall|a: int, b: int|
            0 <= a < b < paths_upto(sites, n).len() ==> paths_upto(sites, n)[a] != paths_upto(
                sites,
                n,
            )[b],
        forall|p: Seq<char>|
            !paths_upto(sites, n).contains(p) ==> #[trigger] sites_in(sites, p, n)
                == Seq::<DefinitionSiteView>::empty(),
        forall|k: int|
            0 <= k < paths_upto(sites, n).len() ==> (SourceFileView {
                path: #[trigger] paths_upto(sites, n)[k],
                functions: sites_in(sites, paths_upto(sites, n)[k], n),
            }).wf(),
    decreases n,
{
    if n > 0 {
        let m = (n - 1) as nat;
        lemma_paths_upto(sites, m);
        let before = paths_upto(sites, m);
        let now = paths_upto(sites, n);
        let path = sites[m as int].file_path;
        if before.contains(path) {
            assert(now == before);
        } else {
            assert(now == before.push(path));
            assert(now[before.len() as int] == path);
        }
        assert forall|j: int| 0 <= j < n implies now.contains((#[trigger] sites[j]).file_path) by {
            if j < m {
                let w = choose|w: int| 0 <= w < before.len() && before[w] == sites[j].file_path;
                assert(now[w] == sites[j].file_path);
            } else if before.contains(path) {
            } else {
                assert(now[before.len() as int] == path);
            }
        }
        assert forall|p: Seq<char>| !now.contains(p) implies #[trigger] sites_in(sites, p, n)
            == Seq::<DefinitionSiteView>::empty() by {
            if before.contains(p) {
                let w = choose|w: int| 0 <= w < before.len() && before[w] == p;
                assert(now[w] == p);
            }
            assert(sites_in(sites, p, m) == Seq::<DefinitionSiteView>::empty());
            if path == p {
                if !before.contains(path) {
                    assert(now[before.len() as int] == path);
                }
            }
        }
        assert forall|k: int| 0 <= k < now.len() implies (SourceFileView {
            path: #[trigger] now[k],
            functions: sites_in(sites, now[k], n),
        }).wf() by {
            if k < before.len() {
                assert(now[k] == before[k]);
                assert((SourceFileView {
                    path: before[k],
                    functions: sites_in(sites, before[k], m),
                }).wf());
            } else {
                assert(now[k] == path);
                assert(sites_in(sites, path, m) == Seq::<DefinitionSiteView>::empty());
            }
        }
    }
}

/// Every group is well formed: it is not empty and holds only sites of its
/// own file.
pub proof fn lemma_grouped_wf(sites: Seq<DefinitionSiteView>, k: int)
    requires
        0 <= k < grouped(sites).len(),
    ensures
        grouped(sites)[k].wf(),
{
    lemma_paths_upto(sites, sites.len());
    assert((SourceFileView {
        path: paths_upto(sites, sites.len())[k],
        functions: sites_in(sites, paths_upto(sites, sites.len())[k], sites.len()),
    }).wf());
}

/// Groups `sites` by the file they lie in.
///
/// There is one group for each path, in the order in which the paths first
/// occur, and each group holds the sites of its file in the order in which
/// they stand in `sites`. Sites that occur twice stay twice.
pub fn group_by_file(sites: &[DefinitionSite]) -> (groups: Vec<SourceFile>)
    ensures
        groups.deep_view() == grouped(sites.deep_view()),
        forall|k: int| 0 <= k < groups@.len() ==> (#[trigger] groups@[k])@.wf(),
{
    let mut groups: Vec<SourceFile> = Vec::new();
    let mut i: usize = 0;
    while i < sites.len()
        invariant
            i <= sites@.len(),
            sites.deep_view().len() == sites@.len(),
            groups.deep_view() == grouped_upto(sites.deep_view(), i as nat),
        decreases sites@.len() - i,
    {
        let site = &sites[i];
        let ghost all = sites.deep_view();
        let ghost before = groups.deep_view();
        proof {
            lemma_paths_upto(all, i as nat);
            lemma_paths_upto(all, (i + 1) as nat);
            assert(all[i as int] == site@);
        }
        let mut k: usize = 0;
        while k < groups.len() && groups[k].path != site.file_path
            invariant
                k <= groups@.len(),
                groups.deep_view() == before,
                before.len() == groups@.len(),
                forall|j: int| 0 <= j < k ==> before[j].path != site@.file_path,
            decreases groups@.len() - k,
        {
            assert(before[k as int].path == groups@[k as int].path@);
            k += 1;
        }
        let ghost paths = paths_upto(all, i as nat);
        let ghost wanted = grouped_upto(all, (i + 1) as nat);
        if k < groups.len() {
            assert(before[k as int].path == groups@[k as int].path@);
            let ghost old_functions = groups@[k as int].functions.deep_view();
            let ghost old_groups = groups@;
            groups[k].functions.push(site.duplicate());
            proof {
                assert(paths[k as int] == site@.file_path);
                assert(paths_upto(all, (i + 1) as nat) == paths);
                assert(groups@[k as int].functions.deep_view() =~= old_functions.push(site@));
                assert forall|j: int| 0 <= j < wanted.len() implies groups.deep_view()[j]
                    == wanted[j] by {
                    if j != k {
                        assert(groups@[j] == old_groups[j]);
                        assert(groups.deep_view()[j] == before[j]);
                        assert(paths[j] != paths[k as int]);
                    }
                }
            }
        } else {
            let mut functions: Vec<DefinitionSite> = Vec::new();
            functions.push(site.duplicate());
            assert(functions.deep_view() =~= seq![site@]);
            groups.push(SourceFile::new(functions));
            proof {
                assert(!paths.contains(site@.file_path)) by {
                    if paths.contains(site@.file_path) {
                        let w = choose|w: int| 0 <= w < paths.len() && paths[w] == site@.file_path;
                        assert(before[w].path == paths[w]);
                    }
                }
                assert(paths_upto(all, (i + 1) as nat) == paths.push(site@.file_path));
                assert(sites_in(all, site@.file_path, i as nat) == Seq::<
                    DefinitionSiteView,
                >::empty());
                assert forall|j: int| 0 <= j < wanted.len() implies groups.deep_view()[j]
                    == wanted[j] by {
                    if j < before.len() {
                        assert(groups.deep_view()[j] == before[j]);
                        assert(paths.contains(paths[j]));
                    }
                }
            }
        }
        i += 1;
        assert(groups.deep_view() =~= wanted);
    }
    proof {
        assert forall|k: int| 0 <= k < groups@.len() implies (#[trigger] groups@[k])@.wf() by {
            lemma_grouped_wf(sites.deep_view(), k);
            assert(groups.deep_view()[k] == groups@[k]@);
        }
    }
    groups
}

} // verus!
