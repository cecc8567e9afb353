//! Why correcting each offset by the drift puts every snippet in its place.

use vstd::prelude::*;
use crate::inject::{injected, injected_upto, insert_at, target, target_of, InjectorView};
use crate::locate::{insertion_point, left_bracket_from, lemma_left_bracket_from, LEFT_BRACKET};
use crate::site::DefinitionSiteView;
use crate::snippet::{rendered, SnippetPartView};

verus! {

/// The insertion point of the site at index `k`, in the unmodified text.
pub open spec fn point(text: Seq<u8>, sites: Seq<DefinitionSiteView>, k: int) -> int {
    insertion_point(text, sites[k].byte_offset as int)
}

/// The sites can be handled one after the other: each has a `{` at or
/// after its offset with two bytes of room behind it, and each starts at or
/// after the insertion point of the one before it.
pub open spec fn well_separated(text: Seq<u8>, sites: Seq<DefinitionSiteView>) -> bool {
    forall|k: int|
        0 <= k < sites.len() ==> {
            &&& left_bracket_from(text, (#[trigger] sites[k]).byte_offset as int) is Some
            &&& point(text, sites, k) <= text.len()
            &&& 0 < k ==> point(text, sites, k - 1) <= sites[k].byte_offset
        }
}

/// The total length of the snippets of the first `n` sites.
pub open spec fn drift_before(
    sites: Seq<DefinitionSiteView>,
    parts: Seq<SnippetPartView>,
    n: nat,
) -> nat
    decreases n,
{
    if n == 0 || n > sites.len() {
        0
    } else {
        drift_before(sites, parts, (n - 1) as nat) + rendered(parts, sites[n - 1].name).len()
    }
}

/// The last insertion point among the first `n` sites, in the unmodified
/// text; zero when `n` is zero.
pub open spec fn frontier(text: Seq<u8>, sites: Seq<DefinitionSiteView>, n: nat) -> int {
    if n == 0 {
        0
    } else {
        point(text, sites, n - 1)
    }
}

/// A scan of a text that agrees with another one, shifted by `d` from
/// `from` on, finds the same brace shifted by `d`.
pub proof fn lemma_left_bracket_shift(a: Seq<u8>, b: Seq<u8>, from: int, d: int)
    requires
        0 <= from,
        0 <= d,
        b.len() == a.len() + d,
        forall|q: int| from <= q < a.len() ==> b[q + d] == a[q],
    ensures
        left_bracket_from(b, from + d) == match left_bracket_from(a, from) {
            Some(x) => Some(x + d),
            None => None,
        },
    decreases a.len() - from,
{
    if from < a.len() {
        assert(b[from + d] == a[from]);
        if a[from] != LEFT_BRACKET {
            lemma_left_bracket_shift(a, b, from + 1, d);
        }
    }
}

/// With well separated sites, after the first `n` of them the drift is the
/// total length of their snippets, the text has grown by as much, and from
/// the last insertion point on it is the unmodified text moved by the
/// drift.
pub proof fn lemma_injected_upto(
    text: Seq<u8>,
    sites: Seq<DefinitionSiteView>,
    parts: Seq<SnippetPartView>,
    n: nat,
)
    requires
        well_separated(text, sites),
        n <= sites.len(),
    ensures
        injected_upto(text, sites, parts, n).drift == drift_before(sites, parts, n),
        injected_upto(text, sites, parts, n).text.len() == text.len() + drift_before(
            sites,
            parts,
            n,
        ),
        0 <= frontier(text, sites, n) <= text.len(),
        forall|q: int|
            frontier(text, sites, n) <= q < text.len() ==> injected_upto(
                text,
                sites,
                parts,
                n,
            ).text[q + drift_before(sites, parts, n)] == text[q],
        n < sites.len() ==> target_of(text, sites, parts, n as int) == Some(
            point(text, sites, n as int) + drift_before(sites, parts, n),
        ),
    decreases n,
{
    let state = injected_upto(text, sites, parts, n);
    let drift = drift_before(sites, parts, n);
    if n > 0 {
        let m = (n - 1) as nat;
        lemma_injected_upto(text, sites, parts, m);
        let before = injected_upto(text, sites, parts, m);
        let d = drift_before(sites, parts, m);
        let snippet = rendered(parts, sites[m as int].name);
        let at = point(text, sites, m as int) + d;
        assert(target(before, sites[m as int].byte_offset) == Some(at));
        assert(state == injected(before, sites[m as int].byte_offset, snippet));
        assert(state.text == insert_at(before.text, at, snippet));
        assert(drift == d + snippet.len());
        lemma_left_bracket_from(text, sites[m as int].byte_offset as int);
        assert forall|q: int| frontier(text, sites, n) <= q < text.len() implies state.text[q
            + drift] == text[q] by {
            assert(state.text[q + drift] == before.text[q + d]);
        }
    }
    if n < sites.len() {
        let offset = sites[n as int].byte_offset as int;
        assert(frontier(text, sites, n) <= offset);
        lemma_left_bracket_shift(text, state.text, offset, drift as int);
        assert(left_bracket_from(state.text, offset + drift) == Some(
            point(text, sites, n as int) - 2 + drift,
        ));
    }
}

/// With well separated sites, the insertion points, moved by the drift
/// before them, never go back.
pub proof fn lemma_frontier_grows(
    text: Seq<u8>,
    sites: Seq<DefinitionSiteView>,
    parts: Seq<SnippetPartView>,
    i: nat,
    j: nat,
)
    requires
        well_separated(text, sites),
        i <= j <= sites.len(),
    ensures
        frontier(text, sites, i) <= frontier(text, sites, j),
        drift_before(sites, parts, i) <= drift_before(sites, parts, j),
    decreases j - i,
{
    if i < j {
        let m = (j - 1) as nat;
        lemma_frontier_grows(text, sites, parts, i, m);
        lemma_left_bracket_from(text, sites[m as int].byte_offset as int);
    }
}

/// With well separated sites, what stands before the end of the `n`-th
/// snippet after `n` insertions is not touched by the later ones.
pub proof fn lemma_prefix_stays(
    text: Seq<u8>,
    sites: Seq<DefinitionSiteView>,
    parts: Seq<SnippetPartView>,
    n: nat,
    later: nat,
)
    requires
        well_separated(text, sites),
        n <= later <= sites.len(),
    ensures
        frontier(text, sites, n) + drift_before(sites, parts, n) <= injected_upto(
            text,
            sites,
            parts,
            n,
        ).text.len(),
        injected_upto(text, sites, parts, later).text.subrange(
            0,
            frontier(text, sites, n) + drift_before(sites, parts, n),
        ) == injected_upto(text, sites, parts, n).text.subrange(
            0,
            frontier(text, sites, n) + drift_before(sites, parts, n),
        ),
    decreases later - n,
{
    lemma_injected_upto(text, sites, parts, n);
    if n < later {
        let m = (later - 1) as nat;
        lemma_prefix_stays(text, sites, parts, n, m);
        lemma_injected_upto(text, sites, parts, m);
        lemma_frontier_grows(text, sites, parts, n, m);
        lemma_left_bracket_from(text, sites[m as int].byte_offset as int);
        let end = frontier(text, sites, n) + drift_before(sites, parts, n);
        let before = injected_upto(text, sites, parts, m);
        let after = injected_upto(text, sites, parts, later);
        let at = point(text, sites, m as int) + drift_before(sites, parts, m);
        assert(target(before, sites[m as int].byte_offset) == Some(at));
        assert(after.text == insert_at(
            before.text,
            at,
            rendered(parts, sites[m as int].name),
        ));
        assert(end <= at);
        assert(after.text.subrange(0, end) =~= before.text.subrange(0, end));
    }
}

/// With well separated sites, every snippet stands where the unmodified
/// text asks for it.
///
/// For the site at index `k`: its snippet is inserted at its insertion point
/// in the unmodified text plus the total length of the snippets of the
/// sites before it; that insertion point lies two bytes behind the first
/// `{` at or after the site's offset in the unmodified text; and when all
/// sites have been handled, the snippet still stands at that offset.
pub proof fn lemma_snippet_in_place(
    text: Seq<u8>,
    sites: Seq<DefinitionSiteView>,
    parts: Seq<SnippetPartView>,
    k: int,
)
    requires
        well_separated(text, sites),
        0 <= k < sites.len(),
    ensures
        ({
            let at = point(text, sites, k) + drift_before(sites, parts, k as nat);
            let snippet = rendered(parts, sites[k].name);
            let done = injected_upto(text, sites, parts, sites.len());
            &&& target_of(text, sites, parts, k) == Some(at)
            &&& left_bracket_from(text, sites[k].byte_offset as int) == Some(
                point(text, sites, k) - 2,
            )
            &&& text[point(text, sites, k) - 2] == LEFT_BRACKET
            &&& at + snippet.len() <= done.text.len()
            &&& done.text.subrange(at, at + snippet.len()) == snippet
        }),
{
    let n = (k + 1) as nat;
    let at = point(text, sites, k) + drift_before(sites, parts, k as nat);
    let snippet = rendered(parts, sites[k].name);
    let done = injected_upto(text, sites, parts, sites.len());
    lemma_injected_upto(text, sites, parts, k as nat);
    lemma_left_bracket_from(text, sites[k].byte_offset as int);
    let before = injected_upto(text, sites, parts, k as nat);
    let after = injected_upto(text, sites, parts, n);
    assert(target(before, sites[k].byte_offset) == Some(at));
    assert(after.text == insert_at(before.text, at, snippet));
    assert(after.text.subrange(at, at + snippet.len()) =~= snippet);
    lemma_prefix_stays(text, sites, parts, n, sites.len());
    lemma_injected_upto(text, sites, parts, sites.len());
    lemma_frontier_grows(text, sites, parts, n, sites.len());
    let end = at + snippet.len();
    assert(end == frontier(text, sites, n) + drift_before(sites, parts, n));
    assert(done.text.subrange(at, end) =~= done.text.subrange(0, end).subrange(at, end));
    assert(after.text.subrange(at, end) =~= after.text.subrange(0, end).subrange(at, end));
}

/// With well separated sites, every byte of the unmodified text is kept:
/// a byte that lies between the insertion points of the sites `n - 1` and
/// `n` has moved by the total length of the first `n` snippets.
pub proof fn lemma_text_is_kept(
    text: Seq<u8>,
    sites: Seq<DefinitionSiteView>,
    parts: Seq<SnippetPartView>,
    n: nat,
    q: int,
)
    requires
        well_separated(text, sites),
        n <= sites.len(),
        frontier(text, sites, n) <= q < text.len(),
        n < sites.len() ==> q < point(text, sites, n as int),
    ensures
        injected_upto(text, sites, parts, sites.len()).text[q + drift_before(sites, parts, n)]
            == text[q],
{
    lemma_injected_upto(text, sites, parts, n);
    if n < sites.len() {
        let next = (n + 1) as nat;
        let moved = q + drift_before(sites, parts, n);
        let end = frontier(text, sites, next) + drift_before(sites, parts, next);
        let before = injected_upto(text, sites, parts, n);
        let after = injected_upto(text, sites, parts, next);
        let done = injected_upto(text, sites, parts, sites.len());
        let at = point(text, sites, n as int) + drift_before(sites, parts, n);
        assert(target(before, sites[n as int].byte_offset) == Some(at));
        assert(after.text == insert_at(
            before.text,
            at,
            rendered(parts, sites[n as int].name),
        ));
        assert(after.text[moved] == before.text[moved]);
        lemma_prefix_stays(text, sites, parts, next, sites.len());
        lemma_injected_upto(text, sites, parts, sites.len());
        lemma_frontier_grows(text, sites, parts, next, sites.len());
        assert(moved < end);
        assert(done.text.subrange(0, end)[moved] == done.text[moved]);
        assert(after.text.subrange(0, end)[moved] == after.text[moved]);
    }
}

/// When every snippet has the same length, the drift before the site at
/// index `n` is `n` times that length.
pub proof fn lemma_uniform_drift(
    sites: Seq<DefinitionSiteView>,
    parts: Seq<SnippetPartView>,
    length: nat,
    n: nat,
)
    requires
        n <= sites.len(),
        forall|j: int| 0 <= j < n ==> rendered(parts, (#[trigger] sites[j]).name).len() == length,
    ensures
        drift_before(sites, parts, n) == n * length,
    decreases n,
{
    if n > 0 {
        lemma_uniform_drift(sites, parts, length, (n - 1) as nat);
        assert(rendered(parts, sites[n - 1].name).len() == length);
        assert(n * length == (n - 1) * length + length) by (nonlinear_arith);
    } else {
        assert(0 * length == 0) by (nonlinear_arith);
    }
}

/// With well separated sites and snippets that all have the same length,
/// the snippet of the site at index `k` is inserted, and stands in the end,
/// at its insertion point in the unmodified text plus `k` times that
/// length.
pub proof fn lemma_uniform_snippet_in_place(
    text: Seq<u8>,
    sites: Seq<DefinitionSiteView>,
    parts: Seq<SnippetPartView>,
    length: nat,
    k: int,
)
    requires
        well_separated(text, sites),
        0 <= k < sites.len(),
        forall|j: int|
            0 <= j < sites.len() ==> rendered(parts, (#[trigger] sites[j]).name).len() == length,
    ensures
        ({
            let at = point(text, sites, k) + k * length;
            let done = injected_upto(text, sites, parts, sites.len());
            &&& target_of(text, sites, parts, k) == Some(at)
            &&& text[point(text, sites, k) - 2] == LEFT_BRACKET
            &&& at + length <= done.text.len()
            &&& done.text.subrange(at, at + length) == rendered(parts, sites[k].name)
            &&& done.text.len() == text.len() + sites.len() * length
        }),
{
    lemma_snippet_in_place(text, sites, parts, k);
    lemma_uniform_drift(sites, parts, length, k as nat);
    lemma_uniform_drift(sites, parts, length, sites.len());
    lemma_injected_upto(text, sites, parts, sites.len());
}

} // verus!
