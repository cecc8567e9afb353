//! Facts about the order of values in sequences.

use vstd::prelude::*;

verus! {

/// `x` stands somewhere before `y` in `s`.
pub open spec fn precedes<A>(s: Seq<A>, x: A, y: A) -> bool {
    exists|i: int, j: int| 0 <= i < j < s.len() && #[trigger] s[i] == x && #[trigger] s[j] == y
}

/// Whatever `part` holds, `whole` holds too, and two values that stand in
/// order in `part` stand in that order in `whole`. How often a value occurs
/// is not compared.
pub open spec fn embeds<A>(part: Seq<A>, whole: Seq<A>) -> bool {
    &&& forall|x: A| part.contains(x) ==> whole.contains(x)
    &&& forall|x: A, y: A| precedes(part, x, y) ==> precedes(whole, x, y)
}

/// What stands in `a + b` stands in `a` or in `b`.
pub proof fn lemma_contains_concat<A>(a: Seq<A>, b: Seq<A>, x: A)
    ensures
        (a + b).contains(x) <==> a.contains(x) || b.contains(x),
{
    if a.contains(x) {
        let i = choose|i: int| 0 <= i < a.len() && a[i] == x;
        assert((a + b)[i] == x);
    }
    if b.contains(x) {
        let i = choose|i: int| 0 <= i < b.len() && b[i] == x;
        assert((a + b)[a.len() + i] == x);
    }
    if (a + b).contains(x) {
        let i = choose|i: int| 0 <= i < (a + b).len() && (a + b)[i] == x;
        if i < a.len() {
            assert(a[i] == x);
        } else {
            assert(b[i - a.len()] == x);
        }
    }
}

/// Two values stand in order in `a + b` when they do so in `a` or in `b`,
/// or when the first stands in `a` and the second in `b`.
pub proof fn lemma_precedes_concat<A>(a: Seq<A>, b: Seq<A>, x: A, y: A)
    ensures
        precedes(a + b, x, y) <==> precedes(a, x, y) || precedes(b, x, y) || (a.contains(x)
            && b.contains(y)),
{
    let s = a + b;
    if precedes(a, x, y) {
        let (i, j) = choose|i: int, j: int|
            0 <= i < j < a.len() && #[trigger] a[i] == x && #[trigger] a[j] == y;
        assert(s[i] == x && s[j] == y);
    }
    if precedes(b, x, y) {
        let (i, j) = choose|i: int, j: int|
            0 <= i < j < b.len() && #[trigger] b[i] == x && #[trigger] b[j] == y;
        assert(s[a.len() + i] == x && s[a.len() + j] == y);
    }
    if a.contains(x) && b.contains(y) {
        let i = choose|i: int| 0 <= i < a.len() && a[i] == x;
        let j = choose|j: int| 0 <= j < b.len() && b[j] == y;
        assert(s[i] == x && s[a.len() + j] == y);
    }
    if precedes(s, x, y) {
        let (i, j) = choose|i: int, j: int|
            0 <= i < j < s.len() && #[trigger] s[i] == x && #[trigger] s[j] == y;
        if j < a.len() {
            assert(a[i] == x && a[j] == y);
        } else if i >= a.len() {
            assert(b[i - a.len()] == x && b[j - a.len()] == y);
        } else {
            assert(a[i] == x && b[j - a.len()] == y);
        }
    }
}

/// Putting two parts one after the other keeps them within the two wholes
/// put one after the other.
pub proof fn lemma_embeds_concat<A>(
    part: Seq<A>,
    whole: Seq<A>,
    more_part: Seq<A>,
    more_whole: Seq<A>,
)
    requires
        embeds(part, whole),
        embeds(more_part, more_whole),
    ensures
        embeds(part + more_part, whole + more_whole),
{
    assert forall|x: A| (part + more_part).contains(x) implies (whole + more_whole).contains(
        x,
    ) by {
        lemma_contains_concat(part, more_part, x);
        lemma_contains_concat(whole, more_whole, x);
    }
    assert forall|x: A, y: A| precedes(part + more_part, x, y) implies precedes(
        whole + more_whole,
        x,
        y,
    ) by {
        lemma_precedes_concat(part, more_part, x, y);
        lemma_precedes_concat(whole, more_whole, x, y);
    }
}

} // verus!
