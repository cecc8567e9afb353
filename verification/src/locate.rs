//! Finding the opening brace of a function body in raw file text.

use vstd::prelude::*;

verus! {

/// The byte `{`.
pub const LEFT_BRACKET: u8 = 0x7b;

/// The index of the first `{` in `text` at or after `from`, if there is one.
/// The scan looks at single bytes and knows nothing of comments, strings or
/// nesting.
pub open spec fn left_bracket_from(text: Seq<u8>, from: int) -> Option<int>
    decreases text.len() - from,
{
    if from < 0 || from >= text.len() {
        None
    } else if text[from] == LEFT_BRACKET {
        Some(from)
    } else {
        left_bracket_from(text, from + 1)
    }
}

/// The place where text is inserted for a definition that starts at `from`:
/// two bytes past the first `{` at or after `from`, which skips the brace
/// and the line end behind it. Without such a brace it is the end of the
/// text, or `from` itself when that lies beyond the end.
pub open spec fn insertion_point(text: Seq<u8>, from: int) -> int {
    match left_bracket_from(text, from) {
        Some(b) => b + 2,
        None => if from <= text.len() {
            text.len() as int
        } else {
            from
        },
    }
}

/// `left_bracket_from` returns the first `{` at or after `from` and nothing
/// else: the byte there is a `{`, no byte between `from` and it is one, and
/// when it returns nothing there is no `{` from `from` on.
pub proof fn lemma_left_bracket_from(text: Seq<u8>, from: int)
    requires
        0 <= from,
    ensures
        match left_bracket_from(text, from) {
            Some(b) => {
                &&& from <= b < text.len()
                &&& text[b] == LEFT_BRACKET
                &&& forall|j: int| from <= j < b ==> text[j] != LEFT_BRACKET
            },
            None => forall|j: int| from <= j < text.len() ==> text[j] != LEFT_BRACKET,
        },
    decreases text.len() - from,
{
    if from < text.len() && text[from] != LEFT_BRACKET {
        lemma_left_bracket_from(text, from + 1);
    }
}

/// Looks for the first `{` in `text` at or after `idx`.
pub fn find_left_bracket(text: &[u8], idx: usize) -> (found: Option<usize>)
    ensures
        match found {
            Some(b) => left_bracket_from(text@, idx as int) == Some(b as int),
            None => left_bracket_from(text@, idx as int) is None,
        },
{
    let mut i: usize = idx;
    while i < text.len()
        invariant
            idx <= i,
            left_bracket_from(text@, idx as int) == left_bracket_from(text@, i as int),
        decreases text@.len() - i,
    {
        if text[i] == LEFT_BRACKET {
            return Some(i);
        }
        i += 1;
    }
    None
}

/// Returns the offset at which text is inserted for a definition that
/// starts at `idx`: two bytes past the next `{`. When `text` holds no `{`
/// from `idx` on, the result is the length of `text`, or `idx` if that is
/// larger; it says by itself nothing about whether a brace was found.
pub fn get_next_left_bracket(text: &[u8], idx: usize) -> (offset: usize)
    requires
        text@.len() + 2 <= usize::MAX,
    ensures
        offset == insertion_point(text@, idx as int),
{
    match find_left_bracket(text, idx) {
        Some(b) => {
            proof {
                lemma_left_bracket_from(text@, idx as int);
            }
            b + 2
        },
        None => if idx <= text.len() {
            text.len()
        } else {
            idx
        },
    }
}

} // verus!
