//! Inserting snippets into one file's text, one definition after the other.

use vstd::prelude::*;
use vstd::slice::slice_subrange;
use crate::locate::{find_left_bracket, left_bracket_from, lemma_left_bracket_from};
use crate::site::{DefinitionSite, DefinitionSiteView};
use crate::snippet::{rendered, SnippetPartView, SnippetTemplate};

verus! {

/// Why nothing was inserted for a definition.
#[derive(Clone, Copy, Debug, PartialEq, Eq, Structural)]
pub enum InjectError {
    /// The text holds no `{` from the definition on, or none with two bytes
    /// of room behind it.
    BraceNotFound,
}

/// Mathematical value of an [`Injector`].
pub struct InjectorView {
    /// The text as it stands, earlier insertions included.
    pub text: Seq<u8>,
    /// The number of bytes inserted so far.
    pub drift: nat,
}

/// `text` with `snippet` put in before the byte at `at`.
pub open spec fn insert_at(text: Seq<u8>, at: int, snippet: Seq<u8>) -> Seq<u8> {
    text.subrange(0, at) + snippet + text.subrange(at, text.len() as int)
}

/// Where the snippet goes for a definition that started at `byte_offset`
/// in the unmodified text: two bytes past the first `{` at or after
/// `byte_offset + drift` in the text as it stands. There is no such place
/// when no `{` follows, or when less than two bytes' room is left behind it.
pub open spec fn target(state: InjectorView, byte_offset: nat) -> Option<int> {
    match left_bracket_from(state.text, (byte_offset + state.drift) as int) {
        Some(b) => if b + 2 <= state.text.len() {
            Some(b + 2)
        } else {
            None
        },
        None => None,
    }
}

/// The state after one definition: with a target, the snippet stands there
/// and the drift has grown by its length; without one, nothing has changed.
pub open spec fn injected(state: InjectorView, byte_offset: nat, snippet: Seq<u8>) -> InjectorView {
    match target(state, byte_offset) {
        Some(at) => InjectorView {
            text: insert_at(state.text, at, snippet),
            drift: state.drift + snippet.len(),
        },
        None => state,
    }
}

/// The text of one file while snippets are being inserted into it, with the
/// number of bytes by which earlier insertions have moved what follows them.
#[derive(Debug)]
pub struct Injector {
    text: Vec<u8>,
    drift: usize,
}

impl View for Injector {
    type V = InjectorView;

    closed spec fn view(&self) -> InjectorView {
        InjectorView { text: self.text@, drift: self.drift as nat }
    }
}

/// Appends the bytes of `src` to `dst`.
fn append_bytes(dst: &mut Vec<u8>, src: &[u8])
    ensures
        final(dst)@ == old(dst)@ + src@,
{
    let mut i: usize = 0;
    while i < src.len()
        invariant
            i <= src@.len(),
            dst@ == old(dst)@ + src@.subrange(0, i as int),
        decreases src@.len() - i,
    {
        dst.push(src[i]);
        i += 1;
    }
    assert(src@.subrange(0, src@.len() as int) == src@);
}

impl Injector {
    /// What was inserted is part of the text, so the drift never exceeds
    /// the length of the text.
    #[verifier::type_invariant]
    spec fn drift_within_text(self) -> bool {
        self.drift <= self.text@.len()
    }

    /// Starts on the unmodified text of a file.
    pub fn new(text: Vec<u8>) -> (injector: Injector)
        ensures
            injector@ == (InjectorView { text: text@, drift: 0 }),
    {
        Injector { text, drift: 0 }
    }

    /// The text as it stands.
    pub fn text(&self) -> (text: &Vec<u8>)
        ensures
            text@ == self@.text,
    {
        &self.text
    }

    /// The number of bytes inserted so far.
    pub fn drift(&self) -> (drift: usize)
        ensures
            drift == self@.drift,
    {
        self.drift
    }

    /// Gives the text back.
    pub fn into_text(self) -> (text: Vec<u8>)
        ensures
            text@ == self@.text,
    {
        self.text
    }

    /// Inserts `snippet` into the body of a definition that started at
    /// `byte_offset` in the unmodified text, and returns the offset at which
    /// the snippet now starts.
    ///
    /// The drift of the earlier insertions is added to `byte_offset` before
    /// the brace is looked for. This finds the brace of the definition when
    /// the definitions are handed over in the order of their offsets and
    /// none starts before the insertion point of the one before it.
    pub fn inject(&mut self, byte_offset: u32, snippet: &[u8]) -> (outcome: Result<
        usize,
        InjectError,
    >)
        ensures
            match outcome {
                Ok(at) => target(old(self)@, byte_offset as nat) == Some(at as int),
                Err(e) => e == InjectError::BraceNotFound && target(old(self)@, byte_offset as nat)
                    is None,
            },
            final(self)@ == injected(old(self)@, byte_offset as nat, snippet@),
    {
        proof {
            use_type_invariant(&*self);
        }
        let offset: usize = byte_offset as usize;
        let len: usize = self.text.len();
        if self.drift > usize::MAX - offset {
            assert(left_bracket_from(self.text@, offset + self.drift) is None);
            return Err(InjectError::BraceNotFound);
        }
        let start: usize = offset + self.drift;
        let bracket: usize = match find_left_bracket(self.text.as_slice(), start) {
            Some(b) => b,
            None => {
                return Err(InjectError::BraceNotFound);
            },
        };
        proof {
            lemma_left_bracket_from(self.text@, start as int);
        }
        if len - bracket < 2 {
            return Err(InjectError::BraceNotFound);
        }
        let at: usize = bracket + 2;
        let mut text: Vec<u8> = Vec::new();
        append_bytes(&mut text, slice_subrange(self.text.as_slice(), 0, at));
        append_bytes(&mut text, snippet);
        append_bytes(&mut text, slice_subrange(self.text.as_slice(), at, len));
        assert(text@ == insert_at(self.text@, at as int, snippet@));
        let longer: usize = text.len();
        self.text = text;
        self.drift = self.drift + snippet.len();
        Ok(at)
    }
}

/// The state after the first `n` of `sites` have been handled in order,
/// starting from the unmodified `text`: a left fold of [`injected`], with
/// each definition's snippet rendered from `parts` and its name.
pub open spec fn injected_upto(
    text: Seq<u8>,
    sites: Seq<DefinitionSiteView>,
    parts: Seq<SnippetPartView>,
    n: nat,
) -> InjectorView
    decreases n,
{
    if n == 0 || n > sites.len() {
        InjectorView { text, drift: 0 }
    } else {
        injected(
            injected_upto(text, sites, parts, (n - 1) as nat),
            sites[n - 1].byte_offset,
            rendered(parts, sites[n - 1].name),
        )
    }
}

/// Where the snippet of the site at index `i` goes when its turn comes, if
/// anywhere.
pub open spec fn target_of(
    text: Seq<u8>,
    sites: Seq<DefinitionSiteView>,
    parts: Seq<SnippetPartView>,
    i: int,
) -> Option<int> {
    target(injected_upto(text, sites, parts, i as nat), sites[i].byte_offset)
}

/// The result of handling all definitions of one file.
#[derive(Debug)]
pub struct Injection {
    /// The text with every snippet that found its place.
    pub text: Vec<u8>,
    /// For each definition, in order: the offset at which its snippet was
    /// inserted, or why it was not.
    pub outcomes: Vec<Result<usize, InjectError>>,
}

/// Inserts a snippet into the body of each of `sites`, in order, and
/// returns the new text with the outcome for each site.
///
/// The offsets of the sites are those of the unmodified `text`; each is
/// corrected by the length of the snippets inserted before it. A site for
/// which no brace is found leaves the text as it is and does not stop the
/// others.
pub fn inject_all(text: Vec<u8>, sites: &[DefinitionSite], template: &SnippetTemplate) -> (done:
    Injection)
    ensures
        done.text@ == injected_upto(text@, sites.deep_view(), template@, sites@.len()).text,
        done.outcomes@.len() == sites@.len(),
        forall|i: int|
            0 <= i < sites@.len() ==> match #[trigger] done.outcomes@[i] {
                Ok(at) => target_of(text@, sites.deep_view(), template@, i) == Some(at as int),
                Err(e) => e == InjectError::BraceNotFound && target_of(
                    text@,
                    sites.deep_view(),
                    template@,
                    i,
                ) is None,
            },
{
    let ghost unmodified = text@;
    let mut injector = Injector::new(text);
    let mut outcomes: Vec<Result<usize, InjectError>> = Vec::new();
    let mut i: usize = 0;
    while i < sites.len()
        invariant
            i <= sites@.len(),
            sites.deep_view().len() == sites@.len(),
            injector@ == injected_upto(unmodified, sites.deep_view(), template@, i as nat),
            outcomes@.len() == i,
            forall|k: int|
                0 <= k < i ==> match #[trigger] outcomes@[k] {
                    Ok(at) => target_of(unmodified, sites.deep_view(), template@, k) == Some(
                        at as int,
                    ),
                    Err(e) => e == InjectError::BraceNotFound && target_of(
                        unmodified,
                        sites.deep_view(),
                        template@,
                        k,
                    ) is None,
                },
        decreases sites@.len() - i,
    {
        let site = &sites[i];
        assert(sites.deep_view()[i as int] == site@);
        let snippet = template.render(site.name.as_str());
        let outcome = injector.inject(site.byte_offset, snippet.as_slice());
        outcomes.push(outcome);
        i += 1;
    }
    Injection { text: injector.into_text(), outcomes }
}

} // verus!
