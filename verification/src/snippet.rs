//! The text that is inserted into a function body.

use vstd::prelude::*;
use vstd::string::StringSliceAdditionalSpecFns;
use vstd::string::StrSliceExecFns;
use vstd::utf8::encode_utf8;

verus! {

/// One piece of a snippet template.
#[derive(Clone, Debug, PartialEq, Eq)]
pub enum SnippetPart {
    /// Text that is inserted as it stands.
    Text(String),
    /// The place of the definition's name.
    Name,
}

/// Mathematical value of a [`SnippetPart`].
pub enum SnippetPartView {
    Text(Seq<char>),
    Name,
}

impl View for SnippetPart {
    type V = SnippetPartView;

    open spec fn view(&self) -> SnippetPartView {
        match self {
            SnippetPart::Text(t) => SnippetPartView::Text(t@),
            SnippetPart::Name => SnippetPartView::Name,
        }
    }
}

impl DeepView for SnippetPart {
    type V = SnippetPartView;

    open spec fn deep_view(&self) -> SnippetPartView {
        self@
    }
}

/// A snippet with places for the name of the definition it is inserted
/// into.
#[derive(Clone, Debug, PartialEq, Eq)]
pub struct SnippetTemplate {
    pub parts: Vec<SnippetPart>,
}

impl View for SnippetTemplate {
    type V = Seq<SnippetPartView>;

    open spec fn view(&self) -> Seq<SnippetPartView> {
        self.parts.deep_view()
    }
}

/// The bytes of one part, with `name` in the place of the name.
pub open spec fn rendered_part(part: SnippetPartView, name: Seq<char>) -> Seq<u8> {
    match part {
        SnippetPartView::Text(t) => encode_utf8(t),
        SnippetPartView::Name => encode_utf8(name),
    }
}

/// The bytes of the first `n` parts, one after the other.
pub open spec fn rendered_upto(parts: Seq<SnippetPartView>, n: nat, name: Seq<char>) -> Seq<u8>
    decreases n,
{
    if n == 0 || n > parts.len() {
        Seq::empty()
    } else {
        rendered_upto(parts, (n - 1) as nat, name) + rendered_part(parts[n - 1], name)
    }
}

/// The snippet for a definition called `name`: the UTF-8 bytes of all parts
/// in order, each place for the name filled with `name`.
pub open spec fn rendered(parts: Seq<SnippetPartView>, name: Seq<char>) -> Seq<u8> {
    rendered_upto(parts, parts.len(), name)
}

impl SnippetTemplate {
    /// Renders the snippet for a definition called `name`.
    pub fn render(&self, name: &str) -> (snippet: Vec<u8>)
        ensures
            snippet@ == rendered(self@, name@),
    {
        let mut snippet: Vec<u8> = Vec::new();
        let mut i: usize = 0;
        while i < self.parts.len()
            invariant
                i <= self.parts@.len(),
                self@.len() == self.parts@.len(),
                snippet@ == rendered_upto(self@, i as nat, name@),
            decreases self.parts@.len() - i,
        {
            let mut piece = match &self.parts[i] {
                SnippetPart::Text(t) => t.as_str().as_bytes_vec(),
                SnippetPart::Name => name.as_bytes_vec(),
            };
            assert(piece@ == rendered_part(self@[i as int], name@));
            snippet.append(&mut piece);
            i += 1;
        }
        snippet
    }
}

} // verus!
