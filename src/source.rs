use crate::span::Span;
use std::rc::Rc;
use unicode_segmentation::UnicodeSegmentation;
use vstd::prelude::*;
use vstd::string::*;

verus! {

/// The extended grapheme clusters of a text, in order.
pub uninterp spec fn graphemes_of(text: Seq<char>) -> Seq<Seq<char>>;

/// Relies on `UnicodeSegmentation::graphemes(text, true)`: the extended
/// grapheme clusters of the text, in order. Cluster boundaries partition the
/// text, so every cluster is non-empty and together they spell the text.
#[verifier::external_body]
fn split_graphemes(text: &str) -> (r: Vec<String>)
    ensures
        r@.map_values(|g: String| g@) == graphemes_of(text@),
        forall|i: int| 0 <= i < r@.len() ==> #[trigger] r@[i]@.len() > 0,
        r@.map_values(|g: String| g@).flatten() == text@,
        text@.len() == 0 ==> r@.len() == 0,
{
    text.graphemes(true).map(|g| g.to_string()).collect()
}

/// The text of the clusters in `[a, b)`.
pub open spec fn text_of(g: Seq<Seq<char>>, a: int, b: int) -> Seq<char>
    decreases b - a,
{
    if a < b {
        text_of(g, a, b - 1) + g[b - 1]
    } else {
        Seq::empty()
    }
}

/// The text of a compilation unit, held as its grapheme clusters.
pub struct Source {
    pub graphemes: Vec<String>,
}

impl View for Source {
    type V = Seq<Seq<char>>;

    open spec fn view(&self) -> Seq<Seq<char>> {
        self.graphemes@.map_values(|g: String| g@)
    }
}

impl Source {
    /// Every cluster is non-empty.
    pub open spec fn wf(&self) -> bool {
        forall|i: int| 0 <= i < self@.len() ==> #[trigger] self@[i].len() > 0
    }

    pub fn new(text: &str) -> (r: Source)
        ensures
            r@ == graphemes_of(text@),
            r@.flatten() == text@,
            r.wf(),
            text@.len() == 0 ==> r@.len() == 0,
    {
        Source { graphemes: split_graphemes(text) }
    }

    /// A shared handle on a new source, for scanners and parsers to hold.
    pub fn source(text: &str) -> (r: Rc<Source>)
        ensures
            r@ == graphemes_of(text@),
            r@.flatten() == text@,
            r.wf(),
            text@.len() == 0 ==> r@.len() == 0,
    {
        Rc::new(Source::new(text))
    }

    /// The text a span covers.
    pub fn text(&self, span: Span) -> (r: String)
        requires
            span.start <= span.end <= self@.len(),
        ensures
            r@ == text_of(self@, span.start as int, span.end as int),
    {
        let mut text = String::new();
        let mut i: usize = span.start;
        while i < span.end
            invariant
                span.start <= i <= span.end <= self@.len(),
                text@ == text_of(self@, span.start as int, i as int),
            decreases span.end - i,
        {
            text.append(self.graphemes[i].as_str());
            i = i + 1;
        }
        text
    }

    /// Number of grapheme clusters.
    pub fn len(&self) -> (r: usize)
        ensures
            r == self@.len(),
    {
        self.graphemes.len()
    }
}

} // verus!
