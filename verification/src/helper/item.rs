//! A ready-made item over one line of input.

use vstd::prelude::*;

use crate::SkimItem;

verus! {

/// A plain line item: the text that is shown and matched, the original
/// input where a transformation made the two differ, and optional
/// precomputed matching ranges.  Deriving these from a raw input line
/// (ANSI decoding, field extraction and transformation) is the ingestion
/// collaborator's work; this type only carries the results.
#[derive(Debug)]
pub struct DefaultSkimItem {
    /// `Some` when the original input was transformed, so `text` cannot
    /// stand in for it on output; `None` when `text` is safe to emit.
    orig_text: Option<String>,
    /// The text that is shown on screen and matched.
    text: String,
    /// Spans that matching may be limited to, if any were precomputed.
    matching_ranges: Option<Vec<(usize, usize)>>,
}

impl DefaultSkimItem {
    pub fn new(
        text: String,
        orig_text: Option<String>,
        matching_ranges: Option<Vec<(usize, usize)>>,
    ) -> (r: Self)
        ensures
            r.spec_text() == text@,
            r.spec_output() == match orig_text {
                Some(o) => o@,
                None => text@,
            },
            r.spec_matching_ranges() is Some <==> matching_ranges is Some,
            matching_ranges is Some ==> r.spec_matching_ranges()->0 == matching_ranges->0@,
    {
        DefaultSkimItem { orig_text, text, matching_ranges }
    }
}

fn copy_ranges(v: &Vec<(usize, usize)>) -> (r: Vec<(usize, usize)>)
    ensures
        r@ == v@,
{
    let mut r: Vec<(usize, usize)> = Vec::new();
    let mut i: usize = 0;
    while i < v.len()
        invariant
            i <= v@.len(),
            r@ == v@.subrange(0, i as int),
        decreases v@.len() - i,
    {
        r.push(v[i]);
        proof {
            assert(r@ =~= v@.subrange(0, i as int + 1));
        }
        i = i + 1;
    }
    proof {
        assert(r@ =~= v@);
    }
    r
}

impl SkimItem for DefaultSkimItem {
    closed spec fn spec_text(&self) -> Seq<char> {
        self.text@
    }

    closed spec fn spec_output(&self) -> Seq<char> {
        match self.orig_text {
            Some(o) => o@,
            None => self.text@,
        }
    }

    closed spec fn spec_matching_ranges(&self) -> Option<Seq<(usize, usize)>> {
        match self.matching_ranges {
            Some(v) => Some(v@),
            None => None,
        }
    }

    fn text(&self) -> (t: String) {
        self.text.clone()
    }

    fn output(&self) -> (t: String) {
        match &self.orig_text {
            Some(o) => o.clone(),
            None => self.text.clone(),
        }
    }

    fn get_matching_ranges(&self) -> (r: Option<Vec<(usize, usize)>>) {
        match &self.matching_ranges {
            Some(v) => Some(copy_ranges(v)),
            None => None,
        }
    }
}

} // verus!
