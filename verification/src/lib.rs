//! Matching-and-ranking core of an interactive fuzzy finder.
//!
//! The crate covers four pieces: the rank model (a four-slot lexicographic
//! ordering key built from configurable criteria), the match-engine
//! abstraction with its `And`/`Or` combinators, the growing item pool that
//! buffers ingested items behind a taken watermark, and the matching pass
//! that sweeps a pool snapshot and publishes ranked results.
//!
//! Ingestion of text, terminal rendering and the primitive match algorithms
//! themselves live outside this crate; the core only asks that an item
//! expose its matchable text and that an engine expose `match_item`.

use vstd::prelude::*;
use vstd::string::StringSliceAdditionalSpecFns;

pub mod engine;
pub mod helper;
pub mod item;
pub mod matcher;

verus! {

/// A rank is four signed integers compared lexicographically, slot 0 first.
/// Ascending order means "better"; raw scores are negated on entry so that
/// the highest-scoring item sorts first.
#[derive(Clone, Copy, Debug, PartialEq, Eq, Structural)]
pub struct Rank(pub i32, pub i32, pub i32, pub i32);

impl Rank {
    /// The neutral rank used when ranking is disabled.
    pub fn zero() -> (r: Rank)
        ensures
            r == Rank(0i32, 0i32, 0i32, 0i32),
    {
        Rank(0, 0, 0, 0)
    }

    /// Lexicographic "less than or equal", slot 0 dominant.
    pub open spec fn spec_le(self, other: Rank) -> bool {
        if self.0 != other.0 {
            self.0 < other.0
        } else if self.1 != other.1 {
            self.1 < other.1
        } else if self.2 != other.2 {
            self.2 < other.2
        } else {
            self.3 <= other.3
        }
    }
}

/// The range of an item's text that matched the pattern: either a contiguous
/// byte span of the text, or an explicit set of character indices.  The two
/// forms are interchangeable through [`MatchResult::range_char_indices`],
/// which needs the original text to translate byte offsets into character
/// positions.
#[derive(Clone, Debug, PartialEq, Eq)]
pub enum MatchRange {
    ByteRange(usize, usize),
    Chars(Vec<usize>),
}

/// Mathematical shape of a [`MatchRange`].
pub enum MatchRangeView {
    ByteRange(usize, usize),
    Chars(Seq<usize>),
}

impl View for MatchRange {
    type V = MatchRangeView;

    open spec fn view(&self) -> MatchRangeView {
        match self {
            MatchRange::ByteRange(b, e) => MatchRangeView::ByteRange(*b, *e),
            MatchRange::Chars(v) => MatchRangeView::Chars(v@),
        }
    }
}

/// Number of UTF-8 character starts among the first `n` bytes of `bytes`
/// (`n` is clamped to the byte length).  On a character boundary this is the
/// character index of the position `n`.
pub open spec fn char_count_prefix(bytes: Seq<u8>, n: int) -> int
    decreases n,
{
    if n <= 0 {
        0
    } else if n > bytes.len() {
        char_count_prefix(bytes, bytes.len() as int)
    } else if vstd::utf8::is_continuation_byte(bytes[n - 1]) {
        char_count_prefix(bytes, n - 1)
    } else {
        char_count_prefix(bytes, n - 1) + 1
    }
}

/// A byte prefix never holds more character starts than bytes, nor more
/// than the whole sequence holds.
pub proof fn lemma_char_count_prefix_bounds(bytes: Seq<u8>, n: int)
    requires
        0 <= n,
    ensures
        0 <= char_count_prefix(bytes, n) <= n,
        char_count_prefix(bytes, n) <= bytes.len(),
    decreases n,
{
    if n > bytes.len() {
        lemma_char_count_prefix_bounds(bytes, bytes.len() as int);
    } else if n > 0 {
        lemma_char_count_prefix_bounds(bytes, n - 1);
    }
}

/// Character counts grow with the prefix, by at most one per byte.
pub proof fn lemma_char_count_prefix_monotone(bytes: Seq<u8>, m: int, n: int)
    requires
        0 <= m <= n,
    ensures
        char_count_prefix(bytes, m) <= char_count_prefix(bytes, n),
        char_count_prefix(bytes, n) - char_count_prefix(bytes, m) <= n - m,
    decreases n - m,
{
    if m == n {
    } else if n > bytes.len() {
        if m >= bytes.len() {
            lemma_char_count_prefix_bounds(bytes, m);
            assert(char_count_prefix(bytes, m) == char_count_prefix(bytes, bytes.len() as int));
        } else {
            lemma_char_count_prefix_monotone(bytes, m, bytes.len() as int);
        }
    } else {
        lemma_char_count_prefix_monotone(bytes, m, n - 1);
    }
}

/// The character indices named by `range` within a text whose UTF-8 bytes
/// are `bytes`: a byte span becomes the consecutive character positions it
/// covers, an explicit character set is taken as given.
pub open spec fn spec_range_char_indices(range: MatchRangeView, bytes: Seq<u8>) -> Seq<usize> {
    match range {
        MatchRangeView::ByteRange(b, e) => {
            let first = char_count_prefix(bytes, b as int);
            let last = first + if e >= b {
                char_count_prefix(bytes, e as int) - char_count_prefix(bytes, b as int)
            } else {
                0
            };
            Seq::new((last - first) as nat, |i: int| (first + i) as usize)
        },
        MatchRangeView::Chars(v) => v,
    }
}

/// One successful evaluation of an engine against one item's text.
#[derive(Clone, Debug, PartialEq, Eq)]
pub struct MatchResult {
    pub rank: Rank,
    pub matched_range: MatchRange,
}

/// Mathematical shape of a [`MatchResult`].
pub struct MatchResultView {
    pub rank: Rank,
    pub matched_range: MatchRangeView,
}

impl View for MatchResult {
    type V = MatchResultView;

    open spec fn view(&self) -> MatchResultView {
        MatchResultView { rank: self.rank, matched_range: self.matched_range@ }
    }
}

impl MatchResult {
    /// Translates the matched range into explicit character indices of
    /// `text`.  A byte span is converted by counting character starts in the
    /// UTF-8 encoding; out-of-bounds or reversed spans are clamped.
    pub fn range_char_indices(&self, text: &str) -> (r: Vec<usize>)
        ensures
            r@ == spec_range_char_indices(self.matched_range@, text.spec_bytes()),
    {
        match &self.matched_range {
            MatchRange::Chars(v) => v.clone(),
            MatchRange::ByteRange(b, e) => byte_span_char_indices(text, *b, *e),
        }
    }
}

/// Counts the characters of `text` that start before byte `n` (clamped).
fn count_chars_to(bytes: &[u8], n: usize) -> (c: usize)
    ensures
        c == char_count_prefix(bytes@, n as int),
{
    let stop: usize = if n > bytes.len() { bytes.len() } else { n };
    proof {
        if n > bytes.len() {
            assert(char_count_prefix(bytes@, n as int) == char_count_prefix(
                bytes@,
                bytes@.len() as int,
            ));
        }
    }
    let mut i: usize = 0;
    let mut c: usize = 0;
    while i < stop
        invariant
            i <= stop <= bytes.len(),
            c == char_count_prefix(bytes@, i as int),
        decreases stop - i,
    {
        proof {
            lemma_char_count_prefix_monotone(bytes@, 0, i as int);
        }
        let b = bytes[i];
        if !(128 <= b && b < 192) {
            c = c + 1;
        }
        i = i + 1;
    }
    c
}

/// The executable form of [`spec_range_char_indices`] for a byte span.
fn byte_span_char_indices(text: &str, b: usize, e: usize) -> (r: Vec<usize>)
    ensures
        r@ == spec_range_char_indices(MatchRangeView::ByteRange(b, e), text.spec_bytes()),
{
    let bytes = text.as_bytes();
    let first = count_chars_to(bytes, b);
    let last = if e >= b {
        count_chars_to(bytes, e)
    } else {
        first
    };
    proof {
        if e >= b {
            lemma_char_count_prefix_monotone(bytes@, b as int, e as int);
        }
        lemma_char_count_prefix_monotone(bytes@, 0, b as int);
    }
    let mut r: Vec<usize> = Vec::new();
    let mut i: usize = first;
    while i < last
        invariant
            first <= i <= last || (last < first && i == first),
            r@ == Seq::new((i - first) as nat, |k: int| (first + k) as usize),
        decreases last - i,
    {
        r.push(i);
        proof {
            assert(r@ =~= Seq::new((i + 1 - first) as nat, |k: int| (first + k) as usize));
        }
        i = i + 1;
    }
    proof {
        assert(r@ =~= spec_range_char_indices(
            MatchRangeView::ByteRange(b, e),
            text.spec_bytes(),
        ));
    }
    r
}

/// One immutable unit of searchable text.  `text` is the canonical matchable
/// form; `output` is what is emitted when the item is selected and may
/// differ from it; `matching_ranges` optionally restricts matching to
/// precomputed spans.  How these were derived (plain line, ANSI-decoded,
/// field-transformed) is the ingestion collaborator's concern.
pub trait SkimItem: Sized {
    /// The characters of the canonical matchable text.
    spec fn spec_text(&self) -> Seq<char>;

    /// The characters emitted on selection.
    spec fn spec_output(&self) -> Seq<char>;

    /// Precomputed spans that matching may be limited to, if any.
    spec fn spec_matching_ranges(&self) -> Option<Seq<(usize, usize)>>;

    fn text(&self) -> (t: String)
        ensures
            t@ == self.spec_text(),
    ;

    fn output(&self) -> (t: String)
        ensures
            t@ == self.spec_output(),
    ;

    fn get_matching_ranges(&self) -> (r: Option<Vec<(usize, usize)>>)
        ensures
            r is Some <==> self.spec_matching_ranges() is Some,
            r is Some ==> r->Some_0@ == self.spec_matching_ranges()->Some_0,
    ;
}

/// A matching strategy evaluated against one item, yielding an optional
/// rank and matched range.  Absence of a result means "no match", never an
/// error.  Primitive engines (exact, fuzzy, regex, ...) come from outside
/// the core; the `And`/`Or` combinators in [`crate::engine::andor`] compose
/// them and implement this same capability, enabling arbitrary nesting.
pub trait MatchEngine<T: SkimItem>: Sized {
    /// What this engine returns on `item`, as a mathematical value.
    spec fn spec_match(&self, item: T) -> Option<MatchResultView>;

    fn match_item(&self, item: &T) -> (r: Option<MatchResult>)
        ensures
            r is Some <==> self.spec_match(*item) is Some,
            r is Some ==> r->0@ == self.spec_match(*item)->0,
    ;

    /// The characters of the engine's diagnostic description.
    spec fn spec_description(&self) -> Seq<char>;

    /// A human-readable description of the engine, for diagnostics.  A
    /// combinator enumerates its sub-engines, e.g. `"(And: e1, e2)"`.
    fn description(&self) -> (r: String)
        ensures
            r@ == self.spec_description(),
    ;
}

/// Builds a concrete engine from a query string and a case-sensitivity
/// policy.  The core treats whatever this returns and the `And`/`Or`
/// combinators interchangeably.
pub trait MatchEngineFactory<T: SkimItem, E: MatchEngine<T>>: Sized {
    fn create_engine_with_case(&self, query: &str, case: CaseMatching) -> E;
}

/// Case sensitivity policy handed to the engine factory.
#[derive(Clone, Copy, Debug, PartialEq, Eq, Structural)]
pub enum CaseMatching {
    Respect,
    Ignore,
    Smart,
}

impl Default for CaseMatching {
    fn default() -> (r: Self)
        ensures
            r == CaseMatching::Smart,
    {
        CaseMatching::Smart
    }
}

} // verus!
