//! The rank model and the item pool.
//!
//! A [`RankBuilder`] holds an ordered, normalized list of rank criteria and
//! turns the four raw match signals (score, begin, end, length) into a
//! [`Rank`].  An [`ItemPool`] buffers ingested items behind a taken
//! watermark so that each matching pass consumes exactly the items that
//! arrived since the previous pass, while a pinned header prefix stays
//! available independently of the watermark.

use vstd::prelude::*;
use vstd::string::StrSliceExecFns;

use crate::Rank;

use std::sync::Arc;

verus! {

/// One ordering criterion for a rank slot.  The `Neg` variants flip the
/// sign of their signal, turning an ascending comparison into a descending
/// one for that slot.
#[derive(Debug, Clone, Copy, PartialEq, Eq, Structural)]
pub enum RankCriteria {
    Score,
    Begin,
    End,
    NegScore,
    NegBegin,
    NegEnd,
    Length,
    NegLength,
}

/// Whether `c` is one of the two score-based criteria.
pub open spec fn is_score_kind(c: RankCriteria) -> bool {
    c == RankCriteria::Score || c == RankCriteria::NegScore
}

/// Whether some element of `s` is score-based.
pub open spec fn has_score_kind(s: Seq<RankCriteria>) -> bool {
    exists|i: int| 0 <= i < s.len() && is_score_kind(s[i])
}

/// Whether `s[i]` survives normalization: it must be the first occurrence
/// of its value, and a score-based criterion must be the first score-based
/// one.
pub open spec fn keeps_criteria(s: Seq<RankCriteria>, i: int) -> bool {
    &&& (forall|j: int| 0 <= j < i ==> s[j] != s[i])
    &&& !(is_score_kind(s[i]) && exists|j: int| 0 <= j < i && is_score_kind(s[j]))
}

/// The surviving elements of the first `n` elements of `s`, in order.
pub open spec fn norm_prefix(s: Seq<RankCriteria>, n: int) -> Seq<RankCriteria>
    decreases n,
{
    if n <= 0 {
        Seq::empty()
    } else if keeps_criteria(s, n - 1) {
        norm_prefix(s, n - 1).push(s[n - 1])
    } else {
        norm_prefix(s, n - 1)
    }
}

/// Normalizes a criteria list: a `Score` is prepended when no score-based
/// criterion is present, duplicates are dropped, and only the first
/// score-based criterion is kept.
pub open spec fn normalize_criteria(s: Seq<RankCriteria>) -> Seq<RankCriteria> {
    let pre = if has_score_kind(s) {
        s
    } else {
        seq![RankCriteria::Score] + s
    };
    norm_prefix(pre, pre.len() as int)
}

proof fn lemma_first_occurrence(s: Seq<RankCriteria>, c: RankCriteria, i: int)
    requires
        0 <= i,
        exists|j: int| 0 <= j < i && s[j] == c,
    ensures
        exists|j: int|
            0 <= j < i && s[j] == c && (forall|j2: int| 0 <= j2 < j ==> s[j2] != c),
    decreases i,
{
    let j = choose|j: int| 0 <= j < i && s[j] == c;
    if exists|j2: int| 0 <= j2 < j && s[j2] == c {
        lemma_first_occurrence(s, c, j);
        let j3 = choose|j3: int|
            0 <= j3 < j && s[j3] == c && (forall|j2: int| 0 <= j2 < j3 ==> s[j2] != c);
        assert(0 <= j3 < i && s[j3] == c && (forall|j2: int| 0 <= j2 < j3 ==> s[j2] != c));
    } else {
        assert(0 <= j < i && s[j] == c && (forall|j2: int| 0 <= j2 < j ==> s[j2] != c));
    }
}

proof fn lemma_norm_prefix(s: Seq<RankCriteria>, n: int)
    requires
        0 <= n <= s.len(),
    ensures
        norm_prefix(s, n).len() <= n,
        forall|i: int, j: int|
            0 <= i < j < norm_prefix(s, n).len() ==> norm_prefix(s, n)[i] != norm_prefix(s, n)[j],
        forall|i: int|
            0 <= i < norm_prefix(s, n).len() ==> exists|j: int|
                0 <= j < n && s[j] == #[trigger] norm_prefix(s, n)[i],
        (exists|i: int| 0 <= i < norm_prefix(s, n).len() && is_score_kind(norm_prefix(s, n)[i]))
            <==> (exists|j: int| 0 <= j < n && is_score_kind(s[j])),
        forall|i: int, j: int|
            0 <= i < norm_prefix(s, n).len() && 0 <= j < norm_prefix(s, n).len() && is_score_kind(
                norm_prefix(s, n)[i],
            ) && is_score_kind(norm_prefix(s, n)[j]) ==> i == j,
        forall|j: int|
            0 <= j < n && keeps_criteria(s, j) ==> #[trigger] norm_prefix(s, n).contains(s[j]),
    decreases n,
{
    if n > 0 {
        lemma_norm_prefix(s, n - 1);
        let r0 = norm_prefix(s, n - 1);
        if keeps_criteria(s, n - 1) {
            let r = r0.push(s[n - 1]);
            assert(norm_prefix(s, n) == r);
            assert(r[r.len() - 1] == s[n - 1]);
            assert forall|i: int| 0 <= i < r0.len() implies r[i] == r0[i] by {}
            if is_score_kind(s[n - 1]) {
                assert(norm_prefix(s, n)[norm_prefix(s, n).len() - 1] == s[n - 1]);
            }
            assert forall|i: int, j: int| 0 <= i < j < r.len() implies r[i] != r[j] by {
                if j < r.len() - 1 {
                    assert(r[i] == r0[i] && r[j] == r0[j]);
                } else {
                    assert(r[i] == r0[i]);
                    let k = choose|k: int| 0 <= k < n - 1 && s[k] == r0[i];
                    assert(s[k] != s[n - 1]);
                }
            }
            if is_score_kind(s[n - 1]) {
                assert(!(exists|j: int| 0 <= j < n - 1 && is_score_kind(s[j])));
            }
            assert forall|i: int, j: int|
                0 <= i < r.len() && 0 <= j < r.len() && is_score_kind(r[i]) && is_score_kind(
                    r[j],
                ) implies i == j by {
                if i < r.len() - 1 && j < r.len() - 1 {
                    assert(r[i] == r0[i] && r[j] == r0[j]);
                } else if i < r.len() - 1 {
                    assert(r[i] == r0[i]);
                } else if j < r.len() - 1 {
                    assert(r[j] == r0[j]);
                }
            }
            assert forall|j: int| 0 <= j < n && keeps_criteria(s, j) implies #[trigger] norm_prefix(
                s,
                n,
            ).contains(s[j]) by {
                if j < n - 1 {
                    assert(r0.contains(s[j]));
                    let k = choose|k: int| 0 <= k < r0.len() && r0[k] == s[j];
                    assert(r[k] == s[j]);
                } else {
                    assert(r[r.len() - 1] == s[j]);
                }
            }
        } else {
            assert(norm_prefix(s, n) == r0);
            if is_score_kind(s[n - 1]) {
                if forall|j: int| 0 <= j < n - 1 ==> #[trigger] s[j] != s[n - 1] {
                    assert(exists|j: int| 0 <= j < n - 1 && is_score_kind(s[j]));
                } else {
                    let j = choose|j: int| 0 <= j < n - 1 && (#[trigger] s[j]) == s[n - 1];
                    assert(is_score_kind(s[j]));
                }
            }
            assert forall|j: int| 0 <= j < n && keeps_criteria(s, j) implies #[trigger] norm_prefix(
                s,
                n,
            ).contains(s[j]) by {
                assert(j < n - 1);
                assert(norm_prefix(s, n - 1).contains(s[j]));
            }
        }
    }
}

/// Normalization always leaves exactly one score-based criterion, removes
/// duplicates, and grows the list by at most the one prepended `Score`.
pub proof fn lemma_criteria_normalized(s: Seq<RankCriteria>)
    ensures
        normalize_criteria(s).len() <= s.len() + 1,
        forall|i: int, j: int|
            0 <= i < j < normalize_criteria(s).len() ==> normalize_criteria(s)[i]
                != normalize_criteria(s)[j],
        exists|i: int|
            0 <= i < normalize_criteria(s).len() && is_score_kind(normalize_criteria(s)[i]),
        forall|i: int, j: int|
            0 <= i < normalize_criteria(s).len() && 0 <= j < normalize_criteria(s).len()
                && is_score_kind(normalize_criteria(s)[i]) && is_score_kind(
                normalize_criteria(s)[j],
            ) ==> i == j,
{
    let pre = if has_score_kind(s) {
        s
    } else {
        seq![RankCriteria::Score] + s
    };
    lemma_norm_prefix(pre, pre.len() as int);
    if !has_score_kind(s) {
        assert(pre[0] == RankCriteria::Score);
        assert(is_score_kind(pre[0]));
    }
}

/// The signed value a criterion contributes to its rank slot.
pub open spec fn criterion_value_spec(c: RankCriteria, score: int, begin: int, end: int, length: int) -> int {
    match c {
        RankCriteria::Score => -score,
        RankCriteria::Begin => begin,
        RankCriteria::End => end,
        RankCriteria::NegScore => score,
        RankCriteria::NegBegin => -begin,
        RankCriteria::NegEnd => -end,
        RankCriteria::Length => length,
        RankCriteria::NegLength => -length,
    }
}

/// The value of rank slot `i` under criteria `cs`: the configured
/// criterion's signal, or `0` for unused trailing slots.
pub open spec fn rank_slot(cs: Seq<RankCriteria>, i: int, score: int, begin: int, end: int, length: int) -> int {
    if i < cs.len() {
        criterion_value_spec(cs[i], score, begin, end, length)
    } else {
        0
    }
}

/// Builds an ordered, normalized list of rank criteria and maps raw match
/// signals into [`Rank`] vectors.
#[derive(Debug)]
pub struct RankBuilder {
    criterion: Vec<RankCriteria>,
}

impl Default for RankBuilder {
    /// The stock ordering: best score first, then earliest match start,
    /// then earliest match end.
    fn default() -> (r: Self)
        ensures
            r.spec_criterion() == seq![RankCriteria::Score, RankCriteria::Begin, RankCriteria::End],
    {
        let criterion = vec![RankCriteria::Score, RankCriteria::Begin, RankCriteria::End];
        proof {
            assert(criterion@ =~= seq![RankCriteria::Score, RankCriteria::Begin, RankCriteria::End]);
        }
        RankBuilder { criterion }
    }
}

impl RankBuilder {
    /// The normalized criteria, slot 0 first.
    pub closed spec fn spec_criterion(&self) -> Seq<RankCriteria> {
        self.criterion@
    }

    pub fn new(criterion: Vec<RankCriteria>) -> (r: Self)
        ensures
            r.spec_criterion() == normalize_criteria(criterion@),
    {
        let ghost input = criterion@;
        let mut source = criterion;
        let mut found_score = false;
        let mut i: usize = 0;
        while i < source.len()
            invariant
                i <= source@.len(),
                source@ == input,
                found_score <==> exists|j: int| 0 <= j < i && is_score_kind(source@[j]),
            decreases source@.len() - i,
        {
            let c = source[i];
            if matches!(c, RankCriteria::Score) || matches!(c, RankCriteria::NegScore) {
                found_score = true;
            }
            i = i + 1;
        }
        if !found_score {
            source.insert(0, RankCriteria::Score);
            proof {
                assert(source@ =~= seq![RankCriteria::Score] + input);
            }
        }
        let ghost pre = source@;
        proof {
            assert(pre == if has_score_kind(input) {
                input
            } else {
                seq![RankCriteria::Score] + input
            });
        }
        let mut out: Vec<RankCriteria> = Vec::new();
        let mut seen_score = false;
        let mut i: usize = 0;
        while i < source.len()
            invariant
                i <= pre.len(),
                source@ == pre,
                out@ == norm_prefix(pre, i as int),
                seen_score <==> exists|j: int| 0 <= j < i && is_score_kind(pre[j]),
            decreases pre.len() - i,
        {
            let c = source[i];
            let score_kind = matches!(c, RankCriteria::Score) || matches!(c, RankCriteria::NegScore);
            let mut dup = false;
            let mut k: usize = 0;
            while k < out.len()
                invariant
                    k <= out@.len(),
                    dup <==> exists|j: int| 0 <= j < k && out@[j] == c,
                decreases out@.len() - k,
            {
                if out[k] == c {
                    dup = true;
                }
                k = k + 1;
            }
            proof {
                lemma_norm_prefix(pre, i as int);
                if score_kind && seen_score {
                    assert(!keeps_criteria(pre, i as int));
                } else if dup {
                    let j = choose|j: int| 0 <= j < out@.len() && out@[j] == c;
                    let j2 = choose|j2: int| 0 <= j2 < i && pre[j2] == out@[j];
                    assert(!keeps_criteria(pre, i as int));
                } else {
                    assert(keeps_criteria(pre, i as int)) by {
                        if exists|j: int| 0 <= j < i && pre[j] == pre[i as int] {
                            let ghost j0 = choose|j: int|
                                0 <= j < i && pre[j] == pre[i as int] && forall|j2: int|
                                    0 <= j2 < j ==> pre[j2] != pre[i as int];
                            assert(exists|j: int|
                                0 <= j < i && pre[j] == pre[i as int] && forall|j2: int|
                                    0 <= j2 < j ==> pre[j2] != pre[i as int]) by {
                                lemma_first_occurrence(pre, pre[i as int], i as int);
                            }
                            if score_kind {
                                assert(is_score_kind(pre[j0]));
                            } else {
                                assert(keeps_criteria(pre, j0));
                                assert(norm_prefix(pre, i as int).contains(pre[j0]));
                                let k2 = choose|k2: int|
                                    0 <= k2 < out@.len() && out@[k2] == pre[j0];
                            }
                        }
                    }
                }
            }
            if score_kind && seen_score {
            } else if dup {
            } else {
                out.push(c);
            }
            if score_kind {
                seen_score = true;
            }
            i = i + 1;
        }
        RankBuilder { criterion: out }
    }

    /// Maps the four raw signals into the four rank slots, in criteria
    /// order, flipping signs as the criteria ask; at most the first four
    /// criteria are used and unused slots stay `0`, inert in comparisons.
    /// The raw score is negated so that ascending order puts the best
    /// score first.
    pub fn build_rank(&self, score: i32, begin: usize, end: usize, length: usize) -> (r: Rank)
        requires
            score > i32::MIN,
            begin <= i32::MAX,
            end <= i32::MAX,
            length <= i32::MAX,
        ensures
            r == Rank(
                rank_slot(self.spec_criterion(), 0, score as int, begin as int, end as int, length as int) as i32,
                rank_slot(self.spec_criterion(), 1, score as int, begin as int, end as int, length as int) as i32,
                rank_slot(self.spec_criterion(), 2, score as int, begin as int, end as int, length as int) as i32,
                rank_slot(self.spec_criterion(), 3, score as int, begin as int, end as int, length as int) as i32,
            ),
    {
        let begin = begin as i32;
        let end = end as i32;
        let length = length as i32;
        let v0 = self.slot_value(0, score, begin, end, length);
        let v1 = self.slot_value(1, score, begin, end, length);
        let v2 = self.slot_value(2, score, begin, end, length);
        let v3 = self.slot_value(3, score, begin, end, length);
        Rank(v0, v1, v2, v3)
    }

    fn slot_value(&self, i: usize, score: i32, begin: i32, end: i32, length: i32) -> (v: i32)
        requires
            score > i32::MIN,
            begin >= 0,
            end >= 0,
            length >= 0,
        ensures
            v == rank_slot(self.spec_criterion(), i as int, score as int, begin as int, end as int, length as int),
    {
        if i < self.criterion.len() {
            match self.criterion[i] {
                RankCriteria::Score => -score,
                RankCriteria::Begin => begin,
                RankCriteria::End => end,
                RankCriteria::NegScore => score,
                RankCriteria::NegBegin => -begin,
                RankCriteria::NegEnd => -end,
                RankCriteria::Length => length,
                RankCriteria::NegLength => -length,
            }
        } else {
            0
        }
    }
}

/// ASCII-case-insensitive character match against a lowercase pattern
/// character: equal outright, or an ASCII upper-case letter folding onto
/// it.
pub open spec fn ascii_ci_eq(c: char, l: char) -> bool {
    c as u32 == l as u32 || (65 <= c as u32 <= 90 && c as u32 + 32 == l as u32)
}

/// ASCII-case-insensitive equality of `t` against the lowercase pattern
/// `pat`.
pub open spec fn matches_ci(t: Seq<char>, pat: Seq<char>) -> bool {
    t.len() == pat.len() && forall|i: int| 0 <= i < t.len() ==> ascii_ci_eq(t[i], pat[i])
}

/// Which criterion a textual name denotes, ignoring ASCII case.
pub open spec fn spec_parse_criteria(t: Seq<char>) -> Option<RankCriteria> {
    if matches_ci(t, "score"@) {
        Some(RankCriteria::Score)
    } else if matches_ci(t, "begin"@) {
        Some(RankCriteria::Begin)
    } else if matches_ci(t, "end"@) {
        Some(RankCriteria::End)
    } else if matches_ci(t, "-score"@) {
        Some(RankCriteria::NegScore)
    } else if matches_ci(t, "-begin"@) {
        Some(RankCriteria::NegBegin)
    } else if matches_ci(t, "-end"@) {
        Some(RankCriteria::NegEnd)
    } else if matches_ci(t, "length"@) {
        Some(RankCriteria::Length)
    } else if matches_ci(t, "-length"@) {
        Some(RankCriteria::NegLength)
    } else {
        None
    }
}

fn chars_ci_eq(c: char, l: char) -> (r: bool)
    ensures
        r == ascii_ci_eq(c, l),
{
    let cu = c as u32;
    let lu = l as u32;
    cu == lu || (65 <= cu && cu <= 90 && cu + 32 == lu)
}

fn str_matches_ci(t: &str, pat: &str) -> (r: bool)
    ensures
        r == matches_ci(t@, pat@),
{
    let n = t.unicode_len();
    let m = pat.unicode_len();
    if n != m {
        return false;
    }
    let mut i: usize = 0;
    while i < n
        invariant
            i <= n,
            n == t@.len(),
            n == pat@.len(),
            forall|j: int| 0 <= j < i ==> ascii_ci_eq(t@[j], pat@[j]),
        decreases n - i,
    {
        if !chars_ci_eq(t.get_char(i), pat.get_char(i)) {
            return false;
        }
        i = i + 1;
    }
    true
}

/// Parses a criterion name such as `"score"` or `"-length"`, ignoring
/// ASCII case; unknown names yield `None`.
pub fn parse_criteria(text: &str) -> (r: Option<RankCriteria>)
    ensures
        r == spec_parse_criteria(text@),
{
    if str_matches_ci(text, "score") {
        Some(RankCriteria::Score)
    } else if str_matches_ci(text, "begin") {
        Some(RankCriteria::Begin)
    } else if str_matches_ci(text, "end") {
        Some(RankCriteria::End)
    } else if str_matches_ci(text, "-score") {
        Some(RankCriteria::NegScore)
    } else if str_matches_ci(text, "-begin") {
        Some(RankCriteria::NegBegin)
    } else if str_matches_ci(text, "-end") {
        Some(RankCriteria::NegEnd)
    } else if str_matches_ci(text, "length") {
        Some(RankCriteria::Length)
    } else if str_matches_ci(text, "-length") {
        Some(RankCriteria::NegLength)
    } else {
        None
    }
}

/// One match produced by a pass: the shared item, its rank, the matched
/// range if ranking was active, and the item's pool-relative position at
/// the time it was drawn, which recovers original stream order regardless
/// of evaluation order.
#[derive(Clone, Debug)]
pub struct MatchedItem<T> {
    pub item: Arc<T>,
    pub rank: Rank,
    pub matched_range: Option<crate::MatchRange>,
    pub item_idx: u32,
}

/// Mathematical shape of a [`MatchedItem`].
#[verifier::ext_equal]
pub struct MatchedItemView<T> {
    pub item: Arc<T>,
    pub rank: Rank,
    pub matched_range: Option<crate::MatchRangeView>,
    pub item_idx: u32,
}

impl<T> View for MatchedItem<T> {
    type V = MatchedItemView<T>;

    open spec fn view(&self) -> MatchedItemView<T> {
        MatchedItemView {
            item: self.item,
            rank: self.rank,
            matched_range: match self.matched_range {
                None => None,
                Some(r) => Some(r@),
            },
            item_idx: self.item_idx,
        }
    }
}

/// Matched items compare by rank alone, lexicographically, slot 0 first.
impl<T> PartialEq for MatchedItem<T> {
    fn eq(&self, other: &Self) -> (r: bool) {
        self.rank == other.rank
    }
}

impl<T> vstd::std_specs::cmp::PartialEqSpecImpl for MatchedItem<T> {
    open spec fn obeys_eq_spec() -> bool {
        true
    }

    open spec fn eq_spec(&self, other: &Self) -> bool {
        self.rank == other.rank
    }
}

impl<T> Eq for MatchedItem<T> {

}

/// Three-way lexicographic comparison of ranks.
pub open spec fn rank_cmp(a: Rank, b: Rank) -> core::cmp::Ordering {
    if a == b {
        core::cmp::Ordering::Equal
    } else if a.spec_le(b) {
        core::cmp::Ordering::Less
    } else {
        core::cmp::Ordering::Greater
    }
}

impl<T> PartialOrd for MatchedItem<T> {
    fn partial_cmp(&self, other: &Self) -> (r: Option<core::cmp::Ordering>) {
        if self.rank.0 != other.rank.0 {
            if self.rank.0 < other.rank.0 {
                Some(core::cmp::Ordering::Less)
            } else {
                Some(core::cmp::Ordering::Greater)
            }
        } else if self.rank.1 != other.rank.1 {
            if self.rank.1 < other.rank.1 {
                Some(core::cmp::Ordering::Less)
            } else {
                Some(core::cmp::Ordering::Greater)
            }
        } else if self.rank.2 != other.rank.2 {
            if self.rank.2 < other.rank.2 {
                Some(core::cmp::Ordering::Less)
            } else {
                Some(core::cmp::Ordering::Greater)
            }
        } else if self.rank.3 != other.rank.3 {
            if self.rank.3 < other.rank.3 {
                Some(core::cmp::Ordering::Less)
            } else {
                Some(core::cmp::Ordering::Greater)
            }
        } else {
            Some(core::cmp::Ordering::Equal)
        }
    }
}

impl<T> vstd::std_specs::cmp::PartialOrdSpecImpl for MatchedItem<T> {
    open spec fn obeys_partial_cmp_spec() -> bool {
        true
    }

    open spec fn partial_cmp_spec(&self, other: &Self) -> Option<core::cmp::Ordering> {
        Some(rank_cmp(self.rank, other.rank))
    }
}

/// Relies on std's `Arc::clone`: the returned handle shares, and so equals,
/// the pointed-to value.
#[verifier::external_body]
pub(crate) fn arc_clone<T>(v: &Arc<T>) -> (res: Arc<T>)
    ensures
        res == *v,
{
    Arc::clone(v)
}

/// Relies on std's `Arc`: a shared handle dereferences to the value it
/// shares.
#[verifier::external_body]
pub(crate) fn arc_ref<T>(v: &Arc<T>) -> (r: &T)
    ensures
        *r == **v,
{
    v.as_ref()
}

/// The growing, append-only store of shared items that matching passes
/// draw from.  The `taken` watermark separates items already handed to a
/// pass from newly appended ones; the reserved header prefix is pinned and
/// handed out independently of the watermark.  Exclusive access (`&mut`)
/// is the pool's locking discipline: whoever shares the pool across
/// threads wraps it in a short-critical-section mutual-exclusion
/// primitive of its choice, held only around these methods.
pub struct ItemPool<T> {
    length: usize,
    pool: Vec<Arc<T>>,
    taken: usize,
    reserved_items: Vec<Arc<T>>,
    lines_to_reserve: usize,
}

/// A read-only snapshot handed out by [`ItemPool::take`] or
/// [`ItemPool::reserved`]: the items, and the watermark the slice started
/// at.
pub struct ItemPoolGuard<T> {
    pub items: Vec<T>,
    pub start: usize,
}

impl<T> ItemPool<T> {
    /// The matchable items in arrival order, reserved header items
    /// excluded.
    pub closed spec fn spec_items(&self) -> Seq<Arc<T>> {
        self.pool@
    }

    /// The pinned header prefix, in arrival order.
    pub closed spec fn spec_reserved(&self) -> Seq<Arc<T>> {
        self.reserved_items@
    }

    /// The taken watermark: items before it were already consumed by a
    /// pass.
    pub closed spec fn spec_taken(&self) -> int {
        self.taken as int
    }

    /// How many leading appended items are pinned as header.
    pub closed spec fn spec_lines_to_reserve(&self) -> int {
        self.lines_to_reserve as int
    }

    /// Total number of stored items, header included.
    pub closed spec fn spec_len(&self) -> int {
        self.length as int
    }

    /// The pool's invariant: the watermark never passes the end, and the
    /// published length counts every stored item.
    pub open spec fn wf(&self) -> bool {
        &&& 0 <= self.spec_taken() <= self.spec_items().len()
        &&& self.spec_len() == self.spec_items().len() + self.spec_reserved().len()
    }

    /// What the next pass will consume: the items past the watermark.
    pub open spec fn spec_snapshot(&self) -> Seq<Arc<T>> {
        self.spec_items().skip(self.spec_taken())
    }

    pub fn new() -> (p: Self)
        ensures
            p.wf(),
            p.spec_items() == Seq::<Arc<T>>::empty(),
            p.spec_reserved() == Seq::<Arc<T>>::empty(),
            p.spec_taken() == 0,
            p.spec_lines_to_reserve() == 0,
            p.spec_len() == 0,
    {
        ItemPool {
            length: 0,
            pool: Vec::new(),
            taken: 0,
            reserved_items: Vec::new(),
            lines_to_reserve: 0,
        }
    }

    /// Builder step: pin the first `lines_to_reserve` appended items as
    /// header.
    pub fn lines_to_reserve(self, lines_to_reserve: usize) -> (p: Self)
        ensures
            p.spec_items() == self.spec_items(),
            p.spec_reserved() == self.spec_reserved(),
            p.spec_taken() == self.spec_taken(),
            p.spec_len() == self.spec_len(),
            p.spec_lines_to_reserve() == lines_to_reserve,
            self.wf() ==> p.wf(),
    {
        ItemPool { lines_to_reserve, ..self }
    }

    /// Total number of stored items, header included: a cheap read fit
    /// for progress display.
    pub fn len(&self) -> (n: usize)
        ensures
            n == self.spec_len(),
    {
        self.length
    }

    /// The watermark: how many of the matchable items (`spec_items`, the
    /// header excluded) have been handed to a pass.  It indexes the
    /// matchable sequence, so after a full `take` it equals
    /// `spec_items().len()`, not `len()`, whenever a header exists.
    pub fn num_taken(&self) -> (n: usize)
        ensures
            n == self.spec_taken(),
    {
        self.taken
    }

    /// How many matchable items the next `take` would deliver: the
    /// remainder of the matchable sequence past the watermark.  Zero right
    /// after a full `take`, header or no header, so a progress display
    /// reaches "done".
    pub fn num_not_taken(&self) -> (n: usize)
        requires
            self.wf(),
        ensures
            n == self.spec_items().len() - self.spec_taken(),
            n == self.spec_snapshot().len(),
    {
        self.pool.len() - self.taken
    }

    /// Drops every stored item, header included, and rewinds both
    /// counters; used when the input source is replaced.
    pub fn clear(&mut self)
        ensures
            final(self).wf(),
            final(self).spec_items() == Seq::<Arc<T>>::empty(),
            final(self).spec_reserved() == Seq::<Arc<T>>::empty(),
            final(self).spec_taken() == 0,
            final(self).spec_len() == 0,
            final(self).spec_lines_to_reserve() == old(self).spec_lines_to_reserve(),
    {
        self.pool.clear();
        self.reserved_items.clear();
        self.taken = 0;
        self.length = 0;
    }

    /// Rewinds the watermark to the start without touching stored data, so
    /// the next `take` re-delivers the whole pool; used when the query
    /// changes and a full re-match is required.
    pub fn reset(&mut self)
        ensures
            final(self).spec_items() == old(self).spec_items(),
            final(self).spec_reserved() == old(self).spec_reserved(),
            final(self).spec_taken() == 0,
            final(self).spec_len() == old(self).spec_len(),
            final(self).spec_lines_to_reserve() == old(self).spec_lines_to_reserve(),
            old(self).wf() ==> final(self).wf(),
    {
        self.taken = 0;
    }

    /// How many of `count` freshly appended items are routed into the
    /// header: whatever is left of the header quota.
    pub open spec fn spec_quota(&self, count: int) -> int {
        let room = self.spec_lines_to_reserve() - self.spec_reserved().len();
        if room <= 0 {
            0
        } else if room < count {
            room
        } else {
            count
        }
    }

    /// Appends items and returns the new total.  While header quota
    /// remains, that many leading items are pinned as header; the rest
    /// join the matchable pool past the watermark.
    pub fn append(&mut self, items: Vec<Arc<T>>) -> (n: usize)
        requires
            old(self).wf(),
            old(self).spec_len() + items@.len() <= usize::MAX,
        ensures
            final(self).wf(),
            final(self).spec_reserved() == old(self).spec_reserved() + items@.take(
                old(self).spec_quota(items@.len() as int),
            ),
            final(self).spec_items() == old(self).spec_items() + items@.skip(
                old(self).spec_quota(items@.len() as int),
            ),
            final(self).spec_taken() == old(self).spec_taken(),
            final(self).spec_lines_to_reserve() == old(self).spec_lines_to_reserve(),
            final(self).spec_len() == old(self).spec_len() + items@.len(),
            n == final(self).spec_len(),
    {
        let ghost count = items@.len() as int;
        let mut items = items;
        let added = items.len();
        let room = if self.lines_to_reserve > self.reserved_items.len() {
            self.lines_to_reserve - self.reserved_items.len()
        } else {
            0
        };
        let quota = if room < items.len() {
            room
        } else {
            items.len()
        };
        proof {
            assert(quota == self.spec_quota(count));
        }
        let mut rest = items.split_off(quota);
        self.reserved_items.append(&mut items);
        self.pool.append(&mut rest);
        self.length = self.length + added;
        self.length
    }

    /// Swaps the watermark up to the end of the pool and returns the items
    /// it moved past: the snapshot one matching pass consumes.  A second
    /// `take` returns nothing until another `append` or a `reset`.
    pub fn take(&mut self) -> (g: ItemPoolGuard<Arc<T>>)
        requires
            old(self).wf(),
        ensures
            final(self).wf(),
            final(self).spec_items() == old(self).spec_items(),
            final(self).spec_reserved() == old(self).spec_reserved(),
            final(self).spec_len() == old(self).spec_len(),
            final(self).spec_lines_to_reserve() == old(self).spec_lines_to_reserve(),
            final(self).spec_taken() == final(self).spec_items().len(),
            g.items@ == old(self).spec_snapshot(),
            g.start == old(self).spec_taken(),
    {
        let start = self.taken;
        let mut items: Vec<Arc<T>> = Vec::new();
        let mut i = start;
        while i < self.pool.len()
            invariant
                *self == *old(self),
                old(self).wf(),
                start == old(self).spec_taken(),
                start <= i <= self.pool@.len(),
                items@ == self.pool@.subrange(start as int, i as int),
            decreases self.pool@.len() - i,
        {
            items.push(arc_clone(&self.pool[i]));
            proof {
                assert(items@ =~= self.pool@.subrange(start as int, i as int + 1));
            }
            i = i + 1;
        }
        self.taken = self.pool.len();
        proof {
            assert(items@ =~= old(self).spec_items().skip(start as int));
        }
        ItemPoolGuard { items, start }
    }

    /// The pinned header view, independent of the watermark; callers may
    /// prepend it to displayed results regardless of query state.
    pub fn reserved(&self) -> (g: ItemPoolGuard<Arc<T>>)
        ensures
            g.items@ == self.spec_reserved(),
            g.start == 0,
    {
        let mut items: Vec<Arc<T>> = Vec::new();
        let mut i: usize = 0;
        while i < self.reserved_items.len()
            invariant
                i <= self.reserved_items@.len(),
                items@ == self.reserved_items@.subrange(0, i as int),
            decreases self.reserved_items@.len() - i,
        {
            items.push(arc_clone(&self.reserved_items[i]));
            proof {
                assert(items@ =~= self.reserved_items@.subrange(0, i as int + 1));
            }
            i = i + 1;
        }
        proof {
            assert(items@ =~= self.spec_reserved());
        }
        ItemPoolGuard { items, start: 0 }
    }
}

impl<T> Default for ItemPool<T> {
    fn default() -> (p: Self)
        ensures
            p.wf(),
            p.spec_items() == Seq::<Arc<T>>::empty(),
            p.spec_reserved() == Seq::<Arc<T>>::empty(),
            p.spec_taken() == 0,
            p.spec_lines_to_reserve() == 0,
            p.spec_len() == 0,
    {
        ItemPool::new()
    }
}

/// After a `reset`, the next `take` re-delivers the whole pool from index
/// 0, and the pool's length is unchanged.
pub proof fn lemma_reset_then_take_redelivers_all<T>(before: ItemPool<T>, after: ItemPool<T>)
    requires
        before.wf(),
        after.spec_items() == before.spec_items(),
        after.spec_reserved() == before.spec_reserved(),
        after.spec_len() == before.spec_len(),
        after.spec_taken() == 0,
    ensures
        after.spec_snapshot() == before.spec_items(),
        after.spec_snapshot().len() == before.spec_items().len(),
        after.spec_len() == before.spec_len(),
{
    assert(after.spec_items().skip(0) =~= after.spec_items());
}

} // verus!
