//! The `And`/`Or` match-engine combinators.
//!
//! A query engine is a tree: primitive engines (supplied from outside the
//! core through the [`crate::MatchEngine`] capability) at the leaves, and
//! `And`/`Or` combinators above them.  `Or` returns the result of the first
//! sub-engine that matches; `And` requires every sub-engine to match and
//! merges the sub-ranges into one deduplicated, ascending character-index
//! set.  Sub-engines are evaluated left to right and evaluation
//! short-circuits, which is load-bearing for engines with side effects.

use vstd::prelude::*;
use vstd::string::StringExecFns;
use vstd::string::StringSliceAdditionalSpecFns;

use crate::MatchEngine;
use crate::MatchRange;
use crate::MatchRangeView;
use crate::MatchResult;
use crate::MatchResultView;
use crate::SkimItem;
use crate::spec_range_char_indices;

verus! {

/// One node of an engine tree: a primitive engine or a combinator.
pub enum EngineNode<P> {
    Primitive(P),
    And(AndEngine<P>),
    Or(OrEngine<P>),
}

/// Ordered list of sub-engines; the first one that matches wins.
pub struct OrEngine<P> {
    engines: Vec<EngineNode<P>>,
}

/// Ordered list of sub-engines that must all match.
pub struct AndEngine<P> {
    engines: Vec<EngineNode<P>>,
}

impl<P> OrEngine<P> {
    /// The ordered sub-engines of this combinator.
    pub closed spec fn spec_engines(&self) -> Seq<EngineNode<P>> {
        self.engines@
    }
}

impl<P> AndEngine<P> {
    /// The ordered sub-engines of this combinator.
    pub closed spec fn spec_engines(&self) -> Seq<EngineNode<P>> {
        self.engines@
    }
}

/// What an engine-tree node returns on `item`.
pub open spec fn node_match<T: SkimItem, P: MatchEngine<T>>(n: EngineNode<P>, item: T) -> Option<
    MatchResultView,
>
    decreases n,
{
    match n {
        EngineNode::Primitive(p) => p.spec_match(item),
        EngineNode::Or(o) => or_match_from(o.spec_engines(), item, 0),
        EngineNode::And(a) => and_match(a.spec_engines(), item),
    }
}

/// The first success among `s[i..]`, or `None`.
pub open spec fn or_match_from<T: SkimItem, P: MatchEngine<T>>(
    s: Seq<EngineNode<P>>,
    item: T,
    i: int,
) -> Option<MatchResultView>
    decreases s, s.len() - i,
{
    if i < 0 || i >= s.len() {
        None
    } else {
        match node_match(s[i], item) {
            Some(r) => Some(r),
            None => or_match_from(s, item, i + 1),
        }
    }
}

/// The results of `s[i..]` in order, provided every node matches.
pub open spec fn and_results_from<T: SkimItem, P: MatchEngine<T>>(
    s: Seq<EngineNode<P>>,
    item: T,
    i: int,
) -> Option<Seq<MatchResultView>>
    decreases s, s.len() - i,
{
    if i < 0 || i >= s.len() {
        Some(Seq::empty())
    } else {
        match node_match(s[i], item) {
            None => None,
            Some(r) => match and_results_from(s, item, i + 1) {
                None => None,
                Some(rest) => Some(seq![r] + rest),
            },
        }
    }
}

/// What an `And` over `s` returns: nothing when `s` is empty or any
/// sub-engine misses, else the first sub-result's rank together with the
/// merged character-index set of all sub-ranges.
pub open spec fn and_match<T: SkimItem, P: MatchEngine<T>>(s: Seq<EngineNode<P>>, item: T) -> Option<
    MatchResultView,
>
    decreases s, s.len() + 1,
{
    if s.len() == 0 {
        None
    } else {
        match and_results_from(s, item, 0) {
            None => None,
            Some(rs) => Some(merged_result(rs, vstd::utf8::encode_utf8(item.spec_text()))),
        }
    }
}

/// All character indices named by the sub-results, in evaluation order,
/// with byte spans translated against the item's UTF-8 bytes.
pub open spec fn all_indices(rs: Seq<MatchResultView>, bytes: Seq<u8>) -> Seq<usize>
    decreases rs.len(),
{
    if rs.len() == 0 {
        Seq::empty()
    } else {
        all_indices(rs.drop_last(), bytes) + spec_range_char_indices(rs.last().matched_range, bytes)
    }
}

/// The merged result of a full `And` success: the first sub-result's rank,
/// and the sorted, deduplicated union of every sub-range's characters.
pub open spec fn merged_result(rs: Seq<MatchResultView>, bytes: Seq<u8>) -> MatchResultView
    recommends
        rs.len() > 0,
{
    MatchResultView {
        rank: rs[0].rank,
        matched_range: MatchRangeView::Chars(sorted_unique_of(all_indices(rs, bytes))),
    }
}

/// Strictly ascending: sorted with no duplicates.
pub open spec fn strictly_sorted(s: Seq<usize>) -> bool {
    forall|i: int, j: int| 0 <= i < j < s.len() ==> s[i] < s[j]
}

/// Inserts `x` into an ascending sequence, keeping it ascending and
/// duplicate-free.
pub open spec fn insert_unique(s: Seq<usize>, x: usize) -> Seq<usize>
    decreases s.len(),
{
    if s.len() == 0 {
        seq![x]
    } else if x < s[0] {
        seq![x] + s
    } else if x == s[0] {
        s
    } else {
        seq![s[0]] + insert_unique(s.drop_first(), x)
    }
}

/// The ascending, duplicate-free sequence holding exactly the values of `s`.
pub open spec fn sorted_unique_of(s: Seq<usize>) -> Seq<usize>
    decreases s.len(),
{
    if s.len() == 0 {
        Seq::empty()
    } else {
        insert_unique(sorted_unique_of(s.drop_last()), s.last())
    }
}

/// Where `x` lands in the ascending sequence `s`: if an equal element is
/// already at `idx` nothing changes, otherwise `x` is placed at `idx`.
proof fn lemma_insert_unique_at(s: Seq<usize>, x: usize, idx: int)
    requires
        strictly_sorted(s),
        0 <= idx <= s.len(),
        forall|k: int| 0 <= k < idx ==> s[k] < x,
        idx < s.len() ==> x <= s[idx],
    ensures
        idx < s.len() && s[idx] == x ==> insert_unique(s, x) == s,
        !(idx < s.len() && s[idx] == x) ==> insert_unique(s, x) =~= s.insert(idx, x),
    decreases s.len(),
{
    if s.len() == 0 {
        assert(insert_unique(s, x) =~= s.insert(0, x));
    } else if idx == 0 {
        if x < s[0] {
            assert(insert_unique(s, x) =~= s.insert(0, x));
        }
    } else {
        let t = s.drop_first();
        assert(strictly_sorted(t)) by {
            assert(forall|i: int, j: int|
                0 <= i < j < t.len() ==> t[i] == s[i + 1] && t[j] == s[j + 1]);
        }
        assert(forall|k: int| 0 <= k < idx - 1 ==> t[k] == s[k + 1] && s[k + 1] < x);
        lemma_insert_unique_at(t, x, idx - 1);
        assert(s[0] < x);
        if idx < s.len() && s[idx] == x {
            assert(t[idx - 1] == x);
            assert(insert_unique(s, x) =~= seq![s[0]] + t);
            assert(seq![s[0]] + t =~= s);
        } else {
            assert(insert_unique(s, x) =~= seq![s[0]] + t.insert(idx - 1, x));
            assert(seq![s[0]] + t.insert(idx - 1, x) =~= s.insert(idx, x));
        }
    }
}

/// Insertion keeps the sequence ascending and duplicate-free, and adds
/// exactly `x` to its set of values.
pub proof fn lemma_insert_unique(s: Seq<usize>, x: usize)
    requires
        strictly_sorted(s),
    ensures
        strictly_sorted(insert_unique(s, x)),
        insert_unique(s, x).to_set() =~= s.to_set().insert(x),
    decreases s.len(),
{
    if s.len() == 0 {
        assert(insert_unique(s, x) =~= seq![x]);
        assert(seq![x].to_set() =~= s.to_set().insert(x)) by {
            assert(seq![x][0] == x);
            assert forall|y: usize| seq![x].to_set().contains(y) implies s.to_set().insert(
                x,
            ).contains(y) by {
                let i = choose|i: int| 0 <= i < seq![x].len() && seq![x][i] == y;
                assert(y == x);
            }
        }
    } else if x < s[0] {
        let r = seq![x] + s;
        assert forall|i: int, j: int| 0 <= i < j < r.len() implies r[i] < r[j] by {
            if i > 0 {
                assert(r[i] == s[i - 1] && r[j] == s[j - 1]);
            }
        }
        assert(r.to_set() =~= s.to_set().insert(x)) by {
            assert forall|y: usize| r.to_set().contains(y) implies s.to_set().insert(x).contains(
                y,
            ) by {
                let i = choose|i: int| 0 <= i < r.len() && r[i] == y;
                if i > 0 {
                    assert(s[i - 1] == y);
                }
            }
            assert forall|y: usize| s.to_set().insert(x).contains(y) implies r.to_set().contains(
                y,
            ) by {
                if y == x {
                    assert(r[0] == y);
                } else {
                    let i = choose|i: int| 0 <= i < s.len() && s[i] == y;
                    assert(r[i + 1] == y);
                }
            }
        }
    } else if x == s[0] {
        assert(s.to_set().contains(x));
        assert(s.to_set() =~= s.to_set().insert(x));
    } else {
        let t = s.drop_first();
        assert(strictly_sorted(t)) by {
            assert(forall|i: int, j: int|
                0 <= i < j < t.len() ==> t[i] == s[i + 1] && t[j] == s[j + 1]);
        }
        lemma_insert_unique(t, x);
        let rt = insert_unique(t, x);
        let r = seq![s[0]] + rt;
        assert(insert_unique(s, x) == r);
        assert forall|i: int, j: int| 0 <= i < j < r.len() implies r[i] < r[j] by {
            if i == 0 {
                assert(rt.to_set().contains(rt[j - 1]));
                assert(t.to_set().insert(x).contains(rt[j - 1]));
                if rt[j - 1] != x {
                    let k = choose|k: int| 0 <= k < t.len() && t[k] == rt[j - 1];
                    assert(t[k] == s[k + 1]);
                    assert(s[0] < s[k + 1]);
                }
            } else {
                assert(r[i] == rt[i - 1] && r[j] == rt[j - 1]);
            }
        }
        assert(r.to_set() =~= s.to_set().insert(x)) by {
            assert forall|y: usize| r.to_set().contains(y) implies s.to_set().insert(x).contains(
                y,
            ) by {
                let i = choose|i: int| 0 <= i < r.len() && r[i] == y;
                if i == 0 {
                    assert(s[0] == y);
                } else {
                    assert(rt.to_set().contains(y));
                    if y != x {
                        let k = choose|k: int| 0 <= k < t.len() && t[k] == y;
                        assert(s[k + 1] == y);
                    }
                }
            }
            assert forall|y: usize| s.to_set().insert(x).contains(y) implies r.to_set().contains(
                y,
            ) by {
                if y == x {
                    assert(rt.to_set().contains(y));
                    let k = choose|k: int| 0 <= k < rt.len() && rt[k] == y;
                    assert(r[k + 1] == y);
                } else {
                    let i = choose|i: int| 0 <= i < s.len() && s[i] == y;
                    if i == 0 {
                        assert(r[0] == y);
                    } else {
                        assert(t[i - 1] == y);
                        assert(rt.to_set().contains(y));
                        let k = choose|k: int| 0 <= k < rt.len() && rt[k] == y;
                        assert(r[k + 1] == y);
                    }
                }
            }
        }
    }
}

/// Inserts `x` into the ascending, duplicate-free vector `v`, keeping it
/// so.
fn insert_sorted_unique(v: &mut Vec<usize>, x: usize)
    requires
        strictly_sorted(old(v)@),
    ensures
        final(v)@ == insert_unique(old(v)@, x),
        strictly_sorted(final(v)@),
{
    proof {
        lemma_insert_unique(old(v)@, x);
    }
    let mut i: usize = 0;
    while i < v.len() && v[i] < x
        invariant
            i <= v@.len(),
            v@ == old(v)@,
            forall|k: int| 0 <= k < i ==> v@[k] < x,
        decreases v@.len() - i,
    {
        i = i + 1;
    }
    if i < v.len() && x == v[i] {
        proof {
            lemma_insert_unique_at(v@, x, i as int);
        }
    } else {
        proof {
            lemma_insert_unique_at(v@, x, i as int);
        }
        v.insert(i, x);
    }
}

/// The normalized form of any index sequence is ascending and
/// duplicate-free, and holds exactly the original values.
pub proof fn lemma_sorted_unique_of(s: Seq<usize>)
    ensures
        strictly_sorted(sorted_unique_of(s)),
        sorted_unique_of(s).to_set() =~= s.to_set(),
    decreases s.len(),
{
    if s.len() == 0 {
        assert(sorted_unique_of(s).to_set() =~= s.to_set());
    } else {
        lemma_sorted_unique_of(s.drop_last());
        lemma_insert_unique(sorted_unique_of(s.drop_last()), s.last());
        assert(s.drop_last().to_set().insert(s.last()) =~= s.to_set()) by {
            assert forall|y: usize| s.to_set().contains(y) implies s.drop_last().to_set().insert(
                s.last(),
            ).contains(y) by {
                let i = choose|i: int| 0 <= i < s.len() && s[i] == y;
                if i < s.len() - 1 {
                    assert(s.drop_last()[i] == y);
                }
            }
            assert forall|y: usize|
                s.drop_last().to_set().insert(s.last()).contains(y) implies s.to_set().contains(
                y,
            ) by {
                if y == s.last() {
                } else {
                    let i = choose|i: int| 0 <= i < s.drop_last().len() && s.drop_last()[i] == y;
                    assert(s[i] == y);
                }
            }
        }
    }
}

proof fn lemma_and_results_from_all<T: SkimItem, P: MatchEngine<T>>(
    s: Seq<EngineNode<P>>,
    item: T,
    i: int,
)
    requires
        0 <= i <= s.len(),
        forall|j: int| i <= j < s.len() ==> (#[trigger] node_match(s[j], item)) is Some,
    ensures
        and_results_from(s, item, i) is Some,
        and_results_from(s, item, i)->0.len() == s.len() - i,
        forall|k: int|
            0 <= k < s.len() - i ==> #[trigger] and_results_from(s, item, i)->0[k] == node_match(
                s[i + k],
                item,
            )->0,
    decreases s.len() - i,
{
    if i < s.len() {
        lemma_and_results_from_all(s, item, i + 1);
        let rest = and_results_from(s, item, i + 1)->0;
        assert(and_results_from(s, item, i)->0 == seq![node_match(s[i], item)->0] + rest);
        assert forall|k: int| 0 <= k < s.len() - i implies #[trigger] and_results_from(s, item, i)
            ->0[k] == node_match(s[i + k], item)->0 by {
            if k == 0 {
                assert((seq![node_match(s[i], item)->0] + rest)[0] == node_match(s[i], item)->0);
            } else {
                assert(and_results_from(s, item, i + 1)->0[k - 1] == node_match(
                    s[i + 1 + (k - 1)],
                    item,
                )->0);
                assert((seq![node_match(s[i], item)->0] + rest)[k] == rest[k - 1]);
            }
        }
    }
}

proof fn lemma_and_results_from_none<T: SkimItem, P: MatchEngine<T>>(
    s: Seq<EngineNode<P>>,
    item: T,
    i: int,
    k: int,
)
    requires
        0 <= i <= k < s.len(),
        node_match(s[k], item) is None,
    ensures
        and_results_from(s, item, i) is None,
    decreases k - i,
{
    if i < k {
        lemma_and_results_from_none(s, item, i + 1, k);
    }
}

/// Evaluates one engine-tree node against `item`.
fn match_engine_node<T: SkimItem, P: MatchEngine<T>>(n: &EngineNode<P>, item: &T) -> (r: Option<
    MatchResult,
>)
    ensures
        r is Some <==> node_match(*n, *item) is Some,
        r is Some ==> r->0@ == node_match(*n, *item)->0,
    decreases *n,
{
    match n {
        EngineNode::Primitive(p) => p.match_item(item),
        EngineNode::Or(o) => {
            proof {
                assert(decreases_to!(*n => (*n)->Or_0));
                assert((*n)->Or_0 == *o);
                assert(decreases_to!(*o => o.engines));
                assert(decreases_to!(o.engines => o.engines@));
                assert(decreases_to!(*n => o.engines@));
            }
            or_list_match(&o.engines, item)
        },
        EngineNode::And(a) => {
            proof {
                assert(decreases_to!(*n => (*n)->And_0));
                assert((*n)->And_0 == *a);
                assert(decreases_to!(*a => a.engines));
                assert(decreases_to!(a.engines => a.engines@));
                assert(decreases_to!(*n => a.engines@));
            }
            and_list_match(&a.engines, item)
        },
    }
}

/// Tries each engine in order and returns the first success, leaving the
/// remaining engines unevaluated.
fn or_list_match<T: SkimItem, P: MatchEngine<T>>(engines: &Vec<EngineNode<P>>, item: &T) -> (r:
    Option<MatchResult>)
    ensures
        r is Some <==> or_match_from(engines@, *item, 0) is Some,
        r is Some ==> r->0@ == or_match_from(engines@, *item, 0)->0,
    decreases engines@,
{
    let mut i: usize = 0;
    loop
        invariant
            i <= engines@.len(),
            or_match_from(engines@, *item, 0) == or_match_from(engines@, *item, i as int),
        ensures
            or_match_from(engines@, *item, 0) is None,
        decreases engines@.len() - i,
    {
        if i >= engines.len() {
            break ;
        }
        proof {
            assert(decreases_to!(engines@ => engines@[i as int]));
        }
        let sub = match_engine_node(&engines[i], item);
        if sub.is_some() {
            return sub;
        }
        i = i + 1;
    }
    None
}

/// Evaluates every engine in order, short-circuiting on the first miss; on
/// full success merges the collected results.
fn and_list_match<T: SkimItem, P: MatchEngine<T>>(engines: &Vec<EngineNode<P>>, item: &T) -> (r:
    Option<MatchResult>)
    ensures
        r is Some <==> and_match(engines@, *item) is Some,
        r is Some ==> r->0@ == and_match(engines@, *item)->0,
    decreases engines@,
{
    let mut results: Vec<MatchResult> = Vec::new();
    let mut i: usize = 0;
    loop
        invariant
            i <= engines@.len(),
            results@.len() == i,
            forall|j: int|
                0 <= j < i ==> (#[trigger] node_match(engines@[j], *item)) is Some && results@[j]@
                    == node_match(engines@[j], *item)->0,
        ensures
            i == engines@.len(),
            results@.len() == i,
            forall|j: int|
                0 <= j < i ==> (#[trigger] node_match(engines@[j], *item)) is Some && results@[j]@
                    == node_match(engines@[j], *item)->0,
        decreases engines@.len() - i,
    {
        if i >= engines.len() {
            break ;
        }
        proof {
            assert(decreases_to!(engines@ => engines@[i as int]));
        }
        match match_engine_node(&engines[i], item) {
            None => {
                proof {
                    lemma_and_results_from_none(engines@, *item, 0, i as int);
                }
                return None;
            },
            Some(r) => {
                results.push(r);
            },
        }
        i = i + 1;
    }
    if results.is_empty() {
        return None;
    }
    proof {
        lemma_and_results_from_all(engines@, *item, 0);
        let rs = and_results_from(engines@, *item, 0)->0;
        assert forall|k: int| 0 <= k < rs.len() implies results@.map_values(|m: MatchResult| m@)[k]
            == rs[k] by {
            assert(rs[k] == node_match(engines@[0 + k], *item)->0);
        }
        assert(results@.map_values(|m: MatchResult| m@) =~= rs);
    }
    let text = item.text();
    let merged = merge_matched_items(results, text.as_str());
    Some(merged)
}

/// Merges the sub-results of a full `And` success: the first result's rank
/// carries over, and all matched ranges are pooled into one ascending,
/// duplicate-free character-index set.
fn merge_matched_items(items: Vec<MatchResult>, text: &str) -> (r: MatchResult)
    requires
        items@.len() > 0,
    ensures
        r@ == merged_result(items@.map_values(|m: MatchResult| m@), text.spec_bytes()),
{
    let ghost views = items@.map_values(|m: MatchResult| m@);
    let ghost bytes = text.spec_bytes();
    let rank = items[0].rank;
    let mut merged: Vec<usize> = Vec::new();
    let mut i: usize = 0;
    while i < items.len()
        invariant
            i <= items@.len(),
            items@.len() > 0,
            views == items@.map_values(|m: MatchResult| m@),
            bytes == text.spec_bytes(),
            strictly_sorted(merged@),
            merged@ == sorted_unique_of(all_indices(views.take(i as int), bytes)),
        decreases items@.len() - i,
    {
        let idxs = items[i].range_char_indices(text);
        let ghost sub = spec_range_char_indices(views[i as int].matched_range, bytes);
        assert(idxs@ == sub);
        let mut j: usize = 0;
        while j < idxs.len()
            invariant
                j <= idxs@.len(),
                i < items@.len(),
                idxs@ == sub,
                views == items@.map_values(|m: MatchResult| m@),
                bytes == text.spec_bytes(),
                strictly_sorted(merged@),
                merged@ == sorted_unique_of(
                    all_indices(views.take(i as int), bytes) + sub.take(j as int),
                ),
            decreases idxs@.len() - j,
        {
            let ghost before = all_indices(views.take(i as int), bytes) + sub.take(j as int);
            proof {
                assert(before.push(sub[j as int]) =~= all_indices(views.take(i as int), bytes)
                    + sub.take(j as int + 1));
                assert(before.push(sub[j as int]).drop_last() =~= before);
                assert(sorted_unique_of(before.push(sub[j as int])) == insert_unique(
                    sorted_unique_of(before),
                    sub[j as int],
                ));
            }
            insert_sorted_unique(&mut merged, idxs[j]);
            j = j + 1;
        }
        proof {
            assert(all_indices(views.take(i as int), bytes) + sub.take(idxs@.len() as int)
                =~= all_indices(views.take(i as int), bytes) + sub);
            assert(views.take(i as int + 1).drop_last() =~= views.take(i as int));
            assert(views.take(i as int + 1).last() == views[i as int]);
            assert(all_indices(views.take(i as int + 1), bytes) == all_indices(
                views.take(i as int),
                bytes,
            ) + sub);
        }
        i = i + 1;
    }
    proof {
        assert(views.take(views.len() as int) =~= views);
    }
    MatchResult { rank, matched_range: MatchRange::Chars(merged) }
}

impl<P> OrEngine<P> {
    pub fn builder() -> (r: Self)
        ensures
            r.spec_engines() == Seq::<EngineNode<P>>::empty(),
    {
        OrEngine { engines: Vec::new() }
    }

    pub fn engines(self, engines: Vec<EngineNode<P>>) -> (r: Self)
        ensures
            r.spec_engines() == self.spec_engines() + engines@,
    {
        let mut held = self.engines;
        let mut engines = engines;
        held.append(&mut engines);
        OrEngine { engines: held }
    }

    pub fn build(self) -> (r: Self)
        ensures
            r == self,
    {
        self
    }
}

impl<P> AndEngine<P> {
    pub fn builder() -> (r: Self)
        ensures
            r.spec_engines() == Seq::<EngineNode<P>>::empty(),
    {
        AndEngine { engines: Vec::new() }
    }

    pub fn engines(self, engines: Vec<EngineNode<P>>) -> (r: Self)
        ensures
            r.spec_engines() == self.spec_engines() + engines@,
    {
        let mut held = self.engines;
        let mut engines = engines;
        held.append(&mut engines);
        AndEngine { engines: held }
    }

    pub fn build(self) -> (r: Self)
        ensures
            r == self,
    {
        self
    }
}

/// The descriptions of the first `i` engines of `s`, joined by `", "`.
pub open spec fn list_description_prefix<T: SkimItem, P: MatchEngine<T>>(
    s: Seq<EngineNode<P>>,
    i: int,
) -> Seq<char>
    decreases s, i,
{
    if i <= 0 || i > s.len() {
        Seq::empty()
    } else if i == 1 {
        node_description::<T, P>(s[0])
    } else {
        list_description_prefix::<T, P>(s, i - 1) + ", "@ + node_description::<T, P>(s[i - 1])
    }
}

/// The diagnostic description of an `Or` over `s`: its sub-engines'
/// descriptions in list order, joined by `", "`, between `"(Or: "` and
/// `")"`.
pub open spec fn or_description<T: SkimItem, P: MatchEngine<T>>(s: Seq<EngineNode<P>>) -> Seq<char>
    decreases s, s.len() + 1,
{
    "(Or: "@ + list_description_prefix::<T, P>(s, s.len() as int) + ")"@
}

/// The diagnostic description of an `And` over `s`, shaped like
/// [`or_description`].
pub open spec fn and_description<T: SkimItem, P: MatchEngine<T>>(s: Seq<EngineNode<P>>) -> Seq<char>
    decreases s, s.len() + 1,
{
    "(And: "@ + list_description_prefix::<T, P>(s, s.len() as int) + ")"@
}

/// The diagnostic description of one engine-tree node.
pub open spec fn node_description<T: SkimItem, P: MatchEngine<T>>(n: EngineNode<P>) -> Seq<char>
    decreases n,
{
    match n {
        EngineNode::Primitive(p) => p.spec_description(),
        EngineNode::Or(o) => or_description::<T, P>(o.spec_engines()),
        EngineNode::And(a) => and_description::<T, P>(a.spec_engines()),
    }
}

/// Renders one node for diagnostics.
fn describe_node<T: SkimItem, P: MatchEngine<T>>(n: &EngineNode<P>) -> (r: String)
    ensures
        r@ == node_description::<T, P>(*n),
    decreases *n,
{
    match n {
        EngineNode::Primitive(p) => p.description(),
        EngineNode::Or(o) => {
            proof {
                assert(decreases_to!(*n => (*n)->Or_0));
                assert((*n)->Or_0 == *o);
                assert(decreases_to!(*o => o.engines));
                assert(decreases_to!(o.engines => o.engines@));
                assert(decreases_to!(*n => o.engines@));
            }
            describe_list::<T, P>("(Or: ", &o.engines)
        },
        EngineNode::And(a) => {
            proof {
                assert(decreases_to!(*n => (*n)->And_0));
                assert((*n)->And_0 == *a);
                assert(decreases_to!(*a => a.engines));
                assert(decreases_to!(a.engines => a.engines@));
                assert(decreases_to!(*n => a.engines@));
            }
            describe_list::<T, P>("(And: ", &a.engines)
        },
    }
}

/// Renders a combinator's sub-engine list for diagnostics, e.g.
/// `"(And: e1, e2)"`.
fn describe_list<T: SkimItem, P: MatchEngine<T>>(label: &str, engines: &Vec<EngineNode<P>>) -> (r:
    String)
    ensures
        r@ == label@ + list_description_prefix::<T, P>(engines@, engines@.len() as int) + ")"@,
    decreases engines@,
{
    let mut out = String::from_str(label);
    let mut i: usize = 0;
    while i < engines.len()
        invariant
            i <= engines@.len(),
            out@ == label@ + list_description_prefix::<T, P>(engines@, i as int),
        decreases engines@.len() - i,
    {
        if i > 0 {
            out.append(", ");
        }
        proof {
            assert(decreases_to!(engines@ => engines@[i as int]));
        }
        let sub = describe_node::<T, P>(&engines[i]);
        out.append(sub.as_str());
        proof {
            if i == 0 {
                assert(list_description_prefix::<T, P>(engines@, 1) == node_description::<T, P>(
                    engines@[0],
                ));
            } else {
                assert(list_description_prefix::<T, P>(engines@, i as int + 1)
                    == list_description_prefix::<T, P>(engines@, i as int) + ", "@
                    + node_description::<T, P>(engines@[i as int]));
            }
            assert(out@ =~= label@ + list_description_prefix::<T, P>(engines@, i as int + 1));
        }
        i = i + 1;
    }
    out.append(")");
    proof {
        assert(out@ =~= label@ + list_description_prefix::<T, P>(engines@, engines@.len() as int)
            + ")"@);
    }
    out
}

impl<T: SkimItem, P: MatchEngine<T>> MatchEngine<T> for EngineNode<P> {
    open spec fn spec_match(&self, item: T) -> Option<MatchResultView> {
        node_match(*self, item)
    }

    open spec fn spec_description(&self) -> Seq<char> {
        node_description::<T, P>(*self)
    }

    fn match_item(&self, item: &T) -> (r: Option<MatchResult>) {
        match_engine_node(self, item)
    }

    fn description(&self) -> String {
        describe_node(self)
    }
}

impl<T: SkimItem, P: MatchEngine<T>> MatchEngine<T> for OrEngine<P> {
    open spec fn spec_match(&self, item: T) -> Option<MatchResultView> {
        or_match_from(self.spec_engines(), item, 0)
    }

    open spec fn spec_description(&self) -> Seq<char> {
        or_description::<T, P>(self.spec_engines())
    }

    fn match_item(&self, item: &T) -> (r: Option<MatchResult>) {
        or_list_match(&self.engines, item)
    }

    fn description(&self) -> String {
        describe_list::<T, P>("(Or: ", &self.engines)
    }
}

impl<T: SkimItem, P: MatchEngine<T>> MatchEngine<T> for AndEngine<P> {
    open spec fn spec_match(&self, item: T) -> Option<MatchResultView> {
        and_match(self.spec_engines(), item)
    }

    open spec fn spec_description(&self) -> Seq<char> {
        and_description::<T, P>(self.spec_engines())
    }

    fn match_item(&self, item: &T) -> (r: Option<MatchResult>) {
        and_list_match(&self.engines, item)
    }

    fn description(&self) -> String {
        describe_list::<T, P>("(And: ", &self.engines)
    }
}

/// An `Or` of two engines behaves as "first success wins": it returns the
/// first engine's result whenever that is a success, and the second
/// engine's result otherwise.
pub proof fn lemma_or_first_success<T: SkimItem, P: MatchEngine<T>>(
    o: OrEngine<P>,
    e1: EngineNode<P>,
    e2: EngineNode<P>,
    item: T,
)
    requires
        o.spec_engines() == seq![e1, e2],
    ensures
        node_match(e1, item) is Some ==> o.spec_match(item) == node_match(e1, item),
        node_match(e1, item) is None ==> o.spec_match(item) == node_match(e2, item),
{
    let s = o.spec_engines();
    assert(s[0] == e1 && s[1] == e2);
    assert(o.spec_match(item) == or_match_from(s, item, 0));
    if node_match(e1, item) is Some {
        assert(or_match_from(s, item, 0) == node_match(e1, item));
    } else {
        assert(or_match_from(s, item, 0) == or_match_from(s, item, 1));
        if node_match(e2, item) is Some {
            assert(or_match_from(s, item, 1) == node_match(e2, item));
        } else {
            assert(or_match_from(s, item, 1) == or_match_from(s, item, 2));
            assert(or_match_from(s, item, 2) is None);
        }
    }
}

proof fn lemma_to_set_of_concat(a: Seq<usize>, b: Seq<usize>)
    ensures
        (a + b).to_set() =~= a.to_set().union(b.to_set()),
{
    assert forall|y: usize| (a + b).to_set().contains(y) implies a.to_set().union(
        b.to_set(),
    ).contains(y) by {
        let i = choose|i: int| 0 <= i < (a + b).len() && (a + b)[i] == y;
        if i < a.len() {
            assert(a[i] == y);
        } else {
            assert(b[i - a.len()] == y);
        }
    }
    assert forall|y: usize| a.to_set().union(b.to_set()).contains(y) implies (a
        + b).to_set().contains(y) by {
        if a.to_set().contains(y) {
            let i = choose|i: int| 0 <= i < a.len() && a[i] == y;
            assert((a + b)[i] == y);
        } else {
            let i = choose|i: int| 0 <= i < b.len() && b[i] == y;
            assert((a + b)[a.len() + i] == y);
        }
    }
}

/// An `And` of two engines misses exactly when either engine misses.  When
/// both hit, the combined rank is the first engine's rank, and the combined
/// range is the ascending, duplicate-free union of both engines' character
/// indices (byte spans translated against the item's UTF-8 text).
pub proof fn lemma_and_semantics<T: SkimItem, P: MatchEngine<T>>(
    a: AndEngine<P>,
    e1: EngineNode<P>,
    e2: EngineNode<P>,
    item: T,
)
    requires
        a.spec_engines() == seq![e1, e2],
    ensures
        a.spec_match(item) is None <==> node_match(e1, item) is None || node_match(e2, item)
            is None,
        a.spec_match(item) is Some ==> a.spec_match(item)->0.rank == node_match(e1, item)->0.rank,
        a.spec_match(item) is Some ==> {
            let bytes = vstd::utf8::encode_utf8(item.spec_text());
            let ix1 = spec_range_char_indices(node_match(e1, item)->0.matched_range, bytes);
            let ix2 = spec_range_char_indices(node_match(e2, item)->0.matched_range, bytes);
            &&& a.spec_match(item)->0.matched_range matches MatchRangeView::Chars(ix)
            &&& strictly_sorted(a.spec_match(item)->0.matched_range->Chars_0)
            &&& a.spec_match(item)->0.matched_range->Chars_0.to_set() == ix1.to_set().union(
                ix2.to_set(),
            )
        },
{
    let s = a.spec_engines();
    assert(s[0] == e1 && s[1] == e2);
    assert(and_results_from(s, item, 2) == Some(Seq::<MatchResultView>::empty()));
    if node_match(e1, item) is Some && node_match(e2, item) is Some {
        let r1 = node_match(e1, item)->0;
        let r2 = node_match(e2, item)->0;
        let rs = and_results_from(s, item, 0)->0;
        assert(rs =~= seq![r1, r2]);
        let bytes = vstd::utf8::encode_utf8(item.spec_text());
        let ix1 = spec_range_char_indices(r1.matched_range, bytes);
        let ix2 = spec_range_char_indices(r2.matched_range, bytes);
        assert(rs.drop_last() =~= seq![r1]);
        assert(seq![r1].drop_last() =~= Seq::<MatchResultView>::empty());
        assert(all_indices(rs, bytes) == all_indices(seq![r1], bytes) + ix2);
        assert(all_indices(seq![r1], bytes) == all_indices(Seq::<MatchResultView>::empty(), bytes)
            + ix1);
        assert(all_indices(rs, bytes) =~= ix1 + ix2);
        lemma_sorted_unique_of(ix1 + ix2);
        lemma_to_set_of_concat(ix1, ix2);
    }
}

} // verus!
