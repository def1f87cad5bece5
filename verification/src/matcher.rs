//! The matching pass and its orchestration.
//!
//! A [`Matcher`] holds an engine factory and a case policy; each query run
//! builds a fresh engine and sweeps one pool snapshot.  The sweep itself is
//! [`match_pass`]: it visits the snapshot in order, checks the shared
//! cancellation flag before each item, and either ranks every visited item
//! through the engine or, in disabled mode, passes everything through with
//! a neutral rank.  [`publish_results`] is the single publication step: a
//! buffer is replaced wholesale by a finished pass and left untouched by a
//! cancelled one, so readers always see a complete snapshot.
//!
//! Spawning the pass on a background task, joining it and exposing the
//! control handle are thread plumbing outside this crate; the decisions
//! those wrappers rely on live here.

use vstd::prelude::*;

use std::sync::Arc;
use std::sync::atomic::AtomicBool;
use std::sync::atomic::AtomicUsize;
use std::sync::atomic::Ordering;

use crate::CaseMatching;
use crate::MatchEngine;
use crate::MatchEngineFactory;
use crate::Rank;
use crate::SkimItem;
use crate::item::MatchedItem;
use crate::item::arc_clone;
use crate::item::arc_ref;
use crate::item::MatchedItemView;

verus! {

/// Shared cooperative cancellation flag.  Setting it asks an in-flight
/// pass to stop before its next item; the coordinator also sets it as its
/// last action, so it doubles as a completion signal.  Reads say nothing
/// about who set it or when: a pass states what holds of its output for
/// whatever prefix the flag allowed.
#[derive(Clone)]
pub struct CancelToken {
    flag: Arc<AtomicBool>,
}

impl CancelToken {
    pub fn new() -> Self {
        CancelToken { flag: Arc::new(AtomicBool::new(false)) }
    }

    /// Asks the pass to stop; idempotent.
    pub fn cancel(&self) {
        self.flag.store(true, Ordering::Relaxed);
    }

    pub fn is_cancelled(&self) -> bool {
        self.flag.load(Ordering::Relaxed)
    }
}

/// Shared processed/matched counters, updated while a pass runs so a UI
/// can display progress.  The authoritative counts are the ones
/// [`match_pass`] returns.
#[derive(Clone)]
pub struct PassProgress {
    processed: Arc<AtomicUsize>,
    matched: Arc<AtomicUsize>,
}

impl PassProgress {
    pub fn new() -> Self {
        PassProgress { processed: Arc::new(AtomicUsize::new(0)), matched: Arc::new(AtomicUsize::new(0)) }
    }

    pub fn note_processed(&self) {
        let _ = self.processed.fetch_add(1, Ordering::Relaxed);
    }

    pub fn note_matched(&self) {
        let _ = self.matched.fetch_add(1, Ordering::Relaxed);
    }

    pub fn num_processed(&self) -> usize {
        self.processed.load(Ordering::Relaxed)
    }

    pub fn num_matched(&self) -> usize {
        self.matched.load(Ordering::Relaxed)
    }
}

/// The matched item produced for snapshot position `idx` when ranking is
/// disabled: a neutral zero rank and no range.
pub open spec fn disabled_view<T>(item: Arc<T>, idx: int) -> MatchedItemView<T> {
    MatchedItemView {
        item: item,
        rank: Rank(0i32, 0i32, 0i32, 0i32),
        matched_range: None,
        item_idx: idx as u32,
    }
}

/// The matched item produced for snapshot position `idx` from an engine
/// success `r`.
pub open spec fn matched_view<T>(item: Arc<T>, r: crate::MatchResultView, idx: int) -> MatchedItemView<T> {
    MatchedItemView {
        item: item,
        rank: r.rank,
        matched_range: Some(r.matched_range),
        item_idx: idx as u32,
    }
}

/// What a pass over the first `k` snapshot items publishes, in snapshot
/// order.  Disabled mode keeps every visited item with a neutral rank and
/// never consults the engine; otherwise non-matches are dropped and
/// matches carry the engine's rank and range, with `item_idx` recovering
/// the pool-relative position `start + i`.
pub open spec fn pass_views<T: SkimItem, E: MatchEngine<T>>(
    engine: E,
    items: Seq<Arc<T>>,
    start: int,
    disabled: bool,
    k: int,
) -> Seq<MatchedItemView<T>>
    decreases k,
{
    if k <= 0 || k > items.len() {
        Seq::empty()
    } else {
        let prev = pass_views(engine, items, start, disabled, k - 1);
        if disabled {
            prev.push(disabled_view(items[k - 1], start + k - 1))
        } else {
            match engine.spec_match(*items[k - 1]) {
                None => prev,
                Some(r) => prev.push(matched_view(items[k - 1], r, start + k - 1)),
            }
        }
    }
}

/// How many of the first `k` snapshot items the engine matched; disabled
/// mode counts nothing, as the engine is never consulted.
pub open spec fn matched_count<T: SkimItem, E: MatchEngine<T>>(
    engine: E,
    items: Seq<Arc<T>>,
    disabled: bool,
    k: int,
) -> int
    decreases k,
{
    if k <= 0 || k > items.len() {
        0
    } else {
        matched_count(engine, items, disabled, k - 1) + if !disabled && engine.spec_match(
            *items[k - 1],
        ) is Some {
            1int
        } else {
            0int
        }
    }
}

/// One cooperative, cancellable sweep over a pool snapshot.
///
/// Returns the published matches, the number of items visited and the
/// number matched.  The flag is checked before each item, so the result
/// always corresponds to exactly the first `processed` items; without a
/// token the whole snapshot is visited.  `start` is the pool's watermark
/// when the snapshot was taken, carried into each `item_idx`.
pub fn match_pass<T: SkimItem, E: MatchEngine<T>>(
    engine: &E,
    items: &Vec<Arc<T>>,
    start: usize,
    disabled: bool,
    cancel: Option<&CancelToken>,
    progress: &PassProgress,
) -> (r: (Vec<MatchedItem<T>>, usize, usize))
    requires
        start + items@.len() <= u32::MAX,
    ensures
        r.1 <= items@.len(),
        cancel is None ==> r.1 == items@.len(),
        r.0@.map_values(|m: MatchedItem<T>| m@) == pass_views(
            *engine,
            items@,
            start as int,
            disabled,
            r.1 as int,
        ),
        r.2 == matched_count(*engine, items@, disabled, r.1 as int),
{
    let mut out: Vec<MatchedItem<T>> = Vec::new();
    let mut matched: usize = 0;
    let mut i: usize = 0;
    while i < items.len()
        invariant_except_break
            i <= items@.len(),
            start + items@.len() <= u32::MAX,
            matched <= i,
            out@.map_values(|m: MatchedItem<T>| m@) == pass_views(
                *engine,
                items@,
                start as int,
                disabled,
                i as int,
            ),
            matched == matched_count(*engine, items@, disabled, i as int),
        ensures
            i <= items@.len(),
            cancel is None ==> i == items@.len(),
            out@.map_values(|m: MatchedItem<T>| m@) == pass_views(
                *engine,
                items@,
                start as int,
                disabled,
                i as int,
            ),
            matched == matched_count(*engine, items@, disabled, i as int),
        decreases items@.len() - i,
    {
        let stop = match cancel {
            Some(c) => c.is_cancelled(),
            None => false,
        };
        if stop {
            break ;
        }
        progress.note_processed();
        let ghost prev = out@.map_values(|m: MatchedItem<T>| m@);
        let item = &items[i];
        if disabled {
            out.push(
                MatchedItem {
                    item: arc_clone(item),
                    rank: Rank::zero(),
                    matched_range: None,
                    item_idx: (start + i) as u32,
                },
            );
            proof {
                assert(out@.map_values(|m: MatchedItem<T>| m@) =~= prev.push(
                    disabled_view(items@[i as int], start as int + i),
                ));
            }
        } else {
            match engine.match_item(arc_ref(item)) {
                None => {
                },
                Some(res) => {
                    progress.note_matched();
                    matched = matched + 1;
                    out.push(
                        MatchedItem {
                            item: arc_clone(item),
                            rank: res.rank,
                            matched_range: Some(res.matched_range),
                            item_idx: (start + i) as u32,
                        },
                    );
                    proof {
                        assert(out@.map_values(|m: MatchedItem<T>| m@) =~= prev.push(
                            matched_view(
                                items@[i as int],
                                engine.spec_match(*items@[i as int])->0,
                                start as int + i,
                            ),
                        ));
                    }
                },
            }
        }
        i = i + 1;
    }
    (out, i, matched)
}

/// The coordinator's single publication step.  A pass that ran to
/// completion replaces the buffer wholesale — cleared, then filled — so a
/// reader sees either the old complete snapshot or the new one; a
/// cancelled pass leaves the previously published snapshot untouched.
pub fn publish_results<T>(
    buffer: &mut Vec<MatchedItem<T>>,
    results: Vec<MatchedItem<T>>,
    cancelled: bool,
)
    ensures
        cancelled ==> final(buffer)@ == old(buffer)@,
        !cancelled ==> final(buffer)@ == results@,
{
    if !cancelled {
        buffer.clear();
        let mut results = results;
        buffer.append(&mut results);
    }
}

/// Builds one concrete engine per query run from an external factory and a
/// configured case-sensitivity policy.  A new query always builds a new
/// engine; there is no reuse of a running pass.
pub struct Matcher<F> {
    engine_factory: F,
    case_matching: CaseMatching,
}

impl<F> Matcher<F> {
    /// The configured engine factory.
    pub closed spec fn spec_factory(&self) -> F {
        self.engine_factory
    }

    /// The configured case-sensitivity policy.
    pub closed spec fn spec_case_matching(&self) -> CaseMatching {
        self.case_matching
    }

    pub fn builder(engine_factory: F) -> (m: Self)
        ensures
            m.spec_factory() == engine_factory,
            m.spec_case_matching() == CaseMatching::Smart,
    {
        Matcher { engine_factory, case_matching: CaseMatching::Smart }
    }

    pub fn case(self, case_matching: CaseMatching) -> (m: Self)
        ensures
            m.spec_factory() == self.spec_factory(),
            m.spec_case_matching() == case_matching,
    {
        Matcher { case_matching, ..self }
    }

    pub fn build(self) -> (m: Self)
        ensures
            m == self,
    {
        self
    }

    /// The configured case-sensitivity policy.
    pub fn case_matching(&self) -> (c: CaseMatching)
        ensures
            c == self.spec_case_matching(),
    {
        self.case_matching
    }

    /// Builds the engine for one query run.
    pub fn create_engine<T: SkimItem, E: MatchEngine<T>>(&self, query: &str) -> E where
        F: MatchEngineFactory<T, E>,
     {
        self.engine_factory.create_engine_with_case(query, self.case_matching)
    }
}

} // verus!
