use std::sync::Arc;

use skim::SkimItem;

use skim::CaseMatching;
use skim::MatchEngine;
use skim::MatchEngineFactory;
use skim::MatchRange;
use skim::MatchResult;
use skim::MatchResultView;
use skim::Rank;
use skim::engine::andor::EngineNode;
use skim::helper::item::DefaultSkimItem;
use skim::item::ItemPool;
use skim::item::MatchedItem;
use skim::matcher::CancelToken;
use skim::matcher::Matcher;
use skim::matcher::PassProgress;
use skim::matcher::match_pass;
use skim::matcher::publish_results;

use vstd::prelude::Seq;

/// Substring engine whose rank is the match's byte position.
struct Substr(String);

impl MatchEngine<DefaultSkimItem> for Substr {
    // Specification-level members of the verified trait; never called at
    // runtime.
    fn spec_match(&self, _item: DefaultSkimItem) -> Option<MatchResultView> {
        None
    }

    fn spec_description(&self) -> Seq<char> {
        unreachable!()
    }

    fn match_item(&self, item: &DefaultSkimItem) -> Option<MatchResult> {
        let text = item.text();
        text.find(self.0.as_str()).map(|pos| MatchResult {
            rank: Rank(pos as i32, 0, 0, 0),
            matched_range: MatchRange::ByteRange(pos, pos + self.0.len()),
        })
    }

    fn description(&self) -> String {
        format!("substr({})", self.0)
    }
}

struct SubstrFactory;

impl MatchEngineFactory<DefaultSkimItem, EngineNode<Substr>> for SubstrFactory {
    fn create_engine_with_case(
        &self,
        query: &str,
        _case: CaseMatching,
    ) -> EngineNode<Substr> {
        EngineNode::Primitive(Substr(query.to_string()))
    }
}

fn pool_of(lines: &[&str]) -> ItemPool<DefaultSkimItem> {
    let mut pool = ItemPool::new();
    pool.append(
        lines
            .iter()
            .map(|l| Arc::new(DefaultSkimItem::new(l.to_string(), None, None)))
            .collect(),
    );
    pool
}

#[test]
fn disabled_pass_keeps_everything_unranked() {
    let mut pool = pool_of(&["one", "two", "three"]);
    let snapshot = pool.take();
    let engine = EngineNode::Primitive(Substr("o".to_string()));
    let progress = PassProgress::new();
    let token = CancelToken::new();
    let (results, processed, matched) = match_pass(
        &engine,
        &snapshot.items,
        snapshot.start,
        true,
        Some(&token),
        &progress,
    );
    assert_eq!(processed, 3);
    assert_eq!(matched, 0);
    assert_eq!(progress.num_processed(), 3);
    assert_eq!(progress.num_matched(), 0);
    assert_eq!(results.len(), 3);
    for (i, m) in results.iter().enumerate() {
        assert_eq!(m.rank, Rank(0, 0, 0, 0));
        assert!(m.matched_range.is_none());
        assert_eq!(m.item_idx, i as u32);
    }
}

#[test]
fn ranked_pass_drops_non_matches_and_keeps_stream_order() {
    let mut pool = pool_of(&["ab", "zz", "bb"]);
    let snapshot = pool.take();
    let engine = EngineNode::Primitive(Substr("b".to_string()));
    let progress = PassProgress::new();
    let (results, processed, matched) = match_pass(
        &engine,
        &snapshot.items,
        snapshot.start,
        false,
        None,
        &progress,
    );
    assert_eq!(processed, 3);
    assert_eq!(matched, 2);
    assert_eq!(results.len(), 2);
    assert_eq!(results[0].item_idx, 0);
    assert_eq!(results[0].rank, Rank(1, 0, 0, 0));
    assert_eq!(results[0].matched_range, Some(MatchRange::ByteRange(1, 2)));
    assert_eq!(results[1].item_idx, 2);
    assert_eq!(results[1].rank, Rank(0, 0, 0, 0));
}

#[test]
fn pass_offsets_item_idx_by_the_watermark() {
    let mut pool = pool_of(&["ab", "zz"]);
    let _ = pool.take();
    pool.append(vec![Arc::new(DefaultSkimItem::new("b".to_string(), None, None))]);
    let snapshot = pool.take();
    assert_eq!(snapshot.start, 2);
    let engine = EngineNode::Primitive(Substr("b".to_string()));
    let progress = PassProgress::new();
    let (results, processed, _) = match_pass(
        &engine,
        &snapshot.items,
        snapshot.start,
        false,
        None,
        &progress,
    );
    assert_eq!(processed, 1);
    assert_eq!(results.len(), 1);
    assert_eq!(results[0].item_idx, 2);
}

#[test]
fn cancelled_pass_visits_nothing_and_keeps_previous_results() {
    let mut pool = pool_of(&["one", "two", "three"]);
    let snapshot = pool.take();
    let engine = EngineNode::Primitive(Substr("o".to_string()));
    let progress = PassProgress::new();
    let token = CancelToken::new();
    token.cancel();
    let (results, processed, matched) = match_pass(
        &engine,
        &snapshot.items,
        snapshot.start,
        false,
        Some(&token),
        &progress,
    );
    assert_eq!(processed, 0);
    assert_eq!(matched, 0);
    assert!(results.is_empty());

    // The previously published buffer survives a cancelled pass
    // untouched.
    let mut buffer: Vec<MatchedItem<DefaultSkimItem>> = vec![MatchedItem {
        item: Arc::new(DefaultSkimItem::new("old".to_string(), None, None)),
        rank: Rank(4, 0, 0, 0),
        matched_range: None,
        item_idx: 7,
    }];
    publish_results(&mut buffer, results, token.is_cancelled());
    assert_eq!(buffer.len(), 1);
    assert_eq!(buffer[0].rank, Rank(4, 0, 0, 0));
    assert_eq!(buffer[0].item_idx, 7);
}

#[test]
fn finished_pass_replaces_the_buffer_wholesale() {
    let mut buffer: Vec<MatchedItem<DefaultSkimItem>> = vec![MatchedItem {
        item: Arc::new(DefaultSkimItem::new("old".to_string(), None, None)),
        rank: Rank(4, 0, 0, 0),
        matched_range: None,
        item_idx: 7,
    }];
    let fresh = vec![MatchedItem {
        item: Arc::new(DefaultSkimItem::new("new".to_string(), None, None)),
        rank: Rank(1, 0, 0, 0),
        matched_range: None,
        item_idx: 0,
    }];
    publish_results(&mut buffer, fresh, false);
    assert_eq!(buffer.len(), 1);
    assert_eq!(buffer[0].rank, Rank(1, 0, 0, 0));
    assert_eq!(buffer[0].item_idx, 0);
}

#[test]
fn matcher_builder_carries_case_policy_into_engines() {
    let matcher = Matcher::builder(SubstrFactory).build();
    assert_eq!(matcher.case_matching(), CaseMatching::Smart);
    let matcher = Matcher::builder(SubstrFactory).case(CaseMatching::Respect).build();
    assert_eq!(matcher.case_matching(), CaseMatching::Respect);

    let engine: EngineNode<Substr> = matcher.create_engine("two");
    let mut pool = pool_of(&["one", "two"]);
    let snapshot = pool.take();
    let progress = PassProgress::new();
    let (results, _, matched) = match_pass(
        &engine,
        &snapshot.items,
        snapshot.start,
        false,
        None,
        &progress,
    );
    assert_eq!(matched, 1);
    assert_eq!(results[0].item_idx, 1);
}

#[test]
fn matched_items_compare_by_rank_alone() {
    let a = MatchedItem {
        item: Arc::new(DefaultSkimItem::new("a".to_string(), None, None)),
        rank: Rank(0, 5, 0, 0),
        matched_range: None,
        item_idx: 0,
    };
    let b = MatchedItem {
        item: Arc::new(DefaultSkimItem::new("b".to_string(), None, None)),
        rank: Rank(0, 7, -1, 0),
        matched_range: Some(MatchRange::Chars(vec![1])),
        item_idx: 9,
    };
    let c = MatchedItem {
        item: Arc::new(DefaultSkimItem::new("c".to_string(), None, None)),
        rank: Rank(0, 5, 0, 0),
        matched_range: None,
        item_idx: 3,
    };
    assert!(a < b);
    assert!(b > a);
    assert_eq!(a, c);
    assert_ne!(a, b);
    assert_eq!(a.partial_cmp(&b), Some(std::cmp::Ordering::Less));
    assert_eq!(a.partial_cmp(&c), Some(std::cmp::Ordering::Equal));

    let mut items = vec![b, a, c];
    items.sort_by(|x, y| x.partial_cmp(y).unwrap());
    assert_eq!(items[0].rank, Rank(0, 5, 0, 0));
    assert_eq!(items[2].rank, Rank(0, 7, -1, 0));
}
