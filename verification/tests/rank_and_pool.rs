use std::sync::Arc;

use skim::SkimItem;

use skim::Rank;
use skim::helper::item::DefaultSkimItem;
use skim::item::ItemPool;
use skim::item::RankBuilder;
use skim::item::RankCriteria;
use skim::item::parse_criteria;

fn line(text: &str) -> Arc<DefaultSkimItem> {
    Arc::new(DefaultSkimItem::new(text.to_string(), None, None))
}

fn texts(items: &[Arc<DefaultSkimItem>]) -> Vec<String> {
    items.iter().map(|i| i.text()).collect()
}

#[test]
fn builder_prepends_score_when_absent() {
    let b = RankBuilder::new(vec![RankCriteria::Begin, RankCriteria::Length]);
    // With no score-based criterion, Score becomes the dominant slot.
    let r = b.build_rank(7, 1, 2, 3);
    assert_eq!(r, Rank(-7, 1, 3, 0));
}

#[test]
fn builder_keeps_existing_neg_score() {
    let b = RankBuilder::new(vec![RankCriteria::NegScore, RankCriteria::End]);
    let r = b.build_rank(7, 1, 2, 3);
    assert_eq!(r, Rank(7, 2, 0, 0));
}

#[test]
fn builder_drops_duplicates_and_second_score_kind() {
    let b = RankBuilder::new(vec![
        RankCriteria::Score,
        RankCriteria::Begin,
        RankCriteria::Score,
        RankCriteria::NegScore,
        RankCriteria::Begin,
        RankCriteria::End,
    ]);
    // Normalized to [Score, Begin, End]: slot 3 stays inert.
    let r = b.build_rank(5, 9, 11, 13);
    assert_eq!(r, Rank(-5, 9, 11, 0));
}

#[test]
fn build_rank_score_length_example() {
    let b = RankBuilder::new(vec![RankCriteria::Score, RankCriteria::Length]);
    let r = b.build_rank(5, 0, 3, 10);
    assert_eq!(r, Rank(-5, 10, 0, 0));
}

#[test]
fn build_rank_uses_first_four_criteria() {
    let b = RankBuilder::new(vec![
        RankCriteria::Score,
        RankCriteria::NegBegin,
        RankCriteria::NegEnd,
        RankCriteria::NegLength,
        RankCriteria::Begin,
    ]);
    let r = b.build_rank(1, 2, 3, 4);
    assert_eq!(r, Rank(-1, -2, -3, -4));
}

#[test]
fn default_builder_is_score_begin_end() {
    let b = RankBuilder::default();
    let r = b.build_rank(2, 5, 8, 40);
    assert_eq!(r, Rank(-2, 5, 8, 0));
}

#[test]
fn parse_criteria_known_names() {
    assert_eq!(parse_criteria("score"), Some(RankCriteria::Score));
    assert_eq!(parse_criteria("begin"), Some(RankCriteria::Begin));
    assert_eq!(parse_criteria("end"), Some(RankCriteria::End));
    assert_eq!(parse_criteria("-score"), Some(RankCriteria::NegScore));
    assert_eq!(parse_criteria("-begin"), Some(RankCriteria::NegBegin));
    assert_eq!(parse_criteria("-end"), Some(RankCriteria::NegEnd));
    assert_eq!(parse_criteria("length"), Some(RankCriteria::Length));
    assert_eq!(parse_criteria("-length"), Some(RankCriteria::NegLength));
}

#[test]
fn parse_criteria_ignores_ascii_case() {
    assert_eq!(parse_criteria("SCORE"), Some(RankCriteria::Score));
    assert_eq!(parse_criteria("Begin"), Some(RankCriteria::Begin));
    assert_eq!(parse_criteria("-LenGth"), Some(RankCriteria::NegLength));
}

#[test]
fn parse_criteria_rejects_unknown_names() {
    assert_eq!(parse_criteria(""), None);
    assert_eq!(parse_criteria("scores"), None);
    assert_eq!(parse_criteria("score "), None);
    assert_eq!(parse_criteria("--score"), None);
}

#[test]
fn pool_reserves_header_then_routes_rest() {
    let mut pool: ItemPool<DefaultSkimItem> = ItemPool::new().lines_to_reserve(2);
    let a = line("a");
    let b = line("b");
    let c = line("c");
    let d = line("d");
    assert_eq!(pool.append(vec![a, b, c]), 3);
    assert_eq!(pool.append(vec![d]), 4);
    assert_eq!(pool.len(), 4);

    let reserved = pool.reserved();
    assert_eq!(texts(&reserved.items), vec!["a", "b"]);

    let taken = pool.take();
    assert_eq!(taken.start, 0);
    assert_eq!(texts(&taken.items), vec!["c", "d"]);

    // The watermark indexes the matchable sequence, so after a full take
    // nothing is left to deliver even though len() also counts the header.
    assert_eq!(pool.num_taken(), 2);
    assert_eq!(pool.num_not_taken(), 0);
    assert_eq!(pool.len(), 4);

    // Until another append or a reset, a second take is empty.
    let again = pool.take();
    assert!(again.items.is_empty());
    assert_eq!(again.start, 2);
    assert_eq!(pool.num_not_taken(), 0);
}

#[test]
fn pool_reset_redelivers_everything() {
    let mut pool: ItemPool<DefaultSkimItem> = ItemPool::new();
    pool.append(vec![line("x"), line("y")]);
    let first = pool.take();
    assert_eq!(texts(&first.items), vec!["x", "y"]);

    pool.reset();
    assert_eq!(pool.len(), 2);
    assert_eq!(pool.num_taken(), 0);
    let second = pool.take();
    assert_eq!(second.start, 0);
    assert_eq!(texts(&second.items), vec!["x", "y"]);
    assert_eq!(pool.len(), 2);
}

#[test]
fn pool_take_starts_at_watermark() {
    let mut pool: ItemPool<DefaultSkimItem> = ItemPool::new();
    pool.append(vec![line("x"), line("y")]);
    let _ = pool.take();
    pool.append(vec![line("z")]);
    assert_eq!(pool.num_taken(), 2);
    assert_eq!(pool.num_not_taken(), 1);
    let more = pool.take();
    assert_eq!(more.start, 2);
    assert_eq!(texts(&more.items), vec!["z"]);
    assert_eq!(pool.num_not_taken(), 0);
}

#[test]
fn pool_clear_discards_all() {
    let mut pool: ItemPool<DefaultSkimItem> = ItemPool::new().lines_to_reserve(1);
    pool.append(vec![line("x"), line("y")]);
    pool.clear();
    assert_eq!(pool.len(), 0);
    assert_eq!(pool.num_taken(), 0);
    assert!(pool.take().items.is_empty());
    assert!(pool.reserved().items.is_empty());
    // The header quota applies afresh to the next input source.
    pool.append(vec![line("z")]);
    assert_eq!(texts(&pool.reserved().items), vec!["z"]);
}

#[test]
fn default_item_output_prefers_original_text() {
    let plain = DefaultSkimItem::new("shown".to_string(), None, None);
    assert_eq!(plain.text(), "shown");
    assert_eq!(plain.output(), "shown");
    assert_eq!(plain.get_matching_ranges(), None);

    let transformed = DefaultSkimItem::new(
        "shown".to_string(),
        Some("original".to_string()),
        Some(vec![(0, 2)]),
    );
    assert_eq!(transformed.text(), "shown");
    assert_eq!(transformed.output(), "original");
    assert_eq!(transformed.get_matching_ranges(), Some(vec![(0, 2)]));
}

#[test]
fn builder_with_no_criteria_scores_by_default() {
    let b = RankBuilder::new(vec![]);
    let r = b.build_rank(3, 1, 2, 4);
    assert_eq!(r, Rank(-3, 0, 0, 0));
}

#[test]
fn build_rank_handles_extreme_signals() {
    let b = RankBuilder::new(vec![RankCriteria::Score, RankCriteria::Begin]);
    let r = b.build_rank(i32::MAX, i32::MAX as usize, 0, 0);
    assert_eq!(r, Rank(-i32::MAX, i32::MAX, 0, 0));
}
