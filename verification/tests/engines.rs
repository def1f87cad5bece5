use skim::MatchEngine;
use skim::MatchRange;
use skim::MatchResult;
use skim::MatchResultView;
use skim::Rank;
use skim::SkimItem;
use skim::engine::andor::AndEngine;
use skim::engine::andor::EngineNode;
use skim::engine::andor::OrEngine;
use skim::helper::item::DefaultSkimItem;

use vstd::prelude::Seq;

/// A primitive engine for tests: substring search, a fixed
/// character-index answer, or a guaranteed miss.
enum TestEngine {
    Substr(String, Rank),
    Chars(Vec<usize>, Rank),
    Never,
}

impl MatchEngine<DefaultSkimItem> for TestEngine {
    // Specification-level members of the verified trait; never called at
    // runtime.
    fn spec_match(&self, _item: DefaultSkimItem) -> Option<MatchResultView> {
        None
    }

    fn spec_description(&self) -> Seq<char> {
        unreachable!()
    }

    fn match_item(&self, item: &DefaultSkimItem) -> Option<MatchResult> {
        match self {
            TestEngine::Substr(needle, rank) => {
                let text = item.text();
                text.find(needle.as_str()).map(|pos| MatchResult {
                    rank: *rank,
                    matched_range: MatchRange::ByteRange(pos, pos + needle.len()),
                })
            }
            TestEngine::Chars(indices, rank) => Some(MatchResult {
                rank: *rank,
                matched_range: MatchRange::Chars(indices.clone()),
            }),
            TestEngine::Never => None,
        }
    }

    fn description(&self) -> String {
        match self {
            TestEngine::Substr(needle, _) => format!("substr({})", needle),
            TestEngine::Chars(_, _) => "chars".to_string(),
            TestEngine::Never => "never".to_string(),
        }
    }
}

fn item(text: &str) -> DefaultSkimItem {
    DefaultSkimItem::new(text.to_string(), None, None)
}

fn substr(needle: &str, rank: Rank) -> EngineNode<TestEngine> {
    EngineNode::Primitive(TestEngine::Substr(needle.to_string(), rank))
}

fn chars(indices: &[usize], rank: Rank) -> EngineNode<TestEngine> {
    EngineNode::Primitive(TestEngine::Chars(indices.to_vec(), rank))
}

fn never() -> EngineNode<TestEngine> {
    EngineNode::Primitive(TestEngine::Never)
}

#[test]
fn byte_range_translates_to_char_indices() {
    // "αβcd": α is bytes 0..2, β is bytes 2..4, c is byte 4, d is byte 5.
    let r = MatchResult { rank: Rank::zero(), matched_range: MatchRange::ByteRange(2, 5) };
    assert_eq!(r.range_char_indices("αβcd"), vec![1, 2]);
    let whole = MatchResult { rank: Rank::zero(), matched_range: MatchRange::ByteRange(0, 6) };
    assert_eq!(whole.range_char_indices("αβcd"), vec![0, 1, 2, 3]);
}

#[test]
fn char_range_passes_through_unchanged() {
    let r = MatchResult { rank: Rank::zero(), matched_range: MatchRange::Chars(vec![3, 1]) };
    assert_eq!(r.range_char_indices("abcd"), vec![3, 1]);
}

#[test]
fn or_returns_first_successful_engine() {
    let r1 = Rank(-5, 0, 0, 0);
    let r2 = Rank(-9, 0, 0, 0);
    let both = OrEngine::builder().engines(vec![substr("a", r1), substr("a", r2)]).build();
    let hit = both.match_item(&item("abc")).expect("first engine matches");
    assert_eq!(hit.rank, r1);
    assert_eq!(hit.matched_range, MatchRange::ByteRange(0, 1));

    let second = OrEngine::builder().engines(vec![never(), substr("b", r2)]).build();
    let hit = second.match_item(&item("abc")).expect("second engine matches");
    assert_eq!(hit.rank, r2);
    assert_eq!(hit.matched_range, MatchRange::ByteRange(1, 2));
}

#[test]
fn or_without_any_match_returns_none() {
    let none = OrEngine::builder().engines(vec![never(), substr("z", Rank::zero())]).build();
    assert!(none.match_item(&item("abc")).is_none());
    let empty: OrEngine<TestEngine> = OrEngine::builder().build();
    assert!(empty.match_item(&item("abc")).is_none());
}

#[test]
fn and_misses_when_any_engine_misses() {
    let a = AndEngine::builder().engines(vec![substr("a", Rank::zero()), never()]).build();
    assert!(a.match_item(&item("abc")).is_none());
    let b = AndEngine::builder().engines(vec![never(), substr("a", Rank::zero())]).build();
    assert!(b.match_item(&item("abc")).is_none());
    let empty: AndEngine<TestEngine> = AndEngine::builder().build();
    assert!(empty.match_item(&item("abc")).is_none());
}

#[test]
fn and_merges_ranges_sorted_and_deduplicated() {
    let r1 = Rank(-7, 0, 0, 0);
    let r2 = Rank(-1, 0, 0, 0);
    // On "αβcd", "c" is bytes 4..5, i.e. character 2.
    let a = AndEngine::builder()
        .engines(vec![substr("c", r1), chars(&[3, 1, 3], r2)])
        .build();
    let hit = a.match_item(&item("αβcd")).expect("both engines match");
    // The rank is the first sub-engine's; the range is the ascending,
    // deduplicated union in explicit character-index form.
    assert_eq!(hit.rank, r1);
    assert_eq!(hit.matched_range, MatchRange::Chars(vec![1, 2, 3]));
}

#[test]
fn and_normalizes_byte_ranges_of_multibyte_text() {
    let a = AndEngine::builder()
        .engines(vec![substr("αβ", Rank::zero()), substr("βc", Rank::zero())])
        .build();
    let hit = a.match_item(&item("αβcd")).expect("both substrings occur");
    assert_eq!(hit.matched_range, MatchRange::Chars(vec![0, 1, 2]));
}

#[test]
fn combinators_nest() {
    let inner = AndEngine::builder()
        .engines(vec![substr("b", Rank(-2, 0, 0, 0)), substr("c", Rank(-3, 0, 0, 0))])
        .build();
    let outer = OrEngine::builder()
        .engines(vec![never(), EngineNode::And(inner)])
        .build();
    let hit = outer.match_item(&item("abc")).expect("inner and matches");
    assert_eq!(hit.rank, Rank(-2, 0, 0, 0));
    assert_eq!(hit.matched_range, MatchRange::Chars(vec![1, 2]));
}

#[test]
fn descriptions_enumerate_sub_engines() {
    let inner = AndEngine::builder()
        .engines(vec![substr("x", Rank::zero()), never()])
        .build();
    let outer = OrEngine::builder()
        .engines(vec![chars(&[], Rank::zero()), EngineNode::And(inner)])
        .build();
    assert_eq!(outer.description(), "(Or: chars, (And: substr(x), never))");
    let empty: AndEngine<TestEngine> = AndEngine::builder().build();
    assert_eq!(empty.description(), "(And: )");
}
