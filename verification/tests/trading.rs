use ftx_bot::calculations::{LogDiffError, ZscoreError};
use ftx_bot::pairs::{after_pair_attempt, candidate_pairs, cointegrated_pairs, pair_id, PairListStep};
use ftx_bot::text::split_on_slash;
use ftx_bot::trading::{
    decide, is_used, needs_pairs_refresh, pair_in_use, should_stop, usd_balance_index, PairDecision, PositionBook,
    MAX_POS,
};

fn names(v: &[&str]) -> Vec<String> {
    v.iter().map(|s| s.to_string()).collect()
}

fn pair(a: &str, b: &str) -> [String; 2] {
    [a.to_string(), b.to_string()]
}

#[test]
fn pair_id_joins_names() {
    assert_eq!(pair_id("ETH-PERP", "BTC-PERP"), "ETH-PERP/BTC-PERP");
}

#[test]
fn candidates_of_distinct_names() {
    let list = names(&["A", "B", "C"]);
    assert_eq!(candidate_pairs(&list), vec![pair("A", "B"), pair("A", "C"), pair("B", "C")]);
}

#[test]
fn candidates_with_repeated_name() {
    let list = names(&["A", "B", "A"]);
    assert_eq!(candidate_pairs(&list), vec![pair("A", "B"), pair("A", "B")]);
}

#[test]
fn candidates_of_short_lists() {
    assert!(candidate_pairs(&names(&[])).is_empty());
    assert!(candidate_pairs(&names(&["A"])).is_empty());
    assert!(candidate_pairs(&names(&["A", "A"])).is_empty());
}

#[test]
fn candidates_count_of_four_names() {
    let list = names(&["A", "B", "C", "D"]);
    assert_eq!(candidate_pairs(&list).len(), 6);
}

#[test]
fn cointegrated_selection() {
    let cands = vec![pair("A", "B"), pair("A", "C"), pair("B", "C")];
    let (kept, used) = cointegrated_pairs(&cands, &vec![true, false, true]);
    assert_eq!(kept, vec![pair("A", "B"), pair("B", "C")]);
    assert_eq!(used, names(&["A", "B", "C"]));
}

#[test]
fn cointegrated_selection_none() {
    let cands = vec![pair("A", "B")];
    let (kept, used) = cointegrated_pairs(&cands, &vec![false]);
    assert!(kept.is_empty());
    assert!(used.is_empty());
}

#[test]
fn used_names_in_first_occurrence_order() {
    let cands = vec![pair("C", "A"), pair("A", "B")];
    let (_, used) = cointegrated_pairs(&cands, &vec![true, true]);
    assert_eq!(used, names(&["C", "A", "B"]));
}

#[test]
fn is_used_matches_substrings() {
    let open = names(&["ETH-PERP/BTC-PERP"]);
    assert!(is_used("BTC-PERP", &open));
    assert!(is_used("ETH", &open));
    assert!(!is_used("SOL-PERP", &open));
    assert!(!is_used("BTC-PERP", &names(&[])));
}

#[test]
fn pair_in_use_checks_each_name() {
    let open = names(&["ETH-PERP/BTC-PERP"]);
    assert!(pair_in_use("SOL-PERP/BTC-PERP", &open));
    assert!(pair_in_use("ETH-PERP/SOL-PERP", &open));
    assert!(!pair_in_use("SOL-PERP/ADA-PERP", &open));
}

#[test]
fn refresh_after_a_day() {
    assert!(!needs_pairs_refresh(1_000, 1_000));
    assert!(!needs_pairs_refresh(86_399_999, 0));
    assert!(needs_pairs_refresh(86_400_000, 0));
}

#[test]
fn stop_only_without_positions() {
    assert!(should_stop(true, 0));
    assert!(!should_stop(true, 1));
    assert!(!should_stop(false, 0));
}

#[test]
fn decisions_on_open_positions() {
    assert_eq!(decide(true, false, true, false, false, 1), PairDecision::Close);
    assert_eq!(decide(true, true, false, false, false, 1), PairDecision::Close);
    assert_eq!(decide(true, false, false, true, false, 1), PairDecision::Hold);
}

#[test]
fn decisions_without_position() {
    assert_eq!(decide(false, false, false, true, true, 0), PairDecision::SymbolInUse);
    assert_eq!(decide(false, false, false, true, false, 0), PairDecision::Open);
    assert_eq!(decide(false, false, false, true, false, MAX_POS), PairDecision::Wait);
    assert_eq!(decide(false, true, false, true, false, 0), PairDecision::Wait);
    assert_eq!(decide(false, false, true, false, false, 0), PairDecision::Wait);
}

#[test]
fn usd_entry_is_last_usd_coin() {
    assert_eq!(usd_balance_index(&names(&["BTC", "USD", "ETH"])), Some(1));
    assert_eq!(usd_balance_index(&names(&["USD", "BTC", "USD"])), Some(2));
    assert_eq!(usd_balance_index(&names(&["BTC", "usd"])), None);
    assert_eq!(usd_balance_index(&names(&[])), None);
}

#[test]
fn error_messages() {
    assert_eq!(ZscoreError.message(), "Error computing zscore");
    assert_eq!(
        LogDiffError.message(),
        "Error computing the log diff of the 2 vec, make sure both Vec are the same size"
    );
}

#[test]
fn pair_id_splits_back_into_names() {
    let id = pair_id("ETH-PERP", "BTC-PERP");
    let chars = |s: &str| s.chars().collect::<Vec<char>>();
    assert_eq!(split_on_slash(&id), vec![chars("ETH-PERP"), chars("BTC-PERP")]);
}

#[test]
fn candidates_never_hold_a_pair_and_its_reverse() {
    let list = names(&["A", "B", "C", "B", "D", "A"]);
    let cands = candidate_pairs(&list);
    for p in &cands {
        assert_ne!(p[0], p[1]);
        assert!(list.contains(&p[0]) && list.contains(&p[1]));
        assert!(!cands.contains(&pair(&p[1], &p[0])));
    }
    for a in &list {
        for b in &list {
            if a != b {
                assert!(cands.contains(&pair(a, b)) || cands.contains(&pair(b, a)));
            }
        }
    }
}

#[test]
fn kept_pairs_are_the_flagged_candidates() {
    let cands = vec![pair("A", "B"), pair("C", "D"), pair("A", "C"), pair("B", "D")];
    let flags = vec![false, true, true, false];
    let (kept, used) = cointegrated_pairs(&cands, &flags);
    assert_eq!(kept, vec![pair("C", "D"), pair("A", "C")]);
    assert_eq!(used, names(&["C", "D", "A"]));
}

#[test]
fn decisions_respect_the_position_limit_and_stop() {
    for bits in 0u32..32 {
        let in_position = bits & 1 != 0;
        let stop = bits & 2 != 0;
        let exit = bits & 4 != 0;
        let entry = bits & 8 != 0;
        let in_use = bits & 16 != 0;
        for open in 0..=MAX_POS {
            if in_position && open == 0 {
                continue;
            }
            let d = decide(in_position, stop, exit, entry, in_use, open);
            if d == PairDecision::Open {
                assert!(!stop && !in_position && !in_use && open < MAX_POS);
            }
            if stop && in_position {
                assert_eq!(d, PairDecision::Close);
            }
        }
    }
}

#[test]
fn position_book_opens_and_closes() {
    use_book();
}

fn use_book() {
    let mut book: PositionBook<u32> = PositionBook::new();
    assert_eq!(book.len(), 0);
    book.open("A/B", 1);
    book.open("C/D", 2);
    assert_eq!(book.len(), 2);
    assert!(book.contains("A/B"));
    assert!(!book.contains("A/C"));
    assert_eq!(book.get("C/D"), Some(&2));
    assert_eq!(book.get("X/Y"), None);
    assert_eq!(book.ids_vec(), names(&["A/B", "C/D"]));
    assert_eq!(book.close("A/B"), Some(1));
    assert_eq!(book.close("A/B"), None);
    assert_eq!(book.ids_vec(), names(&["C/D"]));
    assert!(is_used("C", &book.ids_vec()));
}

#[test]
fn position_book_holds_at_most_max_pos() {
    let mut book: PositionBook<u32> = PositionBook::new();
    let ids = ["A/B", "C/D", "E/F", "G/H"];
    for (k, id) in ids.iter().enumerate() {
        let d = decide(book.contains(id), false, false, true, false, book.len());
        if d == PairDecision::Open {
            book.open(id, k as u32);
        }
        assert!(book.len() <= MAX_POS);
    }
    assert_eq!(book.len(), MAX_POS);
}

#[test]
fn pair_list_retries_then_moves_on() {
    assert_eq!(after_pair_attempt(3, false), PairListStep { next_index: 3, pause_ms: 20 });
    assert_eq!(after_pair_attempt(3, true), PairListStep { next_index: 4, pause_ms: 40 });
}
