use firefam::mention::fuzzy_match;
use firefam::mention::match_mention_item;
use firefam::mention::sort_mention_matches;
use firefam::mention::MentionItem;
use firefam::mention::MentionMatch;

fn mention(display_name: &str, terms: &[&str], sort_rank: u8) -> MentionItem {
    MentionItem {
        display_name: display_name.to_string(),
        description: None,
        insert_text: format!("${display_name}"),
        search_terms: terms.iter().map(|t| t.to_string()).collect(),
        path: None,
        category_tag: None,
        sort_rank,
    }
}

#[test]
fn fuzzy_match_ascii_indices_and_score() {
    assert_eq!(fuzzy_match("hello", "hl"), Some((vec![0, 2], -99)));
}

#[test]
fn fuzzy_match_contiguous_prefix_scores_best() {
    assert_eq!(fuzzy_match("abc", "abc"), Some((vec![0, 1, 2], -100)));
}

#[test]
fn fuzzy_match_inner_window_has_no_prefix_bonus() {
    assert_eq!(fuzzy_match("abcdef", "bd"), Some((vec![1, 3], 1)));
}

#[test]
fn fuzzy_match_ignores_case_of_haystack() {
    assert_eq!(fuzzy_match("FooBar", "fb"), Some((vec![0, 3], -98)));
}

#[test]
fn fuzzy_match_ignores_case_of_needle() {
    assert_eq!(fuzzy_match("hello", "HL"), Some((vec![0, 2], -99)));
}

#[test]
fn fuzzy_match_maps_expanded_lowercase_back_to_haystack_chars() {
    assert_eq!(fuzzy_match("İstanbul", "is"), Some((vec![0, 1], -99)));
}

#[test]
fn fuzzy_match_missing_char_fails() {
    assert_eq!(fuzzy_match("abc", "abd"), None);
    assert_eq!(fuzzy_match("abc", "cb"), None);
}

#[test]
fn fuzzy_match_empty_needle_matches_with_worst_score() {
    assert_eq!(fuzzy_match("abc", ""), Some((Vec::new(), i32::MAX)));
}

#[test]
fn mention_matches_empty_filter_with_zero_score() {
    let m = mention("Alpha", &["alpha"], 1);
    assert_eq!(match_mention_item(&m, ""), Some((None, 0)));
}

#[test]
fn mention_matches_display_name_with_indices() {
    let m = mention("Alpha", &["alpha"], 1);
    assert_eq!(match_mention_item(&m, "al"), Some((Some(vec![0, 1]), -100)));
}

#[test]
fn mention_falls_back_to_search_terms_without_indices() {
    let m = mention("Calendar", &["Calendar", "gcal-sync"], 1);
    assert_eq!(match_mention_item(&m, "sc"), Some((None, 2)));
}

#[test]
fn mention_without_any_match_is_none() {
    let m = mention("Calendar", &["Calendar"], 1);
    assert_eq!(match_mention_item(&m, "zz"), None);
}

#[test]
fn sort_orders_by_score_then_rank_then_name() {
    let mentions = vec![
        mention("Zed", &[], 1),
        mention("Alpha", &[], 1),
        mention("Beta", &[], 0),
    ];
    let mut matches: Vec<MentionMatch> = vec![(0, None, 5), (1, None, 5), (2, None, 7)];
    sort_mention_matches(&mut matches, &mentions, "x");
    let order: Vec<usize> = matches.iter().map(|m| m.0).collect();
    assert_eq!(order, vec![1, 0, 2]);
}

#[test]
fn sort_without_filter_ignores_score() {
    let mentions = vec![
        mention("Zed", &[], 1),
        mention("Alpha", &[], 1),
        mention("Beta", &[], 0),
    ];
    let mut matches: Vec<MentionMatch> = vec![(0, None, 0), (1, None, 9), (2, None, 3)];
    sort_mention_matches(&mut matches, &mentions, "");
    let order: Vec<usize> = matches.iter().map(|m| m.0).collect();
    assert_eq!(order, vec![2, 1, 0]);
}
