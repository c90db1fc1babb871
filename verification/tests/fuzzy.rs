use notion_tui::fuzzy::{subsequence_rank, subsequence_score};

#[test]
fn empty_query_matches_everything_with_zero_score() {
    assert_eq!(subsequence_score("", "anything"), Some(0));
}

#[test]
fn non_subsequence_is_none() {
    assert_eq!(subsequence_score("xyz", "queue"), None);
}

#[test]
fn out_of_order_subsequence_is_none() {
    assert_eq!(subsequence_score("eq", "queue"), None);
}

#[test]
fn scattered_subsequence_matches() {
    assert!(subsequence_score("qee", "queue").is_some());
}

#[test]
fn contiguous_prefix_match_scores_higher_than_scattered_match() {
    let contiguous = subsequence_score("que", "queue").unwrap();
    let scattered = subsequence_score("que", "q_u_e_ntity").unwrap();
    assert!(contiguous > scattered, "{contiguous} should beat {scattered}");
}

#[test]
fn rank_filters_non_matches_and_orders_by_score() {
    let items = vec![
        ("no-match", "zzz".to_string()),
        ("scattered", "q_u_e".to_string()),
        ("exact-prefix", "queue".to_string()),
    ];
    let ranked = subsequence_rank("que", items);
    assert_eq!(ranked, vec!["exact-prefix", "scattered"]);
}

#[test]
fn score_formula_exact_values() {
    // q(0): 10 + 20, u(1): 10 + 15, e(2): 10 + 15
    assert_eq!(subsequence_score("que", "queue"), Some(80));
    // q(0): 30, u(2): 10, e(4): 10
    assert_eq!(subsequence_score("que", "q_u_e_ntity"), Some(50));
    // case-insensitive on both sides
    assert_eq!(subsequence_score("QUE", "Queue"), Some(80));
}

#[test]
fn rank_ties_keep_input_order() {
    let items = vec![
        (1, "ab".to_string()),
        (2, "xa".to_string()),
        (3, "ab".to_string()),
    ];
    assert_eq!(subsequence_rank("a", items), vec![1, 3, 2]);
}

#[test]
fn empty_query_ranks_every_item_in_input_order() {
    let items = vec![(1, "zeta".to_string()), (2, "Alpha".to_string()), (3, "".to_string()), (4, "mu".to_string())];
    assert_eq!(subsequence_rank("", items), vec![1, 2, 3, 4]);
}
