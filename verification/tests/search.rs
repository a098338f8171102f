use chomp::search::{rank, score_names, search_names, MATCH_LIMIT, SEARCH_LIMIT};
use fuzzy_matcher::skim::SkimMatcherV2;
use fuzzy_matcher::FuzzyMatcher;

fn names(list: &[&str]) -> Vec<String> {
    list.iter().map(|s| s.to_string()).collect()
}

/// What a stable sort by falling score keeps, cut to the limit.
fn sorted(scores: &[Option<i64>]) -> Vec<usize> {
    let mut scored: Vec<(i64, usize)> =
        scores.iter().enumerate().filter_map(|(i, s)| s.map(|s| (s, i))).collect();
    scored.sort_by(|a, b| b.0.cmp(&a.0));
    scored.into_iter().map(|(_, i)| i).take(SEARCH_LIMIT).collect()
}

#[test]
fn the_best_score_comes_first() {
    assert_eq!(rank(&vec![Some(1), None, Some(5)]), vec![2, 0]);
    assert_eq!(rank(&vec![Some(3), Some(9), Some(-4), Some(7)]), vec![1, 3, 0, 2]);
    assert_eq!(rank(&vec![None, None]), Vec::<usize>::new());
    assert_eq!(rank(&vec![]), Vec::<usize>::new());
}

#[test]
fn equal_scores_keep_their_order() {
    assert_eq!(rank(&vec![Some(5), Some(5), Some(5)]), vec![0, 1, 2]);
    assert_eq!(rank(&vec![Some(1), Some(5), None, Some(1), Some(5)]), vec![1, 4, 0, 3]);
}

#[test]
fn no_more_than_ten_are_ranked() {
    let scores: Vec<Option<i64>> = (0..25).map(|i| Some((i * 7) % 11)).collect();
    let ranking = rank(&scores);
    assert_eq!(ranking.len(), SEARCH_LIMIT);
    assert_eq!(ranking, sorted(&scores));
    let rising: Vec<Option<i64>> = (0..12).map(Some).collect();
    assert_eq!(rank(&rising), vec![11, 10, 9, 8, 7, 6, 5, 4, 3, 2]);
    let falling: Vec<Option<i64>> = (0..12).rev().map(Some).collect();
    assert_eq!(rank(&falling), vec![0, 1, 2, 3, 4, 5, 6, 7, 8, 9]);
    let level: Vec<Option<i64>> = (0..12).map(|_| Some(4)).collect();
    assert_eq!(rank(&level), vec![0, 1, 2, 3, 4, 5, 6, 7, 8, 9]);
}

#[test]
fn ranking_is_a_stable_sort_cut_short() {
    let mut state: u64 = 12345;
    for round in 0..200 {
        let len = round % 23;
        let mut scores = Vec::new();
        for _ in 0..len {
            state = state.wrapping_mul(6364136223846793005).wrapping_add(1442695040888963407);
            let draw = (state >> 33) % 9;
            scores.push(if draw == 0 { None } else { Some(draw as i64 - 4) });
        }
        assert_eq!(rank(&scores), sorted(&scores), "{:?}", scores);
    }
}

#[test]
fn names_are_scored_by_the_matcher() {
    let matcher = SkimMatcherV2::default();
    let list = names(&["ribeye", "rice", "salmon", "brown rice", "Ribs"]);
    let scores = score_names(&list, "ri").unwrap();
    let expected: Vec<Option<i64>> =
        list.iter().map(|n| matcher.fuzzy_match(&n.to_lowercase(), "ri")).collect();
    assert_eq!(scores, expected);
    assert!(scores[0].is_some());
    assert!(scores[1].is_some());
    assert_eq!(scores[2], None);
    assert!(scores[3].is_some());
    assert!(scores[4].is_some());
    assert_ne!(scores[0], scores[3]);
}

#[test]
fn names_and_query_are_lowered_before_they_are_scored() {
    let matcher = SkimMatcherV2::default();
    let list = names(&["Ribeye Steak", "RICE"]);
    let scores = score_names(&list, "RI").unwrap();
    assert_eq!(scores[0], matcher.fuzzy_match("ribeye steak", "ri"));
    assert_eq!(scores[1], matcher.fuzzy_match("rice", "ri"));
    assert!(scores[0].is_some());
    assert!(scores[1].is_some());
    assert_ne!(scores[0], matcher.fuzzy_match("Ribeye Steak", "RI"));
}

#[test]
fn an_empty_query_matches_every_name() {
    let list = names(&["ribeye", "rice", "salmon"]);
    assert_eq!(score_names(&list, "").unwrap(), vec![Some(0), Some(0), Some(0)]);
    assert_eq!(search_names(&list, ""), Some(vec![0, 1, 2]));
}

#[test]
fn a_search_ranks_the_names_that_match() {
    let list = names(&["salmon", "brown rice", "rice", "ribeye", "price list"]);
    let found = search_names(&list, "rice").unwrap();
    let scores = score_names(&list, "rice").unwrap();
    assert_eq!(found, sorted(&scores));
    assert_eq!(found[0], 2);
    assert!(found.contains(&1));
    assert!(found.contains(&4));
    assert!(!found.contains(&0));
    assert!(!found.contains(&3));
    assert_eq!(search_names(&list, "zzz"), Some(vec![]));
    assert_eq!(search_names(&Vec::new(), "rice"), Some(vec![]));
}

#[test]
fn a_text_too_long_is_not_scored() {
    let long = "a".repeat(MATCH_LIMIT + 1);
    let list = names(&["rice"]);
    assert_eq!(score_names(&list, &long), None);
    assert_eq!(search_names(&list, &long), None);
    let long_list = vec!["rice".to_string(), long];
    assert_eq!(score_names(&long_list, "a"), None);
    assert_eq!(search_names(&long_list, "a"), None);
}
